//! Which command the user asked for.

use vstd::prelude::*;
use vstd::string::*;

use crate::text;

verus! {

/// A command of `cargo pi`.
#[derive(Debug)]
pub enum Command {
    /// Build, transfer and boot.
    Load,
    /// Attach as a console.
    Console,
    /// Show the usage message.
    Help,
    /// None of these.
    Unknown(String),
}

/// A command, in the model.
pub enum CommandView {
    /// Build, transfer and boot.
    Load,
    /// Attach as a console.
    Console,
    /// Show the usage message.
    Help,
    /// None of these.
    Unknown(Seq<char>),
}

impl View for Command {
    type V = CommandView;

    open spec fn view(&self) -> CommandView {
        match *self {
            Command::Load => CommandView::Load,
            Command::Console => CommandView::Console,
            Command::Help => CommandView::Help,
            Command::Unknown(name) => CommandView::Unknown(name@),
        }
    }
}

/// The arguments without the `pi` that Cargo puts in front.
pub open spec fn own_args(args: Seq<Seq<char>>) -> Seq<Seq<char>> {
    if args.len() > 0 && args[0] == "pi"@ {
        args.skip(1)
    } else {
        args
    }
}

/// The command that the arguments name.
pub open spec fn command_of(args: Seq<Seq<char>>) -> CommandView {
    let rest = own_args(args);
    if rest.len() == 0 {
        CommandView::Help
    } else if rest[0] == "load"@ {
        CommandView::Load
    } else if rest[0] == "console"@ {
        CommandView::Console
    } else if rest[0] == "help"@ || rest[0] == "-h"@ || rest[0] == "--help"@ {
        CommandView::Help
    } else {
        CommandView::Unknown(rest[0])
    }
}

/// Reads the command off the arguments behind the program's name. A leading
/// `pi`, which Cargo inserts for `cargo pi ...`, is dropped.
pub fn dispatch(args: &Vec<String>) -> (command: Command)
    ensures
        command@ == command_of(text::texts(args@)),
{
    let ghost all = text::texts(args@);
    let first: usize = if args.len() > 0 && args[0] == "pi".to_owned() {
        1
    } else {
        0
    };
    assert(own_args(all) =~= all.skip(first as int));
    if first >= args.len() {
        return Command::Help;
    }
    let name: &String = &args[first];
    assert(own_args(all)[0] == name@);
    if *name == "load".to_owned() {
        Command::Load
    } else if *name == "console".to_owned() {
        Command::Console
    } else if *name == "help".to_owned() || *name == "-h".to_owned() || *name
        == "--help".to_owned() {
        Command::Help
    } else {
        Command::Unknown(name.clone())
    }
}

/// `cargo pi <args>` and a direct `cargo-pi <args>` ask for the same command, as
/// long as `<args>` do not themselves start with `pi`.
pub proof fn lemma_leading_pi(args: Seq<Seq<char>>)
    requires
        args.len() > 0 ==> args[0] != "pi"@,
    ensures
        command_of(seq!["pi"@] + args) == command_of(args),
{
    assert((seq!["pi"@] + args).skip(1) =~= args);
}

/// The first argument names the command, whatever follows it. No argument, and
/// each way of asking for help, shows the usage message. Any other name is told
/// back as unknown.
pub proof fn lemma_command_named(name: Seq<char>, rest: Seq<Seq<char>>)
    requires
        name != "pi"@,
    ensures
        ({
            let args = seq![name] + rest;
            &&& command_of(args) == CommandView::Load <==> name == "load"@
            &&& command_of(args) == CommandView::Console <==> name == "console"@
            &&& command_of(args) == CommandView::Help <==> {
                ||| name == "help"@
                ||| name == "-h"@
                ||| name == "--help"@
            }
            &&& command_of(args) is Unknown ==> command_of(args) == CommandView::Unknown(name)
        }),
        command_of(Seq::empty()) == CommandView::Help,
        command_of(seq!["pi"@]) == CommandView::Help,
{
    reveal_strlit("pi");
    reveal_strlit("load");
    reveal_strlit("console");
    reveal_strlit("help");
    reveal_strlit("-h");
    reveal_strlit("--help");
    let args = seq![name] + rest;
    assert(args[0] == name);
    assert("load"@.len() == 4 && "console"@.len() == 7 && "help"@.len() == 4 && "-h"@.len() == 2
        && "--help"@.len() == 6);
    assert("load"@[0] == 'l' && "help"@[0] == 'h');
}

} // verus!
