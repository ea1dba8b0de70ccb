//! From a cargo build to the flat image to transfer.
//!
//! The payload project is expected to build for a bare-metal AArch64 target.
//! This module says how to call `cargo build`, finds the executable in what the
//! build reports, and — if it is an ELF — flattens its loadable segments into
//! the raw bytes the loader places in RAM, deriving the load address and entry
//! offset from the ELF itself. A file that is already a flat binary is used
//! as-is at the configured address.

use serde_json::Value;
use vstd::prelude::*;
use vstd::string::*;

use crate::config::{Config, DEFAULT_LOAD_ADDR};
use crate::crc;
use crate::crc::crc32;
use crate::elf;
use crate::elf::{flatten_elf, is_elf, ElfError};
use crate::json;
use crate::json::Json;
use crate::text;

verus! {

/// The image to hand to the loader.
pub struct Image {
    /// Physical address to load at.
    pub load_addr: u64,
    /// Offset from `load_addr` to the entry point.
    pub entry_off: u32,
    /// The raw bytes to write to RAM.
    pub bytes: Vec<u8>,
    /// CRC-32 of `bytes`, for the header.
    pub crc32: u32,
}

/// The configured load address is not the one that an ELF was linked for.
#[derive(Debug, Clone, Copy, PartialEq, Eq, Structural)]
pub struct AddressWarning {
    /// The configured address.
    pub configured: u64,
    /// The link address, which is used.
    pub linked: u64,
}

impl AddressWarning {
    /// The warning in words.
    pub fn to_string(&self) -> (text: String)
        ensures
            text@ == "cargo-pi: warning: configured load-address 0x"@ + text::hex(
                self.configured as nat,
            ) + " differs from the ELF's link address 0x"@ + text::hex(self.linked as nat)
                + "; using the ELF address (relocating a non-PIC image would break it)."@,
    {
        let mut out: String = "cargo-pi: warning: configured load-address 0x".to_owned();
        text::push_hex(&mut out, self.configured);
        out.append(" differs from the ELF's link address 0x");
        text::push_hex(&mut out, self.linked);
        out.append("; using the ELF address (relocating a non-PIC image would break it).");
        out
    }
}

/// Load address, entry offset and bytes of the image that a file holds: what an
/// ELF flattens to, or the file itself at the configured place.
pub open spec fn image_of(data: Seq<u8>, load_addr: u64, entry_off: u32) -> Result<
    (u64, u32, Seq<u8>),
    ElfError,
> {
    if elf::has_elf_magic(data) {
        elf::flattened(data)
    } else {
        Ok((load_addr, entry_off, data))
    }
}

/// Makes the image of a built file, with a warning if the configured load
/// address is neither the default nor the ELF's own.
pub fn build_image(data: Vec<u8>, load_addr: u64, entry_off: u32) -> (r: Result<
    (Image, Option<AddressWarning>),
    ElfError,
>)
    ensures
        match r {
            Err(e) => image_of(data@, load_addr, entry_off) == Err::<(u64, u32, Seq<u8>), ElfError>(
                e,
            ),
            Ok((image, warning)) => {
                &&& image_of(data@, load_addr, entry_off) == Ok::<(u64, u32, Seq<u8>), ElfError>(
                    (image.load_addr, image.entry_off, image.bytes@),
                )
                &&& image.crc32 == crc::crc32_of(image.bytes@)
                &&& warning == if elf::has_elf_magic(data@) && load_addr != DEFAULT_LOAD_ADDR
                    && load_addr != image.load_addr {
                    Some(AddressWarning { configured: load_addr, linked: image.load_addr })
                } else {
                    None
                }
                &&& warning == address_warning(data@, load_addr, image.load_addr)
            },
        },
{
    if is_elf(data.as_slice()) {
        let (base, entry, bytes) = flatten_elf(data.as_slice())?;
        let warning: Option<AddressWarning> = if load_addr != DEFAULT_LOAD_ADDR && load_addr
            != base {
            Some(AddressWarning { configured: load_addr, linked: base })
        } else {
            None
        };
        let crc: u32 = crc32(bytes.as_slice());
        Ok((Image { load_addr: base, entry_off: entry, bytes, crc32: crc }, warning))
    } else {
        let crc: u32 = crc32(data.as_slice());
        Ok((Image { load_addr, entry_off, bytes: data, crc32: crc }, None))
    }
}

/// The arguments that cargo is called with.
pub open spec fn cargo_args(
    release: bool,
    package: Option<Seq<char>>,
    bin: Option<Seq<char>>,
) -> Seq<Seq<char>> {
    let base = seq!["build"@, "--message-format"@, "json-render-diagnostics"@];
    let with_release = if release {
        base.push("--release"@)
    } else {
        base
    };
    let with_package = match package {
        Some(pkg) => with_release.push("--package"@).push(pkg),
        None => with_release,
    };
    match bin {
        Some(bin) => with_package.push("--bin"@).push(bin),
        None => with_package,
    }
}

fn push_arg(args: &mut Vec<String>, arg: String)
    ensures
        text::texts(final(args)@) == text::texts(old(args)@).push(arg@),
{
    args.push(arg);
    assert(text::texts(args@) =~= text::texts(old(args)@).push(arg@));
}

/// The arguments for `cargo build`, with JSON output.
pub fn build_args(cfg: &Config) -> (args: Vec<String>)
    ensures
        text::texts(args@) == cargo_args(cfg.release, text::opt_text(cfg.package), text::opt_text(cfg.bin)),
{
    let mut args: Vec<String> = Vec::new();
    assert(text::texts(args@) =~= Seq::<Seq<char>>::empty());
    push_arg(&mut args, "build".to_owned());
    push_arg(&mut args, "--message-format".to_owned());
    push_arg(&mut args, "json-render-diagnostics".to_owned());
    assert(text::texts(args@) =~= seq!["build"@, "--message-format"@, "json-render-diagnostics"@]);
    if cfg.release {
        push_arg(&mut args, "--release".to_owned());
    }
    if let Some(pkg) = &cfg.package {
        push_arg(&mut args, "--package".to_owned());
        push_arg(&mut args, pkg.clone());
    }
    if let Some(bin) = &cfg.bin {
        push_arg(&mut args, "--bin".to_owned());
        push_arg(&mut args, bin.clone());
    }
    args
}

/// What is read of one message of the build.
pub struct BuildMessage {
    /// Kind of message.
    pub reason: Option<String>,
    /// Path of the executable that was produced.
    pub executable: Option<String>,
    /// Name of the target that was built.
    pub target_name: Option<String>,
}

/// A build message, in the model.
pub struct MessageView {
    /// Kind of message.
    pub reason: Option<Seq<char>>,
    /// Path of the executable that was produced.
    pub executable: Option<Seq<char>>,
    /// Name of the target that was built.
    pub target_name: Option<Seq<char>>,
}

impl View for BuildMessage {
    type V = MessageView;

    open spec fn view(&self) -> MessageView {
        MessageView {
            reason: text::opt_text(self.reason),
            executable: text::opt_text(self.executable),
            target_name: text::opt_text(self.target_name),
        }
    }
}

/// The messages, in the model.
pub open spec fn message_views(msgs: Seq<BuildMessage>) -> Seq<MessageView> {
    msgs.map_values(|m: BuildMessage| m@)
}

/// The executable that a message announces, if it is one of the target asked
/// for.
pub open spec fn announced(m: MessageView, bin: Option<Seq<char>>) -> Option<Seq<char>> {
    if m.reason == Some("compiler-artifact"@) && (bin is Some ==> m.target_name == bin) {
        m.executable
    } else {
        None
    }
}

/// The executable announced last.
pub open spec fn last_announced(msgs: Seq<MessageView>, bin: Option<Seq<char>>) -> Option<Seq<char>>
    decreases msgs.len(),
{
    if msgs.len() == 0 {
        None
    } else {
        match announced(msgs.last(), bin) {
            Some(exe) => Some(exe),
            None => last_announced(msgs.drop_last(), bin),
        }
    }
}

fn is_artifact(m: &BuildMessage, bin: &Option<String>) -> (yes: bool)
    ensures
        yes == (m@.reason == Some("compiler-artifact"@) && (text::opt_text(*bin) is Some
            ==> m@.target_name == text::opt_text(*bin))),
{
    match &m.reason {
        None => {
            return false;
        },
        Some(reason) => if *reason != "compiler-artifact".to_owned() {
            return false;
        },
    }
    match (bin, &m.target_name) {
        (None, _) => true,
        (Some(_), None) => false,
        (Some(bin), Some(name)) => *name == *bin,
    }
}

/// Picks the executable out of the messages of a build: that of the last
/// compiler artifact (the final linked binary), honoring a `--bin` selection.
pub fn select_executable(msgs: &Vec<BuildMessage>, bin: &Option<String>) -> (exe: Option<String>)
    ensures
        text::opt_text(exe) == last_announced(message_views(msgs@), text::opt_text(*bin)),
{
    let mut i: usize = msgs.len();
    let ghost all = message_views(msgs@);
    assert(all.take(msgs@.len() as int) =~= all);
    while i > 0
        invariant
            i <= msgs@.len(),
            all == message_views(msgs@),
            last_announced(all, text::opt_text(*bin)) == last_announced(
                all.take(i as int),
                text::opt_text(*bin),
            ),
        decreases i,
    {
        i = i - 1;
        let m: &BuildMessage = &msgs[i];
        proof {
            assert(all.take(i + 1).last() == m@);
            assert(all.take(i + 1).drop_last() =~= all.take(i as int));
        }
        if is_artifact(m, bin) {
            if let Some(exe) = &m.executable {
                return Some(exe.clone());
            }
        }
    }
    None
}

/// What is read of a JSON document.
pub open spec fn message_of(j: Json) -> MessageView {
    MessageView {
        reason: j.member_text("reason"@),
        executable: j.member_text("executable"@),
        target_name: match j.nested("target"@, "name"@) {
            None => None,
            Some(name) => name.text(),
        },
    }
}

fn member_text(v: &Value, key: &str) -> (r: Option<String>)
    ensures
        text::opt_text(r) == json::contents(*v).member_text(key@),
{
    match json::get(v, key) {
        None => None,
        Some(value) => match value.as_str() {
            None => None,
            Some(s) => Some(s.to_owned()),
        },
    }
}

/// `/target/name` is the pointer to `name` in `target`.
proof fn lemma_target_name()
    ensures
        json::plain_key("target"@),
        json::plain_key("name"@),
        "/target/name"@ == json::pointer_to("target"@, "name"@),
{
    reveal_strlit("target");
    reveal_strlit("name");
    reveal_strlit("/target/name");
    assert("/target/name"@ =~= json::pointer_to("target"@, "name"@));
}

/// Reads one line of the build's output. A line that is not JSON is no message.
pub fn read_message(line: &[u8]) -> (m: Option<BuildMessage>)
    ensures
        match m {
            Some(m) => json::parsed(line@) is Some && m@ == message_of(json::parsed(line@)->0),
            None => json::parsed(line@) is None,
        },
{
    match json::parse(line) {
        Err(_) => None,
        Ok(v) => {
            proof {
                lemma_target_name();
            }
            let target_name: Option<String> = match v.pointer("/target/name") {
                None => None,
                Some(name) => match name.as_str() {
                    None => None,
                    Some(s) => Some(s.to_owned()),
                },
            };
            Some(
                BuildMessage {
                    reason: member_text(&v, "reason"),
                    executable: member_text(&v, "executable"),
                    target_name,
                },
            )
        },
    }
}

/// The pieces between line feeds.
pub open spec fn lines(out: Seq<u8>) -> Seq<Seq<u8>>
    decreases out.len(),
{
    if out.len() == 0 {
        seq![Seq::empty()]
    } else {
        let before = lines(out.drop_last());
        if out.last() == 0x0A {
            before.push(Seq::empty())
        } else {
            before.drop_last().push(before.last().push(out.last()))
        }
    }
}

/// The messages on `lines`: empty lines and lines that are not JSON are skipped.
pub open spec fn messages(lines: Seq<Seq<u8>>) -> Seq<MessageView>
    decreases lines.len(),
{
    if lines.len() == 0 {
        Seq::empty()
    } else {
        let before = messages(lines.drop_last());
        let line = lines.last();
        if line.len() > 0 && json::parsed(line) is Some {
            before.push(message_of(json::parsed(line)->0))
        } else {
            before
        }
    }
}

fn push_message(msgs: &mut Vec<BuildMessage>, line: &[u8])
    ensures
        forall|before: Seq<Seq<u8>>|
            message_views(old(msgs)@) == messages(before) ==> message_views(final(msgs)@)
                == #[trigger] messages(before.push(line@)),
{
    let ghost had = message_views(msgs@);
    if line.len() > 0 {
        if let Some(m) = read_message(line) {
            msgs.push(m);
            assert(message_views(msgs@) =~= had.push(m@));
        }
    }
    assert forall|before: Seq<Seq<u8>>| had == messages(before) implies message_views(msgs@)
        == #[trigger] messages(before.push(line@)) by {
        assert(before.push(line@).drop_last() =~= before);
    }
}

/// Reads all messages of the build's output.
pub fn read_messages(out: &[u8]) -> (msgs: Vec<BuildMessage>)
    ensures
        message_views(msgs@) == messages(lines(out@)),
{
    let mut msgs: Vec<BuildMessage> = Vec::new();
    let mut start: usize = 0;
    let mut i: usize = 0;
    let ghost mut done: Seq<Seq<u8>> = Seq::empty();
    assert(message_views(msgs@) =~= Seq::<MessageView>::empty());
    assert(out@.subrange(0, 0) =~= Seq::<u8>::empty());
    assert(lines(out@.take(0)) =~= done.push(out@.subrange(0, 0)));
    while i < out.len()
        invariant
            start <= i <= out@.len(),
            lines(out@.take(i as int)) == done.push(out@.subrange(start as int, i as int)),
            message_views(msgs@) == messages(done),
        decreases out@.len() - i,
    {
        let line: &[u8] = vstd::slice::slice_subrange(out, start, i);
        let ghost whole = lines(out@.take(i as int));
        proof {
            assert(out@.take(i + 1).drop_last() =~= out@.take(i as int));
            assert(whole.drop_last() =~= done);
        }
        if out[i] == 0x0A {
            push_message(&mut msgs, line);
            proof {
                assert(out@.subrange(i + 1, i + 1) =~= Seq::<u8>::empty());
                done = done.push(line@);
            }
            start = i + 1;
        } else {
            proof {
                assert(line@.push(out@[i as int]) =~= out@.subrange(start as int, i + 1));
            }
        }
        i = i + 1;
    }
    let line: &[u8] = vstd::slice::slice_subrange(out, start, i);
    push_message(&mut msgs, line);
    assert(out@.take(out@.len() as int) =~= out@);
    msgs
}

/// Why a build gave no executable.
#[derive(Debug, Clone, Copy, PartialEq, Eq, Structural)]
pub enum BuildError {
    /// `cargo build` did not succeed.
    Failed,
    /// `cargo build` announced no executable.
    NoExecutable,
}

impl BuildError {
    /// The error in words.
    pub fn to_string(&self) -> (text: String)
        ensures
            text@ == match self {
                BuildError::Failed => "cargo build failed"@,
                BuildError::NoExecutable =>
                    "cargo build produced no executable (is this a binary crate for the Pi target?)"@,
            },
    {
        match self {
            BuildError::Failed => "cargo build failed".to_owned(),
            BuildError::NoExecutable =>
                "cargo build produced no executable (is this a binary crate for the Pi target?)".to_owned(),
        }
    }
}

/// The executable that a build produced, from whether it succeeded and from what
/// it wrote.
pub fn built_executable(success: bool, out: &[u8], bin: &Option<String>) -> (r: Result<
    String,
    BuildError,
>)
    ensures
        ({
            let exe = last_announced(messages(lines(out@)), text::opt_text(*bin));
            match r {
                Ok(path) => success && exe == Some(path@),
                Err(BuildError::Failed) => !success,
                Err(BuildError::NoExecutable) => success && exe is None,
            }
        }),
        built(success, out@, text::opt_text(*bin)) == match r {
            Ok(path) => Ok::<Seq<char>, BuildError>(path@),
            Err(e) => Err(e),
        },
{
    if !success {
        return Err(BuildError::Failed);
    }
    let msgs: Vec<BuildMessage> = read_messages(out);
    match select_executable(&msgs, bin) {
        Some(exe) => Ok(exe),
        None => Err(BuildError::NoExecutable),
    }
}

/// An executable announced by a later message replaces an earlier one, and a
/// message that announces none changes nothing.
pub proof fn lemma_last_artifact_wins(
    msgs: Seq<MessageView>,
    m: MessageView,
    bin: Option<Seq<char>>,
)
    ensures
        announced(m, bin) is Some ==> last_announced(msgs.push(m), bin) == announced(m, bin),
        announced(m, bin) is None ==> last_announced(msgs.push(m), bin) == last_announced(
            msgs,
            bin,
        ),
{
    assert(msgs.push(m).drop_last() =~= msgs);
}

proof fn lemma_lines_not_empty(out: Seq<u8>)
    ensures
        lines(out).len() > 0,
    decreases out.len(),
{
    if out.len() > 0 {
        lemma_lines_not_empty(out.drop_last());
    }
}

/// Bytes without a line feed lengthen the last line, and a line feed ends it.
pub proof fn lemma_lines_of_more(out: Seq<u8>, l: Seq<u8>)
    requires
        forall|i: int| 0 <= i < l.len() ==> (#[trigger] l[i]) != 0x0A,
    ensures
        lines(out).len() > 0,
        lines(out + l) == lines(out).drop_last().push(lines(out).last() + l),
        lines(out.push(0x0A)) == lines(out).push(Seq::empty()),
    decreases l.len(),
{
    lemma_lines_not_empty(out);
    assert(out.push(0x0A).drop_last() =~= out);
    if l.len() == 0 {
        assert(out + l =~= out);
        assert(lines(out).last() + l =~= lines(out).last());
        assert(lines(out).drop_last().push(lines(out).last()) =~= lines(out));
    } else {
        let init = l.drop_last();
        assert forall|i: int| 0 <= i < init.len() implies (#[trigger] init[i]) != 0x0A by {
            assert(init[i] == l[i]);
        }
        lemma_lines_of_more(out, init);
        let before = lines(out + init);
        assert((out + l).drop_last() =~= out + init);
        assert((out + l).last() == l.last() && l.last() == l[l.len() - 1]);
        assert(before.drop_last() =~= lines(out).drop_last());
        assert(before.last().push(l.last()) =~= lines(out).last() + l);
    }
}

/// No text is one empty line, and a text that ends in a line feed has an empty
/// last line.
pub proof fn lemma_fresh_line(out: Seq<u8>)
    requires
        out.len() == 0 || out.last() == 0x0A,
    ensures
        lines(out).len() > 0,
        lines(out).last().len() == 0,
        out.len() == 0 ==> lines(out) == seq![Seq::<u8>::empty()],
{
}

/// The lines of a text, put together with line feeds between them.
pub open spec fn unlines(ls: Seq<Seq<u8>>) -> Seq<u8>
    decreases ls.len(),
{
    if ls.len() == 0 {
        Seq::empty()
    } else if ls.len() == 1 {
        ls[0]
    } else {
        unlines(ls.drop_last()).push(0x0A) + ls.last()
    }
}

/// Splitting loses nothing: the lines with line feeds between them are the text,
/// and no line holds a line feed.
pub proof fn lemma_lines_are_the_text(out: Seq<u8>)
    ensures
        unlines(lines(out)) == out,
        forall|k: int, i: int|
            0 <= k < lines(out).len() && 0 <= i < lines(out)[k].len() ==> (
            #[trigger] lines(out)[k][i]) != 0x0A,
    decreases out.len(),
{
    if out.len() > 0 {
        let init = out.drop_last();
        let before = lines(init);
        lemma_lines_are_the_text(init);
        lemma_lines_not_empty(init);
        assert(init.push(out.last()) =~= out);
        let all = lines(out);
        if out.last() == 0x0A {
            assert(all.drop_last() =~= before);
            assert(unlines(all) =~= out);
        } else {
            let longer = before.last().push(out.last());
            if before.len() == 1 {
                assert(unlines(all) =~= out);
            } else {
                assert(all.drop_last() =~= before.drop_last());
                assert(unlines(all) =~= out);
            }
            assert(all.last() == longer);
        }
        assert forall|k: int, i: int|
            0 <= k < all.len() && 0 <= i < all[k].len() implies (#[trigger] all[k][i]) != 0x0A by {
            if out.last() == 0x0A {
                if k < before.len() {
                    assert(all[k] == before[k]);
                    assert(before[k][i] != 0x0A);
                }
            } else if k < before.len() - 1 {
                assert(all[k] == before[k]);
                assert(before[k][i] != 0x0A);
            } else {
                assert(all[k] == before.last().push(out.last()));
                if i < before.last().len() {
                    assert(before[before.len() - 1][i] != 0x0A);
                }
            }
        }
    }
}

/// A line of any length that parses as JSON and follows a line feed gives one
/// more message, behind all earlier ones, and the executable that it announces is
/// the build's. Any other line gives none. A line feed at the end changes nothing.
pub proof fn lemma_line_is_message(out: Seq<u8>, l: Seq<u8>, bin: Option<Seq<char>>)
    requires
        out.len() == 0 || out.last() == 0x0A,
        l.len() > 0,
        forall|i: int| 0 <= i < l.len() ==> (#[trigger] l[i]) != 0x0A,
    ensures
        json::parsed(l) is Some ==> messages(lines(out + l)) == messages(lines(out)).push(
            message_of(json::parsed(l)->0),
        ),
        json::parsed(l) is None ==> messages(lines(out + l)) == messages(lines(out)),
        messages(lines((out + l).push(0x0A))) == messages(lines(out + l)),
        messages(lines(Seq::<u8>::empty())).len() == 0,
        ({
            let exe = last_announced(messages(lines(out + l)), bin);
            let earlier = last_announced(messages(lines(out)), bin);
            let j = json::parsed(l)->0;
            let named = json::parsed(l) is Some && j.member_text("reason"@) == Some(
                "compiler-artifact"@,
            ) && (bin is None || (j.nested("target"@, "name"@) is Some && j.nested(
                "target"@,
                "name"@,
            )->0.text() == bin)) && j.member_text("executable"@) is Some;
            &&& named ==> exe == j.member_text("executable"@)
            &&& !named ==> exe == earlier
        }),
{
    lemma_lines_of_more(out, l);
    lemma_lines_of_more(out + l, Seq::empty());
    lemma_fresh_line(out);
    let head = lines(out).drop_last();
    let empty = Seq::<u8>::empty();
    assert(lines(out).last() =~= empty);
    assert(empty + l =~= l);
    assert(lines(out) =~= head.push(empty));
    assert(head.push(empty).drop_last() =~= head);
    assert(messages(lines(out)) == messages(head));
    assert(head.push(l).drop_last() =~= head);
    let all = lines(out + l);
    assert(all.push(empty).drop_last() =~= all);
    assert(lines(empty).drop_last() =~= Seq::<Seq<u8>>::empty());
    assert(messages(lines(empty).drop_last()).len() == 0);
    if json::parsed(l) is Some {
        let m = message_of(json::parsed(l)->0);
        lemma_last_artifact_wins(messages(lines(out)), m, bin);
    }
}

/// Which messages announce an executable: those of an artifact that was compiled,
/// that name one, for the target asked for or for any if none was.
pub proof fn lemma_announced_iff(m: MessageView, bin: Option<Seq<char>>)
    ensures
        announced(m, bin) is Some <==> {
            &&& m.reason == Some("compiler-artifact"@)
            &&& m.executable is Some
            &&& bin is None || m.target_name == bin
        },
        announced(m, bin) is Some ==> announced(m, bin) == m.executable,
{
}

/// The executable is that of the last message that announces one.
pub proof fn lemma_selected(msgs: Seq<MessageView>, bin: Option<Seq<char>>)
    ensures
        match last_announced(msgs, bin) {
            Some(exe) => exists|k: int|
                0 <= k < msgs.len() && announced(#[trigger] msgs[k], bin) == Some(exe) && forall|
                    j: int,
                |
                    k < j < msgs.len() ==> announced(#[trigger] msgs[j], bin) is None,
            None => forall|k: int|
                0 <= k < msgs.len() ==> announced(#[trigger] msgs[k], bin) is None,
        },
    decreases msgs.len(),
{
    if msgs.len() > 0 {
        let n = msgs.len() - 1;
        let init = msgs.drop_last();
        lemma_selected(init, bin);
        assert(msgs[n] == msgs.last());
        if announced(msgs.last(), bin) is None {
            match last_announced(init, bin) {
                Some(exe) => {
                    let k = choose|k: int|
                        0 <= k < init.len() && announced(#[trigger] init[k], bin) == Some(exe)
                            && forall|j: int|
                            k < j < init.len() ==> announced(#[trigger] init[j], bin) is None;
                    assert(msgs[k] == init[k]);
                    assert forall|j: int| k < j < msgs.len() implies announced(
                        #[trigger] msgs[j],
                        bin,
                    ) is None by {
                        if j < n {
                            assert(msgs[j] == init[j]);
                        }
                    }
                },
                None => {
                    assert forall|k: int| 0 <= k < msgs.len() implies announced(
                        #[trigger] msgs[k],
                        bin,
                    ) is None by {
                        if k < n {
                            assert(msgs[k] == init[k]);
                        }
                    }
                },
            }
        }
    }
}

/// A file that is no ELF is its own image at the configured place. The image of
/// an ELF does not depend on what is configured.
pub proof fn lemma_image_of_file(data: Seq<u8>, load_addr: u64, entry_off: u32, other: u64)
    ensures
        data.len() < 4 || data[0] != 0x7F || data[1] != 0x45 || data[2] != 0x4C || data[3] != 0x46
            ==> image_of(data, load_addr, entry_off) == Ok::<(u64, u32, Seq<u8>), ElfError>(
            (load_addr, entry_off, data),
        ),
        data.len() >= 4 && data[0] == 0x7F && data[1] == 0x45 && data[2] == 0x4C && data[3] == 0x46
            ==> image_of(data, load_addr, entry_off) == elf::flattened(data),
        ({
            let w = address_warning(data, load_addr, other);
            &&& w is Some <==> {
                &&& data.len() >= 4
                &&& data[0] == 0x7F
                &&& data[1] == 0x45
                &&& data[2] == 0x4C
                &&& data[3] == 0x46
                &&& load_addr != 0x20_0000
                &&& load_addr != other
            }
            &&& w is Some ==> w->0.configured == load_addr && w->0.linked == other
        }),
{
    elf::lemma_magic(data);
}

/// The warning for an ELF that is linked elsewhere than configured.
pub open spec fn address_warning(data: Seq<u8>, load_addr: u64, linked: u64) -> Option<
    AddressWarning,
> {
    if elf::has_elf_magic(data) && load_addr != DEFAULT_LOAD_ADDR && load_addr != linked {
        Some(AddressWarning { configured: load_addr, linked })
    } else {
        None
    }
}

/// What cargo is told: to build and report in JSON, and then what was asked for,
/// each name right behind its flag.
pub proof fn lemma_cargo_told(release: bool, pkg: Seq<char>, bin: Seq<char>)
    ensures
        cargo_args(release, None, None) == seq![
            "build"@,
            "--message-format"@,
            "json-render-diagnostics"@,
        ] + (if release {
            seq!["--release"@]
        } else {
            Seq::empty()
        }),
        cargo_args(release, Some(pkg), None) == cargo_args(release, None, None) + seq![
            "--package"@,
            pkg,
        ],
        cargo_args(release, None, Some(bin)) == cargo_args(release, None, None) + seq![
            "--bin"@,
            bin,
        ],
        cargo_args(release, Some(pkg), Some(bin)) == cargo_args(release, Some(pkg), None) + seq![
            "--bin"@,
            bin,
        ],
{
    let b = seq!["build"@, "--message-format"@, "json-render-diagnostics"@];
    assert(cargo_args(release, None, None) =~= b + (if release {
        seq!["--release"@]
    } else {
        Seq::empty()
    }));
    assert(cargo_args(release, Some(pkg), None) =~= cargo_args(release, None, None) + seq![
        "--package"@,
        pkg,
    ]);
    assert(cargo_args(release, None, Some(bin)) =~= cargo_args(release, None, None) + seq![
        "--bin"@,
        bin,
    ]);
    assert(cargo_args(release, Some(pkg), Some(bin)) =~= cargo_args(release, Some(pkg), None)
        + seq!["--bin"@, bin]);
}

/// What a message tells: its reason and its executable where they are strings,
/// and the name of its target where that is one.
pub proof fn lemma_message_fields(j: Json, name: Json)
    ensures
        message_of(j).reason == j.member_text("reason"@),
        message_of(j).executable == j.member_text("executable"@),
        j.nested("target"@, "name"@) == Some(name) ==> message_of(j).target_name == name.text(),
        j.nested("target"@, "name"@) is None ==> message_of(j).target_name is None,
{
}

/// What a build gives: the executable announced last, if it succeeded.
pub open spec fn built(success: bool, out: Seq<u8>, bin: Option<Seq<char>>) -> Result<
    Seq<char>,
    BuildError,
> {
    if !success {
        Err(BuildError::Failed)
    } else {
        match last_announced(messages(lines(out)), bin) {
            Some(exe) => Ok(exe),
            None => Err(BuildError::NoExecutable),
        }
    }
}

/// A build that succeeds and whose last line, of any length, announces an
/// executable of the target asked for gives that executable. A line that
/// announces none leaves what the lines before it give. A build that fails gives
/// none, whatever it writes.
pub proof fn lemma_last_line_decides(
    out: Seq<u8>,
    l: Seq<u8>,
    bin: Option<Seq<char>>,
    exe: Seq<char>,
)
    requires
        out.len() == 0 || out.last() == 0x0A,
        l.len() > 0,
        forall|i: int| 0 <= i < l.len() ==> (#[trigger] l[i]) != 0x0A,
    ensures
        built(false, out, bin) == Err::<Seq<char>, BuildError>(BuildError::Failed),
        built(true, Seq::empty(), bin) == Err::<Seq<char>, BuildError>(BuildError::NoExecutable),
        ({
            let j = json::parsed(l)->0;
            let target = j.nested("target"@, "name"@);
            let announces = json::parsed(l) is Some && j.member_text("reason"@) == Some(
                "compiler-artifact"@,
            ) && j.member_text("executable"@) == Some(exe) && (bin is None || (target is Some
                && target->0.text() == bin));
            announces ==> {
                &&& built(true, out + l, bin) == Ok::<Seq<char>, BuildError>(exe)
                &&& built(true, (out + l).push(0x0A), bin) == Ok::<Seq<char>, BuildError>(exe)
            }
        }),
        json::parsed(l) is None ==> built(true, out + l, bin) == built(true, out, bin),
        json::parsed(l) is Some && json::parsed(l)->0.member_text("executable"@) is None ==> built(
            true,
            out + l,
            bin,
        ) == built(true, out, bin),
{
    lemma_line_is_message(out, l, bin);
}

} // verus!
