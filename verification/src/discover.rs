//! Serial device selection.
//!
//! An explicit `--port`/config value is used verbatim. Otherwise the USB serial
//! adapters are considered: on macOS the callout (`/dev/cu.*`) node is preferred
//! over its dial-in (`/dev/tty.*`) twin. Exactly one candidate is used
//! automatically; zero or many is an error that lists what was found.

use vstd::prelude::*;
use vstd::string::*;

use crate::text;
use crate::text::chars_of;

verus! {

/// A serial port of the host.
pub struct PortInfo {
    /// Name of the device.
    pub name: String,
    /// Whether it is a USB adapter.
    pub usb: bool,
}

/// A serial port, in the model.
pub struct PortView {
    /// Name of the device.
    pub name: Seq<char>,
    /// Whether it is a USB adapter.
    pub usb: bool,
}

impl View for PortInfo {
    type V = PortView;

    open spec fn view(&self) -> PortView {
        PortView { name: self.name@, usb: self.usb }
    }
}

/// The ports, in the model.
pub open spec fn port_views(ports: Seq<PortInfo>) -> Seq<PortView> {
    ports.map_values(|p: PortInfo| p@)
}

/// Whether a name is that of a callout node.
pub open spec fn is_callout(name: Seq<char>) -> bool {
    "/dev/cu."@.is_prefix_of(name)
}

/// Whether a name is that of a dial-in node.
pub open spec fn is_dial_in(name: Seq<char>) -> bool {
    "/dev/tty."@.is_prefix_of(name)
}

/// Whether there is a USB adapter with a callout node.
pub open spec fn callout_present(ports: Seq<PortView>) -> bool {
    exists|i: int| 0 <= i < ports.len() && (#[trigger] ports[i]).usb && is_callout(ports[i].name)
}

/// The names of the USB adapters, in order, without those of dial-in nodes if
/// `callouts` says that there are callout nodes.
pub open spec fn names(ports: Seq<PortView>, callouts: bool) -> Seq<Seq<char>>
    decreases ports.len(),
{
    if ports.len() == 0 {
        Seq::empty()
    } else {
        let p = ports.last();
        let before = names(ports.drop_last(), callouts);
        if p.usb && !(callouts && is_dial_in(p.name)) {
            before.push(p.name)
        } else {
            before
        }
    }
}

/// The devices to choose from.
pub open spec fn candidates(ports: Seq<PortView>) -> Seq<Seq<char>> {
    names(ports, callout_present(ports))
}

/// `items`, one after the other, with `, ` between them.
pub open spec fn joined(items: Seq<Seq<char>>) -> Seq<char>
    decreases items.len(),
{
    if items.len() == 0 {
        Seq::empty()
    } else if items.len() == 1 {
        items[0]
    } else {
        joined(items.drop_last()) + ", "@ + items.last()
    }
}

/// Why no serial device could be chosen.
#[derive(Debug)]
pub enum PortError {
    /// There is no USB serial device.
    NoDevice,
    /// There are several; these.
    Several(Vec<String>),
}

impl PortError {
    /// The error in words.
    pub fn to_string(&self) -> (text: String)
        ensures
            text@ == match self {
                PortError::NoDevice =>
                    "no USB serial device found; pass --port <dev> (e.g. /dev/cu.usbserial-XXXX)"@,
                PortError::Several(found) => "multiple USB serial devices found: "@ + joined(
                    text::texts(found@),
                ) + "; pass --port to choose one"@,
            },
    {
        match self {
            PortError::NoDevice =>
                "no USB serial device found; pass --port <dev> (e.g. /dev/cu.usbserial-XXXX)".to_owned(),
            PortError::Several(found) => {
                let mut out: String = "multiple USB serial devices found: ".to_owned();
                out.append(join(found).as_str());
                out.append("; pass --port to choose one");
                out
            },
        }
    }
}

fn join(items: &Vec<String>) -> (out: String)
    ensures
        out@ == joined(text::texts(items@)),
{
    let mut out: String = String::new();
    let mut i: usize = 0;
    let ghost all = text::texts(items@);
    proof {
        reveal_strlit("");
        assert(out@ =~= joined(all.take(0)));
    }
    while i < items.len()
        invariant
            i <= items@.len(),
            all == text::texts(items@),
            out@ == joined(all.take(i as int)),
        decreases items@.len() - i,
    {
        proof {
            assert(all.take(i + 1).drop_last() =~= all.take(i as int));
            assert(all.take(i + 1).last() == items@[i as int]@);
        }
        if i > 0 {
            out.append(", ");
        }
        out.append(items[i].as_str());
        assert(out@ =~= joined(all.take(i + 1)));
        i = i + 1;
    }
    assert(all.take(items@.len() as int) =~= all);
    out
}

fn starts_with(name: &str, prefix: &str) -> (yes: bool)
    ensures
        yes == prefix@.is_prefix_of(name@),
{
    let n: Vec<char> = chars_of(name);
    let p: Vec<char> = chars_of(prefix);
    if p.len() > n.len() {
        return false;
    }
    let mut i: usize = 0;
    while i < p.len()
        invariant
            i <= p@.len() <= n@.len(),
            n@ == name@,
            p@ == prefix@,
            forall|k: int| 0 <= k < i ==> p@[k] == n@[k],
        decreases p@.len() - i,
    {
        if p[i] != n[i] {
            return false;
        }
        i = i + 1;
    }
    assert(p@ =~= n@.subrange(0, p@.len() as int));
    true
}

fn any_callout(ports: &Vec<PortInfo>) -> (yes: bool)
    ensures
        yes == callout_present(port_views(ports@)),
{
    let mut i: usize = 0;
    let ghost all = port_views(ports@);
    while i < ports.len()
        invariant
            i <= ports@.len(),
            all == port_views(ports@),
            forall|k: int| 0 <= k < i ==> !((#[trigger] all[k]).usb && is_callout(all[k].name)),
        decreases ports@.len() - i,
    {
        assert(all[i as int] == ports@[i as int]@);
        if ports[i].usb && starts_with(ports[i].name.as_str(), "/dev/cu.") {
            return true;
        }
        i = i + 1;
    }
    false
}

fn collect(ports: &Vec<PortInfo>, callouts: bool) -> (found: Vec<String>)
    ensures
        text::texts(found@) == names(port_views(ports@), callouts),
{
    let mut found: Vec<String> = Vec::new();
    let mut i: usize = 0;
    let ghost all = port_views(ports@);
    assert(text::texts(found@) =~= names(all.take(0), callouts));
    while i < ports.len()
        invariant
            i <= ports@.len(),
            all == port_views(ports@),
            text::texts(found@) == names(all.take(i as int), callouts),
        decreases ports@.len() - i,
    {
        let ghost before = found@;
        proof {
            assert(all.take(i + 1).drop_last() =~= all.take(i as int));
            assert(all.take(i + 1).last() == ports@[i as int]@);
        }
        let p: &PortInfo = &ports[i];
        if p.usb && !(callouts && starts_with(p.name.as_str(), "/dev/tty.")) {
            found.push(p.name.clone());
            assert(text::texts(found@) =~= text::texts(before).push(p.name@));
        }
        i = i + 1;
    }
    assert(all.take(ports@.len() as int) =~= all);
    found
}

/// Resolves the serial device to open: the one that was asked for, or the only
/// candidate among the `ports` there are.
pub fn resolve_port(requested: Option<&str>, ports: &Vec<PortInfo>) -> (r: Result<
    String,
    PortError,
>)
    ensures
        match requested {
            Some(p) => r matches Ok(name) && name@ == p@,
            None => match r {
                Ok(name) => candidates(port_views(ports@)) == seq![name@],
                Err(PortError::NoDevice) => candidates(port_views(ports@)).len() == 0,
                Err(PortError::Several(found)) => {
                    &&& text::texts(found@) == candidates(port_views(ports@))
                    &&& candidates(port_views(ports@)).len() > 1
                },
            },
        },
        port_choice(
            match requested {
                Some(p) => Some(p@),
                None => None,
            },
            port_views(ports@),
        ) == match r {
            Ok(name) => Ok::<Seq<char>, Seq<Seq<char>>>(name@),
            Err(PortError::NoDevice) => Err(Seq::empty()),
            Err(PortError::Several(found)) => Err(text::texts(found@)),
        },
{
    if let Some(p) = requested {
        return Ok(p.to_owned());
    }
    let found: Vec<String> = collect(ports, any_callout(ports));
    if found.len() == 1 {
        let name: String = found[0].clone();
        assert(text::texts(found@) =~= seq![name@]);
        Ok(name)
    } else if found.len() == 0 {
        assert(text::texts(found@) =~= Seq::<Seq<char>>::empty());
        Err(PortError::NoDevice)
    } else {
        Err(PortError::Several(found))
    }
}

/// A device that is chosen unasked is a USB adapter.
pub proof fn lemma_chosen_is_usb(ports: Seq<PortView>, callouts: bool, k: int)
    requires
        0 <= k < names(ports, callouts).len(),
    ensures
        exists|i: int|
            0 <= i < ports.len() && (#[trigger] ports[i]).usb && ports[i].name == names(
                ports,
                callouts,
            )[k] && !(callouts && is_dial_in(ports[i].name)),
    decreases ports.len(),
{
    let init = ports.drop_last();
    let p = ports.last();
    if k < names(init, callouts).len() {
        lemma_chosen_is_usb(init, callouts, k);
        let i = choose|i: int|
            0 <= i < init.len() && (#[trigger] init[i]).usb && init[i].name == names(
                init,
                callouts,
            )[k] && !(callouts && is_dial_in(init[i].name));
        assert(ports[i] == init[i]);
    } else {
        assert(ports[ports.len() - 1] == p);
    }
}

/// The names to choose from are those of all USB adapters, in the order of the
/// ports, but for the dial-in ones where `callouts` is set.
pub proof fn lemma_names_of_adapters(ports: Seq<PortView>, callouts: bool)
    ensures
        names(ports, callouts) == ports.filter(
            |p: PortView| p.usb && !(callouts && "/dev/tty."@.is_prefix_of(p.name)),
        ).map_values(|p: PortView| p.name),
    decreases ports.len(),
{
    reveal(Seq::filter);
    let keep = |p: PortView| p.usb && !(callouts && "/dev/tty."@.is_prefix_of(p.name));
    let name = |p: PortView| p.name;
    if ports.len() > 0 {
        let init = ports.drop_last();
        lemma_names_of_adapters(init, callouts);
        if keep(ports.last()) {
            assert(init.filter(keep).push(ports.last()).map_values(name) =~= init.filter(
                keep,
            ).map_values(name).push(ports.last().name));
        }
    }
    assert(names(ports, callouts) =~= ports.filter(keep).map_values(name));
}

/// Dial-in nodes are left out exactly if some USB adapter has a callout node.
/// Both kinds of node are told by how the name starts, whatever follows.
pub proof fn lemma_candidates(ports: Seq<PortView>, rest: Seq<char>)
    ensures
        (exists|i: int|
            0 <= i < ports.len() && (#[trigger] ports[i]).usb && "/dev/cu."@.is_prefix_of(
                ports[i].name,
            )) ==> candidates(ports) == names(ports, true),
        (forall|i: int|
            0 <= i < ports.len() ==> !((#[trigger] ports[i]).usb && "/dev/cu."@.is_prefix_of(
                ports[i].name,
            ))) ==> candidates(ports) == names(ports, false),
        is_callout("/dev/cu."@ + rest),
        is_dial_in("/dev/tty."@ + rest),
        forall|name: Seq<char>| #[trigger]
            is_callout(name) ==> exists|tail: Seq<char>| name == #[trigger] ("/dev/cu."@ + tail),
        forall|name: Seq<char>| #[trigger]
            is_dial_in(name) ==> exists|tail: Seq<char>| name == #[trigger] ("/dev/tty."@ + tail),
{
    let cu = "/dev/cu."@;
    let tty = "/dev/tty."@;
    assert((cu + rest).subrange(0, cu.len() as int) =~= cu);
    assert((tty + rest).subrange(0, tty.len() as int) =~= tty);
    assert forall|name: Seq<char>| #[trigger] is_callout(name) implies exists|tail: Seq<char>|
        name == #[trigger] (cu + tail) by {
        assert(name =~= cu + name.skip(cu.len() as int));
    }
    assert forall|name: Seq<char>| #[trigger] is_dial_in(name) implies exists|tail: Seq<char>|
        name == #[trigger] (tty + tail) by {
        assert(name =~= tty + name.skip(tty.len() as int));
    }
}

/// One item stands for itself, and each further one follows a comma and a space.
pub proof fn lemma_joined(items: Seq<Seq<char>>, item: Seq<char>)
    ensures
        joined(Seq::empty()).len() == 0,
        joined(seq![item]) == item,
        items.len() > 0 ==> joined(items.push(item)) == joined(items) + ", "@ + item,
{
    assert(items.push(item).drop_last() =~= items);
}

/// The device to open, or the candidates if they are not exactly one.
pub open spec fn port_choice(requested: Option<Seq<char>>, ports: Seq<PortView>) -> Result<
    Seq<char>,
    Seq<Seq<char>>,
> {
    match requested {
        Some(name) => Ok(name),
        None => if candidates(ports).len() == 1 {
            Ok(candidates(ports)[0])
        } else {
            Err(candidates(ports))
        },
    }
}

/// A device that is asked for is used verbatim, whatever ports there are. Of the
/// ports, the only USB adapter is used. Where an adapter has both nodes, the
/// callout is. Several are listed as they come.
pub proof fn lemma_port_chosen(
    name: Seq<char>,
    ports: Seq<PortView>,
    p: PortView,
    q: PortView,
)
    ensures
        port_choice(Some(name), ports) == Ok::<Seq<char>, Seq<Seq<char>>>(name),
        port_choice(None, Seq::empty()) == Err::<Seq<char>, Seq<Seq<char>>>(Seq::empty()),
        p.usb ==> port_choice(None, seq![p]) == Ok::<Seq<char>, Seq<Seq<char>>>(p.name),
        !p.usb ==> port_choice(None, seq![p]) == Err::<Seq<char>, Seq<Seq<char>>>(Seq::empty()),
        !p.usb ==> port_choice(None, ports.push(p)) == port_choice(None, ports),
        p.usb && q.usb && "/dev/cu."@.is_prefix_of(p.name) && "/dev/tty."@.is_prefix_of(q.name)
            ==> port_choice(None, seq![p, q]) == Ok::<
            Seq<char>,
            Seq<Seq<char>>,
        >(p.name),
{
    let none = Seq::<PortView>::empty();
    reveal_strlit("/dev/cu.");
    reveal_strlit("/dev/tty.");
    if is_callout(p.name) && is_dial_in(p.name) {
        assert("/dev/cu."@[5] == p.name.subrange(0, "/dev/cu."@.len() as int)[5]);
        assert("/dev/tty."@[5] == p.name.subrange(0, "/dev/tty."@.len() as int)[5]);
    }
    assert(candidates(none) =~= Seq::<Seq<char>>::empty());
    let one = seq![p];
    assert(one.drop_last() =~= none);
    assert(names(one.drop_last(), true).len() == 0);
    assert(names(one.drop_last(), false).len() == 0);
    if callout_present(one) {
        assert(is_callout(one[0].name));
    }
    if !p.usb {
        assert(candidates(one) =~= Seq::<Seq<char>>::empty());
        let more = ports.push(p);
        assert(more.drop_last() =~= ports);
        if callout_present(ports) {
            let i = choose|i: int|
                0 <= i < ports.len() && (#[trigger] ports[i]).usb && is_callout(ports[i].name);
            assert(more[i] == ports[i]);
        }
        if callout_present(more) {
            let i = choose|i: int|
                0 <= i < more.len() && (#[trigger] more[i]).usb && is_callout(more[i].name);
            assert(more[i] == ports[i]);
        }
        assert(candidates(more) == candidates(ports));
    }
    let two = seq![p, q];
    assert(two.drop_last() =~= one);
    assert(two.last() == q);
    if p.usb && is_callout(p.name) {
        assert(two[0] == p);
        assert(callout_present(two));
    }
}

} // verus!
