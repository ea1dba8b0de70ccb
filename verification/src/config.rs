//! Resolved configuration, merging three sources in increasing precedence:
//! built-in Pi 2 defaults, `[package.metadata.pi]` in the payload's
//! `Cargo.toml`, and command-line flags.

use serde_json::Value;
use vstd::prelude::*;

use crate::json;
use crate::json::Json;
use crate::number;
use crate::number::{parse_u64, InvalidInteger};

verus! {

/// Default serial baud rate.
pub const DEFAULT_BAUD: u32 = 115_200;

/// Default load address, matching the loader's writable window.
pub const DEFAULT_LOAD_ADDR: u64 = 0x0020_0000;

/// Fully resolved settings for a `load`/`console` run.
#[derive(Debug)]
pub struct Config {
    /// Serial device path, or `None` to auto-discover.
    pub port: Option<String>,
    /// Baud rate.
    pub baud: u32,
    /// Load address for a raw (non-ELF) image; an ELF's own address wins.
    pub load_addr: u64,
    /// Entry offset for a raw image; an ELF's `e_entry` wins.
    pub entry_off: u32,
    /// Cargo package to build (`-p`), or `None` for the default.
    pub package: Option<String>,
    /// Cargo binary target (`--bin`), or `None` for the default.
    pub bin: Option<String>,
    /// Build the release profile.
    pub release: bool,
    /// Stay attached as a console after a successful load.
    pub console_after: bool,
}

fn copied(s: &Option<String>) -> (copy: Option<String>)
    ensures
        copy == *s,
{
    match s {
        None => None,
        Some(s) => Some(s.clone()),
    }
}

impl Clone for Config {
    fn clone(&self) -> (copy: Self)
        ensures
            copy == *self,
    {
        Config {
            port: copied(&self.port),
            baud: self.baud,
            load_addr: self.load_addr,
            entry_off: self.entry_off,
            package: copied(&self.package),
            bin: copied(&self.bin),
            release: self.release,
            console_after: self.console_after,
        }
    }
}

impl Default for Config {
    fn default() -> (cfg: Self)
        ensures
            cfg == defaults(),
    {
        Config {
            port: None,
            baud: DEFAULT_BAUD,
            load_addr: DEFAULT_LOAD_ADDR,
            entry_off: 0,
            package: None,
            bin: None,
            // Release is the sensible default for bare-metal: debug images are
            // far larger, and the documented loop is `cargo build --release`.
            release: true,
            console_after: false,
        }
    }
}

/// The built-in settings.
pub open spec fn defaults() -> Config {
    Config {
        port: None,
        baud: DEFAULT_BAUD,
        load_addr: DEFAULT_LOAD_ADDR,
        entry_off: 0,
        package: None,
        bin: None,
        release: true,
        console_after: false,
    }
}

/// Command-line overrides collected by the argument parser. Every field is
/// optional so that unset flags fall through to metadata/defaults.
#[derive(Debug)]
pub struct CliOverrides {
    /// Serial device path.
    pub port: Option<String>,
    /// Baud rate.
    pub baud: Option<u32>,
    /// Load address for a raw image.
    pub load_addr: Option<u64>,
    /// Cargo package to build.
    pub package: Option<String>,
    /// Cargo binary target.
    pub bin: Option<String>,
    /// Build the release profile.
    pub release: Option<bool>,
    /// Stay attached as a console after a successful load.
    pub console_after: Option<bool>,
}

impl Default for CliOverrides {
    fn default() -> (cli: Self)
        ensures
            cli == (CliOverrides {
                port: None,
                baud: None,
                load_addr: None,
                package: None,
                bin: None,
                release: None,
                console_after: None,
            }),
    {
        CliOverrides {
            port: None,
            baud: None,
            load_addr: None,
            package: None,
            bin: None,
            release: None,
            console_after: None,
        }
    }
}

/// A `load-address` value in `[package.metadata.pi]`, accepted as either a
/// number or a (possibly `0x`-prefixed) string.
#[derive(Debug)]
pub enum Address {
    /// A number.
    Num(u64),
    /// A string.
    Str(String),
}

impl Address {
    /// The address, if it is one.
    pub open spec fn value(self) -> Option<u64> {
        match self {
            Address::Num(n) => Some(n),
            Address::Str(s) => match number::integer_value(s@) {
                Some(n) => if n <= u64::MAX {
                    Some(n as u64)
                } else {
                    None
                },
                None => None,
            },
        }
    }

    /// The address as a number.
    pub fn to_u64(&self) -> (r: Result<u64, InvalidInteger>)
        ensures
            match r {
                Ok(n) => self.value() == Some(n),
                Err(e) => self.value() is None && (self matches Address::Str(s) && e.text@ == s@),
            },
    {
        match self {
            Address::Num(n) => Ok(*n),
            Address::Str(s) => parse_u64(s.as_str()),
        }
    }
}

/// The `[package.metadata.pi]` table.
#[derive(Debug)]
pub struct MetadataPi {
    /// Serial device path.
    pub port: Option<String>,
    /// Baud rate.
    pub baud: Option<u32>,
    /// Load address for a raw image.
    pub load_address: Option<Address>,
    /// Entry offset for a raw image.
    pub entry_offset: Option<u32>,
    /// Cargo package to build.
    pub package: Option<String>,
    /// Cargo binary target.
    pub bin: Option<String>,
    /// Build the release profile.
    pub release: Option<bool>,
    /// Stay attached as a console.
    pub console: Option<bool>,
}

/// `over`, where it is set, else `under`.
pub open spec fn layered<T>(over: Option<T>, under: T) -> T {
    match over {
        Some(v) => v,
        None => under,
    }
}

/// `over`, where it is set, else `under`, which need not be set either.
pub open spec fn layered_opt<T>(over: Option<T>, under: Option<T>) -> Option<T> {
    match over {
        Some(v) => Some(v),
        None => under,
    }
}

/// The settings with the metadata table on top.
pub open spec fn with_metadata(cfg: Config, meta: MetadataPi) -> Config {
    Config {
        port: layered_opt(meta.port, cfg.port),
        baud: layered(meta.baud, cfg.baud),
        load_addr: match meta.load_address {
            Some(a) => layered(a.value(), cfg.load_addr),
            None => cfg.load_addr,
        },
        entry_off: layered(meta.entry_offset, cfg.entry_off),
        package: layered_opt(meta.package, cfg.package),
        bin: layered_opt(meta.bin, cfg.bin),
        release: layered(meta.release, cfg.release),
        console_after: layered(meta.console, cfg.console_after),
    }
}

/// The settings with the command line on top.
pub open spec fn with_cli(cfg: Config, cli: CliOverrides) -> Config {
    Config {
        port: layered_opt(cli.port, cfg.port),
        baud: layered(cli.baud, cfg.baud),
        load_addr: layered(cli.load_addr, cfg.load_addr),
        entry_off: cfg.entry_off,
        package: layered_opt(cli.package, cfg.package),
        bin: layered_opt(cli.bin, cfg.bin),
        release: layered(cli.release, cfg.release),
        console_after: layered(cli.console_after, cfg.console_after),
    }
}

/// Whether the metadata table names a load address that is none.
pub open spec fn bad_address(meta: Option<MetadataPi>) -> bool {
    meta matches Some(m) && (m.load_address matches Some(a) && a.value() is None)
}

/// The settings that all sources together give.
pub open spec fn resolved(meta: Option<MetadataPi>, cli: CliOverrides) -> Config {
    match meta {
        None => with_cli(defaults(), cli),
        Some(m) => with_cli(with_metadata(defaults(), m), cli),
    }
}

impl Config {
    /// Resolves the effective configuration: the defaults, then the
    /// `[package.metadata.pi]` table if there is one, then `cli` on top. A load
    /// address in the table must be one, even where `cli` overrides it.
    #[verifier::rlimit(30)]
    pub fn resolve(meta: Option<MetadataPi>, cli: CliOverrides) -> (r: Result<
        Config,
        InvalidInteger,
    >)
        ensures
            match r {
                Ok(cfg) => !bad_address(meta) && cfg == resolved(meta, cli),
                Err(e) => {
                    &&& bad_address(meta)
                    &&& meta->0.load_address->0 matches Address::Str(s)
                    &&& e.text@ == s@
                },
            },
    {
        let mut cfg: Config = Config::default();
        if let Some(meta) = meta {
            if meta.port.is_some() {
                cfg.port = meta.port;
            }
            if let Some(b) = meta.baud {
                cfg.baud = b;
            }
            if let Some(a) = &meta.load_address {
                match a.to_u64() {
                    Ok(addr) => {
                        cfg.load_addr = addr;
                    },
                    Err(e) => {
                        return Err(e);
                    },
                }
            }
            if let Some(e) = meta.entry_offset {
                cfg.entry_off = e;
            }
            if meta.package.is_some() {
                cfg.package = meta.package;
            }
            if meta.bin.is_some() {
                cfg.bin = meta.bin;
            }
            if let Some(r) = meta.release {
                cfg.release = r;
            }
            if let Some(c) = meta.console {
                cfg.console_after = c;
            }
        }
        if cli.port.is_some() {
            cfg.port = cli.port;
        }
        if let Some(b) = cli.baud {
            cfg.baud = b;
        }
        if let Some(a) = cli.load_addr {
            cfg.load_addr = a;
        }
        if cli.package.is_some() {
            cfg.package = cli.package;
        }
        if cli.bin.is_some() {
            cfg.bin = cli.bin;
        }
        if let Some(r) = cli.release {
            cfg.release = r;
        }
        if let Some(c) = cli.console_after {
            cfg.console_after = c;
        }
        Ok(cfg)
    }
}

/// The `[package.metadata.pi]` tables of a list of packages, in order.
pub open spec fn pi_tables(packages: Seq<Json>) -> Seq<Option<Json>> {
    packages.map_values(|p: Json| p.nested("metadata"@, "pi"@))
}

/// The first entry that is there.
pub open spec fn first_there<T>(items: Seq<Option<T>>) -> Option<T>
    decreases items.len(),
{
    if items.len() == 0 {
        None
    } else {
        match items[0] {
            Some(v) => Some(v),
            None => first_there(items.skip(1)),
        }
    }
}

/// The first `[package.metadata.pi]` table in what `cargo metadata` wrote.
pub open spec fn pi_table(root: Json) -> Option<Json> {
    match root.member("packages"@) {
        None => None,
        Some(packages) => match packages.list() {
            None => None,
            Some(packages) => first_there(pi_tables(packages)),
        },
    }
}

/// `/metadata/pi` is the pointer to `pi` in `metadata`.
proof fn lemma_metadata_pi()
    ensures
        json::plain_key("metadata"@),
        json::plain_key("pi"@),
        "/metadata/pi"@ == json::pointer_to("metadata"@, "pi"@),
{
    reveal_strlit("metadata");
    reveal_strlit("pi");
    reveal_strlit("/metadata/pi");
    assert("/metadata/pi"@ =~= json::pointer_to("metadata"@, "pi"@));
}

/// What `cargo metadata` wrote, if it succeeded and wrote JSON. Anything else is
/// treated as "no config".
pub fn metadata_root(success: bool, out: &[u8]) -> (root: Option<Value>)
    ensures
        match root {
            Some(v) => success && json::parsed(out@) == Some(json::contents(v)),
            None => !success || json::parsed(out@) is None,
        },
        metadata_of(success, out@) == match root {
            Some(v) => Some(json::contents(v)),
            None => None,
        },
{
    if !success {
        return None;
    }
    match json::parse(out) {
        Ok(v) => Some(v),
        Err(_) => None,
    }
}

/// Picks the first table that is there.
pub fn first_table<'a, T>(tables: &Vec<Option<&'a T>>) -> (r: Option<&'a T>)
    ensures
        r == first_there(tables@),
{
    let mut i: usize = 0;
    assert(tables@.skip(0) =~= tables@);
    while i < tables.len()
        invariant
            i <= tables@.len(),
            first_there(tables@) == first_there(tables@.skip(i as int)),
        decreases tables@.len() - i,
    {
        assert(tables@.skip(i as int).skip(1) =~= tables@.skip(i + 1));
        if let Some(t) = tables[i] {
            return Some(t);
        }
        i = i + 1;
    }
    None
}

/// A table, in the model.
spec fn table_view(t: Option<&Value>) -> Option<Json> {
    match t {
        None => None,
        Some(v) => Some(json::contents(*v)),
    }
}

/// The first table there is, in the model.
proof fn lemma_first_table(tables: Seq<Option<&Value>>)
    ensures
        table_view(first_there(tables)) == first_there(
            tables.map_values(|t: Option<&Value>| table_view(t)),
        ),
    decreases tables.len(),
{
    let views = tables.map_values(|t: Option<&Value>| table_view(t));
    if tables.len() > 0 {
        lemma_first_table(tables.skip(1));
        assert(views.skip(1) =~= tables.skip(1).map_values(|t: Option<&Value>| table_view(t)));
    }
}

/// The first `[package.metadata.pi]` table in what `cargo metadata` wrote.
pub fn find_pi<'a>(root: &'a Value) -> (pi: Option<&'a Value>)
    ensures
        pi_table(json::contents(*root)) == match pi {
            None => None,
            Some(v) => Some(json::contents(*v)),
        },
{
    let packages = match json::get(root, "packages") {
        None => {
            return None;
        },
        Some(p) => p,
    };
    let packages: &Vec<Value> = match packages.as_array() {
        None => {
            return None;
        },
        Some(p) => p,
    };
    let mut tables: Vec<Option<&Value>> = Vec::new();
    let ghost all = packages@.map_values(|item: Value| json::contents(item));
    let mut i: usize = 0;
    while i < packages.len()
        invariant
            i <= packages@.len(),
            all == packages@.map_values(|item: Value| json::contents(item)),
            tables@.len() == i,
            forall|k: int| 0 <= k < i ==> table_view(tables@[k]) == #[trigger] pi_tables(all)[k],
        decreases packages@.len() - i,
    {
        proof {
            lemma_metadata_pi();
            assert(all[i as int] == json::contents(packages@[i as int]));
        }
        tables.push(packages[i].pointer("/metadata/pi"));
        i = i + 1;
    }
    proof {
        lemma_first_table(tables@);
        assert(tables@.map_values(|t: Option<&Value>| table_view(t)) =~= pi_tables(all));
    }
    first_table(&tables)
}

/// A flag on the command line wins over the metadata table, and the table wins
/// over the defaults; what neither sets keeps its default.
pub proof fn lemma_precedence(meta: MetadataPi, cli: CliOverrides)
    ensures
        ({
            let cfg = resolved(Some(meta), cli);
            &&& cfg.port == layered_opt(cli.port, meta.port)
            &&& cfg.baud == layered(cli.baud, layered(meta.baud, DEFAULT_BAUD))
            &&& cli.load_addr matches Some(a) ==> cfg.load_addr == a
            &&& cli.load_addr is None && meta.load_address is None ==> cfg.load_addr
                == DEFAULT_LOAD_ADDR
            &&& cfg.entry_off == layered(meta.entry_offset, 0)
            &&& cfg.package == layered_opt(cli.package, meta.package)
            &&& cfg.bin == layered_opt(cli.bin, meta.bin)
            &&& cfg.release == layered(cli.release, layered(meta.release, true))
            &&& cfg.console_after == layered(cli.console_after, layered(meta.console, false))
        }),
        resolved(None, cli) == with_cli(defaults(), cli),
{
}

/// Each setting on its own: the command line's value where it has one, else the
/// table's, else the built-in one. The table's load address counts as written,
/// as a number or as text.
pub proof fn lemma_each_setting(
    meta: MetadataPi,
    cli: CliOverrides,
    n: u64,
    text: String,
    other: Option<MetadataPi>,
)
    ensures
        ({
            let cfg = resolved(Some(meta), cli);
            &&& cli.load_addr is None && meta.load_address == Some(Address::Num(n)) ==> cfg.load_addr
                == n
            &&& cli.load_addr is None && meta.load_address == Some(Address::Str(text))
                && number::integer_value(text@) == Some(n as nat) ==> cfg.load_addr == n
            &&& cli.load_addr is None && meta.load_address is None ==> cfg.load_addr == 0x20_0000
            &&& cli.load_addr == Some(n) ==> cfg.load_addr == n
            &&& cli.baud is None && meta.baud is None ==> cfg.baud == 115_200
            &&& cli.baud is None && meta.baud is Some ==> cfg.baud == meta.baud->0
            &&& cli.baud is Some ==> cfg.baud == cli.baud->0
            &&& meta.entry_offset is None ==> cfg.entry_off == 0
            &&& meta.entry_offset is Some ==> cfg.entry_off == meta.entry_offset->0
            &&& cli.release is None && meta.release is None ==> cfg.release
            &&& cli.release is None && meta.release is Some ==> cfg.release == meta.release->0
            &&& cli.release is Some ==> cfg.release == cli.release->0
            &&& cli.console_after is None && meta.console is None ==> !cfg.console_after
            &&& cli.console_after is None && meta.console is Some ==> cfg.console_after
                == meta.console->0
            &&& cli.console_after is Some ==> cfg.console_after == cli.console_after->0
            &&& cfg.port == if cli.port is Some {
                cli.port
            } else {
                meta.port
            }
            &&& cfg.package == if cli.package is Some {
                cli.package
            } else {
                meta.package
            }
            &&& cfg.bin == if cli.bin is Some {
                cli.bin
            } else {
                meta.bin
            }
        }),
        ({
            let cfg = resolved(None, cli);
            &&& cfg.port == cli.port
            &&& cfg.package == cli.package
            &&& cfg.bin == cli.bin
            &&& cfg.entry_off == 0
            &&& cfg.baud == if cli.baud is Some {
                cli.baud->0
            } else {
                115_200
            }
            &&& cfg.load_addr == if cli.load_addr is Some {
                cli.load_addr->0
            } else {
                0x20_0000
            }
            &&& cfg.release == (cli.release is None || cli.release->0)
            &&& cfg.console_after == (cli.console_after is Some && cli.console_after->0)
        }),
        bad_address(other) <==> {
            &&& other is Some
            &&& other->0.load_address is Some
            &&& other->0.load_address->0 is Str
            &&& match number::integer_value(other->0.load_address->0->Str_0@) {
                Some(v) => v > u64::MAX,
                None => true,
            }
        },
{
}

/// The table that is found is that of the first package that has one: none
/// before it has, and if no package has one, nothing is found.
pub proof fn lemma_first_package_wins(root: Json, packages: Seq<Json>, k: int)
    requires
        root.member("packages"@) == Some(Json::List(packages)),
    ensures
        0 <= k < packages.len() && packages[k].nested("metadata"@, "pi"@) is Some && (forall|i: int|
            0 <= i < k ==> (#[trigger] packages[i]).nested("metadata"@, "pi"@) is None)
            ==> pi_table(root) == packages[k].nested("metadata"@, "pi"@),
        (forall|i: int|
            0 <= i < packages.len() ==> (#[trigger] packages[i]).nested("metadata"@, "pi"@)
                is None) ==> pi_table(root) is None,
{
    let tables = pi_tables(packages);
    if 0 <= k < packages.len() && packages[k].nested("metadata"@, "pi"@) is Some && (forall|i: int|
        0 <= i < k ==> (#[trigger] packages[i]).nested("metadata"@, "pi"@) is None) {
        assert forall|i: int| 0 <= i < k implies (#[trigger] tables[i]) is None by {
            assert(packages[i].nested("metadata"@, "pi"@) is None);
        }
        lemma_first_there(tables, k);
    }
    if forall|i: int|
        0 <= i < packages.len() ==> (#[trigger] packages[i]).nested("metadata"@, "pi"@) is None {
        assert forall|i: int| 0 <= i < tables.len() implies (#[trigger] tables[i]) is None by {
            assert(packages[i].nested("metadata"@, "pi"@) is None);
        }
        lemma_first_there(tables, tables.len() as int);
    }
}

/// The first entry that is there has only missing ones before it.
pub proof fn lemma_first_there<T>(items: Seq<Option<T>>, k: int)
    requires
        0 <= k <= items.len(),
        forall|i: int| 0 <= i < k ==> (#[trigger] items[i]) is None,
    ensures
        k < items.len() && items[k] is Some ==> first_there(items) == items[k],
        k == items.len() ==> first_there(items) is None,
    decreases items.len(),
{
    if k > 0 {
        let rest = items.skip(1);
        assert forall|i: int| 0 <= i < k - 1 implies (#[trigger] rest[i]) is None by {
            assert(rest[i] == items[i + 1]);
        }
        assert(items[0] is None);
        lemma_first_there(rest, k - 1);
        if k < items.len() {
            assert(rest[k - 1] == items[k]);
        }
    }
}

/// Without a list of packages there is no table.
pub proof fn lemma_no_packages(root: Json)
    requires
        root.member("packages"@) is None || root.member("packages"@)->0.list() is None,
    ensures
        pi_table(root) is None,
{
}

/// What `cargo metadata` told.
pub open spec fn metadata_of(success: bool, out: Seq<u8>) -> Option<Json> {
    if success {
        json::parsed(out)
    } else {
        None
    }
}

/// A run that succeeds tells whatever its output parses to, and one that fails
/// tells nothing.
pub proof fn lemma_metadata_told(out: Seq<u8>)
    ensures
        metadata_of(true, out) == json::parsed(out),
        metadata_of(false, out) is None,
{
}

} // verus!
