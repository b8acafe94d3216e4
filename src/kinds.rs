use vstd::prelude::*;

use crate::options::{AddrId, Options};

verus! {

/// The probe kinds, in id order.
#[derive(Debug, Clone, Copy, PartialEq, Eq, Structural)]
pub enum Kind {
    TcpPing,
}

/// The stable id of a kind.
pub open spec fn kind_id_spec(k: Kind) -> u32 {
    match k {
        Kind::TcpPing => 0,
    }
}

/// The short name of a kind, used in its file names and routes.
pub open spec fn kind_name_spec(k: Kind) -> Seq<char> {
    match k {
        Kind::TcpPing => "tcpping"@,
    }
}

/// Address that a fresh TCP-connect probe starts with.
pub open spec fn tcpping_bootstrap_addr() -> Seq<char> {
    "google.com:80"@
}

/// Milliseconds between two ticks of a fresh probe.
pub const DEFAULT_INTERVAL_MS: u32 = 10_000;

/// Measurements a fresh probe averages across.
pub const DEFAULT_AVG_ACROSS: u32 = 3;

/// Milliseconds between two averaged measurements of a fresh probe.
pub const DEFAULT_PAUSE_MS: u32 = 100;

/// The options a fresh probe starts with, watching the one address `addr`.
pub open spec fn default_options_spec(o: Options, addr: AddrId) -> bool {
    &&& o.nonce == 0
    &&& o.addrs@ == seq![addr]
    &&& o.interval == DEFAULT_INTERVAL_MS
    &&& o.avg_across == DEFAULT_AVG_ACROSS
    &&& o.pause == DEFAULT_PAUSE_MS
}

fn fresh_options(addr: AddrId) -> (r: Options)
    ensures
        default_options_spec(r, addr),
{
    let mut addrs: Vec<AddrId> = Vec::new();
    addrs.push(addr);
    Options {
        nonce: 0,
        addrs,
        interval: DEFAULT_INTERVAL_MS,
        avg_across: DEFAULT_AVG_ACROSS,
        pause: DEFAULT_PAUSE_MS,
    }
}

impl Kind {
    /// The stable id of this kind.
    pub fn id(&self) -> (r: u32)
        ensures
            r == kind_id_spec(*self),
    {
        match self {
            Kind::TcpPing => 0,
        }
    }

    /// The short name of this kind.
    pub fn name(&self) -> (r: &'static str)
        ensures
            r@ == kind_name_spec(*self),
    {
        proof {
            reveal_strlit("tcpping");
        }
        match self {
            Kind::TcpPing => "tcpping",
        }
    }

    /// The address and tick interval that a fresh probe of this kind starts with.
    pub fn default_options_bootstrap(&self) -> (r: (&'static str, u32))
        ensures
            r.0@ == tcpping_bootstrap_addr(),
            r.1 == DEFAULT_INTERVAL_MS,
    {
        proof {
            reveal_strlit("google.com:80");
        }
        match self {
            Kind::TcpPing => ("google.com:80", DEFAULT_INTERVAL_MS),
        }
    }

    /// The options of a fresh probe of this kind whose bootstrap address
    /// has the id `addr`.
    pub fn default_options(&self, addr: AddrId) -> (r: Options)
        ensures
            default_options_spec(r, addr),
    {
        fresh_options(addr)
    }

    /// The kind with the given id.
    pub fn from_id(id: u32) -> (r: Option<Kind>)
        ensures
            r matches Some(k) ==> kind_id_spec(k) == id,
            r is None <==> id != 0,
    {
        if id == 0 {
            Some(Kind::TcpPing)
        } else {
            None
        }
    }
}

/// Every kind, in id order: the kind at position `i` has id `i`.
pub fn all_kinds() -> (r: Vec<Kind>)
    ensures
        r@ == seq![Kind::TcpPing],
        forall|i: int| 0 <= i < r@.len() ==> kind_id_spec(#[trigger] r@[i]) == i,
{
    let mut v: Vec<Kind> = Vec::new();
    v.push(Kind::TcpPing);
    assert(v@ =~= seq![Kind::TcpPing]);
    v
}

/// The probe kinds under the names of the options handlers, a declared
/// HTTP-download kind included.
#[derive(Debug, Clone, Copy, PartialEq, Eq, Structural)]
pub enum TargetKind {
    TcpPing,
    HttpDownload,
}

/// The stable id of a target kind.
pub open spec fn target_kind_id_spec(k: TargetKind) -> i32 {
    match k {
        TargetKind::TcpPing => 0,
        TargetKind::HttpDownload => 1,
    }
}

impl TargetKind {
    /// The stable id of this kind.
    pub fn kind_id(&self) -> (r: i32)
        ensures
            r == target_kind_id_spec(*self),
    {
        match self {
            TargetKind::TcpPing => 0,
            TargetKind::HttpDownload => 1,
        }
    }

    /// The short name of this kind.
    pub fn compact_name(&self) -> (r: &'static str)
        ensures
            *self is TcpPing ==> r@ == "tcpping"@,
            *self is HttpDownload ==> r@ == "httpdownload"@,
    {
        proof {
            reveal_strlit("tcpping");
            reveal_strlit("httpdownload");
        }
        match self {
            TargetKind::TcpPing => "tcpping",
            TargetKind::HttpDownload => "httpdownload",
        }
    }

    /// The options of a fresh probe, whose bootstrap address is the first
    /// entry (id 0) of its new index. Only the TCP-connect kind has them.
    pub fn default_options(&self) -> (r: Options)
        requires
            *self is TcpPing,
        ensures
            default_options_spec(r, 0),
    {
        fresh_options(0)
    }
}

/// Every target kind that runs, in id order.
pub fn all_target_kinds() -> (r: Vec<TargetKind>)
    ensures
        r@ == seq![TargetKind::TcpPing],
        forall|i: int| 0 <= i < r@.len() ==> target_kind_id_spec(#[trigger] r@[i]) == i,
{
    let mut v: Vec<TargetKind> = Vec::new();
    v.push(TargetKind::TcpPing);
    assert(v@ =~= seq![TargetKind::TcpPing]);
    v
}

/// The aggregation level of a sample feed; only `Raw` is stored.
#[derive(Debug, Clone, Copy, PartialEq, Eq, Structural)]
pub enum Feed {
    Raw,
    Hourly,
    Daily,
    Weekly,
}

/// The data file of a feed.
#[derive(Debug, Clone, Copy, PartialEq, Eq, Structural)]
pub enum DataFileType {
    Raw,
    Hourly,
    Daily,
    Weekly,
}

/// The ports of the web and the WebSocket servers.
#[derive(Debug, Clone, Copy, PartialEq, Eq, Structural)]
pub struct MainConfiguration {
    pub web_port: u16,
    pub ws_port: u16,
}

/// The top-level configuration under its file's name.
pub type Config = MainConfiguration;

impl Default for MainConfiguration {
    fn default() -> (r: MainConfiguration)
        ensures
            r.web_port == 5001,
            r.ws_port == 5002,
    {
        MainConfiguration { web_port: 5001, ws_port: 5002 }
    }
}

} // verus!
