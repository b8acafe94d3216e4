use vstd::prelude::*;

use crate::kinds::{Feed, Kind, kind_id_spec};
use crate::options::AddrId;
use crate::reader::words_bytes;
use crate::sample::{NAN_BITS, Sample, encode_samples, le_bytes, push_le, samples_bytes};

verus! {

/// Why a record cannot join a package.
#[derive(Debug, Clone, Copy, PartialEq, Eq, Structural)]
pub enum TimePackageError {
    IncompatibleTimes,
    DuplicateEntryForIndex,
}

/// One tick's measurements of one probe kind, tagged with the nonce of the
/// options they were taken under. All records share one time and no two
/// are for the same address; they keep the order they were added in.
#[derive(Debug)]
pub struct TimePackage {
    kind: Kind,
    feed: Feed,
    nonce: i32,
    time: Option<u32>,
    entries: Vec<Sample>,
}

/// Some record of `es` is for address `id`.
pub open spec fn has_addr(es: Seq<Sample>, id: u32) -> bool {
    exists|i: int| 0 <= i < es.len() && es[i].addr_id == id
}

/// The live frame of a package: kind id, time, then each record's value.
pub open spec fn frame_bytes(kind: Kind, time: u32, es: Seq<Sample>) -> Seq<u8> {
    le_bytes(kind_id_spec(kind)) + le_bytes(time) + words_bytes(es.map_values(|d: Sample| d.value_bits))
}

/// Whether some record of `es` is for address `id`.
pub fn lists_addr(es: &[Sample], id: u32) -> (r: bool)
    ensures
        r == has_addr(es@, id),
{
    let mut i: usize = 0;
    while i < es.len()
        invariant
            i <= es@.len(),
            forall|j: int| 0 <= j < i ==> es@[j].addr_id != id,
        decreases es@.len() - i,
    {
        if es[i].addr_id == id {
            return true;
        }
        i = i + 1;
    }
    false
}

impl View for TimePackage {
    type V = Seq<Sample>;

    closed spec fn view(&self) -> Seq<Sample> {
        self.entries@
    }
}

impl TimePackage {
    /// The kind that took the measurements.
    pub closed spec fn kind_spec(&self) -> Kind {
        self.kind
    }

    /// The feed the records belong to.
    pub closed spec fn feed_spec(&self) -> Feed {
        self.feed
    }

    /// The nonce of the options the measurements were taken under.
    pub closed spec fn nonce_spec(&self) -> i32 {
        self.nonce
    }

    /// The package's time, once a record has set it.
    pub closed spec fn time_spec(&self) -> Option<u32> {
        self.time
    }

    /// Records agree with the package's time and name distinct addresses.
    pub open spec fn wf(&self) -> bool {
        &&& (self@.len() == 0 <==> self.time_spec() is None)
        &&& forall|i: int|
            0 <= i < self@.len() ==> Some(#[trigger] self@[i].time_s) == self.time_spec()
        &&& forall|i: int, j: int| 0 <= i < j < self@.len() ==> self@[i].addr_id != self@[j].addr_id
    }

    /// An empty package.
    pub fn new(kind: Kind, feed: Feed, nonce: i32) -> (r: TimePackage)
        ensures
            r.wf(),
            r@ == Seq::<Sample>::empty(),
            r.kind_spec() == kind,
            r.feed_spec() == feed,
            r.nonce_spec() == nonce,
    {
        let r = TimePackage { kind, feed, nonce, time: None, entries: Vec::new() };
        assert(r@ =~= Seq::<Sample>::empty());
        r
    }

    /// The kind that took the measurements.
    pub fn kind(&self) -> (r: Kind)
        ensures
            r == self.kind_spec(),
    {
        self.kind
    }

    /// The feed the records belong to.
    pub fn feed(&self) -> (r: Feed)
        ensures
            r == self.feed_spec(),
    {
        self.feed
    }

    /// The nonce of the options the measurements were taken under.
    pub fn nonce(&self) -> (r: i32)
        ensures
            r == self.nonce_spec(),
    {
        self.nonce
    }

    /// The package's time, if it holds a record.
    pub fn time(&self) -> (r: Option<u32>)
        ensures
            r == self.time_spec(),
    {
        self.time
    }

    /// The records, in the order they were added.
    pub fn iter(&self) -> (r: &[Sample])
        ensures
            r@ == self@,
    {
        self.entries.as_slice()
    }

    /// Adds `d` unless its time differs from the package's or its address
    /// already has a record; nothing changes on an error.
    pub fn insert(&mut self, d: Sample) -> (r: Result<(), TimePackageError>)
        requires
            old(self).wf(),
        ensures
            final(self).wf(),
            final(self).kind_spec() == old(self).kind_spec(),
            final(self).feed_spec() == old(self).feed_spec(),
            final(self).nonce_spec() == old(self).nonce_spec(),
            old(self).time_spec() matches Some(t) && t != d.time_s ==> r == Err::<
                (),
                TimePackageError,
            >(TimePackageError::IncompatibleTimes),
            !(old(self).time_spec() matches Some(t) && t != d.time_s) && has_addr(
                old(self)@,
                d.addr_id,
            ) ==> r == Err::<(), TimePackageError>(TimePackageError::DuplicateEntryForIndex),
            r is Err ==> final(self)@ == old(self)@ && final(self).time_spec() == old(
                self,
            ).time_spec(),
            r is Ok <==> !(old(self).time_spec() matches Some(t) && t != d.time_s) && !has_addr(
                old(self)@,
                d.addr_id,
            ),
            r is Ok ==> final(self)@ == old(self)@.push(d) && final(self).time_spec() == Some(
                d.time_s,
            ),
    {
        match self.time {
            Some(t) => {
                if t != d.time_s {
                    return Err(TimePackageError::IncompatibleTimes);
                }
            },
            None => {},
        }
        if lists_addr(self.entries.as_slice(), d.addr_id) {
            return Err(TimePackageError::DuplicateEntryForIndex);
        }
        let ghost before = self.entries@;
        self.entries.push(d);
        self.time = Some(d.time_s);
        proof {
            assert(!has_addr(before, d.addr_id));
            assert forall|a: int, b: int| 0 <= a < b < self@.len() implies self@[a].addr_id
                != self@[b].addr_id by {
                if b == before.len() {
                    assert(self@[a] == before[a]);
                } else {
                    assert(self@[a] == before[a] && self@[b] == before[b]);
                }
            }
        }
        Ok(())
    }

    /// The bytes that appending this package adds to the sample log.
    pub fn log_bytes(&self) -> (r: Vec<u8>)
        ensures
            r@ == samples_bytes(self@),
    {
        encode_samples(self.entries.as_slice())
    }
}

/// The live frame of a package; an empty package has none.
pub open spec fn wire_spec(p: &TimePackage) -> Seq<u8> {
    match p.time_spec() {
        None => Seq::empty(),
        Some(t) => frame_bytes(p.kind_spec(), t, p@),
    }
}

impl TimePackage {
    /// The live frame of this package: kind id, time, then the value of each
    /// record in order, four bytes little-endian each; nothing when empty.
    pub fn to_wire(&self) -> (r: Vec<u8>)
        ensures
            r@ == wire_spec(self),
    {
        let mut out: Vec<u8> = Vec::new();
        match self.time {
            None => {
                assert(out@ =~= Seq::<u8>::empty());
            },
            Some(t) => {
                push_le(&mut out, self.kind.id());
                push_le(&mut out, t);
                let ghost head = out@;
                let ghost vals = self.entries@.map_values(|d: Sample| d.value_bits);
                let mut i: usize = 0;
                proof {
                    assert(vals.subrange(0, 0) =~= Seq::<u32>::empty());
                    assert(out@ =~= head + words_bytes(vals.subrange(0, 0)));
                }
                while i < self.entries.len()
                    invariant
                        i <= self.entries@.len(),
                        vals == self.entries@.map_values(|d: Sample| d.value_bits),
                        out@ == head + words_bytes(vals.subrange(0, i as int)),
                    decreases self.entries@.len() - i,
                {
                    let v = self.entries[i].value_bits;
                    proof {
                        let pre = vals.subrange(0, i as int);
                        assert(vals.subrange(0, i as int + 1) =~= pre.push(v));
                        assert(pre.push(v).drop_last() =~= pre);
                    }
                    push_le(&mut out, v);
                    i = i + 1;
                }
                assert(vals.subrange(0, vals.len() as int) =~= vals);
            },
        }
        out
    }
}

/// What the dispatcher does with a package: the bytes to append to the
/// sample log, and the frame to broadcast.
#[derive(Debug)]
pub struct Dispatch {
    pub log: Vec<u8>,
    pub frame: Vec<u8>,
}

/// Takes a package that a worker sent. One measured under options that have
/// since changed (its nonce is not `current_nonce`) is dropped; any other is
/// appended to the log and broadcast.
pub fn dispatch(pkg: &TimePackage, current_nonce: i32) -> (r: Option<Dispatch>)
    ensures
        r is None <==> pkg.nonce_spec() != current_nonce,
        r matches Some(d) ==> d.log@ == samples_bytes(pkg@) && d.frame@ == wire_spec(pkg),
{
    if pkg.nonce() != current_nonce {
        return None;
    }
    Some(Dispatch { log: pkg.log_bytes(), frame: pkg.to_wire() })
}

/// No address appears twice.
pub open spec fn distinct_ids(addrs: Seq<AddrId>) -> bool {
    forall|i: int, j: int| 0 <= i < j < addrs.len() ==> addrs[i] != addrs[j]
}

/// The value reported for the `i`-th address of a tick: its result, or NaN
/// where the measurement failed or did not finish in time.
pub open spec fn result_value(results: Seq<Option<u32>>, i: int) -> u32 {
    if i < results.len() {
        match results[i] {
            Some(v) => v,
            None => NAN_BITS,
        }
    } else {
        NAN_BITS
    }
}

/// The raw records of one tick at `time_s`: one per address, in order.
pub open spec fn tick_samples(time_s: u32, addrs: Seq<AddrId>, results: Seq<Option<u32>>) -> Seq<
    Sample,
> {
    Seq::new(
        addrs.len(),
        |i: int|
            Sample {
                time_s,
                addr_id: addrs[i],
                value_bits: result_value(results, i),
                sd_bits: NAN_BITS,
            },
    )
}

/// Packs the results of a tick: `results[i]` is the value measured for
/// `addrs[i]`, `None` (or a missing entry) meaning NaN. Addresses must be
/// distinct.
pub fn build_package(
    kind: Kind,
    nonce: i32,
    time_s: u32,
    addrs: &[AddrId],
    results: &[Option<u32>],
) -> (r: Result<TimePackage, TimePackageError>)
    ensures
        r is Ok <==> distinct_ids(addrs@),
        r matches Err(e) ==> e == TimePackageError::DuplicateEntryForIndex,
        r matches Ok(p) ==> {
            &&& p.wf()
            &&& p.kind_spec() == kind
            &&& p.feed_spec() == Feed::Raw
            &&& p.nonce_spec() == nonce
            &&& p@ == tick_samples(time_s, addrs@, results@)
        },
{
    let mut p = TimePackage::new(kind, Feed::Raw, nonce);
    let ghost all = tick_samples(time_s, addrs@, results@);
    let mut i: usize = 0;
    while i < addrs.len()
        invariant
            i <= addrs@.len(),
            all == tick_samples(time_s, addrs@, results@),
            p.wf(),
            p.kind_spec() == kind,
            p.feed_spec() == Feed::Raw,
            p.nonce_spec() == nonce,
            p@ == all.subrange(0, i as int),
            distinct_ids(addrs@.subrange(0, i as int)),
        decreases addrs@.len() - i,
    {
        let value = if i < results.len() {
            match results[i] {
                Some(v) => v,
                None => NAN_BITS,
            }
        } else {
            NAN_BITS
        };
        let d = Sample::raw(time_s, addrs[i], value);
        proof {
            assert(d == all[i as int]);
            if i > 0 {
                assert(p@[0].time_s == time_s);
            }
        }
        let res = p.insert(d);
        match res {
            Err(e) => {
                proof {
                    let j = choose|j: int| 0 <= j < p@.len() && p@[j].addr_id == d.addr_id;
                    assert(addrs@[j] == addrs@[i as int]);
                }
                return Err(TimePackageError::DuplicateEntryForIndex);
            },
            Ok(()) => {},
        }
        proof {
            assert(all.subrange(0, i as int + 1) =~= all.subrange(0, i as int).push(d));
            assert forall|a: int, b: int| 0 <= a < b < i + 1 implies addrs@[a] != addrs@[b] by {
                if b == i {
                    if addrs@[a] == addrs@[b] {
                        assert(p@[a].addr_id == addrs@[a]);
                        assert(p@[b].addr_id == addrs@[b]);
                    }
                } else {
                    assert(addrs@.subrange(0, i as int)[a] == addrs@[a]);
                    assert(addrs@.subrange(0, i as int)[b] == addrs@[b]);
                }
            }
            assert(distinct_ids(addrs@.subrange(0, i as int + 1)));
        }
        i = i + 1;
    }
    assert(all.subrange(0, addrs@.len() as int) =~= all);
    assert(addrs@.subrange(0, addrs@.len() as int) =~= addrs@);
    Ok(p)
}

} // verus!
