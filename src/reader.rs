use vstd::prelude::*;

use crate::error::{AugmentedFileError, ManagerError};
use crate::options::{Options, addrs_known};
use crate::sample::{Sample, decode_samples, le_bytes, push_le, samples_of};

verus! {

/// The value that a row carries for a subscribed address with no sample in
/// that time group: the bits of the `i32` -2,000,000,000.
pub const NODATA_BITS: u32 = 0x88ca_6c00;

/// A client's request for the stored samples with `lower <= time_s <= upper`,
/// read in the context of the options whose nonce it carries.
#[derive(Debug, Clone, Copy, PartialEq, Eq, Structural)]
pub struct DataRequest {
    pub nonce: i32,
    pub lower: i32,
    pub upper: i32,
}

/// Times never decrease along the log.
pub open spec fn sorted_times(s: Seq<Sample>) -> bool {
    forall|i: int, j: int| 0 <= i <= j < s.len() ==> s[i].time_s <= s[j].time_s
}

/// `p` splits `s` into the records before `key` and those at or after it.
pub open spec fn is_partition(s: Seq<Sample>, key: int, p: int) -> bool {
    &&& 0 <= p <= s.len()
    &&& forall|i: int| 0 <= i < p ==> (s[i].time_s as int) < key
    &&& forall|i: int| p <= i < s.len() ==> (s[i].time_s as int) >= key
}

/// The index of the first record at or after `key` (on a sorted log it
/// exists and is unique).
pub open spec fn partition_point(s: Seq<Sample>, key: int) -> int {
    choose|p: int| is_partition(s, key, p)
}

/// The records from `b` up to `e`, none where `e <= b`.
pub open spec fn window(s: Seq<Sample>, b: int, e: int) -> Seq<Sample> {
    if b < e {
        s.subrange(b, e)
    } else {
        Seq::empty()
    }
}

/// The records whose time lies in `[lower, upper]`, as a sorted log holds them.
pub open spec fn range_of(s: Seq<Sample>, lower: int, upper: int) -> Seq<Sample> {
    window(s, partition_point(s, lower), partition_point(s, upper + 1))
}

/// The value of the last record of `g` for address `id`, or `NODATA_BITS`.
pub open spec fn last_value(g: Seq<Sample>, id: int) -> u32
    decreases g.len(),
{
    if g.len() == 0 {
        NODATA_BITS
    } else if g.last().addr_id as int == id {
        g.last().value_bits
    } else {
        last_value(g.drop_last(), id)
    }
}

/// The first index of the run of equal times that holds index `j`.
pub open spec fn group_start(s: Seq<Sample>, j: int) -> int
    decreases j,
{
    if j <= 0 {
        0
    } else if s[j - 1].time_s != s[j].time_s {
        j
    } else {
        group_start(s, j - 1)
    }
}

/// Index `j` is the last of its run of equal times.
pub open spec fn ends_group(s: Seq<Sample>, j: int) -> bool {
    j + 1 == s.len() || s[j + 1].time_s != s[j].time_s
}

/// The row of the run that ends at `j`: its time, then for each subscribed
/// address the last value that the run holds for it.
pub open spec fn row_of(s: Seq<Sample>, subs: Seq<u32>, j: int) -> Seq<u32> {
    seq![s[j].time_s] + subs.map_values(
        |k: u32| last_value(s.subrange(group_start(s, j), j + 1), k as int),
    )
}

/// The rows of the runs that end among the first `n` records.
pub open spec fn rows_upto(s: Seq<Sample>, subs: Seq<u32>, n: int) -> Seq<Seq<u32>>
    decreases n,
{
    if n <= 0 {
        Seq::empty()
    } else if ends_group(s, n - 1) {
        rows_upto(s, subs, n - 1).push(row_of(s, subs, n - 1))
    } else {
        rows_upto(s, subs, n - 1)
    }
}

/// One row per run of equal times, in log order.
pub open spec fn rows(s: Seq<Sample>, subs: Seq<u32>) -> Seq<Seq<u32>> {
    rows_upto(s, subs, s.len() as int)
}

/// The little-endian bytes of 32-bit words, back to back.
pub open spec fn words_bytes(w: Seq<u32>) -> Seq<u8>
    decreases w.len(),
{
    if w.len() == 0 {
        Seq::empty()
    } else {
        words_bytes(w.drop_last()) + le_bytes(w.last())
    }
}

/// The bytes of rows, back to back.
pub open spec fn rows_bytes(r: Seq<Seq<u32>>) -> Seq<u8>
    decreases r.len(),
{
    if r.len() == 0 {
        Seq::empty()
    } else {
        rows_bytes(r.drop_last()) + words_bytes(r.last())
    }
}

proof fn lemma_partition_unique(s: Seq<Sample>, key: int, p: int, q: int)
    requires
        is_partition(s, key, p),
        is_partition(s, key, q),
    ensures
        p == q,
{
    if p < q {
        assert((s[p].time_s as int) >= key);
    } else if q < p {
        assert((s[q].time_s as int) >= key);
    }
}

proof fn lemma_partition_point(s: Seq<Sample>, key: int, p: int)
    requires
        is_partition(s, key, p),
    ensures
        partition_point(s, key) == p,
{
    let q = partition_point(s, key);
    lemma_partition_unique(s, key, p, q);
}

/// The first index whose time is at least `key`, by binary search; on a
/// sorted log this is the partition point.
pub fn first_at_least(data: &[Sample], key: i64) -> (r: usize)
    ensures
        r <= data@.len(),
        sorted_times(data@) ==> is_partition(data@, key as int, r as int),
{
    let mut lo: usize = 0;
    let mut hi: usize = data.len();
    while lo < hi
        invariant
            lo <= hi <= data@.len(),
            sorted_times(data@) ==> forall|i: int|
                0 <= i < lo ==> (#[trigger] data@[i].time_s as int) < key,
            sorted_times(data@) ==> forall|i: int|
                hi <= i < data@.len() ==> (#[trigger] data@[i].time_s as int) >= key,
        decreases hi - lo,
    {
        let mid = lo + (hi - lo) / 2;
        if (data[mid].time_s as i64) < key {
            lo = mid + 1;
        } else {
            hi = mid;
        }
    }
    lo
}

proof fn lemma_words_push(w: Seq<u32>, x: u32)
    ensures
        words_bytes(w.push(x)) == words_bytes(w) + le_bytes(x),
{
    assert(w.push(x).drop_last() =~= w);
}

/// Appends the row `time`, then `slot[subs[k]]` for each `k`, to `out`.
fn emit_row(out: &mut Vec<u8>, time: u32, subs: &[u32], slot: &Vec<u32>, row: Ghost<Seq<u32>>)
    requires
        row@.len() == subs@.len() + 1,
        row@[0] == time,
        forall|k: int| 0 <= k < subs@.len() ==> (#[trigger] subs@[k] as int) < slot@.len(),
        forall|k: int|
            0 <= k < subs@.len() ==> #[trigger] row@[k + 1] == slot@[subs@[k] as int],
    ensures
        final(out)@ == old(out)@ + words_bytes(row@),
{
    push_le(out, time);
    proof {
        assert(row@.subrange(0, 1) =~= seq![].push(time));
        lemma_words_push(seq![], time);
        assert(words_bytes(Seq::<u32>::empty()) =~= Seq::<u8>::empty());
        assert(out@ =~= old(out)@ + words_bytes(row@.subrange(0, 1)));
    }
    let mut k: usize = 0;
    while k < subs.len()
        invariant
            k <= subs@.len(),
            row@.len() == subs@.len() + 1,
            forall|j: int| 0 <= j < subs@.len() ==> (#[trigger] subs@[j] as int) < slot@.len(),
            forall|j: int|
                0 <= j < subs@.len() ==> #[trigger] row@[j + 1] == slot@[subs@[j] as int],
            out@ == old(out)@ + words_bytes(row@.subrange(0, k + 1)),
        decreases subs@.len() - k,
    {
        let v = slot[subs[k] as usize];
        proof {
            assert(row@.subrange(0, k + 2) =~= row@.subrange(0, k + 1).push(v));
            lemma_words_push(row@.subrange(0, k + 1), v);
        }
        push_le(out, v);
        k = k + 1;
        proof {
            assert(out@ =~= old(out)@ + words_bytes(row@.subrange(0, k + 1)));
        }
    }
    assert(row@.subrange(0, subs@.len() as int + 1) =~= row@);
}

/// `slot` holds, for each member address, its last value in `g`, and
/// `NODATA_BITS` for every other address.
pub open spec fn slots_match(slot: Seq<u32>, member: Seq<bool>, g: Seq<Sample>) -> bool {
    &&& slot.len() == member.len()
    &&& forall|id: int|
        0 <= id < slot.len() ==> #[trigger] slot[id] == if member[id] {
            last_value(g, id)
        } else {
            NODATA_BITS
        }
}

/// Some entry of `subs` is `id`.
pub open spec fn lists(subs: Seq<u32>, id: int) -> bool {
    exists|j: int| 0 <= j < subs.len() && subs[j] as int == id
}

/// Marks, among the addresses below `slot_count`, those that `subs` lists.
fn membership(subs: &[u32], slot_count: usize) -> (m: Vec<bool>)
    requires
        forall|k: int| 0 <= k < subs@.len() ==> (#[trigger] subs@[k] as int) < slot_count,
    ensures
        m@.len() == slot_count,
        forall|id: int| 0 <= id < slot_count ==> #[trigger] m@[id] == lists(subs@, id),
{
    let mut m: Vec<bool> = Vec::with_capacity(slot_count);
    let mut i: usize = 0;
    while i < slot_count
        invariant
            i <= slot_count,
            m@.len() == i,
            forall|id: int| 0 <= id < i ==> !#[trigger] m@[id],
        decreases slot_count - i,
    {
        m.push(false);
        i = i + 1;
    }
    let mut k: usize = 0;
    while k < subs.len()
        invariant
            k <= subs@.len(),
            m@.len() == slot_count,
            forall|j: int| 0 <= j < subs@.len() ==> (#[trigger] subs@[j] as int) < slot_count,
            forall|id: int|
                0 <= id < slot_count ==> #[trigger] m@[id] == lists(subs@.subrange(0, k as int), id),
        decreases subs@.len() - k,
    {
        let a = subs[k] as usize;
        m.set(a, true);
        proof {
            let pre = subs@.subrange(0, k as int);
            let post = subs@.subrange(0, k as int + 1);
            assert(post =~= pre.push(subs@[k as int]));
            assert forall|id: int| 0 <= id < slot_count implies #[trigger] m@[id] == lists(
                post,
                id,
            ) by {
                if id == a as int {
                    assert(post[k as int] as int == id);
                } else {
                    if lists(post, id) {
                        let j = choose|j: int| 0 <= j < post.len() && post[j] as int == id;
                        assert(j < k);
                        assert(pre[j] as int == id);
                    }
                    if lists(pre, id) {
                        let j = choose|j: int| 0 <= j < pre.len() && pre[j] as int == id;
                        assert(post[j] as int == id);
                    }
                }
            }
        }
        k = k + 1;
    }
    assert(subs@.subrange(0, subs@.len() as int) =~= subs@);
    m
}

/// Sets `slot[subs[k]]` back to `NODATA_BITS` for every `k`.
fn reset_slots(slot: &mut Vec<u32>, subs: &[u32], member: &Vec<bool>)
    requires
        old(slot)@.len() == member@.len(),
        forall|k: int| 0 <= k < subs@.len() ==> (#[trigger] subs@[k] as int) < member@.len(),
        forall|id: int|
            0 <= id < member@.len() ==> #[trigger] member@[id] == lists(subs@, id),
        forall|id: int|
            0 <= id < member@.len() && !member@[id] ==> #[trigger] old(slot)@[id] == NODATA_BITS,
    ensures
        final(slot)@.len() == old(slot)@.len(),
        forall|id: int| 0 <= id < final(slot)@.len() ==> #[trigger] final(slot)@[id] == NODATA_BITS,
{
    let mut k: usize = 0;
    while k < subs.len()
        invariant
            k <= subs@.len(),
            slot@.len() == member@.len(),
            forall|j: int| 0 <= j < subs@.len() ==> (#[trigger] subs@[j] as int) < member@.len(),
            forall|id: int|
                0 <= id < member@.len() ==> #[trigger] member@[id] == lists(subs@, id),
            forall|id: int|
                0 <= id < member@.len() && !member@[id] ==> #[trigger] slot@[id] == NODATA_BITS,
            forall|j: int| 0 <= j < k ==> #[trigger] slot@[subs@[j] as int] == NODATA_BITS,
        decreases subs@.len() - k,
    {
        let a = subs[k] as usize;
        proof {
            assert(lists(subs@, a as int));
        }
        slot.set(a, NODATA_BITS);
        k = k + 1;
    }
    assert forall|id: int| 0 <= id < slot@.len() implies #[trigger] slot@[id] == NODATA_BITS by {
        if member@[id] {
            let j = choose|j: int| 0 <= j < subs@.len() && subs@[j] as int == id;
            assert(slot@[subs@[j] as int] == NODATA_BITS);
        }
    }
}

proof fn lemma_last_value_step(g: Seq<Sample>, d: Sample, id: int)
    ensures
        last_value(g.push(d), id) == if d.addr_id as int == id {
            d.value_bits
        } else {
            last_value(g, id)
        },
{
    assert(g.push(d).drop_last() =~= g);
}

proof fn lemma_rows_bytes_push(r: Seq<Seq<u32>>, row: Seq<u32>)
    ensures
        rows_bytes(r.push(row)) == rows_bytes(r) + words_bytes(row),
{
    assert(r.push(row).drop_last() =~= r);
}

/// The rows of the records `data[begin..end]`, one per run of equal times:
/// each is the run's time, then for each address of `subs`, in order, the
/// last value that the run stores for it, or `NODATA_BITS`.
pub fn write_rows(data: &[Sample], begin: usize, end: usize, subs: &[u32], slot_count: usize) -> (r:
    Vec<u8>)
    requires
        begin < end <= data@.len(),
        forall|k: int| 0 <= k < subs@.len() ==> (#[trigger] subs@[k] as int) < slot_count,
    ensures
        r@ == rows_bytes(rows(data@.subrange(begin as int, end as int), subs@)),
{
    let ghost s = data@.subrange(begin as int, end as int);
    let member = membership(subs, slot_count);
    let mut slot: Vec<u32> = Vec::with_capacity(slot_count);
    let mut z: usize = 0;
    while z < slot_count
        invariant
            z <= slot_count,
            slot@.len() == z,
            forall|id: int| 0 <= id < z ==> #[trigger] slot@[id] == NODATA_BITS,
        decreases slot_count - z,
    {
        slot.push(NODATA_BITS);
        z = z + 1;
    }
    let mut out: Vec<u8> = Vec::new();
    let first = data[begin];
    proof {
        assert(s[0] == first);
        assert(s.subrange(0, 1) =~= Seq::<Sample>::empty().push(first));
    }
    if (first.addr_id as usize) < slot_count && member[first.addr_id as usize] {
        slot.set(first.addr_id as usize, first.value_bits);
    }
    proof {
        assert forall|id: int| 0 <= id < slot@.len() implies #[trigger] slot@[id] == if member@[id] {
            last_value(s.subrange(0, 1), id)
        } else {
            NODATA_BITS
        } by {
            lemma_last_value_step(Seq::empty(), first, id);
        }
        assert(rows_bytes(rows_upto(s, subs@, 0)) =~= out@);
    }
    let mut cur: u32 = first.time_s;
    let ghost mut gs: int = 0;
    let mut i: usize = begin + 1;
    while i < end
        invariant
            begin < i <= end <= data@.len(),
            s == data@.subrange(begin as int, end as int),
            cur == s[i - begin - 1].time_s,
            gs == group_start(s, i - begin - 1),
            0 <= gs <= i - begin - 1,
            member@.len() == slot_count,
            forall|k: int| 0 <= k < subs@.len() ==> (#[trigger] subs@[k] as int) < slot_count,
            forall|id: int|
                0 <= id < slot_count ==> #[trigger] member@[id] == lists(subs@, id),
            slots_match(slot@, member@, s.subrange(gs, i - begin)),
            out@ == rows_bytes(rows_upto(s, subs@, i - begin - 1)),
        decreases end - i,
    {
        let d = data[i];
        let ghost li: int = i - begin;
        proof {
            assert(s[li] == d);
        }
        if d.time_s != cur {
            let ghost row = row_of(s, subs@, li - 1);
            proof {
                assert forall|k: int| 0 <= k < subs@.len() implies #[trigger] row[k + 1]
                    == slot@[subs@[k] as int] by {
                    assert(lists(subs@, subs@[k] as int));
                    assert(member@[subs@[k] as int]);
                }
            }
            emit_row(&mut out, cur, subs, &slot, Ghost(row));
            proof {
                lemma_rows_bytes_push(rows_upto(s, subs@, li - 1), row);
                assert(ends_group(s, li - 1));
            }
            reset_slots(&mut slot, subs, &member);
            proof {
                gs = li;
                assert(s.subrange(gs, li) =~= Seq::<Sample>::empty());
            }
        } else {
            proof {
                assert(!ends_group(s, li - 1));
            }
        }
        let ghost before = slot@;
        if (d.addr_id as usize) < slot_count && member[d.addr_id as usize] {
            slot.set(d.addr_id as usize, d.value_bits);
        }
        proof {
            assert(s.subrange(gs, li + 1) =~= s.subrange(gs, li).push(d));
            assert forall|id: int| 0 <= id < slot@.len() implies #[trigger] slot@[id] == if member@[id] {
                last_value(s.subrange(gs, li + 1), id)
            } else {
                NODATA_BITS
            } by {
                lemma_last_value_step(s.subrange(gs, li), d, id);
                assert(before[id] == if member@[id] {
                    last_value(s.subrange(gs, li), id)
                } else {
                    NODATA_BITS
                });
            }
        }
        cur = d.time_s;
        i = i + 1;
    }
    let ghost n: int = end - begin;
    let ghost row = row_of(s, subs@, n - 1);
    proof {
        assert forall|k: int| 0 <= k < subs@.len() implies #[trigger] row[k + 1] == slot@[subs@[
            k
        ] as int] by {
            assert(lists(subs@, subs@[k] as int));
            assert(member@[subs@[k] as int]);
        }
    }
    emit_row(&mut out, cur, subs, &slot, Ghost(row));
    proof {
        lemma_rows_bytes_push(rows_upto(s, subs@, n - 1), row);
        assert(ends_group(s, n - 1));
    }
    out
}

/// The rows of the records of `data` whose time lies in `[lower, upper]`,
/// for the addresses `subs`. The window is found by binary search, so the
/// result is stated for a log whose times never decrease.
pub fn read_range(data: &[Sample], lower: i32, upper: i32, subs: &[u32], slot_count: usize) -> (r:
    Vec<u8>)
    requires
        forall|k: int| 0 <= k < subs@.len() ==> (#[trigger] subs@[k] as int) < slot_count,
    ensures
        sorted_times(data@) ==> r@ == rows_bytes(
            rows(range_of(data@, lower as int, upper as int), subs@),
        ),
{
    let begin = first_at_least(data, lower as i64);
    let end = first_at_least(data, upper as i64 + 1);
    proof {
        if sorted_times(data@) {
            lemma_partition_point(data@, lower as int, begin as int);
            lemma_partition_point(data@, upper as int + 1, end as int);
        }
    }
    if begin >= end {
        proof {
            assert(rows_bytes(rows(Seq::<Sample>::empty(), subs@)) =~= Seq::<u8>::empty());
        }
        return Vec::new();
    }
    write_rows(data, begin, end, subs, slot_count)
}

/// Answers a range request from the mapped bytes of a sample log, for
/// options `opts` over an index of `index_len` entries. A request whose
/// nonce is not current gets an empty body; a log that is not a whole
/// number of records is a parse error of the data file; options naming an
/// unknown address are refused.
pub fn serve_range(req: &DataRequest, opts: &Options, index_len: usize, log: &[u8]) -> (r: Result<
    Vec<u8>,
    ManagerError,
>)
    ensures
        req.nonce != opts.nonce ==> (r matches Ok(b) && b@.len() == 0),
        req.nonce == opts.nonce && !addrs_known(opts.addrs@, index_len as int) ==> r == Err::<
            Vec<u8>,
            ManagerError,
        >(ManagerError::InvalidAddrArgument),
        req.nonce == opts.nonce && addrs_known(opts.addrs@, index_len as int) ==> {
            &&& (r is Ok <==> log@.len() % 16 == 0)
            &&& (r matches Err(e) ==> e == ManagerError::DataFileIO(
                AugmentedFileError::Parse(None),
            ))
            &&& (sorted_times(samples_of(log@)) ==> (r matches Ok(b) ==> b@ == rows_bytes(
                rows(range_of(samples_of(log@), req.lower as int, req.upper as int), opts.addrs@),
            )))
        },
{
    if req.nonce != opts.nonce {
        return Ok(Vec::new());
    }
    if !opts.addrs_valid(index_len) {
        return Err(ManagerError::InvalidAddrArgument);
    }
    let data = decode_samples(log)?;
    Ok(read_range(data.as_slice(), req.lower, req.upper, opts.addrs.as_slice(), index_len))
}

proof fn lemma_last_value_origin(g: Seq<Sample>, id: int)
    ensures
        (forall|i: int| 0 <= i < g.len() ==> g[i].addr_id as int != id) ==> last_value(g, id)
            == NODATA_BITS,
        last_value(g, id) == NODATA_BITS || exists|i: int|
            0 <= i < g.len() && g[i].addr_id as int == id && g[i].value_bits == last_value(g, id),
    decreases g.len(),
{
    if g.len() > 0 {
        let p = g.drop_last();
        lemma_last_value_origin(p, id);
        if g.last().addr_id as int != id {
            if last_value(p, id) != NODATA_BITS {
                let i = choose|i: int|
                    0 <= i < p.len() && p[i].addr_id as int == id && p[i].value_bits == last_value(
                        p,
                        id,
                    );
                assert(g[i] == p[i]);
            }
            assert forall|i: int| 0 <= i < p.len() implies p[i] == g[i] by {}
        } else {
            assert(g[g.len() - 1].addr_id as int == id);
        }
    }
}

proof fn lemma_group_start_bounds(s: Seq<Sample>, j: int)
    requires
        0 <= j < s.len(),
    ensures
        0 <= group_start(s, j) <= j,
        forall|i: int| group_start(s, j) <= i <= j ==> s[i].time_s == s[j].time_s,
    decreases j,
{
    if j > 0 && s[j - 1].time_s == s[j].time_s {
        lemma_group_start_bounds(s, j - 1);
    }
}

proof fn lemma_group_end_exists(s: Seq<Sample>, i: int)
    requires
        0 <= i < s.len(),
    ensures
        exists|j: int| i <= j < s.len() && ends_group(s, j) && s[j].time_s == s[i].time_s,
    decreases s.len() - i,
{
    if !ends_group(s, i) {
        lemma_group_end_exists(s, i + 1);
        let j = choose|j: int| i + 1 <= j < s.len() && ends_group(s, j) && s[j].time_s == s[i
            + 1].time_s;
        assert(i <= j);
    } else {
        assert(ends_group(s, i) && s[i].time_s == s[i].time_s);
    }
}

proof fn lemma_row_time(s: Seq<Sample>, subs: Seq<u32>, j: int)
    ensures
        row_of(s, subs, j).len() == subs.len() + 1,
        row_of(s, subs, j)[0] == s[j].time_s,
{
}

proof fn lemma_rows_from_groups(s: Seq<Sample>, subs: Seq<u32>, n: int)
    requires
        0 <= n <= s.len(),
    ensures
        forall|r: int|
            0 <= r < rows_upto(s, subs, n).len() ==> exists|j: int|
                0 <= j < n && ends_group(s, j) && #[trigger] rows_upto(s, subs, n)[r] == row_of(
                    s,
                    subs,
                    j,
                ),
    decreases n,
{
    if n > 0 {
        lemma_rows_from_groups(s, subs, n - 1);
        let pre = rows_upto(s, subs, n - 1);
        let cur = rows_upto(s, subs, n);
        assert forall|r: int| 0 <= r < cur.len() implies exists|j: int|
            0 <= j < n && ends_group(s, j) && #[trigger] cur[r] == row_of(s, subs, j) by {
            if r < pre.len() {
                assert(cur[r] == pre[r]);
                let j = choose|j: int|
                    0 <= j < n - 1 && ends_group(s, j) && #[trigger] pre[r] == row_of(s, subs, j);
            } else {
                assert(ends_group(s, n - 1));
                assert(cur[r] == row_of(s, subs, n - 1));
            }
        }
    }
}

proof fn lemma_groups_have_rows(s: Seq<Sample>, subs: Seq<u32>, n: int)
    requires
        0 <= n <= s.len(),
    ensures
        forall|j: int|
            0 <= j < n && ends_group(s, j) ==> exists|r: int|
                0 <= r < rows_upto(s, subs, n).len() && #[trigger] rows_upto(s, subs, n)[r]
                    == row_of(s, subs, j),
    decreases n,
{
    if n > 0 {
        lemma_groups_have_rows(s, subs, n - 1);
        let pre = rows_upto(s, subs, n - 1);
        let cur = rows_upto(s, subs, n);
        assert forall|j: int| 0 <= j < n && ends_group(s, j) implies exists|r: int|
            0 <= r < cur.len() && #[trigger] cur[r] == row_of(s, subs, j) by {
            if j < n - 1 {
                let r = choose|r: int| 0 <= r < pre.len() && #[trigger] pre[r] == row_of(s, subs, j);
                if ends_group(s, n - 1) {
                    assert(cur[r] == pre[r]);
                } else {
                    assert(cur == pre);
                }
            } else {
                assert(cur[pre.len() as int] == row_of(s, subs, j));
            }
        }
    }
}

proof fn lemma_rows_increase(s: Seq<Sample>, subs: Seq<u32>, n: int)
    requires
        0 <= n <= s.len(),
        sorted_times(s),
    ensures
        forall|a: int, b: int|
            0 <= a < b < rows_upto(s, subs, n).len() ==> rows_upto(s, subs, n)[a][0] < rows_upto(
                s,
                subs,
                n,
            )[b][0],
        forall|r: int|
            0 <= r < rows_upto(s, subs, n).len() ==> exists|j: int|
                0 <= j < n && ends_group(s, j) && #[trigger] rows_upto(s, subs, n)[r][0]
                    == s[j].time_s,
    decreases n,
{
    if n > 0 {
        lemma_rows_increase(s, subs, n - 1);
        let pre = rows_upto(s, subs, n - 1);
        let cur = rows_upto(s, subs, n);
        if ends_group(s, n - 1) {
            lemma_row_time(s, subs, n - 1);
            assert(cur == pre.push(row_of(s, subs, n - 1)));
            assert forall|r: int| 0 <= r < pre.len() implies pre[r][0] < s[n - 1].time_s by {
                let j = choose|j: int|
                    0 <= j < n - 1 && ends_group(s, j) && #[trigger] pre[r][0] == s[j].time_s;
                assert(s[j].time_s <= s[j + 1].time_s);
                assert(s[j + 1].time_s <= s[n - 1].time_s);
            }
            assert forall|a: int, b: int| 0 <= a < b < cur.len() implies cur[a][0] < cur[b][0] by {
                assert(cur[a] == pre[a]);
                if b < pre.len() {
                    assert(cur[b] == pre[b]);
                }
            }
            assert forall|r: int| 0 <= r < cur.len() implies exists|j: int|
                0 <= j < n && ends_group(s, j) && #[trigger] cur[r][0] == s[j].time_s by {
                if r < pre.len() {
                    assert(cur[r] == pre[r]);
                    let j = choose|j: int|
                        0 <= j < n - 1 && ends_group(s, j) && #[trigger] pre[r][0] == s[j].time_s;
                } else {
                    assert(cur[r][0] == s[n - 1].time_s);
                }
            }
        } else {
            assert(cur == pre);
            assert forall|r: int| 0 <= r < cur.len() implies exists|j: int|
                0 <= j < n && ends_group(s, j) && #[trigger] cur[r][0] == s[j].time_s by {
                let j = choose|j: int|
                    0 <= j < n - 1 && ends_group(s, j) && #[trigger] pre[r][0] == s[j].time_s;
            }
        }
    }
}

/// Every row of a range answer has one time word and one word per
/// subscribed address, and is the row of one run of equal times: the rows
/// of the runs, each once.
pub proof fn lemma_rows_shape(s: Seq<Sample>, subs: Seq<u32>)
    ensures
        forall|r: int|
            0 <= r < rows(s, subs).len() ==> (#[trigger] rows(s, subs)[r]).len() == subs.len() + 1,
        forall|r: int|
            0 <= r < rows(s, subs).len() ==> exists|j: int|
                0 <= j < s.len() && ends_group(s, j) && #[trigger] rows(s, subs)[r] == row_of(
                    s,
                    subs,
                    j,
                ),
        forall|j: int|
            0 <= j < s.len() && ends_group(s, j) ==> exists|r: int|
                0 <= r < rows(s, subs).len() && #[trigger] rows(s, subs)[r] == row_of(s, subs, j),
{
    lemma_rows_from_groups(s, subs, s.len() as int);
    lemma_groups_have_rows(s, subs, s.len() as int);
    assert forall|r: int| 0 <= r < rows(s, subs).len() implies (#[trigger] rows(
        s,
        subs,
    )[r]).len() == subs.len() + 1 by {
        let j = choose|j: int|
            0 <= j < s.len() && ends_group(s, j) && #[trigger] rows(s, subs)[r] == row_of(s, subs, j);
        lemma_row_time(s, subs, j);
    }
}

proof fn lemma_rows_cover(s: Seq<Sample>, subs: Seq<u32>)
    ensures
        forall|i: int|
            #![trigger s[i]]
            0 <= i < s.len() ==> exists|r: int|
                0 <= r < rows(s, subs).len() && #[trigger] rows(s, subs)[r][0] == s[i].time_s,
{
    let rs = rows(s, subs);
    lemma_groups_have_rows(s, subs, s.len() as int);
    assert forall|i: int| #![trigger s[i]] 0 <= i < s.len() implies exists|r: int|
        0 <= r < rs.len() && #[trigger] rs[r][0] == s[i].time_s by {
        lemma_group_end_exists(s, i);
        let j = choose|j: int| i <= j < s.len() && ends_group(s, j) && s[j].time_s == s[i].time_s;
        let r = choose|r: int| 0 <= r < rs.len() && #[trigger] rs[r] == row_of(s, subs, j);
        lemma_row_time(s, subs, j);
        assert(rs[r][0] == s[i].time_s);
    }
}

/// On a log whose times never decrease, a range answer has exactly one row
/// per distinct time: row times strictly increase, every record's time is
/// some row's time, and every row's time is some record's time.
pub proof fn lemma_rows_in_time_order(s: Seq<Sample>, subs: Seq<u32>)
    requires
        sorted_times(s),
    ensures
        forall|a: int, b: int|
            0 <= a < b < rows(s, subs).len() ==> rows(s, subs)[a][0] < rows(s, subs)[b][0],
        forall|i: int|
            #![trigger s[i]]
            0 <= i < s.len() ==> exists|r: int|
                0 <= r < rows(s, subs).len() && #[trigger] rows(s, subs)[r][0] == s[i].time_s,
        forall|r: int|
            0 <= r < rows(s, subs).len() ==> exists|i: int|
                0 <= i < s.len() && #[trigger] rows(s, subs)[r][0] == s[i].time_s,
{
    lemma_rows_increase(s, subs, s.len() as int);
    lemma_rows_cover(s, subs);
    let rs = rows(s, subs);
    assert forall|r: int| 0 <= r < rs.len() implies exists|i: int|
        0 <= i < s.len() && #[trigger] rs[r][0] == s[i].time_s by {
        let j = choose|j: int|
            0 <= j < s.len() && ends_group(s, j) && #[trigger] rs[r][0] == s[j].time_s;
    }
}

/// The word of subscribed address `subs[k]` in the row of the run ending at
/// `j` is `NODATA_BITS` when no record of the run is for that address, and
/// otherwise either that sentinel or the value of a record of the run for
/// that very address: no other address's value is ever emitted.
pub proof fn lemma_row_values(s: Seq<Sample>, subs: Seq<u32>, j: int, k: int)
    requires
        0 <= j < s.len(),
        0 <= k < subs.len(),
    ensures
        (forall|i: int| group_start(s, j) <= i <= j ==> s[i].addr_id != subs[k]) ==> row_of(
            s,
            subs,
            j,
        )[k + 1] == NODATA_BITS,
        row_of(s, subs, j)[k + 1] == NODATA_BITS || exists|i: int|
            group_start(s, j) <= i <= j && s[i].addr_id == subs[k] && s[i].time_s == s[j].time_s
                && s[i].value_bits == row_of(s, subs, j)[k + 1],
{
    lemma_group_start_bounds(s, j);
    let gs = group_start(s, j);
    let g = s.subrange(gs, j + 1);
    lemma_last_value_origin(g, subs[k] as int);
    assert(row_of(s, subs, j)[k + 1] == last_value(g, subs[k] as int));
    if forall|i: int| gs <= i <= j ==> s[i].addr_id != subs[k] {
        assert forall|i: int| 0 <= i < g.len() implies g[i].addr_id as int != subs[k] as int by {
            assert(g[i] == s[gs + i]);
        }
    }
    if last_value(g, subs[k] as int) != NODATA_BITS {
        let i = choose|i: int|
            0 <= i < g.len() && g[i].addr_id as int == subs[k] as int && g[i].value_bits
                == last_value(g, subs[k] as int);
        assert(g[i] == s[gs + i]);
    }
}

} // verus!
