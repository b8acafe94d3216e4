use vstd::prelude::*;

use crate::error::{AugmentedFileError, ManagerError};

verus! {

/// Size in bytes of one packed sample record.
pub const SAMPLE_SIZE: usize = 16;

/// Bit pattern of the quiet NaN that marks a failed measurement, and a raw
/// (not aggregated) sample in the `sd` field.
pub const NAN_BITS: u32 = 0x7fc0_0000;

/// One packed record of the sample log: `time_s`, `addr_id`, then the
/// IEEE-754 bit patterns of `value` and `sd`, each four bytes little-endian.
#[derive(Debug, Clone, Copy, PartialEq, Eq, Structural)]
pub struct Sample {
    pub time_s: u32,
    pub addr_id: u32,
    pub value_bits: u32,
    pub sd_bits: u32,
}

/// The four little-endian bytes of `x`.
pub open spec fn le_bytes(x: u32) -> Seq<u8> {
    seq![
        (x & 0xff) as u8,
        ((x >> 8u32) & 0xff) as u8,
        ((x >> 16u32) & 0xff) as u8,
        ((x >> 24u32) & 0xff) as u8,
    ]
}

/// The word whose little-endian bytes are `b[at..at + 4]`.
pub open spec fn le_word(b: Seq<u8>, at: int) -> u32 {
    (b[at] as u32) | ((b[at + 1] as u32) << 8u32) | ((b[at + 2] as u32) << 16u32) | ((b[at
        + 3] as u32) << 24u32)
}

/// The 16 bytes of one record.
pub open spec fn sample_bytes(s: Sample) -> Seq<u8> {
    le_bytes(s.time_s) + le_bytes(s.addr_id) + le_bytes(s.value_bits) + le_bytes(s.sd_bits)
}

/// The on-disk record under the name of the data layer.
pub type DataElement = Sample;

/// The bytes of a sequence of records, back to back.
pub open spec fn samples_bytes(ss: Seq<Sample>) -> Seq<u8>
    decreases ss.len(),
{
    if ss.len() == 0 {
        Seq::empty()
    } else {
        samples_bytes(ss.drop_last()) + sample_bytes(ss.last())
    }
}

/// The record stored at byte offset `at`.
pub open spec fn sample_at(b: Seq<u8>, at: int) -> Sample {
    Sample {
        time_s: le_word(b, at),
        addr_id: le_word(b, at + 4),
        value_bits: le_word(b, at + 8),
        sd_bits: le_word(b, at + 12),
    }
}

/// The records that a byte sequence holds, one per whole 16 bytes.
pub open spec fn samples_of(b: Seq<u8>) -> Seq<Sample> {
    Seq::new(b.len() / 16, |i: int| sample_at(b, 16 * i))
}

proof fn lemma_le_word_of_bytes(x: u32)
    ensures
        le_word(le_bytes(x), 0) == x,
{
    let b = le_bytes(x);
    let b0 = (x & 0xff) as u8;
    let b1 = ((x >> 8u32) & 0xff) as u8;
    let b2 = ((x >> 16u32) & 0xff) as u8;
    let b3 = ((x >> 24u32) & 0xff) as u8;
    assert(b[0] == b0 && b[1] == b1 && b[2] == b2 && b[3] == b3);
    assert((b0 as u32) | ((b1 as u32) << 8u32) | ((b2 as u32) << 16u32) | ((b3 as u32) << 24u32)
        == x) by (bit_vector)
        requires
            b0 == (x & 0xff) as u8,
            b1 == ((x >> 8u32) & 0xff) as u8,
            b2 == ((x >> 16u32) & 0xff) as u8,
            b3 == ((x >> 24u32) & 0xff) as u8,
    ;
}

proof fn lemma_le_word_shift(b: Seq<u8>, c: Seq<u8>, at: int)
    requires
        0 <= at,
        at + 4 <= c.len(),
    ensures
        le_word(b + c, b.len() + at) == le_word(c, at),
{
    assert((b + c)[b.len() + at] == c[at]);
    assert((b + c)[b.len() + at + 1] == c[at + 1]);
    assert((b + c)[b.len() + at + 2] == c[at + 2]);
    assert((b + c)[b.len() + at + 3] == c[at + 3]);
}

proof fn lemma_le_word_prefix(b: Seq<u8>, c: Seq<u8>, at: int)
    requires
        0 <= at,
        at + 4 <= b.len(),
    ensures
        le_word(b + c, at) == le_word(b, at),
{
    assert((b + c)[at] == b[at]);
    assert((b + c)[at + 1] == b[at + 1]);
    assert((b + c)[at + 2] == b[at + 2]);
    assert((b + c)[at + 3] == b[at + 3]);
}

proof fn lemma_sample_of_bytes(s: Sample)
    ensures
        sample_bytes(s).len() == 16,
        sample_at(sample_bytes(s), 0) == s,
{
    let t = le_bytes(s.time_s);
    let a = le_bytes(s.addr_id);
    let v = le_bytes(s.value_bits);
    let d = le_bytes(s.sd_bits);
    lemma_le_word_of_bytes(s.time_s);
    lemma_le_word_of_bytes(s.addr_id);
    lemma_le_word_of_bytes(s.value_bits);
    lemma_le_word_of_bytes(s.sd_bits);
    lemma_le_word_prefix(t, a, 0);
    lemma_le_word_prefix(t + a, v, 0);
    lemma_le_word_prefix(t + a + v, d, 0);
    lemma_le_word_shift(t, a, 0);
    lemma_le_word_prefix(t + a, v, 4);
    lemma_le_word_prefix(t + a + v, d, 4);
    lemma_le_word_shift(t + a, v, 0);
    lemma_le_word_prefix(t + a + v, d, 8);
    lemma_le_word_shift(t + a + v, d, 0);
}

proof fn lemma_samples_bytes_len(ss: Seq<Sample>)
    ensures
        samples_bytes(ss).len() == 16 * ss.len(),
    decreases ss.len(),
{
    if ss.len() > 0 {
        lemma_samples_bytes_len(ss.drop_last());
        lemma_sample_of_bytes(ss.last());
    }
}

/// Reading back the bytes of any sequence of records gives that sequence:
/// the log's encoding loses nothing, and its length is 16 bytes a record.
pub proof fn lemma_round_trip(ss: Seq<Sample>)
    ensures
        samples_bytes(ss).len() == 16 * ss.len(),
        samples_of(samples_bytes(ss)) == ss,
    decreases ss.len(),
{
    lemma_samples_bytes_len(ss);
    if ss.len() > 0 {
        let pre = ss.drop_last();
        let b = samples_bytes(pre);
        let c = sample_bytes(ss.last());
        lemma_round_trip(pre);
        lemma_sample_of_bytes(ss.last());
        let all = samples_of(b + c);
        assert forall|i: int| 0 <= i < ss.len() implies all[i] == ss[i] by {
            assert(all[i] == sample_at(b + c, 16 * i));
            if i < pre.len() {
                assert(samples_of(b)[i] == sample_at(b, 16 * i));
                lemma_le_word_prefix(b, c, 16 * i);
                lemma_le_word_prefix(b, c, 16 * i + 4);
                lemma_le_word_prefix(b, c, 16 * i + 8);
                lemma_le_word_prefix(b, c, 16 * i + 12);
            } else {
                assert(16 * i == b.len());
                lemma_le_word_shift(b, c, 0);
                lemma_le_word_shift(b, c, 4);
                lemma_le_word_shift(b, c, 8);
                lemma_le_word_shift(b, c, 12);
            }
        }
        assert(all =~= ss);
    } else {
        assert(samples_of(samples_bytes(ss)) =~= ss);
    }
}

/// Appends the four little-endian bytes of `x` to `out`.
pub fn push_le(out: &mut Vec<u8>, x: u32)
    ensures
        final(out)@ == old(out)@ + le_bytes(x),
{
    out.push((x & 0xff) as u8);
    out.push(((x >> 8u32) & 0xff) as u8);
    out.push(((x >> 16u32) & 0xff) as u8);
    out.push(((x >> 24u32) & 0xff) as u8);
    assert(out@ =~= old(out)@ + le_bytes(x));
}

/// Reads the little-endian word at `b[at..at + 4]`.
pub fn read_le(b: &[u8], at: usize) -> (r: u32)
    requires
        at + 4 <= b@.len(),
    ensures
        r == le_word(b@, at as int),
{
    (b[at] as u32) | ((b[at + 1] as u32) << 8u32) | ((b[at + 2] as u32) << 16u32) | ((b[at
        + 3] as u32) << 24u32)
}

impl Sample {
    /// A raw measurement: `sd` holds NaN.
    pub fn raw(time_s: u32, addr_id: u32, value_bits: u32) -> (r: Sample)
        ensures
            r == (Sample { time_s, addr_id, value_bits, sd_bits: NAN_BITS }),
    {
        Sample { time_s, addr_id, value_bits, sd_bits: NAN_BITS }
    }

    /// Appends this record's 16 bytes to `out`.
    pub fn write_to(&self, out: &mut Vec<u8>)
        ensures
            final(out)@ == old(out)@ + sample_bytes(*self),
    {
        push_le(out, self.time_s);
        push_le(out, self.addr_id);
        push_le(out, self.value_bits);
        push_le(out, self.sd_bits);
        assert(out@ =~= old(out)@ + sample_bytes(*self));
    }
}

/// The bytes of `samples`, one 16-byte record each, in order: what an append
/// writes to the sample log.
pub fn encode_samples(samples: &[Sample]) -> (r: Vec<u8>)
    ensures
        r@ == samples_bytes(samples@),
{
    let mut out: Vec<u8> = Vec::new();
    let mut i: usize = 0;
    while i < samples.len()
        invariant
            i <= samples@.len(),
            out@ == samples_bytes(samples@.subrange(0, i as int)),
        decreases samples@.len() - i,
    {
        proof {
            let next = samples@.subrange(0, i as int + 1);
            assert(next.drop_last() =~= samples@.subrange(0, i as int));
            assert(next.last() == samples@[i as int]);
        }
        samples[i].write_to(&mut out);
        i = i + 1;
    }
    assert(samples@.subrange(0, samples@.len() as int) =~= samples@);
    out
}

/// Reads a mapped sample log as records. The log must be a whole number of
/// records: any other length is a parse error of the data file.
pub fn decode_samples(bytes: &[u8]) -> (r: Result<Vec<Sample>, ManagerError>)
    ensures
        r is Ok <==> bytes@.len() % 16 == 0,
        r matches Ok(v) ==> v@ == samples_of(bytes@),
        r matches Err(e) ==> e == ManagerError::DataFileIO(AugmentedFileError::Parse(None)),
{
    if bytes.len() % SAMPLE_SIZE != 0 {
        return Err(ManagerError::DataFileIO(AugmentedFileError::Parse(None)));
    }
    let len = bytes.len();
    let n = len / SAMPLE_SIZE;
    let mut out: Vec<Sample> = Vec::with_capacity(n);
    let mut i: usize = 0;
    while i < n
        invariant
            len == bytes@.len(),
            n == bytes@.len() / 16,
            bytes@.len() % 16 == 0,
            i <= n,
            out@ == samples_of(bytes@).subrange(0, i as int),
        decreases n - i,
    {
        proof {
            assert(i * 16 + 16 <= n * 16) by (nonlinear_arith)
                requires
                    i < n,
            ;
            assert(n * 16 <= bytes@.len()) by (nonlinear_arith)
                requires
                    n == bytes@.len() / 16,
            ;
        }
        let at = i * 16;
        let s = Sample {
            time_s: read_le(bytes, at),
            addr_id: read_le(bytes, at + 4),
            value_bits: read_le(bytes, at + 8),
            sd_bits: read_le(bytes, at + 12),
        };
        out.push(s);
        i = i + 1;
        assert(out@ =~= samples_of(bytes@).subrange(0, i as int));
    }
    assert(out@ =~= samples_of(bytes@));
    Ok(out)
}

} // verus!
