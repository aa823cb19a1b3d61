//! The persisted counter record and its exact 36-byte binary layout.

use vstd::prelude::*;

verus! {

/// Number of bytes in an identity value (an owner, authority or program key).
pub const IDENTITY_SIZE: usize = 32;

/// Number of bytes in the serialized record: a 32-byte authority identity
/// followed by a little-endian unsigned 32-bit count. External readers of the
/// storage slot depend on this exact layout.
pub const RECORD_SIZE: usize = 36;

/// The persisted record: who may increment the counter, and the running total.
///
/// `count == 0` marks an uninitialized slot; the first successful call binds
/// the signing identity as the permanent `authority`.
#[derive(Debug)]
pub struct AuthCounter {
    pub authority: Vec<u8>,
    pub count: u32,
}

/// Mathematical view of an [`AuthCounter`].
#[verifier::ext_equal]
pub ghost struct RecordView {
    pub authority: Seq<u8>,
    pub count: u32,
}

impl View for AuthCounter {
    type V = RecordView;

    open spec fn view(&self) -> RecordView {
        RecordView { authority: self.authority@, count: self.count }
    }
}

impl RecordView {
    /// A well-formed record carries a full 32-byte authority identity.
    pub open spec fn wf(self) -> bool {
        self.authority.len() == IDENTITY_SIZE
    }
}

/// The unsigned 32-bit value that four little-endian bytes encode.
pub open spec fn u32_from_le_bytes(s: Seq<u8>) -> u32
    recommends
        s.len() == 4,
{
    (s[0] + s[1] * 0x100 + s[2] * 0x1_0000 + s[3] * 0x100_0000) as u32
}

/// The four little-endian bytes of an unsigned 32-bit value.
pub open spec fn u32_to_le_bytes(x: u32) -> Seq<u8> {
    seq![
        (x % 0x100) as u8,
        ((x / 0x100) % 0x100) as u8,
        ((x / 0x1_0000) % 0x100) as u8,
        ((x / 0x100_0000) % 0x100) as u8,
    ]
}

/// The exact 36-byte encoding of a record: raw authority bytes, then the
/// little-endian count.
pub open spec fn record_bytes(r: RecordView) -> Seq<u8> {
    r.authority + u32_to_le_bytes(r.count)
}

/// The record held by a 36-byte buffer.
pub open spec fn record_of_bytes(s: Seq<u8>) -> RecordView
    recommends
        s.len() == RECORD_SIZE,
{
    RecordView {
        authority: s.subrange(0, IDENTITY_SIZE as int),
        count: u32_from_le_bytes(s.subrange(IDENTITY_SIZE as int, RECORD_SIZE as int)),
    }
}

/// Reassembling the four little-endian bytes of a value gives the value back.
pub proof fn lemma_u32_le_round_trip(x: u32)
    ensures
        u32_from_le_bytes(u32_to_le_bytes(x)) == x,
{
    assert(x % 0x100 + ((x / 0x100) % 0x100) * 0x100 + ((x / 0x1_0000) % 0x100) * 0x1_0000
        + ((x / 0x100_0000) % 0x100) * 0x100_0000 == x) by (bit_vector);
}

/// Encoding is exactly 36 bytes and is inverted by decoding: the record that
/// `record_bytes` lays down is the record that `record_of_bytes` reads back.
pub proof fn lemma_record_round_trip(r: RecordView)
    requires
        r.wf(),
    ensures
        record_bytes(r).len() == RECORD_SIZE,
        record_of_bytes(record_bytes(r)) == r,
{
    let b = record_bytes(r);
    assert(b.subrange(0, IDENTITY_SIZE as int) =~= r.authority);
    assert(b.subrange(IDENTITY_SIZE as int, RECORD_SIZE as int) =~= u32_to_le_bytes(r.count));
    lemma_u32_le_round_trip(r.count);
    assert(record_of_bytes(b) =~= r);
}

/// Copies bytes `lo .. hi` of `data` into a fresh vector.
pub(crate) fn copy_range(data: &Vec<u8>, lo: usize, hi: usize) -> (r: Vec<u8>)
    requires
        lo <= hi <= data@.len(),
    ensures
        r@ == data@.subrange(lo as int, hi as int),
{
    let mut out: Vec<u8> = Vec::new();
    let mut i: usize = lo;
    while i < hi
        invariant
            lo <= i <= hi <= data@.len(),
            out@ == data@.subrange(lo as int, i as int),
        decreases hi - i,
    {
        out.push(data[i]);
        i = i + 1;
        proof {
            assert(data@.subrange(lo as int, i as int) =~= data@.subrange(
                lo as int,
                i - 1,
            ).push(data@[i - 1]));
        }
    }
    out
}

/// Reads a 4-byte little-endian buffer as an unsigned 32-bit value.
pub fn read_u32_le(b: &Vec<u8>) -> (r: u32)
    requires
        b@.len() == 4,
    ensures
        r == u32_from_le_bytes(b@),
{
    b[0] as u32 + (b[1] as u32) * 0x100 + (b[2] as u32) * 0x1_0000 + (b[3] as u32) * 0x100_0000
}

/// Parses a 36-byte buffer into a record; any other length is rejected.
pub fn decode_record(data: &Vec<u8>) -> (r: Option<AuthCounter>)
    ensures
        match r {
            Some(rec) => data@.len() == RECORD_SIZE && rec@ == record_of_bytes(data@)
                && rec@.wf(),
            None => data@.len() != RECORD_SIZE,
        },
{
    if data.len() != RECORD_SIZE {
        return None;
    }
    let authority = copy_range(data, 0, IDENTITY_SIZE);
    let count_bytes = copy_range(data, IDENTITY_SIZE, RECORD_SIZE);
    let count = read_u32_le(&count_bytes);
    let rec = AuthCounter { authority, count };
    proof {
        assert(rec@ =~= record_of_bytes(data@));
    }
    Some(rec)
}

/// Serializes a record into its exact 36-byte layout.
pub fn encode_record(rec: &AuthCounter) -> (r: Vec<u8>)
    requires
        rec@.wf(),
    ensures
        r@ == record_bytes(rec@),
        r@.len() == RECORD_SIZE,
{
    let mut out = copy_range(&rec.authority, 0, rec.authority.len());
    out.push((rec.count % 0x100) as u8);
    out.push(((rec.count / 0x100) % 0x100) as u8);
    out.push(((rec.count / 0x1_0000) % 0x100) as u8);
    out.push(((rec.count / 0x100_0000) % 0x100) as u8);
    proof {
        assert(out@ =~= record_bytes(rec@));
    }
    out
}

} // verus!
