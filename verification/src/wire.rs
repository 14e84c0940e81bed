//! Byte streams and fixed-width integer codecs used by the wire formats.

use vstd::prelude::*;

verus! {

/// Error of a stream operation: the stream ended early.
#[derive(Clone, Copy, Debug, PartialEq, Eq, Structural)]
pub enum WireError {
    Eof,
}

/// The big-endian byte string of a 64-bit value.
pub open spec fn be_bytes_of_u64(v: u64) -> Seq<u8> {
    Seq::new(8, |i: int| ((v >> (8 * (7 - i))) & 0xff) as u8)
}

/// The big-endian byte string of a 128-bit value.
pub open spec fn be_bytes_of_u128(v: u128) -> Seq<u8> {
    Seq::new(16, |i: int| ((v >> (8 * (15 - i))) & 0xff) as u8)
}

/// The little-endian byte string of a 64-bit value.
pub open spec fn le_bytes_of_u64(v: u64) -> Seq<u8> {
    Seq::new(8, |i: int| ((v >> (8 * i)) & 0xff) as u8)
}

/// Two 64-bit values with the same big-endian bytes are equal.
pub proof fn lemma_be_bytes_of_u64_injective(a: u64, b: u64)
    requires
        be_bytes_of_u64(a) == be_bytes_of_u64(b),
    ensures
        a == b,
{
    assert(be_bytes_of_u64(a)[0] == ((a >> 56) & 0xff) as u8);
    assert(be_bytes_of_u64(b)[0] == ((b >> 56) & 0xff) as u8);
    assert(be_bytes_of_u64(a)[1] == ((a >> 48) & 0xff) as u8);
    assert(be_bytes_of_u64(b)[1] == ((b >> 48) & 0xff) as u8);
    assert(be_bytes_of_u64(a)[2] == ((a >> 40) & 0xff) as u8);
    assert(be_bytes_of_u64(b)[2] == ((b >> 40) & 0xff) as u8);
    assert(be_bytes_of_u64(a)[3] == ((a >> 32) & 0xff) as u8);
    assert(be_bytes_of_u64(b)[3] == ((b >> 32) & 0xff) as u8);
    assert(be_bytes_of_u64(a)[4] == ((a >> 24) & 0xff) as u8);
    assert(be_bytes_of_u64(b)[4] == ((b >> 24) & 0xff) as u8);
    assert(be_bytes_of_u64(a)[5] == ((a >> 16) & 0xff) as u8);
    assert(be_bytes_of_u64(b)[5] == ((b >> 16) & 0xff) as u8);
    assert(be_bytes_of_u64(a)[6] == ((a >> 8) & 0xff) as u8);
    assert(be_bytes_of_u64(b)[6] == ((b >> 8) & 0xff) as u8);
    assert(be_bytes_of_u64(a)[7] == ((a >> 0) & 0xff) as u8);
    assert(be_bytes_of_u64(b)[7] == ((b >> 0) & 0xff) as u8);
    assert((((a >> 56) & 0xff) as u8 == ((b >> 56) & 0xff) as u8 && ((a >> 48) & 0xff) as u8 == ((b >> 48) & 0xff) as u8 && ((a >> 40) & 0xff) as u8 == ((b >> 40) & 0xff) as u8 && ((a >> 32) & 0xff) as u8 == ((b >> 32) & 0xff) as u8 && ((a >> 24) & 0xff) as u8 == ((b >> 24) & 0xff) as u8 && ((a >> 16) & 0xff) as u8 == ((b >> 16) & 0xff) as u8 && ((a >> 8) & 0xff) as u8 == ((b >> 8) & 0xff) as u8 && ((a >> 0) & 0xff) as u8 == ((b >> 0) & 0xff) as u8) ==> a == b) by (bit_vector);
}

/// Two 128-bit values with the same big-endian bytes are equal.
pub proof fn lemma_be_bytes_of_u128_injective(a: u128, b: u128)
    requires
        be_bytes_of_u128(a) == be_bytes_of_u128(b),
    ensures
        a == b,
{
    assert(be_bytes_of_u128(a)[0] == ((a >> 120) & 0xff) as u8);
    assert(be_bytes_of_u128(b)[0] == ((b >> 120) & 0xff) as u8);
    assert(be_bytes_of_u128(a)[1] == ((a >> 112) & 0xff) as u8);
    assert(be_bytes_of_u128(b)[1] == ((b >> 112) & 0xff) as u8);
    assert(be_bytes_of_u128(a)[2] == ((a >> 104) & 0xff) as u8);
    assert(be_bytes_of_u128(b)[2] == ((b >> 104) & 0xff) as u8);
    assert(be_bytes_of_u128(a)[3] == ((a >> 96) & 0xff) as u8);
    assert(be_bytes_of_u128(b)[3] == ((b >> 96) & 0xff) as u8);
    assert(be_bytes_of_u128(a)[4] == ((a >> 88) & 0xff) as u8);
    assert(be_bytes_of_u128(b)[4] == ((b >> 88) & 0xff) as u8);
    assert(be_bytes_of_u128(a)[5] == ((a >> 80) & 0xff) as u8);
    assert(be_bytes_of_u128(b)[5] == ((b >> 80) & 0xff) as u8);
    assert(be_bytes_of_u128(a)[6] == ((a >> 72) & 0xff) as u8);
    assert(be_bytes_of_u128(b)[6] == ((b >> 72) & 0xff) as u8);
    assert(be_bytes_of_u128(a)[7] == ((a >> 64) & 0xff) as u8);
    assert(be_bytes_of_u128(b)[7] == ((b >> 64) & 0xff) as u8);
    assert(be_bytes_of_u128(a)[8] == ((a >> 56) & 0xff) as u8);
    assert(be_bytes_of_u128(b)[8] == ((b >> 56) & 0xff) as u8);
    assert(be_bytes_of_u128(a)[9] == ((a >> 48) & 0xff) as u8);
    assert(be_bytes_of_u128(b)[9] == ((b >> 48) & 0xff) as u8);
    assert(be_bytes_of_u128(a)[10] == ((a >> 40) & 0xff) as u8);
    assert(be_bytes_of_u128(b)[10] == ((b >> 40) & 0xff) as u8);
    assert(be_bytes_of_u128(a)[11] == ((a >> 32) & 0xff) as u8);
    assert(be_bytes_of_u128(b)[11] == ((b >> 32) & 0xff) as u8);
    assert(be_bytes_of_u128(a)[12] == ((a >> 24) & 0xff) as u8);
    assert(be_bytes_of_u128(b)[12] == ((b >> 24) & 0xff) as u8);
    assert(be_bytes_of_u128(a)[13] == ((a >> 16) & 0xff) as u8);
    assert(be_bytes_of_u128(b)[13] == ((b >> 16) & 0xff) as u8);
    assert(be_bytes_of_u128(a)[14] == ((a >> 8) & 0xff) as u8);
    assert(be_bytes_of_u128(b)[14] == ((b >> 8) & 0xff) as u8);
    assert(be_bytes_of_u128(a)[15] == ((a >> 0) & 0xff) as u8);
    assert(be_bytes_of_u128(b)[15] == ((b >> 0) & 0xff) as u8);
    assert((((a >> 120) & 0xff) as u8 == ((b >> 120) & 0xff) as u8 && ((a >> 112) & 0xff) as u8 == ((b >> 112) & 0xff) as u8 && ((a >> 104) & 0xff) as u8 == ((b >> 104) & 0xff) as u8 && ((a >> 96) & 0xff) as u8 == ((b >> 96) & 0xff) as u8 && ((a >> 88) & 0xff) as u8 == ((b >> 88) & 0xff) as u8 && ((a >> 80) & 0xff) as u8 == ((b >> 80) & 0xff) as u8 && ((a >> 72) & 0xff) as u8 == ((b >> 72) & 0xff) as u8 && ((a >> 64) & 0xff) as u8 == ((b >> 64) & 0xff) as u8 && ((a >> 56) & 0xff) as u8 == ((b >> 56) & 0xff) as u8 && ((a >> 48) & 0xff) as u8 == ((b >> 48) & 0xff) as u8 && ((a >> 40) & 0xff) as u8 == ((b >> 40) & 0xff) as u8 && ((a >> 32) & 0xff) as u8 == ((b >> 32) & 0xff) as u8 && ((a >> 24) & 0xff) as u8 == ((b >> 24) & 0xff) as u8 && ((a >> 16) & 0xff) as u8 == ((b >> 16) & 0xff) as u8 && ((a >> 8) & 0xff) as u8 == ((b >> 8) & 0xff) as u8 && ((a >> 0) & 0xff) as u8 == ((b >> 0) & 0xff) as u8) ==> a == b) by (bit_vector);
}

/// Builds a 64-bit value from 8 big-endian bytes.
pub fn u64_from_be_bytes(b: &[u8]) -> (r: u64)
    requires
        b@.len() == 8,
    ensures
        be_bytes_of_u64(r) == b@,
{
    let r: u64 = ((b[0] as u64) << 56) | ((b[1] as u64) << 48) | ((b[2] as u64) << 40) | ((b[3] as u64) << 32) | ((b[4] as u64) << 24) | ((b[5] as u64) << 16) | ((b[6] as u64) << 8) | ((b[7] as u64) << 0);
    proof {
        let b0 = b@[0];
        let b1 = b@[1];
        let b2 = b@[2];
        let b3 = b@[3];
        let b4 = b@[4];
        let b5 = b@[5];
        let b6 = b@[6];
        let b7 = b@[7];
        assert((r == ((b0 as u64) << 56) | ((b1 as u64) << 48) | ((b2 as u64) << 40) | ((b3 as u64) << 32) | ((b4 as u64) << 24) | ((b5 as u64) << 16) | ((b6 as u64) << 8) | ((b7 as u64) << 0)) ==> (((r >> 56) & 0xff) as u8 == b0 && ((r >> 48) & 0xff) as u8 == b1 && ((r >> 40) & 0xff) as u8 == b2 && ((r >> 32) & 0xff) as u8 == b3 && ((r >> 24) & 0xff) as u8 == b4 && ((r >> 16) & 0xff) as u8 == b5 && ((r >> 8) & 0xff) as u8 == b6 && ((r >> 0) & 0xff) as u8 == b7)) by (bit_vector);
        assert forall|i: int| 0 <= i < 8 implies be_bytes_of_u64(r)[i] == b@[i] by {
            if i == 0 {
                assert(be_bytes_of_u64(r)[0] == b@[0]);
            } else if i == 1 {
                assert(be_bytes_of_u64(r)[1] == b@[1]);
            } else if i == 2 {
                assert(be_bytes_of_u64(r)[2] == b@[2]);
            } else if i == 3 {
                assert(be_bytes_of_u64(r)[3] == b@[3]);
            } else if i == 4 {
                assert(be_bytes_of_u64(r)[4] == b@[4]);
            } else if i == 5 {
                assert(be_bytes_of_u64(r)[5] == b@[5]);
            } else if i == 6 {
                assert(be_bytes_of_u64(r)[6] == b@[6]);
            } else if i == 7 {
                assert(be_bytes_of_u64(r)[7] == b@[7]);
            }
        }
        assert(be_bytes_of_u64(r) =~= b@);
    }
    r
}

/// Builds a 64-bit value from 8 little-endian bytes.
pub fn u64_from_le_bytes(b: &[u8]) -> (r: u64)
    requires
        b@.len() == 8,
    ensures
        le_bytes_of_u64(r) == b@,
{
    let r: u64 = ((b[0] as u64) << 0) | ((b[1] as u64) << 8) | ((b[2] as u64) << 16) | ((b[3] as u64) << 24) | ((b[4] as u64) << 32) | ((b[5] as u64) << 40) | ((b[6] as u64) << 48) | ((b[7] as u64) << 56);
    proof {
        let b0 = b@[0];
        let b1 = b@[1];
        let b2 = b@[2];
        let b3 = b@[3];
        let b4 = b@[4];
        let b5 = b@[5];
        let b6 = b@[6];
        let b7 = b@[7];
        assert((r == ((b0 as u64) << 0) | ((b1 as u64) << 8) | ((b2 as u64) << 16) | ((b3 as u64) << 24) | ((b4 as u64) << 32) | ((b5 as u64) << 40) | ((b6 as u64) << 48) | ((b7 as u64) << 56)) ==> (((r >> 0) & 0xff) as u8 == b0 && ((r >> 8) & 0xff) as u8 == b1 && ((r >> 16) & 0xff) as u8 == b2 && ((r >> 24) & 0xff) as u8 == b3 && ((r >> 32) & 0xff) as u8 == b4 && ((r >> 40) & 0xff) as u8 == b5 && ((r >> 48) & 0xff) as u8 == b6 && ((r >> 56) & 0xff) as u8 == b7)) by (bit_vector);
        assert forall|i: int| 0 <= i < 8 implies le_bytes_of_u64(r)[i] == b@[i] by {
            if i == 0 {
                assert(le_bytes_of_u64(r)[0] == b@[0]);
            } else if i == 1 {
                assert(le_bytes_of_u64(r)[1] == b@[1]);
            } else if i == 2 {
                assert(le_bytes_of_u64(r)[2] == b@[2]);
            } else if i == 3 {
                assert(le_bytes_of_u64(r)[3] == b@[3]);
            } else if i == 4 {
                assert(le_bytes_of_u64(r)[4] == b@[4]);
            } else if i == 5 {
                assert(le_bytes_of_u64(r)[5] == b@[5]);
            } else if i == 6 {
                assert(le_bytes_of_u64(r)[6] == b@[6]);
            } else if i == 7 {
                assert(le_bytes_of_u64(r)[7] == b@[7]);
            }
        }
        assert(le_bytes_of_u64(r) =~= b@);
    }
    r
}

/// Appends the big-endian bytes of a 64-bit value.
pub fn push_u64_be(out: &mut Vec<u8>, v: u64)
    ensures
        final(out)@ == old(out)@ + be_bytes_of_u64(v),
{
    out.push(#[verifier::truncate] (((v >> 56) & 0xff) as u8));
    out.push(#[verifier::truncate] (((v >> 48) & 0xff) as u8));
    out.push(#[verifier::truncate] (((v >> 40) & 0xff) as u8));
    out.push(#[verifier::truncate] (((v >> 32) & 0xff) as u8));
    out.push(#[verifier::truncate] (((v >> 24) & 0xff) as u8));
    out.push(#[verifier::truncate] (((v >> 16) & 0xff) as u8));
    out.push(#[verifier::truncate] (((v >> 8) & 0xff) as u8));
    out.push(#[verifier::truncate] (((v >> 0) & 0xff) as u8));
    proof {
        assert forall|i: int| 0 <= i < out@.len() implies out@[i] == (old(out)@
            + be_bytes_of_u64(v))[i] by {
            let n = old(out)@.len() as int;
            if i < n {
                assert(out@[i] == old(out)@[i]);
            } else if i == n + 0 {
                assert(be_bytes_of_u64(v)[0] == ((v >> 56) & 0xff) as u8);
            } else if i == n + 1 {
                assert(be_bytes_of_u64(v)[1] == ((v >> 48) & 0xff) as u8);
            } else if i == n + 2 {
                assert(be_bytes_of_u64(v)[2] == ((v >> 40) & 0xff) as u8);
            } else if i == n + 3 {
                assert(be_bytes_of_u64(v)[3] == ((v >> 32) & 0xff) as u8);
            } else if i == n + 4 {
                assert(be_bytes_of_u64(v)[4] == ((v >> 24) & 0xff) as u8);
            } else if i == n + 5 {
                assert(be_bytes_of_u64(v)[5] == ((v >> 16) & 0xff) as u8);
            } else if i == n + 6 {
                assert(be_bytes_of_u64(v)[6] == ((v >> 8) & 0xff) as u8);
            } else if i == n + 7 {
                assert(be_bytes_of_u64(v)[7] == ((v >> 0) & 0xff) as u8);
            }
        }
        assert(out@ =~= old(out)@ + be_bytes_of_u64(v));
    }
}

/// Appends the little-endian bytes of a 64-bit value.
pub fn push_u64_le(out: &mut Vec<u8>, v: u64)
    ensures
        final(out)@ == old(out)@ + le_bytes_of_u64(v),
{
    out.push(#[verifier::truncate] (((v >> 0) & 0xff) as u8));
    out.push(#[verifier::truncate] (((v >> 8) & 0xff) as u8));
    out.push(#[verifier::truncate] (((v >> 16) & 0xff) as u8));
    out.push(#[verifier::truncate] (((v >> 24) & 0xff) as u8));
    out.push(#[verifier::truncate] (((v >> 32) & 0xff) as u8));
    out.push(#[verifier::truncate] (((v >> 40) & 0xff) as u8));
    out.push(#[verifier::truncate] (((v >> 48) & 0xff) as u8));
    out.push(#[verifier::truncate] (((v >> 56) & 0xff) as u8));
    proof {
        assert forall|i: int| 0 <= i < out@.len() implies out@[i] == (old(out)@
            + le_bytes_of_u64(v))[i] by {
            let n = old(out)@.len() as int;
            if i < n {
                assert(out@[i] == old(out)@[i]);
            } else if i == n + 0 {
                assert(le_bytes_of_u64(v)[0] == ((v >> 0) & 0xff) as u8);
            } else if i == n + 1 {
                assert(le_bytes_of_u64(v)[1] == ((v >> 8) & 0xff) as u8);
            } else if i == n + 2 {
                assert(le_bytes_of_u64(v)[2] == ((v >> 16) & 0xff) as u8);
            } else if i == n + 3 {
                assert(le_bytes_of_u64(v)[3] == ((v >> 24) & 0xff) as u8);
            } else if i == n + 4 {
                assert(le_bytes_of_u64(v)[4] == ((v >> 32) & 0xff) as u8);
            } else if i == n + 5 {
                assert(le_bytes_of_u64(v)[5] == ((v >> 40) & 0xff) as u8);
            } else if i == n + 6 {
                assert(le_bytes_of_u64(v)[6] == ((v >> 48) & 0xff) as u8);
            } else if i == n + 7 {
                assert(le_bytes_of_u64(v)[7] == ((v >> 56) & 0xff) as u8);
            }
        }
        assert(out@ =~= old(out)@ + le_bytes_of_u64(v));
    }
}

/// Appends the big-endian bytes of a 128-bit value.
pub fn push_u128_be(out: &mut Vec<u8>, v: u128)
    ensures
        final(out)@ == old(out)@ + be_bytes_of_u128(v),
{
    out.push(#[verifier::truncate] (((v >> 120) & 0xff) as u8));
    out.push(#[verifier::truncate] (((v >> 112) & 0xff) as u8));
    out.push(#[verifier::truncate] (((v >> 104) & 0xff) as u8));
    out.push(#[verifier::truncate] (((v >> 96) & 0xff) as u8));
    out.push(#[verifier::truncate] (((v >> 88) & 0xff) as u8));
    out.push(#[verifier::truncate] (((v >> 80) & 0xff) as u8));
    out.push(#[verifier::truncate] (((v >> 72) & 0xff) as u8));
    out.push(#[verifier::truncate] (((v >> 64) & 0xff) as u8));
    out.push(#[verifier::truncate] (((v >> 56) & 0xff) as u8));
    out.push(#[verifier::truncate] (((v >> 48) & 0xff) as u8));
    out.push(#[verifier::truncate] (((v >> 40) & 0xff) as u8));
    out.push(#[verifier::truncate] (((v >> 32) & 0xff) as u8));
    out.push(#[verifier::truncate] (((v >> 24) & 0xff) as u8));
    out.push(#[verifier::truncate] (((v >> 16) & 0xff) as u8));
    out.push(#[verifier::truncate] (((v >> 8) & 0xff) as u8));
    out.push(#[verifier::truncate] (((v >> 0) & 0xff) as u8));
    proof {
        assert forall|i: int| 0 <= i < out@.len() implies out@[i] == (old(out)@
            + be_bytes_of_u128(v))[i] by {
            let n = old(out)@.len() as int;
            if i < n {
                assert(out@[i] == old(out)@[i]);
            } else if i == n + 0 {
                assert(be_bytes_of_u128(v)[0] == ((v >> 120) & 0xff) as u8);
            } else if i == n + 1 {
                assert(be_bytes_of_u128(v)[1] == ((v >> 112) & 0xff) as u8);
            } else if i == n + 2 {
                assert(be_bytes_of_u128(v)[2] == ((v >> 104) & 0xff) as u8);
            } else if i == n + 3 {
                assert(be_bytes_of_u128(v)[3] == ((v >> 96) & 0xff) as u8);
            } else if i == n + 4 {
                assert(be_bytes_of_u128(v)[4] == ((v >> 88) & 0xff) as u8);
            } else if i == n + 5 {
                assert(be_bytes_of_u128(v)[5] == ((v >> 80) & 0xff) as u8);
            } else if i == n + 6 {
                assert(be_bytes_of_u128(v)[6] == ((v >> 72) & 0xff) as u8);
            } else if i == n + 7 {
                assert(be_bytes_of_u128(v)[7] == ((v >> 64) & 0xff) as u8);
            } else if i == n + 8 {
                assert(be_bytes_of_u128(v)[8] == ((v >> 56) & 0xff) as u8);
            } else if i == n + 9 {
                assert(be_bytes_of_u128(v)[9] == ((v >> 48) & 0xff) as u8);
            } else if i == n + 10 {
                assert(be_bytes_of_u128(v)[10] == ((v >> 40) & 0xff) as u8);
            } else if i == n + 11 {
                assert(be_bytes_of_u128(v)[11] == ((v >> 32) & 0xff) as u8);
            } else if i == n + 12 {
                assert(be_bytes_of_u128(v)[12] == ((v >> 24) & 0xff) as u8);
            } else if i == n + 13 {
                assert(be_bytes_of_u128(v)[13] == ((v >> 16) & 0xff) as u8);
            } else if i == n + 14 {
                assert(be_bytes_of_u128(v)[14] == ((v >> 8) & 0xff) as u8);
            } else if i == n + 15 {
                assert(be_bytes_of_u128(v)[15] == ((v >> 0) & 0xff) as u8);
            }
        }
        assert(out@ =~= old(out)@ + be_bytes_of_u128(v));
    }
}

/// Builds a 128-bit value from 16 big-endian bytes.
#[verifier::rlimit(60)]
pub fn u128_from_be_bytes(b: &[u8]) -> (r: u128)
    requires
        b@.len() == 16,
    ensures
        be_bytes_of_u128(r) == b@,
{
    let r: u128 = ((b[0] as u128) << 120) | ((b[1] as u128) << 112) | ((b[2] as u128) << 104) | ((b[3] as u128) << 96) | ((b[4] as u128) << 88) | ((b[5] as u128) << 80) | ((b[6] as u128) << 72) | ((b[7] as u128) << 64) | ((b[8] as u128) << 56) | ((b[9] as u128) << 48) | ((b[10] as u128) << 40) | ((b[11] as u128) << 32) | ((b[12] as u128) << 24) | ((b[13] as u128) << 16) | ((b[14] as u128) << 8) | ((b[15] as u128) << 0);
    proof {
        let b0 = b@[0];
        let b1 = b@[1];
        let b2 = b@[2];
        let b3 = b@[3];
        let b4 = b@[4];
        let b5 = b@[5];
        let b6 = b@[6];
        let b7 = b@[7];
        let b8 = b@[8];
        let b9 = b@[9];
        let b10 = b@[10];
        let b11 = b@[11];
        let b12 = b@[12];
        let b13 = b@[13];
        let b14 = b@[14];
        let b15 = b@[15];
        assert((r == ((b0 as u128) << 120) | ((b1 as u128) << 112) | ((b2 as u128) << 104) | ((b3 as u128) << 96) | ((b4 as u128) << 88) | ((b5 as u128) << 80) | ((b6 as u128) << 72) | ((b7 as u128) << 64) | ((b8 as u128) << 56) | ((b9 as u128) << 48) | ((b10 as u128) << 40) | ((b11 as u128) << 32) | ((b12 as u128) << 24) | ((b13 as u128) << 16) | ((b14 as u128) << 8) | ((b15 as u128) << 0)) ==> (((r >> 120) & 0xff) as u8 == b0 && ((r >> 112) & 0xff) as u8 == b1 && ((r >> 104) & 0xff) as u8 == b2 && ((r >> 96) & 0xff) as u8 == b3 && ((r >> 88) & 0xff) as u8 == b4 && ((r >> 80) & 0xff) as u8 == b5 && ((r >> 72) & 0xff) as u8 == b6 && ((r >> 64) & 0xff) as u8 == b7 && ((r >> 56) & 0xff) as u8 == b8 && ((r >> 48) & 0xff) as u8 == b9 && ((r >> 40) & 0xff) as u8 == b10 && ((r >> 32) & 0xff) as u8 == b11 && ((r >> 24) & 0xff) as u8 == b12 && ((r >> 16) & 0xff) as u8 == b13 && ((r >> 8) & 0xff) as u8 == b14 && ((r >> 0) & 0xff) as u8 == b15)) by (bit_vector);
        assert forall|i: int| 0 <= i < 16 implies be_bytes_of_u128(r)[i] == b@[i] by {
            if i == 0 {
                assert(be_bytes_of_u128(r)[0] == b@[0]);
            } else if i == 1 {
                assert(be_bytes_of_u128(r)[1] == b@[1]);
            } else if i == 2 {
                assert(be_bytes_of_u128(r)[2] == b@[2]);
            } else if i == 3 {
                assert(be_bytes_of_u128(r)[3] == b@[3]);
            } else if i == 4 {
                assert(be_bytes_of_u128(r)[4] == b@[4]);
            } else if i == 5 {
                assert(be_bytes_of_u128(r)[5] == b@[5]);
            } else if i == 6 {
                assert(be_bytes_of_u128(r)[6] == b@[6]);
            } else if i == 7 {
                assert(be_bytes_of_u128(r)[7] == b@[7]);
            } else if i == 8 {
                assert(be_bytes_of_u128(r)[8] == b@[8]);
            } else if i == 9 {
                assert(be_bytes_of_u128(r)[9] == b@[9]);
            } else if i == 10 {
                assert(be_bytes_of_u128(r)[10] == b@[10]);
            } else if i == 11 {
                assert(be_bytes_of_u128(r)[11] == b@[11]);
            } else if i == 12 {
                assert(be_bytes_of_u128(r)[12] == b@[12]);
            } else if i == 13 {
                assert(be_bytes_of_u128(r)[13] == b@[13]);
            } else if i == 14 {
                assert(be_bytes_of_u128(r)[14] == b@[14]);
            } else if i == 15 {
                assert(be_bytes_of_u128(r)[15] == b@[15]);
            }
        }
        assert(be_bytes_of_u128(r) =~= b@);
    }
    r
}

/// Two 64-bit values with the same little-endian bytes are equal.
pub proof fn lemma_le_bytes_of_u64_injective(a: u64, b: u64)
    requires
        le_bytes_of_u64(a) == le_bytes_of_u64(b),
    ensures
        a == b,
{
    assert(le_bytes_of_u64(a)[0] == ((a >> 0) & 0xff) as u8);
    assert(le_bytes_of_u64(b)[0] == ((b >> 0) & 0xff) as u8);
    assert(le_bytes_of_u64(a)[1] == ((a >> 8) & 0xff) as u8);
    assert(le_bytes_of_u64(b)[1] == ((b >> 8) & 0xff) as u8);
    assert(le_bytes_of_u64(a)[2] == ((a >> 16) & 0xff) as u8);
    assert(le_bytes_of_u64(b)[2] == ((b >> 16) & 0xff) as u8);
    assert(le_bytes_of_u64(a)[3] == ((a >> 24) & 0xff) as u8);
    assert(le_bytes_of_u64(b)[3] == ((b >> 24) & 0xff) as u8);
    assert(le_bytes_of_u64(a)[4] == ((a >> 32) & 0xff) as u8);
    assert(le_bytes_of_u64(b)[4] == ((b >> 32) & 0xff) as u8);
    assert(le_bytes_of_u64(a)[5] == ((a >> 40) & 0xff) as u8);
    assert(le_bytes_of_u64(b)[5] == ((b >> 40) & 0xff) as u8);
    assert(le_bytes_of_u64(a)[6] == ((a >> 48) & 0xff) as u8);
    assert(le_bytes_of_u64(b)[6] == ((b >> 48) & 0xff) as u8);
    assert(le_bytes_of_u64(a)[7] == ((a >> 56) & 0xff) as u8);
    assert(le_bytes_of_u64(b)[7] == ((b >> 56) & 0xff) as u8);
    assert((((a >> 0) & 0xff) as u8 == ((b >> 0) & 0xff) as u8 && ((a >> 8) & 0xff) as u8 == ((b >> 8) & 0xff) as u8 && ((a >> 16) & 0xff) as u8 == ((b >> 16) & 0xff) as u8 && ((a >> 24) & 0xff) as u8 == ((b >> 24) & 0xff) as u8 && ((a >> 32) & 0xff) as u8 == ((b >> 32) & 0xff) as u8 && ((a >> 40) & 0xff) as u8 == ((b >> 40) & 0xff) as u8 && ((a >> 48) & 0xff) as u8 == ((b >> 48) & 0xff) as u8 && ((a >> 56) & 0xff) as u8 == ((b >> 56) & 0xff) as u8) ==> a == b) by (bit_vector);
}

/// The big-endian byte string of a 32-bit value.
pub open spec fn be_bytes_of_u32(v: u32) -> Seq<u8> {
    Seq::new(4, |i: int| ((v >> (8 * (3 - i))) & 0xff) as u8)
}

/// Two 32-bit values with the same big-endian bytes are equal.
pub proof fn lemma_be_bytes_of_u32_injective(a: u32, b: u32)
    requires
        be_bytes_of_u32(a) == be_bytes_of_u32(b),
    ensures
        a == b,
{
    assert(be_bytes_of_u32(a)[0] == ((a >> 24) & 0xff) as u8);
    assert(be_bytes_of_u32(b)[0] == ((b >> 24) & 0xff) as u8);
    assert(be_bytes_of_u32(a)[1] == ((a >> 16) & 0xff) as u8);
    assert(be_bytes_of_u32(b)[1] == ((b >> 16) & 0xff) as u8);
    assert(be_bytes_of_u32(a)[2] == ((a >> 8) & 0xff) as u8);
    assert(be_bytes_of_u32(b)[2] == ((b >> 8) & 0xff) as u8);
    assert(be_bytes_of_u32(a)[3] == ((a >> 0) & 0xff) as u8);
    assert(be_bytes_of_u32(b)[3] == ((b >> 0) & 0xff) as u8);
    assert((((a >> 24) & 0xff) as u8 == ((b >> 24) & 0xff) as u8 && ((a >> 16) & 0xff) as u8 == ((b >> 16) & 0xff) as u8 && ((a >> 8) & 0xff) as u8 == ((b >> 8) & 0xff) as u8 && ((a >> 0) & 0xff) as u8 == ((b >> 0) & 0xff) as u8) ==> a == b) by (bit_vector);
}

/// Builds a 32-bit value from 4 big-endian bytes.
pub fn u32_from_be_bytes(b: &[u8]) -> (r: u32)
    requires
        b@.len() == 4,
    ensures
        be_bytes_of_u32(r) == b@,
{
    let r: u32 = ((b[0] as u32) << 24) | ((b[1] as u32) << 16) | ((b[2] as u32) << 8) | ((b[3] as u32) << 0);
    proof {
        let b0 = b@[0];
        let b1 = b@[1];
        let b2 = b@[2];
        let b3 = b@[3];
        assert((r == ((b0 as u32) << 24) | ((b1 as u32) << 16) | ((b2 as u32) << 8) | ((b3 as u32) << 0)) ==> (((r >> 24) & 0xff) as u8 == b0 && ((r >> 16) & 0xff) as u8 == b1 && ((r >> 8) & 0xff) as u8 == b2 && ((r >> 0) & 0xff) as u8 == b3)) by (bit_vector);
        assert forall|i: int| 0 <= i < 4 implies be_bytes_of_u32(r)[i] == b@[i] by {
            if i == 0 {
                assert(be_bytes_of_u32(r)[0] == b@[0]);
            } else if i == 1 {
                assert(be_bytes_of_u32(r)[1] == b@[1]);
            } else if i == 2 {
                assert(be_bytes_of_u32(r)[2] == b@[2]);
            } else if i == 3 {
                assert(be_bytes_of_u32(r)[3] == b@[3]);
            }
        }
        assert(be_bytes_of_u32(r) =~= b@);
    }
    r
}

/// Appends the big-endian bytes of a 32-bit value.
pub fn push_u32_be(out: &mut Vec<u8>, v: u32)
    ensures
        final(out)@ == old(out)@ + be_bytes_of_u32(v),
{
    out.push(#[verifier::truncate] (((v >> 24) & 0xff) as u8));
    out.push(#[verifier::truncate] (((v >> 16) & 0xff) as u8));
    out.push(#[verifier::truncate] (((v >> 8) & 0xff) as u8));
    out.push(#[verifier::truncate] (((v >> 0) & 0xff) as u8));
    proof {
        assert forall|i: int| 0 <= i < out@.len() implies out@[i] == (old(out)@
            + be_bytes_of_u32(v))[i] by {
            let n = old(out)@.len() as int;
            if i < n {
                assert(out@[i] == old(out)@[i]);
            } else if i == n + 0 {
                assert(be_bytes_of_u32(v)[0] == ((v >> 24) & 0xff) as u8);
            } else if i == n + 1 {
                assert(be_bytes_of_u32(v)[1] == ((v >> 16) & 0xff) as u8);
            } else if i == n + 2 {
                assert(be_bytes_of_u32(v)[2] == ((v >> 8) & 0xff) as u8);
            } else if i == n + 3 {
                assert(be_bytes_of_u32(v)[3] == ((v >> 0) & 0xff) as u8);
            }
        }
        assert(out@ =~= old(out)@ + be_bytes_of_u32(v));
    }
}
/// Appends a byte slice to a vector.
pub fn push_bytes(out: &mut Vec<u8>, bytes: &[u8])
    ensures
        final(out)@ == old(out)@ + bytes@,
{
    let mut i: usize = 0;
    while i < bytes.len()
        invariant
            i <= bytes@.len(),
            out@ == old(out)@ + bytes@.subrange(0, i as int),
        decreases bytes@.len() - i,
    {
        out.push(bytes[i]);
        proof {
            assert(out@ =~= old(out)@ + bytes@.subrange(0, i + 1));
        }
        i += 1;
    }
    proof {
        assert(bytes@.subrange(0, bytes@.len() as int) =~= bytes@);
    }
}

/// Copies the byte range `[from, to)` of a slice into a fresh vector.
pub fn slice_range(b: &[u8], from: usize, to: usize) -> (r: Vec<u8>)
    requires
        from <= to <= b@.len(),
    ensures
        r@ == b@.subrange(from as int, to as int),
{
    let mut out: Vec<u8> = Vec::new();
    let mut i: usize = from;
    while i < to
        invariant
            from <= i <= to <= b@.len(),
            out@ == b@.subrange(from as int, i as int),
        decreases to - i,
    {
        out.push(b[i]);
        proof {
            assert(out@ =~= b@.subrange(from as int, i + 1));
        }
        i += 1;
    }
    out
}

/// A byte stream over a growable buffer with a read cursor.
pub struct MemoryStream {
    pub data: Vec<u8>,
    pub read_pos: usize,
}

impl MemoryStream {
    /// All bytes held by the stream.
    pub open spec fn data_seq(&self) -> Seq<u8> {
        self.data@
    }

    /// The read cursor.
    pub open spec fn pos(&self) -> int {
        self.read_pos as int
    }

    /// The cursor never runs past the data.
    pub open spec fn wf(&self) -> bool {
        self.read_pos <= self.data@.len()
    }

    /// Bytes not yet read.
    pub open spec fn remaining(&self) -> int {
        self.data@.len() - self.pos()
    }

    pub fn new() -> (r: MemoryStream)
        ensures
            r.wf(),
            r.data_seq() == Seq::<u8>::empty(),
            r.pos() == 0,
    {
        let s = MemoryStream { data: Vec::new(), read_pos: 0 };
        proof {
            assert(s.data@ =~= Seq::<u8>::empty());
        }
        s
    }

    pub fn from_vec(data: Vec<u8>) -> (r: MemoryStream)
        ensures
            r.wf(),
            r.data_seq() == data@,
            r.pos() == 0,
    {
        MemoryStream { data, read_pos: 0 }
    }

    /// A copy of all bytes held by the stream.
    pub fn to_vec(&self) -> (r: Vec<u8>)
        ensures
            r@ == self.data_seq(),
    {
        let r = slice_range(self.data.as_slice(), 0, self.data.len());
        proof {
            assert(self.data@.subrange(0, self.data@.len() as int) =~= self.data@);
        }
        r
    }

    pub fn write_u8(&mut self, value: u8)
        requires
            old(self).wf(),
        ensures
            final(self).wf(),
            final(self).data_seq() == old(self).data_seq() + seq![value],
            final(self).pos() == old(self).pos(),
    {
        self.data.push(value);
        proof {
            assert(self.data@ =~= old(self).data@ + seq![value]);
        }
    }

    pub fn write_bytes(&mut self, bytes: &[u8])
        requires
            old(self).wf(),
        ensures
            final(self).wf(),
            final(self).data_seq() == old(self).data_seq() + bytes@,
            final(self).pos() == old(self).pos(),
    {
        let mut i: usize = 0;
        while i < bytes.len()
            invariant
                i <= bytes@.len(),
                self.data@ == old(self).data@ + bytes@.subrange(0, i as int),
                self.read_pos == old(self).read_pos,
                old(self).wf(),
            decreases bytes@.len() - i,
        {
            self.data.push(bytes[i]);
            proof {
                assert(self.data@ =~= old(self).data@ + bytes@.subrange(0, i + 1));
            }
            i += 1;
        }
        proof {
            assert(bytes@.subrange(0, bytes@.len() as int) =~= bytes@);
        }
    }

    pub fn write_u64_be(&mut self, value: u64)
        requires
            old(self).wf(),
        ensures
            final(self).wf(),
            final(self).data_seq() == old(self).data_seq() + be_bytes_of_u64(value),
            final(self).pos() == old(self).pos(),
    {
        push_u64_be(&mut self.data, value);
    }

    pub fn write_u64_le(&mut self, value: u64)
        requires
            old(self).wf(),
        ensures
            final(self).wf(),
            final(self).data_seq() == old(self).data_seq() + le_bytes_of_u64(value),
            final(self).pos() == old(self).pos(),
    {
        push_u64_le(&mut self.data, value);
    }

    pub fn write_u128_be(&mut self, value: u128)
        requires
            old(self).wf(),
        ensures
            final(self).wf(),
            final(self).data_seq() == old(self).data_seq() + be_bytes_of_u128(value),
            final(self).pos() == old(self).pos(),
    {
        push_u128_be(&mut self.data, value);
    }

    pub fn read_u8(&mut self) -> (r: Result<u8, WireError>)
        requires
            old(self).wf(),
        ensures
            final(self).wf(),
            final(self).data_seq() == old(self).data_seq(),
            old(self).remaining() == 0 ==> r == Result::<u8, WireError>::Err(WireError::Eof)
                && final(self).pos() == old(self).pos(),
            old(self).remaining() > 0 ==> r == Result::<u8, WireError>::Ok(
                old(self).data_seq()[old(self).pos()],
            ) && final(self).pos() == old(self).pos() + 1,
    {
        if self.read_pos < self.data.len() {
            let b = self.data[self.read_pos];
            self.read_pos += 1;
            Ok(b)
        } else {
            Err(WireError::Eof)
        }
    }

    /// Reads exactly `len` bytes, or fails leaving the stream unchanged.
    pub fn read_exact(&mut self, len: usize) -> (r: Result<Vec<u8>, WireError>)
        requires
            old(self).wf(),
        ensures
            final(self).wf(),
            final(self).data_seq() == old(self).data_seq(),
            old(self).remaining() < len ==> r is Err && final(self).pos() == old(self).pos(),
            old(self).remaining() >= len ==> r is Ok && r.unwrap()@ == old(self).data_seq().subrange(
                old(self).pos(),
                old(self).pos() + len,
            ) && final(self).pos() == old(self).pos() + len,
    {
        if self.data.len() - self.read_pos < len {
            return Err(WireError::Eof);
        }
        let out = slice_range(self.data.as_slice(), self.read_pos, self.read_pos + len);
        self.read_pos += len;
        Ok(out)
    }

    /// Whether the read cursor has consumed every byte.
    pub fn at_end(&self) -> (r: bool)
        requires
            self.wf(),
        ensures
            r == (self.remaining() == 0),
    {
        self.read_pos == self.data.len()
    }
}

/// Writes a vector's bytes into a fresh 32-byte array.
pub fn vec_to_bytes32(v: &Vec<u8>) -> (r: [u8; 32])
    requires
        v@.len() == 32,
    ensures
        r@ == v@,
{
    let mut out = [0u8; 32];
    let mut i: usize = 0;
    while i < 32
        invariant
            i <= 32,
            v@.len() == 32,
            out@.len() == 32,
            forall|j: int| 0 <= j < i ==> out@[j] == v@[j],
        decreases 32 - i,
    {
        out[i] = v[i];
        i += 1;
    }
    proof {
        assert(out@ =~= v@);
    }
    out
}

/// Writes a vector's bytes into a fresh 64-byte array.
pub fn vec_to_bytes64(v: &Vec<u8>) -> (r: [u8; 64])
    requires
        v@.len() == 64,
    ensures
        r@ == v@,
{
    let mut out = [0u8; 64];
    let mut i: usize = 0;
    while i < 64
        invariant
            i <= 64,
            v@.len() == 64,
            out@.len() == 64,
            forall|j: int| 0 <= j < i ==> out@[j] == v@[j],
        decreases 64 - i,
    {
        out[i] = v[i];
        i += 1;
    }
    proof {
        assert(out@ =~= v@);
    }
    out
}

/// A sink and source of bytes, as the serializers see it.
pub trait Stream {
    fn stream_write_u8(&mut self, value: u8) -> (r: Result<(), WireError>)
        requires
            old(self).stream_inv(),
        ensures
            final(self).stream_inv(),
    ;

    fn stream_write_bytes(&mut self, bytes: &[u8]) -> (r: Result<(), WireError>)
        requires
            old(self).stream_inv(),
        ensures
            final(self).stream_inv(),
    ;

    fn stream_read_u8(&mut self) -> (r: Result<u8, WireError>)
        requires
            old(self).stream_inv(),
        ensures
            final(self).stream_inv(),
    ;

    spec fn stream_inv(&self) -> bool;
}

impl Stream for MemoryStream {
    open spec fn stream_inv(&self) -> bool {
        self.wf()
    }

    fn stream_write_u8(&mut self, value: u8) -> Result<(), WireError> {
        self.write_u8(value);
        Ok(())
    }

    fn stream_write_bytes(&mut self, bytes: &[u8]) -> Result<(), WireError> {
        self.write_bytes(bytes);
        Ok(())
    }

    fn stream_read_u8(&mut self) -> Result<u8, WireError> {
        self.read_u8()
    }
}

} // verus!
