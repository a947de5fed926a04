use vstd::prelude::*;

verus! {

/// The big-endian value of a byte sequence.
pub open spec fn be_value(b: Seq<u8>) -> nat
    decreases b.len(),
{
    if b.len() == 0 {
        0
    } else {
        (be_value(b.drop_last()) * 256 + b.last()) as nat
    }
}

/// `2^(8n)`, the bound of an `n`-byte big-endian value.
pub open spec fn byte_bound(n: nat) -> nat
    decreases n,
{
    if n == 0 {
        1
    } else {
        byte_bound((n - 1) as nat) * 256
    }
}

proof fn lemma_be_value_bound(b: Seq<u8>)
    ensures
        be_value(b) < byte_bound(b.len()),
    decreases b.len(),
{
    if b.len() > 0 {
        lemma_be_value_bound(b.drop_last());
        let v = be_value(b.drop_last());
        let m = byte_bound(b.drop_last().len());
        let l = b.last();
        assert(v * 256 + l < m * 256) by (nonlinear_arith)
            requires
                v < m,
                l < 256,
        ;
    }
}

/// Reads eight bytes as a big-endian `u64`.
pub fn u64_from_be_bytes(b: [u8; 8]) -> (r: u64)
    ensures
        r == be_value(b@),
{
    let mut v: u64 = 0;
    let mut i: usize = 0;
    proof {
        assert(byte_bound(0) == 1);
        assert(byte_bound(1) == 0x100);
        assert(byte_bound(2) == 0x1_0000);
        assert(byte_bound(3) == 0x100_0000);
        assert(byte_bound(4) == 0x1_0000_0000);
        assert(byte_bound(5) == 0x100_0000_0000);
        assert(byte_bound(6) == 0x1_0000_0000_0000);
        assert(byte_bound(7) == 0x100_0000_0000_0000);
        assert(byte_bound(8) == 0x1_0000_0000_0000_0000);
    }
    while i < 8
        invariant
            i <= 8,
            b@.len() == 8,
            v == be_value(b@.take(i as int)),
            byte_bound(8) == 0x1_0000_0000_0000_0000,
        decreases 8 - i,
    {
        proof {
            let t = b@.take(i + 1);
            assert(t.drop_last() =~= b@.take(i as int));
            lemma_be_value_bound(t);
            assert(byte_bound(t.len()) <= byte_bound(8)) by {
                lemma_byte_bound_mono(t.len(), 8);
            }
        }
        v = v * 256 + b[i] as u64;
        i = i + 1;
    }
    proof {
        assert(b@.take(8) =~= b@);
    }
    v
}

proof fn lemma_byte_bound_mono(m: nat, n: nat)
    requires
        m <= n,
    ensures
        byte_bound(m) <= byte_bound(n),
    decreases n - m,
{
    if m < n {
        lemma_byte_bound_mono(m, (n - 1) as nat);
        assert(byte_bound(n) == byte_bound((n - 1) as nat) * 256);
    }
}

/// The stored form of a PDU's ID: the room's short ID and the event's
/// count, each as eight big-endian bytes.
pub struct RawId {
    pub shortroomid: [u8; 8],
    pub count: [u8; 8],
}

/// A PDU's ID: which room (by short ID), and where in it (by count, in its
/// unsigned encoding).
#[derive(Debug, Clone, Copy, PartialEq, Eq, Structural)]
pub struct Id {
    pub shortroomid: u64,
    pub count: u64,
}

impl Id {
    /// Decodes the stored form.
    pub fn from_raw(raw: &RawId) -> (r: Id)
        ensures
            r.shortroomid == be_value(raw.shortroomid@),
            r.count == be_value(raw.count@),
    {
        Id { shortroomid: u64_from_be_bytes(raw.shortroomid), count: u64_from_be_bytes(raw.count) }
    }
}

} // verus!
