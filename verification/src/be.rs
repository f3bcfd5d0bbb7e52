//! Big-endian integers.

use vstd::prelude::*;

verus! {

/// The number that bytes write, most significant byte first.
pub open spec fn be_value(bytes: Seq<u8>) -> nat
    decreases bytes.len(),
{
    if bytes.len() == 0 {
        0
    } else {
        be_value(bytes.drop_last()) * 256 + bytes.last() as nat
    }
}

/// A number in `len` bytes, most significant byte first.
pub open spec fn be_bytes(n: nat, len: nat) -> Seq<u8>
    decreases len,
{
    if len == 0 {
        seq![]
    } else {
        be_bytes(n / 256, (len - 1) as nat).push((n % 256) as u8)
    }
}

/// How many numbers `len` bytes can write.
pub open spec fn be_limit(len: nat) -> nat
    decreases len,
{
    if len == 0 {
        1
    } else {
        256 * be_limit((len - 1) as nat)
    }
}

pub proof fn lemma_be_value_bound(bytes: Seq<u8>)
    ensures
        be_value(bytes) < be_limit(bytes.len()),
    decreases bytes.len(),
{
    if bytes.len() > 0 {
        lemma_be_value_bound(bytes.drop_last());
    }
}

pub proof fn lemma_be_bytes_len(n: nat, len: nat)
    ensures
        be_bytes(n, len).len() == len,
    decreases len,
{
    if len > 0 {
        lemma_be_bytes_len(n / 256, (len - 1) as nat);
    }
}

/// A number that fits reads back from its bytes.
pub proof fn be_bytes_read_back(n: nat, len: nat)
    requires
        n < be_limit(len),
    ensures
        be_bytes(n, len).len() == len,
        be_value(be_bytes(n, len)) == n,
    decreases len,
{
    if len > 0 {
        let head = be_bytes(n / 256, (len - 1) as nat);
        be_bytes_read_back(n / 256, (len - 1) as nat);
        assert(be_bytes(n, len).drop_last() =~= head);
    }
}

/// Bytes are what the number that they write is written as.
pub proof fn be_value_writes_back(bytes: Seq<u8>)
    ensures
        be_bytes(be_value(bytes), bytes.len()) == bytes,
    decreases bytes.len(),
{
    if bytes.len() > 0 {
        be_value_writes_back(bytes.drop_last());
        assert(be_value(bytes) / 256 == be_value(bytes.drop_last()));
        assert(be_value(bytes) % 256 == bytes.last() as nat);
        assert(bytes.drop_last().push(bytes.last()) =~= bytes);
    } else {
        assert(bytes =~= Seq::<u8>::empty());
    }
}

pub proof fn lemma_be_limits()
    ensures
        be_limit(2) == 0x1_0000,
        be_limit(4) == 0x1_0000_0000,
        be_limit(8) == 0x1_0000_0000_0000_0000,
        be_limit(16) == 0x1_0000_0000_0000_0000_0000_0000_0000_0000,
{
    reveal_with_fuel(be_limit, 17);
}

proof fn lemma_be_limit_monotonic(a: nat, b: nat)
    requires
        a <= b,
    ensures
        be_limit(a) <= be_limit(b),
    decreases b,
{
    if a < b {
        lemma_be_limit_monotonic(a, (b - 1) as nat);
    }
}

/// Write a number in `len` bytes, most significant byte first.
pub fn write_be(n: u128, len: usize) -> (bytes: Vec<u8>)
    ensures
        bytes@ == be_bytes(n as nat, len as nat),
    decreases len,
{
    if len == 0 {
        Vec::new()
    } else {
        let mut bytes = write_be(n / 256, len - 1);
        bytes.push((n % 256) as u8);
        bytes
    }
}

/// Read a number of at most 16 bytes, most significant byte first.
pub fn read_be(bytes: &[u8]) -> (n: u128)
    requires
        bytes@.len() <= 16,
    ensures
        n == be_value(bytes@),
{
    let mut n: u128 = 0;
    let mut i: usize = 0;
    while i < bytes.len()
        invariant
            0 <= i <= bytes.len() <= 16,
            n == be_value(bytes@.take(i as int)),
        decreases bytes.len() - i,
    {
        proof {
            let next = bytes@.take(i + 1);
            assert(next.drop_last() =~= bytes@.take(i as int));
            lemma_be_value_bound(next);
            lemma_be_limits();
            lemma_be_limit_monotonic(next.len(), 16);
        }
        n = n * 256 + bytes[i] as u128;
        i = i + 1;
    }
    assert(bytes@.take(bytes@.len() as int) =~= bytes@);
    n
}

/// Read a number of 2 bytes.
pub fn read_be_u16(bytes: &[u8]) -> (n: u16)
    requires
        bytes@.len() == 2,
    ensures
        n == be_value(bytes@),
{
    proof {
        lemma_be_value_bound(bytes@);
        lemma_be_limits();
    }
    read_be(bytes) as u16
}

/// Read a number of 4 bytes.
pub fn read_be_u32(bytes: &[u8]) -> (n: u32)
    requires
        bytes@.len() == 4,
    ensures
        n == be_value(bytes@),
{
    proof {
        lemma_be_value_bound(bytes@);
        lemma_be_limits();
    }
    read_be(bytes) as u32
}

/// Read a number of 8 bytes.
pub fn read_be_u64(bytes: &[u8]) -> (n: u64)
    requires
        bytes@.len() == 8,
    ensures
        n == be_value(bytes@),
{
    proof {
        lemma_be_value_bound(bytes@);
        lemma_be_limits();
    }
    read_be(bytes) as u64
}

} // verus!
