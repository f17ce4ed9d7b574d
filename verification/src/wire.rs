//! Fixed-width integers as bytes on the wire.

use vstd::prelude::*;

verus! {

/// The two bytes of a 16-bit value, most significant first.
pub open spec fn be16_bytes(v: nat) -> Seq<u8> {
    seq![((v / 0x100) % 0x100) as u8, (v % 0x100) as u8]
}

/// The four bytes of a 32-bit value, most significant first.
pub open spec fn be32_bytes(v: nat) -> Seq<u8> {
    seq![
        ((v / 0x100_0000) % 0x100) as u8,
        ((v / 0x1_0000) % 0x100) as u8,
        ((v / 0x100) % 0x100) as u8,
        (v % 0x100) as u8,
    ]
}

/// The eight bytes of a 64-bit value, most significant first.
pub open spec fn be64_bytes(v: nat) -> Seq<u8> {
    be32_bytes(v / 0x1_0000_0000) + be32_bytes(v % 0x1_0000_0000)
}

/// The eight bytes of a 64-bit value, least significant first.
pub open spec fn le64_bytes(v: nat) -> Seq<u8> {
    seq![
        (v % 0x100) as u8,
        ((v / 0x100) % 0x100) as u8,
        ((v / 0x1_0000) % 0x100) as u8,
        ((v / 0x100_0000) % 0x100) as u8,
        ((v / 0x1_0000_0000) % 0x100) as u8,
        ((v / 0x100_0000_0000) % 0x100) as u8,
        ((v / 0x1_0000_0000_0000) % 0x100) as u8,
        ((v / 0x100_0000_0000_0000) % 0x100) as u8,
    ]
}

/// The 32-bit value of four bytes at `i`, most significant first.
pub open spec fn be32_at(d: Seq<u8>, i: int) -> nat {
    (d[i] as nat) * 0x100_0000 + (d[i + 1] as nat) * 0x1_0000 + (d[i + 2] as nat) * 0x100 + (d[i
        + 3] as nat)
}

/// The 64-bit value of eight bytes at `i`, least significant first.
pub open spec fn le64_at(d: Seq<u8>, i: int) -> nat {
    (d[i] as nat) + (d[i + 1] as nat) * 0x100 + (d[i + 2] as nat) * 0x1_0000 + (d[i + 3] as nat)
        * 0x100_0000 + (d[i + 4] as nat) * 0x1_0000_0000 + (d[i + 5] as nat) * 0x100_0000_0000 + (d[i
        + 6] as nat) * 0x1_0000_0000_0000 + (d[i + 7] as nat) * 0x100_0000_0000_0000
}

/// Appends the bytes of a slice.
pub fn push_slice(v: &mut Vec<u8>, s: &[u8])
    ensures
        final(v)@ == old(v)@ + s@,
{
    let mut i: usize = 0;
    while i < s.len()
        invariant
            i <= s@.len(),
            v@ == old(v)@ + s@.subrange(0, i as int),
        decreases s@.len() - i,
    {
        v.push(s[i]);
        i = i + 1;
        proof {
            assert(v@ =~= old(v)@ + s@.subrange(0, i as int));
        }
    }
    proof {
        assert(s@.subrange(0, i as int) =~= s@);
    }
}

/// Appends a 16-bit value, most significant byte first.
pub fn push_be16(v: &mut Vec<u8>, x: u16)
    ensures
        final(v)@ == old(v)@ + be16_bytes(x as nat),
{
    v.push((x / 0x100) as u8);
    v.push((x % 0x100) as u8);
    proof {
        assert(final(v)@ =~= old(v)@ + be16_bytes(x as nat));
    }
}

/// Appends a 32-bit value, most significant byte first.
pub fn push_be32(v: &mut Vec<u8>, x: u32)
    ensures
        final(v)@ == old(v)@ + be32_bytes(x as nat),
{
    v.push(((x / 0x100_0000) % 0x100) as u8);
    v.push(((x / 0x1_0000) % 0x100) as u8);
    v.push(((x / 0x100) % 0x100) as u8);
    v.push((x % 0x100) as u8);
    proof {
        assert(final(v)@ =~= old(v)@ + be32_bytes(x as nat));
    }
}

/// Appends a 64-bit value, most significant byte first.
pub fn push_be64(v: &mut Vec<u8>, x: u64)
    ensures
        final(v)@ == old(v)@ + be64_bytes(x as nat),
{
    push_be32(v, (x / 0x1_0000_0000) as u32);
    push_be32(v, (x % 0x1_0000_0000) as u32);
    proof {
        assert(final(v)@ =~= old(v)@ + be64_bytes(x as nat));
    }
}

/// The eight bytes of a 64-bit value, least significant first.
pub fn le64_array(x: u64) -> (b: [u8; 8])
    ensures
        b@ == le64_bytes(x as nat),
{
    let b = [
        (x % 0x100) as u8,
        ((x / 0x100) % 0x100) as u8,
        ((x / 0x1_0000) % 0x100) as u8,
        ((x / 0x100_0000) % 0x100) as u8,
        ((x / 0x1_0000_0000) % 0x100) as u8,
        ((x / 0x100_0000_0000) % 0x100) as u8,
        ((x / 0x1_0000_0000_0000) % 0x100) as u8,
        ((x / 0x100_0000_0000_0000) % 0x100) as u8,
    ];
    proof {
        assert(b@ =~= le64_bytes(x as nat));
    }
    b
}

/// The 32-bit value of four bytes at `i`, most significant first.
pub fn read_be32(d: &[u8], i: usize) -> (x: u32)
    requires
        i + 4 <= d@.len(),
    ensures
        x == be32_at(d@, i as int),
{
    (d[i] as u32) * 0x100_0000 + (d[i + 1] as u32) * 0x1_0000 + (d[i + 2] as u32) * 0x100 + (d[i
        + 3] as u32)
}

/// The 64-bit value of eight bytes at `i`, least significant first.
pub fn read_le64(d: &[u8], i: usize) -> (x: u64)
    requires
        i + 8 <= d@.len(),
    ensures
        x == le64_at(d@, i as int),
{
    (d[i] as u64) + (d[i + 1] as u64) * 0x100 + (d[i + 2] as u64) * 0x1_0000 + (d[i + 3] as u64)
        * 0x100_0000 + (d[i + 4] as u64) * 0x1_0000_0000 + (d[i + 5] as u64) * 0x100_0000_0000 + (d[i
        + 6] as u64) * 0x1_0000_0000_0000 + (d[i + 7] as u64) * 0x100_0000_0000_0000
}

} // verus!
