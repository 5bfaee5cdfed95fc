use vstd::prelude::*;

verus! {

/// The value of two bytes read in network (big-endian) order.
pub open spec fn be16(hi: u8, lo: u8) -> u16 {
    (hi as u16 * 256 + lo as u16) as u16
}

/// The value of four bytes read in network (big-endian) order.
pub open spec fn be32(b0: u8, b1: u8, b2: u8, b3: u8) -> u32 {
    (b0 as u32 * 0x1000000 + b1 as u32 * 0x10000 + b2 as u32 * 0x100 + b3 as u32) as u32
}

/// Splits a 16-bit value into its two network-order bytes.
pub fn u16_to_be(v: u16) -> (r: (u8, u8))
    ensures
        be16(r.0, r.1) == v,
        r.0 == v as int / 256,
        r.1 == v as int % 256,
{
    let hi = (v / 256) as u8;
    let lo = (v % 256) as u8;
    (hi, lo)
}

/// Splits a 32-bit value into its four network-order bytes.
pub fn u32_to_be(v: u32) -> (r: (u8, u8, u8, u8))
    ensures
        be32(r.0, r.1, r.2, r.3) == v,
{
    let b0 = (v >> 24) as u8;
    let b1 = ((v >> 16) & 0xff) as u8;
    let b2 = ((v >> 8) & 0xff) as u8;
    let b3 = (v & 0xff) as u8;
    proof {
        assert(b0 as u32 * 0x1000000 + b1 as u32 * 0x10000 + b2 as u32 * 0x100 + b3 as u32 == v)
            by (bit_vector)
            requires
                b0 == (v >> 24) as u8 && b1 == ((v >> 16) & 0xff) as u8 && b2 == ((v >> 8)
                    & 0xff) as u8 && b3 == (v & 0xff) as u8,
        ;
    }
    (b0, b1, b2, b3)
}

/// Reads the 16-bit network-order value stored at `pos`.
pub fn read_be16(buf: &Vec<u8>, pos: usize) -> (r: u16)
    requires
        pos + 2 <= buf@.len(),
    ensures
        r == be16(buf@[pos as int], buf@[pos + 1]),
{
    let n = buf.len();
    be16_exec(buf[pos], buf[pos + 1])
}

/// Computes `be16` on concrete bytes.
pub fn be16_exec(hi: u8, lo: u8) -> (r: u16)
    ensures
        r == be16(hi, lo),
{
    hi as u16 * 256 + lo as u16
}

/// Writes `v` at `pos` as two network-order bytes.
pub fn write_be16(buf: &mut Vec<u8>, pos: usize, v: u16)
    requires
        pos + 2 <= old(buf)@.len(),
    ensures
        final(buf)@.len() == old(buf)@.len(),
        be16(final(buf)@[pos as int], final(buf)@[pos + 1]) == v,
        final(buf)@[pos as int] == v as int / 256,
        final(buf)@[pos + 1] == v as int % 256,
        forall|i: int|
            0 <= i < old(buf)@.len() && i != pos && i != pos + 1 ==> final(buf)@[i] == old(
                buf,
            )@[i],
{
    let (hi, lo) = u16_to_be(v);
    let n = buf.len();
    buf.set(pos, hi);
    let second: usize = pos + 1;
    buf.set(second, lo);
}

/// Appends `src[start..end]` to `dst`.
pub fn push_range(dst: &mut Vec<u8>, src: &Vec<u8>, start: usize, end: usize)
    requires
        start <= end <= src@.len(),
        old(dst)@.len() + (end - start) <= usize::MAX,
    ensures
        final(dst)@ == old(dst)@ + src@.subrange(start as int, end as int),
{
    let mut i: usize = start;
    while i < end
        invariant
            start <= i <= end <= src@.len(),
            dst@ == old(dst)@ + src@.subrange(start as int, i as int),
            dst@.len() == old(dst)@.len() + i - start,
        decreases end - i,
    {
        dst.push(src[i]);
        proof {
            assert(dst@ =~= old(dst)@ + src@.subrange(start as int, i + 1));
        }
        i = i + 1;
    }
}

} // verus!
