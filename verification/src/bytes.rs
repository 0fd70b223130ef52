//! Little-endian integer encoding, zero padding and other byte-buffer
//! primitives shared by the image reader, the image writer and the patch
//! engine.

use vstd::prelude::*;

verus! {

/// The two bytes of `x` in little-endian order.
pub open spec fn le16(x: u16) -> Seq<u8> {
    seq![(x % 0x100) as u8, ((x / 0x100) % 0x100) as u8]
}

/// The four bytes of `x` in little-endian order.
pub open spec fn le32(x: u32) -> Seq<u8> {
    seq![
        (x % 0x100) as u8,
        ((x / 0x100) % 0x100) as u8,
        ((x / 0x10000) % 0x100) as u8,
        ((x / 0x1000000) % 0x100) as u8,
    ]
}

/// The value of the two little-endian bytes of `b` starting at `off`.
pub open spec fn u16_at(b: Seq<u8>, off: int) -> u16 {
    (b[off] + b[off + 1] * 0x100) as u16
}

/// The value of the four little-endian bytes of `b` starting at `off`.
pub open spec fn u32_at(b: Seq<u8>, off: int) -> u32 {
    (b[off] + b[off + 1] * 0x100 + b[off + 2] * 0x10000 + b[off + 3] * 0x1000000) as u32
}

/// `n` zero bytes (empty when `n <= 0`).
pub open spec fn zeros(n: int) -> Seq<u8> {
    Seq::new(if n >= 0 { n as nat } else { 0 }, |i: int| 0u8)
}

/// `s` extended with zero bytes up to length `to`; unchanged when already
/// at least that long.
pub open spec fn pad_to(s: Seq<u8>, to: int) -> Seq<u8> {
    if s.len() >= to {
        s
    } else {
        s + zeros(to - s.len())
    }
}

/// The least multiple of `m` that is at least `n`.
pub open spec fn align_up(n: int, m: int) -> int {
    if n % m == 0 {
        n
    } else {
        n + (m - n % m)
    }
}

/// `s` extended with zero bytes up to the next multiple of `m`.
pub open spec fn pad_to_align(s: Seq<u8>, m: int) -> Seq<u8> {
    pad_to(s, align_up(s.len() as int, m))
}

pub proof fn lemma_le16_round(x: u16)
    ensures
        u16_at(le16(x), 0) == x,
{
    assert(x % 0x100 + ((x / 0x100) % 0x100) * 0x100 == x) by (bit_vector);
}

pub proof fn lemma_le32_round(x: u32)
    ensures
        u32_at(le32(x), 0) == x,
{
    assert(x % 0x100 + ((x / 0x100) % 0x100) * 0x100 + ((x / 0x10000) % 0x100) * 0x10000 + ((x
        / 0x1000000) % 0x100) * 0x1000000 == x) by (bit_vector);
}

/// Reading an encoded value only looks at the four bytes in place, so the
/// value can be recovered from any buffer that holds the encoding at `off`.
pub proof fn lemma_u32_at_le32(b: Seq<u8>, off: int, x: u32)
    requires
        0 <= off,
        off + 4 <= b.len(),
        b.subrange(off, off + 4) == le32(x),
    ensures
        u32_at(b, off) == x,
{
    assert(b[off] == le32(x)[0] && b[off + 1] == le32(x)[1] && b[off + 2] == le32(x)[2] && b[off
        + 3] == le32(x)[3]) by {
        assert(forall|i: int| 0 <= i < 4 ==> #[trigger] b.subrange(off, off + 4)[i] == b[off + i]);
    }
    lemma_le32_round(x);
}

pub proof fn lemma_u16_at_le16(b: Seq<u8>, off: int, x: u16)
    requires
        0 <= off,
        off + 2 <= b.len(),
        b.subrange(off, off + 2) == le16(x),
    ensures
        u16_at(b, off) == x,
{
    assert(b[off] == le16(x)[0] && b[off + 1] == le16(x)[1]) by {
        assert(forall|i: int| 0 <= i < 2 ==> #[trigger] b.subrange(off, off + 2)[i] == b[off + i]);
    }
    lemma_le16_round(x);
}

/// Append the little-endian encoding of `x` to `v`.
pub fn push_u16_le(v: &mut Vec<u8>, x: u16)
    ensures
        final(v)@ == old(v)@ + le16(x),
{
    let b0: u8 = (x % 0x100) as u8;
    let b1: u8 = ((x / 0x100) % 0x100) as u8;
    v.push(b0);
    v.push(b1);
    proof {
        assert(v@ =~= old(v)@ + le16(x));
    }
}

/// Append the little-endian encoding of `x` to `v`.
pub fn push_u32_le(v: &mut Vec<u8>, x: u32)
    ensures
        final(v)@ == old(v)@ + le32(x),
{
    let b0: u8 = (x % 0x100) as u8;
    let b1: u8 = ((x / 0x100) % 0x100) as u8;
    let b2: u8 = ((x / 0x10000) % 0x100) as u8;
    let b3: u8 = ((x / 0x1000000) % 0x100) as u8;
    v.push(b0);
    v.push(b1);
    v.push(b2);
    v.push(b3);
    proof {
        assert(v@ =~= old(v)@ + le32(x));
    }
}

/// Read a little-endian value from the two bytes of `b` at `off`.
pub fn read_u16_le(b: &Vec<u8>, off: usize) -> (r: u16)
    requires
        off + 2 <= b.len(),
    ensures
        r == u16_at(b@, off as int),
{
    let x0 = b[off] as u16;
    let x1 = b[off + 1] as u16;
    x0 + x1 * 0x100
}

/// Read a little-endian value from the four bytes of `b` at `off`.
pub fn read_u32_le(b: &Vec<u8>, off: usize) -> (r: u32)
    requires
        off + 4 <= b.len(),
    ensures
        r == u32_at(b@, off as int),
{
    let x0 = b[off] as u32;
    let x1 = b[off + 1] as u32;
    let x2 = b[off + 2] as u32;
    let x3 = b[off + 3] as u32;
    x0 + x1 * 0x100 + x2 * 0x10000 + x3 * 0x1000000
}

/// Append every byte of `src` to `dst`.
pub fn push_bytes(dst: &mut Vec<u8>, src: &Vec<u8>)
    ensures
        final(dst)@ == old(dst)@ + src@,
{
    let mut i: usize = 0;
    while i < src.len()
        invariant
            i <= src@.len(),
            dst@ == old(dst)@ + src@.subrange(0, i as int),
        decreases src@.len() - i,
    {
        dst.push(src[i]);
        proof {
            assert(old(dst)@ + src@.subrange(0, i as int) + seq![src@[i as int]] =~= old(dst)@
                + src@.subrange(0, i + 1));
        }
        i = i + 1;
    }
    proof {
        assert(src@.subrange(0, src@.len() as int) =~= src@);
    }
}

/// Copy the `len` bytes of `b` starting at `off` into a fresh buffer.
pub fn read_bytes(b: &Vec<u8>, off: usize, len: usize) -> (r: Vec<u8>)
    requires
        off + len <= b.len(),
    ensures
        r@ == b@.subrange(off as int, off + len),
{
    let mut r: Vec<u8> = Vec::new();
    let mut i: usize = 0;
    while i < len
        invariant
            i <= len,
            off + len <= b.len(),
            r@ == b@.subrange(off as int, off + i),
        decreases len - i,
    {
        r.push(b[off + i]);
        proof {
            assert(b@.subrange(off as int, off + i) + seq![b@[off + i]] =~= b@.subrange(
                off as int,
                off + i + 1,
            ));
        }
        i = i + 1;
    }
    r
}

/// Append zero bytes until the buffer is `to` bytes long; a buffer already
/// that long is left as it is.
pub fn pad_to_exact(v: &mut Vec<u8>, to: usize)
    ensures
        final(v)@ == pad_to(old(v)@, to as int),
        final(v)@.len() >= to,
        final(v)@.len() >= old(v)@.len(),
{
    while v.len() < to
        invariant
            v@.len() >= old(v)@.len(),
            v@.len() <= old(v)@.len() || v@.len() <= to,
            v@ == old(v)@ + zeros(v@.len() - old(v)@.len()),
        decreases to - v@.len(),
    {
        v.push(0u8);
        proof {
            let k = v@.len() - old(v)@.len();
            assert(old(v)@ + zeros(k - 1) + seq![0u8] =~= old(v)@ + zeros(k));
        }
    }
    proof {
        assert(v@ =~= pad_to(old(v)@, to as int));
    }
}

pub proof fn lemma_align_up(n: int, m: int)
    requires
        0 < m,
        0 <= n,
    ensures
        align_up(n, m) % m == 0,
        n <= align_up(n, m) < n + m,
{
    vstd::arithmetic::div_mod::lemma_fundamental_div_mod(n, m);
    vstd::arithmetic::div_mod::lemma_mod_bound(n, m);
    if n % m != 0 {
        let q = n / m;
        let r = n % m;
        assert(n == m * q + r);
        assert(n + m - r == m * (q + 1)) by (nonlinear_arith)
            requires
                n == m * q + r,
        ;
        assert(m * (q + 1) == (q + 1) * m) by (nonlinear_arith);
        assert(((q + 1) * m) % m == 0) by {
            vstd::arithmetic::div_mod::lemma_mod_multiples_basic(q + 1, m);
        }
    }
}

/// Append zero bytes until the buffer length is a multiple of `m`.
pub fn pad_to_nearest(v: &mut Vec<u8>, m: usize)
    requires
        m >= 1,
    ensures
        final(v)@ == pad_to_align(old(v)@, m as int),
        (final(v)@.len() as int) % (m as int) == 0,
        final(v)@.len() >= old(v)@.len(),
{
    proof {
        lemma_align_up(old(v)@.len() as int, m as int);
    }
    let ghost target = align_up(old(v)@.len() as int, m as int);
    while v.len() % m != 0
        invariant
            m >= 1,
            target == align_up(old(v)@.len() as int, m as int),
            target % (m as int) == 0,
            old(v)@.len() <= v@.len() <= target,
            v@ == old(v)@ + zeros(v@.len() - old(v)@.len()),
        decreases target - v@.len(),
    {
        proof {
            assert(v@.len() < target) by {
                vstd::arithmetic::div_mod::lemma_mod_bound(v@.len() as int, m as int);
            }
        }
        v.push(0u8);
        proof {
            let k = v@.len() - old(v)@.len();
            assert(old(v)@ + zeros(k - 1) + seq![0u8] =~= old(v)@ + zeros(k));
        }
    }
    proof {
        let len = v@.len() as int;
        let mi = m as int;
        assert(len == target) by (nonlinear_arith)
            requires
                len % mi == 0,
                target % mi == 0,
                target - mi < len <= target,
                mi >= 1,
        ;
        assert(v@ =~= pad_to_align(old(v)@, m as int));
    }
}


} // verus!
