//! Big-endian integers in byte strings.

use vstd::arithmetic::div_mod::{
    lemma_add_mod_noop, lemma_fundamental_div_mod, lemma_fundamental_div_mod_converse,
    lemma_mod_multiples_vanish, lemma_mod_twice,
};
use vstd::prelude::*;

verus! {

/// The two low bytes of `v`, most significant first.
pub open spec fn be16(v: int) -> Seq<u8> {
    seq![(v / 0x100 % 0x100) as u8, (v % 0x100) as u8]
}

/// The three low bytes of `v`, most significant first.
pub open spec fn be24(v: int) -> Seq<u8> {
    seq![(v / 0x1_0000 % 0x100) as u8, (v / 0x100 % 0x100) as u8, (v % 0x100) as u8]
}

/// `n` zero bytes.
pub open spec fn zeros(n: nat) -> Seq<u8> {
    Seq::new(n, |i: int| 0u8)
}

/// The four low bytes of `v`, most significant first.
pub open spec fn be32(v: int) -> Seq<u8> {
    seq![
        (v / 0x100_0000 % 0x100) as u8,
        (v / 0x1_0000 % 0x100) as u8,
        (v / 0x100 % 0x100) as u8,
        (v % 0x100) as u8,
    ]
}

/// The eight low bytes of `v`, most significant first.
pub open spec fn be64(v: int) -> Seq<u8> {
    be32(v / 0x1_0000_0000) + be32(v)
}

/// Dividing by `d` and keeping the low byte sees only the low `d * m` part of a number,
/// where `m` is a multiple of 256.
proof fn lemma_low_byte(v: int, d: int, m: int)
    requires
        d > 0,
        m > 0,
    ensures
        (v % (d * (0x100 * m))) / d % 0x100 == v / d % 0x100,
{
    let n = d * (0x100 * m);
    assert(n > 0) by (nonlinear_arith)
        requires
            d > 0,
            m > 0,
            n == d * (0x100 * m),
    ;
    let w = v % n;
    let q = v / n;
    lemma_fundamental_div_mod(v, n);
    lemma_fundamental_div_mod(w, d);
    let a = w / d;
    let r = w % d;
    let s = q * m;
    assert(v == (s * 0x100 + a) * d + r) by (nonlinear_arith)
        requires
            v == n * q + w,
            w == d * a + r,
            n == d * (0x100 * m),
            s == q * m,
    ;
    lemma_fundamental_div_mod_converse(v, d, s * 0x100 + a, r);
    lemma_mod_multiples_vanish(s, a, 0x100);
}

/// Only the low 32 bits of a number are written by `be32`.
pub proof fn lemma_be32_mod(v: int)
    ensures
        be32(v % 0x1_0000_0000) == be32(v),
{
    lemma_low_byte(v, 0x100_0000, 1);
    lemma_low_byte(v, 0x1_0000, 0x100);
    lemma_low_byte(v, 0x100, 0x1_0000);
    lemma_low_byte(v, 1, 0x100_0000);
}

/// Numbers that agree in their low 32 bits are written alike by `be32`.
pub proof fn lemma_be32_congruent(a: int, b: int)
    requires
        a % 0x1_0000_0000 == b % 0x1_0000_0000,
    ensures
        be32(a) == be32(b),
{
    lemma_be32_mod(a);
    lemma_be32_mod(b);
}

/// Adding to a number or to its low 32 bits makes no difference to `be32`.
pub proof fn lemma_be32_shift(v: int, d: int)
    ensures
        be32(v % 0x1_0000_0000 + d) == be32(v + d),
{
    lemma_be32_mod(v % 0x1_0000_0000 + d);
    lemma_be32_mod(v + d);
    lemma_add_mod_noop(v, d, 0x1_0000_0000);
    lemma_add_mod_noop(v % 0x1_0000_0000, d, 0x1_0000_0000);
    lemma_mod_twice(v, 0x1_0000_0000);
}

/// The numbers one after the other, four bytes each.
pub open spec fn words(s: Seq<int>) -> Seq<u8>
    decreases s.len(),
{
    if s.len() == 0 {
        Seq::empty()
    } else {
        words(s.drop_last()) + be32(s.last())
    }
}

/// The numbers one after the other, eight bytes each.
pub open spec fn longs(s: Seq<int>) -> Seq<u8>
    decreases s.len(),
{
    if s.len() == 0 {
        Seq::empty()
    } else {
        longs(s.drop_last()) + be64(s.last())
    }
}

/// Append bytes.
pub fn append(out: &mut Vec<u8>, bytes: &[u8])
    ensures
        final(out)@ == old(out)@ + bytes@,
{
    out.extend_from_slice(bytes);
    assert(final(out)@ =~= old(out)@ + bytes@);
}

/// Append a 16-bit integer.
pub fn push_be16(out: &mut Vec<u8>, v: u16)
    ensures
        final(out)@ == old(out)@ + be16(v as int),
{
    out.push((v / 0x100) as u8);
    out.push((v % 0x100) as u8);
    assert(v as int / 0x100 % 0x100 == v as int / 0x100);
}

/// Append the low 24 bits of an integer.
pub fn push_be24_low(out: &mut Vec<u8>, v: u32)
    ensures
        final(out)@ == old(out)@ + be24(v as int),
{
    out.push((v / 0x1_0000 % 0x100) as u8);
    out.push((v / 0x100 % 0x100) as u8);
    out.push((v % 0x100) as u8);
    assert(final(out)@ =~= old(out)@ + be24(v as int));
}

/// Append `n` zero bytes.
pub fn push_zeros(out: &mut Vec<u8>, n: usize)
    ensures
        final(out)@ == old(out)@ + zeros(n as nat),
{
    let ghost before = out@;
    let mut i: usize = 0;
    while i < n
        invariant
            i <= n,
            out@ == before + zeros(i as nat),
        decreases n - i,
    {
        out.push(0);
        i = i + 1;
        assert(out@ =~= before + zeros(i as nat));
    }
}

/// Append a 32-bit integer.
pub fn push_be32(out: &mut Vec<u8>, v: u32)
    ensures
        final(out)@ == old(out)@ + be32(v as int),
{
    out.push((v / 0x100_0000) as u8);
    out.push((v / 0x1_0000 % 0x100) as u8);
    out.push((v / 0x100 % 0x100) as u8);
    out.push((v % 0x100) as u8);
    assert(v as int / 0x100_0000 % 0x100 == v as int / 0x100_0000);
    assert(final(out)@ =~= old(out)@ + be32(v as int));
}

/// Append the low 16 bits of an integer.
pub fn push_be16_low(out: &mut Vec<u8>, v: u64)
    ensures
        final(out)@ == old(out)@ + be16(v as int),
{
    push_be16(out, (v % 0x1_0000) as u16);
    proof {
        lemma_low_byte(v as int, 0x100, 1);
        lemma_low_byte(v as int, 1, 0x100);
    }
    assert(be16(v as int % 0x1_0000) =~= be16(v as int));
}

/// Append the low 32 bits of an integer.
pub fn push_be32_low(out: &mut Vec<u8>, v: u64)
    ensures
        final(out)@ == old(out)@ + be32(v as int),
{
    push_be32(out, (v % 0x1_0000_0000) as u32);
    proof {
        lemma_be32_mod(v as int);
    }
}

/// Append a 64-bit integer.
pub fn push_be64(out: &mut Vec<u8>, v: u64)
    ensures
        final(out)@ == old(out)@ + be64(v as int),
{
    push_be32(out, (v / 0x1_0000_0000) as u32);
    push_be32(out, (v % 0x1_0000_0000) as u32);
    proof {
        lemma_be32_mod(v as int);
    }
    assert(final(out)@ =~= old(out)@ + be64(v as int));
}

/// The number that bytes make, most significant first.
pub open spec fn be_value(s: Seq<u8>) -> int
    decreases s.len(),
{
    if s.len() == 0 {
        0
    } else {
        be_value(s.drop_last()) * 0x100 + s.last()
    }
}

/// Four bytes as a number.
pub proof fn lemma_be_value4(s: Seq<u8>)
    requires
        s.len() == 4,
    ensures
        be_value(s) == s[0] * 0x100_0000 + s[1] * 0x1_0000 + s[2] * 0x100 + s[3],
        0 <= be_value(s) <= u32::MAX,
{
    reveal_with_fuel(be_value, 5);
    assert(s.drop_last()[2] == s[2]);
    assert(s.drop_last().drop_last()[1] == s[1]);
    assert(s.drop_last().drop_last().drop_last()[0] == s[0]);
}

/// Eight bytes as a number.
pub proof fn lemma_be_value8(s: Seq<u8>)
    requires
        s.len() == 8,
    ensures
        be_value(s) == be_value(s.subrange(0, 4)) * 0x1_0000_0000 + be_value(s.subrange(4, 8)),
        0 <= be_value(s) <= u64::MAX,
{
    let high = s.subrange(0, 4);
    let low = s.subrange(4, 8);
    lemma_be_value4(high);
    lemma_be_value4(low);
    reveal_with_fuel(be_value, 5);
    assert(s.drop_last().drop_last().drop_last().drop_last() =~= high);
    assert(s.last() == low[3]);
    assert(s.drop_last().last() == low[2]);
    assert(s.drop_last().drop_last().last() == low[1]);
    assert(s.drop_last().drop_last().drop_last().last() == low[0]);
}

/// Law: a number written in two bytes reads back as it was.
pub proof fn lemma_be16_reads_back(v: int)
    requires
        0 <= v <= u16::MAX,
    ensures
        be_value(be16(v)) == v,
{
    let s = be16(v);
    reveal_with_fuel(be_value, 3);
    assert(s.drop_last().last() == s[0]);
    assert(v / 0x100 % 0x100 == v / 0x100);
}

/// Law: a number written in four bytes reads back as it was.
pub proof fn lemma_be32_reads_back(v: int)
    requires
        0 <= v <= u32::MAX,
    ensures
        be_value(be32(v)) == v,
{
    lemma_be_value4(be32(v));
    assert(v / 0x100_0000 % 0x100 == v / 0x100_0000);
    assert(v == (v / 0x100_0000) * 0x100_0000 + (v / 0x1_0000 % 0x100) * 0x1_0000 + (v / 0x100
        % 0x100) * 0x100 + v % 0x100);
}

/// Law: a number written in eight bytes reads back as it was.
pub proof fn lemma_be64_reads_back(v: int)
    requires
        0 <= v <= u64::MAX,
    ensures
        be_value(be64(v)) == v,
{
    let s = be64(v);
    lemma_be_value8(s);
    assert(s.subrange(0, 4) =~= be32(v / 0x1_0000_0000));
    assert(s.subrange(4, 8) =~= be32(v));
    lemma_be32_mod(v);
    lemma_be32_reads_back(v / 0x1_0000_0000);
    lemma_be32_reads_back(v % 0x1_0000_0000);
}

/// The number in four bytes at `off`, if they are there.
pub fn read_u32(buf: &[u8], off: usize) -> (r: Option<u32>)
    ensures
        r is Some <==> off + 4 <= buf@.len(),
        r matches Some(v) ==> v == be_value(buf@.subrange(off as int, off + 4)),
{
    if buf.len() < 4 || off > buf.len() - 4 {
        return None;
    }
    proof {
        lemma_be_value4(buf@.subrange(off as int, off + 4));
    }
    Some(
        buf[off] as u32 * 0x100_0000 + buf[off + 1] as u32 * 0x1_0000 + buf[off + 2] as u32 * 0x100
            + buf[off + 3] as u32,
    )
}

/// The number in eight bytes at `off`, if they are there.
pub fn read_u64(buf: &[u8], off: usize) -> (r: Option<u64>)
    ensures
        r is Some <==> off + 8 <= buf@.len(),
        r matches Some(v) ==> v == be_value(buf@.subrange(off as int, off + 8)),
{
    if buf.len() < 8 || off > buf.len() - 8 {
        return None;
    }
    let ghost whole = buf@.subrange(off as int, off + 8);
    proof {
        lemma_be_value8(whole);
        assert(whole.subrange(0, 4) =~= buf@.subrange(off as int, off + 4));
        assert(whole.subrange(4, 8) =~= buf@.subrange(off + 4, off + 8));
    }
    match (read_u32(buf, off), read_u32(buf, off + 4)) {
        (Some(high), Some(low)) => Some(high as u64 * 0x1_0000_0000 + low as u64),
        _ => None,
    }
}

} // verus!
