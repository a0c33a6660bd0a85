//! Little-endian integers in byte sequences, and the splice that an in-place
//! write performs.

use vstd::prelude::*;

verus! {

/// `s` with the bytes from `at` on replaced by `d`.
pub open spec fn splice(s: Seq<u8>, at: int, d: Seq<u8>) -> Seq<u8> {
    Seq::new(s.len(), |i: int| if at <= i < at + d.len() { d[i - at] } else { s[i] })
}

/// The two little-endian bytes of `x`.
pub open spec fn le16(x: u16) -> Seq<u8> {
    seq![(x % 256) as u8, (x / 256) as u8]
}

/// The four little-endian bytes of `x`.
pub open spec fn le32(x: u32) -> Seq<u8> {
    seq![(x % 256) as u8, (x / 256 % 256) as u8, (x / 65536 % 256) as u8, (x / 16777216) as u8]
}

/// The eight little-endian bytes of `x`.
pub open spec fn le64(x: u64) -> Seq<u8> {
    le32((x % 0x1_0000_0000) as u32) + le32((x / 0x1_0000_0000) as u32)
}

/// The little-endian number in the two bytes of `s` from `i` on.
#[verifier::opaque]
pub open spec fn u16_at(s: Seq<u8>, i: int) -> u16 {
    (s[i] + 256 * s[i + 1]) as u16
}

/// The little-endian number in the four bytes of `s` from `i` on.
#[verifier::opaque]
pub open spec fn u32_at(s: Seq<u8>, i: int) -> u32 {
    (s[i] + 256 * s[i + 1] + 65536 * s[i + 2] + 16777216 * s[i + 3]) as u32
}

/// The little-endian number in the eight bytes of `s` from `i` on.
#[verifier::opaque]
pub open spec fn u64_at(s: Seq<u8>, i: int) -> u64 {
    (u32_at(s, i) + 0x1_0000_0000 * u32_at(s, i + 4)) as u64
}

/// Reading back the two bytes of a number gives the number.
pub proof fn lemma_u16_le(s: Seq<u8>, i: int, x: u16)
    requires
        0 <= i,
        i + 2 <= s.len(),
        s[i] == le16(x)[0],
        s[i + 1] == le16(x)[1],
    ensures
        u16_at(s, i) == x,
{
    reveal(u16_at);
}

/// Reading back the four bytes of a number gives the number.
pub proof fn lemma_u32_le(s: Seq<u8>, i: int, x: u32)
    requires
        0 <= i,
        i + 4 <= s.len(),
        forall|k: int| 0 <= k < 4 ==> s[i + k] == #[trigger] le32(x)[k],
    ensures
        u32_at(s, i) == x,
{
    reveal(u32_at);
    assert(s[i + 0] == le32(x)[0]);
    assert(s[i + 1] == le32(x)[1]);
    assert(s[i + 2] == le32(x)[2]);
    assert(s[i + 3] == le32(x)[3]);
}

/// Reading back the eight bytes of a number gives the number.
pub proof fn lemma_u64_le(s: Seq<u8>, i: int, x: u64)
    requires
        0 <= i,
        i + 8 <= s.len(),
        forall|k: int| 0 <= k < 8 ==> s[i + k] == #[trigger] le64(x)[k],
    ensures
        u64_at(s, i) == x,
{
    reveal(u64_at);
    let lo = (x % 0x1_0000_0000) as u32;
    let hi = (x / 0x1_0000_0000) as u32;
    assert forall|k: int| 0 <= k < 4 implies s[i + k] == #[trigger] le32(lo)[k] by {
        assert(le64(x)[k] == le32(lo)[k]);
    }
    assert forall|k: int| 0 <= k < 4 implies s[i + 4 + k] == #[trigger] le32(hi)[k] by {
        assert(le64(x)[k + 4] == le32(hi)[k]);
        assert(s[i + (k + 4)] == le64(x)[k + 4]);
    }
    lemma_u32_le(s, i, lo);
    lemma_u32_le(s, i + 4, hi);
}

/// Appends the little-endian bytes of `x`.
pub fn push_u16(v: &mut Vec<u8>, x: u16)
    ensures
        final(v)@ == old(v)@ + le16(x),
{
    v.push((x % 256) as u8);
    v.push((x / 256) as u8);
    assert(v@ =~= old(v)@ + le16(x));
}

/// Appends the little-endian bytes of `x`.
pub fn push_u32(v: &mut Vec<u8>, x: u32)
    ensures
        final(v)@ == old(v)@ + le32(x),
{
    v.push((x % 256) as u8);
    v.push((x / 256 % 256) as u8);
    v.push((x / 65536 % 256) as u8);
    v.push((x / 16777216) as u8);
    assert(v@ =~= old(v)@ + le32(x));
}

/// Appends the little-endian bytes of `x`.
pub fn push_u64(v: &mut Vec<u8>, x: u64)
    ensures
        final(v)@ == old(v)@ + le64(x),
{
    push_u32(v, (x % 0x1_0000_0000) as u32);
    push_u32(v, (x / 0x1_0000_0000) as u32);
    assert(v@ =~= old(v)@ + le64(x));
}

/// Appends the bytes of `s`.
pub fn push_slice(v: &mut Vec<u8>, s: &[u8])
    ensures
        final(v)@ == old(v)@ + s@,
{
    let mut i: usize = 0;
    assert(v@ =~= old(v)@ + s@.subrange(0, 0));
    while i < s.len()
        invariant
            i <= s.len(),
            v@ == old(v)@ + s@.subrange(0, i as int),
        decreases s.len() - i,
    {
        v.push(s[i]);
        i += 1;
        assert(v@ =~= old(v)@ + s@.subrange(0, i as int));
    }
    assert(s@.subrange(0, i as int) =~= s@);
}

/// The little-endian number in the two bytes from `i` on.
pub fn get_u16(s: &[u8], i: usize) -> (r: u16)
    requires
        i + 2 <= s.len(),
    ensures
        r == u16_at(s@, i as int),
{
    proof {
        reveal(u16_at);
    }
    s[i] as u16 + 256 * (s[i + 1] as u16)
}

/// The little-endian number in the four bytes from `i` on.
pub fn get_u32(s: &[u8], i: usize) -> (r: u32)
    requires
        i + 4 <= s.len(),
    ensures
        r == u32_at(s@, i as int),
{
    proof {
        reveal(u32_at);
    }
    s[i] as u32 + 256 * (s[i + 1] as u32) + 65536 * (s[i + 2] as u32) + 16777216 * (s[i + 3] as u32)
}

/// The little-endian number in the eight bytes from `i` on.
pub fn get_u64(s: &[u8], i: usize) -> (r: u64)
    requires
        i + 8 <= s.len(),
    ensures
        r == u64_at(s@, i as int),
{
    proof {
        reveal(u64_at);
    }
    let lo: u32 = get_u32(s, i);
    let hi: u32 = get_u32(s, i + 4);
    lo as u64 + 0x1_0000_0000 * (hi as u64)
}

/// Overwrites the bytes of `v` from `at` on with `d`.
pub fn put(v: &mut Vec<u8>, at: usize, d: &[u8])
    requires
        at + d.len() <= old(v).len(),
    ensures
        final(v)@ == splice(old(v)@, at as int, d@),
{
    let mut i: usize = 0;
    while i < d.len()
        invariant
            i <= d.len(),
            v.len() == old(v).len(),
            at + d.len() <= v.len(),
            forall|k: int|
                0 <= k < v.len() ==> v@[k] == (if at <= k < at + i { d@[k - at] } else {
                    old(v)@[k]
                }),
        decreases d.len() - i,
    {
        v.set(at + i, d[i]);
        i += 1;
    }
    assert(v@ =~= splice(old(v)@, at as int, d@));
}

/// A copy of the bytes of `s` from `from` up to `to`.
pub fn copy_range(s: &[u8], from: usize, to: usize) -> (r: Vec<u8>)
    requires
        from <= to <= s.len(),
    ensures
        r@ == s@.subrange(from as int, to as int),
{
    let mut v: Vec<u8> = Vec::new();
    let mut i: usize = from;
    assert(v@ =~= s@.subrange(from as int, from as int));
    while i < to
        invariant
            from <= i <= to <= s.len(),
            v@ == s@.subrange(from as int, i as int),
        decreases to - i,
    {
        v.push(s[i]);
        i += 1;
        assert(v@ =~= s@.subrange(from as int, i as int));
    }
    v
}

/// Whether two byte strings are the same.
pub fn bytes_eq(a: &[u8], b: &[u8]) -> (r: bool)
    ensures
        r == (a@ == b@),
{
    if a.len() != b.len() {
        return false;
    }
    let mut i: usize = 0;
    while i < a.len()
        invariant
            i <= a.len() == b.len(),
            forall|k: int| 0 <= k < i ==> a@[k] == b@[k],
        decreases a.len() - i,
    {
        if a[i] != b[i] {
            return false;
        }
        i += 1;
    }
    assert(a@ =~= b@);
    true
}

/// Sets every byte of `data` to `value`.
pub fn fill(data: &mut [u8], value: u8)
    ensures
        final(data)@ == Seq::new(old(data)@.len(), |i: int| value),
{
    let mut i: usize = 0;
    while i < data.len()
        invariant
            i <= data@.len() == old(data)@.len(),
            forall|k: int| 0 <= k < i ==> data@[k] == value,
        decreases data@.len() - i,
    {
        data[i] = value;
        i += 1;
    }
    assert(data@ =~= Seq::new(old(data)@.len(), |i: int| value));
}

/// The sum of the bytes of `s`.
pub open spec fn byte_sum(s: Seq<u8>) -> nat
    decreases s.len(),
{
    if s.len() == 0 {
        0
    } else {
        byte_sum(s.drop_last()) + s.last() as nat
    }
}

/// The sum of the bytes of `s`, modulo 256.
pub open spec fn sum8(s: Seq<u8>) -> u8 {
    (byte_sum(s) % 256) as u8
}

/// The sum of two byte strings put together is the sum of their sums.
pub proof fn lemma_byte_sum_add(a: Seq<u8>, b: Seq<u8>)
    ensures
        byte_sum(a + b) == byte_sum(a) + byte_sum(b),
    decreases b.len(),
{
    if b.len() == 0 {
        assert(a + b =~= a);
    } else {
        assert((a + b).drop_last() =~= a + b.drop_last());
        lemma_byte_sum_add(a, b.drop_last());
    }
}

/// Changing one byte changes the sum by the difference.
pub proof fn lemma_byte_sum_update(s: Seq<u8>, i: int, x: u8)
    requires
        0 <= i < s.len(),
    ensures
        byte_sum(s.update(i, x)) + s[i] == byte_sum(s) + x,
    decreases s.len(),
{
    if i == s.len() - 1 {
        assert(s.update(i, x).drop_last() =~= s.drop_last());
    } else {
        assert(s.update(i, x).drop_last() =~= s.drop_last().update(i, x));
        lemma_byte_sum_update(s.drop_last(), i, x);
    }
}

/// Adds up the bytes of `s`, modulo 256.
pub fn sum_bytes(s: &[u8]) -> (r: u8)
    ensures
        r == sum8(s@),
{
    let mut acc: u8 = 0;
    let mut i: usize = 0;
    assert(s@.take(0) =~= seq![]);
    while i < s.len()
        invariant
            i <= s@.len(),
            acc == byte_sum(s@.take(i as int)) % 256,
        decreases s@.len() - i,
    {
        assert(s@.take(i as int + 1).drop_last() =~= s@.take(i as int));
        acc = acc.wrapping_add(s[i]);
        i += 1;
    }
    assert(s@.take(i as int) =~= s@);
    acc
}

/// The little-endian bytes of every number of `ws` in turn.
pub open spec fn le64_all(ws: Seq<u64>) -> Seq<u8>
    decreases ws.len(),
{
    if ws.len() == 0 {
        seq![]
    } else {
        le64_all(ws.drop_last()) + le64(ws.last())
    }
}

/// The little-endian bytes of every number of `ws` in turn.
pub open spec fn le32_all(ws: Seq<u32>) -> Seq<u8>
    decreases ws.len(),
{
    if ws.len() == 0 {
        seq![]
    } else {
        le32_all(ws.drop_last()) + le32(ws.last())
    }
}

/// Number `i` is found at byte `8 * i`, whatever follows.
pub proof fn lemma_le64_all(ws: Seq<u64>, tail: Seq<u8>)
    ensures
        le64_all(ws).len() == 8 * ws.len(),
        forall|i: int| 0 <= i < ws.len() ==> u64_at(le64_all(ws) + tail, 8 * i) == #[trigger] ws[i],
    decreases ws.len(),
{
    if ws.len() > 0 {
        let n = ws.len() - 1;
        let init = ws.drop_last();
        lemma_le64_all(init, le64(ws.last()) + tail);
        let s = le64_all(ws) + tail;
        assert(s =~= le64_all(init) + (le64(ws.last()) + tail));
        assert forall|k: int| 0 <= k < 8 implies s[8 * n + k] == #[trigger] le64(ws.last())[k] by {}
        lemma_u64_le(s, 8 * n, ws.last());
        assert forall|i: int| 0 <= i < ws.len() implies u64_at(s, 8 * i) == #[trigger] ws[i] by {
            if i < n {
                assert(init[i] == ws[i]);
            }
        }
    }
}

/// Appends the little-endian bytes of every number of `ws`.
pub fn push_u64_all(v: &mut Vec<u8>, ws: &[u64])
    ensures
        final(v)@ == old(v)@ + le64_all(ws@),
{
    let mut i: usize = 0;
    assert(v@ =~= old(v)@ + le64_all(ws@.take(0)));
    while i < ws.len()
        invariant
            i <= ws@.len(),
            v@ == old(v)@ + le64_all(ws@.take(i as int)),
        decreases ws@.len() - i,
    {
        assert(ws@.take(i as int + 1).drop_last() =~= ws@.take(i as int));
        push_u64(v, ws[i]);
        i += 1;
        assert(v@ =~= old(v)@ + le64_all(ws@.take(i as int)));
    }
    assert(ws@.take(i as int) =~= ws@);
}

/// Appends the little-endian bytes of every number of `ws`.
pub fn push_u32_all(v: &mut Vec<u8>, ws: &[u32])
    ensures
        final(v)@ == old(v)@ + le32_all(ws@),
{
    let mut i: usize = 0;
    assert(v@ =~= old(v)@ + le32_all(ws@.take(0)));
    while i < ws.len()
        invariant
            i <= ws@.len(),
            v@ == old(v)@ + le32_all(ws@.take(i as int)),
        decreases ws@.len() - i,
    {
        assert(ws@.take(i as int + 1).drop_last() =~= ws@.take(i as int));
        push_u32(v, ws[i]);
        i += 1;
        assert(v@ =~= old(v)@ + le32_all(ws@.take(i as int)));
    }
    assert(ws@.take(i as int) =~= ws@);
}

/// A number between other bytes is read back.
pub proof fn lemma_u64_between(a: Seq<u8>, x: u64, tail: Seq<u8>)
    ensures
        u64_at(a + le64(x) + tail, a.len() as int) == x,
{
    let s = a + le64(x) + tail;
    let n = a.len() as int;
    assert forall|k: int| 0 <= k < 8 implies s[n + k] == #[trigger] le64(x)[k] by {}
    lemma_u64_le(s, n, x);
}

/// A number between other bytes is read back.
pub proof fn lemma_u32_between(a: Seq<u8>, x: u32, tail: Seq<u8>)
    ensures
        u32_at(a + le32(x) + tail, a.len() as int) == x,
{
    let s = a + le32(x) + tail;
    let n = a.len() as int;
    assert forall|k: int| 0 <= k < 4 implies s[n + k] == #[trigger] le32(x)[k] by {}
    lemma_u32_le(s, n, x);
}

/// A number is the same wherever its bytes stand.
pub proof fn lemma_u16_same(s: Seq<u8>, i: int, t: Seq<u8>, j: int)
    requires
        forall|k: int| 0 <= k < 2 ==> s[i + k] == #[trigger] t[j + k],
    ensures
        u16_at(s, i) == u16_at(t, j),
{
    reveal(u16_at);
    assert(t[j + 0] == s[i + 0] && t[j + 1] == s[i + 1]);
}

/// A number is the same wherever its bytes stand.
pub proof fn lemma_u32_same(s: Seq<u8>, i: int, t: Seq<u8>, j: int)
    requires
        forall|k: int| 0 <= k < 4 ==> s[i + k] == #[trigger] t[j + k],
    ensures
        u32_at(s, i) == u32_at(t, j),
{
    reveal(u32_at);
    assert(t[j + 0] == s[i + 0] && t[j + 1] == s[i + 1] && t[j + 2] == s[i + 2] && t[j + 3] == s[i + 3]);
}

/// A number is the same wherever its bytes stand.
pub proof fn lemma_u64_same(s: Seq<u8>, i: int, t: Seq<u8>, j: int)
    requires
        forall|k: int| 0 <= k < 8 ==> s[i + k] == #[trigger] t[j + k],
    ensures
        u64_at(s, i) == u64_at(t, j),
{
    reveal(u64_at);
    lemma_u32_same(s, i, t, j);
    assert forall|k: int| 0 <= k < 4 implies s[i + 4 + k] == #[trigger] t[j + 4 + k] by {
        assert(t[j + (k + 4)] == s[i + (k + 4)]);
    }
    lemma_u32_same(s, i + 4, t, j + 4);
}

/// A run of zeroes.
pub open spec fn zeroes(n: nat) -> Seq<u8> {
    Seq::new(n, |i: int| 0u8)
}

/// Appends `n` zeroes.
pub fn push_zeroes(v: &mut Vec<u8>, n: usize)
    ensures
        final(v)@ == old(v)@ + zeroes(n as nat),
{
    let mut i: usize = 0;
    assert(v@ =~= old(v)@ + zeroes(0));
    while i < n
        invariant
            i <= n,
            v@ == old(v)@ + zeroes(i as nat),
        decreases n - i,
    {
        v.push(0);
        i += 1;
        assert(v@ =~= old(v)@ + zeroes(i as nat));
    }
}

proof fn lemma_four_digits(x: u32)
    ensures
        le32(x).len() == 4,
        le32(x)[0] + 0x100 * le32(x)[1] + 0x1_0000 * le32(x)[2] + 0x100_0000 * le32(x)[3] == x,
{
    let y = x / 256;
    let z = y / 256;
    assert(z == x / 65536 && z / 256 == x / 16777216);
    assert(x == x % 256 + 256 * y && y == y % 256 + 256 * z && z == z % 256 + 256 * (z / 256));
    assert(z / 256 < 256);
}

proof fn lemma_eight_bytes(c: u64, lo: u32, hi: u32)
    requires
        lo == c % 0x1_0000_0000,
        hi == c / 0x1_0000_0000,
    ensures
        le64(c).len() == 8,
        le64(c)[0] == le32(lo)[0],
        le64(c)[1] == le32(lo)[1],
        le64(c)[2] == le32(lo)[2],
        le64(c)[3] == le32(lo)[3],
        le64(c)[4] == le32(hi)[0],
        le64(c)[5] == le32(hi)[1],
        le64(c)[6] == le32(hi)[2],
        le64(c)[7] == le32(hi)[3],
{
    assert(le64(c) == le32(lo) + le32(hi));
}

/// The bytes of a number carry it in base 256, the lowest digit first.
#[verifier::spinoff_prover]
pub proof fn law_little_endian(a: u16, b: u32, c: u64)
    ensures
        le16(a).len() == 2,
        le16(a)[0] + 0x100 * le16(a)[1] == a,
        le32(b).len() == 4,
        le32(b)[0] + 0x100 * le32(b)[1] + 0x1_0000 * le32(b)[2] + 0x100_0000 * le32(b)[3] == b,
        le64(c).len() == 8,
        le64(c)[0] + 0x100 * le64(c)[1] + 0x1_0000 * le64(c)[2] + 0x100_0000 * le64(c)[3] + 0x1_0000_0000
            * le64(c)[4] + 0x100_0000_0000 * le64(c)[5] + 0x1_0000_0000_0000 * le64(c)[6] + 0x100_0000_0000_0000
            * le64(c)[7] == c,
{
    let lo = (c % 0x1_0000_0000) as u32;
    let hi = (c / 0x1_0000_0000) as u32;
    lemma_four_digits(b);
    lemma_four_digits(lo);
    lemma_four_digits(hi);
    lemma_eight_bytes(c, lo, hi);
    assert(c == lo + 0x1_0000_0000 * hi);
}

/// A number read from bytes is the one that they carry in base 256, the lowest
/// digit first.
pub proof fn law_little_endian_reads(s: Seq<u8>, i: int)
    ensures
        u16_at(s, i) == s[i] + 0x100 * s[i + 1],
        u32_at(s, i) == s[i] + 0x100 * s[i + 1] + 0x1_0000 * s[i + 2] + 0x100_0000 * s[i + 3],
        u64_at(s, i) == s[i] + 0x100 * s[i + 1] + 0x1_0000 * s[i + 2] + 0x100_0000 * s[i + 3] + 0x1_0000_0000 * s[i
            + 4] + 0x100_0000_0000 * s[i + 5] + 0x1_0000_0000_0000 * s[i + 6] + 0x100_0000_0000_0000 * s[i + 7],
{
    reveal(u16_at);
    reveal(u32_at);
    reveal(u64_at);
}

/// A list of numbers in bytes has each number at the place that its position
/// gives, and nothing else.
pub proof fn law_lists_of_numbers(ws: Seq<u64>, vs: Seq<u32>, i: int)
    ensures
        le64_all(ws).len() == 8 * ws.len(),
        0 <= i < ws.len() ==> le64_all(ws).subrange(8 * i, 8 * i + 8) == le64(ws[i]),
        le32_all(vs).len() == 4 * vs.len(),
        0 <= i < vs.len() ==> le32_all(vs).subrange(4 * i, 4 * i + 4) == le32(vs[i]),
    decreases ws.len() + vs.len(),
{
    if ws.len() > 0 {
        law_lists_of_numbers(ws.drop_last(), seq![], i);
        let n = ws.len() - 1;
        if 0 <= i < n {
            assert(le64_all(ws).subrange(8 * i, 8 * i + 8) =~= le64_all(ws.drop_last()).subrange(8 * i, 8 * i + 8));
        } else if i == n {
            assert(le64_all(ws).subrange(8 * i, 8 * i + 8) =~= le64(ws[i]));
        }
    }
    if vs.len() > 0 {
        law_lists_of_numbers(seq![], vs.drop_last(), i);
        let n = vs.len() - 1;
        if 0 <= i < n {
            assert(le32_all(vs).subrange(4 * i, 4 * i + 4) =~= le32_all(vs.drop_last()).subrange(4 * i, 4 * i + 4));
        } else if i == n {
            assert(le32_all(vs).subrange(4 * i, 4 * i + 4) =~= le32(vs[i]));
        }
    }
}

proof fn lemma_mod_256(n: nat, x: u8)
    ensures
        (n % 256 + x) % 256 == (n + x) % 256,
{
}

/// A checksum counts every byte once, wherever it stands.
#[verifier::spinoff_prover]
pub proof fn law_checksum_counts_every_byte(s: Seq<u8>, i: int, x: u8)
    requires
        0 <= i < s.len(),
    ensures
        sum8(seq![]) == 0,
        sum8(seq![x]) == x,
        (sum8(s.update(i, x)) + s[i]) % 256 == (sum8(s) + x) % 256,
        sum8(s.push(x)) == (sum8(s) + x) % 256,
{
    reveal_with_fuel(byte_sum, 2);
    assert(seq![x].drop_last() =~= seq![]);
    lemma_byte_sum_update(s, i, x);
    lemma_mod_256(byte_sum(s.update(i, x)), s[i]);
    lemma_mod_256(byte_sum(s), x);
    assert(s.push(x).drop_last() =~= s);
    assert(byte_sum(s.push(x)) == byte_sum(s) + x);
}

} // verus!
