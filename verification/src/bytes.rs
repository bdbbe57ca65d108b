//! Big-endian integers in octet buffers.
//!
//! The specification side is plain arithmetic on octets; the executable side
//! reads and appends, and is proved to agree with it.

use vstd::arithmetic::div_mod::{
    lemma_div_denominator, lemma_fundamental_div_mod, lemma_fundamental_div_mod_converse,
    lemma_mod_pos_bound,
};
use vstd::prelude::*;

verus! {

/// The 16-bit number spelled by the two octets at `at`, most significant first.
pub open spec fn be16_at(s: Seq<u8>, at: int) -> u16 {
    (s[at] as int * 0x100 + s[at + 1] as int) as u16
}

/// The 24-bit number spelled by the three octets at `at`, most significant first.
pub open spec fn be24_at(s: Seq<u8>, at: int) -> u32 {
    (s[at] as int * 0x1_0000 + s[at + 1] as int * 0x100 + s[at + 2] as int) as u32
}

/// The 32-bit number spelled by the four octets at `at`, most significant first.
pub open spec fn be32_at(s: Seq<u8>, at: int) -> u32 {
    (s[at] as int * 0x100_0000 + s[at + 1] as int * 0x1_0000 + s[at + 2] as int * 0x100 + s[at
        + 3] as int) as u32
}

/// The 64-bit number spelled by the eight octets at `at`, most significant first.
pub open spec fn be64_at(s: Seq<u8>, at: int) -> u64 {
    (be32_at(s, at) as int * 0x1_0000_0000 + be32_at(s, at + 4) as int) as u64
}

/// The two octets that spell `v`, most significant first.
pub open spec fn be16_bytes(v: u16) -> Seq<u8> {
    seq![(v / 0x100) as u8, (v % 0x100) as u8]
}

/// The three octets that spell the low 24 bits of `v`, most significant first.
pub open spec fn be24_bytes(v: u32) -> Seq<u8> {
    seq![((v / 0x1_0000) % 0x100) as u8, ((v / 0x100) % 0x100) as u8, (v % 0x100) as u8]
}

/// The four octets that spell `v`, most significant first.
pub open spec fn be32_bytes(v: u32) -> Seq<u8> {
    seq![
        (v / 0x100_0000) as u8,
        ((v / 0x1_0000) % 0x100) as u8,
        ((v / 0x100) % 0x100) as u8,
        (v % 0x100) as u8,
    ]
}

/// The eight octets that spell `v`, most significant first.
pub open spec fn be64_bytes(v: u64) -> Seq<u8> {
    be32_bytes((v / 0x1_0000_0000) as u32) + be32_bytes((v % 0x1_0000_0000) as u32)
}

/// Reads the big-endian 16-bit number at `at`.
pub fn read_u16_be(buf: &[u8], at: usize) -> (v: u16)
    requires
        at + 2 <= buf.len(),
    ensures
        v == be16_at(buf@, at as int),
{
    let hi: u16 = buf[at] as u16;
    let lo: u16 = buf[at + 1] as u16;
    hi * 0x100 + lo
}

/// Reads the big-endian 24-bit number at `at`.
pub fn read_u24_be(buf: &[u8], at: usize) -> (v: u32)
    requires
        at + 3 <= buf.len(),
    ensures
        v == be24_at(buf@, at as int),
        v < 0x100_0000,
{
    let b0: u32 = buf[at] as u32;
    let b1: u32 = buf[at + 1] as u32;
    let b2: u32 = buf[at + 2] as u32;
    b0 * 0x1_0000 + b1 * 0x100 + b2
}

/// Reads the big-endian 32-bit number at `at`.
pub fn read_u32_be(buf: &[u8], at: usize) -> (v: u32)
    requires
        at + 4 <= buf.len(),
    ensures
        v == be32_at(buf@, at as int),
{
    let b0: u32 = buf[at] as u32;
    let b1: u32 = buf[at + 1] as u32;
    let b2: u32 = buf[at + 2] as u32;
    let b3: u32 = buf[at + 3] as u32;
    b0 * 0x100_0000 + b1 * 0x1_0000 + b2 * 0x100 + b3
}

/// Reads the big-endian 64-bit number at `at`.
pub fn read_u64_be(buf: &[u8], at: usize) -> (v: u64)
    requires
        at + 8 <= buf.len(),
    ensures
        v == be64_at(buf@, at as int),
{
    let hi: u64 = read_u32_be(buf, at) as u64;
    let lo: u64 = read_u32_be(buf, at + 4) as u64;
    hi * 0x1_0000_0000 + lo
}

/// Appends `v` as two octets, most significant first.
pub fn push_u16_be(out: &mut Vec<u8>, v: u16)
    ensures
        final(out)@ == old(out)@ + be16_bytes(v),
{
    out.push((v / 0x100) as u8);
    out.push((v % 0x100) as u8);
    assert(out@ =~= old(out)@ + be16_bytes(v));
}

/// Appends the low 24 bits of `v` as three octets, most significant first.
pub fn push_u24_be(out: &mut Vec<u8>, v: u32)
    ensures
        final(out)@ == old(out)@ + be24_bytes(v),
{
    out.push(((v / 0x1_0000) % 0x100) as u8);
    out.push(((v / 0x100) % 0x100) as u8);
    out.push((v % 0x100) as u8);
    assert(out@ =~= old(out)@ + be24_bytes(v));
}

/// Appends `v` as four octets, most significant first.
pub fn push_u32_be(out: &mut Vec<u8>, v: u32)
    ensures
        final(out)@ == old(out)@ + be32_bytes(v),
{
    out.push((v / 0x100_0000) as u8);
    out.push(((v / 0x1_0000) % 0x100) as u8);
    out.push(((v / 0x100) % 0x100) as u8);
    out.push((v % 0x100) as u8);
    assert(out@ =~= old(out)@ + be32_bytes(v));
}

/// Appends `v` as eight octets, most significant first.
pub fn push_u64_be(out: &mut Vec<u8>, v: u64)
    ensures
        final(out)@ == old(out)@ + be64_bytes(v),
{
    push_u32_be(out, (v / 0x1_0000_0000) as u32);
    push_u32_be(out, (v % 0x1_0000_0000) as u32);
    assert(out@ =~= old(out)@ + be64_bytes(v));
}

/// Appends the octets `src[from..to]`.
pub fn push_range(out: &mut Vec<u8>, src: &[u8], from: usize, to: usize)
    requires
        from <= to <= src.len(),
    ensures
        final(out)@ == old(out)@ + src@.subrange(from as int, to as int),
{
    let mut i: usize = from;
    while i < to
        invariant
            from <= i <= to <= src@.len(),
            out@ == old(out)@ + src@.subrange(from as int, i as int),
        decreases to - i,
    {
        out.push(src[i]);
        i += 1;
        assert(out@ =~= old(out)@ + src@.subrange(from as int, i as int));
    }
}

/// A fresh buffer holding the octets `src[from..to]`.
pub fn copy_range(src: &[u8], from: usize, to: usize) -> (out: Vec<u8>)
    requires
        from <= to <= src.len(),
    ensures
        out@ == src@.subrange(from as int, to as int),
{
    let mut out: Vec<u8> = Vec::new();
    push_range(&mut out, src, from, to);
    assert(out@ =~= src@.subrange(from as int, to as int));
    out
}

/// The `n` 32-bit numbers spelled by the `4 * n` octets at `at`.
pub open spec fn be32_list_at(s: Seq<u8>, at: int, n: nat) -> Seq<u32> {
    Seq::new(n, |i: int| be32_at(s, at + 4 * i))
}

/// The octets that spell each number of `words` in turn.
pub open spec fn be32_list_bytes(words: Seq<u32>) -> Seq<u8> {
    Seq::new(4 * words.len(), |i: int| be32_bytes(words[i / 4])[i % 4])
}

/// Reads the `n` big-endian 32-bit numbers at `at`.
pub fn read_u32_be_list(buf: &[u8], at: usize, n: usize) -> (words: Vec<u32>)
    requires
        at + 4 * n <= buf.len(),
    ensures
        words@ == be32_list_at(buf@, at as int, n as nat),
{
    let mut words: Vec<u32> = Vec::new();
    let mut i: usize = 0;
    while i < n
        invariant
            i <= n,
            at + 4 * n <= buf.len(),
            words@ == be32_list_at(buf@, at as int, i as nat),
        decreases n - i,
    {
        let word = read_u32_be(buf, at + 4 * i);
        words.push(word);
        i += 1;
        assert(words@ =~= be32_list_at(buf@, at as int, i as nat));
    }
    words
}

/// Appends each number of `words` as four octets, most significant first.
pub fn push_u32_be_list(out: &mut Vec<u8>, words: &[u32])
    ensures
        final(out)@ == old(out)@ + be32_list_bytes(words@),
{
    let mut i: usize = 0;
    assert(out@ =~= old(out)@ + be32_list_bytes(words@.take(0)));
    while i < words.len()
        invariant
            i <= words.len(),
            out@ == old(out)@ + be32_list_bytes(words@.take(i as int)),
        decreases words.len() - i,
    {
        let ghost before = out@;
        push_u32_be(out, words[i]);
        i += 1;
        assert(out@ =~= old(out)@ + be32_list_bytes(words@.take(i as int))) by {
            let done = be32_list_bytes(words@.take(i - 1));
            let next = be32_list_bytes(words@.take(i as int));
            assert(before == old(out)@ + done);
            assert(out@ == before + be32_bytes(words@[i - 1]));
            assert(next =~= done + be32_bytes(words@[i - 1]));
        }
    }
    assert(words@.take(i as int) =~= words@);
}

/// The four base-256 digits of a number made from them.
proof fn lemma_digits_split(b0: int, b1: int, b2: int, b3: int)
    requires
        0 <= b0 < 0x100,
        0 <= b1 < 0x100,
        0 <= b2 < 0x100,
        0 <= b3 < 0x100,
    ensures
        ({
            let v = b0 * 0x100_0000 + b1 * 0x1_0000 + b2 * 0x100 + b3;
            &&& 0 <= v < 0x1_0000_0000
            &&& v / 0x100_0000 == b0
            &&& (v / 0x1_0000) % 0x100 == b1
            &&& (v / 0x100) % 0x100 == b2
            &&& v % 0x100 == b3
        }),
{
    let v = b0 * 0x100_0000 + b1 * 0x1_0000 + b2 * 0x100 + b3;
    let upper3 = b0 * 0x1_0000 + b1 * 0x100 + b2;
    let upper2 = b0 * 0x100 + b1;
    lemma_fundamental_div_mod_converse(v, 0x100, upper3, b3);
    lemma_fundamental_div_mod_converse(v, 0x1_0000, upper2, b2 * 0x100 + b3);
    lemma_fundamental_div_mod_converse(v, 0x100_0000, b0, b1 * 0x1_0000 + b2 * 0x100 + b3);
    lemma_fundamental_div_mod_converse(upper3, 0x100, upper2, b2);
    lemma_fundamental_div_mod_converse(upper2, 0x100, b0, b1);
}

/// A number below 2^32 is made from its four base-256 digits.
proof fn lemma_digits_join(v: int)
    requires
        0 <= v < 0x1_0000_0000,
    ensures
        v == (v / 0x100_0000) * 0x100_0000 + ((v / 0x1_0000) % 0x100) * 0x1_0000 + ((v / 0x100)
            % 0x100) * 0x100 + v % 0x100,
        0 <= v / 0x100_0000 < 0x100,
        v < 0x100_0000 ==> v / 0x100_0000 == 0,
        v < 0x1_0000 ==> (v / 0x1_0000) % 0x100 == 0 && v / 0x100 == (v / 0x100) % 0x100,
{
    let upper3 = v / 0x100;
    let upper2 = v / 0x1_0000;
    let upper1 = v / 0x100_0000;
    lemma_fundamental_div_mod(v, 0x100);
    lemma_fundamental_div_mod(upper3, 0x100);
    lemma_fundamental_div_mod(upper2, 0x100);
    lemma_div_denominator(v, 0x100, 0x100);
    lemma_div_denominator(v, 0x1_0000, 0x100);
    assert(upper3 / 0x100 == upper2);
    assert(upper2 / 0x100 == upper1);
    lemma_mod_pos_bound(v, 0x100);
    lemma_mod_pos_bound(upper3, 0x100);
    lemma_mod_pos_bound(upper2, 0x100);
}

/// Reading back what `be16_bytes` wrote gives the number.
pub proof fn lemma_be16_read_written(v: u16)
    ensures
        be16_bytes(v).len() == 2,
        be16_at(be16_bytes(v), 0) == v,
{
    let s = be16_bytes(v);
    assert(s[0] == (v / 0x100) as u8 && s[1] == (v % 0x100) as u8);
    lemma_digits_join(v as int);
}

/// Reading back what `be24_bytes` wrote gives the number, when it has 24 bits.
pub proof fn lemma_be24_read_written(v: u32)
    requires
        v < 0x100_0000,
    ensures
        be24_bytes(v).len() == 3,
        be24_at(be24_bytes(v), 0) == v,
{
    let s = be24_bytes(v);
    assert(s[0] == ((v / 0x1_0000) % 0x100) as u8 && s[1] == ((v / 0x100) % 0x100) as u8 && s[2]
        == (v % 0x100) as u8);
    lemma_digits_join(v as int);
}

/// Reading back what `be32_bytes` wrote gives the number.
pub proof fn lemma_be32_read_written(v: u32)
    ensures
        be32_bytes(v).len() == 4,
        be32_at(be32_bytes(v), 0) == v,
{
    let s = be32_bytes(v);
    assert(s[0] == (v / 0x100_0000) as u8 && s[1] == ((v / 0x1_0000) % 0x100) as u8 && s[2] == ((v
        / 0x100) % 0x100) as u8 && s[3] == (v % 0x100) as u8);
    lemma_digits_join(v as int);
}

/// Reading back what `be64_bytes` wrote gives the number.
pub proof fn lemma_be64_read_written(v: u64)
    ensures
        be64_bytes(v).len() == 8,
        be64_at(be64_bytes(v), 0) == v,
{
    let hi = (v / 0x1_0000_0000) as u32;
    let lo = (v % 0x1_0000_0000) as u32;
    lemma_be32_read_written(hi);
    lemma_be32_read_written(lo);
    let s = be64_bytes(v);
    assert(be32_at(s, 0) == be32_at(be32_bytes(hi), 0));
    assert(be32_at(s, 4) == be32_at(be32_bytes(lo), 0));
}

/// Writing the number read at `at` gives back the octets that were read.
pub proof fn lemma_be16_written_read(s: Seq<u8>, at: int)
    requires
        0 <= at,
        at + 2 <= s.len(),
    ensures
        be16_bytes(be16_at(s, at)) == s.subrange(at, at + 2),
{
    lemma_digits_split(0, 0, s[at] as int, s[at + 1] as int);
    assert(be16_bytes(be16_at(s, at)) =~= s.subrange(at, at + 2));
}

/// Writing the number read at `at` gives back the octets that were read.
pub proof fn lemma_be24_written_read(s: Seq<u8>, at: int)
    requires
        0 <= at,
        at + 3 <= s.len(),
    ensures
        be24_at(s, at) < 0x100_0000,
        be24_bytes(be24_at(s, at)) == s.subrange(at, at + 3),
{
    lemma_digits_split(0, s[at] as int, s[at + 1] as int, s[at + 2] as int);
    assert(be24_bytes(be24_at(s, at)) =~= s.subrange(at, at + 3));
}

/// Writing the number read at `at` gives back the octets that were read.
pub proof fn lemma_be32_written_read(s: Seq<u8>, at: int)
    requires
        0 <= at,
        at + 4 <= s.len(),
    ensures
        be32_bytes(be32_at(s, at)) == s.subrange(at, at + 4),
{
    lemma_digits_split(s[at] as int, s[at + 1] as int, s[at + 2] as int, s[at + 3] as int);
    assert(be32_bytes(be32_at(s, at)) =~= s.subrange(at, at + 4));
}

/// Writing the number read at `at` gives back the octets that were read.
pub proof fn lemma_be64_written_read(s: Seq<u8>, at: int)
    requires
        0 <= at,
        at + 8 <= s.len(),
    ensures
        be64_bytes(be64_at(s, at)) == s.subrange(at, at + 8),
{
    lemma_be32_written_read(s, at);
    lemma_be32_written_read(s, at + 4);
    let v = be64_at(s, at);
    assert((v / 0x1_0000_0000) as u32 == be32_at(s, at));
    assert((v % 0x1_0000_0000) as u32 == be32_at(s, at + 4));
    assert(be64_bytes(v) =~= s.subrange(at, at + 8));
}

/// Octet `k` of number `i` in what `be32_list_bytes` wrote.
pub proof fn lemma_be32_list_byte(words: Seq<u32>, i: int, k: int)
    requires
        0 <= i < words.len(),
        0 <= k < 4,
    ensures
        be32_list_bytes(words).len() == 4 * words.len(),
        be32_list_bytes(words)[4 * i + k] == be32_bytes(words[i])[k],
{
    assert((4 * i + k) / 4 == i);
    assert((4 * i + k) % 4 == k);
}

/// A list of 32-bit numbers is read back from any buffer that holds, at
/// `at`, the octets written for it.
pub proof fn lemma_be32_list_read_embedded(words: Seq<u32>, raw: Seq<u8>, at: int)
    requires
        0 <= at,
        at + 4 * words.len() <= raw.len(),
        raw.subrange(at, at + 4 * words.len()) == be32_list_bytes(words),
    ensures
        be32_list_at(raw, at, words.len()) == words,
{
    let n = words.len() as int;
    let sub = raw.subrange(at, at + 4 * n);
    assert forall|i: int| 0 <= i < n implies be32_at(raw, at + 4 * i) == words[i] by {
        lemma_be32_list_byte(words, i, 0);
        lemma_be32_list_byte(words, i, 1);
        lemma_be32_list_byte(words, i, 2);
        lemma_be32_list_byte(words, i, 3);
        assert(raw[at + 4 * i] == sub[4 * i]);
        assert(raw[at + 4 * i + 1] == sub[4 * i + 1]);
        assert(raw[at + 4 * i + 2] == sub[4 * i + 2]);
        assert(raw[at + 4 * i + 3] == sub[4 * i + 3]);
        lemma_be32_read_written(words[i]);
    }
    assert(be32_list_at(raw, at, words.len()) =~= words);
}

/// Reading back what `be32_list_bytes` wrote gives the numbers.
pub proof fn lemma_be32_list_read_written(words: Seq<u32>)
    ensures
        be32_list_bytes(words).len() == 4 * words.len(),
        be32_list_at(be32_list_bytes(words), 0, words.len()) == words,
{
    let s = be32_list_bytes(words);
    assert(s.subrange(0, 4 * (words.len() as int)) =~= s);
    lemma_be32_list_read_embedded(words, s, 0);
}

/// Writing the numbers read at `at` gives back the octets that were read.
pub proof fn lemma_be32_list_written_read(s: Seq<u8>, at: int, n: nat)
    requires
        0 <= at,
        at + 4 * n <= s.len(),
    ensures
        be32_list_bytes(be32_list_at(s, at, n)) == s.subrange(at, at + 4 * n),
{
    let words = be32_list_at(s, at, n);
    assert forall|j: int| 0 <= j < 4 * n implies be32_list_bytes(words)[j] == s[at + j] by {
        let i = j / 4;
        lemma_be32_written_read(s, at + 4 * i);
        assert(be32_bytes(words[i]) == s.subrange(at + 4 * i, at + 4 * i + 4));
        assert(s.subrange(at + 4 * i, at + 4 * i + 4)[j % 4] == s[at + j]);
    }
    assert(be32_list_bytes(words) =~= s.subrange(at, at + 4 * n));
}

/// Two pieces of a buffer that touch, put end to end, are one piece.
pub proof fn lemma_subrange_join(s: Seq<u8>, i: int, j: int, k: int)
    requires
        0 <= i <= j <= k <= s.len(),
    ensures
        s.subrange(i, j) + s.subrange(j, k) == s.subrange(i, k),
        s.subrange(0, s.len() as int) == s,
{
    assert(s.subrange(i, j) + s.subrange(j, k) =~= s.subrange(i, k));
    assert(s.subrange(0, s.len() as int) =~= s);
}

/// A piece of a piece of a buffer is a piece of the buffer.
pub proof fn lemma_subrange_of_subrange(s: Seq<u8>, a: int, b: int, i: int, j: int)
    requires
        0 <= a <= b <= s.len(),
        0 <= i <= j <= b - a,
    ensures
        s.subrange(a, b).subrange(i, j) == s.subrange(a + i, a + j),
{
    assert(s.subrange(a, b).subrange(i, j) =~= s.subrange(a + i, a + j));
}

/// The two pieces of two buffers put end to end.
pub proof fn lemma_concat_pieces(a: Seq<u8>, b: Seq<u8>)
    ensures
        (a + b).len() == a.len() + b.len(),
        (a + b).subrange(0, a.len() as int) == a,
        (a + b).subrange(a.len() as int, (a + b).len() as int) == b,
{
    assert((a + b).subrange(0, a.len() as int) =~= a);
    assert((a + b).subrange(a.len() as int, (a + b).len() as int) =~= b);
}

/// A 16-bit number is read back from any buffer that holds, at `at`, the
/// octets written for it.
pub proof fn lemma_be16_read_embedded(v: u16, raw: Seq<u8>, at: int)
    requires
        0 <= at,
        at + 2 <= raw.len(),
        raw.subrange(at, at + 2) == be16_bytes(v),
    ensures
        be16_at(raw, at) == v,
{
    let window = raw.subrange(at, at + 2);
    assert(raw[at] == window[0] && raw[at + 1] == window[1]);
    lemma_be16_read_written(v);
}

/// A 24-bit number is read back from any buffer that holds, at `at`, the
/// octets written for it.
pub proof fn lemma_be24_read_embedded(v: u32, raw: Seq<u8>, at: int)
    requires
        v < 0x100_0000,
        0 <= at,
        at + 3 <= raw.len(),
        raw.subrange(at, at + 3) == be24_bytes(v),
    ensures
        be24_at(raw, at) == v,
{
    let window = raw.subrange(at, at + 3);
    assert(raw[at] == window[0] && raw[at + 1] == window[1] && raw[at + 2] == window[2]);
    lemma_be24_read_written(v);
}

/// A 32-bit number is read back from any buffer that holds, at `at`, the
/// octets written for it.
pub proof fn lemma_be32_read_embedded(v: u32, raw: Seq<u8>, at: int)
    requires
        0 <= at,
        at + 4 <= raw.len(),
        raw.subrange(at, at + 4) == be32_bytes(v),
    ensures
        be32_at(raw, at) == v,
{
    let window = raw.subrange(at, at + 4);
    assert(raw[at] == window[0] && raw[at + 1] == window[1] && raw[at + 2] == window[2] && raw[at
        + 3] == window[3]);
    lemma_be32_read_written(v);
}

/// A 64-bit number is read back from any buffer that holds, at `at`, the
/// octets written for it.
pub proof fn lemma_be64_read_embedded(v: u64, raw: Seq<u8>, at: int)
    requires
        0 <= at,
        at + 8 <= raw.len(),
        raw.subrange(at, at + 8) == be64_bytes(v),
    ensures
        be64_at(raw, at) == v,
{
    let hi = (v / 0x1_0000_0000) as u32;
    let lo = (v % 0x1_0000_0000) as u32;
    lemma_concat_pieces(be32_bytes(hi), be32_bytes(lo));
    lemma_subrange_of_subrange(raw, at, at + 8, 0, 4);
    lemma_subrange_of_subrange(raw, at, at + 8, 4, 8);
    lemma_be32_read_embedded(hi, raw, at);
    lemma_be32_read_embedded(lo, raw, at + 4);
}

} // verus!
