//! Little-endian words and their bytes, the layout of memory on every
//! supported architecture.

use vstd::prelude::*;

verus! {

/// Byte `j` of a word, counted from the least significant one.
pub open spec fn word_byte(w: u64, j: int) -> u8 {
    if j == 0 {
        (w & 0xff) as u8
    } else if j == 1 {
        ((w >> 8) & 0xff) as u8
    } else if j == 2 {
        ((w >> 16) & 0xff) as u8
    } else if j == 3 {
        ((w >> 24) & 0xff) as u8
    } else if j == 4 {
        ((w >> 32) & 0xff) as u8
    } else if j == 5 {
        ((w >> 40) & 0xff) as u8
    } else if j == 6 {
        ((w >> 48) & 0xff) as u8
    } else {
        ((w >> 56) & 0xff) as u8
    }
}

/// The eight bytes of a word as they lie in memory.
pub open spec fn word_bytes(w: u64) -> Seq<u8> {
    Seq::new(8, |j: int| word_byte(w, j))
}

/// The first four bytes of a word's memory, for the values that fit them.
pub open spec fn half_bytes(w: u32) -> Seq<u8> {
    word_bytes(w as u64).take(4)
}

/// The first two bytes of a word's memory, for the values that fit them.
pub open spec fn short_bytes(w: u16) -> Seq<u8> {
    word_bytes(w as u64).take(2)
}

/// The word that lies in memory as the given eight bytes.
pub fn join_word(b0: u8, b1: u8, b2: u8, b3: u8, b4: u8, b5: u8, b6: u8, b7: u8) -> (w: u64)
    ensures
        word_bytes(w) == seq![b0, b1, b2, b3, b4, b5, b6, b7],
{
    let w: u64 = (b0 as u64) | ((b1 as u64) << 8) | ((b2 as u64) << 16) | ((b3 as u64) << 24) | ((
    b4 as u64) << 32) | ((b5 as u64) << 40) | ((b6 as u64) << 48) | ((b7 as u64) << 56);
    assert((w & 0xff) as u8 == b0 && ((w >> 8) & 0xff) as u8 == b1 && ((w >> 16) & 0xff) as u8 == b2
        && ((w >> 24) & 0xff) as u8 == b3 && ((w >> 32) & 0xff) as u8 == b4 && ((w >> 40)
        & 0xff) as u8 == b5 && ((w >> 48) & 0xff) as u8 == b6 && ((w >> 56) & 0xff) as u8 == b7)
        by (bit_vector)
        requires
            w == (b0 as u64) | ((b1 as u64) << 8) | ((b2 as u64) << 16) | ((b3 as u64) << 24) | ((
            b4 as u64) << 32) | ((b5 as u64) << 40) | ((b6 as u64) << 48) | ((b7 as u64) << 56),
    ;
    assert(word_bytes(w) =~= seq![b0, b1, b2, b3, b4, b5, b6, b7]);
    w
}

/// Append the eight bytes of a word.
pub fn push_word(out: &mut Vec<u8>, w: u64)
    ensures
        final(out)@ == old(out)@ + word_bytes(w),
{
    out.push((w & 0xff) as u8);
    out.push(((w >> 8) & 0xff) as u8);
    out.push(((w >> 16) & 0xff) as u8);
    out.push(((w >> 24) & 0xff) as u8);
    out.push(((w >> 32) & 0xff) as u8);
    out.push(((w >> 40) & 0xff) as u8);
    out.push(((w >> 48) & 0xff) as u8);
    out.push(((w >> 56) & 0xff) as u8);
    assert(out@ =~= old(out)@ + word_bytes(w));
}

/// Append the four bytes of a half word.
pub fn push_half(out: &mut Vec<u8>, h: u32)
    ensures
        final(out)@ == old(out)@ + half_bytes(h),
{
    let w: u64 = h as u64;
    out.push((w & 0xff) as u8);
    out.push(((w >> 8) & 0xff) as u8);
    out.push(((w >> 16) & 0xff) as u8);
    out.push(((w >> 24) & 0xff) as u8);
    assert(out@ =~= old(out)@ + half_bytes(h));
}

/// Append the two bytes of a short word.
pub fn push_short(out: &mut Vec<u8>, s: u16)
    ensures
        final(out)@ == old(out)@ + short_bytes(s),
{
    let w: u64 = s as u64;
    out.push((w & 0xff) as u8);
    out.push(((w >> 8) & 0xff) as u8);
    assert(out@ =~= old(out)@ + short_bytes(s));
}

/// Append `n` zero bytes.
pub fn push_zeros(out: &mut Vec<u8>, n: usize)
    ensures
        final(out)@ == old(out)@ + Seq::new(n as nat, |i: int| 0u8),
{
    let mut i: usize = 0;
    let ghost start = out@;
    while i < n
        invariant
            i <= n,
            out@ == start + Seq::new(i as nat, |j: int| 0u8),
        decreases n - i,
    {
        out.push(0);
        i = i + 1;
        assert(out@ =~= start + Seq::new(i as nat, |j: int| 0u8));
    }
}

/// The half word that lies in memory as the given four bytes.
pub fn join_half(b0: u8, b1: u8, b2: u8, b3: u8) -> (h: u32)
    ensures
        half_bytes(h) == seq![b0, b1, b2, b3],
{
    let h: u32 = (b0 as u32) | ((b1 as u32) << 8) | ((b2 as u32) << 16) | ((b3 as u32) << 24);
    assert(((h as u64) & 0xff) as u8 == b0 && (((h as u64) >> 8) & 0xff) as u8 == b1 && (((
    h as u64) >> 16) & 0xff) as u8 == b2 && (((h as u64) >> 24) & 0xff) as u8 == b3) by (bit_vector)
        requires
            h == (b0 as u32) | ((b1 as u32) << 8) | ((b2 as u32) << 16) | ((b3 as u32) << 24),
    ;
    assert(half_bytes(h) =~= seq![b0, b1, b2, b3]);
    h
}

/// Different half words have different bytes.
pub proof fn half_bytes_tell_apart(a: u32, b: u32)
    ensures
        half_bytes(a) == half_bytes(b) ==> a == b,
{
    if half_bytes(a) == half_bytes(b) {
        assert(half_bytes(a)[0] == half_bytes(b)[0]);
        assert(half_bytes(a)[1] == half_bytes(b)[1]);
        assert(half_bytes(a)[2] == half_bytes(b)[2]);
        assert(half_bytes(a)[3] == half_bytes(b)[3]);
        assert(a == b) by (bit_vector)
            requires
                ((a as u64) & 0xff) as u8 == ((b as u64) & 0xff) as u8,
                (((a as u64) >> 8) & 0xff) as u8 == (((b as u64) >> 8) & 0xff) as u8,
                (((a as u64) >> 16) & 0xff) as u8 == (((b as u64) >> 16) & 0xff) as u8,
                (((a as u64) >> 24) & 0xff) as u8 == (((b as u64) >> 24) & 0xff) as u8,
        ;
    }
}

/// Text as the kernel reads it: its bytes, then a zero.
pub open spec fn c_bytes(text: Seq<char>) -> Seq<u8> {
    vstd::utf8::encode_utf8(text).push(0)
}

/// Text as the kernel reads it.
pub fn c_string(text: &str) -> (r: Vec<u8>)
    ensures
        r@ == c_bytes(text@),
{
    let mut r: Vec<u8> = text.as_bytes_vec();
    r.push(0);
    r
}

/// Plain text takes one byte for each character.
pub proof fn ascii_takes_a_byte_each(text: Seq<char>)
    requires
        vstd::utf8::is_ascii_chars(text),
    ensures
        c_bytes(text).len() == text.len() + 1,
{
    vstd::utf8::is_ascii_chars_encode_utf8(text);
}

/// The bytes of a word are its digits to the base of 256, the least
/// significant one first; a half word takes the first four of them, a short
/// word the first two.
pub proof fn bytes_are_digits(w: u64, h: u32, s: u16)
    ensures
        word_bytes(w).len() == 8,
        word_bytes(w)[0] == w % 0x100,
        word_bytes(w)[1] == (w / 0x100) % 0x100,
        word_bytes(w)[2] == (w / 0x1_0000) % 0x100,
        word_bytes(w)[3] == (w / 0x100_0000) % 0x100,
        word_bytes(w)[4] == (w / 0x1_0000_0000) % 0x100,
        word_bytes(w)[5] == (w / 0x100_0000_0000) % 0x100,
        word_bytes(w)[6] == (w / 0x1_0000_0000_0000) % 0x100,
        word_bytes(w)[7] == w / 0x100_0000_0000_0000,
        half_bytes(h).len() == 4,
        half_bytes(h)[0] == h % 0x100,
        half_bytes(h)[1] == (h / 0x100) % 0x100,
        half_bytes(h)[2] == (h / 0x1_0000) % 0x100,
        half_bytes(h)[3] == h / 0x100_0000,
        short_bytes(s).len() == 2,
        short_bytes(s)[0] == s % 0x100,
        short_bytes(s)[1] == s / 0x100,
{
    assert((w & 0xff) as u8 == w % 0x100 && ((w >> 8) & 0xff) as u8 == (w / 0x100) % 0x100 && ((w
        >> 16) & 0xff) as u8 == (w / 0x1_0000) % 0x100 && ((w >> 24) & 0xff) as u8 == (w
        / 0x100_0000) % 0x100 && ((w >> 32) & 0xff) as u8 == (w / 0x1_0000_0000) % 0x100 && ((w
        >> 40) & 0xff) as u8 == (w / 0x100_0000_0000) % 0x100 && ((w >> 48) & 0xff) as u8 == (w
        / 0x1_0000_0000_0000) % 0x100 && ((w >> 56) & 0xff) as u8 == w / 0x100_0000_0000_0000)
        by (bit_vector);
    let v: u64 = h as u64;
    assert((v & 0xff) as u8 == h % 0x100 && ((v >> 8) & 0xff) as u8 == (h / 0x100) % 0x100 && ((v
        >> 16) & 0xff) as u8 == (h / 0x1_0000) % 0x100 && ((v >> 24) & 0xff) as u8 == h
        / 0x100_0000) by (bit_vector)
        requires
            v == h as u64,
    ;
    let u: u64 = s as u64;
    assert((u & 0xff) as u8 == s % 0x100 && ((u >> 8) & 0xff) as u8 == s / 0x100) by (bit_vector)
        requires
            u == s as u64,
    ;
}

/// Text as the kernel reads it is the UTF-8 form of the text and one zero
/// behind it; plain text has a byte for each character, of the same number.
pub proof fn text_ends_at_its_zero(text: Seq<char>)
    ensures
        c_bytes(text).len() == vstd::utf8::encode_utf8(text).len() + 1,
        c_bytes(text).last() == 0,
        c_bytes(text).drop_last() == vstd::utf8::encode_utf8(text),
{
    assert(c_bytes(text).drop_last() =~= vstd::utf8::encode_utf8(text));
}

} // verus!
