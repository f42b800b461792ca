//! The checks on decoded request paths read the same on bytes as on the
//! characters those bytes encode: ASCII bytes occur in UTF-8 only as the
//! characters they stand for.
use vstd::prelude::*;
use vstd::utf8::{
    char_is_scalar, decode_utf8, decode_utf8_encode_utf8, encode_scalar, encode_utf8,
    valid_utf8,
};

use crate::request_path::{
    has_parent_segment, is_safe_request_path, parent_segment_at, percent_decode, DOT, SLASH,
};

verus! {

/// Whether the `/`-separated segment of `chars` that starts at `i` is exactly `..`.
pub open spec fn parent_char_segment_at(chars: Seq<char>, i: int) -> bool {
    &&& 0 <= i
    &&& i + 2 <= chars.len()
    &&& chars[i] == '.'
    &&& chars[i + 1] == '.'
    &&& (i == 0 || chars[i - 1] == '/')
    &&& (i + 2 == chars.len() || chars[i + 2] == '/')
}

/// Whether one of the `/`-separated segments of `chars` is `..`.
pub open spec fn has_parent_char_segment(chars: Seq<char>) -> bool {
    exists|i: int| parent_char_segment_at(chars, i)
}

/// Where the encoding of `chars[k]` starts in the encoding of `chars`.
spec fn offset(chars: Seq<char>, k: int) -> int {
    encode_utf8(chars.take(k)).len() as int
}

/// Encoding distributes over concatenation.
proof fn lemma_encode_concat(a: Seq<char>, b: Seq<char>)
    ensures
        encode_utf8(a + b) == encode_utf8(a) + encode_utf8(b),
    decreases a.len(),
{
    if a.len() == 0 {
        assert(a + b == b);
        assert(encode_utf8(a) == Seq::<u8>::empty());
        assert(Seq::<u8>::empty() + encode_utf8(b) == encode_utf8(b));
    } else {
        lemma_encode_concat(a.drop_first(), b);
        assert((a + b).drop_first() == a.drop_first() + b);
        assert((a + b)[0] == a[0]);
        let first = encode_scalar(a[0] as u32);
        assert(first + (encode_utf8(a.drop_first()) + encode_utf8(b)) == (first + encode_utf8(
            a.drop_first(),
        )) + encode_utf8(b));
    }
}

/// An ASCII character encodes as its own single byte; any other character
/// encodes as bytes that are all at least `0x80`.
proof fn lemma_encode_scalar_shape(c: char)
    ensures
        encode_scalar(c as u32).len() >= 1,
        (c as u32) < 0x80 ==> encode_scalar(c as u32) == seq![(c as u32) as u8],
        (c as u32) >= 0x80 ==> forall|i: int|
            0 <= i < encode_scalar(c as u32).len() ==> #[trigger] encode_scalar(c as u32)[i] >= 0x80,
{
    let s = c as u32;
    char_is_scalar(c);
    if s < 0x80 {
        assert((s & 0x7f) as u8 == s as u8) by (bit_vector)
            requires
                s < 0x80,
        ;
    } else {
        assert(0xC0u8 | ((s >> 6) & 0x1F) as u8 >= 0x80) by (bit_vector);
        assert(0xE0u8 | ((s >> 12) & 0x0F) as u8 >= 0x80) by (bit_vector);
        assert(0xF0u8 | ((s >> 18) & 0x7) as u8 >= 0x80) by (bit_vector);
        assert(0x80u8 | (s & 0x3F) as u8 >= 0x80) by (bit_vector);
        assert(0x80u8 | ((s >> 6) & 0x3F) as u8 >= 0x80) by (bit_vector);
        assert(0x80u8 | ((s >> 12) & 0x3F) as u8 >= 0x80) by (bit_vector);
    }
}

/// A single character encodes as its scalar.
proof fn lemma_encode_single(c: char)
    ensures
        encode_utf8(seq![c]) == encode_scalar(c as u32),
{
    let single = seq![c];
    assert(single[0] == c);
    assert(single.drop_first() == Seq::<char>::empty());
    assert(encode_utf8(single.drop_first()) == Seq::<u8>::empty());
    assert(encode_scalar(c as u32) + Seq::<u8>::empty() == encode_scalar(c as u32));
}

/// The encoding of `chars` is that of the characters before `k`, then that of
/// `chars[k]`, then that of the characters after it.
proof fn lemma_offset_step(chars: Seq<char>, k: int)
    requires
        0 <= k < chars.len(),
    ensures
        encode_utf8(chars) == encode_utf8(chars.take(k)) + encode_scalar(chars[k] as u32)
            + encode_utf8(chars.skip(k + 1)),
        offset(chars, k + 1) == offset(chars, k) + encode_scalar(chars[k] as u32).len(),
{
    let single = seq![chars[k]];
    lemma_encode_single(chars[k]);
    assert(chars.take(k + 1) == chars.take(k) + single);
    assert(chars == chars.take(k + 1) + chars.skip(k + 1));
    lemma_encode_concat(chars.take(k), single);
    lemma_encode_concat(chars.take(k + 1), chars.skip(k + 1));
}

/// Offsets grow strictly from one character to the next.
proof fn lemma_offset_increases(chars: Seq<char>, j: int, k: int)
    requires
        0 <= j < k <= chars.len(),
    ensures
        offset(chars, j) < offset(chars, k),
    decreases k - j,
{
    lemma_offset_step(chars, j);
    lemma_encode_scalar_shape(chars[j]);
    if j + 1 < k {
        lemma_offset_increases(chars, j + 1, k);
    }
}

/// The first offset is 0 and the last is the length of the encoding.
proof fn lemma_offset_ends(chars: Seq<char>)
    ensures
        offset(chars, 0) == 0,
        offset(chars, chars.len() as int) == encode_utf8(chars).len(),
{
    assert(chars.take(0) == Seq::<char>::empty());
    assert(chars.take(chars.len() as int) == chars);
}

/// Offsets are distinct for distinct characters.
proof fn lemma_offset_injective(chars: Seq<char>, j: int, k: int)
    requires
        0 <= j <= chars.len(),
        0 <= k <= chars.len(),
        offset(chars, j) == offset(chars, k),
    ensures
        j == k,
{
    if j < k {
        lemma_offset_increases(chars, j, k);
    } else if k < j {
        lemma_offset_increases(chars, k, j);
    }
}

/// The ASCII character `chars[k]` stands at its offset in the encoding.
proof fn lemma_ascii_char_at_offset(chars: Seq<char>, k: int)
    requires
        0 <= k < chars.len(),
        (chars[k] as u32) < 0x80,
    ensures
        offset(chars, k) < encode_utf8(chars).len(),
        encode_utf8(chars)[offset(chars, k)] == (chars[k] as u32) as u8,
        offset(chars, k + 1) == offset(chars, k) + 1,
{
    lemma_offset_step(chars, k);
    lemma_encode_scalar_shape(chars[k]);
}

/// An ASCII byte of the encoding is a whole character: the one at that offset.
proof fn lemma_ascii_byte_is_char(chars: Seq<char>, p: int) -> (k: int)
    requires
        0 <= p < encode_utf8(chars).len(),
        encode_utf8(chars)[p] < 0x80,
    ensures
        0 <= k < chars.len(),
        offset(chars, k) == p,
        (chars[k] as u32) < 0x80,
        (chars[k] as u32) as u8 == encode_utf8(chars)[p],
    decreases chars.len(),
{
    let first = encode_scalar(chars[0] as u32);
    lemma_encode_scalar_shape(chars[0]);
    lemma_offset_ends(chars);
    let rest = chars.drop_first();
    assert(encode_utf8(chars) == first + encode_utf8(rest));
    if p < first.len() {
        assert(encode_utf8(chars)[p] == first[p]);
        0
    } else {
        assert(encode_utf8(rest)[p - first.len()] == encode_utf8(chars)[p]);
        let j = lemma_ascii_byte_is_char(rest, p - first.len());
        assert(chars.take(j + 1) == seq![chars[0]] + rest.take(j));
        lemma_encode_concat(seq![chars[0]], rest.take(j));
        lemma_encode_single(chars[0]);
        assert(chars[j + 1] == rest[j]);
        j + 1
    }
}

/// A character is `'.'`, `'/'` or NUL exactly when its code is that byte.
proof fn lemma_ascii_codes(c: char)
    ensures
        (c == '.') <==> (c as u32) == DOT as u32,
        (c == '/') <==> (c as u32) == SLASH as u32,
        (c == '\0') <==> (c as u32) == 0,
{
}

/// On valid UTF-8, the byte-level checks of a decoded path are its
/// character-level checks: the bytes hold a zero byte exactly when the text
/// holds a NUL character, and have a `..` segment exactly when the text does.
pub proof fn lemma_byte_checks_are_char_checks(bytes: Seq<u8>)
    requires
        valid_utf8(bytes),
    ensures
        bytes.contains(0u8) <==> decode_utf8(bytes).contains('\0'),
        has_parent_segment(bytes) <==> has_parent_char_segment(decode_utf8(bytes)),
{
    let chars = decode_utf8(bytes);
    decode_utf8_encode_utf8(bytes);
    assert(encode_utf8(chars) == bytes);
    lemma_offset_ends(chars);
    if bytes.contains(0u8) {
        let p = choose|p: int| 0 <= p < bytes.len() && bytes[p] == 0u8;
        let k = lemma_ascii_byte_is_char(chars, p);
        lemma_ascii_codes(chars[k]);
        assert(chars[k] == '\0');
    }
    if chars.contains('\0') {
        let k = choose|k: int| 0 <= k < chars.len() && chars[k] == '\0';
        lemma_ascii_codes(chars[k]);
        lemma_ascii_char_at_offset(chars, k);
        assert(bytes[offset(chars, k)] == 0u8);
    }
    if has_parent_segment(bytes) {
        let p = choose|p: int| parent_segment_at(bytes, p);
        let k = lemma_ascii_byte_is_char(chars, p);
        lemma_ascii_codes(chars[k]);
        lemma_ascii_char_at_offset(chars, k);
        let k1 = lemma_ascii_byte_is_char(chars, p + 1);
        lemma_offset_injective(chars, k1, k + 1);
        lemma_ascii_codes(chars[k + 1]);
        lemma_ascii_char_at_offset(chars, k + 1);
        if p > 0 {
            let j = lemma_ascii_byte_is_char(chars, p - 1);
            lemma_ascii_codes(chars[j]);
            lemma_ascii_char_at_offset(chars, j);
            lemma_offset_injective(chars, j + 1, k);
        } else {
            lemma_offset_injective(chars, 0, k);
        }
        if p + 2 == bytes.len() {
            lemma_offset_injective(chars, k + 2, chars.len() as int);
        } else {
            let j = lemma_ascii_byte_is_char(chars, p + 2);
            lemma_ascii_codes(chars[j]);
            lemma_offset_injective(chars, j, k + 2);
        }
        assert(parent_char_segment_at(chars, k));
    }
    if has_parent_char_segment(chars) {
        let k = choose|k: int| parent_char_segment_at(chars, k);
        lemma_ascii_codes(chars[k]);
        lemma_ascii_codes(chars[k + 1]);
        lemma_ascii_char_at_offset(chars, k);
        lemma_ascii_char_at_offset(chars, k + 1);
        let p = offset(chars, k);
        if k > 0 {
            lemma_ascii_codes(chars[k - 1]);
            lemma_ascii_char_at_offset(chars, k - 1);
        }
        if k + 2 < chars.len() {
            lemma_ascii_codes(chars[k + 2]);
            lemma_ascii_char_at_offset(chars, k + 2);
        }
        assert(parent_segment_at(bytes, p));
    }
}

/// A request path is safe exactly when it percent-decodes to valid UTF-8 text
/// that holds no NUL character and none of whose `/`-separated segments is `..`.
pub proof fn lemma_safe_request_path_on_text(path: Seq<u8>)
    ensures
        is_safe_request_path(path) <==> match percent_decode(path) {
            Some(decoded) => {
                &&& valid_utf8(decoded)
                &&& !decode_utf8(decoded).contains('\0')
                &&& !has_parent_char_segment(decode_utf8(decoded))
            },
            None => false,
        },
{
    if let Some(decoded) = percent_decode(path) {
        if valid_utf8(decoded) {
            lemma_byte_checks_are_char_checks(decoded);
        }
    }
}

} // verus!
