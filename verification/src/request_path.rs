//! Request-path screening: percent decoding and traversal rejection.
use vstd::prelude::*;
use vstd::string::StringSliceAdditionalSpecFns;
use vstd::utf8::{encode_utf8, valid_utf8};

verus! {

/// ASCII `%`, which opens a percent escape.
pub const PERCENT: u8 = 0x25;
/// ASCII `.`.
pub const DOT: u8 = 0x2e;
/// ASCII `/`, the segment separator.
pub const SLASH: u8 = 0x2f;
/// ASCII `0`.
pub const DIGIT_ZERO: u8 = 0x30;
/// ASCII `9`.
pub const DIGIT_NINE: u8 = 0x39;
/// ASCII `a`.
pub const LOWER_A: u8 = 0x61;
/// ASCII `f`.
pub const LOWER_F: u8 = 0x66;
/// ASCII `A`.
pub const UPPER_A: u8 = 0x41;
/// ASCII `F`.
pub const UPPER_F: u8 = 0x46;

/// `core::str::Utf8Error`, the error of a failed UTF-8 check; carried, never read.
#[verifier::external_type_specification]
#[verifier::external_body]
pub struct ExUtf8Error(core::str::Utf8Error);

/// `core::str::from_utf8` (re-exported as `std::str::from_utf8`): as its
/// documentation says, it succeeds exactly when the bytes are valid UTF-8, and
/// the string it returns is made of those very bytes.
pub assume_specification[ core::str::from_utf8 ](v: &[u8]) -> (res: Result<&str, core::str::Utf8Error>)
    ensures
        res is Ok <==> valid_utf8(v@),
        res matches Ok(s) ==> s.spec_bytes() == v@,
;

/// The value of an ASCII hexadecimal digit, in either case.
pub open spec fn hex_digit(byte: u8) -> Option<u8> {
    if DIGIT_ZERO <= byte <= DIGIT_NINE {
        Some((byte - DIGIT_ZERO) as u8)
    } else if LOWER_A <= byte <= LOWER_F {
        Some((byte - LOWER_A + 10) as u8)
    } else if UPPER_A <= byte <= UPPER_F {
        Some((byte - UPPER_A + 10) as u8)
    } else {
        None
    }
}

/// Returns the value of `byte` read as a hexadecimal digit, or `None` when it
/// is not one of `0-9`, `a-f`, `A-F`.
pub fn hex_value(byte: u8) -> (value: Option<u8>)
    ensures
        value == hex_digit(byte),
        value matches Some(v) ==> v < 16,
{
    if DIGIT_ZERO <= byte && byte <= DIGIT_NINE {
        Some(byte - DIGIT_ZERO)
    } else if LOWER_A <= byte && byte <= LOWER_F {
        Some(byte - LOWER_A + 10)
    } else if UPPER_A <= byte && byte <= UPPER_F {
        Some(byte - UPPER_A + 10)
    } else {
        None
    }
}

/// Percent-decodes `path`: every `%` must be followed by two hexadecimal
/// digits, which stand for the byte they spell; all other bytes stand for
/// themselves. `None` when an escape is cut short or malformed.
pub open spec fn percent_decode(path: Seq<u8>) -> Option<Seq<u8>>
    decreases path.len(),
{
    if path.len() == 0 {
        Some(Seq::empty())
    } else if path[0] != PERCENT {
        match percent_decode(path.drop_first()) {
            Some(rest) => Some(seq![path[0]] + rest),
            None => None,
        }
    } else if path.len() < 3 {
        None
    } else {
        match (hex_digit(path[1]), hex_digit(path[2]), percent_decode(path.skip(3))) {
            (Some(high), Some(low), Some(rest)) => Some(seq![(high * 16 + low) as u8] + rest),
            _ => None,
        }
    }
}

/// Whether the `/`-separated segment that starts at `i` in `bytes` is exactly `..`.
pub open spec fn parent_segment_at(bytes: Seq<u8>, i: int) -> bool {
    &&& 0 <= i
    &&& i + 2 <= bytes.len()
    &&& bytes[i] == DOT
    &&& bytes[i + 1] == DOT
    &&& (i == 0 || bytes[i - 1] == SLASH)
    &&& (i + 2 == bytes.len() || bytes[i + 2] == SLASH)
}

/// Whether one of the `/`-separated segments of `bytes` is `..`.
pub open spec fn has_parent_segment(bytes: Seq<u8>) -> bool {
    exists|i: int| parent_segment_at(bytes, i)
}

/// A request path is safe when it percent-decodes to valid UTF-8 that holds
/// no NUL character and no `..` segment.
pub open spec fn is_safe_request_path(path: Seq<u8>) -> bool {
    match percent_decode(path) {
        Some(decoded) => {
            &&& valid_utf8(decoded)
            &&& !decoded.contains(0u8)
            &&& !has_parent_segment(decoded)
        },
        None => false,
    }
}

/// Decodes the percent escapes of `bytes`, or `None` when one is malformed.
pub fn decode_percent_escapes(bytes: &[u8]) -> (decoded: Option<Vec<u8>>)
    ensures
        decoded matches Some(d) ==> percent_decode(bytes@) == Some(d@),
        decoded is None ==> percent_decode(bytes@) is None,
{
    let mut decoded: Vec<u8> = Vec::with_capacity(bytes.len());
    let mut index: usize = 0;
    assert(bytes@.skip(0) == bytes@);
    while index < bytes.len()
        invariant
            index <= bytes.len(),
            percent_decode(bytes@) == match percent_decode(bytes@.skip(index as int)) {
                Some(rest) => Some(decoded@ + rest),
                None => None::<Seq<u8>>,
            },
        decreases bytes.len() - index,
    {
        let ghost tail = bytes@.skip(index as int);
        if bytes[index] != PERCENT {
            assert(tail.drop_first() == bytes@.skip(index + 1));
            proof {
                if let Some(rest) = percent_decode(tail.drop_first()) {
                    assert(decoded@ + (seq![bytes[index as int]] + rest) == decoded@.push(bytes[index as int]) + rest);
                }
            }
            decoded.push(bytes[index]);
            index += 1;
            continue;
        }
        if bytes.len() - index <= 2 {
            return None;
        }
        let high = match hex_value(bytes[index + 1]) {
            Some(high) => high,
            None => return None,
        };
        let low = match hex_value(bytes[index + 2]) {
            Some(low) => low,
            None => return None,
        };
        assert(tail.skip(3) == bytes@.skip(index + 3));
        proof {
            if let Some(rest) = percent_decode(tail.skip(3)) {
                assert(decoded@ + (seq![(high * 16 + low) as u8] + rest) == decoded@.push((high * 16 + low) as u8) + rest);
            }
        }
        decoded.push(high * 16 + low);
        index += 3;
    }
    assert(bytes@.skip(index as int) == Seq::<u8>::empty());
    assert(decoded@ + Seq::<u8>::empty() == decoded@);
    Some(decoded)
}

/// Whether some `/`-separated segment of `bytes` is `..`.
fn contains_parent_segment(bytes: &[u8]) -> (found: bool)
    ensures
        found == has_parent_segment(bytes@),
{
    let len = bytes.len();
    let mut i: usize = 0;
    while i < len
        invariant
            len == bytes@.len(),
            i <= len,
            forall|j: int| 0 <= j < i ==> !parent_segment_at(bytes@, j),
        decreases len - i,
    {
        if len - i >= 2 && bytes[i] == DOT && bytes[i + 1] == DOT && (i == 0 || bytes[i - 1]
            == SLASH) && (len - i == 2 || bytes[i + 2] == SLASH) {
            assert(parent_segment_at(bytes@, i as int));
            return true;
        }
        i += 1;
    }
    assert forall|j: int| !parent_segment_at(bytes@, j) by {
        if 0 <= j < len {
        }
    }
    false
}

/// Whether the first non-empty `/`-separated segment of `bytes` is `.`.
pub open spec fn leading_dot_segment(bytes: Seq<u8>) -> bool {
    exists|i: int|
        #![trigger bytes[i]]
        0 <= i < bytes.len() && bytes[i] == DOT && (i + 1 == bytes.len() || bytes[i + 1] == SLASH)
            && forall|j: int| 0 <= j < i ==> bytes[j] == SLASH
}

/// Whether the first non-empty `/`-separated segment of `bytes` is `.`.
pub fn has_leading_dot_segment(bytes: &[u8]) -> (found: bool)
    ensures
        found == leading_dot_segment(bytes@),
{
    let len = bytes.len();
    let mut i: usize = 0;
    while i < len && bytes[i] == SLASH
        invariant
            len == bytes@.len(),
            i <= len,
            forall|j: int| 0 <= j < i ==> bytes@[j] == SLASH,
        decreases len - i,
    {
        i += 1;
    }
    let found = i < len && bytes[i] == DOT && (len - i == 1 || bytes[i + 1] == SLASH);
    proof {
        if !found {
            assert forall|k: int|
                !(0 <= k < bytes@.len() && #[trigger] bytes@[k] == DOT && (k + 1 == bytes@.len()
                    || bytes@[k + 1] == SLASH) && forall|j: int| 0 <= j < k ==> bytes@[j] == SLASH) by {
                if 0 <= k < bytes@.len() && bytes@[k] == DOT && forall|j: int| 0 <= j < k ==> bytes@[j] == SLASH {
                    if k < i {
                        assert(bytes@[k] == SLASH);
                    } else if k > i {
                        assert(bytes@[i as int] == SLASH);
                    }
                }
            }
        }
    }
    found
}

/// What `actix_files::PathBufWrap::parse_path` makes of a request path, with
/// hidden files allowed: the relative path it resolves to, and the name of
/// that path's final component, if it has one. `None` when it refuses the
/// path.
pub uninterp spec fn parsed_request_path(path: Seq<char>) -> Option<(Seq<char>, Option<Seq<char>>)>;

/// `actix_files::PathBufWrap::parse_path(path, true)`: the relative path it
/// resolves `path` to, as text, and the name of its final component; `None`
/// when it refuses the path. The contract names the result and claims nothing
/// else of it. `parse_path` panics when the first component it keeps is `.`;
/// on a safe path (no `..` segment, no malformed escape) that happens only
/// when the first non-empty decoded segment is `.`, which `requires` leaves out.
#[verifier::external_body]
fn parse_with_actix(path: &str) -> (parsed: Option<(String, Option<String>)>)
    requires
        is_safe_request_path(path.spec_bytes()),
        !leading_dot_segment(percent_decode(path.spec_bytes()).unwrap()),
    ensures
        parsed_request_path(path@) == match parsed {
            Some((relative, final_segment)) => Some(
                (
                    relative@,
                    match final_segment {
                        Some(name) => Some(name@),
                        None => None,
                    },
                ),
            ),
            None => None,
        },
{
    match actix_files::PathBufWrap::parse_path(path, true) {
        Ok(parsed) => {
            let final_segment = match parsed.as_ref().file_name() {
                Some(name) => Some(name.to_string_lossy().into_owned()),
                None => None,
            };
            Some((parsed.as_ref().to_string_lossy().into_owned(), final_segment))
        },
        Err(_) => None,
    }
}

/// The outcome of screening and parsing a request path.
pub open spec fn parsed_if_safe(path: Seq<char>) -> Option<(Seq<char>, Option<Seq<char>>)> {
    let bytes = encode_utf8(path);
    if !is_safe_request_path(bytes) || leading_dot_segment(percent_decode(bytes).unwrap()) {
        None
    } else {
        parsed_request_path(path)
    }
}

/// Screens a request path and parses it into the relative path to look up
/// under the site root, with the name of its final component. `None` when the
/// path is not safe, when its first non-empty decoded segment is `.` (a path
/// the parser cannot take), or when the parser refuses it.
pub fn parse_request_path(path: &str) -> (parsed: Option<(String, Option<String>)>)
    ensures
        parsed_if_safe(path@) == match parsed {
            Some((relative, final_segment)) => Some(
                (
                    relative@,
                    match final_segment {
                        Some(name) => Some(name@),
                        None => None,
                    },
                ),
            ),
            None => None,
        },
{
    if !safe_request_path(path) {
        return None;
    }
    let decoded = match decode_percent_escapes(path.as_bytes()) {
        Some(decoded) => decoded,
        None => return None,
    };
    if has_leading_dot_segment(decoded.as_slice()) {
        return None;
    }
    parse_with_actix(path)
}

/// Whether `bytes` holds a zero byte.
fn contains_nul(bytes: &[u8]) -> (found: bool)
    ensures
        found == bytes@.contains(0u8),
{
    let mut i: usize = 0;
    while i < bytes.len()
        invariant
            i <= bytes.len(),
            forall|j: int| 0 <= j < i ==> bytes@[j] != 0u8,
        decreases bytes.len() - i,
    {
        if bytes[i] == 0 {
            assert(bytes@[i as int] == 0u8);
            return true;
        }
        i += 1;
    }
    false
}

/// Whether a request path may be resolved against the site root: after
/// percent decoding it must be valid UTF-8, hold no NUL character and have no
/// `..` segment. Malformed escapes make it unsafe.
pub fn safe_request_path(path: &str) -> (safe: bool)
    ensures
        safe == is_safe_request_path(path.spec_bytes()),
{
    let bytes = path.as_bytes();
    let decoded = match decode_percent_escapes(bytes) {
        Some(decoded) => decoded,
        None => return false,
    };
    let text = match core::str::from_utf8(decoded.as_slice()) {
        Ok(text) => text,
        Err(_) => return false,
    };
    let decoded_bytes = text.as_bytes();
    !contains_nul(decoded_bytes) && !contains_parent_segment(decoded_bytes)
}

/// Percent decoding never runs across a byte that is not a hexadecimal digit:
/// the decoding of `path` is the decoding of the part before such a byte
/// followed by the decoding of the part from it on.
proof fn lemma_decode_splits_at_plain_byte(path: Seq<u8>, i: int)
    requires
        percent_decode(path) is Some,
        0 <= i <= path.len(),
        i == path.len() || hex_digit(path[i]) is None,
    ensures
        percent_decode(path.take(i)) is Some,
        percent_decode(path.skip(i)) is Some,
        percent_decode(path) == Some(
            percent_decode(path.take(i)).unwrap() + percent_decode(path.skip(i)).unwrap(),
        ),
    decreases path.len(),
{
    if i == 0 {
        assert(path.take(0) == Seq::<u8>::empty());
        assert(path.skip(0) == path);
        assert(Seq::<u8>::empty() + percent_decode(path).unwrap() == percent_decode(path).unwrap());
    } else if path[0] != PERCENT {
        let tail = path.drop_first();
        lemma_decode_splits_at_plain_byte(tail, i - 1);
        let head = path.take(i);
        assert(head[0] == path[0]);
        assert(head.drop_first() == tail.take(i - 1));
        assert(path.skip(i) == tail.skip(i - 1));
        let da = percent_decode(tail.take(i - 1)).unwrap();
        let db = percent_decode(tail.skip(i - 1)).unwrap();
        assert(seq![path[0]] + (da + db) == (seq![path[0]] + da) + db);
    } else {
        let tail = path.skip(3);
        lemma_decode_splits_at_plain_byte(tail, i - 3);
        let head = path.take(i);
        assert(head[0] == PERCENT && head[1] == path[1] && head[2] == path[2]);
        assert(head.skip(3) == tail.take(i - 3));
        assert(path.skip(i) == tail.skip(i - 3));
        let byte = (hex_digit(path[1]).unwrap() * 16 + hex_digit(path[2]).unwrap()) as u8;
        let da = percent_decode(tail.take(i - 3)).unwrap();
        let db = percent_decode(tail.skip(i - 3)).unwrap();
        assert(seq![byte] + (da + db) == (seq![byte] + da) + db);
    }
}

/// A path without `%` decodes to itself.
pub proof fn lemma_plain_path_decodes_to_itself(path: Seq<u8>)
    requires
        !path.contains(PERCENT),
    ensures
        percent_decode(path) == Some(path),
    decreases path.len(),
{
    if path.len() > 0 {
        assert(path[0] != PERCENT);
        let tail = path.drop_first();
        assert forall|j: int| 0 <= j < tail.len() implies tail[j] != PERCENT by {
            assert(tail[j] == path[j + 1]);
        }
        lemma_plain_path_decodes_to_itself(tail);
        assert(seq![path[0]] + tail == path);
    }
}

/// Hexadecimal digits in escapes ignore case: `%2e` and `%2E` stand for the
/// same byte.
pub proof fn lemma_hex_digit_ignores_case(lower: u8)
    requires
        LOWER_A <= lower <= LOWER_F,
    ensures
        hex_digit(lower) == hex_digit((lower - 0x20) as u8),
        hex_digit(lower) is Some,
{
}

/// A path that starts with a byte other than `%` decodes to something that
/// starts with that byte.
proof fn lemma_decode_keeps_plain_first_byte(path: Seq<u8>)
    requires
        percent_decode(path) is Some,
        path.len() > 0,
        path[0] != PERCENT,
    ensures
        percent_decode(path).unwrap().len() > 0,
        percent_decode(path).unwrap()[0] == path[0],
{
}

/// A request path with a literal `..` segment is never safe: percent escapes
/// cannot hide the dots or the slashes around them.
pub proof fn lemma_literal_parent_segment_is_unsafe(path: Seq<u8>, i: int)
    requires
        parent_segment_at(path, i),
    ensures
        !is_safe_request_path(path),
{
    if percent_decode(path) is Some {
        lemma_decode_splits_at_plain_byte(path, i);
        let front = path.take(i);
        let back = path.skip(i);
        let df = percent_decode(front).unwrap();
        let db = percent_decode(back).unwrap();
        let decoded = percent_decode(path).unwrap();
        // The back part decodes to `..` followed by nothing or by `/`.
        let after = back.skip(2);
        assert(back.drop_first().drop_first() == after);
        let rest = back.drop_first();
        assert(back[0] == DOT && rest[0] == DOT);
        assert(percent_decode(rest) is Some);
        assert(rest.drop_first() == after);
        assert(percent_decode(after) is Some);
        let drest = percent_decode(rest).unwrap();
        let dafter = percent_decode(after).unwrap();
        assert(drest == seq![DOT] + dafter);
        assert(db == seq![DOT] + drest);
        if after.len() > 0 {
            assert(after[0] == SLASH);
            lemma_decode_keeps_plain_first_byte(after);
        } else {
            assert(dafter.len() == 0);
        }
        // The front part is empty or decodes to something ending in `/`.
        if i > 0 {
            assert(front[i - 1] == SLASH);
            lemma_decode_splits_at_plain_byte(front, i - 1);
            let last = front.skip(i - 1);
            assert(last == seq![SLASH]);
            assert(last.drop_first() == Seq::<u8>::empty());
            assert(percent_decode(last.drop_first()) == Some(Seq::<u8>::empty()));
            assert(percent_decode(last).unwrap() == seq![SLASH] + Seq::<u8>::empty());
            assert(df[df.len() - 1] == SLASH);
        } else {
            assert(front == Seq::<u8>::empty());
        }
        let k = df.len() as int;
        assert(decoded == df + db);
        assert(parent_segment_at(decoded, k));
    }
}

/// Each hexadecimal digit has its value, in either case, and no other byte
/// is a digit: `0`-`9` are 0-9, `a`-`f` and `A`-`F` are 10-15.
pub proof fn lemma_hex_digit_values(byte: u8)
    ensures
        0x30 <= byte <= 0x39 ==> hex_digit(byte) == Some((byte - 0x30) as u8),
        0x61 <= byte <= 0x66 ==> hex_digit(byte) == Some((byte - 0x61 + 10) as u8),
        0x41 <= byte <= 0x46 ==> hex_digit(byte) == Some((byte - 0x41 + 10) as u8),
        !(0x30 <= byte <= 0x39 || 0x61 <= byte <= 0x66 || 0x41 <= byte <= 0x46) ==> hex_digit(
            byte,
        ) is None,
{
}

/// An escape `%` followed by two hexadecimal digits, of either case, decodes
/// to the single byte they spell, high digit first.
pub proof fn lemma_escape_decodes_to_its_byte(high: u8, low: u8)
    requires
        hex_digit(high) is Some,
        hex_digit(low) is Some,
    ensures
        percent_decode(seq![0x25u8, high, low]) == Some(
            seq![(16 * hex_digit(high).unwrap() + hex_digit(low).unwrap()) as u8],
        ),
{
    let esc = seq![0x25u8, high, low];
    assert(esc[0] == 0x25u8 && esc[1] == high && esc[2] == low);
    assert(esc.skip(3) == Seq::<u8>::empty());
    assert(percent_decode(esc.skip(3)) == Some(Seq::<u8>::empty()));
    assert(seq![(16 * hex_digit(high).unwrap() + hex_digit(low).unwrap()) as u8] + Seq::<u8>::empty()
        == seq![(16 * hex_digit(high).unwrap() + hex_digit(low).unwrap()) as u8]);
}

/// An escape that is cut short, or whose digits are not both hexadecimal,
/// makes the whole path undecodable, whatever follows it.
pub proof fn lemma_bad_escape_is_refused(first: u8, second: u8, rest: Seq<u8>)
    requires
        hex_digit(first) is None || hex_digit(second) is None,
    ensures
        percent_decode(seq![0x25u8]) is None,
        percent_decode(seq![0x25u8, first]) is None,
        percent_decode(seq![0x25u8, first, second] + rest) is None,
{
    let path = seq![0x25u8, first, second] + rest;
    assert(path[0] == 0x25u8 && path[1] == first && path[2] == second);
}

/// A byte other than `%` decodes to itself.
pub proof fn lemma_plain_byte_decodes_to_itself(byte: u8)
    requires
        byte != 0x25,
    ensures
        percent_decode(seq![byte]) == Some(seq![byte]),
{
    assert(seq![byte].drop_first() == Seq::<u8>::empty());
    assert(seq![byte][0] == byte);
    assert(percent_decode(seq![byte].drop_first()) == Some(Seq::<u8>::empty()));
    assert(seq![byte] + Seq::<u8>::empty() == seq![byte]);
}

/// Decoding a path that starts with a decodable part is decoding that part
/// and then decoding the rest.
pub proof fn lemma_decode_concat(front: Seq<u8>, back: Seq<u8>)
    requires
        percent_decode(front) is Some,
    ensures
        percent_decode(front + back) == match percent_decode(back) {
            Some(db) => Some(percent_decode(front).unwrap() + db),
            None => None::<Seq<u8>>,
        },
    decreases front.len(),
{
    let path = front + back;
    if front.len() == 0 {
        assert(path == back);
        if let Some(db) = percent_decode(back) {
            assert(Seq::<u8>::empty() + db == db);
        }
    } else if front[0] != PERCENT {
        let tail = front.drop_first();
        lemma_decode_concat(tail, back);
        assert(path[0] == front[0]);
        assert(path.drop_first() == tail + back);
        if let Some(db) = percent_decode(back) {
            let dt = percent_decode(tail).unwrap();
            assert(seq![front[0]] + (dt + db) == (seq![front[0]] + dt) + db);
        }
    } else {
        let tail = front.skip(3);
        lemma_decode_concat(tail, back);
        assert(path[0] == front[0] && path[1] == front[1] && path[2] == front[2]);
        assert(path.skip(3) == tail + back);
        if let Some(db) = percent_decode(back) {
            let byte = (hex_digit(front[1]).unwrap() * 16 + hex_digit(front[2]).unwrap()) as u8;
            let dt = percent_decode(tail).unwrap();
            assert(seq![byte] + (dt + db) == (seq![byte] + dt) + db);
        }
    }
}

/// Bytes below `0x80` are valid UTF-8.
proof fn lemma_ascii_bytes_are_utf8(bytes: Seq<u8>)
    requires
        forall|i: int| 0 <= i < bytes.len() ==> bytes[i] < 0x80,
    ensures
        valid_utf8(bytes),
{
    assert(bytes.subrange(0, 0) == Seq::<u8>::empty());
    assert(valid_utf8(Seq::<u8>::empty()));
    vstd::utf8::partial_valid_utf8_extend_ascii_block(bytes, 0, bytes.len() as int);
    assert(bytes.subrange(0, bytes.len() as int) == bytes);
}

/// An ASCII path without `%`, without NUL, and none of whose `/`-separated
/// segments is `..`, is safe.
pub proof fn lemma_plain_ascii_path_is_safe(path: Seq<u8>)
    requires
        forall|i: int| 0 <= i < path.len() ==> path[i] < 0x80,
        forall|i: int| 0 <= i < path.len() ==> path[i] != 0x25 && path[i] != 0,
        forall|i: int|
            0 <= i && i + 2 <= path.len() && #[trigger] path[i] == 0x2e && path[i + 1] == 0x2e ==> !((i == 0
                || path[i - 1] == 0x2f) && (i + 2 == path.len() || path[i + 2] == 0x2f)),
    ensures
        is_safe_request_path(path),
{
    lemma_plain_path_decodes_to_itself(path);
    lemma_ascii_bytes_are_utf8(path);
}

/// A request path is handed to the parser exactly when it is safe and its
/// first non-empty decoded segment is not `.`; the outcome is then the
/// parser's, unchanged.
pub proof fn lemma_safe_paths_go_to_the_parser(path: Seq<char>)
    ensures
        is_safe_request_path(encode_utf8(path)) && !leading_dot_segment(
            percent_decode(encode_utf8(path)).unwrap(),
        ) ==> parsed_if_safe(path) == parsed_request_path(path),
        !is_safe_request_path(encode_utf8(path)) ==> parsed_if_safe(path) is None,
        is_safe_request_path(encode_utf8(path)) && leading_dot_segment(
            percent_decode(encode_utf8(path)).unwrap(),
        ) ==> parsed_if_safe(path) is None,
{
}

/// The first non-empty segment is `.` exactly when the bytes are some
/// slashes, then `.`, then nothing or a slash.
pub proof fn lemma_leading_dot_segment_shape(slashes: nat, rest: Seq<u8>)
    ensures
        leading_dot_segment(Seq::new(slashes, |i: int| 0x2fu8) + seq![0x2eu8]),
        leading_dot_segment(Seq::new(slashes, |i: int| 0x2fu8) + seq![0x2eu8, 0x2fu8] + rest),
        !leading_dot_segment(Seq::new(slashes, |i: int| 0x2fu8) + seq![0x2eu8, 0x2eu8] + rest),
        !leading_dot_segment(Seq::new(slashes, |i: int| 0x2fu8) + seq![0x61u8] + rest),
{
    let pre = Seq::new(slashes, |i: int| 0x2fu8);
    let a = pre + seq![0x2eu8];
    assert(a[slashes as int] == 0x2eu8);
    let b = pre + seq![0x2eu8, 0x2fu8] + rest;
    assert(b[slashes as int] == 0x2eu8 && b[slashes + 1int] == 0x2fu8);
    let c = pre + seq![0x2eu8, 0x2eu8] + rest;
    assert(c[slashes as int] == 0x2eu8 && c[slashes + 1int] == 0x2eu8);
    if leading_dot_segment(c) {
        let i = choose|i: int|
            0 <= i < c.len() && #[trigger] c[i] == DOT && (i + 1 == c.len() || c[i + 1] == SLASH) && forall|
                j: int,
            | 0 <= j < i ==> c[j] == SLASH;
        if i < slashes {
            assert(c[i] == 0x2fu8);
        } else if i > slashes {
            assert(c[slashes as int] == SLASH);
        }
    }
    let d = pre + seq![0x61u8] + rest;
    assert(d[slashes as int] == 0x61u8);
    if leading_dot_segment(d) {
        let i = choose|i: int|
            0 <= i < d.len() && #[trigger] d[i] == DOT && (i + 1 == d.len() || d[i + 1] == SLASH) && forall|
                j: int,
            | 0 <= j < i ==> d[j] == SLASH;
        if i < slashes {
            assert(d[i] == 0x2fu8);
        } else if i > slashes {
            assert(d[slashes as int] == SLASH);
        }
    }
}

} // verus!
