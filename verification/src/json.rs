//! Just enough JSON to read the string fields out of Moblin's device hello.
//!
//! The grammar is stated as spec functions over the UTF-8 bytes of the text,
//! each taking a position and giving back where it stopped and what it read.

use crate::text::{char_from_u32, char_of, push_char, same_text, utf8_str};
use vstd::prelude::*;
use vstd::slice::slice_subrange;
use vstd::string::{StringExecFns, StringSliceAdditionalSpecFns};
use vstd::utf8::*;

verus! {

broadcast use vstd::slice::group_slice_axioms;

/// A key and its value, as characters.
pub type FieldView = (Seq<char>, Seq<char>);

pub open spec fn is_ws(c: u8) -> bool {
    c == 0x20 || c == 0x09 || c == 0x0a || c == 0x0d
}

/// Where the whitespace that starts at `i` ends.
pub open spec fn ws_end(b: Seq<u8>, i: int) -> int
    decreases b.len() - i,
{
    if 0 <= i < b.len() && is_ws(b[i]) {
        ws_end(b, i + 1)
    } else {
        i
    }
}

/// The value of a hexadecimal digit, as `char::to_digit(16)` gives it.
pub open spec fn hex_digit(c: u8) -> Option<u16> {
    if 0x30 <= c <= 0x39 {
        Some((c - 0x30) as u16)
    } else if 0x61 <= c <= 0x66 {
        Some((c - 0x61 + 10) as u16)
    } else if 0x41 <= c <= 0x46 {
        Some((c - 0x41 + 10) as u16)
    } else {
        None
    }
}

/// Four hexadecimal digits at `i`.
pub open spec fn hex4(b: Seq<u8>, i: int) -> Option<u16> {
    if 0 <= i && i + 4 <= b.len() && hex_digit(b[i]) is Some && hex_digit(b[i + 1]) is Some
        && hex_digit(b[i + 2]) is Some && hex_digit(b[i + 3]) is Some {
        Some(
            (hex_digit(b[i])->0 * 4096 + hex_digit(b[i + 1])->0 * 256 + hex_digit(b[i + 2])->0
                * 16 + hex_digit(b[i + 3])->0) as u16,
        )
    } else {
        None
    }
}

/// The code point a surrogate pair stands for.
pub open spec fn surrogate_pair(high: u16, low: u16) -> u32 {
    (0x10000 + (high - 0xd800) * 1024 + (low - 0xdc00)) as u32
}

/// The escape `\u` followed by the digits at `i`, and a second `\u` escape
/// where the first is the high half of a surrogate pair.
pub open spec fn unicode_escape(b: Seq<u8>, i: int) -> Option<(int, char)> {
    match hex4(b, i) {
        None => None,
        Some(high) => if !(0xd800 <= high && high < 0xdc00) {
            match char_of(high as u32) {
                Some(c) => Some((i + 4, c)),
                None => None,
            }
        } else if i + 6 <= b.len() && b[i + 4] == 0x5c && b[i + 5] == 0x75 {
            match hex4(b, i + 6) {
                Some(low) => if 0xdc00 <= low && low < 0xe000 {
                    match char_of(surrogate_pair(high, low)) {
                        Some(c) => Some((i + 10, c)),
                        None => None,
                    }
                } else {
                    None
                },
                None => None,
            }
        } else {
            None
        },
    }
}

/// The escape whose letter is at `i`, the backslash being right before it.
pub open spec fn escape(b: Seq<u8>, i: int) -> Option<(int, char)> {
    if !(0 <= i < b.len()) {
        None
    } else {
        let c = b[i];
        if c == 0x22 {
            Some((i + 1, '"'))
        } else if c == 0x5c {
            Some((i + 1, '\\'))
        } else if c == 0x2f {
            Some((i + 1, '/'))
        } else if c == 0x62 {
            Some((i + 1, '\u{8}'))
        } else if c == 0x66 {
            Some((i + 1, '\u{c}'))
        } else if c == 0x6e {
            Some((i + 1, '\n'))
        } else if c == 0x72 {
            Some((i + 1, '\r'))
        } else if c == 0x74 {
            Some((i + 1, '\t'))
        } else if c == 0x75 {
            unicode_escape(b, i + 1)
        } else {
            None
        }
    }
}

/// How many bytes the UTF-8 sequence that `c` leads takes.
pub open spec fn sequence_len(c: u8) -> int {
    if 0xc0 <= c <= 0xdf {
        2
    } else if 0xe0 <= c <= 0xef {
        3
    } else {
        4
    }
}

/// The characters of the UTF-8 sequence that starts at `i`.
pub open spec fn sequence(b: Seq<u8>, i: int) -> Option<(int, Seq<char>)> {
    let end = i + sequence_len(b[i]);
    if 0 <= i && end <= b.len() && valid_utf8(b.subrange(i, end)) {
        Some((end, decode_utf8(b.subrange(i, end))))
    } else {
        None
    }
}

/// The rest of a string from `i` up to and past its closing quote.
pub open spec fn string_body(b: Seq<u8>, i: int) -> Option<(int, Seq<char>)>
    decreases b.len() - i,
{
    if !(0 <= i < b.len()) {
        None
    } else {
        let c = b[i];
        if c == 0x22 {
            Some((i + 1, Seq::empty()))
        } else if c == 0x5c {
            match escape(b, i + 1) {
                None => None,
                Some((j, e)) => {
                    proof {
                        lemma_escape_advances(b, i + 1);
                    }
                    match string_body(b, j) {
                        Some((k, rest)) => Some((k, seq![e] + rest)),
                        None => None,
                    }
                },
            }
        } else if c < 0x20 {
            None
        } else if c < 0x80 {
            match string_body(b, i + 1) {
                Some((k, rest)) => Some((k, seq![c as char] + rest)),
                None => None,
            }
        } else {
            match sequence(b, i) {
                None => None,
                Some((j, s)) => match string_body(b, j) {
                    Some((k, rest)) => Some((k, s + rest)),
                    None => None,
                },
            }
        }
    }
}

/// A string that starts with its opening quote at `i`.
pub open spec fn string(b: Seq<u8>, i: int) -> Option<(int, Seq<char>)> {
    if 0 <= i < b.len() && b[i] == 0x22 {
        string_body(b, i + 1)
    } else {
        None
    }
}

pub open spec fn is_open(c: u8) -> bool {
    c == 0x7b || c == 0x5b
}

pub open spec fn is_close(c: u8) -> bool {
    c == 0x7d || c == 0x5d
}

/// Whether `c` ends a value that is neither a string nor nested.
pub open spec fn ends_scalar(c: u8) -> bool {
    c == 0x2c || is_close(c) || is_ws(c)
}

/// Where the run of bytes that starts at `i` and ends no value ends.
pub open spec fn scalar_end(b: Seq<u8>, i: int) -> int
    decreases b.len() - i,
{
    if 0 <= i < b.len() && !ends_scalar(b[i]) {
        scalar_end(b, i + 1)
    } else {
        i
    }
}

/// The rest of a nested object or array from `i`, `depth` levels deep,
/// up to and past the bracket that closes it.
pub open spec fn nested(b: Seq<u8>, i: int, depth: nat) -> Option<int>
    decreases b.len() - i,
{
    if !(0 <= i < b.len()) {
        None
    } else {
        let c = b[i];
        if c == 0x22 {
            match string_body(b, i + 1) {
                Some((j, _)) => {
                    proof {
                        lemma_string_body_advances(b, i + 1);
                    }
                    nested(b, j, depth)
                },
                None => None,
            }
        } else if is_open(c) {
            nested(b, i + 1, depth + 1)
        } else if is_close(c) {
            if depth <= 1 {
                Some(i + 1)
            } else {
                nested(b, i + 1, (depth - 1) as nat)
            }
        } else {
            nested(b, i + 1, depth)
        }
    }
}

/// A value that is not a string, starting at `i`.
pub open spec fn skip_value(b: Seq<u8>, i: int) -> Option<int> {
    if !(0 <= i < b.len()) {
        None
    } else if is_open(b[i]) {
        nested(b, i + 1, 1)
    } else if scalar_end(b, i) > i {
        Some(scalar_end(b, i))
    } else {
        None
    }
}

/// The members of an object from `i`, up to and past its closing brace, and
/// the ones among them whose values are strings.
pub open spec fn members(b: Seq<u8>, i: int) -> Option<(int, Seq<FieldView>)>
    decreases b.len() - i,
{
    let p = ws_end(b, i);
    match string(b, p) {
        None => None,
        Some((k1, key)) => {
            let p2 = ws_end(b, k1);
            if !(0 <= p2 < b.len() && b[p2] == 0x3a) {
                None
            } else {
                let p3 = ws_end(b, p2 + 1);
                let value: Option<(int, Seq<FieldView>)> = if 0 <= p3 < b.len() && b[p3] == 0x22 {
                    match string(b, p3) {
                        Some((k, v)) => Some((k, seq![(key, v)])),
                        None => None,
                    }
                } else {
                    match skip_value(b, p3) {
                        Some(k) => Some((k, Seq::empty())),
                        None => None,
                    }
                };
                match value {
                    None => None,
                    Some((k4, entry)) => {
                        let p5 = ws_end(b, k4);
                        if !(0 <= p5 < b.len()) {
                            None
                        } else if b[p5] == 0x2c {
                            proof {
                                lemma_ws_end(b, i);
                                lemma_ws_end(b, k1);
                                lemma_ws_end(b, p2 + 1);
                                lemma_ws_end(b, k4);
                                lemma_string_advances(b, p);
                                lemma_string_advances(b, p3);
                                lemma_skip_value_advances(b, p3);
                            }
                            match members(b, p5 + 1) {
                                Some((e, rest)) => Some((e, entry + rest)),
                                None => None,
                            }
                        } else if b[p5] == 0x7d {
                            Some((p5 + 1, entry))
                        } else {
                            None
                        }
                    },
                }
            }
        },
    }
}

/// An object at `i`, after any whitespace, and its top level string fields.
pub open spec fn object(b: Seq<u8>, i: int) -> Option<(int, Seq<FieldView>)> {
    let p = ws_end(b, i);
    if !(0 <= p < b.len() && b[p] == 0x7b) {
        None
    } else {
        let q = ws_end(b, p + 1);
        if 0 <= q < b.len() && b[q] == 0x7d {
            Some((q + 1, Seq::empty()))
        } else {
            members(b, q)
        }
    }
}

/// The top level string fields of the JSON object that is all of `b`, save
/// whitespace around it; `None` when `b` is not such an object.
pub open spec fn spec_string_fields(b: Seq<u8>) -> Option<Seq<FieldView>> {
    match object(b, 0) {
        Some((j, fields)) => if ws_end(b, j) >= b.len() {
            Some(fields)
        } else {
            None
        },
        None => None,
    }
}

/// The value of the first field named `name`, or nothing.
pub open spec fn spec_field(fields: Seq<FieldView>, name: Seq<char>) -> Seq<char>
    decreases fields.len(),
{
    if fields.len() == 0 {
        Seq::empty()
    } else if fields[0].0 == name {
        fields[0].1
    } else {
        spec_field(fields.drop_first(), name)
    }
}

/// The fields as characters.
pub open spec fn fields_view(fields: Seq<(String, String)>) -> Seq<FieldView> {
    fields.map_values(|f: (String, String)| (f.0@, f.1@))
}

pub proof fn lemma_ws_end(b: Seq<u8>, i: int)
    ensures
        ws_end(b, i) >= i,
        0 <= i <= b.len() ==> ws_end(b, i) <= b.len(),
        ws_end(b, ws_end(b, i)) == ws_end(b, i),
    decreases b.len() - i,
{
    if 0 <= i < b.len() && is_ws(b[i]) {
        lemma_ws_end(b, i + 1);
    }
}

pub proof fn lemma_scalar_end(b: Seq<u8>, i: int)
    ensures
        scalar_end(b, i) >= i,
        0 <= i <= b.len() ==> scalar_end(b, i) <= b.len(),
    decreases b.len() - i,
{
    if 0 <= i < b.len() && !ends_scalar(b[i]) {
        lemma_scalar_end(b, i + 1);
    }
}

pub proof fn lemma_escape_advances(b: Seq<u8>, i: int)
    ensures
        escape(b, i) matches Some((j, _)) ==> i < j <= b.len(),
{
}

pub proof fn lemma_string_body_advances(b: Seq<u8>, i: int)
    ensures
        string_body(b, i) matches Some((j, _)) ==> i < j <= b.len(),
    decreases b.len() - i,
{
    if 0 <= i < b.len() {
        let c = b[i];
        if c == 0x5c {
            lemma_escape_advances(b, i + 1);
            if let Some((j, _)) = escape(b, i + 1) {
                lemma_string_body_advances(b, j);
            }
        } else if c == 0x22 {
        } else if c < 0x20 {
        } else if c < 0x80 {
            lemma_string_body_advances(b, i + 1);
        } else if let Some((j, _)) = sequence(b, i) {
            lemma_string_body_advances(b, j);
        }
    }
}

pub proof fn lemma_string_advances(b: Seq<u8>, i: int)
    ensures
        string(b, i) matches Some((j, _)) ==> i < j <= b.len(),
{
    lemma_string_body_advances(b, i + 1);
}

pub proof fn lemma_nested_advances(b: Seq<u8>, i: int, depth: nat)
    ensures
        nested(b, i, depth) matches Some(j) ==> i < j <= b.len(),
    decreases b.len() - i,
{
    if 0 <= i < b.len() {
        let c = b[i];
        if c == 0x22 {
            lemma_string_body_advances(b, i + 1);
            if let Some((j, _)) = string_body(b, i + 1) {
                lemma_nested_advances(b, j, depth);
            }
        } else if is_open(c) {
            lemma_nested_advances(b, i + 1, depth + 1);
        } else if is_close(c) {
            if depth > 1 {
                lemma_nested_advances(b, i + 1, (depth - 1) as nat);
            }
        } else {
            lemma_nested_advances(b, i + 1, depth);
        }
    }
}

pub proof fn lemma_skip_value_advances(b: Seq<u8>, i: int)
    ensures
        skip_value(b, i) matches Some(j) ==> i < j <= b.len(),
{
    if 0 <= i < b.len() {
        lemma_nested_advances(b, i + 1, 1);
        lemma_scalar_end(b, i);
    }
}


/// Reads the top level string fields of a JSON object. Nested objects, arrays
/// and non-string values are skipped, since the device hello has none.
pub fn string_fields(json: &str) -> (r: Option<Vec<(String, String)>>)
    ensures
        match spec_string_fields(json.spec_bytes()) {
            Some(fields) => r is Some && fields_view(r->0@) == fields,
            None => r is None,
        },
{
    let mut parser = Parser { bytes: json.as_bytes(), position: 0 };
    let fields = parser.object()?;
    parser.skip_whitespace();
    if parser.at_end() {
        Some(fields)
    } else {
        None
    }
}

/// The value of the first field named `name`, or an empty string when there
/// is none.
pub fn field(fields: &[(String, String)], name: &str) -> (r: String)
    ensures
        r@ == spec_field(fields_view(fields@), name@),
{
    let ghost all = fields_view(fields@);
    let mut i: usize = 0;
    assert(all.skip(0) =~= all);
    while i < fields.len()
        invariant
            i <= fields.len(),
            all == fields_view(fields@),
            spec_field(all, name@) == spec_field(all.skip(i as int), name@),
        decreases fields.len() - i,
    {
        let ghost rest = all.skip(i as int);
        if same_text(fields[i].0.as_str(), name) {
            assert(rest[0] == all[i as int]);
            return fields[i].1.clone();
        }
        assert(rest.drop_first() =~= all.skip(i + 1));
        i = i + 1;
    }
    String::new()
}

/// Whether a character stands in a JSON string as it is, with no escape.
pub open spec fn is_plain_char(c: char) -> bool {
    c != '"' && c != '\\' && c as u32 >= 0x20
}

pub open spec fn is_plain(s: Seq<char>) -> bool {
    forall|k: int| 0 <= k < s.len() ==> is_plain_char(#[trigger] s[k])
}

/// A string in quotes, its characters written as they are.
pub open spec fn quoted(s: Seq<char>) -> Seq<u8> {
    seq![0x22u8] + encode_utf8(s) + seq![0x22u8]
}

pub open spec fn member_text(f: FieldView) -> Seq<u8> {
    quoted(f.0) + seq![0x3au8] + quoted(f.1)
}

/// The members of an object, separated by commas, and its closing brace.
pub open spec fn members_text(fields: Seq<FieldView>) -> Seq<u8>
    decreases fields.len(),
{
    if fields.len() == 0 {
        seq![0x7du8]
    } else if fields.len() == 1 {
        member_text(fields[0]) + seq![0x7du8]
    } else {
        member_text(fields[0]) + seq![0x2cu8] + members_text(fields.drop_first())
    }
}

/// An object written out with the given string fields, in order.
pub open spec fn object_text(fields: Seq<FieldView>) -> Seq<u8> {
    seq![0x7bu8] + members_text(fields)
}

pub open spec fn holds_at(b: Seq<u8>, i: int, x: Seq<u8>) -> bool {
    0 <= i && i + x.len() <= b.len() && b.subrange(i, i + x.len()) == x
}

proof fn lemma_holds_at_index(b: Seq<u8>, i: int, x: Seq<u8>, k: int)
    requires
        holds_at(b, i, x),
        0 <= k < x.len(),
    ensures
        b[i + k] == x[k],
{
    assert(b.subrange(i, i + x.len())[k] == b[i + k]);
}

proof fn lemma_holds_at_split(b: Seq<u8>, i: int, x: Seq<u8>, y: Seq<u8>)
    requires
        holds_at(b, i, x + y),
    ensures
        holds_at(b, i, x),
        holds_at(b, i + x.len(), y),
{
    let whole = b.subrange(i, i + (x + y).len());
    assert(whole == x + y);
    assert(b.subrange(i, i + x.len()) =~= whole.subrange(0, x.len() as int));
    assert(whole.subrange(0, x.len() as int) =~= x);
    assert(b.subrange(i + x.len(), i + x.len() + y.len()) =~= whole.subrange(
        x.len() as int,
        (x + y).len() as int,
    ));
    assert(whole.subrange(x.len() as int, (x + y).len() as int) =~= y);
}

proof fn lemma_leading_byte(c: char)
    ensures
        encode_scalar(c as u32).len() >= 1,
        (c as u32) < 0x80 ==> encode_scalar(c as u32) == seq![(c as u32) as u8],
        (c as u32) >= 0x80 ==> encode_scalar(c as u32)[0] >= 0xc0 && sequence_len(
            encode_scalar(c as u32)[0],
        ) == encode_scalar(c as u32).len(),
{
    let u = c as u32;
    char_is_scalar(c);
    if has_width_1_encoding(u) {
        assert(u <= 0x7f ==> u & 0x7f == u) by (bit_vector);
    } else if has_width_2_encoding(u) {
        assert(0xC0 <= (0xC0 | ((u >> 6) & 0x1F) as u8) <= 0xdf) by (bit_vector);
    } else if has_width_3_encoding(u) {
        assert(0xE0 <= (0xE0 | ((u >> 12) & 0x0F) as u8) <= 0xef) by (bit_vector);
    } else {
        assert(0xF0 <= (0xF0 | ((u >> 18) & 0x7) as u8)) by (bit_vector);
    }
}

proof fn lemma_plain_string_body(b: Seq<u8>, i: int, s: Seq<char>)
    requires
        holds_at(b, i, encode_utf8(s) + seq![0x22u8]),
        is_plain(s),
    ensures
        string_body(b, i) == Some((i + encode_utf8(s).len() + 1, s)),
    decreases s.len(),
{
    if s.len() == 0 {
        lemma_holds_at_index(b, i, encode_utf8(s) + seq![0x22u8], 0);
    } else {
        let c = s[0];
        let rest = s.drop_first();
        char_is_scalar(c);
        let e = encode_scalar(c as u32);
        assert(encode_utf8(s) == e + encode_utf8(rest));
        assert(encode_utf8(s) + seq![0x22u8] =~= e + (encode_utf8(rest) + seq![0x22u8]));
        lemma_holds_at_split(b, i, e, encode_utf8(rest) + seq![0x22u8]);
        assert(is_plain(rest)) by {
            assert forall|k: int| 0 <= k < rest.len() implies is_plain_char(#[trigger] rest[k]) by {
                assert(rest[k] == s[k + 1]);
            }
        }
        lemma_plain_string_body(b, i + e.len(), rest);
        lemma_leading_byte(c);
        lemma_holds_at_index(b, i, e, 0);
        assert(is_plain_char(s[0]));
        let u = c as u32;
        if u < 0x80 {
            assert(b[i] == u as u8);
            char_u32_cast(c, u);
            assert((b[i] as char) == c);
            assert(seq![c] + rest =~= s);
        } else {
            assert(b.subrange(i, i + e.len()) == e);
            assert(encode_utf8(seq![c]) =~= e) by {
                assert(seq![c].drop_first() =~= Seq::<char>::empty());
                assert(encode_utf8(Seq::<char>::empty()) =~= Seq::<u8>::empty());
                assert(encode_utf8(seq![c]) == e + encode_utf8(seq![c].drop_first()));
            }
            encode_utf8_valid_utf8(seq![c]);
            encode_utf8_decode_utf8(seq![c]);
            assert(sequence(b, i) == Some((i + e.len(), seq![c])));
            assert(seq![c] + rest =~= s);
        }
    }
}

proof fn lemma_plain_string(b: Seq<u8>, i: int, s: Seq<char>)
    requires
        holds_at(b, i, quoted(s)),
        is_plain(s),
    ensures
        string(b, i) == Some((i + quoted(s).len(), s)),
{
    assert(quoted(s) =~= seq![0x22u8] + (encode_utf8(s) + seq![0x22u8]));
    lemma_holds_at_split(b, i, seq![0x22u8], encode_utf8(s) + seq![0x22u8]);
    lemma_holds_at_index(b, i, seq![0x22u8], 0);
    lemma_plain_string_body(b, i + 1, s);
}

pub open spec fn all_plain(fields: Seq<FieldView>) -> bool {
    forall|k: int| 0 <= k < fields.len() ==> is_plain(#[trigger] fields[k].0) && is_plain(fields[k].1)
}

/// The first member of a run of members reads as its key and value, and
/// leaves off where what follows it starts.
proof fn lemma_first_member(b: Seq<u8>, i: int, f: FieldView, tail: Seq<u8>)
    requires
        is_plain(f.0),
        is_plain(f.1),
        tail.len() >= 1,
        tail[0] == 0x7du8 || tail[0] == 0x2cu8,
        holds_at(b, i, quoted(f.0) + (seq![0x3au8] + (quoted(f.1) + tail))),
    ensures
        ({
            let k1 = i + quoted(f.0).len();
            let k4 = k1 + 1 + quoted(f.1).len();
            &&& ws_end(b, i) == i
            &&& string(b, i) == Some((k1, f.0))
            &&& ws_end(b, k1) == k1
            &&& 0 <= k1 < b.len() && b[k1] == 0x3a
            &&& ws_end(b, k1 + 1) == k1 + 1
            &&& 0 <= k1 + 1 < b.len() && b[k1 + 1] == 0x22
            &&& string(b, k1 + 1) == Some((k4, f.1))
            &&& ws_end(b, k4) == k4
            &&& holds_at(b, k4, tail)
            &&& 0 <= k4 < b.len() && b[k4] == tail[0]
        }),
{
    lemma_holds_at_split(b, i, quoted(f.0), seq![0x3au8] + (quoted(f.1) + tail));
    let k1 = i + quoted(f.0).len();
    lemma_holds_at_split(b, k1, seq![0x3au8], quoted(f.1) + tail);
    lemma_holds_at_split(b, k1 + 1, quoted(f.1), tail);
    let k4 = k1 + 1 + quoted(f.1).len();
    lemma_holds_at_index(b, i, quoted(f.0), 0);
    lemma_holds_at_index(b, k1, seq![0x3au8], 0);
    lemma_holds_at_index(b, k1 + 1, quoted(f.1), 0);
    lemma_holds_at_index(b, k4, tail, 0);
    lemma_plain_string(b, i, f.0);
    lemma_plain_string(b, k1 + 1, f.1);
    assert(ws_end(b, i) == i);
    assert(ws_end(b, k1) == k1);
    assert(ws_end(b, k1 + 1) == k1 + 1);
    assert(ws_end(b, k4) == k4);
}

#[verifier::spinoff_prover]
proof fn lemma_members_text(b: Seq<u8>, i: int, fields: Seq<FieldView>)
    requires
        fields.len() >= 1,
        all_plain(fields),
        holds_at(b, i, members_text(fields)),
    ensures
        members(b, i) == Some((i + members_text(fields).len(), fields)),
    decreases fields.len(),
{
    let f = fields[0];
    assert(is_plain(fields[0].0) && is_plain(fields[0].1));
    let tail = if fields.len() == 1 {
        seq![0x7du8]
    } else {
        seq![0x2cu8] + members_text(fields.drop_first())
    };
    assert(members_text(fields) =~= quoted(f.0) + (seq![0x3au8] + (quoted(f.1) + tail)));
    lemma_first_member(b, i, f, tail);
    let k1 = i + quoted(f.0).len();
    let k4 = k1 + 1 + quoted(f.1).len();
    if fields.len() == 1 {
        assert(seq![(f.0, f.1)] =~= fields);
    } else {
        let rest = fields.drop_first();
        lemma_holds_at_split(b, k4, seq![0x2cu8], members_text(rest));
        assert(all_plain(rest)) by {
            assert forall|k: int| 0 <= k < rest.len() implies is_plain(#[trigger] rest[k].0)
                && is_plain(rest[k].1) by {
                assert(rest[k] == fields[k + 1]);
            }
        }
        lemma_members_text(b, k4 + 1, rest);
        assert(seq![(f.0, f.1)] + rest =~= fields);
    }
}

proof fn lemma_ws_skipped(b: Seq<u8>, i: int, j: int)
    requires
        0 <= i <= j <= b.len(),
        forall|k: int| i <= k < j ==> is_ws(#[trigger] b[k]),
    ensures
        ws_end(b, i) == ws_end(b, j),
    decreases j - i,
{
    if i < j {
        lemma_ws_skipped(b, i + 1, j);
    }
}

/// An object written out with plain string fields, standing at `n` in `b`,
/// reads as those fields and ends where its text does.
proof fn lemma_object_at(b: Seq<u8>, n: int, fields: Seq<FieldView>)
    requires
        all_plain(fields),
        holds_at(b, n, object_text(fields)),
    ensures
        object(b, n) == Some((n + object_text(fields).len(), fields)),
{
    let t = object_text(fields);
    lemma_holds_at_split(b, n, seq![0x7bu8], members_text(fields));
    lemma_holds_at_index(b, n, t, 0);
    assert(b[n] == 0x7b);
    assert(ws_end(b, n) == n);
    if fields.len() == 0 {
        lemma_holds_at_index(b, n + 1, members_text(fields), 0);
        assert(ws_end(b, n + 1) == n + 1);
    } else {
        lemma_members_text(b, n + 1, fields);
        assert(members_text(fields)[0] == 0x22);
        lemma_holds_at_index(b, n + 1, members_text(fields), 0);
        assert(ws_end(b, n + 1) == n + 1);
    }
}

/// JSON whitespace is space, tab, line feed and carriage return, and any
/// run of it before and after an object changes nothing of what it reads
/// as: a pretty printed hello, or one ending in a newline, reads as the
/// same fields as the same object written tight.
pub proof fn lemma_whitespace_around_is_ignored(fields: Seq<FieldView>, before: Seq<u8>, after: Seq<u8>)
    requires
        all_plain(fields),
        forall|k: int|
            0 <= k < before.len() ==> (#[trigger] before[k] == 0x20u8 || before[k] == 0x09u8 || before[k] == 0x0au8
                || before[k] == 0x0du8),
        forall|k: int|
            0 <= k < after.len() ==> (#[trigger] after[k] == 0x20u8 || after[k] == 0x09u8 || after[k] == 0x0au8
                || after[k] == 0x0du8),
    ensures
        spec_string_fields(before + object_text(fields) + after) == Some(fields),
{
    let t = object_text(fields);
    let b = before + t + after;
    let n = before.len() as int;
    let e = n + t.len();
    assert(holds_at(b, n, t)) by {
        assert(b.subrange(n, e) =~= t);
    }
    assert forall|k: int| 0 <= k < n implies is_ws(#[trigger] b[k]) by {
        assert(b[k] == before[k]);
    }
    lemma_ws_skipped(b, 0, n);
    lemma_object_at(b, n, fields);
    assert(object(b, 0) == object(b, n)) by {
        lemma_holds_at_index(b, n, t, 0);
        assert(ws_end(b, n) == n);
    }
    assert forall|k: int| e <= k < b.len() implies is_ws(#[trigger] b[k]) by {
        assert(b[k] == after[k - e]);
    }
    lemma_ws_skipped(b, e, b.len() as int);
    assert(ws_end(b, b.len() as int) == b.len());
}

/// A JSON object written out with string fields whose characters need no
/// escape reads back as exactly those fields, in order.
pub proof fn lemma_object_text_reads_back(fields: Seq<FieldView>)
    requires
        all_plain(fields),
    ensures
        spec_string_fields(object_text(fields)) == Some(fields),
{
    let b = object_text(fields);
    assert(holds_at(b, 1, members_text(fields))) by {
        assert(b.subrange(1, b.len() as int) =~= members_text(fields));
    }
    assert(b[0] == 0x7b);
    assert(ws_end(b, 0) == 0);
    if fields.len() == 0 {
        assert(b =~= seq![0x7bu8, 0x7du8]);
        assert(ws_end(b, 1) == 1);
        assert(ws_end(b, 2) == 2);
    } else {
        lemma_members_text(b, 1, fields);
        if fields.len() == 1 {
            assert(members_text(fields)[0] == 0x22);
        } else {
            assert(members_text(fields)[0] == 0x22);
        }
        lemma_holds_at_index(b, 1, members_text(fields), 0);
        assert(ws_end(b, 1) == 1);
        assert(ws_end(b, b.len() as int) == b.len());
    }
}

fn is_whitespace(c: u8) -> (r: bool)
    ensures
        r == is_ws(c),
{
    c == 0x20 || c == 0x09 || c == 0x0a || c == 0x0d
}

fn ends_value(c: u8) -> (r: bool)
    ensures
        r == ends_scalar(c),
{
    c == 0x2c || c == 0x7d || c == 0x5d || is_whitespace(c)
}

struct Parser<'a> {
    bytes: &'a [u8],
    position: usize,
}

impl<'a> Parser<'a> {
    spec fn wf(&self) -> bool {
        self.position <= self.bytes@.len()
    }

    fn at_end(&self) -> (r: bool)
        ensures
            r == (self.position >= self.bytes@.len()),
    {
        self.position >= self.bytes.len()
    }

    fn peek(&self) -> (r: Option<u8>)
        ensures
            r == (if self.position < self.bytes@.len() {
                Some(self.bytes@[self.position as int])
            } else {
                None
            }),
    {
        if self.position < self.bytes.len() {
            Some(self.bytes[self.position])
        } else {
            None
        }
    }

    fn next_is(&self, byte: u8) -> (r: bool)
        ensures
            r == (self.position < self.bytes@.len() && self.bytes@[self.position as int] == byte),
            r ==> self.position < usize::MAX,
    {
        self.position < self.bytes.len() && self.bytes[self.position] == byte
    }

    fn take(&mut self) -> (r: Option<u8>)
        requires
            old(self).wf(),
        ensures
            final(self).wf(),
            final(self).bytes == old(self).bytes,
            old(self).position < old(self).bytes@.len() ==> r == Some(
                old(self).bytes@[old(self).position as int],
            ) && final(self).position == old(self).position + 1,
            old(self).position >= old(self).bytes@.len() ==> r is None && final(self).position
                == old(self).position,
    {
        if self.position < self.bytes.len() {
            let byte = self.bytes[self.position];
            self.position = self.position + 1;
            Some(byte)
        } else {
            None
        }
    }

    fn expect(&mut self, byte: u8) -> (r: Option<()>)
        requires
            old(self).wf(),
        ensures
            final(self).wf(),
            final(self).bytes == old(self).bytes,
            r is Some <==> old(self).position < old(self).bytes@.len() && old(self).bytes@[old(self).position as int] == byte,
            r is Some ==> final(self).position == old(self).position + 1,
    {
        if self.take()? == byte {
            Some(())
        } else {
            None
        }
    }

    fn skip_whitespace(&mut self)
        requires
            old(self).wf(),
        ensures
            final(self).wf(),
            final(self).bytes == old(self).bytes,
            final(self).position == ws_end(old(self).bytes@, old(self).position as int),
    {
        let ghost start = self.position as int;
        while self.position < self.bytes.len() && is_whitespace(self.bytes[self.position])
            invariant
                self.wf(),
                self.bytes == old(self).bytes,
                start == old(self).position as int,
                ws_end(self.bytes@, start) == ws_end(self.bytes@, self.position as int),
            decreases self.bytes@.len() - self.position,
        {
            self.position = self.position + 1;
        }
    }

    fn hex_digit(byte: u8) -> (r: Option<u16>)
        ensures
            r == hex_digit(byte),
    {
        if 0x30 <= byte && byte <= 0x39 {
            Some((byte - 0x30) as u16)
        } else if 0x61 <= byte && byte <= 0x66 {
            Some((byte - 0x61 + 10) as u16)
        } else if 0x41 <= byte && byte <= 0x46 {
            Some((byte - 0x41 + 10) as u16)
        } else {
            None
        }
    }

    fn hex4(&mut self) -> (r: Option<u16>)
        requires
            old(self).wf(),
        ensures
            final(self).wf(),
            final(self).bytes == old(self).bytes,
            r == hex4(old(self).bytes@, old(self).position as int),
            r is Some ==> final(self).position == old(self).position + 4,
    {
        let ghost b = self.bytes@;
        let ghost start = self.position as int;
        let mut value: u16 = 0;
        let mut k: usize = 0;
        while k < 4
            invariant
                self.wf(),
                self.bytes == old(self).bytes,
                b == self.bytes@,
                k <= 4,
                k == 1 ==> value < 16,
                k == 2 ==> value < 256,
                k == 3 ==> value < 4096,
                start == old(self).position as int,
                0 <= start,
                start + k <= b.len(),
                self.position == start + k,
                forall|j: int| 0 <= j < k ==> hex_digit(#[trigger] b[start + j]) is Some,
                k == 0 ==> value == 0,
                k == 1 ==> value == hex_digit(b[start])->0,
                k == 2 ==> value == hex_digit(b[start])->0 * 16 + hex_digit(b[start + 1])->0,
                k == 3 ==> value == hex_digit(b[start])->0 * 256 + hex_digit(b[start + 1])->0 * 16
                    + hex_digit(b[start + 2])->0,
                k == 4 ==> value == hex_digit(b[start])->0 * 4096 + hex_digit(b[start + 1])->0
                    * 256 + hex_digit(b[start + 2])->0 * 16 + hex_digit(b[start + 3])->0,
            decreases 4 - k,
        {
            let byte = match self.take() {
                Some(byte) => byte,
                None => {
                    return None;
                },
            };
            let digit = match Self::hex_digit(byte) {
                Some(digit) => digit,
                None => {
                    assert(hex_digit(b[start + k]) is None);
                    return None;
                },
            };
            assert(hex_digit(b[start + k]) == Some(digit));
            value = value * 16 + digit;
            k = k + 1;
        }
        assert(hex_digit(b[start + 0]) is Some);
        assert(hex_digit(b[start + 1]) is Some);
        assert(hex_digit(b[start + 2]) is Some);
        assert(hex_digit(b[start + 3]) is Some);
        Some(value)
    }

    fn unicode_escape(&mut self) -> (r: Option<char>)
        requires
            old(self).wf(),
        ensures
            final(self).wf(),
            final(self).bytes == old(self).bytes,
            match unicode_escape(old(self).bytes@, old(self).position as int) {
                Some((j, c)) => r == Some(c) && final(self).position == j,
                None => r is None,
            },
    {
        let high = self.hex4()?;
        if !(0xd800 <= high && high < 0xdc00) {
            return char_from_u32(high as u32);
        }
        self.expect(0x5c)?;
        self.expect(0x75)?;
        let low = self.hex4()?;
        if !(0xdc00 <= low && low < 0xe000) {
            return None;
        }
        let code = 0x10000 + (high as u32 - 0xd800) * 1024 + (low as u32 - 0xdc00);
        char_from_u32(code)
    }

    fn escape(&mut self) -> (r: Option<char>)
        requires
            old(self).wf(),
        ensures
            final(self).wf(),
            final(self).bytes == old(self).bytes,
            match escape(old(self).bytes@, old(self).position as int) {
                Some((j, c)) => r == Some(c) && final(self).position == j,
                None => r is None,
            },
    {
        let c = match self.take()? {
            0x22 => '"',
            0x5c => '\\',
            0x2f => '/',
            0x62 => '\u{8}',
            0x66 => '\u{c}',
            0x6e => '\n',
            0x72 => '\r',
            0x74 => '\t',
            0x75 => {
                return self.unicode_escape();
            },
            _ => {
                return None;
            },
        };
        Some(c)
    }

    fn string(&mut self) -> (r: Option<String>)
        requires
            old(self).wf(),
        ensures
            final(self).wf(),
            final(self).bytes == old(self).bytes,
            match string(old(self).bytes@, old(self).position as int) {
                Some((j, s)) => r is Some && r->0@ == s && final(self).position == j,
                None => r is None,
            },
    {
        let ghost b = self.bytes@;
        self.expect(0x22)?;
        let ghost first = self.position as int;
        let mut value = String::new();
        assert(value@ + Seq::<char>::empty() =~= Seq::<char>::empty());
        loop
            invariant
                self.wf(),
                self.bytes == old(self).bytes,
                b == self.bytes@,
                b == old(self).bytes@,
                first == old(self).position + 1,
                string(b, old(self).position as int) == string_body(b, first),
                string_body(b, first) == match string_body(b, self.position as int) {
                    Some((k, rest)) => Some((k, value@ + rest)),
                    None => None,
                },
            decreases self.bytes@.len() - self.position,
        {
            let ghost at = self.position as int;
            let byte = self.take()?;
            if byte == 0x22 {
                assert(value@ + Seq::<char>::empty() =~= value@);
                return Some(value);
            } else if byte == 0x5c {
                let c = self.escape()?;
                let ghost old_value = value@;
                push_char(&mut value, c);
                proof {
                    if let Some((k, rest)) = string_body(b, self.position as int) {
                        assert(old_value + (seq![c] + rest) =~= value@ + rest);
                    }
                }
            } else if byte < 0x20 {
                return None;
            } else if byte < 0x80 {
                let ghost old_value = value@;
                push_char(&mut value, byte as char);
                proof {
                    if let Some((k, rest)) = string_body(b, self.position as int) {
                        assert(old_value + (seq![byte as char] + rest) =~= value@ + rest);
                    }
                }
            } else {
                let start = self.position - 1;
                let length: usize = if 0xc0 <= byte && byte <= 0xdf {
                    2
                } else if 0xe0 <= byte && byte <= 0xef {
                    3
                } else {
                    4
                };
                assert(length == sequence_len(byte));
                let end = match start.checked_add(length) {
                    Some(end) => end,
                    None => {
                        assert(b.len() == self.bytes.len());
                        assert(string_body(b, at) is None);
                        return None;
                    },
                };
                if end > self.bytes.len() {
                    return None;
                }
                let piece = slice_subrange(self.bytes, start, end);
                let text = utf8_str(piece)?;
                let ghost old_value = value@;
                value.append(text);
                self.position = end;
                proof {
                    if let Some((k, rest)) = string_body(b, self.position as int) {
                        assert(old_value + (text@ + rest) =~= value@ + rest);
                    }
                }
            }
        }
    }

    fn skip_nested(&mut self) -> (r: Option<()>)
        requires
            old(self).wf(),
            old(self).position < old(self).bytes@.len(),
            is_open(old(self).bytes@[old(self).position as int]),
        ensures
            final(self).wf(),
            final(self).bytes == old(self).bytes,
            match nested(old(self).bytes@, old(self).position + 1, 1) {
                Some(j) => r is Some && final(self).position == j,
                None => r is None,
            },
    {
        let ghost b = self.bytes@;
        let ghost start = self.position as int;
        let mut depth: usize = 0;
        loop
            invariant
                self.wf(),
                self.bytes == old(self).bytes,
                b == self.bytes@,
                b == old(self).bytes@,
                start == old(self).position as int,
                start < b.len(),
                is_open(b[start]),
                start <= self.position,
                depth <= self.position - start,
                depth == 0 ==> self.position == start,
                depth >= 1 ==> nested(b, start + 1, 1) == nested(
                    b,
                    self.position as int,
                    depth as nat,
                ),
            decreases self.bytes@.len() - self.position,
        {
            let ghost at = self.position as int;
            match self.take()? {
                0x22 => {
                    self.position = self.position - 1;
                    self.string()?;
                    proof {
                        lemma_string_advances(b, at);
                    }
                },
                0x7b | 0x5b => {
                    depth = depth + 1;
                },
                0x7d | 0x5d => {
                    depth = depth - 1;
                    if depth == 0 {
                        return Some(());
                    }
                },
                _ => {},
            }
        }
    }

    /// Skips a value that is not a string, leaving the position right after it.
    fn skip_value(&mut self) -> (r: Option<()>)
        requires
            old(self).wf(),
        ensures
            final(self).wf(),
            final(self).bytes == old(self).bytes,
            match skip_value(old(self).bytes@, old(self).position as int) {
                Some(j) => r is Some && final(self).position == j,
                None => r is None,
            },
    {
        let ghost b = self.bytes@;
        let next = self.peek()?;
        if next == 0x7b || next == 0x5b {
            self.skip_nested()
        } else {
            let start = self.position;
            while self.position < self.bytes.len() && !ends_value(self.bytes[self.position])
                invariant
                    self.wf(),
                    self.bytes == old(self).bytes,
                    b == self.bytes@,
                    b == old(self).bytes@,
                    start == old(self).position,
                    start < b.len(),
                    start <= self.position,
                    scalar_end(b, start as int) == scalar_end(b, self.position as int),
                decreases self.bytes@.len() - self.position,
            {
                self.position = self.position + 1;
            }
            if self.position > start {
                Some(())
            } else {
                None
            }
        }
    }

    fn object(&mut self) -> (r: Option<Vec<(String, String)>>)
        requires
            old(self).wf(),
        ensures
            final(self).wf(),
            final(self).bytes == old(self).bytes,
            match object(old(self).bytes@, old(self).position as int) {
                Some((j, fields)) => r is Some && fields_view(r->0@) == fields
                    && final(self).position == j,
                None => r is None,
            },
    {
        let ghost b = self.bytes@;
        let mut fields: Vec<(String, String)> = Vec::new();
        self.skip_whitespace();
        self.expect(0x7b)?;
        self.skip_whitespace();
        if self.next_is(0x7d) {
            self.position = self.position + 1;
            assert(fields_view(fields@) =~= Seq::<FieldView>::empty());
            return Some(fields);
        }
        let ghost target = members(b, self.position as int);
        assert(fields_view(fields@) =~= Seq::<FieldView>::empty());
        loop
            invariant
                self.wf(),
                self.bytes == old(self).bytes,
                b == self.bytes@,
                b == old(self).bytes@,
                object(b, old(self).position as int) == target,
                target == match members(b, self.position as int) {
                    Some((e, rest)) => Some((e, fields_view(fields@) + rest)),
                    None => None,
                },
            decreases self.bytes@.len() - self.position,
        {
            let ghost i = self.position as int;
            self.skip_whitespace();
            let ghost p = self.position as int;
            let key = self.string()?;
            let ghost k1 = self.position as int;
            proof {
                lemma_string_advances(b, p);
            }
            self.skip_whitespace();
            let ghost p2 = self.position as int;
            self.expect(0x3a)?;
            self.skip_whitespace();
            let ghost p3 = self.position as int;
            let ghost before = fields_view(fields@);
            if self.next_is(0x22) {
                let value = self.string()?;
                let ghost entry = (key@, value@);
                fields.push((key, value));
                assert(fields_view(fields@) =~= before + seq![entry]);
            } else {
                self.skip_value()?;
                assert(fields_view(fields@) =~= before + Seq::<FieldView>::empty());
            }
            proof {
                lemma_ws_end(b, p2 + 1);
                lemma_string_advances(b, p3);
                lemma_skip_value_advances(b, p3);
            }
            let ghost k4 = self.position as int;
            self.skip_whitespace();
            let ghost p5 = self.position as int;
            proof {
                lemma_ws_end(b, i);
                lemma_ws_end(b, k1);
                lemma_ws_end(b, k4);
            }
            match self.take()? {
                0x2c => {
                    proof {
                        if let Some((e, rest)) = members(b, self.position as int) {
                            assert(before + (fields_view(fields@).subrange(
                                before.len() as int,
                                fields_view(fields@).len() as int,
                            ) + rest) =~= fields_view(fields@) + rest);
                        }
                    }
                },
                0x7d => {
                    assert(fields_view(fields@) + Seq::<FieldView>::empty() =~= fields_view(fields@));
                    return Some(fields);
                },
                _ => {
                    return None;
                },
            }
        }
    }
}

} // verus!
