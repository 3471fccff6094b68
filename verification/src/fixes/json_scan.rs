//! A scanner for the members of the outermost object of a JSON text.
//!
//! A parser that builds a value collapses a key that occurs twice. The scanner
//! keeps every member apart and says where in the text its key and its value
//! stand, so that a repair can choose which of them to keep.

use std::ops::Range;
use vstd::prelude::*;
use vstd::string::*;
use vstd::utf8::*;
use crate::json::parsed;
use crate::text::{lemma_after_ascii, lemma_at_ascii, lemma_encode_concat, slice_bytes};

verus! {

broadcast use vstd::string::group_string_axioms;

/// Where one member of the outermost object stands, in byte offsets.
#[derive(Debug, PartialEq, Eq)]
pub struct KeySpan {
    /// The key with its quotes.
    pub key: Range<usize>,
    /// The value: a string with its quotes, a container with its brackets, or
    /// a literal.
    pub value: Range<usize>,
}

/// A [`KeySpan`], as contracts see it.
pub struct Span {
    pub key_start: int,
    pub key_end: int,
    pub value_start: int,
    pub value_end: int,
}

impl View for KeySpan {
    type V = Span;

    open spec fn view(&self) -> Span {
        Span {
            key_start: self.key.start as int,
            key_end: self.key.end as int,
            value_start: self.value.start as int,
            value_end: self.value.end as int,
        }
    }
}

/// The views of a list of spans.
pub open spec fn span_views(spans: Seq<KeySpan>) -> Seq<Span> {
    Seq::new(spans.len(), |i: int| spans[i]@)
}

/// JSON's whitespace.
pub open spec fn is_ws(c: u8) -> bool {
    c == 0x20 || c == 0x09 || c == 0x0a || c == 0x0d
}

/// A byte that ends a literal.
pub open spec fn is_delimiter(c: u8) -> bool {
    is_ws(c) || c == 0x2c || c == 0x7d || c == 0x5d
}

/// The first place at or after `i` that holds no whitespace.
pub open spec fn after_ws(b: Seq<u8>, i: int) -> int
    decreases b.len() - i,
{
    if 0 <= i < b.len() && is_ws(b[i]) {
        after_ws(b, i + 1)
    } else {
        i
    }
}

/// The place after the quote that closes a string whose text goes on at `j`. A
/// backslash takes the next byte with it; a control character ends nothing.
pub open spec fn string_end(b: Seq<u8>, j: int) -> Option<int>
    decreases b.len() + 1 - j,
{
    if j < 0 || j >= b.len() {
        None
    } else if b[j] == 0x5c {
        string_end(b, j + 2)
    } else if b[j] == 0x22 {
        Some(j + 1)
    } else if b[j] < 0x20 {
        None
    } else {
        string_end(b, j + 1)
    }
}

pub proof fn lemma_string_end(b: Seq<u8>, j: int)
    requires
        string_end(b, j) is Some,
    ensures
        0 <= j < string_end(b, j)->0 <= b.len(),
        b[string_end(b, j)->0 - 1] == 0x22,
    decreases b.len() + 1 - j,
{
    if b[j] == 0x5c {
        lemma_string_end(b, j + 2);
    } else if b[j] != 0x22 {
        lemma_string_end(b, j + 1);
    }
}

/// The place after the bracket that closes `depth` open containers, from `j`
/// on. Brackets inside strings do not count.
pub open spec fn container_end(b: Seq<u8>, j: int, depth: nat) -> Option<int>
    decreases b.len() - j,
{
    if j < 0 || j >= b.len() {
        None
    } else if b[j] == 0x22 {
        match string_end(b, j + 1) {
            None => None,
            Some(k) => if j < k <= b.len() {
                container_end(b, k, depth)
            } else {
                None
            },
        }
    } else if b[j] == 0x7b || b[j] == 0x5b {
        container_end(b, j + 1, depth + 1)
    } else if b[j] == 0x7d || b[j] == 0x5d {
        if depth <= 1 {
            Some(j + 1)
        } else {
            container_end(b, j + 1, (depth - 1) as nat)
        }
    } else {
        container_end(b, j + 1, depth)
    }
}

pub proof fn lemma_container_end(b: Seq<u8>, j: int, depth: nat)
    requires
        container_end(b, j, depth) is Some,
    ensures
        0 <= j < container_end(b, j, depth)->0 <= b.len(),
        b[container_end(b, j, depth)->0 - 1] == 0x7d || b[container_end(b, j, depth)->0 - 1] == 0x5d,
    decreases b.len() - j,
{
    if b[j] == 0x22 {
        lemma_container_end(b, string_end(b, j + 1)->0, depth);
    } else if b[j] == 0x7b || b[j] == 0x5b {
        lemma_container_end(b, j + 1, depth + 1);
    } else if b[j] == 0x7d || b[j] == 0x5d {
        if depth > 1 {
            lemma_container_end(b, j + 1, (depth - 1) as nat);
        }
    } else {
        lemma_container_end(b, j + 1, depth);
    }
}

/// The first place at or after `j` that holds a delimiter, or the end.
pub open spec fn literal_end(b: Seq<u8>, j: int) -> int
    decreases b.len() - j,
{
    if 0 <= j < b.len() && !is_delimiter(b[j]) {
        literal_end(b, j + 1)
    } else {
        j
    }
}

pub proof fn lemma_literal_end(b: Seq<u8>, j: int)
    requires
        0 <= j <= b.len(),
    ensures
        j <= literal_end(b, j) <= b.len(),
        literal_end(b, j) < b.len() ==> is_delimiter(b[literal_end(b, j)]),
    decreases b.len() - j,
{
    if j < b.len() && !is_delimiter(b[j]) {
        lemma_literal_end(b, j + 1);
    }
}

pub proof fn lemma_after_ws(b: Seq<u8>, i: int)
    requires
        0 <= i <= b.len(),
    ensures
        i <= after_ws(b, i) <= b.len(),
        i < after_ws(b, i) ==> is_ws(b[after_ws(b, i) - 1]),
    decreases b.len() - i,
{
    if i < b.len() && is_ws(b[i]) {
        lemma_after_ws(b, i + 1);
    }
}

/// The place after the value that starts at `i`. A literal holds at least one
/// byte.
pub open spec fn value_end(b: Seq<u8>, i: int) -> Option<int> {
    if i < 0 || i >= b.len() {
        None
    } else if b[i] == 0x22 {
        string_end(b, i + 1)
    } else if b[i] == 0x7b || b[i] == 0x5b {
        container_end(b, i + 1, 1)
    } else if literal_end(b, i) > i {
        Some(literal_end(b, i))
    } else {
        None
    }
}

/// The member whose key starts at `i`.
pub open spec fn member_at(b: Seq<u8>, i: int) -> Option<Span> {
    if i < 0 || i >= b.len() || b[i] != 0x22 {
        None
    } else {
        match string_end(b, i + 1) {
            None => None,
            Some(key_end) => {
                let colon = after_ws(b, key_end);
                if colon >= b.len() || b[colon] != 0x3a {
                    None
                } else {
                    let value_start = after_ws(b, colon + 1);
                    match value_end(b, value_start) {
                        None => None,
                        Some(end) => Some(
                            Span { key_start: i, key_end, value_start, value_end: end },
                        ),
                    }
                }
            },
        }
    }
}

pub proof fn lemma_member_at(b: Seq<u8>, i: int)
    requires
        member_at(b, i) is Some,
    ensures
        ({
            let m = member_at(b, i)->0;
            &&& i == m.key_start
            &&& 0 <= m.key_start
            &&& m.key_start + 2 <= m.key_end
            &&& m.key_end < m.value_start
            &&& m.value_start < m.value_end
            &&& m.value_end <= b.len()
            &&& b[m.key_start] == 0x22
            &&& b[m.key_end - 1] == 0x22
            &&& b[m.value_start - 1] < 0x80
            &&& m.value_end < b.len() ==> b[m.value_end] < 0x80 || b[m.value_end - 1] < 0x80
        }),
{
    let key_end = string_end(b, i + 1)->0;
    lemma_string_end(b, i + 1);
    lemma_after_ws(b, key_end);
    let colon = after_ws(b, key_end);
    lemma_after_ws(b, colon + 1);
    let v = after_ws(b, colon + 1);
    if b[v] == 0x22 {
        lemma_string_end(b, v + 1);
    } else if b[v] == 0x7b || b[v] == 0x5b {
        lemma_container_end(b, v + 1, 1);
    } else {
        lemma_literal_end(b, v);
    }
}

/// The members from the one whose key starts at `i` to the closing brace.
pub open spec fn members_from(b: Seq<u8>, i: int) -> Option<Seq<Span>>
    decreases b.len() - i via members_from_decreases
{
    match member_at(b, i) {
        None => None,
        Some(m) => {
            let k = after_ws(b, m.value_end);
            if k >= b.len() {
                None
            } else if b[k] == 0x2c {
                match members_from(b, after_ws(b, k + 1)) {
                    None => None,
                    Some(rest) => Some(seq![m] + rest),
                }
            } else if b[k] == 0x7d {
                Some(seq![m])
            } else {
                None
            }
        },
    }
}

#[via_fn]
proof fn members_from_decreases(b: Seq<u8>, i: int) {
    if member_at(b, i) is Some {
        lemma_member_at(b, i);
        let m = member_at(b, i)->0;
        lemma_after_ws(b, m.value_end);
        let k = after_ws(b, m.value_end);
        if k < b.len() {
            lemma_after_ws(b, k + 1);
        }
    }
}

/// The members of the outermost object of a text, in order, where the text
/// begins with the shape of an object. What follows the object is not looked
/// at.
pub open spec fn object_members(b: Seq<u8>) -> Option<Seq<Span>> {
    let i = after_ws(b, 0);
    if i >= b.len() || b[i] != 0x7b {
        None
    } else {
        let j = after_ws(b, i + 1);
        if j >= b.len() {
            None
        } else if b[j] == 0x7d {
            Some(Seq::empty())
        } else {
            members_from(b, j)
        }
    }
}

/// The text of the value of a member.
pub open spec fn value_text(text: Seq<char>, m: Span) -> Seq<char> {
    decode_utf8(encode_utf8(text).subrange(m.value_start, m.value_end))
}

/// What `serde_json::from_str` reads from a text as a string.
pub uninterp spec fn decoded_string(text: Seq<char>) -> Option<Seq<char>>;

/// Whether a text begins with a JSON object whose keys `serde_json` can decode.
pub uninterp spec fn begins_with_object(text: Seq<char>) -> bool;

/// Whether the key of a member is `key`: byte for byte, or, where it holds an
/// escape, once decoded.
pub open spec fn key_is(b: Seq<u8>, m: Span, key: Seq<char>) -> bool {
    let inner = b.subrange(m.key_start + 1, m.key_end - 1);
    if inner.contains(0x5c) {
        decoded_string(decode_utf8(b.subrange(m.key_start, m.key_end))) == Some(key)
    } else {
        inner == encode_utf8(key)
    }
}

/// The test whether the key of a member is `key`.
pub open spec fn named(b: Seq<u8>, key: Seq<char>) -> spec_fn(Span) -> bool {
    |m: Span| key_is(b, m, key)
}

/// The members of the outermost object whose key is `key`, in order; none
/// where the text does not begin with the shape of an object.
pub open spec fn key_spans(text: Seq<char>, key: Seq<char>) -> Seq<Span> {
    let b = encode_utf8(text);
    match object_members(b) {
        None => Seq::empty(),
        Some(members) => members.filter(named(b, key)),
    }
}

/// `serde_json::from_str` into a `String`: decodes a quoted JSON string.
#[verifier::external_body]
fn serde_decode_string(text: &str) -> (decoded: Option<String>)
    ensures
        match decoded {
            Some(s) => decoded_string(text@) == Some(s@),
            None => decoded_string(text@) is None,
        },
{
    serde_json::from_str::<String>(text).ok()
}

/// Whether a text begins with an object for the parser, whatever follows it.
pub open spec fn begins_whatever_follows(text: Seq<char>) -> bool {
    forall|tail: Seq<char>| #[trigger] begins_with_object(text + tail)
}

/// Whether a text is read as an object.
pub open spec fn is_object_text(text: Seq<char>) -> bool {
    match parsed(text) {
        Ok(v) => v is Object,
        Err(_) => false,
    }
}

/// Whether a text begins with the shape of an object.
pub open spec fn has_object_shape(text: Seq<char>) -> bool {
    object_members(encode_utf8(text)) is Some
}

/// `serde::Deserialize` for a map of strings to ignored values, run on a
/// `serde_json::Deserializer`: whether a text begins with a JSON object whose
/// keys are strings that can be decoded. It stops after the object, so that
/// nothing that follows changes its answer; what it takes has the shape of an
/// object; and it takes every text that is read as an object as a whole.
#[verifier::external_body]
fn serde_begins_with_object(text: &str) -> (well_formed: bool)
    ensures
        well_formed == begins_with_object(text@),
        well_formed ==> begins_whatever_follows(text@),
        well_formed ==> has_object_shape(text@),
        is_object_text(text@) ==> well_formed,
{
    let mut stream = serde_json::Deserializer::from_str(text);
    let walked: Result<std::collections::BTreeMap<String, serde::de::IgnoredAny>, serde_json::Error> =
        serde::Deserialize::deserialize(&mut stream);
    walked.is_ok()
}

/// The first place at or after `i` that holds no whitespace.
pub fn skip_ws(b: &[u8], i: usize) -> (at: usize)
    requires
        i <= b@.len(),
    ensures
        at == after_ws(b@, i as int),
        i <= at <= b@.len(),
{
    let mut j: usize = i;
    while j < b.len() && (b[j] == 0x20 || b[j] == 0x09 || b[j] == 0x0a || b[j] == 0x0d)
        invariant
            i <= j <= b@.len(),
            after_ws(b@, i as int) == after_ws(b@, j as int),
        decreases b@.len() - j,
    {
        j += 1;
    }
    j
}

/// The place after the string that begins with the quote at `i`, if it ends.
fn scan_string(b: &[u8], i: usize) -> (end: Option<usize>)
    requires
        i < b@.len(),
    ensures
        match end {
            Some(e) => string_end(b@, i + 1) == Some(e as int),
            None => string_end(b@, i + 1) is None,
        },
{
    let n = b.len();
    let mut j: usize = i + 1;
    while j < n
        invariant
            n == b@.len(),
            j <= n,
            string_end(b@, i + 1) == string_end(b@, j as int),
        decreases b@.len() - j,
    {
        if b[j] == 0x5c {
            if n - j < 2 {
                assert(string_end(b@, j + 2) is None);
                return None;
            }
            j += 2;
        } else if b[j] == 0x22 {
            return Some(j + 1);
        } else if b[j] < 0x20 {
            return None;
        } else {
            j += 1;
        }
    }
    None
}

/// The place after the value at `i`, if it ends.
fn scan_value(b: &[u8], i: usize) -> (end: Option<usize>)
    ensures
        match end {
            Some(e) => value_end(b@, i as int) == Some(e as int),
            None => value_end(b@, i as int) is None,
        },
{
    if i >= b.len() {
        return None;
    }
    if b[i] == 0x22 {
        return scan_string(b, i);
    }
    if b[i] == 0x7b || b[i] == 0x5b {
        let mut depth: usize = 1;
        let mut j: usize = i + 1;
        while j < b.len()
            invariant
                1 <= depth <= j <= b@.len(),
                value_end(b@, i as int) == container_end(b@, j as int, depth as nat),
            decreases b@.len() - j,
        {
            if b[j] == 0x22 {
                match scan_string(b, j) {
                    None => {
                        return None;
                    },
                    Some(k) => {
                        proof {
                            lemma_string_end(b@, j + 1);
                        }
                        j = k;
                    },
                }
            } else if b[j] == 0x7b || b[j] == 0x5b {
                depth += 1;
                j += 1;
            } else if b[j] == 0x7d || b[j] == 0x5d {
                if depth == 1 {
                    return Some(j + 1);
                }
                depth -= 1;
                j += 1;
            } else {
                j += 1;
            }
        }
        return None;
    }
    let mut j: usize = i;
    while j < b.len() && !(b[j] == 0x2c || b[j] == 0x7d || b[j] == 0x5d || b[j] == 0x20 || b[j] == 0x09
        || b[j] == 0x0a || b[j] == 0x0d)
        invariant
            i <= j <= b@.len(),
            literal_end(b@, i as int) == literal_end(b@, j as int),
        decreases b@.len() - j,
    {
        j += 1;
    }
    if j > i {
        Some(j)
    } else {
        None
    }
}

/// Whether a part of a text holds a backslash.
fn holds_backslash(b: &[u8], from: usize, to: usize) -> (found: bool)
    requires
        from <= to <= b@.len(),
    ensures
        found == b@.subrange(from as int, to as int).contains(0x5c),
{
    let mut i: usize = from;
    while i < to
        invariant
            from <= i <= to <= b@.len(),
            forall|k: int| from <= k < i ==> b@[k] != 0x5c,
        decreases to - i,
    {
        if b[i] == 0x5c {
            proof {
                assert(b@.subrange(from as int, to as int)[i - from] == 0x5c);
            }
            return true;
        }
        i += 1;
    }
    proof {
        let part = b@.subrange(from as int, to as int);
        assert forall|k: int| 0 <= k < part.len() implies part[k] != 0x5c by {
            assert(part[k] == b@[from + k]);
        }
    }
    false
}

/// Whether a part of a text is, byte for byte, the text `key`.
fn part_is(b: &[u8], from: usize, to: usize, key: &str) -> (same: bool)
    requires
        from <= to <= b@.len(),
    ensures
        same == (b@.subrange(from as int, to as int) == encode_utf8(key@)),
{
    let k = key.as_bytes();
    let n = k.len();
    if to - from != n {
        return false;
    }
    let mut i: usize = 0;
    while i < n
        invariant
            from <= to <= b@.len(),
            to - from == n,
            k@ == encode_utf8(key@),
            n == k@.len(),
            i <= n,
            forall|j: int| 0 <= j < i ==> b@[from + j] == k@[j],
        decreases n - i,
    {
        if b[from + i] != k[i] {
            proof {
                assert(b@.subrange(from as int, to as int)[i as int] != k@[i as int]);
            }
            return false;
        }
        i += 1;
    }
    proof {
        assert(b@.subrange(from as int, to as int) =~= k@);
    }
    true
}

/// The offsets of a member are character boundaries of its text.
pub proof fn lemma_member_boundaries(text: Seq<char>, i: int)
    requires
        member_at(encode_utf8(text), i) is Some,
    ensures
        ({
            let b = encode_utf8(text);
            let m = member_at(b, i)->0;
            &&& is_char_boundary(b, m.key_start)
            &&& is_char_boundary(b, m.key_end)
            &&& is_char_boundary(b, m.value_start)
            &&& is_char_boundary(b, m.value_end)
        }),
{
    let b = encode_utf8(text);
    let m = member_at(b, i)->0;
    encode_utf8_valid_utf8(text);
    lemma_member_at(b, i);
    lemma_at_ascii(b, m.key_start);
    lemma_after_ascii(b, m.key_end - 1);
    lemma_after_ascii(b, m.value_start - 1);
    if m.value_end == b.len() {
        is_char_boundary_start_end_of_seq(b);
    } else if b[m.value_end] < 0x80 {
        lemma_at_ascii(b, m.value_end);
    } else {
        lemma_after_ascii(b, m.value_end - 1);
    }
}

/// Whether the key of the member at `i` is `key`.
fn member_named(json: &str, span: &KeySpan, key: &str) -> (named: bool)
    requires
        member_at(encode_utf8(json@), span.key.start as int) == Some(span@),
    ensures
        named == key_is(encode_utf8(json@), span@, key@),
{
    let b = json.as_bytes();
    proof {
        lemma_member_at(b@, span.key.start as int);
        lemma_member_boundaries(json@, span.key.start as int);
    }
    let from = span.key.start;
    let to = span.key.end;
    if holds_backslash(b, from + 1, to - 1) {
        match serde_decode_string(slice_bytes(json, from, to)) {
            Some(decoded) => crate::text::same_text(decoded.as_str(), key),
            None => false,
        }
    } else {
        part_is(b, from + 1, to - 1, key)
    }
}

/// The member whose key starts at `i`, if there is one.
fn scan_member(b: &[u8], i: usize) -> (member: Option<KeySpan>)
    requires
        i <= b@.len(),
    ensures
        match member {
            Some(m) => member_at(b@, i as int) == Some(m@),
            None => member_at(b@, i as int) is None,
        },
{
    if i >= b.len() || b[i] != 0x22 {
        return None;
    }
    let key_end = match scan_string(b, i) {
        None => {
            return None;
        },
        Some(e) => e,
    };
    proof {
        lemma_string_end(b@, i + 1);
    }
    let colon = skip_ws(b, key_end);
    if colon >= b.len() || b[colon] != 0x3a {
        return None;
    }
    let value_start = skip_ws(b, colon + 1);
    match scan_value(b, value_start) {
        None => None,
        Some(end) => Some(KeySpan { key: i..key_end, value: value_start..end }),
    }
}

/// The members named `key` of the outermost object, or `None` where the text
/// does not have the shape of one.
fn scan_spans(json: &str, key: &str) -> (found: Option<Vec<KeySpan>>)
    ensures
        match found {
            Some(spans) => object_members(encode_utf8(json@)) is Some && span_views(spans@) == key_spans(json@, key@),
            None => object_members(encode_utf8(json@)) is None,
        },
{
    let b = json.as_bytes();
    let start = skip_ws(b, 0);
    if start >= b.len() || b[start] != 0x7b {
        return None;
    }
    let mut i = skip_ws(b, start + 1);
    if i >= b.len() {
        return None;
    }
    let mut out: Vec<KeySpan> = Vec::new();
    let ghost wanted = named(b@, key@);
    if b[i] == 0x7d {
        proof {
            reveal(Seq::filter);
            assert(span_views(out@) =~= key_spans(json@, key@));
        }
        return Some(out);
    }
    let ghost mut seen: Seq<Span> = Seq::empty();
    proof {
        reveal(Seq::filter);
        assert(span_views(out@) =~= seen.filter(wanted));
        assert(members_from(b@, i as int) is Some ==> seen + members_from(b@, i as int)->0 =~= members_from(b@, i as int)->0);
    }
    loop
        invariant
            b@ == encode_utf8(json@),
            wanted == named(b@, key@),
            i <= b@.len(),
            object_members(b@) == match members_from(b@, i as int) {
                None => None,
                Some(rest) => Some(seen + rest),
            },
            span_views(out@) == seen.filter(wanted),
        decreases b@.len() - i,
    {
        let member = match scan_member(b, i) {
            None => {
                return None;
            },
            Some(m) => m,
        };
        proof {
            lemma_member_at(b@, i as int);
        }
        let end = member.value.end;
        let ghost m = member@;
        let ghost before = out@;
        let hit = member_named(json, &member, key);
        if hit {
            out.push(member);
        }
        proof {
            assert(seen.push(m).filter(wanted) == if wanted(m) { seen.filter(wanted).push(m) } else { seen.filter(wanted) }) by {
                reveal(Seq::filter);
                assert(seen.push(m).drop_last() =~= seen);
            }
            if hit {
                assert(span_views(out@) =~= span_views(before).push(m));
            }
            seen = seen.push(m);
        }
        let after = skip_ws(b, end);
        if after >= b.len() {
            return None;
        }
        if b[after] == 0x2c {
            let next = skip_ws(b, after + 1);
            proof {
                let rest = members_from(b@, next as int);
                if rest is Some {
                    assert(seen + rest->0 =~= seen.drop_last() + (seq![m] + rest->0));
                }
            }
            i = next;
        } else if b[after] == 0x7d {
            proof {
                assert(members_from(b@, i as int) == Some(seq![m]));
                assert(seen =~= seen.drop_last() + seq![m]);
                assert(object_members(b@) == Some(seen));
                assert(span_views(out@) == seen.filter(wanted));
            }
            return Some(out);
        } else {
            return None;
        }
    }
}

/// The places of every member of the outermost object whose key is `key`, in
/// order; none where the text does not have the shape of an object.
pub fn top_level_key_spans(json: &str, key: &str) -> (spans: Vec<KeySpan>)
    ensures
        span_views(spans@) == key_spans(json@, key@),
{
    match scan_spans(json, key) {
        Some(spans) => spans,
        None => {
            let none: Vec<KeySpan> = Vec::new();
            proof {
                assert(span_views(none@) =~= key_spans(json@, key@));
            }
            none
        },
    }
}

/// How many members of the outermost object have the key `key`, each counted
/// as often as it occurs; 0 where the text does not begin with a JSON object.
/// What follows the object is not looked at. Of a text that is read as an object
/// the count is that of the spans.
pub fn top_level_key_count(json: &str, key: &str) -> (count: usize)
    ensures
        count == key_count(json@, key@),
        is_object_text(json@) ==> begins_with_object(json@),
        begins_with_object(json@) ==> {
            &&& has_object_shape(json@)
            &&& count == key_spans(json@, key@).len()
            &&& forall|tail: Seq<char>| #[trigger] key_count(json@ + tail, key@) == count
            &&& forall|tail: Seq<char>| #[trigger] key_spans(json@ + tail, key@) == key_spans(json@, key@)
        },
        !has_object_shape(json@) ==> count == 0,
{
    if serde_begins_with_object(json) {
        let spans = top_level_key_spans(json, key);
        proof {
            assert(span_views(spans@).len() == spans@.len());
            assert forall|tail: Seq<char>| #[trigger] key_spans(json@ + tail, key@) == key_spans(json@, key@) by {
                law_what_follows_changes_no_spans(json@, tail, key@);
            }
            assert forall|tail: Seq<char>| #[trigger] key_count(json@ + tail, key@) == spans@.len() by {
                assert(begins_with_object(json@ + tail));
                assert(key_spans(json@ + tail, key@) == key_spans(json@, key@));
            }
        }
        spans.len()
    } else {
        0
    }
}

/// How many members of the outermost object have the key `key`.
pub open spec fn key_count(json: Seq<char>, key: Seq<char>) -> nat {
    if begins_with_object(json) {
        key_spans(json, key).len()
    } else {
        0
    }
}

/// Every member that `members_from` lists stands where it says.
proof fn lemma_members_from(b: Seq<u8>, i: int, k: int)
    requires
        members_from(b, i) is Some,
        0 <= k < members_from(b, i)->0.len(),
    ensures
        ({
            let m = members_from(b, i)->0[k];
            &&& i <= m.key_start
            &&& member_at(b, m.key_start) == Some(m)
        }),
    decreases b.len() - i, k,
{
    lemma_member_at(b, i);
    let m = member_at(b, i)->0;
    lemma_after_ws(b, m.value_end);
    let c = after_ws(b, m.value_end);
    if b[c] == 0x2c && k > 0 {
        lemma_after_ws(b, c + 1);
        lemma_members_from(b, after_ws(b, c + 1), k - 1);
        let rest = members_from(b, after_ws(b, c + 1))->0;
        assert((seq![m] + rest)[k] == rest[k - 1]);
    }
}

/// Every member found stands where its span says, and the span begins and
/// ends at character boundaries of the text: it can be cut out.
pub proof fn lemma_key_spans(text: Seq<char>, key: Seq<char>, k: int)
    requires
        0 <= k < key_spans(text, key).len(),
    ensures
        ({
            let b = encode_utf8(text);
            let m = key_spans(text, key)[k];
            &&& object_members(b)->0.contains(m)
            &&& member_at(b, m.key_start) == Some(m)
            &&& key_is(b, m, key)
            &&& 0 <= m.key_start < m.key_end < m.value_start < m.value_end <= b.len()
            &&& is_char_boundary(b, m.key_start)
            &&& is_char_boundary(b, m.key_end)
            &&& is_char_boundary(b, m.value_start)
            &&& is_char_boundary(b, m.value_end)
        }),
{
    let b = encode_utf8(text);
    let all = object_members(b)->0;
    let wanted = named(b, key);
    all.lemma_filter_pred(wanted, k);
    let m = key_spans(text, key)[k];
    assert(all.filter(wanted).contains(m));
    all.lemma_filter_contains_rev(wanted, m);
    let at = choose|j: int| 0 <= j < all.len() && all[j] == m;
    let first = after_ws(b, after_ws(b, 0) + 1);
    lemma_members_from(b, first, at);
    lemma_member_at(b, m.key_start);
    lemma_member_boundaries(text, m.key_start);
}

/// The count and the spans agree on every text that begins with a JSON object,
/// and on every text that does not have the shape of one: there are none.
/// Elsewhere the count is 0.
pub proof fn law_count_agrees_with_spans(text: Seq<char>, key: Seq<char>)
    ensures
        begins_with_object(text) ==> key_count(text, key) == key_spans(text, key).len(),
        !begins_with_object(text) ==> key_count(text, key) == 0,
        !has_object_shape(text) ==> key_spans(text, key) == Seq::<Span>::empty() && key_count(text, key) == 0,
{
}

proof fn lemma_after_ws_tail(b: Seq<u8>, t: Seq<u8>, i: int)
    requires
        0 <= i,
        after_ws(b, i) < b.len(),
    ensures
        after_ws(b + t, i) == after_ws(b, i),
    decreases b.len() - i,
{
    if i < b.len() {
        assert((b + t)[i] == b[i]);
        if is_ws(b[i]) {
            lemma_after_ws_tail(b, t, i + 1);
        }
    }
}

proof fn lemma_string_end_tail(b: Seq<u8>, t: Seq<u8>, j: int)
    requires
        string_end(b, j) is Some,
    ensures
        string_end(b + t, j) == string_end(b, j),
    decreases b.len() + 1 - j,
{
    assert((b + t)[j] == b[j]);
    if b[j] == 0x5c {
        lemma_string_end_tail(b, t, j + 2);
    } else if b[j] != 0x22 {
        lemma_string_end_tail(b, t, j + 1);
    }
}

proof fn lemma_container_end_tail(b: Seq<u8>, t: Seq<u8>, j: int, depth: nat)
    requires
        container_end(b, j, depth) is Some,
    ensures
        container_end(b + t, j, depth) == container_end(b, j, depth),
    decreases b.len() - j,
{
    assert((b + t)[j] == b[j]);
    if b[j] == 0x22 {
        lemma_string_end(b, j + 1);
        lemma_string_end_tail(b, t, j + 1);
        lemma_container_end_tail(b, t, string_end(b, j + 1)->0, depth);
    } else if b[j] == 0x7b || b[j] == 0x5b {
        lemma_container_end_tail(b, t, j + 1, depth + 1);
    } else if b[j] == 0x7d || b[j] == 0x5d {
        if depth > 1 {
            lemma_container_end_tail(b, t, j + 1, (depth - 1) as nat);
        }
    } else {
        lemma_container_end_tail(b, t, j + 1, depth);
    }
}

proof fn lemma_literal_end_tail(b: Seq<u8>, t: Seq<u8>, j: int)
    requires
        0 <= j,
        literal_end(b, j) < b.len(),
    ensures
        literal_end(b + t, j) == literal_end(b, j),
    decreases b.len() - j,
{
    if j < b.len() {
        assert((b + t)[j] == b[j]);
        if !is_delimiter(b[j]) {
            lemma_literal_end_tail(b, t, j + 1);
        }
    }
}

/// A member that ends before the end of a text stays what it is, whatever is
/// appended.
proof fn lemma_member_tail(b: Seq<u8>, t: Seq<u8>, i: int)
    requires
        member_at(b, i) is Some,
        member_at(b, i)->0.value_end < b.len(),
    ensures
        member_at(b + t, i) == member_at(b, i),
{
    let m = member_at(b, i)->0;
    lemma_member_at(b, i);
    assert((b + t)[i] == b[i]);
    lemma_string_end(b, i + 1);
    lemma_string_end_tail(b, t, i + 1);
    let colon = after_ws(b, m.key_end);
    lemma_after_ws(b, m.key_end);
    lemma_after_ws_tail(b, t, m.key_end);
    assert((b + t)[colon] == b[colon]);
    lemma_after_ws_tail(b, t, colon + 1);
    let v = m.value_start;
    assert((b + t)[v] == b[v]);
    if b[v] == 0x22 {
        lemma_string_end_tail(b, t, v + 1);
    } else if b[v] == 0x7b || b[v] == 0x5b {
        lemma_container_end_tail(b, t, v + 1, 1);
    } else {
        lemma_literal_end_tail(b, t, v);
    }
}

proof fn lemma_members_tail(b: Seq<u8>, t: Seq<u8>, i: int)
    requires
        members_from(b, i) is Some,
    ensures
        members_from(b + t, i) == members_from(b, i),
    decreases b.len() - i,
{
    lemma_member_at(b, i);
    let m = member_at(b, i)->0;
    lemma_after_ws(b, m.value_end);
    let k = after_ws(b, m.value_end);
    lemma_member_tail(b, t, i);
    lemma_after_ws_tail(b, t, m.value_end);
    assert((b + t)[k] == b[k]);
    if b[k] == 0x2c {
        let next = after_ws(b, k + 1);
        lemma_after_ws(b, k + 1);
        assert(members_from(b, next) is Some);
        lemma_member_at(b, next);
        lemma_after_ws_tail(b, t, k + 1);
        lemma_members_tail(b, t, next);
    }
}

/// Nothing that is appended to a text that has the shape of an object changes
/// the members of the object.
proof fn lemma_object_tail(b: Seq<u8>, t: Seq<u8>)
    requires
        object_members(b) is Some,
    ensures
        object_members(b + t) == object_members(b),
{
    let i = after_ws(b, 0);
    lemma_after_ws(b, 0);
    lemma_after_ws_tail(b, t, 0);
    assert((b + t)[i] == b[i]);
    let j = after_ws(b, i + 1);
    lemma_after_ws(b, i + 1);
    lemma_after_ws_tail(b, t, i + 1);
    assert((b + t)[j] == b[j]);
    if b[j] != 0x7d {
        lemma_members_tail(b, t, j);
    }
}

proof fn lemma_filter_same(spans: Seq<Span>, p: spec_fn(Span) -> bool, q: spec_fn(Span) -> bool)
    requires
        forall|k: int| 0 <= k < spans.len() ==> p(#[trigger] spans[k]) == q(spans[k]),
    ensures
        spans.filter(p) == spans.filter(q),
    decreases spans.len(),
{
    reveal(Seq::filter);
    if spans.len() > 0 {
        lemma_filter_same(spans.drop_last(), p, q);
        assert(p(spans[spans.len() - 1]) == q(spans[spans.len() - 1]));
    }
}

/// The members of an object stand where they say, within the text.
proof fn lemma_object_member(b: Seq<u8>, k: int)
    requires
        object_members(b) is Some,
        0 <= k < object_members(b)->0.len(),
    ensures
        ({
            let m = object_members(b)->0[k];
            &&& member_at(b, m.key_start) == Some(m)
            &&& 0 <= m.key_start
            &&& m.key_start + 2 <= m.key_end
            &&& m.key_end < m.value_start < m.value_end <= b.len()
        }),
{
    let first = after_ws(b, after_ws(b, 0) + 1);
    lemma_members_from(b, first, k);
    lemma_member_at(b, object_members(b)->0[k].key_start);
}

/// What follows an object is not looked at: nothing that is appended to a text
/// that has the shape of an object changes the spans.
pub proof fn law_what_follows_changes_no_spans(text: Seq<char>, tail: Seq<char>, key: Seq<char>)
    requires
        has_object_shape(text),
    ensures
        key_spans(text + tail, key) == key_spans(text, key),
{
    let b = encode_utf8(text);
    let t = encode_utf8(tail);
    lemma_encode_concat(text, tail);
    lemma_object_tail(b, t);
    let all = object_members(b)->0;
    assert forall|k: int| 0 <= k < all.len() implies named(b, key)(#[trigger] all[k]) == named(b + t, key)(all[k]) by {
        lemma_object_member(b, k);
        let m = all[k];
        assert((b + t).subrange(m.key_start + 1, m.key_end - 1) =~= b.subrange(m.key_start + 1, m.key_end - 1));
        assert((b + t).subrange(m.key_start, m.key_end) =~= b.subrange(m.key_start, m.key_end));
    }
    lemma_filter_same(all, named(b, key), named(b + t, key));
}

/// Whether spans stand one behind the other.
pub open spec fn in_text_order(spans: Seq<Span>) -> bool {
    forall|j: int, k: int| 0 <= j < k < spans.len() ==> (#[trigger] spans[j]).value_end < (#[trigger] spans[k]).key_start
}

proof fn lemma_members_in_order(b: Seq<u8>, i: int)
    requires
        members_from(b, i) is Some,
    ensures
        in_text_order(members_from(b, i)->0),
        forall|k: int| 0 <= k < members_from(b, i)->0.len() ==> i <= (#[trigger] members_from(b, i)->0[k]).key_start,
    decreases b.len() - i,
{
    lemma_member_at(b, i);
    let m = member_at(b, i)->0;
    lemma_after_ws(b, m.value_end);
    let c = after_ws(b, m.value_end);
    if b[c] == 0x2c {
        lemma_after_ws(b, c + 1);
        let next = after_ws(b, c + 1);
        lemma_member_at(b, next);
        lemma_members_in_order(b, next);
        let rest = members_from(b, next)->0;
        let all = seq![m] + rest;
        assert forall|j: int, k: int| 0 <= j < k < all.len() implies (#[trigger] all[j]).value_end < (#[trigger] all[k]).key_start by {
            assert(all[k] == rest[k - 1]);
            if j > 0 {
                assert(all[j] == rest[j - 1]);
            }
        }
        assert forall|k: int| 0 <= k < all.len() implies i <= (#[trigger] all[k]).key_start by {
            if k > 0 {
                assert(all[k] == rest[k - 1]);
            }
        }
    }
}

proof fn lemma_filter_in_order(spans: Seq<Span>, p: spec_fn(Span) -> bool)
    requires
        in_text_order(spans),
    ensures
        in_text_order(spans.filter(p)),
    decreases spans.len(),
{
    reveal(Seq::filter);
    if spans.len() > 0 {
        let front = spans.drop_last();
        let last = spans.last();
        lemma_filter_in_order(front, p);
        let kept = front.filter(p);
        assert forall|j: int| 0 <= j < kept.len() implies (#[trigger] kept[j]).value_end < last.key_start by {
            front.lemma_filter_contains_rev(p, kept[j]);
            let at = choose|a: int| 0 <= a < front.len() && front[a] == kept[j];
            assert(spans[at] == kept[j] && spans[spans.len() - 1] == last);
        }
    }
}

/// The spans of a key stand one behind the other: each begins after the one
/// before it ends.
pub proof fn law_spans_are_in_text_order(text: Seq<char>, key: Seq<char>)
    ensures
        in_text_order(key_spans(text, key)),
{
    let b = encode_utf8(text);
    if let Some(all) = object_members(b) {
        let first = after_ws(b, after_ws(b, 0) + 1);
        if b[first] != 0x7d {
            lemma_members_in_order(b, first);
        }
        lemma_filter_in_order(all, named(b, key));
    }
}

} // verus!
