//! Text on which contracts can speak: strings are taken as the sequence of
//! their characters, and every helper says exactly which sequence it returns.

use vstd::prelude::*;
use vstd::string::*;
use vstd::utf8::*;

verus! {

broadcast use vstd::string::group_string_axioms;

/// `String::push` appends one character.
pub assume_specification[ std::string::String::push ](s: &mut std::string::String, c: char)
    ensures
        final(s)@ == old(s)@.push(c),
;

/// Two texts with the same bytes have the same characters.
pub proof fn lemma_same_bytes(a: Seq<char>, b: Seq<char>)
    requires
        encode_utf8(a) == encode_utf8(b),
    ensures
        a == b,
{
    encode_utf8_decode_utf8(a);
    encode_utf8_decode_utf8(b);
}

/// The bytes of a concatenation are the concatenation of the bytes.
pub proof fn lemma_encode_concat(a: Seq<char>, b: Seq<char>)
    ensures
        encode_utf8(a + b) == encode_utf8(a) + encode_utf8(b),
    decreases a.len(),
{
    if a.len() == 0 {
        assert(a + b =~= b);
        assert(encode_utf8(a) + encode_utf8(b) =~= encode_utf8(b));
    } else {
        assert((a + b).drop_first() =~= a.drop_first() + b);
        lemma_encode_concat(a.drop_first(), b);
        assert(encode_utf8(a + b) =~= encode_utf8(a) + encode_utf8(b));
    }
}

/// Whether two texts are the same.
pub fn same_text(a: &str, b: &str) -> (same: bool)
    ensures
        same == (a@ == b@),
{
    let x = a.as_bytes();
    let y = b.as_bytes();
    if x.len() != y.len() {
        return false;
    }
    let mut i: usize = 0;
    while i < x.len()
        invariant
            x@ == encode_utf8(a@),
            y@ == encode_utf8(b@),
            x@.len() == y@.len(),
            i <= x@.len(),
            forall|k: int| 0 <= k < i ==> x@[k] == y@[k],
        decreases x@.len() - i,
    {
        if x[i] != y[i] {
            return false;
        }
        i += 1;
    }
    proof {
        assert(x@ =~= y@);
        lemma_same_bytes(a@, b@);
    }
    true
}

/// The characters of a text, indexable.
pub fn chars_of(s: &str) -> (chars: Vec<char>)
    ensures
        chars@ == s@,
{
    let mut out: Vec<char> = Vec::new();
    for c in it: s.chars()
        invariant
            it.seq() == s@,
            out@ == s@.take(it.index@),
    {
        proof {
            assert(s@.take(it.index@ + 1) =~= s@.take(it.index@).push(c));
        }
        out.push(c);
    }
    proof {
        assert(s@.take(s@.len() as int) =~= s@);
    }
    out
}

/// The text made of the characters `from..to`.
pub fn text_of(chars: &Vec<char>, from: usize, to: usize) -> (text: String)
    requires
        from <= to <= chars@.len(),
    ensures
        text@ == chars@.subrange(from as int, to as int),
{
    let mut out = String::new();
    let mut i: usize = from;
    while i < to
        invariant
            from <= i <= to <= chars@.len(),
            out@ == chars@.subrange(from as int, i as int),
        decreases to - i,
    {
        out.push(chars[i]);
        proof {
            assert(chars@.subrange(from as int, i + 1) =~= chars@.subrange(from as int, i as int).push(chars@[i as int]));
        }
        i += 1;
    }
    out
}

/// Whether `a` comes before `b` in the order of strings: at the first place
/// where they differ it has the smaller character, or it is a proper prefix.
pub open spec fn precedes(a: Seq<char>, b: Seq<char>) -> bool
    decreases a.len(),
{
    if b.len() == 0 {
        false
    } else if a.len() == 0 {
        true
    } else if a[0] == b[0] {
        precedes(a.drop_first(), b.drop_first())
    } else {
        a[0] < b[0]
    }
}

/// Compares two texts in the order of strings.
pub fn text_less(a: &str, b: &str) -> (less: bool)
    ensures
        less == precedes(a@, b@),
{
    let x = chars_of(a);
    let y = chars_of(b);
    let mut i: usize = 0;
    proof {
        assert(a@.skip(0) =~= a@);
        assert(b@.skip(0) =~= b@);
    }
    while i < x.len() && i < y.len() && x[i] == y[i]
        invariant
            x@ == a@,
            y@ == b@,
            i <= x@.len(),
            i <= y@.len(),
            precedes(a@, b@) == precedes(a@.skip(i as int), b@.skip(i as int)),
        decreases x@.len() - i,
    {
        proof {
            assert(a@.skip(i as int).drop_first() =~= a@.skip(i + 1));
            assert(b@.skip(i as int).drop_first() =~= b@.skip(i + 1));
        }
        i += 1;
    }
    if i < y.len() {
        if i < x.len() {
            x[i] < y[i]
        } else {
            true
        }
    } else {
        false
    }
}

/// In valid UTF-8, the place after an ASCII byte begins a character or ends
/// the text.
pub proof fn lemma_after_ascii(b: Seq<u8>, i: int)
    requires
        valid_utf8(b),
        0 <= i < b.len(),
        b[i] < 0x80,
    ensures
        is_char_boundary(b, i),
        is_char_boundary(b, i + 1),
{
    is_char_boundary_iff_not_is_continuation_byte(b, i);
    if i + 1 == b.len() {
        is_char_boundary_start_end_of_seq(b);
    } else {
        valid_utf8_split(b, i);
        let tail = b.subrange(i, b.len() as int);
        assert(tail[0] == b[i]);
        assert(length_of_first_scalar(tail) == 1);
        reveal_with_fuel(is_char_boundary, 2);
        assert(is_char_boundary(tail, 1));
        is_char_boundary_iff_not_is_continuation_byte(tail, 1);
        assert(tail[1] == b[i + 1]);
        is_char_boundary_iff_not_is_continuation_byte(b, i + 1);
    }
}

/// In valid UTF-8, an ASCII byte begins a character.
pub proof fn lemma_at_ascii(b: Seq<u8>, i: int)
    requires
        valid_utf8(b),
        0 <= i < b.len(),
        b[i] < 0x80,
    ensures
        is_char_boundary(b, i),
{
    is_char_boundary_iff_not_is_continuation_byte(b, i);
}

/// A character boundary of a text is one of its tail, and the other way round.
pub proof fn lemma_boundary_in_tail(b: Seq<u8>, from: int, to: int)
    requires
        valid_utf8(b),
        is_char_boundary(b, from),
        0 <= from <= to <= b.len(),
        is_char_boundary(b, to),
    ensures
        valid_utf8(b.subrange(from, b.len() as int)),
        is_char_boundary(b.subrange(from, b.len() as int), to - from),
{
    valid_utf8_split(b, from);
    let tail = b.subrange(from, b.len() as int);
    if to == b.len() {
        is_char_boundary_start_end_of_seq(tail);
    } else {
        is_char_boundary_iff_not_is_continuation_byte(b, to);
        assert(tail[to - from] == b[to]);
        is_char_boundary_iff_not_is_continuation_byte(tail, to - from);
    }
}

/// The part of a text between two byte offsets, both character boundaries.
pub fn slice_bytes(s: &str, from: usize, to: usize) -> (part: &str)
    requires
        from <= to <= encode_utf8(s@).len(),
        is_char_boundary(encode_utf8(s@), from as int),
        is_char_boundary(encode_utf8(s@), to as int),
    ensures
        encode_utf8(part@) == encode_utf8(s@).subrange(from as int, to as int),
        part@ == decode_utf8(encode_utf8(s@).subrange(from as int, to as int)),
{
    proof {
        encode_utf8_valid_utf8(s@);
        lemma_boundary_in_tail(encode_utf8(s@), from as int, to as int);
    }
    let tail = s.split_at(from).1;
    let part = tail.split_at(to - from).0;
    proof {
        assert(encode_utf8(part@) =~= encode_utf8(s@).subrange(from as int, to as int));
        encode_utf8_decode_utf8(part@);
    }
    part
}

/// The decimal digit of a number below ten.
pub open spec fn digit(n: nat) -> char {
    ((48 + n) as u8) as char
}

/// A number in decimal.
pub open spec fn decimal(n: nat) -> Seq<char>
    decreases n,
{
    if n < 10 {
        seq![digit(n)]
    } else {
        decimal(n / 10).push(digit(n % 10))
    }
}

/// A number in decimal.
pub fn decimal_text(n: u64) -> (text: String)
    ensures
        text@ == decimal(n as nat),
    decreases n,
{
    let last = (48 + (n % 10) as u8) as char;
    if n < 10 {
        let mut out = String::new();
        out.push(last);
        proof {
            assert(out@ =~= decimal(n as nat));
        }
        out
    } else {
        let mut out = decimal_text(n / 10);
        out.push(last);
        out
    }
}

/// One text after another.
pub fn joined(a: &str, b: &str) -> (text: String)
    ensures
        text@ == a@ + b@,
{
    let mut out = a.to_owned();
    out.append(b);
    out
}

/// Whether `needle` stands in `hay` at `i`.
pub open spec fn occurs_at(hay: Seq<char>, needle: Seq<char>, i: int) -> bool {
    0 <= i && i + needle.len() <= hay.len() && hay.subrange(i, i + needle.len()) == needle
}

/// The first place at or after `from` at which `needle` stands in `hay`.
pub open spec fn find_from(hay: Seq<char>, needle: Seq<char>, from: int) -> Option<int>
    decreases hay.len() + 1 - from,
{
    if from < 0 || from > hay.len() {
        None
    } else if occurs_at(hay, needle, from) {
        Some(from)
    } else {
        find_from(hay, needle, from + 1)
    }
}

/// Whether `needle` stands in `hay` at `at`.
pub fn stands_at(hay: &Vec<char>, needle: &Vec<char>, at: usize) -> (found: bool)
    requires
        at <= hay@.len(),
    ensures
        found == occurs_at(hay@, needle@, at as int),
{
    let n = hay.len();
    if needle.len() > n - at {
        return false;
    }
    let mut i: usize = 0;
    while i < needle.len()
        invariant
            n == hay@.len(),
            i <= needle@.len() <= n - at,
            forall|k: int| 0 <= k < i ==> hay@[at + k] == needle@[k],
        decreases needle@.len() - i,
    {
        if hay[at + i] != needle[i] {
            proof {
                assert(hay@.subrange(at as int, at + needle@.len())[i as int] != needle@[i as int]);
            }
            return false;
        }
        i += 1;
    }
    proof {
        assert(hay@.subrange(at as int, at + needle@.len()) =~= needle@);
    }
    true
}

/// The first place at which `needle` stands in `hay`.
pub fn find_text(hay: &Vec<char>, needle: &Vec<char>) -> (found: Option<usize>)
    ensures
        match found {
            Some(i) => find_from(hay@, needle@, 0) == Some(i as int) && occurs_at(hay@, needle@, i as int),
            None => find_from(hay@, needle@, 0) is None,
        },
{
    let n = hay.len();
    let mut i: usize = 0;
    loop
        invariant
            n == hay@.len(),
            i <= n,
            find_from(hay@, needle@, 0) == find_from(hay@, needle@, i as int),
        decreases n - i,
    {
        if stands_at(hay, needle, i) {
            return Some(i);
        }
        if i == n {
            assert(find_from(hay@, needle@, n + 1) is None);
            return None;
        }
        i += 1;
    }
}

/// Unicode's whitespace.
pub open spec fn is_white(c: char) -> bool {
    ('\u{9}' <= c <= '\u{d}') || c == ' ' || c == '\u{85}' || c == '\u{a0}' || c == '\u{1680}' || (
    '\u{2000}' <= c <= '\u{200a}') || c == '\u{2028}' || c == '\u{2029}' || c == '\u{202f}' || c
        == '\u{205f}' || c == '\u{3000}'
}

/// Whether a character is whitespace.
pub fn is_white_char(c: char) -> (white: bool)
    ensures
        white == is_white(c),
{
    ('\u{9}' <= c && c <= '\u{d}') || c == ' ' || c == '\u{85}' || c == '\u{a0}' || c == '\u{1680}' || (
    '\u{2000}' <= c && c <= '\u{200a}') || c == '\u{2028}' || c == '\u{2029}' || c == '\u{202f}' || c
        == '\u{205f}' || c == '\u{3000}'
}

/// The texts of a list of strings.
pub open spec fn texts(v: Seq<String>) -> Seq<Seq<char>> {
    Seq::new(v.len(), |i: int| v[i]@)
}

/// The texts of a list of borrowed strings.
pub open spec fn str_texts(v: Seq<&str>) -> Seq<Seq<char>> {
    Seq::new(v.len(), |i: int| v[i]@)
}

/// Adding a string adds its text.
pub broadcast proof fn lemma_texts_push(v: Seq<String>, s: String)
    ensures
        #[trigger] texts(v.push(s)) == texts(v).push(s@),
{
    assert(texts(v.push(s)) =~= texts(v).push(s@));
}

/// Adding a string adds its text.
pub broadcast proof fn lemma_str_texts_push(v: Seq<&str>, s: &str)
    ensures
        #[trigger] str_texts(v.push(s)) == str_texts(v).push(s@),
{
    assert(str_texts(v.push(s)) =~= str_texts(v).push(s@));
}

pub broadcast group group_texts {
    lemma_texts_push,
    lemma_str_texts_push,
}

/// Of two different texts, one comes before the other.
pub proof fn lemma_precedes_total(a: Seq<char>, b: Seq<char>)
    requires
        a != b,
        !precedes(a, b),
    ensures
        precedes(b, a),
    decreases a.len(),
{
    if a.len() == 0 {
        assert(a =~= b);
    } else if b.len() > 0 && a[0] == b[0] {
        if a.drop_first() == b.drop_first() {
            assert(a =~= seq![a[0]] + a.drop_first());
            assert(b =~= seq![b[0]] + b.drop_first());
        }
        lemma_precedes_total(a.drop_first(), b.drop_first());
    }
}

/// The order of strings is transitive.
pub proof fn lemma_precedes_transitive(a: Seq<char>, b: Seq<char>, c: Seq<char>)
    requires
        precedes(a, b),
        precedes(b, c),
    ensures
        precedes(a, c),
    decreases a.len(),
{
    if a.len() > 0 && b.len() > 0 && c.len() > 0 && a[0] == b[0] && b[0] == c[0] {
        lemma_precedes_transitive(a.drop_first(), b.drop_first(), c.drop_first());
    }
}

/// Texts one after another with a separator between them.
pub open spec fn join_texts(parts: Seq<Seq<char>>, separator: Seq<char>) -> Seq<char>
    decreases parts.len(),
{
    if parts.len() == 0 {
        Seq::empty()
    } else if parts.len() == 1 {
        parts[0]
    } else {
        join_texts(parts.drop_last(), separator) + separator + parts.last()
    }
}

/// Texts one after another with a separator between them.
pub fn join(parts: &Vec<String>, separator: &str) -> (text: String)
    ensures
        text@ == join_texts(texts(parts@), separator@),
{
    let mut out = String::new();
    let mut i: usize = 0;
    let ghost all = texts(parts@);
    while i < parts.len()
        invariant
            i <= parts@.len(),
            all == texts(parts@),
            out@ == join_texts(all.take(i as int), separator@),
        decreases parts@.len() - i,
    {
        if i > 0 {
            out.append(separator);
        }
        out.append(parts[i].as_str());
        proof {
            assert(all.take(i + 1).drop_last() =~= all.take(i as int));
            if i == 0 {
                assert(out@ =~= all[0]);
            }
        }
        i += 1;
    }
    proof {
        assert(all.take(parts@.len() as int) =~= all);
    }
    out
}

/// The text of an optional string.
pub open spec fn opt_text(t: Option<String>) -> Option<Seq<char>> {
    match t {
        Some(s) => Some(s@),
        None => None,
    }
}

/// A copy of an optional string.
pub fn copy_opt(t: &Option<String>) -> (copy: Option<String>)
    ensures
        copy == *t,
{
    match t {
        Some(s) => Some(s.clone()),
        None => None,
    }
}

/// What `str::to_lowercase` makes of a text.
pub uninterp spec fn lowercased(text: Seq<char>) -> Seq<char>;

/// The lower case form of an ASCII character; any other character stays.
pub open spec fn ascii_lower(c: char) -> char {
    if 'A' <= c <= 'Z' {
        ((c as u8) + 32) as u8 as char
    } else {
        c
    }
}

/// A text with its ASCII characters in lower case.
pub open spec fn ascii_lowered(s: Seq<char>) -> Seq<char> {
    Seq::new(s.len(), |i: int| ascii_lower(s[i]))
}

/// Whether a text in lower case begins with the first `n` characters of a text,
/// in lower case, where those are ASCII.
pub open spec fn keeps_ascii_start(lower: Seq<char>, s: Seq<char>, n: int) -> bool {
    0 <= n <= s.len() && is_ascii_chars(s.take(n)) ==> n <= lower.len() && lower.take(n) == ascii_lowered(s.take(n))
}

/// `str::to_lowercase`: the lower case form of a text by Unicode's rules. It goes
/// from character to character, and an ASCII character becomes its one ASCII
/// lower case form, wherever it stands.
#[verifier::external_body]
pub(crate) fn lowercase(s: &str) -> (lower: String)
    ensures
        lower@ == lowercased(s@),
        is_ascii_chars(s@) ==> lower@ == ascii_lowered(s@),
        forall|n: int| #[trigger] keeps_ascii_start(lower@, s@, n),
{
    s.to_lowercase()
}

/// A text with its ASCII characters in lower case.
pub fn ascii_lowercase(s: &str) -> (lower: String)
    ensures
        lower@ == ascii_lowered(s@),
{
    let chars = chars_of(s);
    let mut out = String::new();
    let mut i: usize = 0;
    while i < chars.len()
        invariant
            i <= chars@.len(),
            chars@ == s@,
            out@ == ascii_lowered(s@).take(i as int),
        decreases chars@.len() - i,
    {
        let c = chars[i];
        if 'A' <= c && c <= 'Z' {
            out.push(((c as u8) + 32) as char);
        } else {
            out.push(c);
        }
        proof {
            assert(out@ =~= ascii_lowered(s@).take(i + 1));
        }
        i += 1;
    }
    proof {
        assert(out@ =~= ascii_lowered(s@));
    }
    out
}

/// Whether a text begins with another.
pub fn starts_with(s: &str, prefix: &str) -> (starts: bool)
    ensures
        starts == prefix@.is_prefix_of(s@),
{
    let chars = chars_of(s);
    let wanted = chars_of(prefix);
    let found = stands_at(&chars, &wanted, 0);
    proof {
        if wanted@.len() <= chars@.len() {
            assert(chars@.subrange(0, wanted@.len() as int) =~= chars@.take(wanted@.len() as int));
        }
    }
    found
}

/// A text without the characters `c` at its end.
pub open spec fn trimmed_end(s: Seq<char>, c: char) -> Seq<char>
    decreases s.len(),
{
    if s.len() > 0 && s.last() == c {
        trimmed_end(s.drop_last(), c)
    } else {
        s
    }
}

/// A text without the characters `c` at its end.
pub fn trim_end_char(s: &str, c: char) -> (trimmed: &str)
    ensures
        trimmed@ == trimmed_end(s@, c),
{
    let chars = chars_of(s);
    let mut n = chars.len();
    proof {
        assert(s@.take(n as int) =~= s@);
    }
    while n > 0 && chars[n - 1] == c
        invariant
            chars@ == s@,
            n <= chars@.len(),
            trimmed_end(s@, c) == trimmed_end(s@.take(n as int), c),
        decreases n,
    {
        proof {
            assert(s@.take(n as int).drop_last() =~= s@.take(n - 1));
        }
        n -= 1;
    }
    let trimmed = s.substring_char(0, n);
    proof {
        assert(trimmed@ =~= s@.take(n as int));
    }
    trimmed
}

/// A text without a prefix, where it has it; else the text as it is.
pub open spec fn without_prefix(s: Seq<char>, prefix: Seq<char>) -> Seq<char> {
    if prefix.is_prefix_of(s) {
        s.skip(prefix.len() as int)
    } else {
        s
    }
}

/// A text without a prefix, where it has it.
pub fn strip_prefix<'a>(s: &'a str, prefix: &str) -> (rest: &'a str)
    ensures
        rest@ == without_prefix(s@, prefix@),
{
    if starts_with(s, prefix) {
        let n = s.unicode_len();
        let k = prefix.unicode_len();
        let rest = s.substring_char(k, n);
        proof {
            assert(rest@ =~= s@.skip(k as int));
        }
        rest
    } else {
        s
    }
}

/// The parts of a text between the characters `c`, where the current part
/// began at `start` and the text goes on at `i`.
pub open spec fn split_from(s: Seq<char>, c: char, start: int, i: int) -> Seq<Seq<char>>
    decreases s.len() - i,
{
    if i < 0 || i >= s.len() {
        seq![s.subrange(start, s.len() as int)]
    } else if s[i] == c {
        seq![s.subrange(start, i)] + split_from(s, c, i + 1, i + 1)
    } else {
        split_from(s, c, start, i + 1)
    }
}

/// The parts of a text between the characters `c`.
pub open spec fn split_text(s: Seq<char>, c: char) -> Seq<Seq<char>> {
    split_from(s, c, 0, 0)
}

/// The parts of a text between the characters `c`.
pub fn split(s: &str, c: char) -> (parts: Vec<String>)
    ensures
        texts(parts@) == split_text(s@, c),
{
    let chars = chars_of(s);
    let n = chars.len();
    let mut parts: Vec<String> = Vec::new();
    let mut start: usize = 0;
    let mut i: usize = 0;
    proof {
        assert(texts(parts@) + split_text(s@, c) =~= split_text(s@, c));
    }
    while i < n
        invariant
            chars@ == s@,
            n == chars@.len(),
            start <= i <= n,
            texts(parts@) + split_from(s@, c, start as int, i as int) == split_text(s@, c),
        decreases n - i,
    {
        if chars[i] == c {
            let part = text_of(&chars, start, i);
            let ghost before = parts@;
            let ghost shown = part@;
            parts.push(part);
            proof {
                lemma_texts_push(before, parts@.last());
                let rest = split_from(s@, c, i + 1, i + 1);
                assert(texts(parts@) + rest =~= texts(before) + (seq![shown] + rest));
            }
            start = i + 1;
        }
        i += 1;
    }
    let last = text_of(&chars, start, n);
    let ghost before = parts@;
    let ghost shown = last@;
    parts.push(last);
    proof {
        lemma_texts_push(before, parts@.last());
        assert(texts(parts@) =~= texts(before) + seq![shown]);
    }
    parts
}

/// What `std` writes of a text for a programmer: in quotes, with escapes.
pub uninterp spec fn debug_text(text: Seq<char>) -> Seq<char>;

/// Whether a text holds a control character.
pub open spec fn has_control(s: Seq<char>) -> bool {
    exists|i: int| 0 <= i < s.len() && ((#[trigger] s[i]) < ' ' || s[i] == '\u{7f}')
}

/// The `Debug` form of `str`: the text in double quotes, with escapes in place of
/// control characters. Which escapes is not said here, only that they depend on
/// the text alone.
#[verifier::external_body]
pub(crate) fn debug_form(s: &str) -> (shown: String)
    ensures
        shown@ == debug_text(s@),
        !has_control(shown@),
{
    format!("{:?}", s)
}

/// Whether a text holds nothing but whitespace.
pub open spec fn all_white(s: Seq<char>) -> bool {
    forall|i: int| 0 <= i < s.len() ==> is_white(#[trigger] s[i])
}

/// Whether a text holds nothing but whitespace.
pub fn is_blank(s: &str) -> (blank: bool)
    ensures
        blank == all_white(s@),
{
    let chars = chars_of(s);
    let mut i: usize = 0;
    while i < chars.len()
        invariant
            chars@ == s@,
            i <= chars@.len(),
            forall|k: int| 0 <= k < i ==> is_white(#[trigger] s@[k]),
        decreases chars@.len() - i,
    {
        if !is_white_char(chars[i]) {
            proof {
                assert(!is_white(s@[i as int]));
            }
            return false;
        }
        i += 1;
    }
    true
}

/// A list of positions.
pub open spec fn offsets(v: Seq<usize>) -> Seq<int> {
    Seq::new(v.len(), |i: int| v[i] as int)
}

/// Whether a text holds another.
pub fn contains(s: &str, needle: &str) -> (found: bool)
    ensures
        found == (find_from(s@, needle@, 0) is Some),
{
    find_text(&chars_of(s), &chars_of(needle)).is_some()
}

/// One more text stands at the end, behind a separator where others stand before
/// it.
pub proof fn law_join_of_one_more(parts: Seq<Seq<char>>, text: Seq<char>, separator: Seq<char>)
    ensures
        parts.len() == 0 ==> join_texts(parts.push(text), separator) == text,
        parts.len() > 0 ==> join_texts(parts.push(text), separator) == join_texts(parts, separator) + separator + text,
{
    assert(parts.push(text).drop_last() =~= parts);
}

/// Where two texts first differ, the smaller character decides which comes first; a
/// text comes before every longer one that begins with it, and not before itself.
pub proof fn law_order_of_texts(common: Seq<char>, a: Seq<char>, b: Seq<char>)
    ensures
        a.len() > 0 && b.len() > 0 && a[0] != b[0] ==> (precedes(common + a, common + b) <==> a[0] < b[0]),
        b.len() > 0 ==> precedes(common, common + b),
        !precedes(common, common),
        !precedes(common + b, common),
    decreases common.len(),
{
    if common.len() > 0 {
        let rest = common.drop_first();
        law_order_of_texts(rest, a, b);
        assert((common + a).drop_first() =~= rest + a);
        assert((common + b).drop_first() =~= rest + b);
    } else {
        assert(common + a =~= a);
        assert(common + b =~= b);
    }
}

/// Which characters are whitespace, by their numbers.
pub proof fn law_which_characters_are_white(c: char)
    ensures
        is_white(c) <==> {
            let n = c as u32;
            ||| 9 <= n <= 13
            ||| n == 32
            ||| n == 133
            ||| n == 160
            ||| n == 5760
            ||| 8192 <= n <= 8202
            ||| n == 8232
            ||| n == 8233
            ||| n == 8239
            ||| n == 8287
            ||| n == 12288
        },
{
}

/// A capital letter of ASCII becomes the small one, 32 places behind it, and no other
/// character changes; a text keeps its length.
pub proof fn law_small_letters(c: char, s: Seq<char>, i: int)
    ensures
        65 <= c as u32 <= 90 ==> ascii_lower(c) as u32 == c as u32 + 32,
        !(65 <= c as u32 <= 90) ==> ascii_lower(c) == c,
        ascii_lowered(s).len() == s.len(),
        0 <= i < s.len() ==> ascii_lowered(s)[i] == ascii_lower(s[i]),
{
}

/// A number in decimal has no zero in front, and one more digit where it is ten times as
/// large and more.
pub proof fn law_decimal_digits(n: nat, d: nat)
    requires
        d < 10,
    ensures
        decimal(d).len() == 1,
        decimal(d)[0] as u32 == 48 + d,
        n > 0 ==> decimal(10 * n + d) == decimal(n).push(digit(d)),
        n > 0 ==> decimal(n)[0] != '0',
    decreases n,
{
    if n >= 10 {
        law_decimal_digits(n / 10, n % 10);
        assert(decimal(n / 10).len() > 0);
    }
    if n > 0 {
        assert((10 * n + d) / 10 == n && (10 * n + d) % 10 == d);
    }
}

} // verus!
