//! JSON values.
//!
//! A [`Json`] holds a JSON value in plain Rust values, and its view, a
//! [`JsonView`], is the value that contracts speak of. An object is a list of
//! members; parsing and [`Json::insert`] keep it in ascending key order with
//! no key twice.

use serde_json::Value;
use vstd::prelude::*;
use vstd::string::*;
use vstd::utf8::*;
use crate::fixes::json_scan::{object_members, value_text};
use crate::text::{lemma_precedes_total, lemma_precedes_transitive, precedes, same_text, text_less};

verus! {

broadcast use vstd::string::group_string_axioms;

/// The members of an object, in order.
pub type Members = Seq<(Seq<char>, JsonView)>;

/// A JSON value, as contracts see it.
pub enum JsonView {
    Null,
    Bool(bool),
    Unsigned(u64),
    Negative(i64),
    Float(Seq<char>),
    Str(Seq<char>),
    Array(Seq<JsonView>),
    Object(Seq<(Seq<char>, JsonView)>),
}

/// A JSON value.
///
/// A number that is an integer of 64 bits is held as such; any other number
/// is held by its text.
#[derive(Debug, PartialEq, Eq)]
pub enum Json {
    Null,
    Bool(bool),
    Unsigned(u64),
    Negative(i64),
    Float(String),
    Str(String),
    Array(Vec<Json>),
    Object(Vec<(String, Json)>),
}

/// The position of the first member at or after `from` whose key is `key`, or
/// the number of members where there is none.
pub open spec fn position_from(m: Members, key: Seq<char>, from: int) -> int
    decreases m.len() - from,
{
    if from < 0 || from >= m.len() {
        m.len() as int
    } else if m[from].0 == key {
        from
    } else {
        position_from(m, key, from + 1)
    }
}

/// The position of the member `key`.
pub open spec fn position(m: Members, key: Seq<char>) -> int {
    position_from(m, key, 0)
}

/// Whether there is a member `key`.
pub open spec fn has_key(m: Members, key: Seq<char>) -> bool {
    position(m, key) < m.len()
}

/// The value of the member `key`.
pub open spec fn lookup(m: Members, key: Seq<char>) -> Option<JsonView> {
    if has_key(m, key) {
        Some(m[position(m, key)].1)
    } else {
        None
    }
}

/// The place of a new key: before the first member with a greater key.
pub open spec fn place_from(m: Members, key: Seq<char>, from: int) -> int
    decreases m.len() - from,
{
    if from < 0 || from >= m.len() {
        m.len() as int
    } else if precedes(key, m[from].0) {
        from
    } else {
        place_from(m, key, from + 1)
    }
}

/// The member found at the position of a key has that key.
pub proof fn lemma_position(m: Members, key: Seq<char>, from: int)
    requires
        0 <= from,
        position_from(m, key, from) < m.len(),
    ensures
        from <= position_from(m, key, from),
        m[position_from(m, key, from)].0 == key,
    decreases m.len() - from,
{
    if from < m.len() && m[from].0 != key {
        lemma_position(m, key, from + 1);
    }
}

/// The place of a new key lies among the members or after them.
pub proof fn lemma_place(m: Members, key: Seq<char>, from: int)
    requires
        0 <= from <= m.len(),
    ensures
        from <= place_from(m, key, from) <= m.len(),
    decreases m.len() - from,
{
    if from < m.len() && !precedes(key, m[from].0) {
        lemma_place(m, key, from + 1);
    }
}

/// The members with `key` set to `value`: in place where the key is there,
/// and at its place in key order where it is new.
pub open spec fn with_member(m: Members, key: Seq<char>, value: JsonView) -> Members {
    if has_key(m, key) {
        m.update(position(m, key), (key, value))
    } else {
        m.insert(place_from(m, key, 0), (key, value))
    }
}

/// A key found nowhere before the end has no position.
proof fn lemma_position_skips(m: Members, key: Seq<char>, from: int, to: int)
    requires
        0 <= from <= to <= m.len(),
        forall|i: int| from <= i < to ==> (#[trigger] m[i]).0 != key,
    ensures
        position_from(m, key, from) == position_from(m, key, to),
    decreases to - from,
{
    if from < to {
        assert(m[from].0 != key);
        lemma_position_skips(m, key, from + 1, to);
    }
}

/// No member before the position of a key has that key.
proof fn lemma_position_first(m: Members, key: Seq<char>, from: int, i: int)
    requires
        0 <= from <= i < m.len(),
        i < position_from(m, key, from),
    ensures
        m[i].0 != key,
    decreases m.len() - from,
{
    if m[from].0 != key && from < i {
        lemma_position_first(m, key, from + 1, i);
    }
}

/// Setting a member makes it what was set, and leaves every other key with
/// the value that it had.
pub proof fn lemma_with_member_lookup(m: Members, key: Seq<char>, value: JsonView, other: Seq<char>)
    ensures
        lookup(with_member(m, key, value), other) == if other == key {
            Some(value)
        } else {
            lookup(m, other)
        },
{
    let w = with_member(m, key, value);
    if has_key(m, key) {
        let at = position(m, key);
        lemma_position(m, key, 0);
        assert forall|i: int| 0 <= i < m.len() implies (#[trigger] w[i]).0 == m[i].0 by {
        }
        lemma_same_keys(m, w, other, 0);
        if other != key && has_key(m, other) {
            lemma_position(m, other, 0);
        }
    } else {
        let at = place_from(m, key, 0);
        lemma_place(m, key, 0);
        assert forall|i: int| 0 <= i < m.len() implies (#[trigger] m[i]).0 != key by {
            lemma_position_first(m, key, 0, i);
        }
        if other == key {
            assert forall|i: int| 0 <= i < at implies (#[trigger] w[i]).0 != key by {
                assert(w[i] == m[i]);
            }
            lemma_position_skips(w, key, 0, at);
            assert(w[at].0 == key);
        } else {
            lemma_inserted(m, at, (key, value), other, 0);
            lemma_position_at_least(m, other, 0);
            let i = position(m, other);
            if i < m.len() {
                assert(w[if i < at { i } else { i + 1 }] == m[i]);
            }
        }
    }
}

/// Two member lists with the same keys have every key at the same place.
proof fn lemma_same_keys(m: Members, w: Members, key: Seq<char>, from: int)
    requires
        m.len() == w.len(),
        0 <= from <= m.len(),
        forall|i: int| 0 <= i < m.len() ==> (#[trigger] w[i]).0 == m[i].0,
    ensures
        position_from(m, key, from) == position_from(w, key, from),
    decreases m.len() - from,
{
    if from < m.len() {
        assert(w[from].0 == m[from].0);
        lemma_same_keys(m, w, key, from + 1);
    }
}

/// A member inserted under another key moves what is behind it by one place.
proof fn lemma_inserted(m: Members, at: int, p: (Seq<char>, JsonView), key: Seq<char>, from: int)
    requires
        0 <= at <= m.len(),
        0 <= from <= m.len() + 1,
        p.0 != key,
    ensures
        ({
            let w = m.insert(at, p);
            if from <= at {
                position_from(w, key, from) == {
                    let i = position_from(m, key, from);
                    if i < at {
                        i
                    } else {
                        i + 1
                    }
                }
            } else {
                position_from(w, key, from) == position_from(m, key, from - 1) + 1
            }
        }),
    decreases m.len() + 1 - from,
{
    let w = m.insert(at, p);
    if from < at {
        assert(w[from] == m[from]);
        lemma_inserted(m, at, p, key, from + 1);
    } else if from == at {
        assert(w[at] == p);
        lemma_inserted(m, at, p, key, from + 1);
        lemma_position_at_least(m, key, at);
    } else if from <= m.len() {
        assert(w[from] == m[from - 1]);
        lemma_inserted(m, at, p, key, from + 1);
    }
}

proof fn lemma_position_at_least(m: Members, key: Seq<char>, from: int)
    requires
        0 <= from <= m.len(),
    ensures
        from <= position_from(m, key, from) <= m.len(),
    decreases m.len() - from,
{
    if from < m.len() && m[from].0 != key {
        lemma_position_at_least(m, key, from + 1);
    }
}

impl JsonView {
    /// The member `key` of an object.
    pub open spec fn get(self, key: Seq<char>) -> Option<JsonView> {
        match self {
            JsonView::Object(m) => lookup(m, key),
            _ => None,
        }
    }

    /// The element `i` of an array.
    pub open spec fn at(self, i: int) -> Option<JsonView> {
        match self {
            JsonView::Array(a) => if 0 <= i < a.len() {
                Some(a[i])
            } else {
                None
            },
            _ => None,
        }
    }

    pub open spec fn as_str(self) -> Option<Seq<char>> {
        match self {
            JsonView::Str(s) => Some(s),
            _ => None,
        }
    }

    pub open spec fn as_array(self) -> Option<Seq<JsonView>> {
        match self {
            JsonView::Array(a) => Some(a),
            _ => None,
        }
    }

    pub open spec fn as_u64(self) -> Option<u64> {
        match self {
            JsonView::Unsigned(n) => Some(n),
            _ => None,
        }
    }

    pub open spec fn is_number(self) -> bool {
        self is Unsigned || self is Negative || self is Float
    }
}

/// The views of a list of values.
pub open spec fn views(v: Seq<Json>) -> Seq<JsonView> {
    Seq::new(v.len(), |i: int| v[i]@)
}

/// The views of a list of members.
pub open spec fn member_views(v: Seq<(String, Json)>) -> Members {
    Seq::new(v.len(), |i: int| (v[i].0@, v[i].1@))
}

/// The view of a value.
pub open spec fn json_view(j: Json) -> JsonView
    decreases j, 0nat,
{
    match j {
        Json::Null => JsonView::Null,
        Json::Bool(b) => JsonView::Bool(b),
        Json::Unsigned(n) => JsonView::Unsigned(n),
        Json::Negative(n) => JsonView::Negative(n),
        Json::Float(s) => JsonView::Float(s@),
        Json::Str(s) => JsonView::Str(s@),
        Json::Array(v) => JsonView::Array(views_to(v@, v@.len())),
        Json::Object(v) => JsonView::Object(member_views_to(v@, v@.len())),
    }
}

/// The views of the first `n` values of a list.
pub open spec fn views_to(v: Seq<Json>, n: nat) -> Seq<JsonView>
    decreases v, n,
{
    if n == 0 || n > v.len() {
        Seq::empty()
    } else {
        views_to(v, (n - 1) as nat).push(json_view(v[n - 1]))
    }
}

/// The views of the first `n` members of a list.
pub open spec fn member_views_to(v: Seq<(String, Json)>, n: nat) -> Members
    decreases v, n,
{
    if n == 0 || n > v.len() {
        Seq::empty()
    } else {
        member_views_to(v, (n - 1) as nat).push((v[n - 1].0@, json_view(v[n - 1].1)))
    }
}

impl View for Json {
    type V = JsonView;

    open spec fn view(&self) -> JsonView {
        json_view(*self)
    }
}

proof fn lemma_views_to(v: Seq<Json>, n: nat)
    requires
        n <= v.len(),
    ensures
        views_to(v, n) =~= views(v).take(n as int),
    decreases n,
{
    if n > 0 {
        lemma_views_to(v, (n - 1) as nat);
    }
}

proof fn lemma_member_views_to(v: Seq<(String, Json)>, n: nat)
    requires
        n <= v.len(),
    ensures
        member_views_to(v, n) =~= member_views(v).take(n as int),
    decreases n,
{
    if n > 0 {
        lemma_member_views_to(v, (n - 1) as nat);
    }
}

/// The view of an array lists the views of its elements.
pub broadcast proof fn lemma_array_view(v: Vec<Json>)
    ensures
        #[trigger] json_view(Json::Array(v)) == JsonView::Array(views(v@)),
{
    lemma_views_to(v@, v@.len());
    assert(views(v@).take(v@.len() as int) =~= views(v@));
}

/// The view of an object lists the views of its members.
pub broadcast proof fn lemma_object_view(v: Vec<(String, Json)>)
    ensures
        #[trigger] json_view(Json::Object(v)) == JsonView::Object(member_views(v@)),
{
    lemma_member_views_to(v@, v@.len());
    assert(member_views(v@).take(v@.len() as int) =~= member_views(v@));
}

/// Changing one member changes one view.
pub broadcast proof fn lemma_member_update(v: Seq<(String, Json)>, i: int, p: (String, Json))
    requires
        0 <= i < v.len(),
    ensures
        #[trigger] member_views(v.update(i, p)) == member_views(v).update(i, (p.0@, p.1@)),
{
    assert(member_views(v.update(i, p)) =~= member_views(v).update(i, (p.0@, p.1@)));
}

/// Changing one element changes one view.
pub broadcast proof fn lemma_element_update(v: Seq<Json>, i: int, j: Json)
    requires
        0 <= i < v.len(),
    ensures
        #[trigger] views(v.update(i, j)) == views(v).update(i, j@),
{
    assert(views(v.update(i, j)) =~= views(v).update(i, j@));
}

/// Adding an element adds its view.
pub broadcast proof fn lemma_element_push(v: Seq<Json>, j: Json)
    ensures
        #[trigger] views(v.push(j)) == views(v).push(j@),
{
    assert(views(v.push(j)) =~= views(v).push(j@));
}

/// Adding a member adds its view.
pub broadcast proof fn lemma_member_push(v: Seq<(String, Json)>, p: (String, Json))
    ensures
        #[trigger] member_views(v.push(p)) == member_views(v).push((p.0@, p.1@)),
{
    assert(member_views(v.push(p)) =~= member_views(v).push((p.0@, p.1@)));
}

pub broadcast group group_json {
    lemma_element_push,
    lemma_member_push,
    lemma_array_view,
    lemma_object_view,
    lemma_member_update,
    lemma_element_update,
}

/// The view of an optional borrowed value.
pub open spec fn option_view(j: Option<&Json>) -> Option<JsonView> {
    match j {
        Some(x) => Some(x@),
        None => None,
    }
}

/// The position of a key found by walking the members.
pub(crate) fn find_member(m: &Vec<(String, Json)>, key: &str) -> (at: usize)
    ensures
        at == position(member_views(m@), key@),
        at <= m@.len(),
        at < m@.len() ==> m@[at as int].0@ == key@,
{
    let mut i: usize = 0;
    while i < m.len()
        invariant
            i <= m@.len(),
            position(member_views(m@), key@) == position_from(member_views(m@), key@, i as int),
        decreases m@.len() - i,
    {
        if same_text(m[i].0.as_str(), key) {
            return i;
        }
        i += 1;
    }
    i
}

impl Json {
    /// The member `key`, where the value is an object that has one.
    pub fn get(&self, key: &str) -> (member: Option<&Json>)
        ensures
            option_view(member) == self@.get(key@),
    {
        broadcast use group_json;
        match self {
            Json::Object(m) => {
                let i = find_member(m, key);
                if i < m.len() {
                    Some(&m[i].1)
                } else {
                    None
                }
            },
            _ => None,
        }
    }

    /// The element `i`, where the value is an array that has one.
    pub fn at(&self, i: usize) -> (element: Option<&Json>)
        ensures
            option_view(element) == self@.at(i as int),
    {
        broadcast use group_json;
        match self {
            Json::Array(a) => if i < a.len() {
                Some(&a[i])
            } else {
                None
            },
            _ => None,
        }
    }

    /// The text, where the value is one.
    pub fn as_str(&self) -> (text: Option<&str>)
        ensures
            match text {
                Some(t) => self@.as_str() == Some(t@),
                None => self@.as_str() is None,
            },
    {
        match self {
            Json::Str(s) => Some(s.as_str()),
            _ => None,
        }
    }

    /// The elements, where the value is an array.
    pub fn as_array(&self) -> (elements: Option<&Vec<Json>>)
        ensures
            match elements {
                Some(a) => self@.as_array() == Some(views(a@)),
                None => self@.as_array() is None,
            },
    {
        broadcast use group_json;
        match self {
            Json::Array(a) => Some(a),
            _ => None,
        }
    }

    /// The number, where the value is an integer that is not negative.
    pub fn as_u64(&self) -> (number: Option<u64>)
        ensures
            number == self@.as_u64(),
    {
        match self {
            Json::Unsigned(n) => Some(*n),
            _ => None,
        }
    }

    /// The member `key`, to be changed in place.
    pub fn get_mut(&mut self, key: &str) -> (member: Option<&mut Json>)
        ensures
            match member {
                Some(v) => {
                    &&& old(self)@.get(key@) == Some((*v)@)
                    &&& final(self)@ == JsonView::Object(with_member(old(self)@->Object_0, key@, (*final(v))@))
                },
                None => old(self)@.get(key@) is None && *final(self) == *old(self),
            },
    {
        broadcast use group_json;
        match self {
            Json::Object(m) => {
                let i = find_member(m, key);
                if i < m.len() {
                    Some(&mut m[i].1)
                } else {
                    None
                }
            },
            _ => None,
        }
    }

    /// Sets the member `key` of an object; any other value is left as it is.
    pub fn insert(&mut self, key: String, value: Json)
        ensures
            final(self)@ == match old(self)@ {
                JsonView::Object(m) => JsonView::Object(with_member(m, key@, value@)),
                other => other,
            },
    {
        broadcast use group_json;
        match self {
            Json::Object(m) => {
                insert_member(m, key, value);
            },
            _ => {},
        }
    }
}

/// Sets the member `key`.
pub(crate) fn insert_member(m: &mut Vec<(String, Json)>, key: String, value: Json)
    ensures
        member_views(final(m)@) == with_member(member_views(old(m)@), key@, value@),
{
    let i = find_member(m, key.as_str());
    if i < m.len() {
        m[i] = (key, value);
        proof {
            assert(member_views(m@) =~= with_member(member_views(old(m)@), key@, value@));
        }
        return;
    }
    let ghost k = key@;
    let ghost v = value@;
    let ghost before = member_views(m@);
    let mut at: usize = 0;
    while at < m.len() && !text_less(key.as_str(), m[at].0.as_str())
        invariant
            at <= m@.len(),
            before == member_views(m@),
            place_from(before, key@, 0) == place_from(before, key@, at as int),
        decreases m@.len() - at,
    {
        at += 1;
    }
    m.insert(at, (key, value));
    proof {
        assert(member_views(m@) =~= before.insert(at as int, (k, v)));
    }
}

impl Clone for Json {
    fn clone(&self) -> (copy: Json)
        ensures
            copy@ == self@,
        decreases *self,
    {
        broadcast use group_json;
        match self {
            Json::Null => Json::Null,
            Json::Bool(b) => Json::Bool(*b),
            Json::Unsigned(n) => Json::Unsigned(*n),
            Json::Negative(n) => Json::Negative(*n),
            Json::Float(s) => Json::Float(s.clone()),
            Json::Str(s) => Json::Str(s.clone()),
            Json::Array(v) => {
                let mut out: Vec<Json> = Vec::new();
                let mut i: usize = 0;
                while i < v.len()
                    invariant
                        i <= v@.len(),
                        *self is Array,
                        *v == self->Array_0,
                        views(out@) == views(v@).take(i as int),
                    decreases v@.len() - i,
                {
                    proof {
                        broadcast use group_json;
                        assert(decreases_to!(*self => self->Array_0));
                        assert(decreases_to!(*v => v[i as int]));
                    }
                    let item = v[i].clone();
                    out.push(item);
                    proof {
                        assert(views(out@) =~= views(v@).take(i + 1));
                    }
                    i += 1;
                }
                proof {
                    assert(views(out@) =~= views(v@));
                }
                Json::Array(out)
            },
            Json::Object(v) => {
                let mut out: Vec<(String, Json)> = Vec::new();
                let mut i: usize = 0;
                while i < v.len()
                    invariant
                        i <= v@.len(),
                        *self is Object,
                        *v == self->Object_0,
                        member_views(out@) == member_views(v@).take(i as int),
                    decreases v@.len() - i,
                {
                    proof {
                        broadcast use group_json;
                        assert(decreases_to!(*self => self->Object_0));
                        assert(decreases_to!(*v => v[i as int]));
                    }
                    let item = v[i].1.clone();
                    out.push((v[i].0.clone(), item));
                    proof {
                        assert(member_views(out@) =~= member_views(v@).take(i + 1));
                    }
                    i += 1;
                }
                proof {
                    assert(member_views(out@) =~= member_views(v@));
                }
                Json::Object(out)
            },
        }
    }
}

/// Whether a value has at most `depth` containers around any scalar of it.
pub open spec fn nests_within(v: JsonView, depth: nat) -> bool
    decreases depth,
{
    match v {
        JsonView::Array(a) => depth > 0 && forall|i: int|
            0 <= i < a.len() ==> nests_within(#[trigger] a[i], (depth - 1) as nat),
        JsonView::Object(m) => depth > 0 && forall|i: int|
            0 <= i < m.len() ==> nests_within((#[trigger] m[i]).1, (depth - 1) as nat),
        _ => true,
    }
}

/// Whether members stand in ascending key order, which also means that no key
/// occurs twice.
pub open spec fn in_key_order(m: Members) -> bool {
    forall|i: int, j: int| 0 <= i < j < m.len() ==> precedes((#[trigger] m[i]).0, (#[trigger] m[j]).0)
}

/// Whether a value is one of at most `depth` containers around any scalar whose
/// text stands for it alone: it holds no float, a number held as negative is,
/// and the members of every object stand in key order.
pub open spec fn is_plain(v: JsonView, depth: nat) -> bool
    decreases depth,
{
    match v {
        JsonView::Float(_) => false,
        JsonView::Negative(n) => n < 0,
        JsonView::Array(a) => depth > 0 && forall|i: int|
            0 <= i < a.len() ==> is_plain(#[trigger] a[i], (depth - 1) as nat),
        JsonView::Object(m) => depth > 0 && in_key_order(m) && forall|i: int|
            0 <= i < m.len() ==> is_plain((#[trigger] m[i]).1, (depth - 1) as nat),
        _ => true,
    }
}

/// The deepest nesting that the parser takes.
pub const MAX_NESTING: u8 = 127;

/// A JSON value of `serde_json`, carried through as it is.
#[verifier::external_type_specification]
#[verifier::external_body]
pub struct ExValue(serde_json::Value);

/// What `serde_json::from_str` reads from a text: the value, or the message of
/// the error.
pub uninterp spec fn parsed(text: Seq<char>) -> Result<JsonView, Seq<char>>;

/// What `serde_json::Value` prints in its compact form.
pub uninterp spec fn printed(value: JsonView) -> Seq<char>;

/// Whether a value came of parsing.
pub open spec fn is_read_as(r: Result<JsonView, Seq<char>>, value: JsonView) -> bool {
    match r {
        Ok(v) => v == value,
        Err(_) => false,
    }
}

/// A result of parsing, as contracts see it.
pub open spec fn parse_view(r: Result<Json, String>) -> Result<JsonView, Seq<char>> {
    match r {
        Ok(j) => Ok(j@),
        Err(e) => Err(e@),
    }
}

/// Moves a `serde_json::Value` into a [`Json`], variant by variant.
#[verifier::external_body]
fn from_value(value: serde_json::Value) -> Json {
    match value {
        Value::Null => Json::Null,
        Value::Bool(b) => Json::Bool(b),
        Value::Number(n) => match (n.as_u64(), n.as_i64()) {
            (Some(u), _) => Json::Unsigned(u),
            (None, Some(i)) => Json::Negative(i),
            (None, None) => Json::Float(n.to_string()),
        },
        Value::String(s) => Json::Str(s),
        Value::Array(a) => Json::Array(a.into_iter().map(from_value).collect()),
        Value::Object(m) => Json::Object(m.into_iter().map(|(k, v)| (k, from_value(v))).collect()),
    }
}

/// Moves a [`Json`] into a `serde_json::Value`, variant by variant. The text of a
/// float becomes the number nearest to it, which is the number that it was
/// written for; a text that is no finite number becomes null.
#[verifier::external_body]
fn to_value(json: &Json) -> serde_json::Value {
    match json {
        Json::Null => Value::Null,
        Json::Bool(b) => Value::Bool(*b),
        Json::Unsigned(u) => Value::from(*u),
        Json::Negative(i) => Value::from(*i),
        Json::Float(t) => t.parse().ok().and_then(serde_json::Number::from_f64).map_or(Value::Null, Value::Number),
        Json::Str(s) => Value::String(s.clone()),
        Json::Array(a) => Value::Array(a.iter().map(to_value).collect()),
        Json::Object(m) => Value::Object(m.iter().map(|(k, v)| (k.clone(), to_value(v))).collect()),
    }
}

/// Whether a value that nests within `depth` came of parsing.
pub open spec fn is_read_within(r: Result<JsonView, Seq<char>>, depth: nat) -> bool {
    match r {
        Ok(v) => nests_within(v, depth),
        Err(_) => false,
    }
}

/// Whether the value of every member of the outermost object of a text is read
/// by itself, nesting one less deep than the whole may.
pub open spec fn values_are_read(text: Seq<char>) -> bool {
    match object_members(encode_utf8(text)) {
        Some(members) => forall|k: int|
            0 <= k < members.len() ==> is_read_within(
                parsed(value_text(text, #[trigger] members[k])),
                (MAX_NESTING - 1) as nat,
            ),
        None => true,
    }
}

/// `serde_json::from_str` into a `serde_json::Value`. It reads a text as one
/// JSON value, or says in words what is wrong with the text. What it reads nests
/// no deeper than its recursion limit lets it; and of an object it reads the
/// value of every member, of those too whose key comes again, so that each of
/// them is a JSON text by itself. `serde_json` is taken here without its
/// features `raw_value` and `arbitrary_precision`.
#[verifier::external_body]
fn serde_parse(text: &str) -> (result: Result<Json, String>)
    ensures
        parse_view(result) == parsed(text@),
        result is Ok ==> nests_within(result->Ok_0@, MAX_NESTING as nat),
        result is Ok ==> values_are_read(text@),
{
    serde_json::from_str::<serde_json::Value>(text).map(from_value).map_err(|e| e.to_string())
}

/// `serde_json::Value::to_string`, the compact form. What it prints of a value
/// within the parser's recursion limit, the parser reads; and it reads the same
/// value, where that is plain. Of floats nothing is said: the parser may read
/// one that is off by its last digit. As for [`serde_parse`], the features
/// `raw_value` and `arbitrary_precision` are off.
#[verifier::external_body]
fn serde_print(json: &Json) -> (text: String)
    ensures
        text@ == printed(json@),
        nests_within(json@, MAX_NESTING as nat) ==> parsed(text@) is Ok,
        is_plain(json@, MAX_NESTING as nat) ==> is_read_as(parsed(text@), json@),
{
    to_value(json).to_string()
}

impl Json {
    /// Reads a text as one JSON value.
    pub fn parse(text: &str) -> (result: Result<Json, String>)
        ensures
            parse_view(result) == parsed(text@),
            result is Ok ==> nests_within(result->Ok_0@, MAX_NESTING as nat),
            result is Ok ==> values_are_read(text@),
    {
        serde_parse(text)
    }

    /// The compact text of the value.
    pub fn print(&self) -> (text: String)
        ensures
            text@ == printed(self@),
            nests_within(self@, MAX_NESTING as nat) ==> parsed(text@) is Ok,
            is_plain(self@, MAX_NESTING as nat) ==> is_read_as(parsed(text@), self@),
    {
        serde_print(self)
    }
}

/// Setting a member keeps an object in key order.
pub proof fn law_insert_keeps_key_order(m: Members, key: Seq<char>, value: JsonView)
    requires
        in_key_order(m),
    ensures
        in_key_order(with_member(m, key, value)),
{
    let w = with_member(m, key, value);
    if has_key(m, key) {
        lemma_position(m, key, 0);
        assert forall|i: int, j: int| 0 <= i < j < w.len() implies precedes((#[trigger] w[i]).0, (#[trigger] w[j]).0) by {
            assert(w[i].0 == m[i].0 && w[j].0 == m[j].0);
        }
    } else {
        let at = place_from(m, key, 0);
        lemma_place(m, key, 0);
        lemma_place_parts(m, key, 0);
        assert forall|i: int| 0 <= i < at implies precedes((#[trigger] m[i]).0, key) by {
            lemma_position_first(m, key, 0, i);
            lemma_precedes_total(key, m[i].0);
        }
        assert forall|i: int| at <= i < m.len() implies precedes(key, (#[trigger] m[i]).0) by {
            if i > at {
                assert(precedes(m[at].0, m[i].0));
                lemma_precedes_transitive(key, m[at].0, m[i].0);
            }
        }
        assert forall|i: int, j: int| 0 <= i < j < w.len() implies precedes((#[trigger] w[i]).0, (#[trigger] w[j]).0) by {
            if i < at && j > at {
                assert(w[i] == m[i] && w[j] == m[j - 1]);
            } else if i < at && j < at {
                assert(w[i] == m[i] && w[j] == m[j]);
            } else if i > at {
                assert(w[i] == m[i - 1] && w[j] == m[j - 1]);
            } else if i == at {
                assert(w[j] == m[j - 1]);
            } else {
                assert(w[i] == m[i]);
            }
        }
    }
}

proof fn lemma_place_parts(m: Members, key: Seq<char>, from: int)
    requires
        0 <= from <= m.len(),
    ensures
        forall|i: int| from <= i < place_from(m, key, from) ==> !precedes(key, (#[trigger] m[i]).0),
        place_from(m, key, from) < m.len() ==> precedes(key, m[place_from(m, key, from)].0),
    decreases m.len() - from,
{
    if from < m.len() && !precedes(key, m[from].0) {
        lemma_place_parts(m, key, from + 1);
    }
}

/// An object with one member set.
pub open spec fn put(v: JsonView, key: Seq<char>, value: JsonView) -> JsonView {
    JsonView::Object(with_member(v->Object_0, key, value))
}

/// Setting a member to the value that it has changes nothing.
pub proof fn lemma_put_same(v: JsonView, key: Seq<char>)
    requires
        v.get(key) is Some,
    ensures
        put(v, key, v.get(key)->0) == v,
{
    let m = v->Object_0;
    lemma_position(m, key, 0);
    assert(with_member(m, key, lookup(m, key)->0) =~= m);
}

/// An object with one member set has that member, and every other one as
/// before.
pub proof fn lemma_put(v: JsonView, key: Seq<char>, value: JsonView, other: Seq<char>)
    requires
        v is Object,
    ensures
        put(v, key, value).get(other) == if other == key {
            Some(value)
        } else {
            v.get(other)
        },
{
    lemma_with_member_lookup(v->Object_0, key, value, other);
}

/// Of an object the first member with a key is found, and nothing where no member has it;
/// no other value has members.
pub proof fn law_the_first_member_is_found(v: JsonView, m: Members, key: Seq<char>, i: int)
    ensures
        v == JsonView::Object(m) && 0 <= i < m.len() && m[i].0 == key && (forall|k: int|
            0 <= k < i ==> (#[trigger] m[k]).0 != key) ==> v.get(key) == Some(m[i].1),
        v == JsonView::Object(m) && (forall|k: int| 0 <= k < m.len() ==> (#[trigger] m[k]).0 != key) ==> v.get(key) is None,
        !(v is Object) ==> v.get(key) is None,
{
    if 0 <= i < m.len() && m[i].0 == key && (forall|k: int| 0 <= k < i ==> (#[trigger] m[k]).0 != key) {
        lemma_position_skips(m, key, 0, i);
    }
    if forall|k: int| 0 <= k < m.len() ==> (#[trigger] m[k]).0 != key {
        if has_key(m, key) {
            lemma_position(m, key, 0);
        }
    }
}

/// A member that is set has its value, every other member keeps its own, and there is one
/// member more only where the key is new.
pub proof fn law_setting_a_member(m: Members, key: Seq<char>, value: JsonView, other: Seq<char>)
    ensures
        JsonView::Object(with_member(m, key, value)).get(key) == Some(value),
        other != key ==> JsonView::Object(with_member(m, key, value)).get(other) == JsonView::Object(m).get(other),
        with_member(m, key, value).len() == m.len() + if JsonView::Object(m).get(key) is Some {
            0int
        } else {
            1int
        },
{
    lemma_with_member_lookup(m, key, value, key);
    lemma_with_member_lookup(m, key, value, other);
    lemma_place(m, key, 0);
    if has_key(m, key) {
        lemma_position(m, key, 0);
    }
}

} // verus!
