//! The search of an answer for figures that it may not give.

use vstd::prelude::*;
use vstd::string::*;
use crate::json::{member_views, views, Json, JsonView};
use crate::text::{ascii_lowercase, ascii_lowered, contains, decimal, decimal_text, find_from, group_texts, joined, same_text,
    texts};

verus! {

broadcast use {vstd::string::group_string_axioms, crate::json::group_json, crate::text::group_texts};

/// Whether a text ends with another.
pub open spec fn ends_with(s: Seq<char>, suffix: Seq<char>) -> bool {
    s.len() >= suffix.len() && s.skip(s.len() - suffix.len()) == suffix
}

/// A key that names a figure in bytes, or that would take the place of the id
/// that a client has bound.
pub open spec fn is_forbidden(key: Seq<char>) -> bool {
    let lower = ascii_lowered(key);
    find_from(lower, "byte"@, 0) is Some || find_from(lower, "vram"@, 0) is Some || ends_with(lower, "_display"@) || lower
        == "id"@
}

/// The paths of the forbidden keys in a value at a path.
pub open spec fn forbidden_in(v: JsonView, path: Seq<char>) -> Seq<Seq<char>>
    decreases v, 0nat,
{
    match v {
        JsonView::Object(m) => forbidden_members(m, path, m.len()),
        JsonView::Array(a) => forbidden_elements(a, path, a.len()),
        _ => Seq::empty(),
    }
}

/// The paths of the forbidden keys in the first `n` members of an object.
pub open spec fn forbidden_members(m: Seq<(Seq<char>, JsonView)>, path: Seq<char>, n: nat) -> Seq<Seq<char>>
    decreases m, n,
{
    if n == 0 || n > m.len() {
        Seq::empty()
    } else {
        let here = path + "."@ + m[n - 1].0;
        let before = forbidden_members(m, path, (n - 1) as nat);
        let own = if is_forbidden(m[n - 1].0) {
            before.push(here)
        } else {
            before
        };
        own + forbidden_in(m[n - 1].1, here)
    }
}

/// The paths of the forbidden keys in the first `n` elements of an array.
pub open spec fn forbidden_elements(a: Seq<JsonView>, path: Seq<char>, n: nat) -> Seq<Seq<char>>
    decreases a, n,
{
    if n == 0 || n > a.len() {
        Seq::empty()
    } else {
        forbidden_elements(a, path, (n - 1) as nat) + forbidden_in(
            a[n - 1],
            path + "["@ + decimal((n - 1) as nat) + "]"@,
        )
    }
}

/// Whether a text ends with another.
fn has_suffix(s: &str, suffix: &str) -> (ends: bool)
    ensures
        ends == ends_with(s@, suffix@),
{
    let n = s.unicode_len();
    let k = suffix.unicode_len();
    if n < k {
        return false;
    }
    let tail = s.substring_char(n - k, n);
    proof {
        assert(tail@ =~= s@.skip(n - k));
    }
    same_text(tail, suffix)
}

fn forbidden(key: &str) -> (bad: bool)
    ensures
        bad == is_forbidden(key@),
{
    let lower = ascii_lowercase(key);
    contains(lower.as_str(), "byte") || contains(lower.as_str(), "vram") || has_suffix(lower.as_str(), "_display")
        || same_text(lower.as_str(), "id")
}

/// Adds the paths of the forbidden keys in a value at a path.
pub fn vram_like_keys(value: &Json, path: &str, found: &mut Vec<String>)
    ensures
        texts(final(found)@) == texts(old(found)@) + forbidden_in(value@, path@),
    decreases *value,
{
    let ghost start = texts(found@);
    match value {
        Json::Object(members) => {
            let mut i: usize = 0;
            let ghost m = member_views(members@);
            proof {
                assert(start + forbidden_members(m, path@, 0) =~= start);
            }
            while i < members.len()
                invariant
                    i <= members@.len(),
                    *value is Object,
                    *members == value->Object_0,
                    m == member_views(members@),
                    texts(found@) == start + forbidden_members(m, path@, i as nat),
                decreases members@.len() - i,
            {
                let key = members[i].0.as_str();
                let mut here = joined(path, ".");
                here.append(key);
                let ghost before = texts(found@);
                if forbidden(key) {
                    found.push(here.clone());
                }
                let ghost own = texts(found@);
                proof {
                    broadcast use crate::json::group_json;
                    broadcast use crate::text::group_texts;
                    assert(decreases_to!(*value => value->Object_0));
                    assert(decreases_to!(*members => members[i as int]));
                }
                vram_like_keys(&members[i].1, here.as_str(), found);
                proof {
                    let prior = forbidden_members(m, path@, i as nat);
                    let rest = forbidden_in(members@[i as int].1@, here@);
                    assert(m[i as int] == (key@, members@[i as int].1@));
                    if is_forbidden(key@) {
                        assert((start + prior).push(here@) + rest =~= start + (prior.push(here@) + rest));
                    } else {
                        assert((start + prior) + rest =~= start + (prior + rest));
                    }
                }
                i += 1;
            }
        },
        Json::Array(items) => {
            let mut i: usize = 0;
            let ghost a = views(items@);
            proof {
                assert(start + forbidden_elements(a, path@, 0) =~= start);
            }
            while i < items.len()
                invariant
                    i <= items@.len(),
                    *value is Array,
                    *items == value->Array_0,
                    a == views(items@),
                    texts(found@) == start + forbidden_elements(a, path@, i as nat),
                decreases items@.len() - i,
            {
                let mut here = joined(path, "[");
                here.append(decimal_text(i as u64).as_str());
                here.append("]");
                proof {
                    assert(decreases_to!(*value => value->Array_0));
                    assert(decreases_to!(*items => items[i as int]));
                }
                vram_like_keys(&items[i], here.as_str(), found);
                proof {
                    let prior = forbidden_elements(a, path@, i as nat);
                    let rest = forbidden_in(a[i as int], here@);
                    assert((start + prior) + rest =~= start + (prior + rest));
                }
                i += 1;
            }
        },
        _ => {
            proof {
                assert(start + forbidden_in(value@, path@) =~= start);
            }
        },
    }
}

} // verus!
