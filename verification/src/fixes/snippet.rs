//! Clipping of text for log fields.

use vstd::prelude::*;
use vstd::string::*;
use vstd::utf8::*;
use crate::text::{chars_of, lemma_encode_concat, slice_bytes, text_of};

verus! {

broadcast use vstd::string::group_string_axioms;

/// How [`truncate_snippet`] counts its budget.
#[derive(Debug, Clone, Copy, PartialEq, Eq, Structural)]
pub enum SnippetLimit {
    /// In characters; what is clipped keeps `max - 3` of them and `...`.
    Chars,
    /// In bytes; what is clipped keeps up to `max` of them, cut at a character
    /// boundary, and `...`.
    Bytes,
}

/// The greatest character boundary at or below `end`.
pub open spec fn boundary_below(b: Seq<u8>, end: int) -> int
    decreases end,
{
    if end <= 0 || is_char_boundary(b, end) {
        end
    } else {
        boundary_below(b, end - 1)
    }
}

/// A text clipped to a budget.
pub open spec fn clipped(s: Seq<char>, max: nat, limit: SnippetLimit) -> Seq<char> {
    match limit {
        SnippetLimit::Chars => if s.len() <= max {
            s
        } else {
            s.take(if max < 3 {
                0
            } else {
                max - 3
            }) + "..."@
        },
        SnippetLimit::Bytes => if encode_utf8(s).len() <= max {
            s
        } else {
            decode_utf8(encode_utf8(s).take(boundary_below(encode_utf8(s), max as int))) + "..."@
        },
    }
}

/// Clips a text for a log field and marks that it was clipped. It never cuts
/// through a character.
pub fn truncate_snippet(s: &str, max: usize, limit: SnippetLimit) -> (snippet: String)
    ensures
        snippet@ == clipped(s@, max as nat, limit),
{
    match limit {
        SnippetLimit::Chars => {
            let chars = chars_of(s);
            if chars.len() <= max {
                s.to_owned()
            } else {
                let keep = max.saturating_sub(3);
                let mut kept = text_of(&chars, 0, keep);
                proof {
                    assert(kept@ =~= s@.take(keep as int));
                }
                kept.append("...");
                kept
            }
        },
        SnippetLimit::Bytes => {
            if s.as_bytes().len() <= max {
                s.to_owned()
            } else {
                let mut end: usize = max;
                proof {
                    encode_utf8_valid_utf8(s@);
                    is_char_boundary_start_end_of_seq(encode_utf8(s@));
                }
                while !s.is_char_boundary(end)
                    invariant
                        end <= max < encode_utf8(s@).len(),
                        is_char_boundary(encode_utf8(s@), 0),
                        boundary_below(encode_utf8(s@), max as int) == boundary_below(encode_utf8(s@), end as int),
                    decreases end,
                {
                    end -= 1;
                }
                let mut kept = slice_bytes(s, 0, end).to_owned();
                proof {
                    assert(encode_utf8(s@).subrange(0, end as int) =~= encode_utf8(s@).take(end as int));
                }
                kept.append("...");
                kept
            }
        },
    }
}

/// Clipping by characters never gives more than the budget, where the budget
/// has room for the mark.
pub proof fn law_clip_is_bounded(s: Seq<char>, max: nat)
    requires
        max >= 3,
    ensures
        clipped(s, max, SnippetLimit::Chars).len() <= max,
{
    reveal_strlit("...");
}

/// Clipping leaves a text within the budget as it is.
pub proof fn law_short_text_is_kept(s: Seq<char>, max: nat)
    ensures
        s.len() <= max ==> clipped(s, max, SnippetLimit::Chars) == s,
        encode_utf8(s).len() <= max ==> clipped(s, max, SnippetLimit::Bytes) == s,
{
}

/// What clipping by characters keeps is the beginning of the text, followed by
/// the mark.
pub proof fn law_clip_keeps_a_prefix(s: Seq<char>, max: nat)
    requires
        s.len() > max >= 3,
    ensures
        exists|k: int|
            0 <= k <= s.len() && #[trigger] s.take(k) + "..."@ == clipped(s, max, SnippetLimit::Chars),
{
    assert(s.take(max - 3) + "..."@ == clipped(s, max, SnippetLimit::Chars));
}

/// Clipping by characters keeps as many as there is room for beside the mark, which
/// counts as three.
pub proof fn law_clip_by_characters(kept: Seq<char>, rest: Seq<char>)
    requires
        rest.len() > 3,
    ensures
        clipped(kept + rest, kept.len() + 3, SnippetLimit::Chars) == kept + "..."@,
{
    assert((kept + rest).take(kept.len() as int) =~= kept);
}

/// A character of a text begins where the text before it ends.
proof fn lemma_boundary_behind(kept: Seq<char>, rest: Seq<char>, d: int)
    requires
        0 <= d,
    ensures
        is_char_boundary(encode_utf8(kept + rest), encode_utf8(kept).len() + d) == is_char_boundary(encode_utf8(rest), d),
    decreases kept.len(),
{
    let whole = kept + rest;
    encode_utf8_valid_utf8(whole);
    encode_utf8_valid_utf8(rest);
    if kept.len() == 0 {
        assert(whole =~= rest);
    } else {
        let b = encode_utf8(whole);
        encode_utf8_first_scalar(whole);
        assert(pop_first_scalar(b) =~= encode_utf8(whole.drop_first()));
        assert(whole.drop_first() =~= kept.drop_first() + rest);
        lemma_boundary_behind(kept.drop_first(), rest, d);
        lemma_encode_concat(kept, rest);
        let at = encode_utf8(kept).len() + d;
        let first = encode_scalar(kept[0] as u32).len();
        assert(at >= first);
        if at > b.len() {
            lemma_no_boundary_past_the_end(encode_utf8(rest), d);
        }
    }
}

proof fn lemma_no_boundary_past_the_end(b: Seq<u8>, d: int)
    requires
        valid_utf8(b),
        d > b.len(),
    ensures
        !is_char_boundary(b, d),
{
}

/// No character begins inside another.
proof fn lemma_no_boundary_inside(rest: Seq<char>, d: int)
    requires
        rest.len() > 0,
        0 < d < encode_scalar(rest[0] as u32).len(),
    ensures
        !is_char_boundary(encode_utf8(rest), d),
{
    encode_utf8_valid_utf8(rest);
    encode_utf8_first_scalar(rest);
    let b = encode_utf8(rest);
    assert(pop_first_scalar(b) =~= encode_utf8(rest.drop_first()));
    encode_utf8_valid_utf8(rest.drop_first());
    assert(!is_char_boundary(encode_utf8(rest.drop_first()), d - length_of_first_scalar(b)));
}

proof fn lemma_boundary_below(b: Seq<u8>, at: int, end: int)
    requires
        0 <= at <= end,
        is_char_boundary(b, at),
        forall|k: int| at < k <= end ==> !is_char_boundary(b, k),
    ensures
        boundary_below(b, end) == at,
    decreases end - at,
{
    if at < end {
        lemma_boundary_below(b, at, end - 1);
    }
}

/// Clipping by bytes keeps as many whole characters as the budget has room for; the mark
/// comes on top.
pub proof fn law_clip_by_bytes(kept: Seq<char>, rest: Seq<char>, max: nat)
    requires
        rest.len() > 0,
        encode_utf8(kept).len() <= max < encode_utf8(kept).len() + encode_scalar(rest[0] as u32).len(),
    ensures
        clipped(kept + rest, max, SnippetLimit::Bytes) == kept + "..."@,
{
    let s = kept + rest;
    let b = encode_utf8(s);
    let at = encode_utf8(kept).len() as int;
    lemma_encode_concat(kept, rest);
    encode_utf8_valid_utf8(s);
    encode_utf8_valid_utf8(rest);
    lemma_boundary_behind(kept, rest, 0);
    assert forall|k: int| at < k <= max implies !is_char_boundary(b, k) by {
        lemma_boundary_behind(kept, rest, k - at);
        lemma_no_boundary_inside(rest, k - at);
    }
    lemma_boundary_below(b, at, max as int);
    assert(b.take(at) =~= encode_utf8(kept));
    encode_utf8_decode_utf8(kept);
}

} // verus!
