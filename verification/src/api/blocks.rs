//! Content blocks as JSON.
//!
//! A block is tagged by its member `type`. A value that has none of the known
//! shapes is kept whole, so that what is not understood is handed on as it
//! came.

use vstd::prelude::*;
use vstd::string::*;
use crate::api::openai::{AnthropicContentBlock, BlockView};
use crate::json::{group_json, member_views, option_view, position, position_from, Json, JsonView};
use crate::text::{opt_text, same_text};

verus! {

broadcast use vstd::string::group_string_axioms;

/// A field of a block: the member of an object, or, where the fields are
/// listed behind the tag without their names, the element at its place.
pub open spec fn field(raw: JsonView, key: Seq<char>, place: int) -> Option<JsonView> {
    if raw is Array {
        raw.at(place)
    } else {
        raw.get(key)
    }
}

/// Whether a list is no longer than `most`. Anything but a list is.
pub open spec fn lists_at_most(raw: JsonView, most: int) -> bool {
    raw is Array ==> raw->Array_0.len() <= most
}

/// A field that is a text.
pub open spec fn text_field(raw: JsonView, key: Seq<char>, place: int) -> Option<Seq<char>> {
    match field(raw, key, place) {
        Some(v) => v.as_str(),
        None => None,
    }
}

/// A text that may be missing or null. Outside it stands whether the field has
/// that shape.
pub open spec fn maybe_text_field(raw: JsonView, key: Seq<char>, place: int) -> Option<Option<Seq<char>>> {
    match field(raw, key, place) {
        None => Some(None),
        Some(JsonView::Null) => Some(None),
        Some(JsonView::Str(s)) => Some(Some(s)),
        Some(_) => None,
    }
}

/// A truth value that may be missing or null. Outside it stands whether the
/// field has that shape.
pub open spec fn maybe_bool_field(raw: JsonView, key: Seq<char>, place: int) -> Option<Option<bool>> {
    match field(raw, key, place) {
        None => Some(None),
        Some(JsonView::Null) => Some(None),
        Some(JsonView::Bool(b)) => Some(Some(b)),
        Some(_) => None,
    }
}

/// The block of known shape that a value is.
pub open spec fn known_block(raw: JsonView) -> Option<BlockView> {
    let tag = text_field(raw, "type"@, 0);
    if tag == Some("text"@) {
        match text_field(raw, "text"@, 1) {
            Some(text) if lists_at_most(raw, 2) => Some(BlockView::Text(text)),
            _ => None,
        }
    } else if tag == Some("thinking"@) {
        match (text_field(raw, "thinking"@, 1), maybe_text_field(raw, "signature"@, 2)) {
            (Some(thinking), Some(signature)) if lists_at_most(raw, 3) => Some(
                BlockView::Thinking(thinking, signature),
            ),
            _ => None,
        }
    } else if tag == Some("tool_use"@) {
        match (text_field(raw, "id"@, 1), text_field(raw, "name"@, 2), field(raw, "input"@, 3)) {
            (Some(id), Some(name), Some(input)) if lists_at_most(raw, 4) => Some(
                BlockView::ToolUse { id, name, input },
            ),
            _ => None,
        }
    } else if tag == Some("tool_result"@) {
        match (
            text_field(raw, "tool_use_id"@, 1),
            field(raw, "content"@, 2),
            maybe_bool_field(raw, "is_error"@, 3),
        ) {
            (Some(tool_use_id), Some(content), Some(is_error)) if lists_at_most(raw, 4) => Some(
                BlockView::ToolResult { tool_use_id, content, is_error },
            ),
            _ => None,
        }
    } else {
        None
    }
}

/// The block that a value is.
pub open spec fn block_of(raw: JsonView) -> BlockView {
    match known_block(raw) {
        Some(block) => block,
        None => BlockView::Other(raw),
    }
}

/// A text that may be missing, as JSON.
pub open spec fn text_or_null(text: Option<Seq<char>>) -> JsonView {
    match text {
        Some(t) => JsonView::Str(t),
        None => JsonView::Null,
    }
}

/// A truth value that may be missing, as JSON.
pub open spec fn bool_or_null(b: Option<bool>) -> JsonView {
    match b {
        Some(b) => JsonView::Bool(b),
        None => JsonView::Null,
    }
}

/// The value that stands for a block: the tag first, then the fields. A field
/// that is missing is null.
pub open spec fn wire_of(block: BlockView) -> JsonView {
    match block {
        BlockView::Text(text) => JsonView::Object(
            seq![("type"@, JsonView::Str("text"@)), ("text"@, JsonView::Str(text))],
        ),
        BlockView::Thinking(thinking, signature) => JsonView::Object(
            seq![
                ("type"@, JsonView::Str("thinking"@)),
                ("thinking"@, JsonView::Str(thinking)),
                ("signature"@, text_or_null(signature)),
            ],
        ),
        BlockView::ToolUse { id, name, input } => JsonView::Object(
            seq![
                ("type"@, JsonView::Str("tool_use"@)),
                ("id"@, JsonView::Str(id)),
                ("name"@, JsonView::Str(name)),
                ("input"@, input),
            ],
        ),
        BlockView::ToolResult { tool_use_id, content, is_error } => JsonView::Object(
            seq![
                ("type"@, JsonView::Str("tool_result"@)),
                ("tool_use_id"@, JsonView::Str(tool_use_id)),
                ("content"@, content),
                ("is_error"@, bool_or_null(is_error)),
            ],
        ),
        BlockView::Other(raw) => raw,
    }
}

/// Looks a field up, by its name in an object and by its place in a list.
pub(crate) fn find_field<'a>(raw: &'a Json, key: &str, place: usize) -> (found: Option<&'a Json>)
    ensures
        option_view(found) == field(raw@, key@, place as int),
{
    broadcast use group_json;

    match raw {
        Json::Array(_) => raw.at(place),
        _ => raw.get(key),
    }
}

/// Looks a field up that is a text.
pub(crate) fn find_text_field(raw: &Json, key: &str, place: usize) -> (found: Option<String>)
    ensures
        opt_text(found) == text_field(raw@, key@, place as int),
{
    match find_field(raw, key, place) {
        Some(v) => match v.as_str() {
            Some(t) => Some(t.to_owned()),
            None => None,
        },
        None => None,
    }
}

/// Whether a list is no longer than `most`.
pub(crate) fn is_listed_within(raw: &Json, most: usize) -> (b: bool)
    ensures
        b == lists_at_most(raw@, most as int),
{
    broadcast use group_json;

    match raw {
        Json::Array(a) => a.len() <= most,
        _ => true,
    }
}

/// A member whose key is a literal.
fn member(key: &str, value: Json) -> (m: (String, Json))
    ensures
        m.0@ == key@,
        m.1 == value,
{
    (key.to_owned(), value)
}

impl AnthropicContentBlock {
    /// The block of known shape that a value is.
    fn known_from_json(raw: &Json) -> (block: Option<AnthropicContentBlock>)
        ensures
            match block {
                Some(b) => known_block(raw@) == Some(b@),
                None => known_block(raw@) is None,
            },
    {
        let tag = match find_text_field(raw, "type", 0) {
            Some(tag) => tag,
            None => return None,
        };
        let tag = tag.as_str();
        if same_text(tag, "text") {
            let text = find_text_field(raw, "text", 1)?;
            if is_listed_within(raw, 2) {
                Some(AnthropicContentBlock::Text { text })
            } else {
                None
            }
        } else if same_text(tag, "thinking") {
            let thinking = find_text_field(raw, "thinking", 1)?;
            let signature = match find_field(raw, "signature", 2) {
                None => None,
                Some(Json::Null) => None,
                Some(Json::Str(s)) => Some(s.clone()),
                Some(_) => return None,
            };
            if is_listed_within(raw, 3) {
                Some(AnthropicContentBlock::Thinking { thinking, signature })
            } else {
                None
            }
        } else if same_text(tag, "tool_use") {
            let id = find_text_field(raw, "id", 1)?;
            let name = find_text_field(raw, "name", 2)?;
            let input = match find_field(raw, "input", 3) {
                Some(v) => v.clone(),
                None => return None,
            };
            if is_listed_within(raw, 4) {
                Some(AnthropicContentBlock::ToolUse { id, name, input })
            } else {
                None
            }
        } else if same_text(tag, "tool_result") {
            let tool_use_id = find_text_field(raw, "tool_use_id", 1)?;
            let content = match find_field(raw, "content", 2) {
                Some(v) => v.clone(),
                None => return None,
            };
            let is_error = match find_field(raw, "is_error", 3) {
                None => None,
                Some(Json::Null) => None,
                Some(Json::Bool(b)) => Some(*b),
                Some(_) => return None,
            };
            if is_listed_within(raw, 4) {
                Some(AnthropicContentBlock::ToolResult { tool_use_id, content, is_error })
            } else {
                None
            }
        } else {
            None
        }
    }

    /// The block that a value is. A value of no known shape is kept whole.
    pub fn from_json(raw: Json) -> (block: AnthropicContentBlock)
        ensures
            block@ == block_of(raw@),
    {
        match AnthropicContentBlock::known_from_json(&raw) {
            Some(block) => block,
            None => AnthropicContentBlock::Other(raw),
        }
    }

    /// The value that stands for the block.
    pub fn to_json(&self) -> (raw: Json)
        ensures
            raw@ == wire_of(self@),
    {
        broadcast use group_json;

        let members = match self {
            AnthropicContentBlock::Text { text } => vec![
                member("type", Json::Str("text".to_owned())),
                member("text", Json::Str(text.clone())),
            ],
            AnthropicContentBlock::Thinking { thinking, signature } => vec![
                member("type", Json::Str("thinking".to_owned())),
                member("thinking", Json::Str(thinking.clone())),
                member(
                    "signature",
                    match signature {
                        Some(s) => Json::Str(s.clone()),
                        None => Json::Null,
                    },
                ),
            ],
            AnthropicContentBlock::ToolUse { id, name, input } => vec![
                member("type", Json::Str("tool_use".to_owned())),
                member("id", Json::Str(id.clone())),
                member("name", Json::Str(name.clone())),
                member("input", input.clone()),
            ],
            AnthropicContentBlock::ToolResult { tool_use_id, content, is_error } => vec![
                member("type", Json::Str("tool_result".to_owned())),
                member("tool_use_id", Json::Str(tool_use_id.clone())),
                member("content", content.clone()),
                member(
                    "is_error",
                    match is_error {
                        Some(b) => Json::Bool(*b),
                        None => Json::Null,
                    },
                ),
            ],
            AnthropicContentBlock::Other(raw) => return raw.clone(),
        };
        proof {
            assert(member_views(members@) =~= wire_of(self@)->Object_0);
        }
        Json::Object(members)
    }
}

/// A value of no known shape comes out as it went in.
pub proof fn law_unknown_blocks_pass_through(raw: JsonView)
    requires
        known_block(raw) is None,
    ensures
        block_of(raw) == BlockView::Other(raw),
        wire_of(block_of(raw)) == raw,
{
}

/// A block of known shape is read back from what stands for it.
pub proof fn law_known_blocks_are_read_back(block: BlockView)
    requires
        !(block is Other),
    ensures
        block_of(wire_of(block)) == block,
{
    reveal_with_fuel(position_from, 5);
    reveal_strlit("type");
    reveal_strlit("text");
    reveal_strlit("thinking");
    reveal_strlit("signature");
    reveal_strlit("tool_use");
    reveal_strlit("tool_result");
    reveal_strlit("id");
    reveal_strlit("name");
    reveal_strlit("input");
    reveal_strlit("tool_use_id");
    reveal_strlit("content");
    reveal_strlit("is_error");
    let raw = wire_of(block);
    let m = raw->Object_0;
    assert("type"@[1] != "text"@[1]);
    assert("type"@[0] != "name"@[0]);
    assert("thinking"@.len() != "tool_use"@.len() || "thinking"@[1] != "tool_use"@[1]);
    assert("tool_use_id"@ != "tool_result"@) by {
        assert("tool_use_id"@[5] != "tool_result"@[5]);
    }
    assert(m[0].0 == "type"@);
    assert(position(m, "type"@) == 0);
    match block {
        BlockView::Text(_) => {
            assert(position(m, "text"@) == 1);
            assert(known_block(raw) == Some(block));
        },
        BlockView::Thinking(_, _) => {
            assert(position(m, "thinking"@) == 1);
            assert("signature"@.len() != "thinking"@.len());
            assert(position(m, "signature"@) == 2);
            assert(known_block(raw) == Some(block));
        },
        BlockView::ToolUse { .. } => {
            assert(position(m, "id"@) == 1);
            assert("name"@.len() != "id"@.len());
            assert(position(m, "name"@) == 2);
            assert("input"@.len() == 5);
            assert(position(m, "input"@) == 3);
            assert(known_block(raw) == Some(block));
        },
        BlockView::ToolResult { .. } => {
            assert(position(m, "tool_use_id"@) == 1);
            assert("content"@.len() == 7);
            assert(position(m, "content"@) == 2);
            assert("is_error"@.len() == 8);
            assert(position(m, "is_error"@) == 3);
            assert("tool_result"@.len() == 11);
            assert(m[3].1 == bool_or_null(block->is_error));
            assert(maybe_bool_field(raw, "is_error"@, 3) == Some(block->is_error));
            assert(known_block(raw) == Some(block));
        },
        BlockView::Other(_) => {},
    }
}

} // verus!
