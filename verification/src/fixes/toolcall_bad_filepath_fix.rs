//! Repair of a `filePath` that a tool call carries twice.
//!
//! A model writes `{"content":"code","filePath":"/a","filePath"/a"}`: the key
//! comes a second time, and often not as JSON. The schema of the tool allows
//! no member after `filePath`, so everything after its first complete value is
//! garbage. The repair cuts the text after the quote that closes that value
//! and closes the object. Arguments that are valid JSON and carry the key
//! twice keep the first value.

use vstd::prelude::*;
use vstd::string::*;
use vstd::utf8::*;
use crate::json::{is_plain, is_read_as, is_read_within, values_are_read, lemma_put, lemma_with_member_lookup, nests_within, parsed, printed, put, with_member, Json, JsonView, MAX_NESTING};
use crate::text::{chars_of, find_from, find_text, is_white, is_white_char, joined, slice_bytes, text_of};
use super::json_scan::{key_count, key_spans, lemma_key_spans, object_members, value_text, top_level_key_count, top_level_key_spans, span_views};
use super::snippet::{clipped, truncate_snippet, SnippetLimit};
use super::walk::{call_at, find_trigger, law_untriggered_walk_changes_nothing, law_walk_repairs_each_call, repair_response, response_triggers, repair_fn, trigger_fn, walk_response, CallRepair, Sides};
use super::{aggregated, outcome_view, ActionView, ErrorView, FixAction, FixError, FixLogLevel, Outcome, ResponseFix};

verus! {

broadcast use {vstd::string::group_string_axioms, crate::json::group_json};

/// The fix for a `filePath` that a tool call carries twice.
pub struct ToolcallBadFilepathFix {}

/// Arguments that are no JSON, or an object with more than one `filePath`.
pub open spec fn malformed(args: Seq<char>) -> bool {
    parsed(args) is Err || key_count(args, "filePath"@) > 1
}

/// The first place at or after `i` that holds neither whitespace nor a colon.
pub open spec fn after_colon(s: Seq<char>, i: int) -> int
    decreases s.len() - i,
{
    if 0 <= i < s.len() && (is_white(s[i]) || s[i] == ':') {
        after_colon(s, i + 1)
    } else {
        i
    }
}

/// The place after the quote that closes a string whose text goes on at `j`. A
/// backslash takes the next character with it.
pub open spec fn closing_quote(s: Seq<char>, j: int) -> Option<int>
    decreases s.len() + 1 - j,
{
    if j < 0 || j >= s.len() {
        None
    } else if s[j] == '\\' {
        closing_quote(s, j + 2)
    } else if s[j] == '"' {
        Some(j + 1)
    } else {
        closing_quote(s, j + 1)
    }
}

/// The place after the string value that `s` begins with, behind whitespace
/// and colons.
pub open spec fn string_value_end(s: Seq<char>) -> Option<int> {
    let i = after_colon(s, 0);
    if i < s.len() && s[i] == '"' {
        closing_quote(s, i + 1)
    } else {
        None
    }
}

/// The value of the first of several `filePath` members; nothing where there
/// are not several.
pub open spec fn first_filepath(args: Seq<char>) -> Option<JsonView> {
    let spans = key_spans(args, "filePath"@);
    if spans.len() < 2 {
        None
    } else {
        match parsed(value_text(args, spans[0])) {
            Ok(v) => Some(v),
            Err(_) => None,
        }
    }
}

/// Arguments that were read, with the first `filePath` in place of the last.
pub open spec fn first_wins(json: JsonView, args: Seq<char>) -> JsonView {
    match (first_filepath(args), json) {
        (Some(v), JsonView::Object(m)) => JsonView::Object(with_member(m, "filePath"@, v)),
        _ => json,
    }
}

/// A text for an error: 200 characters of it.
pub open spec fn excerpt(s: Seq<char>) -> Seq<char> {
    clipped(s, 200, SnippetLimit::Chars)
}

/// The arguments cut after their first complete `filePath` and closed.
pub open spec fn truncated(args: Seq<char>) -> Result<Seq<char>, ErrorView> {
    match find_from(args, "\"filePath\":"@, 0) {
        None => Err(
            ErrorView::Parse(
                "unparseable arguments carry no repairable \"filePath\":\"<value>\" pattern: "@ + excerpt(args),
            ),
        ),
        Some(start) => {
            let value = start + "\"filePath\":"@.len();
            match string_value_end(args.skip(value)) {
                None => Err(ErrorView::Parse("first filePath value has no closing quote: "@ + excerpt(args))),
                Some(end) => Ok(args.take(value + end).push('}')),
            }
        },
    }
}

/// What the repair makes of arguments.
pub open spec fn repaired(args: Seq<char>) -> Result<Seq<char>, ErrorView> {
    match parsed(args) {
        Ok(json) => {
            let text = printed(first_wins(json, args));
            match parsed(text) {
                Ok(_) => Ok(text),
                Err(m) => Err(ErrorView::Rebuild("re-serializing parsed arguments failed: "@ + m)),
            }
        },
        Err(_) => match truncated(args) {
            Err(e) => Err(e),
            Ok(text) => if parsed(text) is Ok {
                Ok(text)
            } else {
                Err(
                    ErrorView::Rebuild("schema-truncation candidate is still invalid JSON: "@ + excerpt(text)),
                )
            },
        },
    }
}

/// The arguments of a tool call, where they are a string.
pub open spec fn arguments_of(call: JsonView) -> Option<Seq<char>> {
    match call.get("function"@) {
        Some(f) => match f.get("arguments"@) {
            Some(a) => a.as_str(),
            None => None,
        },
        None => None,
    }
}

/// A tool call with other arguments.
pub open spec fn with_arguments(call: JsonView, args: Seq<char>) -> JsonView {
    put(call, "function"@, put(call.get("function"@)->0, "arguments"@, JsonView::Str(args)))
}

proof fn lemma_closing_quote(s: Seq<char>, j: int)
    requires
        closing_quote(s, j) is Some,
    ensures
        0 <= j < closing_quote(s, j)->0 <= s.len(),
        s[closing_quote(s, j)->0 - 1] == '"',
    decreases s.len() + 1 - j,
{
    if s[j] == '\\' {
        lemma_closing_quote(s, j + 2);
    } else if s[j] != '"' {
        lemma_closing_quote(s, j + 1);
    }
}

proof fn lemma_after_colon(s: Seq<char>, i: int)
    requires
        0 <= i <= s.len(),
    ensures
        i <= after_colon(s, i) <= s.len(),
    decreases s.len() - i,
{
    if i < s.len() && (is_white(s[i]) || s[i] == ':') {
        lemma_after_colon(s, i + 1);
    }
}

/// The place after the string value that the characters begin with, behind
/// whitespace and colons.
fn find_string_end(s: &Vec<char>) -> (end: Option<usize>)
    ensures
        match end {
            Some(e) => string_value_end(s@) == Some(e as int) && e <= s@.len(),
            None => string_value_end(s@) is None,
        },
{
    let n = s.len();
    let mut i: usize = 0;
    while i < n && (is_white_char(s[i]) || s[i] == ':')
        invariant
            n == s@.len(),
            i <= n,
            after_colon(s@, 0) == after_colon(s@, i as int),
        decreases n - i,
    {
        i += 1;
    }
    if i >= n || s[i] != '"' {
        return None;
    }
    let mut j: usize = i + 1;
    while j < n
        invariant
            n == s@.len(),
            j <= n,
            string_value_end(s@) == closing_quote(s@, j as int),
        decreases n - j,
    {
        if s[j] == '\\' {
            if n - j < 2 {
                assert(closing_quote(s@, j + 2) is None);
                return None;
            }
            j += 2;
        } else if s[j] == '"' {
            return Some(j + 1);
        } else {
            j += 1;
        }
    }
    None
}

impl ToolcallBadFilepathFix {
    /// A fix; it has no state.
    pub fn new() -> (fix: ToolcallBadFilepathFix) {
        ToolcallBadFilepathFix {  }
    }

    /// Whether arguments are malformed.
    pub fn is_malformed(&self, args: &str) -> (bad: bool)
        ensures
            bad == malformed(args@),
    {
        match Json::parse(args) {
            Err(_) => true,
            Ok(_) => top_level_key_count(args, "filePath") > 1,
        }
    }

    /// Whether a text is valid JSON.
    pub fn is_valid_json(&self, s: &str) -> (valid: bool)
        ensures
            valid == (parsed(s@) is Ok),
    {
        Json::parse(s).is_ok()
    }

    /// The value of the first of several `filePath` members.
    fn first_wins_filepath(args: &str) -> (first: Option<Json>)
        ensures
            match first {
                Some(v) => first_filepath(args@) == Some(v@),
                None => first_filepath(args@) is None,
            },
    {
        let spans = top_level_key_spans(args, "filePath");
        proof {
            assert(span_views(spans@).len() == spans@.len());
        }
        if spans.len() < 2 {
            return None;
        }
        proof {
            assert(span_views(spans@)[0] == spans@[0]@);
            lemma_key_spans(args@, "filePath"@, 0);
        }
        let raw = slice_bytes(args, spans[0].value.start, spans[0].value.end);
        match Json::parse(raw) {
            Ok(v) => Some(v),
            Err(_) => None,
        }
    }

    /// Repairs arguments. What it returns is valid JSON; where it can build
    /// none, it says why. Arguments that can be read keep their members, with
    /// the first of several `filePath`s.
    pub fn fix_arguments(&self, args: &str) -> (result: Result<String, FixError>)
        ensures
            match result {
                Ok(text) => repaired(args@) == Ok::<Seq<char>, ErrorView>(text@) && parsed(text@) is Ok,
                Err(e) => repaired(args@) == Err::<Seq<char>, ErrorView>(e@),
            },
            parsed(args@) is Ok ==> result is Ok,
            parsed(args@) is Ok && key_spans(args@, "filePath"@).len() > 1 ==> first_filepath(args@) is Some,
            parsed(args@) is Ok && is_plain(first_wins(parsed(args@)->Ok_0, args@), MAX_NESTING as nat)
                ==> is_read_as(parsed(result->Ok_0@), first_wins(parsed(args@)->Ok_0, args@)),
    {
        match Json::parse(args) {
            Ok(json) => {
                let mut json = json;
                let ghost read = json@;
                proof {
                    lemma_first_filepath_is_read(args@);
                }
                if let Some(first) = Self::first_wins_filepath(args) {
                    json.insert("filePath".to_owned(), first);
                    proof {
                        lemma_insert_nests(read, "filePath"@, first@, MAX_NESTING as nat);
                    }
                }
                let text = json.print();
                return match Json::parse(text.as_str()) {
                    Ok(_) => Ok(text),
                    Err(m) => Err(
                        FixError::Rebuild(joined("re-serializing parsed arguments failed: ", m.as_str())),
                    ),
                };
            },
            Err(_) => {},
        }
        let text = match self.truncate_arguments(args) {
            Err(e) => {
                return Err(e);
            },
            Ok(text) => text,
        };
        if self.is_valid_json(text.as_str()) {
            return Ok(text);
        }
        Err(
            FixError::Rebuild(
                joined(
                    "schema-truncation candidate is still invalid JSON: ",
                    truncate_snippet(text.as_str(), 200, SnippetLimit::Chars).as_str(),
                ),
            ),
        )
    }

    /// The arguments cut after their first complete `filePath` and closed. The
    /// cut follows a quote, so no comma is left before the closing brace.
    pub fn truncate_arguments(&self, args: &str) -> (result: Result<String, FixError>)
        ensures
            match result {
                Ok(text) => truncated(args@) == Ok::<Seq<char>, ErrorView>(text@),
                Err(e) => truncated(args@) == Err::<Seq<char>, ErrorView>(e@),
            },
    {
        let chars = chars_of(args);
        let key = chars_of("\"filePath\":");
        let start = match find_text(&chars, &key) {
            None => {
                return Err(
                    FixError::Parse(
                        joined(
                            "unparseable arguments carry no repairable \"filePath\":\"<value>\" pattern: ",
                            truncate_snippet(args, 200, SnippetLimit::Chars).as_str(),
                        ),
                    ),
                );
            },
            Some(start) => start,
        };
        let total = chars.len();
        let value = start + key.len();
        let rest = chars_of(text_of(&chars, value, total).as_str());
        proof {
            assert(rest@ =~= args@.skip(value as int));
        }
        let end = match find_string_end(&rest) {
            None => {
                return Err(
                    FixError::Parse(
                        joined(
                            "first filePath value has no closing quote: ",
                            truncate_snippet(args, 200, SnippetLimit::Chars).as_str(),
                        ),
                    ),
                );
            },
            Some(end) => end,
        };
        let mut text = text_of(&chars, 0, value + end);
        proof {
            assert(text@ =~= args@.take(value + end));
        }
        text.push('}');
        Ok(text)
    }
}

/// Where the values of the members are read by themselves, so is that of the
/// first of several `filePath`s.
proof fn lemma_first_filepath_is_read(args: Seq<char>)
    requires
        values_are_read(args),
    ensures
        key_spans(args, "filePath"@).len() > 1 ==> first_filepath(args) is Some && nests_within(
            first_filepath(args)->0,
            (MAX_NESTING - 1) as nat,
        ),
{
    let spans = key_spans(args, "filePath"@);
    if spans.len() > 1 {
        lemma_key_spans(args, "filePath"@, 0);
        let members = object_members(encode_utf8(args))->0;
        let k = choose|k: int| 0 <= k < members.len() && members[k] == spans[0];
        assert(is_read_within(parsed(value_text(args, members[k])), (MAX_NESTING - 1) as nat));
    }
}

/// Setting a member of an object to a value that nests one less deep keeps the
/// object's nesting.
pub proof fn lemma_insert_nests(v: JsonView, key: Seq<char>, value: JsonView, depth: nat)
    requires
        depth > 0,
        nests_within(v, depth),
    ensures
        nests_within(value, (depth - 1) as nat) ==> nests_within(
            match v {
                JsonView::Object(m) => JsonView::Object(with_member(m, key, value)),
                other => other,
            },
            depth,
        ),
{
    if let JsonView::Object(m) = v {
        let w = with_member(m, key, value);
        if nests_within(value, (depth - 1) as nat) {
            let at = crate::json::place_from(m, key, 0);
            crate::json::lemma_place(m, key, 0);
            if crate::json::has_key(m, key) {
                crate::json::lemma_position(m, key, 0);
            }
            assert forall|i: int| 0 <= i < w.len() implies nests_within((#[trigger] w[i]).1, (depth - 1) as nat) by {
                if crate::json::has_key(m, key) {
                    assert(w[i].1 == value || w[i] == m[i]);
                } else {
                    assert(w[i].1 == value || w[i] == m[if i < at { i } else { i - 1 }]);
                }
            }
        }
    }
}

impl CallRepair for ToolcallBadFilepathFix {
    open spec fn triggers_view(&self, call: JsonView) -> bool {
        match arguments_of(call) {
            Some(args) => malformed(args),
            None => false,
        }
    }

    open spec fn repair_view(&self, at: int, call: JsonView) -> Result<(JsonView, Option<ActionView>), ErrorView> {
        match arguments_of(call) {
            Some(args) => if malformed(args) {
                match repaired(args) {
                    Ok(text) => Ok(
                        (with_arguments(call, text), Some(ActionView::Fixed { original: args, fixed: text })),
                    ),
                    Err(e) => Err(e),
                }
            } else {
                Ok((call, None))
            },
            None => Ok((call, None)),
        }
    }

    fn triggers(&self, call: &Json) -> bool {
        match call.get("function") {
            Some(f) => match f.get("arguments") {
                Some(Json::Str(args)) => self.is_malformed(args.as_str()),
                _ => false,
            },
            None => false,
        }
    }

    fn repair(&self, at: usize, call: &mut Json) -> Result<Option<FixAction>, FixError> {
        let args = match call.get("function") {
            Some(f) => match f.get("arguments") {
                Some(Json::Str(args)) => args.clone(),
                _ => {
                    return Ok(None);
                },
            },
            None => {
                return Ok(None);
            },
        };
        if !self.is_malformed(args.as_str()) {
            return Ok(None);
        }
        match self.fix_arguments(args.as_str()) {
            Err(e) => Err(e),
            Ok(text) => {
                let action = FixAction::fixed(args.as_str(), text.as_str());
                if let Some(function) = call.get_mut("function") {
                    function.insert("arguments".to_owned(), Json::Str(text));
                }
                Ok(Some(action))
            },
        }
    }
}

impl ResponseFix for ToolcallBadFilepathFix {
    open spec fn name_view(&self) -> Seq<char> {
        "toolcall_bad_filepath"@
    }

    open spec fn description_view(&self) -> Seq<char> {
        "Fixes duplicate/malformed filePath in Qwen3-Coder tool calls"@
    }

    open spec fn log_level_view(&self) -> FixLogLevel {
        FixLogLevel::Info
    }

    open spec fn applies_view(&self, response: JsonView) -> bool {
        response_triggers(trigger_fn(*self), response, Sides::Message)
    }

    /// The response with every call repaired, or the response as it was.
    open spec fn apply_view(&self, response: JsonView) -> (JsonView, ActionView) {
        match self.apply_in_context(response, JsonView::Null) {
            Ok(done) => done,
            Err(e) => (response, ActionView::Failed { original: excerpt(printed(response)), attempted: e.message() }),
        }
    }

    open spec fn applies_in_context(&self, response: JsonView, request: JsonView) -> bool {
        self.applies_view(response)
    }

    open spec fn apply_in_context(&self, response: JsonView, request: JsonView) -> Outcome {
        match walk_response(repair_fn(*self), response, Sides::Message) {
            Ok((done, actions)) => Ok((done, aggregated(actions))),
            Err(e) => Err(e),
        }
    }

    fn name(&self) -> &str {
        "toolcall_bad_filepath"
    }

    fn description(&self) -> &str {
        "Fixes duplicate/malformed filePath in Qwen3-Coder tool calls"
    }

    fn applies(&self, response: &Json) -> bool {
        find_trigger(self, response, Sides::Message)
    }

    fn apply(&self, response: Json) -> (Json, FixAction) {
        let original = response.clone();
        match self.apply_checked(response) {
            Ok(done) => done,
            Err(e) => {
                let snippet = truncate_snippet(original.print().as_str(), 200, SnippetLimit::Chars);
                (original, FixAction::failed(snippet.as_str(), e.to_string().as_str()))
            },
        }
    }

    fn apply_with_context(&self, response: Json, request: &Json) -> (result: Result<(Json, FixAction), FixError>)
        ensures
            outcome_view(result) == self.apply_in_context(response@, request@),
    {
        self.apply_checked(response)
    }

    proof fn lemma_log_level(&self, level: FixLogLevel) {
    }

    proof fn lemma_applies_with_context(&self, response: &Json, request: &Json, applies: bool) {
    }

    proof fn lemma_apply_with_context(
        &self,
        response: Json,
        request: &Json,
        result: Result<(Json, FixAction), FixError>,
    ) {
    }
}

impl ToolcallBadFilepathFix {
    /// Repairs every malformed call, or fails at the first that cannot be
    /// repaired.
    fn apply_checked(&self, response: Json) -> (result: Result<(Json, FixAction), FixError>)
        ensures
            outcome_view(result) == self.apply_in_context(response@, JsonView::Null),
    {
        let mut response = response;
        match repair_response(self, &mut response, Sides::Message) {
            Ok(repairs) => Ok((response, FixAction::aggregate_repairs(repairs.as_slice()))),
            Err(e) => Err(e),
        }
    }
}

/// A repair gives valid JSON.
pub proof fn law_repaired_arguments_are_valid(args: Seq<char>)
    requires
        repaired(args) is Ok,
    ensures
        parsed(repaired(args)->Ok_0) is Ok,
{
}

/// Of several `filePath`s the first is kept, and every other member stays.
pub proof fn law_the_first_filepath_wins(json: JsonView, args: Seq<char>, key: Seq<char>)
    requires
        json is Object,
        first_filepath(args) is Some,
    ensures
        first_wins(json, args).get("filePath"@) == first_filepath(args),
        key != "filePath"@ ==> first_wins(json, args).get(key) == json.get(key),
{
    lemma_with_member_lookup(json->Object_0, "filePath"@, first_filepath(args)->0, key);
    lemma_with_member_lookup(json->Object_0, "filePath"@, first_filepath(args)->0, "filePath"@);
}

/// Arguments that are well-formed are left as they are.
pub proof fn law_good_arguments_are_kept(fix: ToolcallBadFilepathFix, at: int, call: JsonView)
    requires
        arguments_of(call) is Some ==> !malformed(arguments_of(call)->0),
    ensures
        fix.repair_view(at, call) == Ok::<(JsonView, Option<ActionView>), ErrorView>((call, None)),
{
}

/// The fix gives back the response that it was handed, or one in which every
/// call of a message was repaired: never one that is half done.
pub proof fn law_original_or_fully_fixed(
    fix: ToolcallBadFilepathFix,
    response: JsonView,
    i: int,
    j: int,
)
    ensures
        walk_response(repair_fn(fix), response, Sides::Message) is Err ==> fix.apply_view(response).0 == response,
        walk_response(repair_fn(fix), response, Sides::Message) is Ok ==> {
            let done = fix.apply_view(response).0;
            match call_at(done, i, "message"@, j) {
                Some(call) => arguments_of(call) is Some ==> parsed(arguments_of(call)->0) is Ok,
                None => call_at(response, i, "message"@, j) is None,
            }
        },
{
    let f = repair_fn(fix);
    if walk_response(f, response, Sides::Message) is Ok {
        law_walk_repairs_each_call(f, response, Sides::Message, i, "message"@, j);
        if let Some(call) = call_at(response, i, "message"@, j) {
            if arguments_of(call) is Some && malformed(arguments_of(call)->0) {
                let text = repaired(arguments_of(call)->0)->Ok_0;
                lemma_with_arguments(call, text);
            }
        }
    }
}

/// A call whose arguments were set has those arguments.
pub proof fn lemma_with_arguments(call: JsonView, text: Seq<char>)
    requires
        arguments_of(call) is Some,
    ensures
        arguments_of(with_arguments(call, text)) == Some(text),
{
    let function = call.get("function"@)->0;
    lemma_put(function, "arguments"@, JsonView::Str(text), "arguments"@);
    lemma_put(call, "function"@, put(function, "arguments"@, JsonView::Str(text)), "function"@);
}

/// A response that the fix is not for stays as it is, with or without the
/// request.
pub proof fn law_responses_without_malformed_arguments_are_kept(
    fix: ToolcallBadFilepathFix,
    response: JsonView,
    request: JsonView,
)
    requires
        !fix.applies_view(response),
    ensures
        fix.apply_view(response) == (response, ActionView::NotApplicable),
        fix.apply_in_context(response, request) == Ok::<(JsonView, ActionView), ErrorView>(
            (response, ActionView::NotApplicable),
        ),
{
    law_untriggered_walk_changes_nothing(repair_fn(fix), trigger_fn(fix), response, Sides::Message);
}

} // verus!
