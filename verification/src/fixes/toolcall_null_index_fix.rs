//! Repair of tool calls without a numeric `index`.
//!
//! The repair is positional and minimal. A call whose `index` is missing, null
//! or no number gets its position in the list. A numeric `index` is kept, even
//! where it differs from the position. An entry that is no object is left as
//! it is.

use vstd::prelude::*;
use vstd::string::*;
use crate::json::{lemma_with_member_lookup, with_member, Json, JsonView};
use super::walk::{find_trigger, law_untriggered_walk_changes_nothing, law_walk_is_idempotent, repair_response, repair_fn, response_triggers, trigger_fn, walk_response, CallRepair, Sides};
use super::{ActionView, ErrorView, FixAction, FixError, FixLogLevel, Outcome, ResponseFix};

verus! {

broadcast use {vstd::string::group_string_axioms, crate::json::group_json};

/// The fix for tool calls without a numeric `index`. Whether it runs is the
/// registry's to say: it has no switch of its own.
pub struct ToolCallNullIndexFix;

/// A call whose `index` is missing or no number.
pub open spec fn lacks_index(call: JsonView) -> bool {
    match call.get("index"@) {
        Some(v) => !v.is_number(),
        None => true,
    }
}

/// A call with an `index`.
pub open spec fn with_index(call: JsonView, at: int) -> JsonView {
    JsonView::Object(with_member(call->Object_0, "index"@, JsonView::Unsigned(((at as usize) as u32) as u64)))
}

/// The action of a response in which an index was set.
pub open spec fn indices_set() -> ActionView {
    ActionView::Fixed {
        original: "tool_calls with null/missing indices"@,
        fixed: "tool_calls with sequential indices (0, 1, 2, ...)"@,
    }
}

impl ToolCallNullIndexFix {
    /// A fix; it has no state.
    pub fn new() -> (fix: ToolCallNullIndexFix) {
        ToolCallNullIndexFix
    }

    /// Whether a tool call has no numeric `index`.
    pub fn needs_index_fix(call: &Json) -> (lacks: bool)
        ensures
            lacks == lacks_index(call@),
    {
        match call.get("index") {
            None => true,
            Some(v) => match v {
                Json::Unsigned(_) => false,
                Json::Negative(_) => false,
                Json::Float(_) => false,
                _ => true,
            },
        }
    }

    fn indices_action() -> (action: FixAction)
        ensures
            action@ == indices_set(),
    {
        FixAction::fixed(
            "tool_calls with null/missing indices",
            "tool_calls with sequential indices (0, 1, 2, ...)",
        )
    }
}

impl Default for ToolCallNullIndexFix {
    fn default() -> (fix: ToolCallNullIndexFix) {
        ToolCallNullIndexFix
    }
}

impl CallRepair for ToolCallNullIndexFix {
    open spec fn triggers_view(&self, call: JsonView) -> bool {
        lacks_index(call)
    }

    open spec fn repair_view(&self, at: int, call: JsonView) -> Result<(JsonView, Option<ActionView>), ErrorView> {
        if lacks_index(call) && call is Object {
            Ok((with_index(call, at), Some(indices_set())))
        } else {
            Ok((call, None))
        }
    }

    fn triggers(&self, call: &Json) -> bool {
        Self::needs_index_fix(call)
    }

    fn repair(&self, at: usize, call: &mut Json) -> Result<Option<FixAction>, FixError> {
        if !Self::needs_index_fix(call) {
            return Ok(None);
        }
        let is_object = match call {
            Json::Object(_) => true,
            _ => false,
        };
        if !is_object {
            return Ok(None);
        }
        call.insert("index".to_owned(), Json::Unsigned(#[verifier::truncate] (at as u32) as u64));
        Ok(Some(Self::indices_action()))
    }
}

impl ResponseFix for ToolCallNullIndexFix {
    open spec fn name_view(&self) -> Seq<char> {
        "toolcall_null_index_fix"@
    }

    open spec fn description_view(&self) -> Seq<char> {
        "Fixes null or missing index fields in tool calls by assigning sequential indices"@
    }

    open spec fn log_level_view(&self) -> FixLogLevel {
        FixLogLevel::Debug
    }

    open spec fn applies_view(&self, response: JsonView) -> bool {
        response_triggers(trigger_fn(*self), response, Sides::Both)
    }

    /// The response with every missing index set.
    open spec fn apply_view(&self, response: JsonView) -> (JsonView, ActionView) {
        match walk_response(repair_fn(*self), response, Sides::Both) {
            Ok((done, actions)) => (
                done,
                if actions.len() > 0 {
                    indices_set()
                } else {
                    ActionView::NotApplicable
                },
            ),
            Err(_) => (response, ActionView::NotApplicable),
        }
    }

    open spec fn applies_in_context(&self, response: JsonView, request: JsonView) -> bool {
        self.applies_view(response)
    }

    open spec fn apply_in_context(&self, response: JsonView, request: JsonView) -> Outcome {
        Ok(self.apply_view(response))
    }

    fn name(&self) -> &str {
        "toolcall_null_index_fix"
    }

    fn description(&self) -> &str {
        "Fixes null or missing index fields in tool calls by assigning sequential indices"
    }

    fn log_level(&self) -> (level: FixLogLevel)
        ensures
            level == FixLogLevel::Debug,
    {
        FixLogLevel::Debug
    }

    fn applies(&self, response: &Json) -> bool {
        find_trigger(self, response, Sides::Both)
    }

    fn apply(&self, response: Json) -> (Json, FixAction) {
        let mut response = response;
        let ghost before = response@;
        match repair_response(self, &mut response, Sides::Both) {
            Ok(repairs) => {
                if repairs.len() > 0 {
                    (response, Self::indices_action())
                } else {
                    (response, FixAction::NotApplicable)
                }
            },
            Err(_) => {
                proof {
                    lemma_never_fails(*self, before);
                }
                (response, FixAction::NotApplicable)
            },
        }
    }

    proof fn lemma_log_level(&self, level: FixLogLevel) {
    }

    proof fn lemma_applies_with_context(&self, response: &Json, request: &Json, applies: bool) {
    }

    proof fn lemma_apply_with_context(
        &self,
        response: Json,
        request: &Json,
        result: Result<(Json, FixAction), FixError>,
    ) {
    }
}

/// Setting indices cannot fail.
proof fn lemma_never_fails(fix: ToolCallNullIndexFix, response: JsonView)
    ensures
        walk_response(repair_fn(fix), response, Sides::Both) is Ok,
{
    super::walk::lemma_walk_never_fails(repair_fn(fix), response, Sides::Both);
}

/// A numeric `index` is never renumbered.
pub proof fn law_numeric_index_is_kept(fix: ToolCallNullIndexFix, at: int, call: JsonView)
    requires
        call.get("index"@) is Some,
        call.get("index"@)->0.is_number(),
    ensures
        fix.repair_view(at, call) == Ok::<(JsonView, Option<ActionView>), ErrorView>((call, None)),
{
}

/// An entry that is no object is left as it is.
pub proof fn law_other_entries_are_kept(fix: ToolCallNullIndexFix, at: int, call: JsonView)
    requires
        !(call is Object),
    ensures
        fix.repair_view(at, call) == Ok::<(JsonView, Option<ActionView>), ErrorView>((call, None)),
{
}

/// A call without a numeric `index` gets its position, and every other member
/// stays.
pub proof fn law_missing_index_is_the_position(fix: ToolCallNullIndexFix, at: int, call: JsonView, key: Seq<char>)
    requires
        call is Object,
        lacks_index(call),
        0 <= at <= u32::MAX,
    ensures
        fix.repair_view(at, call) is Ok,
        ({
            let repaired = fix.repair_view(at, call)->Ok_0.0;
            &&& repaired.get("index"@) == Some(JsonView::Unsigned(at as u64))
            &&& key != "index"@ ==> repaired.get(key) == call.get(key)
        }),
{
    lemma_with_member_lookup(call->Object_0, "index"@, JsonView::Unsigned(at as u64), "index"@);
    lemma_with_member_lookup(call->Object_0, "index"@, JsonView::Unsigned(at as u64), key);
}

/// Repairing a repaired call changes nothing.
pub proof fn law_call_repair_is_idempotent(fix: ToolCallNullIndexFix, at: int, call: JsonView)
    ensures
        fix.repair_view(at, call) is Ok,
        fix.repair_view(at, fix.repair_view(at, call)->Ok_0.0) == Ok::<(JsonView, Option<ActionView>), ErrorView>(
            (fix.repair_view(at, call)->Ok_0.0, None),
        ),
{
    if lacks_index(call) && call is Object {
        let n = JsonView::Unsigned(((at as usize) as u32) as u64);
        lemma_with_member_lookup(call->Object_0, "index"@, n, "index"@);
    }
}

/// Applying the fix to a response that it repaired changes nothing.
pub proof fn law_fix_is_idempotent(fix: ToolCallNullIndexFix, response: JsonView)
    ensures
        fix.apply_view(fix.apply_view(response).0) == (fix.apply_view(response).0, ActionView::NotApplicable),
{
    let f = repair_fn(fix);
    lemma_never_fails(fix, response);
    assert forall|at: int, call: JsonView| (#[trigger] f(at, call)) is Ok implies f(at, f(at, call)->Ok_0.0) == Ok::<
        (JsonView, Option<ActionView>),
        ErrorView,
    >((f(at, call)->Ok_0.0, None)) by {
        law_call_repair_is_idempotent(fix, at, call);
    }
    law_walk_is_idempotent(f, response, Sides::Both);
}

/// A response in which no call lacks an index stays as it is.
pub proof fn law_responses_with_indices_are_kept(fix: ToolCallNullIndexFix, response: JsonView)
    requires
        !fix.applies_view(response),
    ensures
        fix.apply_view(response) == (response, ActionView::NotApplicable),
{
    law_untriggered_walk_changes_nothing(repair_fn(fix), trigger_fn(fix), response, Sides::Both);
}

} // verus!
