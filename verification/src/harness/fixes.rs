//! Fixes for tests of what a registry does with its fixes.

use vstd::prelude::*;
use vstd::string::*;
use crate::fixes::{
    ActionView, ErrorView, FixAction, FixError, FixLogLevel, Outcome, ResponseFix, ToolcallMalformedArgumentsFix,
};
use crate::json::{member_views, Json, JsonView};

verus! {

broadcast use {vstd::string::group_string_axioms, crate::json::group_json};

/// A fix that is for no response, and has of every method that has a default
/// the default.
pub struct BareFix;

impl ResponseFix for BareFix {
    open spec fn name_view(&self) -> Seq<char> {
        "bare_fix"@
    }

    open spec fn description_view(&self) -> Seq<char> {
        "minimal fix that has every default"@
    }

    open spec fn log_level_view(&self) -> FixLogLevel {
        FixLogLevel::Info
    }

    open spec fn applies_view(&self, response: JsonView) -> bool {
        false
    }

    open spec fn apply_view(&self, response: JsonView) -> (JsonView, ActionView) {
        (response, ActionView::NotApplicable)
    }

    open spec fn applies_in_context(&self, response: JsonView, request: JsonView) -> bool {
        false
    }

    open spec fn apply_in_context(&self, response: JsonView, request: JsonView) -> Outcome {
        Ok((response, ActionView::NotApplicable))
    }

    fn name(&self) -> &str {
        "bare_fix"
    }

    fn description(&self) -> &str {
        "minimal fix that has every default"
    }

    fn applies(&self, response: &Json) -> bool {
        false
    }

    fn apply(&self, response: Json) -> (Json, FixAction) {
        (response, FixAction::NotApplicable)
    }

    proof fn lemma_log_level(&self, level: FixLogLevel) {
    }

    proof fn lemma_applies_with_context(&self, response: &Json, request: &Json, applies: bool) {
    }

    proof fn lemma_apply_with_context(
        &self,
        response: Json,
        request: &Json,
        result: Result<(Json, FixAction), FixError>,
    ) {
    }
}

/// A fix that does with the request at hand what its variant says.
pub enum ScriptedFix {
    /// Fails on every response.
    Failing,
    /// Puts a mark in the place of every response.
    Marking,
    /// Fills empty keys of arguments.
    Arguments(ToolcallMalformedArgumentsFix),
}

/// The mark.
pub open spec fn mark() -> JsonView {
    JsonView::Object(seq![("marked"@, JsonView::Bool(true))])
}

impl ResponseFix for ScriptedFix {
    open spec fn name_view(&self) -> Seq<char> {
        match self {
            ScriptedFix::Failing => "failing_fix"@,
            ScriptedFix::Marking => "ok_fixed_fix"@,
            ScriptedFix::Arguments(fix) => fix.name_view(),
        }
    }

    open spec fn description_view(&self) -> Seq<char> {
        match self {
            ScriptedFix::Failing => "fix that always fails"@,
            ScriptedFix::Marking => "fix that always succeeds"@,
            ScriptedFix::Arguments(fix) => fix.description_view(),
        }
    }

    open spec fn log_level_view(&self) -> FixLogLevel {
        FixLogLevel::Info
    }

    open spec fn applies_view(&self, response: JsonView) -> bool {
        match self {
            ScriptedFix::Arguments(fix) => fix.applies_view(response),
            _ => true,
        }
    }

    open spec fn apply_view(&self, response: JsonView) -> (JsonView, ActionView) {
        match self {
            ScriptedFix::Arguments(fix) => fix.apply_view(response),
            _ => (response, ActionView::NotApplicable),
        }
    }

    open spec fn applies_in_context(&self, response: JsonView, request: JsonView) -> bool {
        match self {
            ScriptedFix::Arguments(fix) => fix.applies_in_context(response, request),
            _ => true,
        }
    }

    open spec fn apply_in_context(&self, response: JsonView, request: JsonView) -> Outcome {
        match self {
            ScriptedFix::Failing => Err(ErrorView::Parse("boom"@)),
            ScriptedFix::Marking => Ok((mark(), ActionView::Fixed { original: "original"@, fixed: "marked"@ })),
            ScriptedFix::Arguments(fix) => fix.apply_in_context(response, request),
        }
    }

    fn name(&self) -> &str {
        match self {
            ScriptedFix::Failing => "failing_fix",
            ScriptedFix::Marking => "ok_fixed_fix",
            ScriptedFix::Arguments(fix) => fix.name(),
        }
    }

    fn description(&self) -> &str {
        match self {
            ScriptedFix::Failing => "fix that always fails",
            ScriptedFix::Marking => "fix that always succeeds",
            ScriptedFix::Arguments(fix) => fix.description(),
        }
    }

    fn applies(&self, response: &Json) -> bool {
        match self {
            ScriptedFix::Arguments(fix) => fix.applies(response),
            _ => true,
        }
    }

    fn apply(&self, response: Json) -> (Json, FixAction) {
        match self {
            ScriptedFix::Arguments(fix) => fix.apply(response),
            _ => (response, FixAction::NotApplicable),
        }
    }

    fn applies_with_context(&self, response: &Json, request: &Json) -> (applies: bool)
        ensures
            applies == self.applies_in_context(response@, request@),
    {
        match self {
            ScriptedFix::Arguments(fix) => {
                let applies = fix.applies_with_context(response, request);
                proof {
                    fix.lemma_applies_with_context(response, request, applies);
                }
                applies
            },
            _ => true,
        }
    }

    fn apply_with_context(&self, response: Json, request: &Json) -> (result: Result<(Json, FixAction), FixError>)
        ensures
            crate::fixes::outcome_view(result) == self.apply_in_context(response@, request@),
    {
        match self {
            ScriptedFix::Failing => Err(FixError::Parse("boom".to_owned())),
            ScriptedFix::Marking => {
                let members = vec![("marked".to_owned(), Json::Bool(true))];
                proof {
                    assert(member_views(members@) =~= seq![("marked"@, JsonView::Bool(true))]);
                }
                Ok((Json::Object(members), FixAction::fixed("original", "marked")))
            },
            ScriptedFix::Arguments(fix) => {
                let result = fix.apply_with_context(response, request);
                proof {
                    fix.lemma_apply_with_context(response, request, result);
                }
                result
            },
        }
    }

    proof fn lemma_log_level(&self, level: FixLogLevel) {
    }

    proof fn lemma_applies_with_context(&self, response: &Json, request: &Json, applies: bool) {
    }

    proof fn lemma_apply_with_context(
        &self,
        response: Json,
        request: &Json,
        result: Result<(Json, FixAction), FixError>,
    ) {
    }
}

} // verus!
