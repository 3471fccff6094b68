//! Repairs of malformed responses.
//!
//! A fix looks at a complete response and repairs what a model got wrong in
//! it. The registry runs the enabled fixes in the order in which they were
//! registered; a fix that fails leaves the response as it was.

use vstd::prelude::*;
use vstd::string::*;
use crate::json::{Json, JsonView};
use crate::text::{decimal, decimal_text, joined};

pub mod builtin;
pub mod json_scan;
pub mod laws;
pub mod log;
pub mod registry;
pub mod scan_laws;
pub mod snippet;
pub mod toolcall_bad_filepath_fix;
pub mod toolcall_malformed_arguments_fix;
pub mod toolcall_null_index_fix;
pub mod walk;

pub use builtin::{create_default_registry, create_registry_from_config, BuiltinFix};
pub use registry::FixRegistry;
pub use toolcall_bad_filepath_fix::ToolcallBadFilepathFix;
pub use toolcall_malformed_arguments_fix::ToolcallMalformedArgumentsFix;
pub use toolcall_null_index_fix::ToolCallNullIndexFix;

verus! {

broadcast use vstd::string::group_string_axioms;

/// At which level a fix that succeeded is logged.
#[derive(Debug, Clone, Copy, PartialEq, Eq, Structural)]
pub enum FixLogLevel {
    Trace,
    Debug,
    Info,
    Warn,
}

/// What applying a fix did.
#[derive(Debug, PartialEq, Eq)]
pub enum FixAction {
    /// The content was fine, or the fix does not handle it.
    NotApplicable,
    /// Malformed content was found and repaired.
    Fixed { original_snippet: String, fixed_snippet: String },
    /// Malformed content was found and could not be repaired.
    Failed { original_snippet: String, attempted_fix: String },
}

/// A [`FixAction`], as contracts see it.
pub enum ActionView {
    NotApplicable,
    Fixed { original: Seq<char>, fixed: Seq<char> },
    Failed { original: Seq<char>, attempted: Seq<char> },
}

impl View for FixAction {
    type V = ActionView;

    open spec fn view(&self) -> ActionView {
        match self {
            FixAction::NotApplicable => ActionView::NotApplicable,
            FixAction::Fixed { original_snippet, fixed_snippet } => ActionView::Fixed {
                original: original_snippet@,
                fixed: fixed_snippet@,
            },
            FixAction::Failed { original_snippet, attempted_fix } => ActionView::Failed {
                original: original_snippet@,
                attempted: attempted_fix@,
            },
        }
    }
}

/// The views of a list of actions.
pub open spec fn action_views(actions: Seq<FixAction>) -> Seq<ActionView> {
    Seq::new(actions.len(), |i: int| actions[i]@)
}

/// The snippets of the first `n` actions that fixed something: the originals,
/// and what they became. A separator goes before a snippet where an original
/// already stands.
pub open spec fn snippets(actions: Seq<ActionView>, n: nat) -> (Seq<char>, Seq<char>)
    decreases n,
{
    if n == 0 || n > actions.len() {
        (Seq::empty(), Seq::empty())
    } else {
        let (originals, fixeds) = snippets(actions, (n - 1) as nat);
        match actions[n - 1] {
            ActionView::Fixed { original, fixed } => if originals.len() > 0 {
                (originals + " ;; "@ + original, fixeds + " ;; "@ + fixed)
            } else {
                (originals + original, fixeds + fixed)
            },
            _ => (originals, fixeds),
        }
    }
}

/// One action for all the repairs of a response: none is `NotApplicable`, one
/// is itself, and several are told behind their number.
pub open spec fn aggregated(actions: Seq<ActionView>) -> ActionView {
    if actions.len() == 0 {
        ActionView::NotApplicable
    } else if actions.len() == 1 {
        actions[0]
    } else {
        let count = decimal(actions.len()) + " repairs: "@;
        let (originals, fixeds) = snippets(actions, actions.len());
        ActionView::Fixed { original: count + originals, fixed: count + fixeds }
    }
}

impl FixAction {
    /// The action of a repair.
    pub fn fixed(original: &str, fixed: &str) -> (action: FixAction)
        ensures
            action@ == (ActionView::Fixed { original: original@, fixed: fixed@ }),
    {
        FixAction::Fixed { original_snippet: original.to_owned(), fixed_snippet: fixed.to_owned() }
    }

    /// The action of a repair that failed.
    pub fn failed(original: &str, attempted: &str) -> (action: FixAction)
        ensures
            action@ == (ActionView::Failed { original: original@, attempted: attempted@ }),
    {
        FixAction::Failed { original_snippet: original.to_owned(), attempted_fix: attempted.to_owned() }
    }

    /// One action for all the repairs of a response.
    pub fn aggregate_repairs(actions: &[FixAction]) -> (action: FixAction)
        ensures
            action@ == aggregated(action_views(actions@)),
    {
        let ghost all = action_views(actions@);
        if actions.len() == 0 {
            return FixAction::NotApplicable;
        }
        if actions.len() == 1 {
            return actions[0].clone();
        }
        let mut originals = String::new();
        let mut fixeds = String::new();
        let mut i: usize = 0;
        while i < actions.len()
            invariant
                i <= actions@.len(),
                all == action_views(actions@),
                (originals@, fixeds@) == snippets(all, i as nat),
            decreases actions@.len() - i,
        {
            if let FixAction::Fixed { original_snippet, fixed_snippet } = &actions[i] {
                if !originals.as_str().is_empty() {
                    originals.append(" ;; ");
                    fixeds.append(" ;; ");
                }
                originals.append(original_snippet.as_str());
                fixeds.append(fixed_snippet.as_str());
            }
            i += 1;
        }
        let count = joined(decimal_text(actions.len() as u64).as_str(), " repairs: ");
        FixAction::Fixed {
            original_snippet: joined(count.as_str(), originals.as_str()),
            fixed_snippet: joined(count.as_str(), fixeds.as_str()),
        }
    }

    /// Whether malformed content was found.
    pub fn detected(&self) -> (found: bool)
        ensures
            found == !(self@ is NotApplicable),
    {
        match self {
            FixAction::NotApplicable => false,
            _ => true,
        }
    }
}

impl Clone for FixAction {
    fn clone(&self) -> (action: FixAction)
        ensures
            action@ == self@,
    {
        match self {
            FixAction::NotApplicable => FixAction::NotApplicable,
            FixAction::Fixed { original_snippet, fixed_snippet } => FixAction::fixed(
                original_snippet.as_str(),
                fixed_snippet.as_str(),
            ),
            FixAction::Failed { original_snippet, attempted_fix } => FixAction::failed(
                original_snippet.as_str(),
                attempted_fix.as_str(),
            ),
        }
    }
}

impl Default for FixAction {
    fn default() -> (action: FixAction)
        ensures
            action@ == ActionView::NotApplicable,
    {
        FixAction::NotApplicable
    }
}

/// Why a fix that had decided to repair a response could not.
#[derive(Debug, PartialEq, Eq)]
pub enum FixError {
    /// The content could not be read.
    Parse(String),
    /// The content was read and no valid response could be built from it.
    Rebuild(String),
}

/// A [`FixError`], as contracts see it.
pub enum ErrorView {
    Parse(Seq<char>),
    Rebuild(Seq<char>),
}

impl View for FixError {
    type V = ErrorView;

    open spec fn view(&self) -> ErrorView {
        match self {
            FixError::Parse(m) => ErrorView::Parse(m@),
            FixError::Rebuild(m) => ErrorView::Rebuild(m@),
        }
    }
}

impl ErrorView {
    /// The error in words.
    pub open spec fn message(self) -> Seq<char> {
        match self {
            ErrorView::Parse(m) => "parse error: "@ + m,
            ErrorView::Rebuild(m) => "rebuild error: "@ + m,
        }
    }
}

impl FixError {
    /// The error in words.
    pub fn to_string(&self) -> (text: String)
        ensures
            text@ == self@.message(),
    {
        match self {
            FixError::Parse(m) => joined("parse error: ", m.as_str()),
            FixError::Rebuild(m) => joined("rebuild error: ", m.as_str()),
        }
    }
}

/// What a fix returns: the response and what was done, or the failure.
pub type Outcome = Result<(JsonView, ActionView), ErrorView>;

/// The result of a fix, as contracts see it.
pub open spec fn outcome_view(r: Result<(Json, FixAction), FixError>) -> Outcome {
    match r {
        Ok((j, a)) => Ok((j@, a@)),
        Err(e) => Err(e@),
    }
}

/// A module that repairs responses.
///
/// What a fix does is a function of the response and the request: the spec
/// functions say which, and the methods compute it.
pub trait ResponseFix: Sized {
    /// What [`ResponseFix::name`] returns.
    spec fn name_view(&self) -> Seq<char>;

    /// What [`ResponseFix::description`] returns.
    spec fn description_view(&self) -> Seq<char>;

    /// What [`ResponseFix::log_level`] returns.
    spec fn log_level_view(&self) -> FixLogLevel;

    /// The responses that the fix is for.
    spec fn applies_view(&self, response: JsonView) -> bool;

    /// What the fix makes of a response.
    spec fn apply_view(&self, response: JsonView) -> (JsonView, ActionView);

    /// The responses that the fix is for, with the request at hand.
    spec fn applies_in_context(&self, response: JsonView, request: JsonView) -> bool;

    /// What the fix makes of a response, with the request at hand.
    spec fn apply_in_context(&self, response: JsonView, request: JsonView) -> Outcome;

    /// The name of the fix; no two fixes share one.
    fn name(&self) -> (name: &str)
        ensures
            name@ == self.name_view(),
    ;

    /// What the fix does, for people.
    fn description(&self) -> (text: &str)
        ensures
            text@ == self.description_view(),
    ;

    /// At which level a repair is logged.
    fn log_level(&self) -> (level: FixLogLevel)
        default_ensures
            level == FixLogLevel::Info,
    {
        FixLogLevel::Info
    }

    /// Whether the fix is for this response.
    fn applies(&self, response: &Json) -> (applies: bool)
        ensures
            applies == self.applies_view(response@),
    ;

    /// Applies the fix to a complete response.
    fn apply(&self, response: Json) -> (result: (Json, FixAction))
        ensures
            (result.0@, result.1@) == self.apply_view(response@),
    ;

    /// Whether the fix is for this response, with the request at hand.
    fn applies_with_context(&self, response: &Json, request: &Json) -> (applies: bool)
        default_ensures
            applies == self.applies_view(response@),
    {
        self.applies(response)
    }

    /// Applies the fix with the request at hand. On `Err` the response that
    /// was handed in stands.
    fn apply_with_context(&self, response: Json, request: &Json) -> (result: Result<(Json, FixAction), FixError>)
        default_ensures
            outcome_view(result) == Ok::<(JsonView, ActionView), ErrorView>(self.apply_view(response@)),
    {
        Ok(self.apply(response))
    }

    /// The methods that have a default keep to the spec functions too.
    proof fn lemma_log_level(&self, level: FixLogLevel)
        requires
            call_ensures(Self::log_level, (self,), level),
        ensures
            level == self.log_level_view(),
    ;

    proof fn lemma_applies_with_context(&self, response: &Json, request: &Json, applies: bool)
        requires
            call_ensures(Self::applies_with_context, (self, response, request), applies),
        ensures
            applies == self.applies_in_context(response@, request@),
    ;

    proof fn lemma_apply_with_context(
        &self,
        response: Json,
        request: &Json,
        result: Result<(Json, FixAction), FixError>,
    )
        requires
            call_ensures(Self::apply_with_context, (self, response, request), result),
        ensures
            outcome_view(result) == self.apply_in_context(response@, request@),
    ;
}

} // verus!
