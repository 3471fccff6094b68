//! The registry of fixes.

use vstd::prelude::*;
use vstd::string::*;
use crate::config::FixModuleConfig;
use crate::json::{printed, Json, JsonView};
use crate::text::{chars_of, group_texts, joined, same_text, text_of, texts};
use crate::text_map::TextMap;
use super::log::{line_views, lines_of, log_fix_action, LineView, LogLine};
use super::snippet::{clipped, truncate_snippet, SnippetLimit};
use super::{ActionView, ErrorView, FixAction, FixError, ResponseFix};

verus! {

broadcast use {vstd::string::group_string_axioms, crate::text::group_texts};

/// The fixes that can run, in the order in which they run, and which of them
/// are enabled.
pub struct FixRegistry<F: ResponseFix> {
    fixes: Vec<F>,
    enabled: TextMap<bool>,
}

/// Which fixes are enabled, by name.
pub type Flags = Map<Seq<char>, bool>;

/// Whether a name is that of an enabled fix.
pub open spec fn is_on(flags: Flags, name: Seq<char>) -> bool {
    flags.contains_key(name) && flags[name]
}

/// What the first `n` fixes make of a response, and what is logged.
pub open spec fn run<F: ResponseFix>(fixes: Seq<F>, flags: Flags, response: JsonView, n: nat) -> (
    JsonView,
    Seq<LineView>,
)
    decreases n,
{
    if n == 0 || n > fixes.len() {
        (response, Seq::empty())
    } else {
        let (before, lines) = run(fixes, flags, response, (n - 1) as nat);
        let fix = fixes[n - 1];
        if is_on(flags, fix.name_view()) && fix.applies_view(before) {
            let (after, action) = fix.apply_view(before);
            (after, lines + lines_of(fix.name_view(), action, fix.log_level_view()))
        } else {
            (before, lines)
        }
    }
}

/// What is recorded of a fix that failed: the response, clipped, and the
/// failure in words.
pub open spec fn fixer_error(response: JsonView, error: ErrorView) -> ActionView {
    ActionView::Failed {
        original: clipped(printed(response), 200, SnippetLimit::Chars),
        attempted: "fixer error: "@ + error.message(),
    }
}

/// What one fix makes of a response with the request at hand. A fix that
/// fails leaves the response as it was.
pub open spec fn step<F: ResponseFix>(fix: F, flags: Flags, response: JsonView, request: JsonView) -> (
    JsonView,
    Seq<LineView>,
) {
    if is_on(flags, fix.name_view()) && fix.applies_in_context(response, request) {
        match fix.apply_in_context(response, request) {
            Ok((after, action)) => (after, lines_of(fix.name_view(), action, fix.log_level_view())),
            Err(error) => (
                response,
                lines_of(fix.name_view(), fixer_error(response, error), fix.log_level_view()),
            ),
        }
    } else {
        (response, Seq::empty())
    }
}

/// What the first `n` fixes make of a response with the request at hand, and
/// what is logged.
pub open spec fn run_in_context<F: ResponseFix>(
    fixes: Seq<F>,
    flags: Flags,
    response: JsonView,
    request: JsonView,
    n: nat,
) -> (JsonView, Seq<LineView>)
    decreases n,
{
    if n == 0 || n > fixes.len() {
        (response, Seq::empty())
    } else {
        let (before, lines) = run_in_context(fixes, flags, response, request, (n - 1) as nat);
        let (after, more) = step(fixes[n - 1], flags, before, request);
        (after, lines + more)
    }
}

/// What the first `n` fixes make of a chunk of a stream, and what is logged. A
/// chunk is never a whole response, so that it is not asked whether a fix is
/// for it.
pub open spec fn run_stream<F: ResponseFix>(fixes: Seq<F>, flags: Flags, chunk: JsonView, n: nat) -> (
    JsonView,
    Seq<LineView>,
)
    decreases n,
{
    if n == 0 || n > fixes.len() {
        (chunk, Seq::empty())
    } else {
        let (before, lines) = run_stream(fixes, flags, chunk, (n - 1) as nat);
        let fix = fixes[n - 1];
        if is_on(flags, fix.name_view()) {
            let (after, action) = fix.apply_view(before);
            (after, lines + lines_of(fix.name_view(), action, fix.log_level_view()))
        } else {
            (before, lines)
        }
    }
}

/// What the first `n` fixes make of a chunk of a stream with the request at
/// hand, and what is logged. A fix that fails leaves the chunk as it was.
pub open spec fn run_stream_in_context<F: ResponseFix>(
    fixes: Seq<F>,
    flags: Flags,
    chunk: JsonView,
    request: JsonView,
    n: nat,
) -> (JsonView, Seq<LineView>)
    decreases n,
{
    if n == 0 || n > fixes.len() {
        (chunk, Seq::empty())
    } else {
        let (before, lines) = run_stream_in_context(fixes, flags, chunk, request, (n - 1) as nat);
        let fix = fixes[n - 1];
        if is_on(flags, fix.name_view()) {
            match fix.apply_in_context(before, request) {
                Ok((after, action)) => (after, lines + lines_of(fix.name_view(), action, fix.log_level_view())),
                Err(error) => (
                    before,
                    lines + lines_of(fix.name_view(), fixer_error(before, error), fix.log_level_view()),
                ),
            }
        } else {
            (before, lines)
        }
    }
}

/// What a fix would do with a response, where it is enabled and for it.
pub open spec fn would_do<F: ResponseFix>(fix: F, flags: Flags, response: JsonView, request: Option<JsonView>) -> ActionView {
    if !is_on(flags, fix.name_view()) {
        ActionView::NotApplicable
    } else {
        match request {
            Some(q) => if !fix.applies_in_context(response, q) {
                ActionView::NotApplicable
            } else {
                match fix.apply_in_context(response, q) {
                    Ok((_, action)) => action,
                    Err(error) => fixer_error(response, error),
                }
            },
            None => if !fix.applies_view(response) {
                ActionView::NotApplicable
            } else {
                fix.apply_view(response).1
            },
        }
    }
}

/// A malformation that was found and not repaired.
#[derive(Debug, PartialEq, Eq)]
pub struct Detection {
    /// The name of the fix that found it.
    pub fix_name: String,
    /// Why it was not repaired.
    pub reason: String,
    /// What was found, clipped.
    pub original: String,
}

/// The text before a malformation was repaired, or the repair failed.
pub open spec fn original_of(action: ActionView) -> Seq<char> {
    match action {
        ActionView::NotApplicable => Seq::empty(),
        ActionView::Fixed { original, .. } => original,
        ActionView::Failed { original, .. } => original,
    }
}

/// What the first `n` fixes would find in a response: the name of each fix,
/// and what it found.
pub open spec fn found<F: ResponseFix>(
    fixes: Seq<F>,
    flags: Flags,
    response: JsonView,
    request: Option<JsonView>,
    n: nat,
) -> Seq<(Seq<char>, Seq<char>)>
    decreases n,
{
    if n == 0 || n > fixes.len() {
        Seq::empty()
    } else {
        let before = found(fixes, flags, response, request, (n - 1) as nat);
        let action = would_do(fixes[n - 1], flags, response, request);
        if action is NotApplicable {
            before
        } else {
            before.push((fixes[n - 1].name_view(), clipped(original_of(action), 200, SnippetLimit::Chars)))
        }
    }
}

/// The views of a list of detections.
pub open spec fn detection_views(d: Seq<Detection>) -> Seq<(Seq<char>, Seq<char>)> {
    Seq::new(d.len(), |i: int| (d[i].fix_name@, d[i].original@))
}

/// The view of an optional request.
pub open spec fn request_view(request: Option<&Json>) -> Option<JsonView> {
    match request {
        Some(r) => Some(r@),
        None => None,
    }
}

/// A name without a trailing `_fix`.
pub open spec fn base_name(name: Seq<char>) -> Seq<char> {
    if name.len() >= 4 && name.skip(name.len() - 4) == "_fix"@ {
        name.take(name.len() - 4)
    } else {
        name
    }
}

/// A name without a trailing `_fix`.
pub fn strip_fix(name: &str) -> (base: String)
    ensures
        base@ == base_name(name@),
{
    let chars = chars_of(name);
    let n = chars.len();
    proof {
        reveal_strlit("_fix");
        if n >= 4 {
            assert(name@.skip(n - 4).len() == 4);
            if name@[n - 4] == '_' && name@[n - 3] == 'f' && name@[n - 2] == 'i' && name@[n - 1] == 'x' {
                assert(name@.skip(n - 4) =~= "_fix"@);
            } else {
                assert(name@.skip(n - 4)[0] == name@[n - 4]);
                assert(name@.skip(n - 4)[1] == name@[n - 3]);
                assert(name@.skip(n - 4)[2] == name@[n - 2]);
                assert(name@.skip(n - 4)[3] == name@[n - 1]);
            }
        }
    }
    if n >= 4 && chars[n - 4] == '_' && chars[n - 3] == 'f' && chars[n - 2] == 'i' && chars[n - 1] == 'x' {
        let base = text_of(&chars, 0, n - 4);
        proof {
            assert(base@ =~= name@.take(n - 4));
        }
        base
    } else {
        name.to_owned()
    }
}

/// The position of the first fix at or after `from` that a configured name
/// means, or the number of fixes where there is none.
pub open spec fn named_from<F: ResponseFix>(fixes: Seq<F>, name: Seq<char>, from: int) -> int
    decreases fixes.len() - from,
{
    if from < 0 || from >= fixes.len() {
        fixes.len() as int
    } else if base_name(fixes[from].name_view()) == base_name(name) {
        from
    } else {
        named_from(fixes, name, from + 1)
    }
}

/// The flags after the first `n` entries of a configuration: each sets the
/// flag of the fix that it means, and one that means no fix sets none.
pub open spec fn configured<F: ResponseFix>(
    fixes: Seq<F>,
    flags: Flags,
    entries: Seq<(String, FixModuleConfig)>,
    n: nat,
) -> Flags
    decreases n,
{
    if n == 0 || n > entries.len() {
        flags
    } else {
        let before = configured(fixes, flags, entries, (n - 1) as nat);
        let at = named_from(fixes, entries[n - 1].0@, 0);
        if at < fixes.len() {
            before.insert(fixes[at].name_view(), entries[n - 1].1.enabled)
        } else {
            before
        }
    }
}

/// The names among the first `n` entries of a configuration that mean no fix.
pub open spec fn unknown_names<F: ResponseFix>(
    fixes: Seq<F>,
    entries: Seq<(String, FixModuleConfig)>,
    n: nat,
) -> Seq<Seq<char>>
    decreases n,
{
    if n == 0 || n > entries.len() {
        Seq::empty()
    } else {
        let before = unknown_names(fixes, entries, (n - 1) as nat);
        if named_from(fixes, entries[n - 1].0@, 0) < fixes.len() {
            before
        } else {
            before.push(entries[n - 1].0@)
        }
    }
}

/// The position of the first fix at or after `from` with a name.
pub open spec fn fix_from<F: ResponseFix>(fixes: Seq<F>, name: Seq<char>, from: int) -> int
    decreases fixes.len() - from,
{
    if from < 0 || from >= fixes.len() {
        fixes.len() as int
    } else if fixes[from].name_view() == name {
        from
    } else {
        fix_from(fixes, name, from + 1)
    }
}

impl<F: ResponseFix> FixRegistry<F> {
    /// The fixes, in the order in which they run.
    pub closed spec fn fixes(self) -> Seq<F> {
        self.fixes@
    }

    /// Which fixes are enabled.
    pub closed spec fn flags(self) -> Flags {
        self.enabled@
    }

    /// Every registered fix has a flag.
    pub open spec fn well_formed(self) -> bool {
        forall|i: int|
            0 <= i < self.fixes().len() ==> self.flags().contains_key((#[trigger] self.fixes()[i]).name_view())
    }

    /// A registry without fixes.
    pub fn new() -> (registry: FixRegistry<F>)
        ensures
            registry.fixes() == Seq::<F>::empty(),
            registry.flags() == Map::<Seq<char>, bool>::empty(),
            registry.well_formed(),
    {
        FixRegistry { fixes: Vec::new(), enabled: TextMap::new() }
    }

    /// Adds a fix behind the others and enables it.
    pub fn register(&mut self, fix: F)
        ensures
            final(self).fixes() == old(self).fixes().push(fix),
            final(self).flags() == old(self).flags().insert(fix.name_view(), true),
            old(self).well_formed() ==> final(self).well_formed(),
    {
        let name = fix.name().to_owned();
        self.fixes.push(fix);
        self.enabled.insert(name, true);
        proof {
            if old(self).well_formed() {
                assert forall|i: int| 0 <= i < self.fixes().len() implies self.flags().contains_key(
                    (#[trigger] self.fixes()[i]).name_view(),
                ) by {
                    if i < old(self).fixes().len() {
                        assert(self.fixes()[i] == old(self).fixes()[i]);
                    }
                }
            }
        }
    }

    /// Enables or disables a fix. A name that is not known changes nothing.
    pub fn set_enabled(&mut self, name: &str, enabled: bool)
        ensures
            final(self).fixes() == old(self).fixes(),
            final(self).flags() == if old(self).flags().contains_key(name@) {
                old(self).flags().insert(name@, enabled)
            } else {
                old(self).flags()
            },
            old(self).well_formed() ==> final(self).well_formed(),
    {
        if self.enabled.contains_key(name) {
            self.enabled.insert(name.to_owned(), enabled);
        }
    }

    /// Whether a fix is enabled; one that is not known is not.
    pub fn is_enabled(&self, name: &str) -> (enabled: bool)
        ensures
            enabled == is_on(self.flags(), name@),
    {
        match self.enabled.get(name) {
            Some(on) => *on,
            None => false,
        }
    }

    /// The fixes, in the order in which they run.
    pub fn list_fixes(&self) -> (fixes: &[F])
        ensures
            fixes@ == self.fixes(),
    {
        self.fixes.as_slice()
    }

    /// The first fix with a name.
    pub fn get_fix(&self, name: &str) -> (fix: Option<&F>)
        ensures
            match fix {
                Some(f) => fix_from(self.fixes(), name@, 0) < self.fixes().len() && *f == self.fixes()[fix_from(
                    self.fixes(),
                    name@,
                    0,
                )],
                None => fix_from(self.fixes(), name@, 0) == self.fixes().len(),
            },
    {
        let mut i: usize = 0;
        while i < self.fixes.len()
            invariant
                i <= self.fixes@.len(),
                self.fixes() == self.fixes@,
                fix_from(self.fixes(), name@, 0) == fix_from(self.fixes(), name@, i as int),
            decreases self.fixes@.len() - i,
        {
            if same_text(self.fixes[i].name(), name) {
                return Some(&self.fixes[i]);
            }
            i += 1;
        }
        None
    }

    /// Runs the enabled fixes that are for the response, one after another,
    /// and says what is to be logged.
    pub fn apply_fixes_logged(&self, response: Json) -> (result: (Json, Vec<LogLine>))
        ensures
            (result.0@, line_views(result.1@)) == run(self.fixes(), self.flags(), response@, self.fixes().len()),
    {
        let ghost first = response@;
        let mut result = response;
        let mut lines: Vec<LogLine> = Vec::new();
        let mut i: usize = 0;
        proof {
            assert(line_views(lines@) =~= Seq::empty());
        }
        while i < self.fixes.len()
            invariant
                i <= self.fixes@.len(),
                self.fixes() == self.fixes@,
                (result@, line_views(lines@)) == run(self.fixes(), self.flags(), first, i as nat),
            decreases self.fixes@.len() - i,
        {
            let fix = &self.fixes[i];
            if self.is_enabled(fix.name()) && fix.applies(&result) {
                let (after, action) = fix.apply(result);
                let level = fix.log_level();
                proof {
                    fix.lemma_log_level(level);
                }
                let mut more = log_fix_action(fix.name(), &action, level);
                let ghost was = lines@;
                let ghost added = more@;
                lines.append(&mut more);
                proof {
                    assert(line_views(lines@) =~= line_views(was) + line_views(added));
                }
                result = after;
            }
            i += 1;
        }
        (result, lines)
    }

    /// Runs the enabled fixes that are for the response, one after another.
    pub fn apply_fixes(&self, response: Json) -> (result: Json)
        ensures
            result@ == run(self.fixes(), self.flags(), response@, self.fixes().len()).0,
    {
        self.apply_fixes_logged(response).0
    }

    /// What is recorded of a fix that failed.
    pub fn fixer_error_action(response: &Json, error: &FixError) -> (action: FixAction)
        ensures
            action@ == fixer_error(response@, error@),
    {
        FixAction::Failed {
            original_snippet: truncate_snippet(response.print().as_str(), 200, SnippetLimit::Chars),
            attempted_fix: joined("fixer error: ", error.to_string().as_str()),
        }
    }

    /// Runs the enabled fixes that are for the response, with the request at
    /// hand, and says what is to be logged. A fix that fails leaves the
    /// response as it was, and the fixes after it still run.
    pub fn apply_fixes_with_context_logged(&self, response: Json, request: &Json) -> (result: (Json, Vec<LogLine>))
        ensures
            (result.0@, line_views(result.1@)) == run_in_context(
                self.fixes(),
                self.flags(),
                response@,
                request@,
                self.fixes().len(),
            ),
    {
        let ghost first = response@;
        let mut result = response;
        let mut lines: Vec<LogLine> = Vec::new();
        let mut i: usize = 0;
        proof {
            assert(line_views(lines@) =~= Seq::empty());
        }
        while i < self.fixes.len()
            invariant
                i <= self.fixes@.len(),
                self.fixes() == self.fixes@,
                (result@, line_views(lines@)) == run_in_context(self.fixes(), self.flags(), first, request@, i as nat),
            decreases self.fixes@.len() - i,
        {
            let fix = &self.fixes[i];
            let ghost before = lines@;
            let mut applies = false;
            if self.is_enabled(fix.name()) {
                applies = fix.applies_with_context(&result, request);
                proof {
                    fix.lemma_applies_with_context(&result, request, applies);
                }
            }
            if applies {
                let level = fix.log_level();
                proof {
                    fix.lemma_log_level(level);
                }
                let candidate = result.clone();
                let outcome = fix.apply_with_context(candidate, request);
                proof {
                    fix.lemma_apply_with_context(candidate, request, outcome);
                }
                let mut more = match outcome {
                    Ok((after, action)) => {
                        result = after;
                        log_fix_action(fix.name(), &action, level)
                    },
                    Err(error) => {
                        let action = Self::fixer_error_action(&result, &error);
                        log_fix_action(fix.name(), &action, level)
                    },
                };
                let ghost added = more@;
                lines.append(&mut more);
                proof {
                    assert(line_views(lines@) =~= line_views(before) + line_views(added));
                }
            } else {
                proof {
                    assert(line_views(before) + Seq::<LineView>::empty() =~= line_views(before));
                }
            }
            i += 1;
        }
        (result, lines)
    }

    /// Runs the enabled fixes that are for the response, with the request at
    /// hand. A fix that fails leaves the response as it was, and the fixes
    /// after it still run.
    pub fn apply_fixes_with_context(&self, response: Json, request: &Json) -> (result: Json)
        ensures
            result@ == run_in_context(self.fixes(), self.flags(), response@, request@, self.fixes().len()).0,
    {
        self.apply_fixes_with_context_logged(response, request).0
    }

    /// Runs the enabled fixes on a chunk of a stream, one after another, and
    /// says what is to be logged.
    pub fn apply_fixes_stream_logged(&self, chunk: Json) -> (result: (Json, Vec<LogLine>))
        ensures
            (result.0@, line_views(result.1@)) == run_stream(self.fixes(), self.flags(), chunk@, self.fixes().len()),
    {
        let ghost first = chunk@;
        let mut result = chunk;
        let mut lines: Vec<LogLine> = Vec::new();
        let mut i: usize = 0;
        proof {
            assert(line_views(lines@) =~= Seq::empty());
        }
        while i < self.fixes.len()
            invariant
                i <= self.fixes@.len(),
                self.fixes() == self.fixes@,
                (result@, line_views(lines@)) == run_stream(self.fixes(), self.flags(), first, i as nat),
            decreases self.fixes@.len() - i,
        {
            let fix = &self.fixes[i];
            if self.is_enabled(fix.name()) {
                let (after, action) = fix.apply(result);
                let level = fix.log_level();
                proof {
                    fix.lemma_log_level(level);
                }
                let mut more = log_fix_action(fix.name(), &action, level);
                let ghost was = lines@;
                let ghost added = more@;
                lines.append(&mut more);
                proof {
                    assert(line_views(lines@) =~= line_views(was) + line_views(added));
                }
                result = after;
            }
            i += 1;
        }
        (result, lines)
    }

    /// Runs the enabled fixes on a chunk of a stream, one after another.
    pub fn apply_fixes_stream(&self, chunk: Json) -> (result: Json)
        ensures
            result@ == run_stream(self.fixes(), self.flags(), chunk@, self.fixes().len()).0,
    {
        self.apply_fixes_stream_logged(chunk).0
    }

    /// Runs the enabled fixes on a chunk of a stream, with the request at hand,
    /// and says what is to be logged.
    pub fn apply_fixes_stream_with_context_logged(&self, chunk: Json, request: &Json) -> (result: (Json, Vec<LogLine>))
        ensures
            (result.0@, line_views(result.1@)) == run_stream_in_context(
                self.fixes(),
                self.flags(),
                chunk@,
                request@,
                self.fixes().len(),
            ),
    {
        let ghost first = chunk@;
        let mut result = chunk;
        let mut lines: Vec<LogLine> = Vec::new();
        let mut i: usize = 0;
        proof {
            assert(line_views(lines@) =~= Seq::empty());
        }
        while i < self.fixes.len()
            invariant
                i <= self.fixes@.len(),
                self.fixes() == self.fixes@,
                (result@, line_views(lines@)) == run_stream_in_context(
                    self.fixes(),
                    self.flags(),
                    first,
                    request@,
                    i as nat,
                ),
            decreases self.fixes@.len() - i,
        {
            let fix = &self.fixes[i];
            if self.is_enabled(fix.name()) {
                let level = fix.log_level();
                proof {
                    fix.lemma_log_level(level);
                }
                let candidate = result.clone();
                let outcome = fix.apply_with_context(candidate, request);
                proof {
                    fix.lemma_apply_with_context(candidate, request, outcome);
                }
                let mut more = match outcome {
                    Ok((after, action)) => {
                        result = after;
                        log_fix_action(fix.name(), &action, level)
                    },
                    Err(error) => {
                        let action = Self::fixer_error_action(&result, &error);
                        log_fix_action(fix.name(), &action, level)
                    },
                };
                let ghost was = lines@;
                let ghost added = more@;
                lines.append(&mut more);
                proof {
                    assert(line_views(lines@) =~= line_views(was) + line_views(added));
                }
            }
            i += 1;
        }
        (result, lines)
    }

    /// Runs the enabled fixes on a chunk of a stream, with the request at hand.
    pub fn apply_fixes_stream_with_context(&self, chunk: Json, request: &Json) -> (result: Json)
        ensures
            result@ == run_stream_in_context(self.fixes(), self.flags(), chunk@, request@, self.fixes().len()).0,
    {
        self.apply_fixes_stream_with_context_logged(chunk, request).0
    }

    /// What a fix would do with a response.
    fn probe(&self, fix: &F, response: &Json, request: Option<&Json>) -> (action: FixAction)
        ensures
            action@ == would_do(*fix, self.flags(), response@, request_view(request)),
    {
        if !self.is_enabled(fix.name()) {
            return FixAction::NotApplicable;
        }
        match request {
            Some(q) => {
                let applies = fix.applies_with_context(response, q);
                proof {
                    fix.lemma_applies_with_context(response, q, applies);
                }
                if !applies {
                    return FixAction::NotApplicable;
                }
                let candidate = response.clone();
                let outcome = fix.apply_with_context(candidate, q);
                proof {
                    fix.lemma_apply_with_context(candidate, q, outcome);
                }
                match outcome {
                    Ok((_, action)) => action,
                    Err(error) => Self::fixer_error_action(response, &error),
                }
            },
            None => {
                if !fix.applies(response) {
                    return FixAction::NotApplicable;
                }
                fix.apply(response.clone()).1
            },
        }
    }

    /// What the enabled fixes find in a response, without repairing it; the
    /// caller says why it is not repaired.
    pub fn detections(&self, response: &Json, request: Option<&Json>, reason: &str) -> (detected: Vec<Detection>)
        ensures
            forall|i: int| 0 <= i < detected@.len() ==> (#[trigger] detected@[i]).reason@ == reason@,
            detection_views(detected@) == found(
                self.fixes(),
                self.flags(),
                response@,
                request_view(request),
                self.fixes().len(),
            ),
    {
        let mut detected: Vec<Detection> = Vec::new();
        let mut i: usize = 0;
        proof {
            assert(detection_views(detected@) =~= Seq::empty());
        }
        while i < self.fixes.len()
            invariant
                i <= self.fixes@.len(),
                self.fixes() == self.fixes@,
                forall|k: int| 0 <= k < detected@.len() ==> (#[trigger] detected@[k]).reason@ == reason@,
                detection_views(detected@) == found(
                    self.fixes(),
                    self.flags(),
                    response@,
                    request_view(request),
                    i as nat,
                ),
            decreases self.fixes@.len() - i,
        {
            let fix = &self.fixes[i];
            let action = self.probe(fix, response, request);
            if action.detected() {
                let snippet = match &action {
                    FixAction::Fixed { original_snippet, .. } => original_snippet.clone(),
                    FixAction::Failed { original_snippet, .. } => original_snippet.clone(),
                    FixAction::NotApplicable => String::new(),
                };
                let ghost was = detected@;
                let one = Detection {
                    fix_name: fix.name().to_owned(),
                    reason: reason.to_owned(),
                    original: truncate_snippet(snippet.as_str(), 200, SnippetLimit::Chars),
                };
                let ghost shown = (one.fix_name@, one.original@);
                detected.push(one);
                proof {
                    assert(detection_views(detected@) =~= detection_views(was).push(shown));
                }
            }
            i += 1;
        }
        detected
    }

    /// The names of the fixes that find something in a response, in order. The
    /// response is not repaired.
    pub fn detect_fixes(&self, response: &Json, request: Option<&Json>, reason: &str) -> (names: Vec<String>)
        ensures
            texts(names@) == found(
                self.fixes(),
                self.flags(),
                response@,
                request_view(request),
                self.fixes().len(),
            ).map_values(|d: (Seq<char>, Seq<char>)| d.0),
    {
        let detected = self.detections(response, request, reason);
        let ghost all = detection_views(detected@);
        let mut names: Vec<String> = Vec::new();
        let mut i: usize = 0;
        while i < detected.len()
            invariant
                i <= detected@.len(),
                all == detection_views(detected@),
                names@.len() == i,
                forall|k: int| 0 <= k < i ==> (#[trigger] names@[k])@ == all[k].0,
            decreases detected@.len() - i,
        {
            names.push(detected[i].fix_name.clone());
            i += 1;
        }
        proof {
            assert(texts(names@) =~= all.map_values(|d: (Seq<char>, Seq<char>)| d.0));
        }
        names
    }

    /// Sets the flags that a configuration sets. A name means a fix with or
    /// without a trailing `_fix`; the names that mean no fix are returned.
    pub fn configure(&mut self, config: &TextMap<FixModuleConfig>) -> (unknown: Vec<String>)
        ensures
            final(self).fixes() == old(self).fixes(),
            final(self).flags() == configured(
                old(self).fixes(),
                old(self).flags(),
                config.listed(),
                config.listed().len(),
            ),
            texts(unknown@) == unknown_names(old(self).fixes(), config.listed(), config.listed().len()),
            old(self).well_formed() ==> final(self).well_formed(),
    {
        let mut unknown: Vec<String> = Vec::new();
        let n = config.len();
        let mut i: usize = 0;
        proof {
            assert(texts(unknown@) =~= Seq::empty());
        }
        while i < n
            invariant
                i <= n,
                n == config.listed().len(),
                self.fixes() == old(self).fixes(),
                self.flags() == configured(self.fixes(), old(self).flags(), config.listed(), i as nat),
                texts(unknown@) == unknown_names(self.fixes(), config.listed(), i as nat),
                old(self).well_formed() ==> self.well_formed(),
            decreases n - i,
        {
            let (name, module) = config.entry(i);
            let at = self.find_named(name);
            if at < self.fixes.len() {
                let fix_name = self.fixes[at].name().to_owned();
                self.enabled.insert(fix_name, module.enabled);
            } else {
                unknown.push(name.to_owned());
            }
            i += 1;
        }
        unknown
    }

    /// The position of the first fix that a configured name means.
    fn find_named(&self, name: &str) -> (at: usize)
        ensures
            at == named_from(self.fixes(), name@, 0),
            at <= self.fixes().len(),
    {
        let base = strip_fix(name);
        let mut i: usize = 0;
        while i < self.fixes.len()
            invariant
                i <= self.fixes@.len(),
                base@ == base_name(name@),
                self.fixes() == self.fixes@,
                named_from(self.fixes(), name@, 0) == named_from(self.fixes(), name@, i as int),
            decreases self.fixes@.len() - i,
        {
            if same_text(strip_fix(self.fixes[i].name()).as_str(), base.as_str()) {
                return i;
            }
            i += 1;
        }
        i
    }
}

impl<F: ResponseFix> Default for FixRegistry<F> {
    fn default() -> (registry: FixRegistry<F>)
        ensures
            registry.fixes() == Seq::<F>::empty(),
            registry.flags() == Map::<Seq<char>, bool>::empty(),
    {
        Self::new()
    }
}

/// A fix that fails changes nothing: the response that it was handed goes on
/// to the next fix.
pub proof fn law_failing_fix_changes_nothing<F: ResponseFix>(fix: F, flags: Flags, response: JsonView, request: JsonView)
    requires
        fix.apply_in_context(response, request) is Err,
    ensures
        step(fix, flags, response, request).0 == response,
{
}

/// A fix that is not enabled changes nothing and logs nothing.
pub proof fn law_disabled_fix_does_nothing<F: ResponseFix>(fix: F, flags: Flags, response: JsonView, request: JsonView)
    requires
        !is_on(flags, fix.name_view()),
    ensures
        step(fix, flags, response, request) == (response, Seq::<LineView>::empty()),
{
}

/// Where no fix is enabled, a response comes back as it was, and so does a
/// chunk of a stream.
pub proof fn law_nothing_enabled_nothing_changed<F: ResponseFix>(
    fixes: Seq<F>,
    flags: Flags,
    response: JsonView,
    request: JsonView,
    n: nat,
)
    requires
        n <= fixes.len(),
        forall|i: int| 0 <= i < fixes.len() ==> !is_on(flags, (#[trigger] fixes[i]).name_view()),
    ensures
        run(fixes, flags, response, n) == (response, Seq::<LineView>::empty()),
        run_in_context(fixes, flags, response, request, n) == (response, Seq::<LineView>::empty()),
        run_stream(fixes, flags, response, n) == (response, Seq::<LineView>::empty()),
        run_stream_in_context(fixes, flags, response, request, n) == (response, Seq::<LineView>::empty()),
    decreases n,
{
    if n > 0 {
        law_nothing_enabled_nothing_changed(fixes, flags, response, request, (n - 1) as nat);
        assert(!is_on(flags, fixes[n - 1].name_view()));
        assert(Seq::<LineView>::empty() + Seq::<LineView>::empty() =~= Seq::<LineView>::empty());
    }
}

/// A fix that fails hides no later one: what comes out is what comes out
/// without it.
pub proof fn law_failing_fix_hides_no_other<F: ResponseFix>(
    fixes: Seq<F>,
    flags: Flags,
    response: JsonView,
    request: JsonView,
    failing: int,
    n: nat,
)
    requires
        0 <= failing < n <= fixes.len(),
        fixes[failing].apply_in_context(
            run_in_context(fixes, flags, response, request, failing as nat).0,
            request,
        ) is Err,
    ensures
        run_in_context(fixes, flags, response, request, n).0 == run_in_context(
            fixes.remove(failing),
            flags,
            response,
            request,
            (n - 1) as nat,
        ).0,
    decreases n,
{
    let rest = fixes.remove(failing);
    if n == failing + 1 {
        lemma_run_prefix(fixes, rest, flags, response, request, failing as nat);
    } else {
        law_failing_fix_hides_no_other(fixes, flags, response, request, failing, (n - 1) as nat);
        assert(rest[n - 2] == fixes[n - 1]);
    }
}

proof fn lemma_run_prefix<F: ResponseFix>(
    a: Seq<F>,
    b: Seq<F>,
    flags: Flags,
    response: JsonView,
    request: JsonView,
    n: nat,
)
    requires
        n <= a.len(),
        n <= b.len(),
        forall|i: int| 0 <= i < n ==> a[i] == b[i],
    ensures
        run_in_context(a, flags, response, request, n) == run_in_context(b, flags, response, request, n),
    decreases n,
{
    if n > 0 {
        lemma_run_prefix(a, b, flags, response, request, (n - 1) as nat);
    }
}

/// A fix is reported as found only where it is registered and enabled.
pub proof fn law_only_enabled_fixes_are_found<F: ResponseFix>(
    fixes: Seq<F>,
    flags: Flags,
    response: JsonView,
    request: Option<JsonView>,
    n: nat,
    k: int,
)
    requires
        n <= fixes.len(),
        0 <= k < found(fixes, flags, response, request, n).len(),
    ensures
        exists|i: int|
            0 <= i < n && (#[trigger] fixes[i]).name_view() == found(fixes, flags, response, request, n)[k].0 && is_on(
                flags,
                fixes[i].name_view(),
            ),
    decreases n,
{
    let before = found(fixes, flags, response, request, (n - 1) as nat);
    if k < before.len() {
        law_only_enabled_fixes_are_found(fixes, flags, response, request, (n - 1) as nat, k);
        let i = choose|i: int|
            0 <= i < n - 1 && (#[trigger] fixes[i]).name_view() == before[k].0 && is_on(flags, fixes[i].name_view());
        assert(fixes[i].name_view() == found(fixes, flags, response, request, n)[k].0);
    } else {
        assert(fixes[n - 1].name_view() == found(fixes, flags, response, request, n)[k].0);
    }
}

/// A name means the same fix with and without a trailing `_fix`.
pub proof fn law_both_spellings_mean_one_fix<F: ResponseFix>(fixes: Seq<F>, name: Seq<char>)
    requires
        base_name(name) == name,
    ensures
        named_from(fixes, name + "_fix"@, 0) == named_from(fixes, name, 0),
{
    reveal_strlit("_fix");
    let long = name + "_fix"@;
    assert(long.skip(long.len() - 4) =~= "_fix"@);
    assert(long.take(long.len() - 4) =~= name);
    lemma_same_base(fixes, name, long, 0);
}

proof fn lemma_same_base<F: ResponseFix>(fixes: Seq<F>, a: Seq<char>, b: Seq<char>, from: int)
    requires
        base_name(a) == base_name(b),
        0 <= from <= fixes.len(),
    ensures
        named_from(fixes, a, from) == named_from(fixes, b, from),
    decreases fixes.len() - from,
{
    if from < fixes.len() {
        lemma_same_base(fixes, a, b, from + 1);
    }
}

} // verus!
