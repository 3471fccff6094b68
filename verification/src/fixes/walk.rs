//! The walk over the tool calls of a response.
//!
//! A response holds `choices`, each choice a `message` (a complete response)
//! or a `delta` (a chunk), and each of these a list of `tool_calls`. Every fix
//! takes this way, and differs only in what it does with one call.

use vstd::prelude::*;
use vstd::string::*;
use crate::json::{lemma_put, lemma_put_same, put, views, Json, JsonView};
use super::{action_views, ActionView, ErrorView, FixAction, FixError};

verus! {

broadcast use {vstd::string::group_string_axioms, crate::json::group_json};

/// What is done with one tool call.
pub trait CallRepair: Sized {
    /// The calls that ask for a repair.
    spec fn triggers_view(&self, call: JsonView) -> bool;

    /// What becomes of the call at a position, and the action where it was
    /// repaired; or why it cannot be repaired.
    spec fn repair_view(&self, at: int, call: JsonView) -> Result<(JsonView, Option<ActionView>), ErrorView>;

    /// Whether the call asks for a repair.
    fn triggers(&self, call: &Json) -> (triggers: bool)
        ensures
            triggers == self.triggers_view(call@),
    ;

    /// Repairs the call in place. On `Err` the call may be left half done.
    fn repair(&self, at: usize, call: &mut Json) -> (result: Result<Option<FixAction>, FixError>)
        ensures
            match result {
                Ok(action) => self.repair_view(at as int, old(call)@) == Ok::<(JsonView, Option<ActionView>), ErrorView>(
                    (final(call)@, optional_action(action)),
                ),
                Err(e) => self.repair_view(at as int, old(call)@) == Err::<(JsonView, Option<ActionView>), ErrorView>(e@),
            },
    ;
}

/// What becomes of the call at a position.
pub type RepairFn = spec_fn(int, JsonView) -> Result<(JsonView, Option<ActionView>), ErrorView>;

/// Which calls ask for a repair.
pub type TriggerFn = spec_fn(JsonView) -> bool;

/// What a repair does with a call, as a function.
pub open spec fn repair_fn<R: CallRepair>(r: R) -> RepairFn {
    |at: int, call: JsonView| r.repair_view(at, call)
}

/// Which calls ask for a repair, as a function.
pub open spec fn trigger_fn<R: CallRepair>(r: R) -> TriggerFn {
    |call: JsonView| r.triggers_view(call)
}

/// The view of an optional action.
pub open spec fn optional_action(action: Option<FixAction>) -> Option<ActionView> {
    match action {
        Some(a) => Some(a@),
        None => None,
    }
}

/// Which sides of a choice are walked.
#[derive(Debug, Clone, Copy, PartialEq, Eq, Structural)]
pub enum Sides {
    /// Only `message`.
    Message,
    /// `message`, then `delta`.
    Both,
}

/// A walk that went through, with the repairs in the order in which they were
/// made; or the failure that ended it.
pub type Walked<T> = Result<(T, Seq<ActionView>), ErrorView>;

/// The walk over the first `n` calls of a list.
pub open spec fn walk_calls(f: RepairFn, calls: Seq<JsonView>, n: nat) -> Walked<Seq<JsonView>>
    decreases n,
{
    if n == 0 || n > calls.len() {
        Ok((calls, Seq::empty()))
    } else {
        match walk_calls(f, calls, (n - 1) as nat) {
            Err(e) => Err(e),
            Ok((done, actions)) => match f(n - 1, calls[n - 1]) {
                Err(e) => Err(e),
                Ok((call, action)) => Ok(
                    (
                        done.update(n - 1, call),
                        match action {
                            Some(a) => actions.push(a),
                            None => actions,
                        },
                    ),
                ),
            },
        }
    }
}

/// The walk over the calls of one side of a choice.
pub open spec fn walk_side(f: RepairFn, choice: JsonView, side: Seq<char>) -> Walked<JsonView> {
    match side_calls(choice, side) {
        Some(calls) => match walk_calls(f, calls, calls.len()) {
            Err(e) => Err(e),
            Ok((done, actions)) => Ok(
                (put(choice, side, put(choice.get(side)->0, "tool_calls"@, JsonView::Array(done))), actions),
            ),
        },
        None => Ok((choice, Seq::empty())),
    }
}

/// The tool calls of one side of a choice.
pub open spec fn side_calls(choice: JsonView, side: Seq<char>) -> Option<Seq<JsonView>> {
    match choice.get(side) {
        Some(s) => match s.get("tool_calls"@) {
            Some(calls) => calls.as_array(),
            None => None,
        },
        None => None,
    }
}

/// The walk over a choice.
pub open spec fn walk_choice(f: RepairFn, choice: JsonView, sides: Sides) -> Walked<JsonView> {
    match walk_side(f, choice, "message"@) {
        Err(e) => Err(e),
        Ok((half, first)) => match sides {
            Sides::Message => Ok((half, first)),
            Sides::Both => match walk_side(f, half, "delta"@) {
                Err(e) => Err(e),
                Ok((whole, second)) => Ok((whole, first + second)),
            },
        },
    }
}

/// The walk over the first `n` choices.
pub open spec fn walk_choices(
    f: RepairFn,
    choices: Seq<JsonView>,
    n: nat,
    sides: Sides,
) -> Walked<Seq<JsonView>>
    decreases n,
{
    if n == 0 || n > choices.len() {
        Ok((choices, Seq::empty()))
    } else {
        match walk_choices(f, choices, (n - 1) as nat, sides) {
            Err(e) => Err(e),
            Ok((done, actions)) => match walk_choice(f, choices[n - 1], sides) {
                Err(e) => Err(e),
                Ok((choice, more)) => Ok((done.update(n - 1, choice), actions + more)),
            },
        }
    }
}

/// The choices of a response.
pub open spec fn choices_of(response: JsonView) -> Option<Seq<JsonView>> {
    match response.get("choices"@) {
        Some(c) => c.as_array(),
        None => None,
    }
}

/// The walk over a response.
pub open spec fn walk_response(f: RepairFn, response: JsonView, sides: Sides) -> Walked<JsonView> {
    match choices_of(response) {
        None => Ok((response, Seq::empty())),
        Some(choices) => match walk_choices(f, choices, choices.len(), sides) {
            Err(e) => Err(e),
            Ok((done, actions)) => Ok((put(response, "choices"@, JsonView::Array(done)), actions)),
        },
    }
}

/// Whether a call of one side of a choice asks for a repair.
pub open spec fn side_triggers(t: TriggerFn, choice: JsonView, side: Seq<char>) -> bool {
    match side_calls(choice, side) {
        Some(calls) => exists|j: int| 0 <= j < calls.len() && t(#[trigger] calls[j]),
        None => false,
    }
}

/// Whether a call of a choice asks for a repair.
pub open spec fn choice_triggers(t: TriggerFn, choice: JsonView, sides: Sides) -> bool {
    side_triggers(t, choice, "message"@) || (sides == Sides::Both && side_triggers(t, choice, "delta"@))
}

/// Whether a call of a response asks for a repair.
pub open spec fn response_triggers(t: TriggerFn, response: JsonView, sides: Sides) -> bool {
    match choices_of(response) {
        Some(choices) => exists|i: int|
            0 <= i < choices.len() && choice_triggers(t, #[trigger] choices[i], sides),
        None => false,
    }
}

fn repair_calls<R: CallRepair>(r: &R, calls: &mut Vec<Json>, repairs: &mut Vec<FixAction>) -> (result: Result<(), FixError>)
    ensures
        match result {
            Ok(()) => exists|actions: Seq<ActionView>|
                {
                    &&& walk_calls(repair_fn(*r), views(old(calls)@), old(calls)@.len()) == Ok::<(Seq<JsonView>, Seq<ActionView>), ErrorView>(
                        (views(final(calls)@), actions),
                    )
                    &&& action_views(final(repairs)@) == #[trigger] (action_views(old(repairs)@) + actions)
                },
            Err(e) => walk_calls(repair_fn(*r), views(old(calls)@), old(calls)@.len()) == Err::<(Seq<JsonView>, Seq<ActionView>), ErrorView>(e@),
        },
{
    let ghost before = views(calls@);
    let n = calls.len();
    let mut i: usize = 0;
    let ghost mut actions: Seq<ActionView> = Seq::empty();
    proof {
        assert(action_views(repairs@) =~= action_views(old(repairs)@) + actions);
    }
    while i < n
        invariant
            i <= n,
            n == calls@.len(),
            before == views(old(calls)@),
            before.len() == n,
            walk_calls(repair_fn(*r), before, i as nat) == Ok::<(Seq<JsonView>, Seq<ActionView>), ErrorView>((views(calls@), actions)),
            forall|k: int| i <= k < n ==> views(calls@)[k] == before[k],
            action_views(repairs@) == action_views(old(repairs)@) + actions,
        decreases n - i,
    {
        let ghost now = calls@;
        let outcome = r.repair(i, &mut calls[i]);
        match outcome {
            Err(e) => {
                proof {
                    lemma_walk_calls_stops(repair_fn(*r), before, (i + 1) as nat, n as nat, e@);
                }
                return Err(e);
            },
            Ok(None) => {},
            Ok(Some(action)) => {
                let ghost was = repairs@;
                let ghost shown = action@;
                repairs.push(action);
                proof {
                    actions = actions.push(shown);
                    assert(action_views(repairs@) =~= action_views(was).push(shown));
                    assert(action_views(repairs@) =~= action_views(old(repairs)@) + actions);
                }
            },
        }
        proof {
            assert(views(calls@) =~= views(now).update(i as int, calls@[i as int]@));
        }
        i += 1;
    }
    Ok(())
}

/// A walk that fails early fails with the same failure later.
proof fn lemma_walk_calls_stops(f: RepairFn, calls: Seq<JsonView>, i: nat, n: nat, e: ErrorView)
    requires
        i <= n <= calls.len(),
        walk_calls(f, calls, i) == Err::<(Seq<JsonView>, Seq<ActionView>), ErrorView>(e),
    ensures
        walk_calls(f, calls, n) == Err::<(Seq<JsonView>, Seq<ActionView>), ErrorView>(e),
    decreases n - i,
{
    if i < n {
        lemma_walk_calls_stops(f, calls, i, (n - 1) as nat, e);
    }
}


fn repair_side<R: CallRepair>(r: &R, choice: &mut Json, side: &str, repairs: &mut Vec<FixAction>) -> (result: Result<
    (),
    FixError,
>)
    ensures
        match result {
            Ok(()) => exists|actions: Seq<ActionView>|
                {
                    &&& walk_side(repair_fn(*r), old(choice)@, side@) == Ok::<(JsonView, Seq<ActionView>), ErrorView>(
                        (final(choice)@, actions),
                    )
                    &&& action_views(final(repairs)@) == #[trigger] (action_views(old(repairs)@) + actions)
                },
            Err(e) => walk_side(repair_fn(*r), old(choice)@, side@) == Err::<(JsonView, Seq<ActionView>), ErrorView>(e@),
        },
{
    let ghost before = choice@;
    proof {
        assert(action_views(repairs@) =~= action_views(old(repairs)@) + Seq::empty());
        if before.get(side@) is Some {
            lemma_put_same(before, side@);
            if before.get(side@)->0.get("tool_calls"@) is Some {
                lemma_put_same(before.get(side@)->0, "tool_calls"@);
            }
        }
    }
    match choice.get_mut(side) {
        None => Ok(()),
        Some(part) => match part.get_mut("tool_calls") {
            None => Ok(()),
            Some(calls) => match calls {
                Json::Array(list) => repair_calls(r, list, repairs),
                _ => Ok(()),
            },
        },
    }
}

fn repair_choice<R: CallRepair>(r: &R, choice: &mut Json, sides: Sides, repairs: &mut Vec<FixAction>) -> (result: Result<
    (),
    FixError,
>)
    ensures
        match result {
            Ok(()) => exists|actions: Seq<ActionView>|
                {
                    &&& walk_choice(repair_fn(*r), old(choice)@, sides) == Ok::<(JsonView, Seq<ActionView>), ErrorView>(
                        (final(choice)@, actions),
                    )
                    &&& action_views(final(repairs)@) == #[trigger] (action_views(old(repairs)@) + actions)
                },
            Err(e) => walk_choice(repair_fn(*r), old(choice)@, sides) == Err::<(JsonView, Seq<ActionView>), ErrorView>(e@),
        },
{
    match repair_side(r, choice, "message", repairs) {
        Err(e) => {
            return Err(e);
        },
        Ok(()) => {},
    }
    let ghost first = walk_side(repair_fn(*r), old(choice)@, "message"@)->Ok_0.1;
    let ghost half = repairs@;
    match sides {
        Sides::Message => Ok(()),
        Sides::Both => {
            let last = repair_side(r, choice, "delta", repairs);
            proof {
                if last is Ok {
                    let second = walk_side(repair_fn(*r), walk_side(repair_fn(*r), old(choice)@, "message"@)->Ok_0.0, "delta"@)->Ok_0.1;
                    assert(action_views(old(repairs)@) + (first + second) =~= (action_views(old(repairs)@) + first)
                        + second);
                }
            }
            last
        },
    }
}

proof fn lemma_walk_choices_stops(
    f: RepairFn,
    choices: Seq<JsonView>,
    i: nat,
    n: nat,
    sides: Sides,
    e: ErrorView,
)
    requires
        i <= n <= choices.len(),
        walk_choices(f, choices, i, sides) == Err::<(Seq<JsonView>, Seq<ActionView>), ErrorView>(e),
    ensures
        walk_choices(f, choices, n, sides) == Err::<(Seq<JsonView>, Seq<ActionView>), ErrorView>(e),
    decreases n - i,
{
    if i < n {
        lemma_walk_choices_stops(f, choices, i, (n - 1) as nat, sides, e);
    }
}

fn repair_choices<R: CallRepair>(r: &R, choices: &mut Vec<Json>, sides: Sides, repairs: &mut Vec<FixAction>) -> (result:
    Result<(), FixError>)
    ensures
        match result {
            Ok(()) => exists|actions: Seq<ActionView>|
                {
                    &&& walk_choices(repair_fn(*r), views(old(choices)@), old(choices)@.len(), sides) == Ok::<
                        (Seq<JsonView>, Seq<ActionView>),
                        ErrorView,
                    >((views(final(choices)@), actions))
                    &&& action_views(final(repairs)@) == #[trigger] (action_views(old(repairs)@) + actions)
                },
            Err(e) => walk_choices(repair_fn(*r), views(old(choices)@), old(choices)@.len(), sides) == Err::<
                (Seq<JsonView>, Seq<ActionView>),
                ErrorView,
            >(e@),
        },
{
    let ghost before = views(choices@);
    let n = choices.len();
    let mut i: usize = 0;
    let ghost mut actions: Seq<ActionView> = Seq::empty();
    proof {
        assert(action_views(repairs@) =~= action_views(old(repairs)@) + actions);
    }
    while i < n
        invariant
            i <= n,
            n == choices@.len(),
            before == views(old(choices)@),
            before.len() == n,
            walk_choices(repair_fn(*r), before, i as nat, sides) == Ok::<(Seq<JsonView>, Seq<ActionView>), ErrorView>(
                (views(choices@), actions),
            ),
            forall|k: int| i <= k < n ==> views(choices@)[k] == before[k],
            action_views(repairs@) == action_views(old(repairs)@) + actions,
        decreases n - i,
    {
        let ghost now = choices@;
        let ghost was = repairs@;
        match repair_choice(r, &mut choices[i], sides, repairs) {
            Err(e) => {
                proof {
                    lemma_walk_choices_stops(repair_fn(*r), before, (i + 1) as nat, n as nat, sides, e@);
                }
                return Err(e);
            },
            Ok(()) => {},
        }
        proof {
            let more = walk_choice(repair_fn(*r), before[i as int], sides)->Ok_0.1;
            assert(action_views(old(repairs)@) + (actions + more) =~= (action_views(old(repairs)@) + actions) + more);
            actions = actions + more;
            assert(views(choices@) =~= views(now).update(i as int, choices@[i as int]@));
        }
        i += 1;
    }
    Ok(())
}

/// Walks a response and repairs its calls in place; on `Err` it may be left
/// half done.
pub fn repair_response<R: CallRepair>(r: &R, response: &mut Json, sides: Sides) -> (result: Result<
    Vec<FixAction>,
    FixError,
>)
    ensures
        match result {
            Ok(repairs) => walk_response(repair_fn(*r), old(response)@, sides) == Ok::<(JsonView, Seq<ActionView>), ErrorView>(
                (final(response)@, action_views(repairs@)),
            ),
            Err(e) => walk_response(repair_fn(*r), old(response)@, sides) == Err::<(JsonView, Seq<ActionView>), ErrorView>(e@),
        },
{
    let mut repairs: Vec<FixAction> = Vec::new();
    let ghost before = response@;
    proof {
        assert(action_views(repairs@) =~= Seq::empty());
        if before.get("choices"@) is Some {
            lemma_put_same(before, "choices"@);
        }
    }
    match response.get_mut("choices") {
        None => {},
        Some(choices) => match choices {
            Json::Array(list) => {
                match repair_choices(r, list, sides, &mut repairs) {
                    Err(e) => {
                        return Err(e);
                    },
                    Ok(()) => {},
                }
                proof {
                    let actions = walk_choices(repair_fn(*r), choices_of(before)->0, choices_of(before)->0.len(), sides)->Ok_0.1;
                    assert(Seq::<ActionView>::empty() + actions =~= actions);
                }
            },
            _ => {},
        },
    }
    Ok(repairs)
}

/// Whether a call of one side of a choice asks for a repair.
fn find_side_trigger<R: CallRepair>(r: &R, choice: &Json, side: &str) -> (found: bool)
    ensures
        found == side_triggers(trigger_fn(*r), choice@, side@),
{
    match choice.get(side) {
        Some(part) => match part.get("tool_calls") {
            Some(Json::Array(calls)) => {
                let mut j: usize = 0;
                while j < calls.len()
                    invariant
                        j <= calls@.len(),
                        side_calls(choice@, side@) == Some(views(calls@)),
                        forall|k: int| 0 <= k < j ==> !r.triggers_view(#[trigger] views(calls@)[k]),
                    decreases calls@.len() - j,
                {
                    if r.triggers(&calls[j]) {
                        proof {
                            let all = side_calls(choice@, side@)->0;
                            assert(all.len() == calls@.len() && all[j as int] == calls@[j as int]@);
                            assert(r.triggers_view(all[j as int]));
                        }
                        return true;
                    }
                    j += 1;
                }
                false
            },
            _ => false,
        },
        None => false,
    }
}

/// Whether a call of a response asks for a repair.
pub fn find_trigger<R: CallRepair>(r: &R, response: &Json, sides: Sides) -> (found: bool)
    ensures
        found == response_triggers(trigger_fn(*r), response@, sides),
{
    match response.get("choices") {
        Some(Json::Array(choices)) => {
            let mut i: usize = 0;
            while i < choices.len()
                invariant
                    i <= choices@.len(),
                    choices_of(response@) == Some(views(choices@)),
                    forall|k: int| 0 <= k < i ==> !choice_triggers(trigger_fn(*r), #[trigger] views(choices@)[k], sides),
                decreases choices@.len() - i,
            {
                let both = match sides {
                    Sides::Both => true,
                    Sides::Message => false,
                };
                if find_side_trigger(r, &choices[i], "message") || (both && find_side_trigger(r, &choices[i], "delta")) {
                    proof {
                        let all = choices_of(response@)->0;
                        assert(all.len() == choices@.len() && all[i as int] == choices@[i as int]@);
                        assert(choice_triggers(trigger_fn(*r), all[i as int], sides));
                    }
                    return true;
                }
                i += 1;
            }
            false
        },
        _ => false,
    }
}

/// A walk whose every repair goes through goes through.
pub proof fn lemma_walk_never_fails(f: RepairFn, response: JsonView, sides: Sides)
    requires
        forall|at: int, call: JsonView| (#[trigger] f(at, call)) is Ok,
    ensures
        walk_response(f, response, sides) is Ok,
{
    if let Some(choices) = choices_of(response) {
        lemma_choices_never_fail(f, choices, choices.len(), sides);
    }
}

proof fn lemma_choices_never_fail(f: RepairFn, choices: Seq<JsonView>, n: nat, sides: Sides)
    requires
        n <= choices.len(),
        forall|at: int, call: JsonView| (#[trigger] f(at, call)) is Ok,
    ensures
        walk_choices(f, choices, n, sides) is Ok,
    decreases n,
{
    if n > 0 {
        lemma_choices_never_fail(f, choices, (n - 1) as nat, sides);
        let choice = choices[n - 1];
        lemma_side_never_fails(f, choice, "message"@);
        lemma_side_never_fails(f, walk_side(f, choice, "message"@)->Ok_0.0, "delta"@);
    }
}

proof fn lemma_side_never_fails(f: RepairFn, choice: JsonView, side: Seq<char>)
    requires
        forall|at: int, call: JsonView| (#[trigger] f(at, call)) is Ok,
    ensures
        walk_side(f, choice, side) is Ok,
{
    if let Some(calls) = side_calls(choice, side) {
        lemma_calls_never_fail(f, calls, calls.len());
    }
}

proof fn lemma_calls_never_fail(f: RepairFn, calls: Seq<JsonView>, n: nat)
    requires
        n <= calls.len(),
        forall|at: int, call: JsonView| (#[trigger] f(at, call)) is Ok,
    ensures
        walk_calls(f, calls, n) is Ok,
    decreases n,
{
    if n > 0 {
        lemma_calls_never_fail(f, calls, (n - 1) as nat);
    }
}

/// A walk over calls does with each call what the repair does with it.
proof fn lemma_walked_call(f: RepairFn, calls: Seq<JsonView>, n: nat, j: int)
    requires
        n <= calls.len(),
        walk_calls(f, calls, n) is Ok,
        0 <= j < calls.len(),
    ensures
        ({
            let done = walk_calls(f, calls, n)->Ok_0.0;
            &&& done.len() == calls.len()
            &&& j < n ==> f(j, calls[j]) is Ok && done[j] == f(j, calls[j])->Ok_0.0
            &&& j >= n ==> done[j] == calls[j]
        }),
    decreases n,
{
    if n > 0 {
        lemma_walked_call(f, calls, (n - 1) as nat, j);
    }
}

proof fn lemma_walked_len(f: RepairFn, calls: Seq<JsonView>, n: nat)
    requires
        n <= calls.len(),
        walk_calls(f, calls, n) is Ok,
    ensures
        walk_calls(f, calls, n)->Ok_0.0.len() == calls.len(),
    decreases n,
{
    if n > 0 {
        lemma_walked_len(f, calls, (n - 1) as nat);
    }
}

/// A walk over one side changes the calls of that side and nothing else.
proof fn lemma_walked_side(f: RepairFn, choice: JsonView, side: Seq<char>, other: Seq<char>)
    requires
        walk_side(f, choice, side) is Ok,
    ensures
        ({
            let done = walk_side(f, choice, side)->Ok_0.0;
            &&& other != side ==> done.get(other) == choice.get(other)
            &&& side_calls(done, side) == match side_calls(choice, side) {
                Some(calls) => Some(walk_calls(f, calls, calls.len())->Ok_0.0),
                None => None,
            }
        }),
{
    if let Some(calls) = side_calls(choice, side) {
        let part = choice.get(side)->0;
        let done = walk_calls(f, calls, calls.len())->Ok_0.0;
        let new_part = put(part, "tool_calls"@, JsonView::Array(done));
        lemma_put(part, "tool_calls"@, JsonView::Array(done), "tool_calls"@);
        lemma_put(choice, side, new_part, side);
        lemma_put(choice, side, new_part, other);
    }
}

/// The walk over a choice, side by side.
proof fn lemma_walked_choice(f: RepairFn, choice: JsonView, sides: Sides, side: Seq<char>)
    requires
        walk_choice(f, choice, sides) is Ok,
        side == "message"@ || (side == "delta"@ && sides == Sides::Both),
    ensures
        side_calls(walk_choice(f, choice, sides)->Ok_0.0, side) == match side_calls(choice, side) {
            Some(calls) => Some(walk_calls(f, calls, calls.len())->Ok_0.0),
            None => None,
        },
        side_calls(choice, side) is Some ==> walk_calls(f, side_calls(choice, side)->0, side_calls(choice, side)->0.len()) is Ok,
{
    lemma_sides_differ();
    let half = walk_side(f, choice, "message"@)->Ok_0.0;
    lemma_walked_side(f, choice, "message"@, "delta"@);
    if sides == Sides::Both {
        lemma_walked_side(f, half, "delta"@, "message"@);
    }
}

proof fn lemma_sides_differ()
    ensures
        "message"@ != "delta"@,
{
    reveal_strlit("message");
    reveal_strlit("delta");
    assert("message"@.len() != "delta"@.len());
}

proof fn lemma_walked_choices(f: RepairFn, choices: Seq<JsonView>, n: nat, sides: Sides, i: int)
    requires
        n <= choices.len(),
        walk_choices(f, choices, n, sides) is Ok,
        0 <= i < choices.len(),
    ensures
        ({
            let done = walk_choices(f, choices, n, sides)->Ok_0.0;
            &&& done.len() == choices.len()
            &&& i < n ==> walk_choice(f, choices[i], sides) is Ok && done[i] == walk_choice(f, choices[i], sides)->Ok_0.0
            &&& i >= n ==> done[i] == choices[i]
        }),
    decreases n,
{
    if n > 0 {
        lemma_walked_choices(f, choices, (n - 1) as nat, sides, i);
    }
}

/// The call at a place of a response.
pub open spec fn call_at(response: JsonView, i: int, side: Seq<char>, j: int) -> Option<JsonView> {
    match choices_of(response) {
        Some(choices) => if 0 <= i < choices.len() {
            match side_calls(choices[i], side) {
                Some(calls) => if 0 <= j < calls.len() {
                    Some(calls[j])
                } else {
                    None
                },
                None => None,
            }
        } else {
            None
        },
        None => None,
    }
}

/// A walk that goes through does with every call of a walked side what the
/// repair does with it, and finds no call where there was none.
pub proof fn law_walk_repairs_each_call(
    f: RepairFn,
    response: JsonView,
    sides: Sides,
    i: int,
    side: Seq<char>,
    j: int,
)
    requires
        walk_response(f, response, sides) is Ok,
        side == "message"@ || (side == "delta"@ && sides == Sides::Both),
    ensures
        call_at(walk_response(f, response, sides)->Ok_0.0, i, side, j) == match call_at(response, i, side, j) {
            Some(call) => Some(f(j, call)->Ok_0.0),
            None => None,
        },
        call_at(response, i, side, j) is Some ==> f(j, call_at(response, i, side, j)->0) is Ok,
{
    if let Some(choices) = choices_of(response) {
        let done = walk_choices(f, choices, choices.len(), sides)->Ok_0.0;
        lemma_put(response, "choices"@, JsonView::Array(done), "choices"@);
        if choices.len() > 0 {
            lemma_walked_choices(f, choices, choices.len(), sides, 0);
        } else {
            lemma_walked_none(f, choices, sides);
        }
        if 0 <= i < choices.len() {
            lemma_walked_choices(f, choices, choices.len(), sides, i);
            lemma_walked_choice(f, choices[i], sides, side);
            if let Some(calls) = side_calls(choices[i], side) {
                lemma_walked_len(f, calls, calls.len());
                if 0 <= j < calls.len() {
                    lemma_walked_call(f, calls, calls.len(), j);
                }
            }
        }
    }
}

proof fn lemma_walked_none(f: RepairFn, choices: Seq<JsonView>, sides: Sides)
    requires
        choices.len() == 0,
    ensures
        walk_choices(f, choices, choices.len(), sides) == Ok::<(Seq<JsonView>, Seq<ActionView>), ErrorView>(
            (choices, Seq::empty()),
        ),
{
}

/// A walk changes no member of a response but `choices`.
pub proof fn law_walk_keeps_other_members(f: RepairFn, response: JsonView, sides: Sides, key: Seq<char>)
    requires
        walk_response(f, response, sides) is Ok,
        key != "choices"@,
    ensures
        walk_response(f, response, sides)->Ok_0.0.get(key) == response.get(key),
{
    if let Some(choices) = choices_of(response) {
        let done = walk_choices(f, choices, choices.len(), sides)->Ok_0.0;
        lemma_put(response, "choices"@, JsonView::Array(done), key);
    }
}

/// Whether a repair finds nothing more to do with what it returned.
pub open spec fn settles(f: RepairFn) -> bool {
    forall|at: int, call: JsonView|
        (#[trigger] f(at, call)) is Ok ==> f(at, f(at, call)->Ok_0.0) == Ok::<(JsonView, Option<ActionView>), ErrorView>(
            (f(at, call)->Ok_0.0, None),
        )
}

proof fn lemma_calls_settled(f: RepairFn, calls: Seq<JsonView>, n: nat)
    requires
        n <= calls.len(),
        forall|j: int|
            0 <= j < calls.len() ==> f(j, #[trigger] calls[j]) == Ok::<(JsonView, Option<ActionView>), ErrorView>(
                (calls[j], None),
            ),
    ensures
        walk_calls(f, calls, n) == Ok::<(Seq<JsonView>, Seq<ActionView>), ErrorView>((calls, Seq::empty())),
    decreases n,
{
    if n > 0 {
        lemma_calls_settled(f, calls, (n - 1) as nat);
        assert(f(n - 1, calls[n - 1]) == Ok::<(JsonView, Option<ActionView>), ErrorView>((calls[n - 1], None)));
        assert(calls.update(n - 1, calls[n - 1]) =~= calls);
    }
}

proof fn lemma_side_settled(f: RepairFn, choice: JsonView, side: Seq<char>)
    requires
        match side_calls(choice, side) {
            Some(calls) => forall|j: int|
                0 <= j < calls.len() ==> f(j, #[trigger] calls[j]) == Ok::<(JsonView, Option<ActionView>), ErrorView>(
                    (calls[j], None),
                ),
            None => true,
        },
    ensures
        walk_side(f, choice, side) == Ok::<(JsonView, Seq<ActionView>), ErrorView>((choice, Seq::empty())),
{
    if let Some(calls) = side_calls(choice, side) {
        lemma_calls_settled(f, calls, calls.len());
        lemma_put_same(choice.get(side)->0, "tool_calls"@);
        lemma_put_same(choice, side);
    }
}

proof fn lemma_choice_settled(f: RepairFn, choice: JsonView, sides: Sides)
    requires
        settles(f),
        walk_choice(f, choice, sides) is Ok,
    ensures
        ({
            let done = walk_choice(f, choice, sides)->Ok_0.0;
            walk_choice(f, done, sides) == Ok::<(JsonView, Seq<ActionView>), ErrorView>((done, Seq::empty()))
        }),
{
    let done = walk_choice(f, choice, sides)->Ok_0.0;
    lemma_walked_choice(f, choice, sides, "message"@);
    lemma_side_done(f, choice, done, "message"@);
    lemma_side_settled(f, done, "message"@);
    if sides == Sides::Both {
        lemma_walked_choice(f, choice, sides, "delta"@);
        lemma_side_done(f, choice, done, "delta"@);
        lemma_side_settled(f, done, "delta"@);
    }
    assert(Seq::<ActionView>::empty() + Seq::<ActionView>::empty() =~= Seq::<ActionView>::empty());
}

proof fn lemma_side_done(f: RepairFn, choice: JsonView, done: JsonView, side: Seq<char>)
    requires
        settles(f),
        side_calls(done, side) == match side_calls(choice, side) {
            Some(calls) => Some(walk_calls(f, calls, calls.len())->Ok_0.0),
            None => None,
        },
        side_calls(choice, side) is Some ==> walk_calls(f, side_calls(choice, side)->0, side_calls(choice, side)->0.len()) is Ok,
    ensures
        match side_calls(done, side) {
            Some(calls) => forall|j: int|
                0 <= j < calls.len() ==> f(j, #[trigger] calls[j]) == Ok::<(JsonView, Option<ActionView>), ErrorView>(
                    (calls[j], None),
                ),
            None => true,
        },
{
    if let Some(before) = side_calls(choice, side) {
        let calls = side_calls(done, side)->0;
        lemma_walked_len(f, before, before.len());
        assert forall|j: int| 0 <= j < calls.len() implies f(j, #[trigger] calls[j]) == Ok::<
            (JsonView, Option<ActionView>),
            ErrorView,
        >((calls[j], None)) by {
            lemma_walked_call(f, before, before.len(), j);
            assert(f(j, before[j]) is Ok);
        }
    }
}

proof fn lemma_choices_settled(f: RepairFn, choices: Seq<JsonView>, n: nat, sides: Sides)
    requires
        n <= choices.len(),
        forall|i: int|
            0 <= i < choices.len() ==> walk_choice(f, #[trigger] choices[i], sides) == Ok::<
                (JsonView, Seq<ActionView>),
                ErrorView,
            >((choices[i], Seq::empty())),
    ensures
        walk_choices(f, choices, n, sides) == Ok::<(Seq<JsonView>, Seq<ActionView>), ErrorView>((choices, Seq::empty())),
    decreases n,
{
    if n > 0 {
        lemma_choices_settled(f, choices, (n - 1) as nat, sides);
        let c = choices[n - 1];
        assert(walk_choice(f, c, sides) == Ok::<(JsonView, Seq<ActionView>), ErrorView>((c, Seq::empty())));
        assert(choices.update(n - 1, c) =~= choices);
        assert(Seq::<ActionView>::empty() + Seq::<ActionView>::empty() =~= Seq::<ActionView>::empty());
    }
}

/// A repair that settles finds nothing to do in a response that it walked.
pub proof fn law_walk_is_idempotent(f: RepairFn, response: JsonView, sides: Sides)
    requires
        settles(f),
        walk_response(f, response, sides) is Ok,
    ensures
        ({
            let done = walk_response(f, response, sides)->Ok_0.0;
            walk_response(f, done, sides) == Ok::<(JsonView, Seq<ActionView>), ErrorView>((done, Seq::empty()))
        }),
{
    if let Some(choices) = choices_of(response) {
        let done = walk_choices(f, choices, choices.len(), sides)->Ok_0.0;
        let whole = put(response, "choices"@, JsonView::Array(done));
        lemma_put(response, "choices"@, JsonView::Array(done), "choices"@);
        if choices.len() == 0 {
            lemma_walked_none(f, choices, sides);
        } else {
            lemma_walked_choices(f, choices, choices.len(), sides, 0);
        }
        assert forall|i: int| 0 <= i < done.len() implies walk_choice(f, #[trigger] done[i], sides) == Ok::<
            (JsonView, Seq<ActionView>),
            ErrorView,
        >((done[i], Seq::empty())) by {
            lemma_walked_choices(f, choices, choices.len(), sides, i);
            lemma_choice_settled(f, choices[i], sides);
        }
        lemma_choices_settled(f, done, done.len(), sides);
        lemma_put_same(whole, "choices"@);
    }
}

/// Whether a repair leaves alone every call that does not ask for one.
pub open spec fn spares(f: RepairFn, t: TriggerFn) -> bool {
    forall|at: int, call: JsonView|
        !t(call) ==> #[trigger] f(at, call) == Ok::<(JsonView, Option<ActionView>), ErrorView>((call, None))
}

/// Where no call asks for a repair, a walk changes nothing and repairs nothing.
pub proof fn law_untriggered_walk_changes_nothing(f: RepairFn, t: TriggerFn, response: JsonView, sides: Sides)
    requires
        spares(f, t),
        !response_triggers(t, response, sides),
    ensures
        walk_response(f, response, sides) == Ok::<(JsonView, Seq<ActionView>), ErrorView>((response, Seq::empty())),
{
    if let Some(choices) = choices_of(response) {
        assert forall|i: int| 0 <= i < choices.len() implies walk_choice(f, #[trigger] choices[i], sides) == Ok::<
            (JsonView, Seq<ActionView>),
            ErrorView,
        >((choices[i], Seq::empty())) by {
            assert(!choice_triggers(t, choices[i], sides));
            lemma_side_untriggered(f, t, choices[i], "message"@);
            if sides == Sides::Both {
                lemma_side_untriggered(f, t, choices[i], "delta"@);
            }
            assert(Seq::<ActionView>::empty() + Seq::<ActionView>::empty() =~= Seq::<ActionView>::empty());
        }
        lemma_choices_settled(f, choices, choices.len(), sides);
        lemma_put_same(response, "choices"@);
    }
}

proof fn lemma_side_untriggered(f: RepairFn, t: TriggerFn, choice: JsonView, side: Seq<char>)
    requires
        spares(f, t),
        !side_triggers(t, choice, side),
    ensures
        walk_side(f, choice, side) == Ok::<(JsonView, Seq<ActionView>), ErrorView>((choice, Seq::empty())),
{
    if let Some(calls) = side_calls(choice, side) {
        assert forall|j: int| 0 <= j < calls.len() implies f(j, #[trigger] calls[j]) == Ok::<
            (JsonView, Option<ActionView>),
            ErrorView,
        >((calls[j], None)) by {
            assert(!t(calls[j]));
        }
    }
    lemma_side_settled(f, choice, side);
}

/// A walk gives back as many choices as there were, and changes no member of a
/// choice but the walked sides, and of these no member but `tool_calls`.
pub proof fn law_walk_keeps_the_rest_of_a_choice(
    f: RepairFn,
    response: JsonView,
    sides: Sides,
    choices: Seq<JsonView>,
    i: int,
    key: Seq<char>,
) -> (done: Seq<JsonView>)
    requires
        walk_response(f, response, sides) is Ok,
        response.get("choices"@) == Some(JsonView::Array(choices)),
        0 <= i < choices.len(),
    ensures
        walk_response(f, response, sides)->Ok_0.0.get("choices"@) == Some(JsonView::Array(done)),
        done.len() == choices.len(),
        key != "message"@ && key != "delta"@ ==> done[i].get(key) == choices[i].get(key),
        sides == Sides::Message ==> done[i].get("delta"@) == choices[i].get("delta"@),
        done[i].get("message"@) is Some <==> choices[i].get("message"@) is Some,
        done[i].get("delta"@) is Some <==> choices[i].get("delta"@) is Some,
        choices[i].get("message"@) is Some && key != "tool_calls"@ ==> done[i].get("message"@)->0.get(key)
            == choices[i].get("message"@)->0.get(key),
        choices[i].get("delta"@) is Some && key != "tool_calls"@ ==> done[i].get("delta"@)->0.get(key)
            == choices[i].get("delta"@)->0.get(key),
{
    let done = walk_choices(f, choices, choices.len(), sides)->Ok_0.0;
    lemma_put(response, "choices"@, JsonView::Array(done), "choices"@);
    lemma_walked_choices(f, choices, choices.len(), sides, i);
    lemma_sides_differ();
    let choice = choices[i];
    let half = walk_side(f, choice, "message"@)->Ok_0.0;
    lemma_walked_side(f, choice, "message"@, key);
    lemma_walked_side(f, choice, "message"@, "delta"@);
    lemma_side_keeps(f, choice, "message"@, key);
    if sides == Sides::Both {
        lemma_walked_side(f, half, "delta"@, key);
        lemma_walked_side(f, half, "delta"@, "message"@);
        lemma_side_keeps(f, half, "delta"@, key);
    }
    done
}

/// A walk over one side changes no member of it but `tool_calls`.
proof fn lemma_side_keeps(f: RepairFn, choice: JsonView, side: Seq<char>, key: Seq<char>)
    requires
        walk_side(f, choice, side) is Ok,
    ensures
        ({
            let done = walk_side(f, choice, side)->Ok_0.0;
            &&& done.get(side) is Some <==> choice.get(side) is Some
            &&& choice.get(side) is Some && key != "tool_calls"@ ==> done.get(side)->0.get(key) == choice.get(side)->0.get(key)
        }),
{
    if let Some(calls) = side_calls(choice, side) {
        let part = choice.get(side)->0;
        let done = walk_calls(f, calls, calls.len())->Ok_0.0;
        let new_part = put(part, "tool_calls"@, JsonView::Array(done));
        lemma_put(part, "tool_calls"@, JsonView::Array(done), key);
        lemma_put(choice, side, new_part, side);
    }
}

/// Whether a tool call stands at a place of a response: the `j`th call of one side
/// of the `i`th choice.
pub open spec fn stands_in(response: JsonView, i: int, side: Seq<char>, j: int, call: JsonView) -> bool {
    &&& response.get("choices"@) is Some
    &&& response.get("choices"@)->0 is Array
    &&& ({
        let choices = response.get("choices"@)->0->Array_0;
        &&& 0 <= i < choices.len()
        &&& choices[i].get(side) is Some
        &&& choices[i].get(side)->0.get("tool_calls"@) is Some
        &&& choices[i].get(side)->0.get("tool_calls"@)->0 is Array
        &&& ({
            let calls = choices[i].get(side)->0.get("tool_calls"@)->0->Array_0;
            0 <= j < calls.len() && calls[j] == call
        })
    })
}

/// A call stands at one place as the call at it.
pub proof fn lemma_stands_in(response: JsonView, i: int, side: Seq<char>, j: int, call: JsonView)
    ensures
        stands_in(response, i, side, j, call) <==> call_at(response, i, side, j) == Some(call),
{
}

/// Repairs are told in the order in which the calls stand: call by call, those of a message
/// before those of a delta, and choice by choice.
pub proof fn law_repairs_are_told_in_order(
    f: RepairFn,
    calls: Seq<JsonView>,
    choices: Seq<JsonView>,
    sides: Sides,
    n: nat,
    k: nat,
)
    requires
        0 < n <= calls.len(),
        0 < k <= choices.len(),
    ensures
        walk_calls(f, calls, n) is Ok ==> {
            let before = walk_calls(f, calls, (n - 1) as nat)->Ok_0.1;
            let after = walk_calls(f, calls, n)->Ok_0.1;
            &&& f(n - 1, calls[n - 1])->Ok_0.1 is Some ==> after == before.push(f(n - 1, calls[n - 1])->Ok_0.1->0)
            &&& f(n - 1, calls[n - 1])->Ok_0.1 is None ==> after == before
        },
        walk_choices(f, choices, k, sides) is Ok ==> {
            let before = walk_choices(f, choices, (k - 1) as nat, sides)->Ok_0.1;
            let choice = choices[k - 1];
            let message = walk_side(f, choice, "message"@)->Ok_0.1;
            &&& sides == Sides::Message ==> walk_choices(f, choices, k, sides)->Ok_0.1 == before + message
            &&& sides == Sides::Both ==> walk_choices(f, choices, k, sides)->Ok_0.1 == before + (message + walk_side(
                f,
                walk_side(f, choice, "message"@)->Ok_0.0,
                "delta"@,
            )->Ok_0.1)
        },
        walk_calls(f, calls, 0) == Ok::<(Seq<JsonView>, Seq<ActionView>), ErrorView>((calls, Seq::empty())),
        walk_choices(f, choices, 0, sides) == Ok::<(Seq<JsonView>, Seq<ActionView>), ErrorView>((choices, Seq::empty())),
{
}

/// The first call that cannot be repaired ends the walk with its error.
pub proof fn law_the_first_failure_ends_the_walk(f: RepairFn, calls: Seq<JsonView>, n: nat, j: int)
    requires
        0 <= j < n <= calls.len(),
        forall|k: int| 0 <= k < j ==> f(k, #[trigger] calls[k]) is Ok,
        f(j, calls[j]) is Err,
    ensures
        walk_calls(f, calls, n) is Err,
        walk_calls(f, calls, n)->Err_0 == f(j, calls[j])->Err_0,
    decreases n,
{
    if j < n - 1 {
        law_the_first_failure_ends_the_walk(f, calls, (n - 1) as nat, j);
    } else {
        lemma_goes_through(f, calls, j as nat);
    }
}

proof fn lemma_goes_through(f: RepairFn, calls: Seq<JsonView>, n: nat)
    requires
        n <= calls.len(),
        forall|k: int| 0 <= k < n ==> f(k, #[trigger] calls[k]) is Ok,
    ensures
        walk_calls(f, calls, n) is Ok,
    decreases n,
{
    if n > 0 {
        lemma_goes_through(f, calls, (n - 1) as nat);
        assert(f(n - 1, calls[n - 1]) is Ok);
    }
}

/// Where a response asks for a repair, one of its calls does.
pub proof fn lemma_some_call_triggers(t: TriggerFn, response: JsonView, sides: Sides) -> (place: (int, Seq<char>, int))
    requires
        response_triggers(t, response, sides),
    ensures
        place.1 == "message"@ || (place.1 == "delta"@ && sides == Sides::Both),
        call_at(response, place.0, place.1, place.2) is Some,
        t(call_at(response, place.0, place.1, place.2)->0),
{
    let choices = choices_of(response)->0;
    let i = choose|i: int| 0 <= i < choices.len() && choice_triggers(t, #[trigger] choices[i], sides);
    let side = if side_triggers(t, choices[i], "message"@) {
        "message"@
    } else {
        "delta"@
    };
    let calls = side_calls(choices[i], side)->0;
    let j = choose|j: int| 0 <= j < calls.len() && t(#[trigger] calls[j]);
    (i, side, j)
}

} // verus!
