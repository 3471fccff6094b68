//! The fixes of this library, and the registries made of them.

use vstd::prelude::*;
use vstd::string::*;
use crate::config::{FixModuleConfig, FixesConfig};
use crate::json::{Json, JsonView};
use crate::text::{group_texts, joined, same_text, texts};
use crate::text_map::TextMap;
use super::registry::{base_name, strip_fix, Flags, FixRegistry};
use super::toolcall_bad_filepath_fix::ToolcallBadFilepathFix;
use super::toolcall_malformed_arguments_fix::ToolcallMalformedArgumentsFix;
use super::toolcall_null_index_fix::ToolCallNullIndexFix;
use super::{outcome_view, ActionView, FixAction, FixError, FixLogLevel, Outcome, ResponseFix};

verus! {

broadcast use {vstd::string::group_string_axioms, crate::text::group_texts};

/// One of the fixes of this library.
pub enum BuiltinFix {
    NullIndex(ToolCallNullIndexFix),
    MalformedArguments(ToolcallMalformedArgumentsFix),
    BadFilepath(ToolcallBadFilepathFix),
}

impl ResponseFix for BuiltinFix {
    open spec fn name_view(&self) -> Seq<char> {
        match self {
            BuiltinFix::NullIndex(f) => f.name_view(),
            BuiltinFix::MalformedArguments(f) => f.name_view(),
            BuiltinFix::BadFilepath(f) => f.name_view(),
        }
    }

    open spec fn description_view(&self) -> Seq<char> {
        match self {
            BuiltinFix::NullIndex(f) => f.description_view(),
            BuiltinFix::MalformedArguments(f) => f.description_view(),
            BuiltinFix::BadFilepath(f) => f.description_view(),
        }
    }

    open spec fn log_level_view(&self) -> FixLogLevel {
        match self {
            BuiltinFix::NullIndex(f) => f.log_level_view(),
            BuiltinFix::MalformedArguments(f) => f.log_level_view(),
            BuiltinFix::BadFilepath(f) => f.log_level_view(),
        }
    }

    open spec fn applies_view(&self, response: JsonView) -> bool {
        match self {
            BuiltinFix::NullIndex(f) => f.applies_view(response),
            BuiltinFix::MalformedArguments(f) => f.applies_view(response),
            BuiltinFix::BadFilepath(f) => f.applies_view(response),
        }
    }

    open spec fn apply_view(&self, response: JsonView) -> (JsonView, ActionView) {
        match self {
            BuiltinFix::NullIndex(f) => f.apply_view(response),
            BuiltinFix::MalformedArguments(f) => f.apply_view(response),
            BuiltinFix::BadFilepath(f) => f.apply_view(response),
        }
    }

    open spec fn applies_in_context(&self, response: JsonView, request: JsonView) -> bool {
        match self {
            BuiltinFix::NullIndex(f) => f.applies_in_context(response, request),
            BuiltinFix::MalformedArguments(f) => f.applies_in_context(response, request),
            BuiltinFix::BadFilepath(f) => f.applies_in_context(response, request),
        }
    }

    open spec fn apply_in_context(&self, response: JsonView, request: JsonView) -> Outcome {
        match self {
            BuiltinFix::NullIndex(f) => f.apply_in_context(response, request),
            BuiltinFix::MalformedArguments(f) => f.apply_in_context(response, request),
            BuiltinFix::BadFilepath(f) => f.apply_in_context(response, request),
        }
    }

    fn name(&self) -> &str {
        match self {
            BuiltinFix::NullIndex(f) => f.name(),
            BuiltinFix::MalformedArguments(f) => f.name(),
            BuiltinFix::BadFilepath(f) => f.name(),
        }
    }

    fn description(&self) -> &str {
        match self {
            BuiltinFix::NullIndex(f) => f.description(),
            BuiltinFix::MalformedArguments(f) => f.description(),
            BuiltinFix::BadFilepath(f) => f.description(),
        }
    }

    fn log_level(&self) -> (level: FixLogLevel)
        ensures
            level == self.log_level_view(),
    {
        match self {
            BuiltinFix::NullIndex(f) => f.log_level(),
            BuiltinFix::MalformedArguments(f) => f.log_level(),
            BuiltinFix::BadFilepath(f) => f.log_level(),
        }
    }

    fn applies(&self, response: &Json) -> bool {
        match self {
            BuiltinFix::NullIndex(f) => f.applies(response),
            BuiltinFix::MalformedArguments(f) => f.applies(response),
            BuiltinFix::BadFilepath(f) => f.applies(response),
        }
    }

    fn apply(&self, response: Json) -> (Json, FixAction) {
        match self {
            BuiltinFix::NullIndex(f) => f.apply(response),
            BuiltinFix::MalformedArguments(f) => f.apply(response),
            BuiltinFix::BadFilepath(f) => f.apply(response),
        }
    }

    fn applies_with_context(&self, response: &Json, request: &Json) -> (applies: bool)
        ensures
            applies == self.applies_in_context(response@, request@),
    {
        match self {
            BuiltinFix::NullIndex(f) => f.applies_with_context(response, request),
            BuiltinFix::MalformedArguments(f) => f.applies_with_context(response, request),
            BuiltinFix::BadFilepath(f) => f.applies_with_context(response, request),
        }
    }

    fn apply_with_context(&self, response: Json, request: &Json) -> (result: Result<(Json, FixAction), FixError>)
        ensures
            outcome_view(result) == self.apply_in_context(response@, request@),
    {
        match self {
            BuiltinFix::NullIndex(f) => f.apply_with_context(response, request),
            BuiltinFix::MalformedArguments(f) => f.apply_with_context(response, request),
            BuiltinFix::BadFilepath(f) => f.apply_with_context(response, request),
        }
    }

    proof fn lemma_log_level(&self, level: FixLogLevel) {
    }

    proof fn lemma_applies_with_context(&self, response: &Json, request: &Json, applies: bool) {
    }

    proof fn lemma_apply_with_context(
        &self,
        response: Json,
        request: &Json,
        result: Result<(Json, FixAction), FixError>,
    ) {
    }
}

/// The fixes in the order in which they run. Indices come first, since other
/// fixes may build on them; the slots come before the broader `filePath`.
pub open spec fn builtin_fixes() -> Seq<BuiltinFix> {
    seq![
        BuiltinFix::NullIndex(ToolCallNullIndexFix),
        BuiltinFix::MalformedArguments(ToolcallMalformedArgumentsFix {  }),
        BuiltinFix::BadFilepath(ToolcallBadFilepathFix {  }),
    ]
}

/// The flags of fixes that were just registered.
pub open spec fn all_on(fixes: Seq<BuiltinFix>) -> Flags
    decreases fixes.len(),
{
    if fixes.len() == 0 {
        Map::empty()
    } else {
        all_on(fixes.drop_last()).insert(fixes.last().name_view(), true)
    }
}

/// The fixes, in the order in which they run.
fn builtins() -> (fixes: Vec<BuiltinFix>)
    ensures
        fixes@ == builtin_fixes(),
{
    let mut fixes: Vec<BuiltinFix> = Vec::new();
    fixes.push(BuiltinFix::NullIndex(ToolCallNullIndexFix));
    fixes.push(BuiltinFix::MalformedArguments(ToolcallMalformedArgumentsFix {  }));
    fixes.push(BuiltinFix::BadFilepath(ToolcallBadFilepathFix {  }));
    proof {
        assert(fixes@ =~= builtin_fixes());
    }
    fixes
}

/// A registry with every fix of this library, all enabled.
pub fn create_default_registry() -> (registry: FixRegistry<BuiltinFix>)
    ensures
        registry.fixes() == builtin_fixes(),
        registry.flags() == all_on(builtin_fixes()),
        registry.well_formed(),
{
    let mut registry: FixRegistry<BuiltinFix> = FixRegistry::new();
    registry.register(BuiltinFix::NullIndex(ToolCallNullIndexFix::new()));
    registry.register(BuiltinFix::MalformedArguments(ToolcallMalformedArgumentsFix::new()));
    registry.register(BuiltinFix::BadFilepath(ToolcallBadFilepathFix::new()));
    proof {
        assert(registry.fixes() =~= builtin_fixes());
        let all = builtin_fixes();
        reveal_with_fuel(all_on, 4);
        assert(all.drop_last() =~= all.take(2));
        assert(all.take(2).drop_last() =~= all.take(1));
        assert(all.take(1).drop_last() =~= Seq::<BuiltinFix>::empty());
    }
    registry
}

/// What a configuration says of a fix: under its name without `_fix`, or else
/// under its name with it.
pub open spec fn entry_for(modules: Map<Seq<char>, FixModuleConfig>, name: Seq<char>) -> Option<FixModuleConfig> {
    let base = base_name(name);
    if modules.contains_key(base) {
        Some(modules[base])
    } else if modules.contains_key(base + "_fix"@) {
        Some(modules[base + "_fix"@])
    } else {
        None
    }
}

/// Whether a configuration leaves a fix out.
pub open spec fn left_out(modules: Map<Seq<char>, FixModuleConfig>, name: Seq<char>) -> bool {
    match entry_for(modules, name) {
        Some(module) => !module.enabled,
        None => false,
    }
}

/// The first `n` fixes without those that a configuration leaves out.
pub open spec fn kept(modules: Map<Seq<char>, FixModuleConfig>, fixes: Seq<BuiltinFix>, n: nat) -> Seq<BuiltinFix>
    decreases n,
{
    if n == 0 || n > fixes.len() {
        Seq::empty()
    } else if left_out(modules, fixes[n - 1].name_view()) {
        kept(modules, fixes, (n - 1) as nat)
    } else {
        kept(modules, fixes, (n - 1) as nat).push(fixes[n - 1])
    }
}

/// The names of the fixes that a configuration leaves out.
pub open spec fn skipped(modules: Map<Seq<char>, FixModuleConfig>, fixes: Seq<BuiltinFix>, n: nat) -> Seq<Seq<char>>
    decreases n,
{
    if n == 0 || n > fixes.len() {
        Seq::empty()
    } else if left_out(modules, fixes[n - 1].name_view()) {
        skipped(modules, fixes, (n - 1) as nat).push(fixes[n - 1].name_view())
    } else {
        skipped(modules, fixes, (n - 1) as nat)
    }
}

/// Whether a configured name means one of the fixes.
pub open spec fn means_a_fix(name: Seq<char>) -> bool {
    exists|i: int|
        0 <= i < builtin_fixes().len() && base_name(name) == base_name((#[trigger] builtin_fixes()[i]).name_view())
}

/// The names among the first `n` entries that mean none of the fixes.
pub open spec fn unknown_keys(entries: Seq<(String, FixModuleConfig)>, n: nat) -> Seq<Seq<char>>
    decreases n,
{
    if n == 0 || n > entries.len() {
        Seq::empty()
    } else if means_a_fix(entries[n - 1].0@) {
        unknown_keys(entries, (n - 1) as nat)
    } else {
        unknown_keys(entries, (n - 1) as nat).push(entries[n - 1].0@)
    }
}

/// What a configuration of fixes came to, to be logged.
pub struct FixesReport {
    /// The names of the fixes that were left out.
    pub skipped: Vec<String>,
    /// The configured names that mean no fix.
    pub unknown: Vec<String>,
}

/// Whether a configuration leaves a fix out.
fn is_left_out(modules: &TextMap<FixModuleConfig>, name: &str) -> (out: bool)
    ensures
        out == left_out(modules@, name@),
{
    let base = strip_fix(name);
    match modules.get(base.as_str()) {
        Some(module) => !module.enabled,
        None => {
            let long = joined(base.as_str(), "_fix");
            match modules.get(long.as_str()) {
                Some(module) => !module.enabled,
                None => false,
            }
        },
    }
}

/// Whether a configured name means one of the fixes.
fn is_known(name: &str) -> (known: bool)
    ensures
        known == means_a_fix(name@),
{
    let base = strip_fix(name);
    let fixes = builtins();
    let mut i: usize = 0;
    while i < fixes.len()
        invariant
            i <= fixes@.len(),
            fixes@ == builtin_fixes(),
            base@ == base_name(name@),
            forall|k: int| 0 <= k < i ==> base_name(name@) != base_name((#[trigger] builtin_fixes()[k]).name_view()),
        decreases fixes@.len() - i,
    {
        if same_text(strip_fix(fixes[i].name()).as_str(), base.as_str()) {
            proof {
                assert(base_name(name@) == base_name(builtin_fixes()[i as int].name_view()));
            }
            return true;
        }
        i += 1;
    }
    false
}

/// The registry that a configuration asks for, and what is to be logged. A fix
/// that is switched off is not in the registry; one that is not spoken of is.
/// Where fixes are off as a whole, the registry is empty.
pub fn create_registry_from_config_logged(fixes: &FixesConfig) -> (result: (FixRegistry<BuiltinFix>, FixesReport))
    ensures
        result.0.well_formed(),
        !fixes.enabled ==> {
            &&& result.0.fixes() == Seq::<BuiltinFix>::empty()
            &&& result.0.flags() == Map::<Seq<char>, bool>::empty()
            &&& result.1.skipped@.len() == 0
            &&& result.1.unknown@.len() == 0
        },
        fixes.enabled ==> {
            &&& result.0.fixes() == kept(fixes.modules@, builtin_fixes(), builtin_fixes().len())
            &&& result.0.flags() == all_on(result.0.fixes())
            &&& texts(result.1.skipped@) == skipped(fixes.modules@, builtin_fixes(), builtin_fixes().len())
            &&& texts(result.1.unknown@) == unknown_keys(fixes.modules.listed(), fixes.modules.listed().len())
        },
{
    let mut registry: FixRegistry<BuiltinFix> = FixRegistry::new();
    let mut skipped_names: Vec<String> = Vec::new();
    let mut unknown: Vec<String> = Vec::new();
    if !fixes.enabled {
        return (registry, FixesReport { skipped: skipped_names, unknown });
    }
    proof {
        assert(texts(skipped_names@) =~= Seq::empty());
        assert(texts(unknown@) =~= Seq::empty());
    }
    let mut all = builtins();
    let ghost every = builtin_fixes();
    let mut i: usize = 0;
    let n = all.len();
    while i < n
        invariant
            i <= n,
            n == every.len(),
            every == builtin_fixes(),
            all@ == every.skip(i as int),
            registry.well_formed(),
            registry.fixes() == kept(fixes.modules@, every, i as nat),
            registry.flags() == all_on(registry.fixes()),
            texts(skipped_names@) == skipped(fixes.modules@, every, i as nat),
        decreases n - i,
    {
        let fix = all.remove(0);
        proof {
            assert(fix == every[i as int]);
            assert(all@ =~= every.skip(i + 1));
        }
        let name = fix.name().to_owned();
        if is_left_out(&fixes.modules, name.as_str()) {
            skipped_names.push(name);
        } else {
            let ghost before = registry.fixes();
            registry.register(fix);
            proof {
                assert(registry.fixes().drop_last() =~= before);
            }
        }
        i += 1;
    }
    let count = fixes.modules.len();
    let mut j: usize = 0;
    while j < count
        invariant
            j <= count,
            count == fixes.modules.listed().len(),
            texts(unknown@) == unknown_keys(fixes.modules.listed(), j as nat),
        decreases count - j,
    {
        let (key, module) = fixes.modules.entry(j);
        if !is_known(key) {
            unknown.push(key.to_owned());
        }
        j += 1;
    }
    (registry, FixesReport { skipped: skipped_names, unknown })
}

/// The registry that a configuration asks for.
pub fn create_registry_from_config(fixes: &FixesConfig) -> (registry: FixRegistry<BuiltinFix>)
    ensures
        registry.well_formed(),
        registry.fixes() == if fixes.enabled {
            kept(fixes.modules@, builtin_fixes(), builtin_fixes().len())
        } else {
            Seq::empty()
        },
        registry.flags() == all_on(registry.fixes()),
{
    create_registry_from_config_logged(fixes).0
}

/// A configuration that switches nothing off gives the fixes of the default
/// registry, in the same order.
pub proof fn law_default_order_is_kept(modules: Map<Seq<char>, FixModuleConfig>, n: nat)
    requires
        n <= builtin_fixes().len(),
        forall|i: int| 0 <= i < builtin_fixes().len() ==> !left_out(modules, (#[trigger] builtin_fixes()[i]).name_view()),
    ensures
        kept(modules, builtin_fixes(), n) == builtin_fixes().take(n as int),
    decreases n,
{
    if n > 0 {
        law_default_order_is_kept(modules, (n - 1) as nat);
        assert(!left_out(modules, builtin_fixes()[n - 1].name_view()));
    }
    assert(kept(modules, builtin_fixes(), n) =~= builtin_fixes().take(n as int));
}

/// A fix that a configuration leaves out is not among those that are kept.
pub proof fn law_left_out_fix_is_absent(modules: Map<Seq<char>, FixModuleConfig>, n: nat, k: int)
    requires
        n <= builtin_fixes().len(),
        0 <= k < kept(modules, builtin_fixes(), n).len(),
    ensures
        !left_out(modules, kept(modules, builtin_fixes(), n)[k].name_view()),
    decreases n,
{
    if n > 0 {
        let before = kept(modules, builtin_fixes(), (n - 1) as nat);
        if k < before.len() {
            law_left_out_fix_is_absent(modules, (n - 1) as nat, k);
        }
    }
}

/// A fix that a configuration does not leave out is kept.
pub proof fn law_other_fixes_are_kept(modules: Map<Seq<char>, FixModuleConfig>, n: nat, i: int)
    requires
        0 <= i < n <= builtin_fixes().len(),
        !left_out(modules, builtin_fixes()[i].name_view()),
    ensures
        kept(modules, builtin_fixes(), n).contains(builtin_fixes()[i]),
    decreases n,
{
    let now = kept(modules, builtin_fixes(), n);
    let before = kept(modules, builtin_fixes(), (n - 1) as nat);
    if i < n - 1 {
        law_other_fixes_are_kept(modules, (n - 1) as nat, i);
        let k = choose|k: int| 0 <= k < before.len() && before[k] == builtin_fixes()[i];
        assert(now[k] == before[k]);
    } else {
        assert(now[now.len() - 1] == builtin_fixes()[i]);
    }
}

/// Whatever a configuration leaves out, the fixes that are kept stand in the
/// order of the default registry.
pub proof fn law_registration_order_is_kept(modules: Map<Seq<char>, FixModuleConfig>, n: nat, a: int, b: int)
    requires
        n <= builtin_fixes().len(),
        0 <= a < b < kept(modules, builtin_fixes(), n).len(),
    ensures
        exists|i: int, j: int|
            0 <= i < j < n && #[trigger] builtin_fixes()[i] == kept(modules, builtin_fixes(), n)[a]
                && #[trigger] builtin_fixes()[j] == kept(modules, builtin_fixes(), n)[b],
    decreases n,
{
    let all = builtin_fixes();
    if n > 0 {
        let now = kept(modules, all, n);
        let before = kept(modules, all, (n - 1) as nat);
        if b < before.len() {
            law_registration_order_is_kept(modules, (n - 1) as nat, a, b);
            let (i, j) = choose|i: int, j: int|
                0 <= i < j < n - 1 && #[trigger] all[i] == before[a] && #[trigger] all[j] == before[b];
            assert(all[i] == now[a] && all[j] == now[b]);
        } else {
            lemma_kept_comes_from(modules, (n - 1) as nat, a);
            let i = choose|i: int| 0 <= i < n - 1 && #[trigger] all[i] == before[a];
            assert(all[i] == now[a] && all[n - 1] == now[b]);
        }
    }
}

proof fn lemma_kept_comes_from(modules: Map<Seq<char>, FixModuleConfig>, n: nat, a: int)
    requires
        n <= builtin_fixes().len(),
        0 <= a < kept(modules, builtin_fixes(), n).len(),
    ensures
        exists|i: int| 0 <= i < n && #[trigger] builtin_fixes()[i] == kept(modules, builtin_fixes(), n)[a],
    decreases n,
{
    let all = builtin_fixes();
    if n > 0 {
        let now = kept(modules, all, n);
        let before = kept(modules, all, (n - 1) as nat);
        if a < before.len() {
            lemma_kept_comes_from(modules, (n - 1) as nat, a);
            let i = choose|i: int| 0 <= i < n - 1 && #[trigger] all[i] == before[a];
            assert(all[i] == now[a]);
        } else {
            assert(all[n - 1] == now[a]);
        }
    }
}

/// Where a configuration speaks of a fix under both spellings of its name, the
/// one without `_fix` decides.
pub proof fn law_the_short_spelling_decides(modules: Map<Seq<char>, FixModuleConfig>, name: Seq<char>)
    requires
        modules.contains_key(base_name(name)),
    ensures
        left_out(modules, name) == !modules[base_name(name)].enabled,
{
}

} // verus!
