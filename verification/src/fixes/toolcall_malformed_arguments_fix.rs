//! Repair of arguments in which a key was written as `{}"`.
//!
//! A model writes `{"content":"...",{}":"/path"}`, where `{}` stands in place
//! of a key. Each such place is a slot. The request names the parameters of
//! the tool; those that the arguments do not carry are the candidates. Where
//! there are as many candidates as slots, the slots are filled in the order of
//! the schema. Any other number would be a guess, and fails.

use vstd::prelude::*;
use vstd::string::*;
use vstd::utf8::*;
use crate::json::{lemma_put, put, member_views, parsed, views, Json, JsonView, Members};
use crate::text_map::TextMap;
use crate::text::{decimal, decimal_text, group_texts, joined, lemma_after_ascii, lemma_encode_concat,
    offsets, slice_bytes, str_texts, texts};
use super::json_scan::{key_count, top_level_key_count};
use super::toolcall_bad_filepath_fix::{arguments_of, with_arguments};
use super::walk::{find_trigger, law_untriggered_walk_changes_nothing, repair_response, repair_fn, response_triggers, trigger_fn, walk_response, CallRepair, RepairFn, Sides,
    TriggerFn};
use super::{aggregated, outcome_view, ActionView, ErrorView, FixAction, FixError, FixLogLevel, Outcome, ResponseFix};

verus! {

broadcast use {vstd::string::group_string_axioms, crate::json::group_json, crate::text::group_texts};

/// The fix for arguments in which a key was written as `{}"`.
pub struct ToolcallMalformedArgumentsFix {}

/// The pattern of a slot: a comma or a brace, the token `{}` in place of a
/// key, then the quote and the colon that closed the key, and space.
pub open spec fn slot_pattern() -> Seq<char> {
    "[,\\{](?P<key>\\{\\})\":\\s*"@
}

/// Whether a slot begins at `i`.
pub open spec fn slot_at(b: Seq<u8>, i: int) -> bool {
    &&& 0 <= i && i + 5 <= b.len()
    &&& b[i] == 0x2c || b[i] == 0x7b
    &&& b[i + 1] == 0x7b
    &&& b[i + 2] == 0x7d
    &&& b[i + 3] == 0x22
    &&& b[i + 4] == 0x3a
}

/// The places at or after `i` at which a slot begins, in ascending order.
pub open spec fn slots_from(b: Seq<u8>, i: int) -> Seq<int>
    decreases b.len() - i,
{
    if i >= b.len() {
        Seq::empty()
    } else if slot_at(b, i) {
        seq![i] + slots_from(b, i + 1)
    } else {
        slots_from(b, i + 1)
    }
}

/// The places at which a slot begins, in ascending order.
pub open spec fn slot_starts(text: Seq<char>) -> Seq<int> {
    slots_from(encode_utf8(text), 0)
}

/// `regex::Regex::find_iter` with the pattern of a slot: the offsets of its
/// matches, from left to right. No match overlaps another, since a slot holds
/// the comma or brace of no other slot; so there is one match for each place
/// at which a slot begins.
#[verifier::external_body]
fn regex_match_starts(pattern: &str, text: &str) -> (starts: Vec<usize>)
    requires
        pattern@ == slot_pattern(),
    ensures
        offsets(starts@) == slot_starts(text@),
{
    regex::Regex::new(pattern).unwrap().find_iter(text).map(|m| m.start()).collect()
}

/// The slots of a text.
pub fn empty_key_slots(text: &str) -> (starts: Vec<usize>)
    ensures
        offsets(starts@) == slot_starts(text@),
{
    regex_match_starts("[,\\{](?P<key>\\{\\})\":\\s*", text)
}

proof fn lemma_slots_from(b: Seq<u8>, i: int, k: int)
    requires
        0 <= i,
        0 <= k < slots_from(b, i).len(),
    ensures
        i <= slots_from(b, i)[k],
        slot_at(b, slots_from(b, i)[k]),
        k > 0 ==> slots_from(b, i)[k - 1] + 3 <= slots_from(b, i)[k],
    decreases b.len() - i,
{
    if slot_at(b, i) {
        let rest = slots_from(b, i + 1);
        if k > 0 {
            lemma_slots_from(b, i + 1, k - 1);
            assert(slots_from(b, i)[k] == rest[k - 1]);
            if k == 1 {
                let next = rest[0];
                assert(next != i + 1 && next != i + 2) by {
                    assert(slot_at(b, next));
                }
            } else {
                assert(slots_from(b, i)[k - 1] == rest[k - 2]);
            }
        }
    } else {
        lemma_slots_from(b, i + 1, k);
    }
}

/// Every slot stands where it is said to, and apart from the others.
pub proof fn lemma_slot_starts(text: Seq<char>, k: int)
    requires
        0 <= k < slot_starts(text).len(),
    ensures
        ({
            let b = encode_utf8(text);
            let i = slot_starts(text)[k];
            &&& slot_at(b, i)
            &&& is_char_boundary(b, i + 1)
            &&& is_char_boundary(b, i + 3)
            &&& k > 0 ==> slot_starts(text)[k - 1] + 3 <= i
        }),
{
    let b = encode_utf8(text);
    encode_utf8_valid_utf8(text);
    lemma_slots_from(b, 0, k);
    let i = slot_starts(text)[k];
    lemma_after_ascii(b, i);
    lemma_after_ascii(b, i + 2);
}

/// The text from `cursor` on, with a key in each slot from the slot `k` on: the
/// token `{}` becomes a quote and the key. Slots for which there is no key stay
/// as they are, and so does everything between the slots.
pub open spec fn spliced_from(b: Seq<u8>, starts: Seq<int>, keys: Seq<Seq<char>>, k: int, cursor: int) -> Seq<u8>
    decreases starts.len() - k,
{
    if k >= starts.len() || k >= keys.len() {
        b.subrange(cursor, b.len() as int)
    } else {
        b.subrange(cursor, starts[k] + 1) + encode_utf8(seq!['"'] + keys[k]) + spliced_from(
            b,
            starts,
            keys,
            k + 1,
            starts[k] + 3,
        )
    }
}

/// The bytes of a text with keys in its slots, from left to right.
pub open spec fn spliced_bytes(text: Seq<char>, keys: Seq<Seq<char>>) -> Seq<u8> {
    spliced_from(encode_utf8(text), slot_starts(text), keys, 0, 0)
}

/// A text with keys in its slots, from left to right.
pub open spec fn spliced(text: Seq<char>, keys: Seq<Seq<char>>) -> Seq<char> {
    decode_utf8(spliced_bytes(text, keys))
}

/// A key that no schema holds.
pub open spec fn sentinel() -> Seq<char> {
    "\\u0000llama-proxy-slot"@
}

/// A text in which every slot holds the sentinel, so that it can be read.
pub open spec fn masked(text: Seq<char>) -> Seq<char> {
    spliced(text, Seq::new(slot_starts(text).len(), |i: int| sentinel()))
}

/// The first `n` keys of a schema without those that arguments carry.
pub open spec fn absent_keys(text: Seq<char>, keys: Seq<Seq<char>>, n: nat) -> Seq<Seq<char>>
    decreases n,
{
    if n == 0 || n > keys.len() {
        Seq::empty()
    } else if key_count(text, keys[n - 1]) == 0 {
        absent_keys(text, keys, (n - 1) as nat).push(keys[n - 1])
    } else {
        absent_keys(text, keys, (n - 1) as nat)
    }
}

/// The keys of a schema that arguments do not carry, in the order of the
/// schema.
pub open spec fn candidates(args: Seq<char>, keys: Seq<Seq<char>>) -> Seq<Seq<char>> {
    absent_keys(masked(args), keys, keys.len())
}

/// Why slots could not be filled validly.
pub open spec fn fill_invalid(slots: nat, found: nat) -> ErrorView {
    ErrorView::Rebuild(
        "fill invalid: "@ + decimal(slots) + " slots, "@ + decimal(found) + if found == 1 {
            " candidate"@
        } else {
            " candidates"@
        },
    )
}

/// What is returned, given the number of slots and of candidates, the filled
/// text, and whether that is valid JSON.
pub open spec fn fill_outcome(slots: nat, found: nat, text: Seq<char>, valid: bool) -> Result<Option<Seq<char>>, ErrorView> {
    if found == 0 {
        Err(ErrorView::Rebuild("no candidate keys"@))
    } else if found == slots {
        if valid {
            Ok(Some(text))
        } else {
            Err(fill_invalid(slots, found))
        }
    } else if found < slots {
        Err(fill_invalid(slots, found))
    } else {
        Err(ErrorView::Rebuild("ambiguous: "@ + decimal(found) + " candidates for "@ + decimal(slots) + " slots"@))
    }
}

/// What the repair makes of arguments, given the parameters of the tool.
pub open spec fn filled(args: Seq<char>, schema: Option<Seq<Seq<char>>>) -> Result<Option<Seq<char>>, ErrorView> {
    let slots = slot_starts(args).len();
    match schema {
        Some(keys) => if slots == 0 {
            Ok(None)
        } else {
            let found = candidates(args, keys);
            let text = spliced(args, found);
            fill_outcome(slots, found.len(), text, parsed(text) is Ok)
        },
        None => Ok(None),
    }
}

/// The parameters of tools by name.
pub type Schemas = Map<Seq<char>, Seq<Seq<char>>>;

/// The schemas that a map holds.
pub open spec fn schema_views(m: Map<Seq<char>, Vec<String>>) -> Schemas {
    m.map_values(|keys: Vec<String>| texts(keys@))
}

/// The schema of a tool.
pub open spec fn schema_of(schemas: Schemas, name: Seq<char>) -> Option<Seq<Seq<char>>> {
    if schemas.contains_key(name) {
        Some(schemas[name])
    } else {
        None
    }
}

/// The keys of members, in order.
pub open spec fn keys_of(m: Members) -> Seq<Seq<char>> {
    Seq::new(m.len(), |i: int| m[i].0)
}

/// The text of a member, or the empty text where there is none.
pub open spec fn text_member(v: JsonView, key: Seq<char>) -> Seq<char> {
    match v.get(key) {
        Some(JsonView::Str(s)) => s,
        _ => Seq::empty(),
    }
}

/// The names of the parameters of a function.
pub open spec fn parameter_keys(function: JsonView) -> Seq<Seq<char>> {
    match function.get("parameters"@) {
        Some(p) => match p.get("properties"@) {
            Some(JsonView::Object(m)) => keys_of(m),
            _ => Seq::empty(),
        },
        None => Seq::empty(),
    }
}

/// The schemas of the first `n` tools. A later tool takes the place of an
/// earlier one with its name; a tool without a name has none.
pub open spec fn tool_schemas(tools: Seq<JsonView>, n: nat) -> Schemas
    decreases n,
{
    if n == 0 || n > tools.len() {
        Map::empty()
    } else {
        let before = tool_schemas(tools, (n - 1) as nat);
        match tools[n - 1].get("function"@) {
            Some(f) => if text_member(f, "name"@).len() > 0 {
                before.insert(text_member(f, "name"@), parameter_keys(f))
            } else {
                before
            },
            None => before,
        }
    }
}

/// The schemas of a request.
pub open spec fn request_schemas(request: JsonView) -> Schemas {
    match request.get("tools"@) {
        Some(JsonView::Array(tools)) => tool_schemas(tools, tools.len()),
        _ => Map::empty(),
    }
}

/// Whether arguments hold a slot.
pub open spec fn has_slot(call: JsonView) -> bool {
    match arguments_of(call) {
        Some(args) => slot_starts(args).len() > 0,
        None => false,
    }
}

/// What becomes of a call.
pub open spec fn fill_call(schemas: Schemas, call: JsonView) -> Result<(JsonView, Option<ActionView>), ErrorView> {
    match arguments_of(call) {
        Some(args) => {
            let name = text_member(call.get("function"@)->0, "name"@);
            match filled(args, schema_of(schemas, name)) {
                Err(e) => Err(e),
                Ok(None) => Ok((call, None)),
                Ok(Some(text)) => Ok(
                    (with_arguments(call, text), Some(ActionView::Fixed { original: args, fixed: text })),
                ),
            }
        },
        None => Ok((call, None)),
    }
}

/// What becomes of a call, as a function.
pub open spec fn fill_fn(schemas: Schemas) -> RepairFn {
    |at: int, call: JsonView| fill_call(schemas, call)
}

/// Which calls hold a slot, as a function.
pub open spec fn slot_fn() -> TriggerFn {
    |call: JsonView| has_slot(call)
}

/// The filling of slots for given schemas.
pub struct SlotFiller<'a> {
    pub schemas: &'a TextMap<Vec<String>>,
}

impl ToolcallMalformedArgumentsFix {
    /// A fix; it has no state.
    pub fn new() -> (fix: ToolcallMalformedArgumentsFix) {
        ToolcallMalformedArgumentsFix {  }
    }

    /// The names of the parameters of a function.
    fn parameters(function: &Json) -> (keys: Vec<String>)
        ensures
            texts(keys@) == parameter_keys(function@),
    {
        let mut keys: Vec<String> = Vec::new();
        if let Some(p) = function.get("parameters") {
            if let Some(Json::Object(m)) = p.get("properties") {
                let mut i: usize = 0;
                proof {
                    assert(texts(keys@) =~= keys_of(member_views(m@)).take(0));
                }
                while i < m.len()
                    invariant
                        i <= m@.len(),
                        texts(keys@) == keys_of(member_views(m@)).take(i as int),
                    decreases m@.len() - i,
                {
                    keys.push(m[i].0.clone());
                    proof {
                        assert(texts(keys@) =~= keys_of(member_views(m@)).take(i + 1));
                    }
                    i += 1;
                }
                proof {
                    assert(texts(keys@) =~= keys_of(member_views(m@)));
                }
                return keys;
            }
        }
        proof {
            assert(texts(keys@) =~= Seq::empty());
        }
        keys
    }

    /// The parameters of the tools of a request, by the name of the tool.
    pub fn extract_tool_schemas(request: &Json) -> (schemas: TextMap<Vec<String>>)
        ensures
            schema_views(schemas@) == request_schemas(request@),
    {
        let mut schemas: TextMap<Vec<String>> = TextMap::new();
        proof {
            assert(schema_views(schemas@) =~= Map::empty());
        }
        if let Some(Json::Array(tools)) = request.get("tools") {
            let mut i: usize = 0;
            while i < tools.len()
                invariant
                    i <= tools@.len(),
                    schema_views(schemas@) == tool_schemas(views(tools@), i as nat),
                decreases tools@.len() - i,
            {
                if let Some(function) = tools[i].get("function") {
                    if let Some(Json::Str(name)) = function.get("name") {
                        if !name.as_str().is_empty() {
                            let keys = Self::parameters(function);
                            let ghost before = schemas@;
                            let ghost put = keys;
                            schemas.insert(name.clone(), keys);
                            proof {
                                assert(schema_views(schemas@) =~= schema_views(before).insert(name@, texts(put@)));
                            }
                        }
                    }
                }
                i += 1;
            }
        }
        schemas
    }

    /// Whether a text holds a slot.
    pub fn has_empty_key_slot(text: &str) -> (found: bool)
        ensures
            found == (slot_starts(text@).len() > 0),
    {
        let starts = empty_key_slots(text);
        proof {
            assert(offsets(starts@).len() == starts@.len());
        }
        starts.len() > 0
    }

    /// Puts keys in the slots of a text, from left to right. Everything else
    /// stays as it is, byte for byte.
    pub fn splice_empty_key_slots(&self, args: &str, missing: &[&str]) -> (text: String)
        ensures
            text@ == spliced(args@, str_texts(missing@)),
            encode_utf8(text@) == spliced_bytes(args@, str_texts(missing@)),
    {
        let starts = empty_key_slots(args);
        let ghost b = encode_utf8(args@);
        let ghost keys = str_texts(missing@);
        let ghost at = slot_starts(args@);
        let total = args.as_bytes().len();
        proof {
            assert(offsets(starts@).len() == starts@.len());
            encode_utf8_valid_utf8(args@);
            is_char_boundary_start_end_of_seq(b);
        }
        let mut out = String::new();
        let mut cursor: usize = 0;
        let mut k: usize = 0;
        proof {
            assert(encode_utf8(out@) + spliced_from(b, at, keys, 0, 0) =~= spliced_from(b, at, keys, 0, 0));
        }
        while k < starts.len() && k < missing.len()
            invariant
                b == encode_utf8(args@),
                total == b.len(),
                valid_utf8(b),
                is_char_boundary(b, b.len() as int),
                keys == str_texts(missing@),
                at == slot_starts(args@),
                offsets(starts@) == at,
                k <= starts@.len(),
                k <= missing@.len(),
                starts@.len() == at.len(),
                cursor == if k == 0 {
                    0
                } else {
                    at[k - 1] + 3
                },
                cursor <= total,
                is_char_boundary(b, cursor as int),
                encode_utf8(out@) + spliced_from(b, at, keys, k as int, cursor as int) == spliced_bytes(args@, keys),
            decreases starts@.len() - k,
        {
            proof {
                lemma_slot_starts(args@, k as int);
                assert(offsets(starts@)[k as int] == starts@[k as int]);
            }
            let start = starts[k];
            let ghost before = out@;
            let ghost piece = decode_utf8(b.subrange(cursor as int, start + 1));
            out.append(slice_bytes(args, cursor, start + 1));
            out.push('"');
            out.append(missing[k]);
            proof {
                let key = keys[k as int];
                assert(out@ =~= before + piece + (seq!['"'] + key));
                lemma_encode_concat(before + piece, seq!['"'] + key);
                lemma_encode_concat(before, piece);
                let rest = spliced_from(b, at, keys, k + 1, start + 3);
                assert(encode_utf8(out@) + rest =~= encode_utf8(before) + (b.subrange(cursor as int, start + 1)
                    + encode_utf8(seq!['"'] + key) + rest));
            }
            cursor = start + 3;
            k += 1;
        }
        let ghost before = out@;
        out.append(slice_bytes(args, cursor, total));
        proof {
            let tail = decode_utf8(b.subrange(cursor as int, total as int));
            lemma_encode_concat(before, tail);
            encode_utf8_decode_utf8(out@);
        }
        out
    }

    /// The keys of a schema that arguments do not carry, in the order of the
    /// schema. What the arguments carry is read from a copy in which every
    /// slot holds a key that no schema can hold.
    pub fn candidate_keys<'a>(&self, args: &str, schema: &'a [String]) -> (keys: Vec<&'a str>)
        ensures
            str_texts(keys@) == candidates(args@, texts(schema@)),
    {
        let slots = empty_key_slots(args).len();
        let mut sentinels: Vec<&str> = Vec::new();
        let mut k: usize = 0;
        while k < slots
            invariant
                k <= slots,
                sentinels@.len() == k,
                forall|j: int| 0 <= j < k ==> (#[trigger] sentinels@[j])@ == sentinel(),
            decreases slots - k,
        {
            sentinels.push("\\u0000llama-proxy-slot");
            k += 1;
        }
        proof {
            assert(slots == slot_starts(args@).len());
            assert(str_texts(sentinels@) =~= Seq::new(slot_starts(args@).len(), |i: int| sentinel()));
        }
        let readable = self.splice_empty_key_slots(args, sentinels.as_slice());
        let mut keys: Vec<&'a str> = Vec::new();
        let mut i: usize = 0;
        proof {
            assert(str_texts(keys@) =~= Seq::empty());
        }
        while i < schema.len()
            invariant
                i <= schema@.len(),
                readable@ == masked(args@),
                str_texts(keys@) == absent_keys(masked(args@), texts(schema@), i as nat),
            decreases schema@.len() - i,
        {
            let key = schema[i].as_str();
            if top_level_key_count(readable.as_str(), key) == 0 {
                keys.push(key);
            }
            i += 1;
        }
        keys
    }

    /// What is returned, given the number of slots and of candidates, the
    /// filled text, and whether that is valid JSON.
    pub fn fill_result(slots: usize, found: usize, text: String, valid: bool) -> (result: Result<Option<String>, FixError>)
        ensures
            fill_view(result) == fill_outcome(slots as nat, found as nat, text@, valid),
    {
        if found == 0 {
            return Err(FixError::Rebuild("no candidate keys".to_owned()));
        }
        if found == slots && valid {
            return Ok(Some(text));
        }
        if found <= slots {
            let mut message = joined("fill invalid: ", decimal_text(slots as u64).as_str());
            message.append(" slots, ");
            message.append(decimal_text(found as u64).as_str());
            message.append(if found == 1 { " candidate" } else { " candidates" });
            return Err(FixError::Rebuild(message));
        }
        let mut message = joined("ambiguous: ", decimal_text(found as u64).as_str());
        message.append(" candidates for ");
        message.append(decimal_text(slots as u64).as_str());
        message.append(" slots");
        Err(FixError::Rebuild(message))
    }

    /// Fills the slots of arguments with the keys that the tool's schema has
    /// and the arguments lack. `Ok(None)` where there is no slot, or the tool
    /// is not known.
    pub fn fix_arguments(&self, args: &str, tool_name: &str, schemas: &TextMap<Vec<String>>) -> (result: Result<
        Option<String>,
        FixError,
    >)
        ensures
            fill_view(result) == filled(args@, schema_of(schema_views(schemas@), tool_name@)),
    {
        let slots = empty_key_slots(args).len();
        proof {
            assert(slots == slot_starts(args@).len());
        }
        if slots == 0 {
            return Ok(None);
        }
        match schemas.get(tool_name) {
            None => Ok(None),
            Some(schema) => {
                let keys = self.candidate_keys(args, schema.as_slice());
                let text = self.splice_empty_key_slots(args, keys.as_slice());
                let valid = Json::parse(text.as_str()).is_ok();
                proof {
                    assert(str_texts(keys@).len() == keys@.len());
                }
                Self::fill_result(slots, keys.len(), text, valid)
            },
        }
    }
}

/// The result of filling slots, as contracts see it.
pub open spec fn fill_view(r: Result<Option<String>, FixError>) -> Result<Option<Seq<char>>, ErrorView> {
    match r {
        Ok(Some(t)) => Ok(Some(t@)),
        Ok(None) => Ok(None),
        Err(e) => Err(e@),
    }
}

impl Default for ToolcallMalformedArgumentsFix {
    fn default() -> (fix: ToolcallMalformedArgumentsFix) {
        ToolcallMalformedArgumentsFix {  }
    }
}

impl<'a> CallRepair for SlotFiller<'a> {
    open spec fn triggers_view(&self, call: JsonView) -> bool {
        has_slot(call)
    }

    open spec fn repair_view(&self, at: int, call: JsonView) -> Result<(JsonView, Option<ActionView>), ErrorView> {
        fill_call(schema_views(self.schemas@), call)
    }

    fn triggers(&self, call: &Json) -> bool {
        match call.get("function") {
            Some(f) => match f.get("arguments") {
                Some(Json::Str(args)) => ToolcallMalformedArgumentsFix::has_empty_key_slot(args.as_str()),
                _ => false,
            },
            None => false,
        }
    }

    fn repair(&self, at: usize, call: &mut Json) -> Result<Option<FixAction>, FixError> {
        let (name, args) = match call.get("function") {
            Some(f) => {
                let name = match f.get("name") {
                    Some(Json::Str(name)) => name.clone(),
                    _ => String::new(),
                };
                match f.get("arguments") {
                    Some(Json::Str(args)) => (name, args.clone()),
                    _ => {
                        return Ok(None);
                    },
                }
            },
            None => {
                return Ok(None);
            },
        };
        let fix = ToolcallMalformedArgumentsFix {  };
        match fix.fix_arguments(args.as_str(), name.as_str(), self.schemas) {
            Err(e) => Err(e),
            Ok(None) => Ok(None),
            Ok(Some(text)) => {
                let action = FixAction::fixed(args.as_str(), text.as_str());
                if let Some(function) = call.get_mut("function") {
                    function.insert("arguments".to_owned(), Json::Str(text));
                }
                Ok(Some(action))
            },
        }
    }
}

impl ResponseFix for ToolcallMalformedArgumentsFix {
    open spec fn name_view(&self) -> Seq<char> {
        "toolcall_malformed_arguments"@
    }

    open spec fn description_view(&self) -> Seq<char> {
        "Fixes malformed tool call arguments with invalid property names like `{}\"`"@
    }

    open spec fn log_level_view(&self) -> FixLogLevel {
        FixLogLevel::Info
    }

    open spec fn applies_view(&self, response: JsonView) -> bool {
        response_triggers(slot_fn(), response, Sides::Both)
    }

    /// Without the request there is no schema, and nothing is done.
    open spec fn apply_view(&self, response: JsonView) -> (JsonView, ActionView) {
        (response, ActionView::NotApplicable)
    }

    open spec fn applies_in_context(&self, response: JsonView, request: JsonView) -> bool {
        self.applies_view(response) && request.get("tools"@) is Some
    }

    open spec fn apply_in_context(&self, response: JsonView, request: JsonView) -> Outcome {
        let schemas = request_schemas(request);
        if schemas == Map::<Seq<char>, Seq<Seq<char>>>::empty() {
            Ok((response, ActionView::NotApplicable))
        } else {
            match walk_response(fill_fn(schemas), response, Sides::Both) {
                Ok((done, actions)) => Ok((done, aggregated(actions))),
                Err(e) => Err(e),
            }
        }
    }

    fn name(&self) -> &str {
        "toolcall_malformed_arguments"
    }

    fn description(&self) -> &str {
        "Fixes malformed tool call arguments with invalid property names like `{}\"`"
    }

    fn applies(&self, response: &Json) -> bool {
        let schemas: TextMap<Vec<String>> = TextMap::new();
        let filler = SlotFiller { schemas: &schemas };
        proof {
            assert(trigger_fn(filler) =~= slot_fn());
        }
        find_trigger(&filler, response, Sides::Both)
    }

    fn apply(&self, response: Json) -> (Json, FixAction) {
        (response, FixAction::NotApplicable)
    }

    fn applies_with_context(&self, response: &Json, request: &Json) -> (applies: bool)
        ensures
            applies == self.applies_in_context(response@, request@),
    {
        self.applies(response) && request.get("tools").is_some()
    }

    fn apply_with_context(&self, response: Json, request: &Json) -> (result: Result<(Json, FixAction), FixError>)
        ensures
            outcome_view(result) == self.apply_in_context(response@, request@),
    {
        let schemas = Self::extract_tool_schemas(request);
        if schemas.is_empty() {
            proof {
                assert(schema_views(schemas@) =~= Map::empty());
            }
            return Ok((response, FixAction::NotApplicable));
        }
        proof {
            assert(schema_views(schemas@).dom() =~= schemas@.dom());
            assert(schemas@ =~= Map::empty() || schemas@.dom() != Set::<Seq<char>>::empty());
        }
        let filler = SlotFiller { schemas: &schemas };
        proof {
            assert(repair_fn(filler) =~= fill_fn(schema_views(schemas@)));
        }
        let mut response = response;
        match repair_response(&filler, &mut response, Sides::Both) {
            Ok(repairs) => Ok((response, FixAction::aggregate_repairs(repairs.as_slice()))),
            Err(e) => Err(e),
        }
    }

    proof fn lemma_log_level(&self, level: FixLogLevel) {
    }

    proof fn lemma_applies_with_context(&self, response: &Json, request: &Json, applies: bool) {
    }

    proof fn lemma_apply_with_context(
        &self,
        response: Json,
        request: &Json,
        result: Result<(Json, FixAction), FixError>,
    ) {
    }
}

/// Slots are filled only where there are as many missing parameters as slots,
/// in the order of the schema, and only where the result is valid JSON.
pub proof fn law_fill_needs_a_bijection(args: Seq<char>, schema: Option<Seq<Seq<char>>>, text: Seq<char>)
    requires
        filled(args, schema) == Ok::<Option<Seq<char>>, ErrorView>(Some(text)),
    ensures
        schema is Some,
        candidates(args, schema->0).len() == slot_starts(args).len(),
        slot_starts(args).len() > 0,
        text == spliced(args, candidates(args, schema->0)),
        parsed(text) is Ok,
{
}

/// Arguments without a slot are left as they are.
pub proof fn law_no_slot_no_change(args: Seq<char>, schema: Option<Seq<Seq<char>>>)
    requires
        slot_starts(args).len() == 0,
    ensures
        filled(args, schema) == Ok::<Option<Seq<char>>, ErrorView>(None),
{
}

/// With no key to put in, a text is left as it is.
pub proof fn law_splice_of_nothing_changes_nothing(text: Seq<char>)
    ensures
        spliced(text, Seq::empty()) == text,
{
    let b = encode_utf8(text);
    assert(b.subrange(0, b.len() as int) =~= b);
    encode_utf8_decode_utf8(text);
}

/// Every candidate is a parameter of the tool that the arguments do not carry.
pub proof fn law_candidates_are_missing_parameters(text: Seq<char>, keys: Seq<Seq<char>>, n: nat, k: int)
    requires
        n <= keys.len(),
        0 <= k < absent_keys(text, keys, n).len(),
    ensures
        keys.contains(absent_keys(text, keys, n)[k]),
        key_count(text, absent_keys(text, keys, n)[k]) == 0,
    decreases n,
{
    let before = absent_keys(text, keys, (n - 1) as nat);
    if k < before.len() {
        law_candidates_are_missing_parameters(text, keys, (n - 1) as nat, k);
    } else {
        assert(keys[n - 1] == absent_keys(text, keys, n)[k]);
    }
}

/// A response without a slot stays as it is, whatever the request says.
pub proof fn law_responses_without_slots_are_kept(
    fix: ToolcallMalformedArgumentsFix,
    response: JsonView,
    request: JsonView,
)
    requires
        !fix.applies_view(response),
    ensures
        fix.apply_in_context(response, request) == Ok::<(JsonView, ActionView), ErrorView>(
            (response, ActionView::NotApplicable),
        ),
{
    let schemas = request_schemas(request);
    assert forall|at: int, call: JsonView| !slot_fn()(call) implies #[trigger] fill_fn(schemas)(at, call) == Ok::<
        (JsonView, Option<ActionView>),
        ErrorView,
    >((call, None)) by {
    }
    law_untriggered_walk_changes_nothing(fill_fn(schemas), slot_fn(), response, Sides::Both);
}

/// The schema of a tool lists the keys of its `properties` in their order: its
/// `k`th key is that of the `k`th property. Of several tools with one name the
/// last counts.
pub proof fn law_schema_keys_are_the_properties_in_order(
    request: JsonView,
    tools: Seq<JsonView>,
    t: int,
    function: JsonView,
    name: Seq<char>,
    parameters: JsonView,
    properties: Members,
    k: int,
)
    requires
        request.get("tools"@) == Some(JsonView::Array(tools)),
        0 <= t < tools.len(),
        tools[t].get("function"@) == Some(function),
        function.get("name"@) == Some(JsonView::Str(name)),
        name.len() > 0,
        forall|u: int|
            t < u < tools.len() && (#[trigger] tools[u]).get("function"@) is Some ==> tools[u].get("function"@)->0.get(
                "name"@,
            ) != Some(JsonView::Str(name)),
        function.get("parameters"@) == Some(parameters),
        parameters.get("properties"@) == Some(JsonView::Object(properties)),
    ensures
        request_schemas(request).contains_key(name),
        request_schemas(request)[name].len() == properties.len(),
        0 <= k < properties.len() ==> request_schemas(request)[name][k] == properties[k].0,
{
    lemma_last_tool_counts(tools, tools.len(), t, name);
}

/// A tool without `properties` has no parameters.
pub proof fn law_no_properties_no_parameters(request: JsonView, tools: Seq<JsonView>, t: int, function: JsonView, name: Seq<char>)
    requires
        request.get("tools"@) == Some(JsonView::Array(tools)),
        0 <= t < tools.len(),
        tools[t].get("function"@) == Some(function),
        function.get("name"@) == Some(JsonView::Str(name)),
        name.len() > 0,
        forall|u: int|
            t < u < tools.len() && (#[trigger] tools[u]).get("function"@) is Some ==> tools[u].get("function"@)->0.get(
                "name"@,
            ) != Some(JsonView::Str(name)),
        function.get("parameters"@) is None || !(function.get("parameters"@)->0.get("properties"@) is Some && function.get(
            "parameters"@,
        )->0.get("properties"@)->0 is Object),
    ensures
        request_schemas(request).contains_key(name),
        request_schemas(request)[name] == Seq::<Seq<char>>::empty(),
{
    lemma_last_tool_counts(tools, tools.len(), t, name);
}

proof fn lemma_last_tool_counts(tools: Seq<JsonView>, n: nat, t: int, name: Seq<char>)
    requires
        0 <= t < n <= tools.len(),
        tools[t].get("function"@) is Some,
        tools[t].get("function"@)->0.get("name"@) == Some(JsonView::Str(name)),
        name.len() > 0,
        forall|u: int|
            t < u < n && (#[trigger] tools[u]).get("function"@) is Some ==> tools[u].get("function"@)->0.get("name"@)
                != Some(JsonView::Str(name)),
    ensures
        tool_schemas(tools, n).contains_key(name),
        tool_schemas(tools, n)[name] == parameter_keys(tools[t].get("function"@)->0),
    decreases n,
{
    if t < n - 1 {
        lemma_last_tool_counts(tools, (n - 1) as nat, t, name);
        if let Some(f) = tools[n - 1].get("function"@) {
            assert(tools[n - 1].get("function"@) is Some);
            assert(text_member(f, "name"@) != name);
        }
    }
}

/// Only the tools of a request have schemas.
pub proof fn law_only_tools_have_schemas(request: JsonView, name: Seq<char>)
    requires
        request_schemas(request).contains_key(name),
    ensures
        request.get("tools"@) is Some,
        request.get("tools"@)->0 is Array,
        exists|t: int|
            0 <= t < request.get("tools"@)->0->Array_0.len() && (#[trigger] request.get("tools"@)->0->Array_0[t]).get(
                "function"@,
            ) is Some && request.get("tools"@)->0->Array_0[t].get("function"@)->0.get("name"@) == Some(JsonView::Str(name)),
        name.len() > 0,
{
    let tools = request.get("tools"@)->0->Array_0;
    lemma_tool_of_schema(tools, tools.len(), name);
    let t = choose|t: int|
        0 <= t < tools.len() && (#[trigger] tools[t]).get("function"@) is Some && tools[t].get("function"@)->0.get("name"@)
            == Some(JsonView::Str(name));
    assert(request.get("tools"@)->0->Array_0[t].get("function"@) is Some);
}

proof fn lemma_tool_of_schema(tools: Seq<JsonView>, n: nat, name: Seq<char>)
    requires
        n <= tools.len(),
        tool_schemas(tools, n).contains_key(name),
    ensures
        exists|t: int|
            0 <= t < n && (#[trigger] tools[t]).get("function"@) is Some && tools[t].get("function"@)->0.get("name"@)
                == Some(JsonView::Str(name)),
        name.len() > 0,
    decreases n,
{
    if n > 0 {
        if tool_schemas(tools, (n - 1) as nat).contains_key(name) {
            lemma_tool_of_schema(tools, (n - 1) as nat, name);
        } else {
            assert(tools[n - 1].get("function"@) is Some);
        }
    }
}

/// Of two missing parameters the one that stands first in the schema is the
/// first candidate.
pub proof fn law_candidates_keep_the_order_of_the_schema(args: Seq<char>, schema: Seq<Seq<char>>, i: int, j: int)
    requires
        0 <= i < j < candidates(args, schema).len(),
    ensures
        exists|a: int, b: int|
            0 <= a < b < schema.len() && #[trigger] schema[a] == candidates(args, schema)[i] && #[trigger] schema[b]
                == candidates(args, schema)[j],
{
    lemma_absent_in_order(masked(args), schema, schema.len(), i, j);
}

proof fn lemma_absent_in_order(text: Seq<char>, keys: Seq<Seq<char>>, n: nat, i: int, j: int)
    requires
        n <= keys.len(),
        0 <= i < j < absent_keys(text, keys, n).len(),
    ensures
        exists|a: int, b: int|
            0 <= a < b < n && #[trigger] keys[a] == absent_keys(text, keys, n)[i] && #[trigger] keys[b] == absent_keys(
                text,
                keys,
                n,
            )[j],
    decreases n,
{
    let now = absent_keys(text, keys, n);
    let before = absent_keys(text, keys, (n - 1) as nat);
    if j < before.len() {
        lemma_absent_in_order(text, keys, (n - 1) as nat, i, j);
        let (a, b) = choose|a: int, b: int|
            0 <= a < b < n - 1 && #[trigger] keys[a] == before[i] && #[trigger] keys[b] == before[j];
        assert(keys[a] == now[i] && keys[b] == now[j]);
    } else {
        lemma_absent_comes_from(text, keys, (n - 1) as nat, i);
        let a = choose|a: int| 0 <= a < n - 1 && #[trigger] keys[a] == before[i];
        assert(keys[a] == now[i] && keys[n - 1] == now[j]);
    }
}

proof fn lemma_absent_comes_from(text: Seq<char>, keys: Seq<Seq<char>>, n: nat, i: int)
    requires
        n <= keys.len(),
        0 <= i < absent_keys(text, keys, n).len(),
    ensures
        exists|a: int| 0 <= a < n && #[trigger] keys[a] == absent_keys(text, keys, n)[i],
    decreases n,
{
    let before = absent_keys(text, keys, (n - 1) as nat);
    if i < before.len() {
        lemma_absent_comes_from(text, keys, (n - 1) as nat, i);
        let a = choose|a: int| 0 <= a < n - 1 && #[trigger] keys[a] == before[i];
        assert(keys[a] == absent_keys(text, keys, n)[i]);
    } else {
        assert(keys[n - 1] == absent_keys(text, keys, n)[i]);
    }
}

/// Every parameter that the arguments do not carry is a candidate.
pub proof fn law_missing_parameters_are_candidates(args: Seq<char>, schema: Seq<Seq<char>>, a: int)
    requires
        0 <= a < schema.len(),
        key_count(masked(args), schema[a]) == 0,
    ensures
        candidates(args, schema).contains(schema[a]),
{
    lemma_absent_is_listed(masked(args), schema, schema.len(), a);
}

proof fn lemma_absent_is_listed(text: Seq<char>, keys: Seq<Seq<char>>, n: nat, a: int)
    requires
        0 <= a < n <= keys.len(),
        key_count(text, keys[a]) == 0,
    ensures
        absent_keys(text, keys, n).contains(keys[a]),
    decreases n,
{
    let now = absent_keys(text, keys, n);
    let before = absent_keys(text, keys, (n - 1) as nat);
    if a < n - 1 {
        lemma_absent_is_listed(text, keys, (n - 1) as nat, a);
        let k = choose|k: int| 0 <= k < before.len() && before[k] == keys[a];
        assert(now[k] == keys[a]);
    } else {
        assert(now[now.len() - 1] == keys[a]);
    }
}

/// The `k`th key goes into the `k`th slot: with it, the token `{}` of that slot
/// is a quote and the key, and all else is as without it.
pub proof fn law_each_key_fills_its_slot(text: Seq<char>, keys: Seq<Seq<char>>, k: int) -> (head: Seq<u8>)
    requires
        0 <= k < keys.len(),
        k < slot_starts(text).len(),
    ensures
        ({
            let tail = encode_utf8(text).subrange(slot_starts(text)[k] + 3, encode_utf8(text).len() as int);
            &&& spliced_bytes(text, keys.take(k)) == head + seq![0x7bu8, 0x7du8] + tail
            &&& spliced_bytes(text, keys.take(k + 1)) == head + encode_utf8(seq!['"'] + keys[k]) + tail
        }),
{
    let b = encode_utf8(text);
    let starts = slot_starts(text);
    lemma_slot_starts(text, k);
    lemma_slot_bounds(text, k);
    let head = lemma_splice_step(b, starts, keys, k, 0, 0);
    let tail = b.subrange(starts[k] + 3, b.len() as int);
    assert(head + seq![0x7bu8, 0x7du8] + tail =~= spliced_bytes(text, keys.take(k)));
    head
}

proof fn lemma_slot_bounds(text: Seq<char>, k: int)
    requires
        0 <= k < slot_starts(text).len(),
    ensures
        forall|j: int|
            0 <= j <= k ==> 0 <= (#[trigger] slot_starts(text)[j]) && slot_starts(text)[j] + 5 <= encode_utf8(text).len(),
        forall|j: int| 0 < j <= k ==> slot_starts(text)[j - 1] + 3 <= #[trigger] slot_starts(text)[j],
{
    assert forall|j: int| 0 <= j <= k implies 0 <= (#[trigger] slot_starts(text)[j]) && slot_starts(text)[j] + 5
        <= encode_utf8(text).len() by {
        lemma_slot_starts(text, j);
    }
    assert forall|j: int| 0 < j <= k implies slot_starts(text)[j - 1] + 3 <= #[trigger] slot_starts(text)[j] by {
        lemma_slot_starts(text, j);
    }
}

proof fn lemma_splice_step(b: Seq<u8>, starts: Seq<int>, keys: Seq<Seq<char>>, k: int, from: int, cursor: int) -> (head: Seq<
    u8,
>)
    requires
        0 <= from <= k < keys.len(),
        k < starts.len(),
        forall|j: int| 0 <= j <= k ==> 0 <= (#[trigger] starts[j]) && starts[j] + 5 <= b.len(),
        forall|j: int| 0 < j <= k ==> starts[j - 1] + 3 <= #[trigger] starts[j],
        cursor == if from == 0 {
            0
        } else {
            starts[from - 1] + 3
        },
        slot_at(b, starts[k]),
    ensures
        spliced_from(b, starts, keys.take(k), from, cursor) == head + seq![0x7bu8, 0x7du8] + b.subrange(
            starts[k] + 3,
            b.len() as int,
        ),
        spliced_from(b, starts, keys.take(k + 1), from, cursor) == head + encode_utf8(seq!['"'] + keys[k]) + b.subrange(
            starts[k] + 3,
            b.len() as int,
        ),
    decreases k - from,
{
    let tail = b.subrange(starts[k] + 3, b.len() as int);
    let token = seq![0x7bu8, 0x7du8];
    if from == k {
        let head = b.subrange(cursor, starts[k] + 1);
        assert(starts[k] >= cursor);
        assert(b.subrange(cursor, b.len() as int) =~= head + token + tail);
        let with = keys.take(k + 1);
        assert(with[k] == keys[k]);
        assert(spliced_from(b, starts, with, k + 1, starts[k] + 3) == tail);
        assert(spliced_from(b, starts, with, k, cursor) =~= head + encode_utf8(seq!['"'] + keys[k]) + tail);
        head
    } else {
        let rest = lemma_splice_step(b, starts, keys, k, from + 1, starts[from] + 3);
        let piece = b.subrange(cursor, starts[from] + 1) + encode_utf8(seq!['"'] + keys[from]);
        let head = piece + rest;
        assert(keys.take(k)[from] == keys[from]);
        assert(keys.take(k + 1)[from] == keys[from]);
        assert(spliced_from(b, starts, keys.take(k), from, cursor) =~= head + token + tail);
        assert(spliced_from(b, starts, keys.take(k + 1), from, cursor) =~= head + encode_utf8(seq!['"'] + keys[k]) + tail);
        head
    }
}

/// Arguments are filled wherever there are as many missing parameters as slots
/// and the result is valid JSON, and otherwise refused, never changed.
pub proof fn law_slots_are_filled_or_refused(args: Seq<char>, schema: Seq<Seq<char>>)
    requires
        slot_starts(args).len() > 0,
    ensures
        candidates(args, schema).len() == slot_starts(args).len() && parsed(spliced(args, candidates(args, schema))) is Ok
            ==> filled(args, Some(schema)) == Ok::<Option<Seq<char>>, ErrorView>(
            Some(spliced(args, candidates(args, schema))),
        ),
        !(candidates(args, schema).len() == slot_starts(args).len() && parsed(spliced(args, candidates(args, schema))) is Ok)
            ==> filled(args, Some(schema)) is Err,
{
}

/// Arguments of a tool that the request does not name are left as they are.
pub proof fn law_unknown_tools_are_left_alone(schemas: Schemas, call: JsonView, function: JsonView)
    requires
        call.get("function"@) == Some(function),
        !(function.get("name"@) is Some && function.get("name"@)->0 is Str && schemas.contains_key(
            function.get("name"@)->0->Str_0,
        )),
        !schemas.contains_key(Seq::empty()),
    ensures
        fill_call(schemas, call) == Ok::<(JsonView, Option<ActionView>), ErrorView>((call, None)),
{
}

/// A repaired call has the filled arguments, and every other member of it and of
/// its function as before.
pub proof fn law_a_filled_call_keeps_its_other_members(
    schemas: Schemas,
    call: JsonView,
    function: JsonView,
    args: Seq<char>,
    name: Seq<char>,
    text: Seq<char>,
    key: Seq<char>,
)
    requires
        call.get("function"@) == Some(function),
        function.get("arguments"@) == Some(JsonView::Str(args)),
        function.get("name"@) == Some(JsonView::Str(name)),
        schemas.contains_key(name),
        filled(args, Some(schemas[name])) == Ok::<Option<Seq<char>>, ErrorView>(Some(text)),
    ensures
        fill_call(schemas, call) is Ok,
        ({
            let done = fill_call(schemas, call)->Ok_0.0;
            &&& done.get("function"@) is Some
            &&& done.get("function"@)->0.get("arguments"@) == Some(JsonView::Str(text))
            &&& key != "arguments"@ ==> done.get("function"@)->0.get(key) == function.get(key)
            &&& key != "function"@ ==> done.get(key) == call.get(key)
        }),
        fill_call(schemas, call)->Ok_0.1 == Some(ActionView::Fixed { original: args, fixed: text }),
{
    let changed = put(function, "arguments"@, JsonView::Str(text));
    lemma_put(function, "arguments"@, JsonView::Str(text), "arguments"@);
    lemma_put(function, "arguments"@, JsonView::Str(text), key);
    lemma_put(call, "function"@, changed, "function"@);
    lemma_put(call, "function"@, changed, key);
}

} // verus!
