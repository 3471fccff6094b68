//! What a mock backend serves and records, and what the proxy answers.

use std::collections::VecDeque;
use vstd::prelude::*;
use vstd::string::*;
use crate::json::{option_view, parsed, views, Json, JsonView};
use crate::text::{ascii_lowercase, ascii_lowered, chars_of, decimal, decimal_text, group_texts, joined, same_text, split,
    split_text, texts};
use crate::text_map::TextMap;

verus! {

broadcast use {vstd::string::group_string_axioms, crate::json::group_json, crate::text::group_texts};

/// A response that the mock backend serves.
#[derive(Debug, PartialEq, Eq)]
pub struct MockResponse {
    pub status: u16,
    pub body: String,
    pub content_type: String,
    /// How long the backend waits before it answers, in milliseconds.
    pub delay_ms: u64,
}

impl MockResponse {
    /// A success with a JSON body.
    pub fn json(body: &str) -> (r: MockResponse)
        ensures
            r.status == 200,
            r.body@ == body@,
            r.content_type@ == "application/json"@,
            r.delay_ms == 0,
    {
        MockResponse { status: 200, body: body.to_owned(), content_type: "application/json".to_owned(), delay_ms: 0 }
    }

    /// An error with a JSON body.
    pub fn error(status: u16, body: &str) -> (r: MockResponse)
        ensures
            r.status == status,
            r.body@ == body@,
            r.content_type@ == "application/json"@,
            r.delay_ms == 0,
    {
        MockResponse { status, body: body.to_owned(), content_type: "application/json".to_owned(), delay_ms: 0 }
    }

    /// A stream, as of a backend that streams though it was not asked to.
    pub fn sse(body: &str) -> (r: MockResponse)
        ensures
            r.status == 200,
            r.body@ == body@,
            r.content_type@ == "text/event-stream"@,
            r.delay_ms == 0,
    {
        MockResponse { status: 200, body: body.to_owned(), content_type: "text/event-stream".to_owned(), delay_ms: 0 }
    }

    /// The response after a delay.
    pub fn with_delay(self, ms: u64) -> (r: MockResponse)
        ensures
            r == (MockResponse { delay_ms: ms, ..self }),
    {
        let mut r = self;
        r.delay_ms = ms;
        r
    }
}

/// What the mock backend is to serve, and what it was asked.
#[derive(Debug)]
pub struct BackendState {
    /// The responses to completions, in the order in which they are served.
    pub response_queue: VecDeque<MockResponse>,
    /// The requests, in the order in which they came.
    pub received_requests: Vec<ReceivedRequest>,
    pub props_body: String,
    pub models_body: String,
    pub metrics_body: String,
}

impl Default for BackendState {
    fn default() -> (state: BackendState)
        ensures
            state.response_queue@ == Seq::<MockResponse>::empty(),
            state.received_requests@ == Seq::<ReceivedRequest>::empty(),
            state.props_body@ == Seq::<char>::empty(),
            state.models_body@ == Seq::<char>::empty(),
            state.metrics_body@ == Seq::<char>::empty(),
    {
        BackendState {
            response_queue: VecDeque::new(),
            received_requests: Vec::new(),
            props_body: String::new(),
            models_body: String::new(),
            metrics_body: String::new(),
        }
    }
}

/// A request that the mock backend got.
#[derive(Debug, PartialEq, Eq)]
pub struct ReceivedRequest {
    pub method: String,
    pub path: String,
    pub body: Json,
}

/// An event of a stream.
#[derive(Debug, PartialEq, Eq)]
pub struct SseEvent {
    pub data: String,
    pub is_done: bool,
}

impl SseEvent {
    /// The data as JSON, or what is wrong with it.
    pub fn parse_json(&self) -> (result: Result<Json, String>)
        ensures
            match result {
                Ok(v) => parsed(self.data@) == Ok::<JsonView, Seq<char>>(v@),
                Err(e) => parsed(self.data@) is Err && e@ == "SSE JSON parse error: "@ + parsed(self.data@)->Err_0 + ": "@
                    + self.data@,
            },
    {
        match Json::parse(self.data.as_str()) {
            Ok(v) => Ok(v),
            Err(e) => {
                let mut message = joined("SSE JSON parse error: ", e.as_str());
                message.append(": ");
                message.append(self.data.as_str());
                Err(message)
            },
        }
    }
}

/// An answer of the proxy that was not streamed.
#[derive(Debug, PartialEq, Eq)]
pub struct ProxyResponse {
    pub status: u16,
    pub body: Json,
    /// The headers, by their names in lower case.
    pub headers: TextMap<String>,
}

/// Whether a character is a decimal digit.
pub open spec fn is_digit(c: char) -> bool {
    '0' <= c <= '9'
}

/// The number that digits make up.
pub open spec fn digits_value(s: Seq<char>) -> nat
    decreases s.len(),
{
    if s.len() == 0 {
        0
    } else {
        digits_value(s.drop_last()) * 10 + (s.last() as nat - 48) as nat
    }
}

/// A text without the plus sign that may stand before a number.
pub open spec fn without_plus(s: Seq<char>) -> Seq<char> {
    if s.len() > 0 && s[0] == '+' {
        s.drop_first()
    } else {
        s
    }
}

/// The number that a text is: digits, with or without a plus sign before them,
/// that fit.
pub open spec fn index_value(s: Seq<char>) -> Option<usize> {
    let digits = without_plus(s);
    if digits.len() > 0 && (forall|i: int| 0 <= i < digits.len() ==> is_digit(#[trigger] digits[i])) && digits_value(digits)
        <= usize::MAX {
        Some(digits_value(digits) as usize)
    } else {
        None
    }
}

proof fn lemma_digits_grow(s: Seq<char>, n: int)
    requires
        0 <= n <= s.len(),
        forall|i: int| 0 <= i < s.len() ==> is_digit(#[trigger] s[i]),
    ensures
        digits_value(s.take(n)) <= digits_value(s),
    decreases s.len() - n,
{
    if n < s.len() {
        assert(s.take(n + 1).drop_last() =~= s.take(n));
        lemma_digits_grow(s, n + 1);
    } else {
        assert(s.take(n) =~= s);
    }
}

/// The number that a text is.
pub fn parse_index(s: &str) -> (value: Option<usize>)
    ensures
        value == index_value(s@),
{
    let all = chars_of(s);
    let n = all.len();
    let from: usize = if n > 0 && all[0] == '+' {
        1
    } else {
        0
    };
    let ghost digits = without_plus(s@);
    proof {
        assert(digits =~= s@.skip(from as int));
    }
    if from == n {
        return None;
    }
    let mut i: usize = from;
    while i < n
        invariant
            all@ == s@,
            n == all@.len(),
            from <= i <= n,
            digits == s@.skip(from as int),
            digits == without_plus(s@),
            forall|k: int| 0 <= k < i - from ==> is_digit(#[trigger] digits[k]),
        decreases n - i,
    {
        let c = all[i];
        if !('0' <= c && c <= '9') {
            proof {
                assert(!is_digit(digits[i - from]));
            }
            return None;
        }
        proof {
            assert(is_digit(digits[i - from]));
        }
        i += 1;
    }
    let mut value: usize = 0;
    let mut j: usize = from;
    proof {
        assert(digits.take(0) =~= Seq::empty());
    }
    while j < n
        invariant
            all@ == s@,
            n == all@.len(),
            from <= j <= n,
            digits == s@.skip(from as int),
            forall|k: int| 0 <= k < digits.len() ==> is_digit(#[trigger] digits[k]),
            value == digits_value(digits.take(j - from)),
            digits == without_plus(s@),
        decreases n - j,
    {
        let c = all[j];
        proof {
            assert(digits[j - from] == c);
            assert(is_digit(digits[j - from]));
            assert(digits.take(j + 1 - from).drop_last() =~= digits.take(j - from));
            lemma_digits_grow(digits, j + 1 - from);
        }
        let d: usize = (c as u32 - 48) as usize;
        match value.checked_mul(10) {
            None => {
                return None;
            },
            Some(tens) => match tens.checked_add(d) {
                None => {
                    return None;
                },
                Some(next) => {
                    value = next;
                },
            },
        }
        j += 1;
    }
    proof {
        assert(digits.take(n - from) =~= digits);
    }
    Some(value)
}

/// The value that a part of a path leads to: a number into an array, and any
/// other text into an object.
pub open spec fn path_step(v: JsonView, part: Seq<char>) -> Option<JsonView> {
    match index_value(part) {
        Some(i) => v.at(i as int),
        None => v.get(part),
    }
}

/// The value that the parts of a path from the `i`th on lead to.
pub open spec fn path_from(v: JsonView, parts: Seq<Seq<char>>, i: int) -> Option<JsonView>
    decreases parts.len() - i,
{
    if i < 0 || i >= parts.len() {
        Some(v)
    } else {
        match path_step(v, parts[i]) {
            Some(next) => path_from(next, parts, i + 1),
            None => None,
        }
    }
}

/// The value that a path with dots leads to.
pub open spec fn path_value(v: JsonView, path: Seq<char>) -> Option<JsonView> {
    path_from(v, split_text(path, '.'), 0)
}

/// The text at a path.
pub open spec fn path_text(v: JsonView, path: Seq<char>) -> Option<Seq<char>> {
    match path_value(v, path) {
        Some(JsonView::Str(s)) => Some(s),
        _ => None,
    }
}

/// The path of the arguments of a tool call.
pub open spec fn args_path(choice: nat, tc: nat) -> Seq<char> {
    "choices."@ + decimal(choice) + ".message.tool_calls."@ + decimal(tc) + ".function.arguments"@
}

impl ProxyResponse {
    /// A header, by its name in any case.
    pub fn header(&self, name: &str) -> (value: Option<&str>)
        ensures
            match value {
                Some(v) => self.headers@.contains_key(ascii_lowered(name@)) && self.headers@[ascii_lowered(name@)]@ == v@,
                None => !self.headers@.contains_key(ascii_lowered(name@)),
            },
    {
        match self.headers.get(ascii_lowercase(name).as_str()) {
            Some(v) => Some(v.as_str()),
            None => None,
        }
    }

    /// The value at a path such as `choices.0.message.content`.
    pub fn get(&self, path: &str) -> (value: Option<&Json>)
        ensures
            option_view(value) == path_value(self.body@, path@),
    {
        let parts = split(path, '.');
        let mut current = &self.body;
        let mut i: usize = 0;
        while i < parts.len()
            invariant
                i <= parts@.len(),
                texts(parts@) == split_text(path@, '.'),
                path_value(self.body@, path@) == path_from(current@, texts(parts@), i as int),
            decreases parts@.len() - i,
        {
            let part = parts[i].as_str();
            proof {
                assert(texts(parts@)[i as int] == part@);
            }
            let next = match parse_index(part) {
                Some(k) => current.at(k),
                None => current.get(part),
            };
            match next {
                None => {
                    return None;
                },
                Some(v) => {
                    current = v;
                },
            }
            i += 1;
        }
        proof {
            assert(texts(parts@).len() == parts@.len());
        }
        Some(current)
    }

    /// The text at a path.
    pub fn get_str(&self, path: &str) -> (text: Option<&str>)
        ensures
            match text {
                Some(t) => path_text(self.body@, path@) == Some(t@),
                None => path_text(self.body@, path@) is None,
            },
    {
        match self.get(path) {
            Some(v) => v.as_str(),
            None => None,
        }
    }

    /// The arguments of a tool call.
    pub fn tool_call_args(&self, choice: usize, tc: usize) -> (args: Option<&str>)
        ensures
            match args {
                Some(t) => path_text(self.body@, args_path(choice as nat, tc as nat)) == Some(t@),
                None => path_text(self.body@, args_path(choice as nat, tc as nat)) is None,
            },
    {
        let mut path = joined("choices.", decimal_text(choice as u64).as_str());
        path.append(".message.tool_calls.");
        path.append(decimal_text(tc as u64).as_str());
        path.append(".function.arguments");
        self.get_str(path.as_str())
    }

    /// The arguments of a tool call as JSON, or what is wrong with them.
    pub fn tool_call_args_json(&self, choice: usize, tc: usize) -> (result: Result<Json, String>)
        ensures
            match path_text(self.body@, args_path(choice as nat, tc as nat)) {
                None => result is Err && result->Err_0@ == "No tool call args at choices["@ + decimal(choice as nat)
                    + "].tool_calls["@ + decimal(tc as nat) + "]"@,
                Some(args) => match parsed(args) {
                    Ok(v) => result is Ok && result->Ok_0@ == v,
                    Err(e) => result is Err && result->Err_0@ == "Tool call args not valid JSON: "@ + e + ": "@ + args,
                },
            },
    {
        match self.tool_call_args(choice, tc) {
            None => {
                let mut message = joined("No tool call args at choices[", decimal_text(choice as u64).as_str());
                message.append("].tool_calls[");
                message.append(decimal_text(tc as u64).as_str());
                message.append("]");
                Err(message)
            },
            Some(args) => match Json::parse(args) {
                Ok(v) => Ok(v),
                Err(e) => {
                    let mut message = joined("Tool call args not valid JSON: ", e.as_str());
                    message.append(": ");
                    message.append(args);
                    Err(message)
                },
            },
        }
    }
}

/// An answer of the proxy that was streamed.
#[derive(Debug, PartialEq, Eq)]
pub struct StreamingResponse {
    pub events: Vec<SseEvent>,
}

/// The first of several values: an array has it at its start, and an object
/// under the key `0`.
pub open spec fn first_value(v: JsonView) -> Option<JsonView> {
    match v {
        JsonView::Array(a) => v.at(0),
        _ => v.get("0"@),
    }
}

/// The first choice of a chunk.
pub open spec fn first_choice(chunk: JsonView) -> Option<JsonView> {
    match chunk.get("choices"@) {
        Some(choices) => first_value(choices),
        None => None,
    }
}

/// A member of what the first choice of a chunk adds.
pub open spec fn delta_member(chunk: JsonView, key: Seq<char>) -> Option<JsonView> {
    match first_choice(chunk) {
        Some(choice) => match choice.get("delta"@) {
            Some(delta) => delta.get(key),
            None => None,
        },
        None => None,
    }
}

/// The text that a chunk adds.
pub open spec fn chunk_text(chunk: JsonView) -> Seq<char> {
    match delta_member(chunk, "content"@) {
        Some(JsonView::Str(s)) => s,
        _ => Seq::empty(),
    }
}

/// The position that a tool call says it has; 0 where it does not say.
pub open spec fn call_position(call: JsonView) -> usize {
    match call.get("index"@) {
        Some(JsonView::Unsigned(n)) => n as usize,
        _ => 0,
    }
}

/// The arguments that a tool call of a chunk adds to the call at a position.
pub open spec fn call_args(call: JsonView, at: usize) -> Seq<char> {
    if call_position(call) != at {
        Seq::empty()
    } else {
        match call.get("function"@) {
            Some(f) => match f.get("arguments"@) {
                Some(JsonView::Str(s)) => s,
                _ => Seq::empty(),
            },
            None => Seq::empty(),
        }
    }
}

/// The arguments that the first `n` tool calls of a chunk add.
pub open spec fn calls_args(calls: Seq<JsonView>, at: usize, n: nat) -> Seq<char>
    decreases n,
{
    if n == 0 || n > calls.len() {
        Seq::empty()
    } else {
        calls_args(calls, at, (n - 1) as nat) + call_args(calls[n - 1], at)
    }
}

/// The arguments that a chunk adds to the call at a position.
pub open spec fn chunk_args(chunk: JsonView, at: usize) -> Seq<char> {
    match delta_member(chunk, "tool_calls"@) {
        Some(JsonView::Array(calls)) => calls_args(calls, at, calls.len()),
        _ => Seq::empty(),
    }
}

/// The reason for ending that a chunk gives; the word `null` is none.
pub open spec fn chunk_reason(chunk: JsonView) -> Option<Seq<char>> {
    match first_choice(chunk) {
        Some(choice) => match choice.get("finish_reason"@) {
            Some(JsonView::Str(s)) => if s == "null"@ {
                None
            } else {
                Some(s)
            },
            _ => None,
        },
        None => None,
    }
}

/// The texts that the first `n` events add.
pub open spec fn content_to(events: Seq<SseEvent>, n: nat) -> Seq<char>
    decreases n,
{
    if n == 0 || n > events.len() {
        Seq::empty()
    } else {
        let before = content_to(events, (n - 1) as nat);
        match parsed(events[n - 1].data@) {
            Ok(chunk) => if events[n - 1].is_done {
                before
            } else {
                before + chunk_text(chunk)
            },
            Err(_) => before,
        }
    }
}

/// The arguments that the first `n` events add to the call at a position.
pub open spec fn args_to(events: Seq<SseEvent>, at: usize, n: nat) -> Seq<char>
    decreases n,
{
    if n == 0 || n > events.len() {
        Seq::empty()
    } else {
        let before = args_to(events, at, (n - 1) as nat);
        match parsed(events[n - 1].data@) {
            Ok(chunk) => if events[n - 1].is_done {
                before
            } else {
                before + chunk_args(chunk, at)
            },
            Err(_) => before,
        }
    }
}

/// The last reason for ending among the first `n` events.
pub open spec fn reason_to(events: Seq<SseEvent>, n: nat) -> Option<Seq<char>>
    decreases n,
{
    if n == 0 || n > events.len() {
        None
    } else {
        let e = events[n - 1];
        match parsed(e.data@) {
            Ok(chunk) => if !e.is_done && chunk_reason(chunk) is Some {
                chunk_reason(chunk)
            } else {
                reason_to(events, (n - 1) as nat)
            },
            Err(_) => reason_to(events, (n - 1) as nat),
        }
    }
}

/// The first choice of a chunk.
fn find_first_choice(chunk: &Json) -> (choice: Option<&Json>)
    ensures
        option_view(choice) == first_choice(chunk@),
{
    match chunk.get("choices") {
        Some(choices) => match choices {
            Json::Array(_) => choices.at(0),
            _ => choices.get("0"),
        },
        None => None,
    }
}

/// A member of what the first choice of a chunk adds.
fn find_delta_member<'a>(chunk: &'a Json, key: &str) -> (member: Option<&'a Json>)
    ensures
        option_view(member) == delta_member(chunk@, key@),
{
    match find_first_choice(chunk) {
        Some(choice) => match choice.get("delta") {
            Some(delta) => delta.get(key),
            None => None,
        },
        None => None,
    }
}

/// The text that a chunk adds.
pub fn text_of_chunk(chunk: &Json) -> (text: String)
    ensures
        text@ == chunk_text(chunk@),
{
    match find_delta_member(chunk, "content") {
        Some(Json::Str(s)) => s.clone(),
        _ => String::new(),
    }
}

/// The arguments that a chunk adds to the call at a position.
pub fn args_of_chunk(chunk: &Json, tool_call_idx: usize) -> (args: String)
    ensures
        args@ == chunk_args(chunk@, tool_call_idx),
{
    let mut out = String::new();
    if let Some(Json::Array(calls)) = find_delta_member(chunk, "tool_calls") {
        let mut i: usize = 0;
        while i < calls.len()
            invariant
                i <= calls@.len(),
                out@ == calls_args(views(calls@), tool_call_idx, i as nat),
            decreases calls@.len() - i,
        {
            let call = &calls[i];
            let ghost before = out@;
            let position: usize = match call.get("index") {
                Some(Json::Unsigned(n)) => #[verifier::truncate] (*n as usize),
                _ => 0,
            };
            if position == tool_call_idx {
                if let Some(f) = call.get("function") {
                    if let Some(Json::Str(s)) = f.get("arguments") {
                        out.append(s.as_str());
                    }
                }
            }
            proof {
                assert(out@ =~= before + call_args(call@, tool_call_idx));
            }
            i += 1;
        }
    }
    out
}

/// The reason for ending that a chunk gives.
pub fn reason_of_chunk(chunk: &Json) -> (reason: Option<String>)
    ensures
        match reason {
            Some(r) => chunk_reason(chunk@) == Some(r@),
            None => chunk_reason(chunk@) is None,
        },
{
    match find_first_choice(chunk) {
        Some(choice) => match choice.get("finish_reason") {
            Some(Json::Str(s)) => if same_text(s.as_str(), "null") {
                None
            } else {
                Some(s.clone())
            },
            _ => None,
        },
        None => None,
    }
}

/// The events of the first `n` that carry data.
pub open spec fn data_to(events: Seq<SseEvent>, n: nat) -> Seq<SseEvent>
    decreases n,
{
    if n == 0 || n > events.len() {
        Seq::empty()
    } else if events[n - 1].is_done {
        data_to(events, (n - 1) as nat)
    } else {
        data_to(events, (n - 1) as nat).push(events[n - 1])
    }
}

/// Whether borrowed events are these events.
pub open spec fn are_events(borrowed: Seq<&SseEvent>, events: Seq<SseEvent>) -> bool {
    &&& borrowed.len() == events.len()
    &&& forall|i: int| 0 <= i < events.len() ==> *(#[trigger] borrowed[i]) == events[i]
}

impl StreamingResponse {
    /// Whether the stream ends with the mark of its end.
    pub fn has_done_marker(&self) -> (done: bool)
        ensures
            done == (self.events@.len() > 0 && self.events@.last().is_done),
    {
        let n = self.events.len();
        n > 0 && self.events[n - 1].is_done
    }

    /// The events that carry data.
    pub fn data_events(&self) -> (events: Vec<&SseEvent>)
        ensures
            are_events(events@, data_to(self.events@, self.events@.len())),
    {
        let mut out: Vec<&SseEvent> = Vec::new();
        let mut i: usize = 0;
        while i < self.events.len()
            invariant
                i <= self.events@.len(),
                are_events(out@, data_to(self.events@, i as nat)),
            decreases self.events@.len() - i,
        {
            if !self.events[i].is_done {
                out.push(&self.events[i]);
            }
            i += 1;
        }
        out
    }

    /// All text that the stream adds.
    pub fn accumulated_content(&self) -> (text: String)
        ensures
            text@ == content_to(self.events@, self.events@.len()),
    {
        let mut out = String::new();
        let mut i: usize = 0;
        while i < self.events.len()
            invariant
                i <= self.events@.len(),
                out@ == content_to(self.events@, i as nat),
            decreases self.events@.len() - i,
        {
            let event = &self.events[i];
            if !event.is_done {
                if let Ok(chunk) = event.parse_json() {
                    out.append(text_of_chunk(&chunk).as_str());
                }
            }
            i += 1;
        }
        out
    }

    /// All arguments that the stream adds to the call at a position.
    pub fn accumulated_tool_args(&self, tool_call_idx: usize) -> (args: String)
        ensures
            args@ == args_to(self.events@, tool_call_idx, self.events@.len()),
    {
        let mut out = String::new();
        let mut i: usize = 0;
        while i < self.events.len()
            invariant
                i <= self.events@.len(),
                out@ == args_to(self.events@, tool_call_idx, i as nat),
            decreases self.events@.len() - i,
        {
            let event = &self.events[i];
            if !event.is_done {
                if let Ok(chunk) = event.parse_json() {
                    out.append(args_of_chunk(&chunk, tool_call_idx).as_str());
                }
            }
            i += 1;
        }
        out
    }

    /// The last reason for ending that the stream gives.
    pub fn finish_reason(&self) -> (reason: Option<String>)
        ensures
            match reason {
                Some(r) => reason_to(self.events@, self.events@.len()) == Some(r@),
                None => reason_to(self.events@, self.events@.len()) is None,
            },
    {
        let n = self.events.len();
        let mut k: usize = n;
        while k > 0
            invariant
                k <= n,
                n == self.events@.len(),
                reason_to(self.events@, n as nat) == reason_to(self.events@, k as nat),
            decreases k,
        {
            let event = &self.events[k - 1];
            if !event.is_done {
                if let Ok(chunk) = event.parse_json() {
                    let reason = reason_of_chunk(&chunk);
                    if reason.is_some() {
                        return reason;
                    }
                }
            }
            k -= 1;
        }
        None
    }
}

/// What became of a test.
#[derive(Debug, PartialEq, Eq)]
pub struct TestResult {
    pub name: String,
    pub passed: bool,
    pub error: Option<String>,
    pub duration_ms: u64,
}

} // verus!
