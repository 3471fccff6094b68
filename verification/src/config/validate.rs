//! Which values a configuration may hold.

use vstd::prelude::*;
use vstd::string::*;
use crate::text::{chars_of, debug_form, debug_text, decimal, decimal_text, has_control, is_white, is_white_char, joined, same_text,
    split, split_text, text_of, texts};
use super::{ConfigError, ConfigErrorView, SynthesisConfig, Temperature};

verus! {

broadcast use vstd::string::group_string_axioms;

/// What a check says: nothing, or why a configuration is refused.
pub type Check = Result<(), ConfigErrorView>;

/// The refusal of a value.
pub open spec fn invalid(message: Seq<char>) -> Check {
    Err(ConfigErrorView::Validation(message))
}

/// What a check returned, as contracts see it.
pub open spec fn check_view(r: Result<(), ConfigError>) -> Check {
    match r {
        Ok(()) => Ok(()),
        Err(e) => Err(e@),
    }
}

/// One check and, where it says nothing, the next.
pub open spec fn and_check(first: Check, second: Check) -> Check {
    if first is Ok {
        second
    } else {
        first
    }
}

fn refuse(message: String) -> (r: Result<(), ConfigError>)
    ensures
        check_view(r) == invalid(message@),
{
    Err(ConfigError::Validation(message))
}

/// A letter or digit of ASCII.
pub open spec fn is_alphanumeric(c: char) -> bool {
    ('0' <= c <= '9') || ('a' <= c <= 'z') || ('A' <= c <= 'Z')
}

/// A label of a host name: 1 to 63 letters, digits and hyphens, with no hyphen
/// at either end.
pub open spec fn is_label(label: Seq<char>) -> bool {
    &&& 0 < label.len() <= 63
    &&& is_alphanumeric(label[0])
    &&& is_alphanumeric(label.last())
    &&& forall|i: int| 0 <= i < label.len() ==> is_alphanumeric(#[trigger] label[i]) || label[i] == '-'
}

/// A host name without the dot that may end it.
pub open spec fn without_last_dot(host: Seq<char>) -> Seq<char> {
    if host.len() > 0 && host.last() == '.' {
        host.drop_last()
    } else {
        host
    }
}

/// A host name by RFC 1123: labels with dots between them, at most 255
/// characters, with or without a dot at the end.
pub open spec fn is_hostname(host: Seq<char>) -> bool {
    let name = without_last_dot(host);
    &&& 0 < name.len() <= 255
    &&& forall|k: int| 0 <= k < split_text(name, '.').len() ==> is_label(#[trigger] split_text(name, '.')[k])
}

fn alphanumeric(c: char) -> (b: bool)
    ensures
        b == is_alphanumeric(c),
{
    ('0' <= c && c <= '9') || ('a' <= c && c <= 'z') || ('A' <= c && c <= 'Z')
}

fn label_ok(label: &str) -> (ok: bool)
    ensures
        ok == is_label(label@),
{
    let chars = chars_of(label);
    let n = chars.len();
    if n == 0 || n > 63 || !alphanumeric(chars[0]) || !alphanumeric(chars[n - 1]) {
        return false;
    }
    let mut i: usize = 0;
    while i < n
        invariant
            chars@ == label@,
            n == chars@.len(),
            i <= n,
            forall|k: int| 0 <= k < i ==> is_alphanumeric(#[trigger] label@[k]) || label@[k] == '-',
        decreases n - i,
    {
        if !alphanumeric(chars[i]) && chars[i] != '-' {
            proof {
                assert(!is_alphanumeric(label@[i as int]) && label@[i as int] != '-');
            }
            return false;
        }
        i += 1;
    }
    true
}

/// Whether a text is a host name by RFC 1123.
pub fn is_rfc1123_hostname(host: &str) -> (ok: bool)
    ensures
        ok == is_hostname(host@),
{
    let chars = chars_of(host);
    let mut n = chars.len();
    if n > 0 && chars[n - 1] == '.' {
        n -= 1;
    }
    let name = text_of(&chars, 0, n);
    proof {
        assert(name@ =~= without_last_dot(host@));
    }
    if n == 0 || n > 255 {
        return false;
    }
    let labels = split(name.as_str(), '.');
    let mut i: usize = 0;
    while i < labels.len()
        invariant
            i <= labels@.len(),
            name@ == without_last_dot(host@),
            0 < name@.len() <= 255,
            texts(labels@) == split_text(name@, '.'),
            forall|k: int| 0 <= k < i ==> is_label(#[trigger] split_text(name@, '.')[k]),
        decreases labels@.len() - i,
    {
        if !label_ok(labels[i].as_str()) {
            proof {
                assert(texts(labels@)[i as int] == labels@[i as int]@);
                assert(!is_label(split_text(name@, '.')[i as int]));
            }
            return false;
        }
        proof {
            assert(texts(labels@)[i as int] == labels@[i as int]@);
        }
        i += 1;
    }
    proof {
        assert(texts(labels@).len() == labels@.len());
    }
    true
}

/// A host without the brackets that an IPv6 address may stand in.
pub open spec fn unbracketed(host: Seq<char>) -> Seq<char> {
    if host.len() >= 2 && host[0] == '[' && host.last() == ']' {
        host.subrange(1, host.len() - 1)
    } else {
        host
    }
}

/// A host without the brackets that an IPv6 address may stand in: the text that
/// may be an IP address.
pub fn bind_address(host: &str) -> (address: String)
    ensures
        address@ == unbracketed(host@),
{
    let chars = chars_of(host);
    let n = chars.len();
    if n >= 2 && chars[0] == '[' && chars[n - 1] == ']' {
        text_of(&chars, 1, n - 1)
    } else {
        host.to_owned()
    }
}

/// The check of the host that the server listens on.
pub open spec fn bind_host_check(host: Seq<char>, is_ip: bool) -> Check {
    if is_ip || is_hostname(unbracketed(host)) {
        Ok(())
    } else {
        invalid("server host '"@ + host + "' is neither an IP address nor a valid RFC-1123 hostname"@)
    }
}

/// Checks the host that the server listens on. The caller says whether it is,
/// without brackets, an IP address.
pub fn validate_bind_host(host: &str, is_ip: bool) -> (r: Result<(), ConfigError>)
    ensures
        check_view(r) == bind_host_check(host@, is_ip),
{
    if is_ip {
        return Ok(());
    }
    if is_rfc1123_hostname(bind_address(host).as_str()) {
        return Ok(());
    }
    let mut message = joined("server host '", host);
    message.append("' is neither an IP address nor a valid RFC-1123 hostname");
    refuse(message)
}

/// What is read of a URL: its scheme and its host.
pub struct UrlParts {
    pub scheme: String,
    pub host: Option<String>,
}

/// What is read of a URL, as contracts see it.
pub struct UrlView {
    pub scheme: Seq<char>,
    pub host: Option<Seq<char>>,
}

/// What `url::Url::parse` reads from a text: the scheme and the host, or the
/// message of the error.
pub uninterp spec fn parsed_url(text: Seq<char>) -> Result<UrlView, Seq<char>>;

/// The result of reading a URL, as contracts see it.
pub open spec fn url_view(r: Result<UrlParts, String>) -> Result<UrlView, Seq<char>> {
    match r {
        Ok(u) => Ok(
            UrlView {
                scheme: u.scheme@,
                host: match u.host {
                    Some(h) => Some(h@),
                    None => None,
                },
            },
        ),
        Err(e) => Err(e@),
    }
}

/// `url::Url::parse`, of which the scheme (`scheme`) and the host (`host_str`)
/// are taken; or what is wrong with the text, in words.
#[verifier::external_body]
fn parse_url(text: &str) -> (result: Result<UrlParts, String>)
    ensures
        url_view(result) == parsed_url(text@),
{
    let parsed = url::Url::parse(text).map_err(|e| e.to_string())?;
    Ok(UrlParts { scheme: parsed.scheme().to_string(), host: parsed.host_str().map(|h| h.to_string()) })
}

/// The check of a URL, given what is read of it.
pub open spec fn url_check(read: Result<UrlView, Seq<char>>, url: Seq<char>, label: Seq<char>) -> Check {
    match read {
        Err(e) => invalid("Invalid "@ + label + " URL '"@ + url + "': "@ + e),
        Ok(u) => if u.scheme != "http"@ && u.scheme != "https"@ {
            invalid(label + " URL must use http:// or https://, got '"@ + u.scheme + "'"@)
        } else if u.host is None || u.host->0.len() == 0 {
            invalid(label + " URL must include a host: '"@ + url + "'"@)
        } else {
            Ok(())
        },
    }
}

/// Checks what was read of a URL: it is one of `http` or `https`, with a host.
pub fn check_url_parts(read: Result<UrlParts, String>, url: &str, label: &str) -> (r: Result<(), ConfigError>)
    ensures
        check_view(r) == url_check(url_view(read), url@, label@),
{
    match read {
        Err(e) => {
            let mut message = joined("Invalid ", label);
            message.append(" URL '");
            message.append(url);
            message.append("': ");
            message.append(e.as_str());
            refuse(message)
        },
        Ok(u) => {
            if !same_text(u.scheme.as_str(), "http") && !same_text(u.scheme.as_str(), "https") {
                let mut message = joined(label, " URL must use http:// or https://, got '");
                message.append(u.scheme.as_str());
                message.append("'");
                return refuse(message);
            }
            let has_host = match &u.host {
                Some(h) => !h.as_str().is_empty(),
                None => false,
            };
            if !has_host {
                let mut message = joined(label, " URL must include a host: '");
                message.append(url);
                message.append("'");
                return refuse(message);
            }
            Ok(())
        },
    }
}

/// Checks a URL: it is one of `http` or `https`, with a host.
pub fn validate_http_url(url: &str, label: &str) -> (r: Result<(), ConfigError>)
    ensures
        check_view(r) == url_check(parsed_url(url@), url@, label@),
{
    check_url_parts(parse_url(url), url, label)
}

/// Whether the bits of a double are those of a finite number.
pub open spec fn is_finite(bits: u64) -> bool {
    bits & 0x7ff0_0000_0000_0000 != 0x7ff0_0000_0000_0000
}

/// Whether the bits of a double are those of a number from 0 to 2. Doubles
/// without a sign are ordered as their bits are, and 2 has the bits
/// `0x4000_0000_0000_0000`; of those with a sign only minus zero counts.
pub open spec fn is_zero_to_two(bits: u64) -> bool {
    bits <= 0x4000_0000_0000_0000 || bits == 0x8000_0000_0000_0000
}

/// The check of a temperature.
pub open spec fn temperature_check(t: Temperature, place: Seq<char>) -> Check {
    if !is_finite(t.bits) {
        invalid(place + " temperature "@ + t.shown@ + " is not a finite number"@)
    } else if !is_zero_to_two(t.bits) {
        invalid(place + " temperature "@ + t.shown@ + " is outside the valid range 0..=2"@)
    } else {
        Ok(())
    }
}

/// Checks a temperature: it is finite, and from 0 to 2.
pub fn validate_temperature(t: &Temperature, place: &str) -> (r: Result<(), ConfigError>)
    ensures
        check_view(r) == temperature_check(*t, place@),
{
    if t.bits & 0x7ff0_0000_0000_0000 == 0x7ff0_0000_0000_0000 {
        let mut message = joined(place, " temperature ");
        message.append(t.shown.as_str());
        message.append(" is not a finite number");
        return refuse(message);
    }
    if !(t.bits <= 0x4000_0000_0000_0000 || t.bits == 0x8000_0000_0000_0000) {
        let mut message = joined(place, " temperature ");
        message.append(t.shown.as_str());
        message.append(" is outside the valid range 0..=2");
        return refuse(message);
    }
    Ok(())
}

/// The check of a value that may not be empty.
pub open spec fn nonempty_check(value: Seq<char>, what: Seq<char>) -> Check {
    if value.len() == 0 {
        invalid(what + " must not be empty"@)
    } else {
        Ok(())
    }
}

/// Checks a value that may not be empty.
pub fn require_nonempty(value: &str, what: &str) -> (r: Result<(), ConfigError>)
    ensures
        check_view(r) == nonempty_check(value@, what@),
{
    if value.is_empty() {
        return refuse(joined(what, " must not be empty"));
    }
    Ok(())
}

/// Whether a text holds whitespace.
pub open spec fn has_white(s: Seq<char>) -> bool {
    exists|i: int| 0 <= i < s.len() && is_white(#[trigger] s[i])
}

/// The check of an origin. It is sent back as a header, so that it may hold no
/// control character; and it is matched as a whole, so that whitespace or a
/// wildcard would never match.
pub open spec fn origin_check(entry: Seq<char>) -> Check {
    if entry.len() == 0 {
        invalid("server.allowed_origins contains an empty entry"@)
    } else if has_control(entry) {
        invalid(
            "server.allowed_origins entry "@ + debug_text(entry)
                + " contains control characters; it would be echoed as a response header"@,
        )
    } else if has_white(entry) {
        invalid(
            "server.allowed_origins entry "@ + debug_text(entry)
                + " contains whitespace; origins are exact tokens like 'https://app.example'"@,
        )
    } else if entry == "*"@ {
        invalid(
            "server.allowed_origins contains '*'; it is not an exact origin — omit allowed_origins to allow every origin"@,
        )
    } else {
        Ok(())
    }
}

/// The check of the origins from the `i`th on: the first one that is refused
/// decides.
pub open spec fn origins_check(origins: Seq<Seq<char>>, i: int) -> Check
    decreases origins.len() - i,
{
    if i < 0 || i >= origins.len() {
        Ok(())
    } else {
        and_check(origin_check(origins[i]), origins_check(origins, i + 1))
    }
}

fn holds_control(s: &str) -> (found: bool)
    ensures
        found == has_control(s@),
{
    let chars = chars_of(s);
    let mut i: usize = 0;
    while i < chars.len()
        invariant
            chars@ == s@,
            i <= chars@.len(),
            forall|k: int| 0 <= k < i ==> !((#[trigger] s@[k]) < ' ' || s@[k] == '\u{7f}'),
        decreases chars@.len() - i,
    {
        if chars[i] < ' ' || chars[i] == '\u{7f}' {
            proof {
                assert(s@[i as int] < ' ' || s@[i as int] == '\u{7f}');
            }
            return true;
        }
        i += 1;
    }
    false
}

fn holds_white(s: &str) -> (found: bool)
    ensures
        found == has_white(s@),
{
    let chars = chars_of(s);
    let mut i: usize = 0;
    while i < chars.len()
        invariant
            chars@ == s@,
            i <= chars@.len(),
            forall|k: int| 0 <= k < i ==> !is_white(#[trigger] s@[k]),
        decreases chars@.len() - i,
    {
        if is_white_char(chars[i]) {
            proof {
                assert(is_white(s@[i as int]));
            }
            return true;
        }
        i += 1;
    }
    false
}

/// Whether the first `n` characters of a text are no control characters.
pub open spec fn shows_to(s: Seq<char>, n: nat) -> bool
    decreases n,
{
    n == 0 || (n <= s.len() && s[n - 1] >= ' ' && s[n - 1] != '\u{7f}' && shows_to(s, (n - 1) as nat))
}

proof fn lemma_shows(s: Seq<char>, n: nat, i: int)
    requires
        shows_to(s, n),
        0 <= i < n,
    ensures
        s[i] >= ' ' && s[i] != '\u{7f}',
    decreases n,
{
    if i < n - 1 {
        lemma_shows(s, (n - 1) as nat, i);
    }
}

proof fn lemma_no_control(s: Seq<char>)
    requires
        shows_to(s, s.len()),
    ensures
        !has_control(s),
{
    assert forall|i: int| 0 <= i < s.len() implies !((#[trigger] s[i]) < ' ' || s[i] == '\u{7f}') by {
        lemma_shows(s, s.len(), i);
    }
}

/// No control character comes of joining texts without one.
proof fn lemma_joined_shows(a: Seq<char>, b: Seq<char>)
    requires
        !has_control(a),
        !has_control(b),
    ensures
        !has_control(a + b),
{
    assert forall|i: int| 0 <= i < (a + b).len() implies !((#[trigger] (a + b)[i]) < ' ' || (a + b)[i] == '\u{7f}') by {
        if i < a.len() {
            assert((a + b)[i] == a[i]);
        } else {
            assert((a + b)[i] == b[i - a.len()]);
        }
    }
}

/// The words of the refusals hold no control character.
proof fn lemma_origin_literals()
    ensures
        !has_control("server.allowed_origins contains an empty entry"@),
        !has_control("server.allowed_origins entry "@),
        !has_control(" contains control characters; it would be echoed as a response header"@),
        !has_control(" contains whitespace; origins are exact tokens like 'https://app.example'"@),
        !has_control(
            "server.allowed_origins contains '*'; it is not an exact origin — omit allowed_origins to allow every origin"@,
        ),
{
    reveal_with_fuel(shows_to, 120);
    reveal_strlit("server.allowed_origins contains an empty entry");
    lemma_no_control("server.allowed_origins contains an empty entry"@);
    reveal_strlit("server.allowed_origins entry ");
    lemma_no_control("server.allowed_origins entry "@);
    reveal_strlit(" contains control characters; it would be echoed as a response header");
    lemma_no_control(" contains control characters; it would be echoed as a response header"@);
    reveal_strlit(" contains whitespace; origins are exact tokens like 'https://app.example'");
    lemma_no_control(" contains whitespace; origins are exact tokens like 'https://app.example'"@);
    lemma_wildcard_literal();
}

proof fn lemma_wildcard_literal()
    ensures
        !has_control(
            "server.allowed_origins contains '*'; it is not an exact origin — omit allowed_origins to allow every origin"@,
        ),
{
    let s = "server.allowed_origins contains '*'; it is not an exact origin — omit allowed_origins to allow every origin"@;
    reveal_strlit(
        "server.allowed_origins contains '*'; it is not an exact origin — omit allowed_origins to allow every origin",
    );
    reveal_with_fuel(shows_to, 60);
    assert(shows_to(s, 50));
    assert(shows_to(s, 100));
    lemma_no_control(s);
}

fn validate_origin(entry: &str) -> (r: Result<(), ConfigError>)
    ensures
        check_view(r) == origin_check(entry@),
        r is Err ==> r->Err_0@ is Validation && !has_control(r->Err_0@->Validation_0),
{
    proof {
        lemma_origin_literals();
    }
    if entry.is_empty() {
        return refuse("server.allowed_origins contains an empty entry".to_owned());
    }
    if holds_control(entry) {
        let shown = debug_form(entry);
        proof {
            lemma_joined_shows("server.allowed_origins entry "@, shown@);
            lemma_joined_shows(
                "server.allowed_origins entry "@ + shown@,
                " contains control characters; it would be echoed as a response header"@,
            );
        }
        let mut message = joined("server.allowed_origins entry ", shown.as_str());
        message.append(" contains control characters; it would be echoed as a response header");
        return refuse(message);
    }
    if holds_white(entry) {
        let shown = debug_form(entry);
        proof {
            lemma_joined_shows("server.allowed_origins entry "@, shown@);
            lemma_joined_shows(
                "server.allowed_origins entry "@ + shown@,
                " contains whitespace; origins are exact tokens like 'https://app.example'"@,
            );
        }
        let mut message = joined("server.allowed_origins entry ", shown.as_str());
        message.append(" contains whitespace; origins are exact tokens like 'https://app.example'");
        return refuse(message);
    }
    if same_text(entry, "*") {
        return refuse(
            "server.allowed_origins contains '*'; it is not an exact origin — omit allowed_origins to allow every origin".to_owned(),
        );
    }
    Ok(())
}

/// Checks the origins that may read responses.
pub fn validate_allowed_origins(origins: &[String]) -> (r: Result<(), ConfigError>)
    ensures
        check_view(r) == origins_check(texts(origins@), 0),
        r is Err ==> r->Err_0@ is Validation && !has_control(r->Err_0@->Validation_0),
{
    let mut i: usize = 0;
    while i < origins.len()
        invariant
            i <= origins@.len(),
            origins_check(texts(origins@), 0) == origins_check(texts(origins@), i as int),
        decreases origins@.len() - i,
    {
        let checked = validate_origin(origins[i].as_str());
        proof {
            assert(texts(origins@)[i as int] == origins@[i as int]@);
        }
        if checked.is_err() {
            return checked;
        }
        i += 1;
    }
    Ok(())
}

/// The longest timeout, in seconds: a day.
pub const MAX_TIMEOUT_SECONDS: u64 = 86_400;

/// The longest time that a node that failed is left alone, in seconds: a day.
pub const MAX_FAILURE_COOLDOWN_SECS: u64 = 86_400;

/// The longest time for re-prompting, in milliseconds: an hour.
pub const MAX_REPROMPT_TOTAL_MS: u64 = 3_600_000;

/// The longest pause between chunks, in milliseconds: a minute.
pub const MAX_CHUNK_DELAY_MS: u64 = 60_000;

/// The fewest characters of a chunk.
pub const MIN_CHUNK_SIZE_CHARS: u64 = 1;

/// The check of a value that has a maximum.
pub open spec fn maximum_check(name: Seq<char>, value: u64, max: u64) -> Check {
    if value > max {
        invalid(name + " "@ + decimal(value as nat) + " exceeds the supported maximum "@ + decimal(max as nat))
    } else {
        Ok(())
    }
}

/// Checks a value that has a maximum.
pub fn reject_over(name: &str, value: u64, max: u64) -> (r: Result<(), ConfigError>)
    ensures
        check_view(r) == maximum_check(name@, value, max),
{
    if value > max {
        let mut message = joined(name, " ");
        message.append(decimal_text(value).as_str());
        message.append(" exceeds the supported maximum ");
        message.append(decimal_text(max).as_str());
        return refuse(message);
    }
    Ok(())
}

/// Checks the timeout of a backend.
pub fn validate_timeout_seconds(secs: u64, place: &str) -> (r: Result<(), ConfigError>)
    ensures
        check_view(r) == maximum_check(place@ + " timeout_seconds"@, secs, MAX_TIMEOUT_SECONDS),
{
    reject_over(joined(place, " timeout_seconds").as_str(), secs, MAX_TIMEOUT_SECONDS)
}

/// The name of the cooldown of a group, for messages.
pub open spec fn cooldown_name(group: Seq<char>) -> Seq<char> {
    "Backend group '"@ + group + "' failure_cooldown_secs"@
}

/// Checks how long a node that failed is left alone.
pub fn validate_failure_cooldown_secs(secs: u64, group: &str) -> (r: Result<(), ConfigError>)
    ensures
        check_view(r) == maximum_check(cooldown_name(group@), secs, MAX_FAILURE_COOLDOWN_SECS),
{
    let mut name = joined("Backend group '", group);
    name.append("' failure_cooldown_secs");
    reject_over(name.as_str(), secs, MAX_FAILURE_COOLDOWN_SECS)
}

/// Checks how long re-prompting may take.
pub fn validate_reprompt_max_total_ms(ms: u64) -> (r: Result<(), ConfigError>)
    ensures
        check_view(r) == maximum_check("reprompt max_total_ms"@, ms, MAX_REPROMPT_TOTAL_MS),
{
    reject_over("reprompt max_total_ms", ms, MAX_REPROMPT_TOTAL_MS)
}

/// The check of how a made-up stream is paced and split.
pub open spec fn synthesis_check(synth: SynthesisConfig) -> Check {
    and_check(
        maximum_check("synthesis chunk_delay_ms"@, synth.chunk_delay_ms, MAX_CHUNK_DELAY_MS),
        if synth.chunk_size_chars < MIN_CHUNK_SIZE_CHARS {
            invalid("synthesis chunk_size_chars must be at least 1; 0 emits one chunk per character"@)
        } else {
            Ok(())
        },
    )
}

/// Checks how a made-up stream is paced and split.
pub fn validate_synthesis(synth: &SynthesisConfig) -> (r: Result<(), ConfigError>)
    ensures
        check_view(r) == synthesis_check(*synth),
{
    let delay = reject_over("synthesis chunk_delay_ms", synth.chunk_delay_ms, MAX_CHUNK_DELAY_MS);
    if delay.is_err() {
        return delay;
    }
    if (synth.chunk_size_chars as u64) < MIN_CHUNK_SIZE_CHARS {
        return refuse("synthesis chunk_size_chars must be at least 1; 0 emits one chunk per character".to_owned());
    }
    Ok(())
}

/// Every origin that is accepted can be sent back as a header and matched as a
/// whole: it is not empty, holds no control character and no whitespace, and is
/// not the wildcard.
pub proof fn law_accepted_origins_are_exact(origins: Seq<Seq<char>>, from: int, i: int)
    requires
        0 <= from <= i < origins.len(),
        origins_check(origins, from) is Ok,
    ensures
        origins[i].len() > 0,
        !has_control(origins[i]),
        !has_white(origins[i]),
        origins[i] != "*"@,
    decreases i - from,
{
    if from < i {
        law_accepted_origins_are_exact(origins, from + 1, i);
    }
}

} // verus!
