//! Expiring cache: the envelope stored under each field, the expiry handed to
//! the store, and the rule that drives a blocking read.
use vstd::prelude::*;
use crate::decimal::{decimal, decimal_text, digits_value, is_decimal, is_digit, lemma_decimal, parse_decimal};
use crate::error::{IpcError, IpcErrorKind};
use crate::json::{last_token, skip_ws, skip_ws_at, trim_end, trim_end_of, value_end, value_end_at};
use crate::text::{digit_run, digit_run_end, lemma_digit_run, lemma_digit_run_digits, matches_at, occurs_at};

verus! {

/// std's `SystemTime`, known to the verifier as an opaque type.
#[verifier::external_type_specification]
#[verifier::external_body]
pub struct ExSystemTime(std::time::SystemTime);

/// std's `SystemTimeError`, known to the verifier as an opaque type.
#[verifier::external_type_specification]
#[verifier::external_body]
pub struct ExSystemTimeError(std::time::SystemTimeError);

/// Relies on `SystemTime::now`: a reading of the wall clock, of which nothing
/// is known.
pub assume_specification[ std::time::SystemTime::now ]() -> std::time::SystemTime;

/// Relies on `Duration::as_millis`: the whole milliseconds of a duration.
pub assume_specification[ core::time::Duration::as_millis ](d: &core::time::Duration) -> u128;

/// Relies on `SystemTime::duration_since` with `UNIX_EPOCH`: the time elapsed
/// since the Unix epoch, or an error when `t` lies before it.
#[verifier::external_body]
fn since_unix_epoch(t: &std::time::SystemTime) -> Result<core::time::Duration, std::time::SystemTimeError> {
    t.duration_since(std::time::UNIX_EPOCH)
}

/// Current wall-clock time in milliseconds since the Unix epoch; an error
/// when the clock reads before the epoch.
fn timestamp_u128_now() -> (r: Result<u128, std::time::SystemTimeError>) {
    let now = std::time::SystemTime::now();
    match since_unix_epoch(&now) {
        Ok(d) => Ok(d.as_millis()),
        Err(e) => Err(e),
    }
}

/// A cache value with the time it was written, in milliseconds since the
/// Unix epoch.
#[derive(Debug)]
pub struct CacheElement<ElementContent> {
    timestamp: u128,
    content: ElementContent,
}

impl<ElementContent> CacheElement<ElementContent> {
    /// Time of writing, for contracts.
    pub closed spec fn spec_timestamp(&self) -> u128 {
        self.timestamp
    }

    /// Content, for contracts.
    pub closed spec fn spec_content(&self) -> ElementContent {
        self.content
    }

    /// Builds an element; `timestamp` is a Unix time in milliseconds.
    pub fn new(timestamp: u128, content: ElementContent) -> (r: Self)
        ensures
            r.spec_timestamp() == timestamp,
            r.spec_content() == content,
    {
        CacheElement { timestamp, content }
    }

    /// Stamps `content` with the current wall-clock time. A clock set before
    /// the Unix epoch is an error of kind `Other`.
    pub fn now(content: ElementContent) -> (r: Result<Self, IpcError>)
        ensures
            match r {
                Ok(e) => e.spec_content() == content,
                Err(e) => e.spec_kind() == IpcErrorKind::Other,
            },
    {
        match timestamp_u128_now() {
            Ok(t) => Ok(CacheElement::new(t, content)),
            Err(_) => Err(IpcError::new(IpcErrorKind::Other, "system clock reads before the Unix epoch")),
        }
    }

    /// Time of writing, in milliseconds since the Unix epoch.
    pub fn get_timestamp_128(&self) -> (r: u128)
        ensures
            r == self.spec_timestamp(),
    {
        self.timestamp
    }

    /// Content of the element.
    pub fn get_content(&self) -> (r: &ElementContent)
        ensures
            *r == self.spec_content(),
    {
        &self.content
    }

    /// Splits the element into its timestamp and content.
    pub fn into_parts(self) -> (r: (u128, ElementContent))
        ensures
            r.0 == self.spec_timestamp(),
            r.1 == self.spec_content(),
    {
        (self.timestamp, self.content)
    }
}

/// `"timestamp"`, the key of a cache element's time of writing.
pub open spec fn timestamp_key() -> Seq<char> {
    seq!['"', 't', 'i', 'm', 'e', 's', 't', 'a', 'm', 'p', '"']
}

/// `"content"`, the key of an envelope's content.
pub open spec fn content_name() -> Seq<char> {
    seq!['"', 'c', 'o', 'n', 't', 'e', 'n', 't', '"']
}

/// Wire text of a cache element whose content has the JSON text `content`,
/// as serde_json writes it: `{"timestamp":<ms>,"content":<content>}`.
pub open spec fn cache_text(timestamp: nat, content: Seq<char>) -> Seq<char> {
    seq!['{'] + timestamp_key() + seq![':'] + decimal(timestamp) + seq![','] + content_name()
        + seq![':'] + content + seq!['}']
}

/// The timestamp written at `d` and the position after it: a run of digits
/// as JSON writes a number (no leading zero) whose value fits in a `u128`.
pub open spec fn timestamp_at(s: Seq<char>, d: nat) -> Option<(u128, nat)> {
    let e = digit_run(s, d);
    let digits = s.subrange(d as int, e as int);
    if e > d && digits == decimal(digits_value(digits)) && digits_value(digits) <= u128::MAX {
        Some((digits_value(digits) as u128, e))
    } else {
        None
    }
}

/// A cache envelope with the timestamp first: `{`, `"timestamp"`, `:`, the
/// number, `,`, `"content"`, `:`, and the content up to the last `}`. The
/// content is all that stands between that `:` and the closing `}`.
pub open spec fn cache_in_order(s: Seq<char>) -> Option<(u128, Seq<char>)> {
    let a = skip_ws(s, 0);
    let b = skip_ws(s, a + 1);
    let c = skip_ws(s, b + timestamp_key().len());
    let d = skip_ws(s, c + 1);
    let z = last_token(s);
    match timestamp_at(s, d) {
        Some((t, e)) => {
            let f = skip_ws(s, e);
            let g = skip_ws(s, f + 1);
            let h = skip_ws(s, g + content_name().len());
            if occurs_at(s, a as int, seq!['{']) && occurs_at(s, b as int, timestamp_key())
                && occurs_at(s, c as int, seq![':']) && occurs_at(s, f as int, seq![','])
                && occurs_at(s, g as int, content_name()) && occurs_at(s, h as int, seq![':'])
                && h < z && s[z] == '}' {
                Some((t, s.subrange(h as int + 1, z)))
            } else {
                None
            }
        },
        None => None,
    }
}

/// A cache envelope with the content first: `{`, `"content"`, `:`, one JSON
/// value, `,`, `"timestamp"`, `:`, the number, and `}` last. The content is
/// the text from after that `:` to the end of the value.
pub open spec fn cache_content_first(s: Seq<char>) -> Option<(u128, Seq<char>)> {
    let a = skip_ws(s, 0);
    let b = skip_ws(s, a + 1);
    let c = skip_ws(s, b + content_name().len());
    let d = skip_ws(s, c + 1);
    let z = last_token(s);
    match value_end(s, d as int) {
        Some(v) => {
            let f = skip_ws(s, v as nat);
            let g = skip_ws(s, f + 1);
            let h = skip_ws(s, g + timestamp_key().len());
            let k = skip_ws(s, h + 1);
            match timestamp_at(s, k) {
                Some((t, e)) => if occurs_at(s, a as int, seq!['{']) && occurs_at(
                    s,
                    b as int,
                    content_name(),
                ) && occurs_at(s, c as int, seq![':']) && occurs_at(s, f as int, seq![','])
                    && occurs_at(s, g as int, timestamp_key()) && occurs_at(s, h as int, seq![':'])
                    && skip_ws(s, e) == z && s[z] == '}' && c + 1 <= v <= s.len() {
                    Some((t, s.subrange(c as int + 1, v)))
                } else {
                    None
                },
                None => None,
            }
        },
        None => None,
    }
}

/// What a cache envelope holds: its timestamp and the JSON text of its
/// content, with the two members in either order and any JSON whitespace
/// between the tokens and around the whole. `None` for any other text.
pub open spec fn cache_wire(s: Seq<char>) -> Option<(u128, Seq<char>)> {
    match cache_in_order(s) {
        Some(r) => Some(r),
        None => cache_content_first(s),
    }
}

/// An envelope read back gives the timestamp and content it was written with.
pub proof fn lemma_cache_round_trip(timestamp: u128, content: Seq<char>)
    ensures
        cache_wire(cache_text(timestamp as nat, content)) == Some((timestamp, content)),
{
    let s = cache_text(timestamp as nat, content);
    let dec = decimal(timestamp as nat);
    lemma_decimal(timestamp as nat);
    let d = 13int;
    let e = d + dec.len();
    assert(s[0] == '{');
    assert(s.subrange(0, 1) =~= seq!['{']);
    assert(s.subrange(1, 12) =~= timestamp_key());
    assert(s[1] == '"');
    assert(s[12] == ':');
    assert(s.subrange(12, 13) =~= seq![':']);
    assert(skip_ws(s, 0) == 0);
    assert(skip_ws(s, 1) == 1);
    assert(skip_ws(s, 12) == 12);
    assert forall|j: int| d <= j < e implies is_digit(#[trigger] s[j]) by {
        assert(s[j] == dec[j - d]);
    }
    assert(is_digit(s[d]));
    assert(skip_ws(s, 13) == 13);
    assert(s[e] == ',');
    assert(s.subrange(e, e + 1) =~= seq![',']);
    assert(skip_ws(s, e as nat) == e);
    lemma_digit_run(s, d as nat, e as nat);
    assert(s.subrange(d, e) =~= dec);
    assert(s.subrange(e + 1, e + 10) =~= content_name());
    assert(s[e + 1] == '"');
    assert(skip_ws(s, (e + 1) as nat) == e + 1);
    assert(s[e + 10] == ':');
    assert(s.subrange(e + 10, e + 11) =~= seq![':']);
    assert(skip_ws(s, (e + 10) as nat) == e + 10);
    assert(s[s.len() - 1] == '}');
    assert(trim_end(s, s.len()) == s.len());
    assert(s.subrange(e + 11, s.len() - 1) =~= content);
    assert(timestamp_at(s, 13) == Some((timestamp, e as nat)));
    assert(cache_in_order(s) == Some((timestamp, content)));
}

/// Writes the wire text of an element whose content is JSON text.
pub fn encode_cache_element(element: &CacheElement<String>) -> (r: String)
    ensures
        r@ == cache_text(element.spec_timestamp() as nat, element.spec_content()@),
{
    proof {
        reveal_strlit("{\"timestamp\":");
        reveal_strlit(",\"content\":");
        reveal_strlit("}");
    }
    let mut s = String::from_str("{\"timestamp\":");
    let digits = decimal_text(element.timestamp);
    s.append(digits.as_str());
    s.append(",\"content\":");
    s.append(element.content.as_str());
    s.append("}");
    assert(s@ =~= cache_text(element.spec_timestamp() as nat, element.spec_content()@));
    s
}

fn read_timestamp(text: &str, d: usize) -> (r: Option<(u128, usize)>)
    ensures
        match r {
            Some((t, e)) => timestamp_at(text@, d as nat) == Some((t, e as nat)),
            None => timestamp_at(text@, d as nat) is None,
        },
{
    let e = digit_run_end(text, d);
    proof {
        lemma_digit_run_digits(text@, d as nat);
    }
    if e <= d {
        return None;
    }
    assert(is_decimal(text@.subrange(d as int, e as int)));
    let digits = text.substring_char(d, e);
    let timestamp = match parse_decimal(digits) {
        Some(v) => v,
        None => return None,
    };
    let canonical = decimal_text(timestamp);
    if !(canonical == digits.to_owned()) {
        return None;
    }
    Some((timestamp, e))
}

fn decode_in_order(text: &str) -> (r: Option<(u128, String)>)
    ensures
        match r {
            Some((t, c)) => cache_in_order(text@) == Some((t, c@)),
            None => cache_in_order(text@) is None,
        },
{
    let open = "{";
    let key = "\"timestamp\"";
    let colon = ":";
    let comma = ",";
    let content_key = "\"content\"";
    proof {
        reveal_strlit("{");
        reveal_strlit("\"timestamp\"");
        reveal_strlit(":");
        reveal_strlit(",");
        reveal_strlit("\"content\"");
    }
    assert(open@ =~= seq!['{']);
    assert(key@ =~= timestamp_key());
    assert(colon@ =~= seq![':']);
    assert(comma@ =~= seq![',']);
    assert(content_key@ =~= content_name());
    let n = text.unicode_len();
    let a = skip_ws_at(text, 0);
    if !matches_at(text, a, open) {
        return None;
    }
    let b = skip_ws_at(text, a + 1);
    if !matches_at(text, b, key) {
        return None;
    }
    let c = skip_ws_at(text, b + 11);
    if !matches_at(text, c, colon) {
        return None;
    }
    let d = skip_ws_at(text, c + 1);
    let (timestamp, e) = match read_timestamp(text, d) {
        Some(r) => r,
        None => return None,
    };
    let f = skip_ws_at(text, e);
    if !matches_at(text, f, comma) {
        return None;
    }
    let g = skip_ws_at(text, f + 1);
    if !matches_at(text, g, content_key) {
        return None;
    }
    let h = skip_ws_at(text, g + 9);
    if !matches_at(text, h, colon) {
        return None;
    }
    let end = trim_end_of(text);
    if end == 0 {
        return None;
    }
    let z = end - 1;
    if !(h < z && text.get_char(z) == '}') {
        return None;
    }
    Some((timestamp, text.substring_char(h + 1, z).to_owned()))
}

fn decode_content_first(text: &str) -> (r: Option<(u128, String)>)
    ensures
        match r {
            Some((t, c)) => cache_content_first(text@) == Some((t, c@)),
            None => cache_content_first(text@) is None,
        },
{
    let open = "{";
    let key = "\"timestamp\"";
    let colon = ":";
    let comma = ",";
    let content_key = "\"content\"";
    proof {
        reveal_strlit("{");
        reveal_strlit("\"timestamp\"");
        reveal_strlit(":");
        reveal_strlit(",");
        reveal_strlit("\"content\"");
    }
    assert(open@ =~= seq!['{']);
    assert(key@ =~= timestamp_key());
    assert(colon@ =~= seq![':']);
    assert(comma@ =~= seq![',']);
    assert(content_key@ =~= content_name());
    let n = text.unicode_len();
    let a = skip_ws_at(text, 0);
    if !matches_at(text, a, open) {
        return None;
    }
    let b = skip_ws_at(text, a + 1);
    if !matches_at(text, b, content_key) {
        return None;
    }
    let c = skip_ws_at(text, b + 9);
    if !matches_at(text, c, colon) {
        return None;
    }
    let d = skip_ws_at(text, c + 1);
    let v = match value_end_at(text, d) {
        Some(v) => v,
        None => return None,
    };
    let f = skip_ws_at(text, v);
    if !matches_at(text, f, comma) {
        return None;
    }
    let g = skip_ws_at(text, f + 1);
    if !matches_at(text, g, key) {
        return None;
    }
    let h = skip_ws_at(text, g + 11);
    if !matches_at(text, h, colon) {
        return None;
    }
    let k = skip_ws_at(text, h + 1);
    let (timestamp, e) = match read_timestamp(text, k) {
        Some(r) => r,
        None => return None,
    };
    let end = trim_end_of(text);
    if end == 0 {
        return None;
    }
    let z = end - 1;
    if !(skip_ws_at(text, e) == z && text.get_char(z) == '}') {
        return None;
    }
    if !(c + 1 <= v && v <= n) {
        return None;
    }
    Some((timestamp, text.substring_char(c + 1, v).to_owned()))
}

/// Reads a cache envelope back into an element whose content is the JSON
/// text of the value. Text of any other shape is `InvalidData`.
pub fn decode_cache_element(text: &str) -> (r: Result<CacheElement<String>, IpcError>)
    ensures
        match r {
            Ok(e) => cache_wire(text@) == Some((e.spec_timestamp(), e.spec_content()@)),
            Err(e) => cache_wire(text@) is None && e.spec_kind() == IpcErrorKind::InvalidData,
        },
{
    let found = match decode_in_order(text) {
        Some(r) => Some(r),
        None => decode_content_first(text),
    };
    match found {
        Some((timestamp, content)) => Ok(CacheElement::new(timestamp, content)),
        None => Err(IpcError::new(IpcErrorKind::InvalidData, "cache element is not a valid envelope")),
    }
}

/// Reads the store's reply to a field lookup: no value is `None`, not an
/// error; a value is decoded as a cache envelope.
pub fn element_from_reply(reply: Option<String>) -> (r: Result<Option<CacheElement<String>>, IpcError>)
    ensures
        reply is None ==> r matches Ok(None),
        reply matches Some(t) ==> match r {
            Ok(Some(e)) => cache_wire(t@) == Some((e.spec_timestamp(), e.spec_content()@)),
            Ok(None) => false,
            Err(e) => cache_wire(t@) is None && e.spec_kind() == IpcErrorKind::InvalidData,
        },
{
    match reply {
        None => Ok(None),
        Some(t) => {
            let e = decode_cache_element(t.as_str())?;
            Ok(Some(e))
        },
    }
}

/// Expiry in whole seconds handed to the store for a time to live of
/// `ttl_ms` milliseconds: rounded up, so that a field never expires before
/// its time to live (a time under a second does not become `0`, which would
/// expire the field at once), and clamped to the largest number the store
/// can represent.
pub fn expiry_seconds(ttl_ms: u128) -> (r: i64)
    ensures
        r == if (ttl_ms as int + 999) / 1000 <= i64::MAX {
            (ttl_ms as int + 999) / 1000
        } else {
            i64::MAX as int
        },
{
    let secs = ttl_ms / 1000 + if ttl_ms % 1000 == 0 { 0 } else { 1 };
    assert(secs as int == (ttl_ms as int + 999) / 1000);
    if secs <= i64::MAX as u128 {
        secs as i64
    } else {
        i64::MAX
    }
}

/// Pause between two lookups of a blocking cache read, in milliseconds.
pub const POLL_INTERVAL_MS: u64 = 50;

/// What a blocking cache read does after a lookup.
#[derive(Debug, Clone, Copy, PartialEq, Eq, Structural)]
pub enum PollStep {
    /// The lookup found the value: hand it out.
    Deliver,
    /// The time allowed has run out: fail with `Timeout`.
    GiveUp,
    /// Sleep for this many milliseconds, then look up again.
    Sleep(u64),
}

/// The next step of a blocking cache read, after a lookup that did or did not
/// `found` the value, `elapsed_ms` milliseconds after the read began, for a
/// read bounded by `timeout_ms` (`None`: no bound). A found value is always
/// delivered. Without a bound the read never gives up. With one, it gives up
/// once the bound has elapsed, and sleeps no further than the bound.
pub fn next_poll_step(found: bool, timeout_ms: Option<u128>, elapsed_ms: u128) -> (r: PollStep)
    ensures
        found ==> r == PollStep::Deliver,
        !found ==> match timeout_ms {
            None => r == PollStep::Sleep(POLL_INTERVAL_MS),
            Some(t) => if elapsed_ms >= t {
                r == PollStep::GiveUp
            } else if t - elapsed_ms < POLL_INTERVAL_MS {
                r == PollStep::Sleep((t - elapsed_ms) as u64)
            } else {
                r == PollStep::Sleep(POLL_INTERVAL_MS)
            },
        },
{
    if found {
        return PollStep::Deliver;
    }
    match timeout_ms {
        None => PollStep::Sleep(POLL_INTERVAL_MS),
        Some(t) => {
            if elapsed_ms >= t {
                PollStep::GiveUp
            } else if t - elapsed_ms < POLL_INTERVAL_MS as u128 {
                PollStep::Sleep((t - elapsed_ms) as u64)
            } else {
                PollStep::Sleep(POLL_INTERVAL_MS)
            }
        },
    }
}

} // verus!
