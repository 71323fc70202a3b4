//! Provider-path health tracking.
//!
//! The daemon probes the provider endpoint (TCP connect + minimal HTTP GET)
//! on an interval and records consecutive failures. The state is surfaced
//! through `graph_status` so operators can distinguish "provider path is
//! down" from healthy operation. This is detection and surfacing only;
//! failover switching is deliberately out of scope.
use vstd::prelude::*;
use crate::json::{decimal, Json, JsonValue};
use crate::text::{
    chars_of, index_of_char, index_of_char_exec, last_index_of_char, last_index_of_char_exec,
    lemma_index_of_char_bounds, lemma_last_index_of_char_bounds, parse_u64, parse_u64_spec, push_all,
    slice_chars, string_from_chars, strip_prefix_all, strip_prefix_all_exec,
};

verus! {

/// What the health tracker knows.
pub struct HealthState {
    pub healthy: bool,
    pub consecutive_failures: u64,
    pub last_check_ms: u64,
    pub last_error: Option<Seq<char>>,
}

/// Health of the provider path, as last probed.
#[derive(Debug, Clone)]
pub struct ProviderHealth {
    healthy: bool,
    consecutive_failures: u64,
    last_check_ms: u64,
    last_error: Option<String>,
}

impl View for ProviderHealth {
    type V = HealthState;

    closed spec fn view(&self) -> HealthState {
        HealthState {
            healthy: self.healthy,
            consecutive_failures: self.consecutive_failures,
            last_check_ms: self.last_check_ms,
            last_error: match self.last_error {
                Some(e) => Some(e@),
                None => None,
            },
        }
    }
}

/// The state of a tracker that has not probed yet.
pub open spec fn initial_health() -> HealthState {
    HealthState { healthy: true, consecutive_failures: 0, last_check_ms: 0, last_error: None }
}

/// The state after a successful probe at `now`.
pub open spec fn after_success(s: HealthState, now: u64) -> HealthState {
    HealthState { healthy: true, consecutive_failures: 0, last_check_ms: now, last_error: None }
}

/// The state after a failed probe at `now`; the counter wraps as an atomic
/// `fetch_add` does.
pub open spec fn after_failure(s: HealthState, error: Seq<char>, now: u64) -> HealthState {
    HealthState {
        healthy: false,
        consecutive_failures: if s.consecutive_failures == u64::MAX {
            0
        } else {
            (s.consecutive_failures + 1) as u64
        },
        last_check_ms: now,
        last_error: Some(error),
    }
}

/// The JSON surface of a health state, keys in sorted order.
pub open spec fn health_json(s: HealthState) -> Json {
    Json::Object(
        seq![
            ("consecutive_failures"@, Json::Number(decimal(s.consecutive_failures as nat))),
            ("failover"@, Json::Str("not_configured_v1"@)),
            ("healthy"@, Json::Bool(s.healthy)),
            ("last_check_ms"@, Json::Number(decimal(s.last_check_ms as nat))),
            ("last_error"@, match s.last_error {
                Some(e) => Json::Str(e),
                None => Json::Null,
            }),
            ("probe"@, Json::Str("tcp_connect_plus_http_get"@)),
        ],
    )
}

/// Milliseconds since the Unix epoch by the system clock (`SystemTime::now`),
/// 0 when the clock is before the epoch. Nothing is stated of the value: it
/// is the time.
#[verifier::external_body]
fn now_ms() -> u64 {
    std::time::SystemTime::now().duration_since(std::time::UNIX_EPOCH).map(|d| d.as_millis() as u64).unwrap_or(0)
}

impl Default for ProviderHealth {
    fn default() -> (r: Self)
        ensures
            r@ == initial_health(),
    {
        Self::new()
    }
}

impl ProviderHealth {
    pub fn new() -> (r: Self)
        ensures
            r@ == initial_health(),
    {
        ProviderHealth { healthy: true, consecutive_failures: 0, last_check_ms: 0, last_error: None }
    }

    /// Records a successful probe observed at `now`.
    pub fn record_success_at(&mut self, now: u64)
        ensures
            final(self)@ == after_success(old(self)@, now),
    {
        self.healthy = true;
        self.consecutive_failures = 0;
        self.last_check_ms = now;
        self.last_error = None;
    }

    /// Records a successful probe now.
    pub fn record_success(&mut self)
        ensures
            exists|now: u64| final(self)@ == after_success(old(self)@, now),
    {
        let now = now_ms();
        self.record_success_at(now);
    }

    /// Records a failed probe observed at `now`.
    pub fn record_failure_at(&mut self, error: &str, now: u64)
        ensures
            final(self)@ == after_failure(old(self)@, error@, now),
    {
        self.healthy = false;
        self.consecutive_failures = self.consecutive_failures.wrapping_add(1);
        self.last_check_ms = now;
        self.last_error = Some(error.to_owned());
    }

    /// Records a failed probe now.
    pub fn record_failure(&mut self, error: &str)
        ensures
            exists|now: u64| final(self)@ == after_failure(old(self)@, error@, now),
    {
        let now = now_ms();
        self.record_failure_at(error, now);
    }

    /// JSON surface for `graph_status`.
    pub fn as_json(&self) -> (r: JsonValue)
        ensures
            r@ == health_json(self@),
    {
        let last_error = match &self.last_error {
            Some(e) => JsonValue::Str(e.clone()),
            None => JsonValue::Null,
        };
        assert(last_error@ == health_json(self@)->Object_0[4].1);
        let healthy = JsonValue::Bool(self.healthy);
        assert(healthy@ == Json::Bool(self.healthy));
        let r = JsonValue::Object(
            vec![
                ("consecutive_failures".to_owned(), JsonValue::number_u64(self.consecutive_failures)),
                ("failover".to_owned(), JsonValue::string("not_configured_v1")),
                ("healthy".to_owned(), healthy),
                ("last_check_ms".to_owned(), JsonValue::number_u64(self.last_check_ms)),
                ("last_error".to_owned(), last_error),
                ("probe".to_owned(), JsonValue::string("tcp_connect_plus_http_get")),
            ],
        );
        assert(r@->Object_0 =~= health_json(self@)->Object_0);
        r
    }
}

/// `n` failed probes in a row, all at `now` with the same error.
pub open spec fn fail_times(s: HealthState, n: nat, error: Seq<char>, now: u64) -> HealthState
    decreases n,
{
    if n == 0 {
        s
    } else {
        after_failure(fail_times(s, (n - 1) as nat, error, now), error, now)
    }
}

/// Consecutive failures are counted one by one from a fresh tracker, and a
/// success afterwards reports the path healthy again with the count reset
/// and no error.
pub proof fn lemma_failures_counted_then_reset(n: nat, error: Seq<char>, now: u64, later: u64)
    requires
        1 <= n <= u64::MAX,
    ensures
        fail_times(initial_health(), n, error, now).consecutive_failures == n,
        !fail_times(initial_health(), n, error, now).healthy,
        fail_times(initial_health(), n, error, now).last_error == Some(error),
        after_success(fail_times(initial_health(), n, error, now), later) == (HealthState {
            healthy: true,
            consecutive_failures: 0,
            last_check_ms: later,
            last_error: None,
        }),
    decreases n,
{
    if n > 1 {
        lemma_failures_counted_then_reset((n - 1) as nat, error, now, later);
    } else {
        assert(fail_times(initial_health(), 0, error, now) == initial_health());
    }
}

// ── Provider address ────────────────────────────────────────────────────

/// `str::parse::<u16>()`.
pub open spec fn parse_u16_spec(s: Seq<char>) -> Option<u16> {
    match parse_u64_spec(s) {
        Some(v) => if v <= u16::MAX {
            Some(v as u16)
        } else {
            None
        },
        None => None,
    }
}

/// The authority of a base URL: the scheme prefixes stripped, up to the
/// first `/`.
pub open spec fn authority_of(base_url: Seq<char>) -> Seq<char> {
    let stripped = strip_prefix_all(strip_prefix_all(base_url, "http://"@), "https://"@);
    stripped.subrange(0, index_of_char(stripped, '/'))
}

/// Host and port of a base URL: split at the last `:` of the authority,
/// port 80 when there is none; an error when the port does not parse.
pub open spec fn host_port_spec(base_url: Seq<char>) -> Result<(Seq<char>, u16), Seq<char>> {
    let authority = authority_of(base_url);
    let k = last_index_of_char(authority, ':');
    if k >= 0 {
        match parse_u16_spec(authority.subrange(k + 1, authority.len() as int)) {
            Some(port) => Ok((authority.subrange(0, k), port)),
            None => Err("invalid port in "@ + authority),
        }
    } else {
        Ok((authority, 80))
    }
}

/// Splits a provider base URL into host and port.
pub fn parse_host_port(base_url: &str) -> (r: Result<(String, u16), String>)
    ensures
        match r {
            Ok((h, p)) => host_port_spec(base_url@) == Ok::<(Seq<char>, u16), Seq<char>>((h@, p)),
            Err(e) => host_port_spec(base_url@) == Err::<(Seq<char>, u16), Seq<char>>(e@),
        },
{
    let url = chars_of(base_url);
    let http = chars_of("http://");
    let https = chars_of("https://");
    let s1 = strip_prefix_all_exec(url.as_slice(), http.as_slice());
    let stripped = strip_prefix_all_exec(s1.as_slice(), https.as_slice());
    let slash = index_of_char_exec(stripped.as_slice(), '/');
    let authority = slice_chars(stripped.as_slice(), 0, slash);
    proof {
        lemma_index_of_char_bounds(stripped@, '/');
        lemma_last_index_of_char_bounds(authority@, ':');
    }
    match last_index_of_char_exec(authority.as_slice(), ':') {
        Some(k) => {
            let port_text = slice_chars(authority.as_slice(), k + 1, authority.len());
            match parse_u64(port_text.as_slice()) {
                Some(v) => {
                    if v <= 65535 {
                        let host = string_from_chars(slice_chars(authority.as_slice(), 0, k).as_slice());
                        Ok((host, v as u16))
                    } else {
                        let mut e = "invalid port in ".to_owned();
                        let a = string_from_chars(authority.as_slice());
                        push_all(&mut e, a.as_str());
                        Err(e)
                    }
                },
                None => {
                    let mut e = "invalid port in ".to_owned();
                    let a = string_from_chars(authority.as_slice());
                    push_all(&mut e, a.as_str());
                    Err(e)
                },
            }
        },
        None => Ok((string_from_chars(authority.as_slice()), 80)),
    }
}

} // verus!
