//! Automatic retention GC policy evaluation.
//!
//! Pure decision logic: given candidate graph rows and a policy, decide which
//! non-destructive retention transitions to propose. GC never proposes a
//! destructive transition (nothing past `expired_pending_review`); purging
//! remains operator-gated. Pinned and legal-held graphs are always skipped.
use vstd::prelude::*;
use crate::text::{opt_view, chars_of, str_eq, trim_chars, trim_spec};

verus! {

/// Persisted GC policy.
#[derive(Debug, Clone, PartialEq, Eq)]
pub struct GcPolicy {
    pub enabled: bool,
    pub idle_archive_days: i64,
    pub review_expire_days: i64,
    pub min_executions: i64,
    pub storage_flag_mb: i64,
    pub last_run: Option<String>,
}

impl Default for GcPolicy {
    fn default() -> (r: Self)
        ensures
            r.enabled,
            r.idle_archive_days == 30,
            r.review_expire_days == 60,
            r.min_executions == 5,
            r.storage_flag_mb == 10,
            r.last_run is None,
    {
        GcPolicy {
            enabled: true,
            idle_archive_days: 30,
            review_expire_days: 60,
            min_executions: 5,
            storage_flag_mb: 10,
            last_run: None,
        }
    }
}

/// One graph's retention-relevant facts for evaluation.
#[derive(Debug, Clone)]
pub struct GcCandidateRow {
    pub graph: String,
    pub state: String,
    pub last_execution_at: Option<String>,
    pub execution_count: i64,
    pub pinned: bool,
    pub legal_held: bool,
    pub storage_bytes: i64,
}

#[derive(Debug, Clone, PartialEq, Eq)]
pub enum GcAction {
    /// Propose `active -> archived` (idle past `idle_archive_days`).
    Archive { graph: String },
    /// Propose `archived -> expired_pending_review` (idle past
    /// `review_expire_days`, or low-value fast-track).
    Expire { graph: String },
    /// Flag for operator review only (storage above `storage_flag_mb`).
    FlagStorage { graph: String },
}

/// The mathematical form of a proposed action.
pub enum GcDecision {
    Archive(Seq<char>),
    Expire(Seq<char>),
    FlagStorage(Seq<char>),
}

impl View for GcAction {
    type V = GcDecision;

    open spec fn view(&self) -> GcDecision {
        match self {
            GcAction::Archive { graph } => GcDecision::Archive(graph@),
            GcAction::Expire { graph } => GcDecision::Expire(graph@),
            GcAction::FlagStorage { graph } => GcDecision::FlagStorage(graph@),
        }
    }
}

impl GcDecision {
    pub open spec fn graph(self) -> Seq<char> {
        match self {
            GcDecision::Archive(g) => g,
            GcDecision::Expire(g) => g,
            GcDecision::FlagStorage(g) => g,
        }
    }
}

// ── Timestamps ──────────────────────────────────────────────────────────

pub open spec fn is_digit(c: char) -> bool {
    '0' <= c && c <= '9'
}

/// The value of the decimal digit at `i`.
pub open spec fn digit_at(t: Seq<char>, i: int) -> int {
    (t[i] as u32) as int - 48
}

/// `n` decimal digits stand at `i`.
pub open spec fn digits_ok(t: Seq<char>, i: int, n: int) -> bool {
    0 <= i && i + n <= t.len() && forall|k: int| i <= k < i + n ==> is_digit(#[trigger] t[k])
}

pub open spec fn num2(t: Seq<char>, i: int) -> int {
    digit_at(t, i) * 10 + digit_at(t, i + 1)
}

pub open spec fn num4(t: Seq<char>, i: int) -> int {
    num2(t, i) * 100 + num2(t, i + 2)
}

pub open spec fn is_leap_year(y: int) -> bool {
    (y % 4 == 0 && y % 100 != 0) || y % 400 == 0
}

pub open spec fn days_in_month(y: int, m: int) -> int {
    if m == 2 {
        if is_leap_year(y) {
            29
        } else {
            28
        }
    } else if m == 4 || m == 6 || m == 9 || m == 11 {
        30
    } else {
        31
    }
}

/// Days from 1970-01-01 to the proleptic Gregorian date `y-m-d` (negative
/// before it). The year is shifted by one 400-year era (146097 days) so
/// that every division is of a non-negative number.
pub open spec fn days_from_civil(y: int, m: int, d: int) -> int {
    let yy = (if m <= 2 {
        y - 1
    } else {
        y
    }) + 400;
    let era = yy / 400;
    let yoe = yy - era * 400;
    let mp = if m > 2 {
        m - 3
    } else {
        m + 9
    };
    let doy = (153 * mp + 2) / 5 + d - 1;
    let doe = yoe * 365 + yoe / 4 - yoe / 100 + doy;
    era * 146097 + doe - 719468 - 146097
}

/// A calendar date `YYYY-MM-DD` opens the text.
pub open spec fn date_ok(t: Seq<char>) -> bool {
    &&& digits_ok(t, 0, 4)
    &&& digits_ok(t, 5, 2)
    &&& digits_ok(t, 8, 2)
    &&& t[4] == '-'
    &&& t[7] == '-'
    &&& 1 <= num2(t, 5) <= 12
    &&& 1 <= num2(t, 8) <= days_in_month(num4(t, 0), num2(t, 5))
}

/// The end of the run of digits that starts at `i`.
pub open spec fn digits_end(t: Seq<char>, i: int) -> int
    decreases t.len() - i,
{
    if 0 <= i < t.len() && is_digit(t[i]) {
        digits_end(t, i + 1)
    } else {
        i
    }
}

/// The UTC offset, in seconds east, that ends the text at `i`: nothing or
/// `Z` (UTC), or `+HH:MM` / `-HH:MM`.
pub open spec fn offset_at(t: Seq<char>, i: int) -> Option<int> {
    if i == t.len() {
        Some(0)
    } else if i + 1 == t.len() && t[i] == 'Z' {
        Some(0)
    } else if i + 6 == t.len() && (t[i] == '+' || t[i] == '-') && digits_ok(t, i + 1, 2) && t[i + 3] == ':'
        && digits_ok(t, i + 4, 2) && num2(t, i + 1) <= 23 && num2(t, i + 4) <= 59 {
        let o = num2(t, i + 1) * 3600 + num2(t, i + 4) * 60;
        Some(
            if t[i] == '+' {
                o
            } else {
                -o
            },
        )
    } else {
        None
    }
}

/// The first `k` digits of the fraction `t[i..end]`, padded with zeros,
/// as a number, after the digits `acc` already read.
pub open spec fn frac_acc(t: Seq<char>, i: int, end: int, k: nat, acc: int) -> int
    decreases k,
{
    if k == 0 {
        acc
    } else {
        frac_acc(t, i + 1, end, (k - 1) as nat, acc * 10 + if i < end {
            digit_at(t, i)
        } else {
            0
        })
    }
}

/// Seconds from the date's UTC midnight to the instant: the time of day
/// ` HH:MM:SS` or `THH:MM:SS` (midnight when the text is only a date), less
/// its UTC offset; and the nanoseconds of its fraction of a second (digits
/// past the ninth are dropped).
pub open spec fn time_of(t: Seq<char>) -> Option<(int, int)> {
    if t.len() == 10 {
        Some((0, 0))
    } else if t.len() >= 19 && (t[10] == ' ' || t[10] == 'T') && digits_ok(t, 11, 2) && t[13] == ':'
        && digits_ok(t, 14, 2) && t[16] == ':' && digits_ok(t, 17, 2) && num2(t, 11) <= 23 && num2(t, 14) <= 59
        && num2(t, 17) <= 59 {
        let secs = num2(t, 11) * 3600 + num2(t, 14) * 60 + num2(t, 17);
        let frac = t.len() > 19 && t[19] == '.' && digits_end(t, 20) > 20;
        let rest = if frac {
            digits_end(t, 20)
        } else {
            19
        };
        let nanos = if frac {
            frac_acc(t, 20, rest, 9, 0)
        } else {
            0
        };
        match offset_at(t, rest) {
            Some(o) => Some((secs - o, nanos)),
            None => None,
        }
    } else {
        None
    }
}

/// The instant a timestamp names, as whole seconds since 1970-01-01 UTC and
/// nanoseconds: SQLite's `YYYY-MM-DD HH:MM:SS` (UTC) or ISO 8601
/// `YYYY-MM-DDTHH:MM:SS[.f][Z|+HH:MM|-HH:MM]`, surrounding whitespace
/// ignored; `None` when it is neither.
pub open spec fn instant_seconds(s: Seq<char>) -> Option<(int, int)> {
    let t = trim_spec(s);
    if date_ok(t) {
        match time_of(t) {
            Some((x, n)) => Some((days_from_civil(num4(t, 0), num2(t, 5), num2(t, 8)) * 86400 + x, n)),
            None => None,
        }
    } else {
        None
    }
}

/// Whole days from `last` to `now`, floored and never negative; fully idle
/// (`i64::MAX`) when there is no timestamp or either fails to parse.
pub open spec fn idle_days_spec(last: Option<Seq<char>>, now: Seq<char>) -> int {
    match last {
        None => i64::MAX as int,
        Some(l) => match (instant_seconds(l), instant_seconds(now)) {
            (Some((a, an)), Some((b, bn))) => {
                // whole seconds from `last` to `now`, floored
                let secs = b - a - if bn < an {
                    1int
                } else {
                    0int
                };
                if secs > 0 {
                    secs / 86400
                } else {
                    0
                }
            },
            _ => i64::MAX as int,
        },
    }
}

pub open spec fn fits_i64(x: int) -> bool {
    i64::MIN <= x <= i64::MAX
}

fn digits_ok_exec(t: &Vec<char>, i: usize, n: usize) -> (r: bool)
    ensures
        r == digits_ok(t@, i as int, n as int),
{
    if i > t.len() || n > t.len() - i {
        return false;
    }
    let end = i + n;
    let mut k = i;
    while k < end
        invariant
            end == i + n,
            i <= k <= i + n,
            i + n <= t@.len(),
            forall|j: int| i <= j < k ==> is_digit(#[trigger] t@[j]),
        decreases i + n - k,
    {
        if !('0' <= t[k] && t[k] <= '9') {
            return false;
        }
        k += 1;
    }
    true
}

fn num2_exec(t: &Vec<char>, i: usize) -> (r: i64)
    requires
        digits_ok(t@, i as int, 2),
    ensures
        r == num2(t@, i as int),
        0 <= r <= 99,
{
    assert(i + 2 <= t@.len());
    assert(i + 1 < t.len());
    assert(is_digit(t@[i as int]) && is_digit(t@[i + 1]));
    let a = (t[i] as u32 - 48) as i64;
    let b = (t[i + 1] as u32 - 48) as i64;
    a * 10 + b
}

fn digits_end_exec(t: &Vec<char>, i: usize) -> (r: usize)
    requires
        i <= t.len(),
    ensures
        r == digits_end(t@, i as int),
        i <= r <= t.len(),
{
    let mut k = i;
    while k < t.len() && '0' <= t[k] && t[k] <= '9'
        invariant
            i <= k <= t@.len(),
            digits_end(t@, i as int) == digits_end(t@, k as int),
        decreases t.len() - k,
    {
        k += 1;
    }
    k
}

fn days_in_month_exec(y: i64, m: i64) -> (r: i64)
    requires
        0 <= y <= 9999,
    ensures
        r == days_in_month(y as int, m as int),
{
    if m == 2 {
        if (y % 4 == 0 && y % 100 != 0) || y % 400 == 0 {
            29
        } else {
            28
        }
    } else if m == 4 || m == 6 || m == 9 || m == 11 {
        30
    } else {
        31
    }
}

fn days_from_civil_exec(y: i64, m: i64, d: i64) -> (r: i64)
    requires
        0 <= y <= 9999,
        1 <= m <= 12,
        1 <= d <= 31,
    ensures
        r == days_from_civil(y as int, m as int, d as int),
        -1000000 <= r <= 4000000,
{
    let yy = (if m <= 2 {
        y - 1
    } else {
        y
    }) + 400;
    let era = yy / 400;
    let yoe = yy - era * 400;
    let mp = if m > 2 {
        m - 3
    } else {
        m + 9
    };
    let doy = (153 * mp + 2) / 5 + d - 1;
    let doe = yoe * 365 + yoe / 4 - yoe / 100 + doy;
    assert(0 <= yoe < 400);
    assert(0 <= era <= 25);
    assert(0 <= doy <= 400);
    era * 146097 + doe - 719468 - 146097
}

fn offset_exec(t: &Vec<char>, i: usize) -> (r: Option<i64>)
    requires
        i <= t.len(),
    ensures
        match r {
            Some(o) => offset_at(t@, i as int) == Some(o as int),
            None => offset_at(t@, i as int) is None,
        },
{
    let n = t.len();
    if i == n {
        return Some(0);
    }
    if n - i == 1 && t[i] == 'Z' {
        return Some(0);
    }
    if n - i == 6 && (t[i] == '+' || t[i] == '-') && digits_ok_exec(t, i + 1, 2) && t[i + 3] == ':'
        && digits_ok_exec(t, i + 4, 2) {
        let h = num2_exec(t, i + 1);
        let mi = num2_exec(t, i + 4);
        if h <= 23 && mi <= 59 {
            let o = h * 3600 + mi * 60;
            return Some(if t[i] == '+' { o } else { -o });
        }
    }
    None
}

pub open spec fn pow10_spec(n: nat) -> int
    decreases n,
{
    if n == 0 {
        1
    } else {
        10 * pow10_spec((n - 1) as nat)
    }
}

proof fn lemma_pow10_monotone(n: nat, m: nat)
    requires
        n <= m,
    ensures
        1 <= pow10_spec(n) <= pow10_spec(m),
    decreases m,
{
    if m > n {
        lemma_pow10_monotone(n, (m - 1) as nat);
    } else if n > 0 {
        lemma_pow10_monotone((n - 1) as nat, (n - 1) as nat);
    }
}

proof fn lemma_pow10_le(n: nat)
    requires
        n <= 8,
    ensures
        1 <= pow10_spec(n) <= 100000000,
{
    lemma_pow10_monotone(n, 8);
    reveal_with_fuel(pow10_spec, 9);
}

proof fn lemma_digits_end_digits(t: Seq<char>, i: int)
    requires
        0 <= i <= t.len(),
    ensures
        i <= digits_end(t, i) <= t.len(),
        forall|k: int| i <= k < digits_end(t, i) ==> is_digit(#[trigger] t[k]),
    decreases t.len() - i,
{
    if i < t.len() && is_digit(t[i]) {
        lemma_digits_end_digits(t, i + 1);
    }
}

fn frac_exec(t: &Vec<char>, start: usize, end: usize) -> (r: i64)
    requires
        start <= end <= t.len(),
        forall|k: int| start <= k < end ==> is_digit(#[trigger] t@[k]),
    ensures
        r == frac_acc(t@, start as int, end as int, 9, 0),
        0 <= r < 1000000000,
{
    let mut acc: i64 = 0;
    let mut i: u128 = start as u128;
    let mut k: usize = 9;
    while k > 0
        invariant
            k <= 9,
            i == start + (9 - k),
            start <= end <= t@.len(),
            forall|j: int| start <= j < end ==> is_digit(#[trigger] t@[j]),
            0 <= acc,
            acc < pow10_spec((9 - k) as nat),
            frac_acc(t@, start as int, end as int, 9, 0) == frac_acc(t@, i as int, end as int, k as nat, acc as int),
        decreases k,
    {
        let d: i64 = if i < end as u128 {
            let j = i as usize;
            assert(is_digit(t@[j as int]));
            (t[j] as u32 - 48) as i64
        } else {
            0
        };
        assert(pow10_spec((9 - k + 1) as nat) == 10 * pow10_spec((9 - k) as nat));
        assert(pow10_spec((9 - k) as nat) <= 100000000) by {
            lemma_pow10_le((9 - k) as nat);
        }
        acc = acc * 10 + d;
        i += 1;
        k -= 1;
    }
    assert(pow10_spec(9) == 1000000000) by {
        reveal_with_fuel(pow10_spec, 10);
    }
    acc
}

fn time_exec(t: &Vec<char>) -> (r: Option<(i64, i64)>)
    ensures
        match r {
            Some((x, n)) => time_of(t@) == Some((x as int, n as int)) && -86400 <= x <= 2 * 86400 && 0 <= n
                < 1000000000,
            None => time_of(t@) is None,
        },
{
    let n = t.len();
    if n == 10 {
        return Some((0, 0));
    }
    if !(n >= 19 && (t[10] == ' ' || t[10] == 'T') && digits_ok_exec(t, 11, 2) && t[13] == ':' && digits_ok_exec(t, 14, 2)
        && t[16] == ':' && digits_ok_exec(t, 17, 2)) {
        return None;
    }
    let h = num2_exec(t, 11);
    let mi = num2_exec(t, 14);
    let sec = num2_exec(t, 17);
    if !(h <= 23 && mi <= 59 && sec <= 59) {
        return None;
    }
    let secs = h * 3600 + mi * 60 + sec;
    let mut rest: usize = 19;
    let mut nanos: i64 = 0;
    if n > 19 && t[19] == '.' {
        let e = digits_end_exec(t, 20);
        if e > 20 {
            proof {
                lemma_digits_end_digits(t@, 20);
            }
            rest = e;
            nanos = frac_exec(t, 20, e);
        }
    }
    match offset_exec(t, rest) {
        Some(o) => {
            assert(-86400 < o < 86400) by {
                assert(offset_at(t@, rest as int) == Some(o as int));
            }
            Some((secs - o, nanos))
        },
        None => None,
    }
}

/// The instant of a timestamp in seconds since the epoch; see
/// `instant_seconds`.
fn parse_instant(s: &str) -> (r: Option<(i64, i64)>)
    ensures
        match r {
            Some((v, n)) => instant_seconds(s@) == Some((v as int, n as int)) && -200000000000 <= v <= 400000000000
                && 0 <= n < 1000000000,
            None => instant_seconds(s@) is None,
        },
{
    let cs = chars_of(s);
    let t = trim_chars(cs.as_slice());
    if !(digits_ok_exec(&t, 0, 4) && digits_ok_exec(&t, 5, 2) && digits_ok_exec(&t, 8, 2) && t[4] == '-' && t[7] == '-') {
        return None;
    }
    let y = num2_exec(&t, 0) * 100 + num2_exec(&t, 2);
    let m = num2_exec(&t, 5);
    let d = num2_exec(&t, 8);
    if !(1 <= m && m <= 12 && 1 <= d && d <= days_in_month_exec(y, m)) {
        return None;
    }
    match time_exec(&t) {
        Some((x, nanos)) => {
            let days = days_from_civil_exec(y, m, d);
            Some((days * 86400 + x, nanos))
        },
        None => None,
    }
}

/// Whole days from `last_execution_at` to `now`, floored and never
/// negative: each is a SQLite `YYYY-MM-DD HH:MM:SS` (UTC) or ISO 8601
/// timestamp (see `instant_seconds`). No timestamp at all, or one that does
/// not parse, counts as fully idle (`i64::MAX`).
pub fn idle_days_before(last_execution_at: Option<&str>, now: &str) -> (r: i64)
    ensures
        r == idle_days_spec(
            match last_execution_at {
                Some(l) => Some(l@),
                None => None,
            },
            now@,
        ),
        r >= 0,
{
    let last = match last_execution_at {
        Some(l) => l,
        None => return i64::MAX,
    };
    let a = parse_instant(last);
    let b = parse_instant(now);
    match (a, b) {
        (Some((a, an)), Some((b, bn))) => {
            let secs = b - a - if bn < an {
                1
            } else {
                0
            };
            if secs > 0 {
                secs / 86400
            } else {
                0
            }
        },
        _ => i64::MAX,
    }
}

// ── Decisions ───────────────────────────────────────────────────────────

/// The idle days of a candidate row at `now`.
pub open spec fn row_idle_days(row: GcCandidateRow, now: Seq<char>) -> int {
    idle_days_spec(opt_view(row.last_execution_at), now)
}

pub open spec fn is_protected(row: GcCandidateRow) -> bool {
    row.pinned || row.legal_held
}

pub open spec fn is_active_state(state: Seq<char>) -> bool {
    state == "active"@ || state == "active_phantom_contaminated"@
}

/// Storage threshold of the policy, in bytes.
pub open spec fn storage_threshold(policy: GcPolicy) -> int {
    policy.storage_flag_mb * 1024 * 1024
}

/// What the policy proposes for one row: a state transition (archive an idle
/// active graph; expire an archived graph that is idle long or low value),
/// then a storage flag, independently of the state.
pub open spec fn row_decisions(row: GcCandidateRow, policy: GcPolicy, now: Seq<char>) -> Seq<GcDecision> {
    if is_protected(row) {
        Seq::empty()
    } else {
        let idle = row_idle_days(row, now);
        let transition: Seq<GcDecision> = if is_active_state(row.state@) {
            if idle >= policy.idle_archive_days {
                seq![GcDecision::Archive(row.graph@)]
            } else {
                Seq::empty()
            }
        } else if row.state@ == "archived"@ {
            let idle_long = idle >= policy.review_expire_days;
            let low_value = row.execution_count < policy.min_executions && idle >= policy.idle_archive_days;
            if idle_long || low_value {
                seq![GcDecision::Expire(row.graph@)]
            } else {
                Seq::empty()
            }
        } else {
            Seq::empty()
        };
        if row.storage_bytes > storage_threshold(policy) {
            transition.push(GcDecision::FlagStorage(row.graph@))
        } else {
            transition
        }
    }
}

/// The decisions for a list of rows, row by row in order.
pub open spec fn gc_plan(rows: Seq<GcCandidateRow>, policy: GcPolicy, now: Seq<char>) -> Seq<GcDecision>
    decreases rows.len(),
{
    if rows.len() == 0 {
        Seq::empty()
    } else {
        gc_plan(rows.drop_last(), policy, now) + row_decisions(rows.last(), policy, now)
    }
}

/// What `gc_decisions` returns: nothing under a disabled policy.
pub open spec fn gc_decisions_spec(rows: Seq<GcCandidateRow>, policy: GcPolicy, now: Seq<char>) -> Seq<GcDecision> {
    if policy.enabled {
        gc_plan(rows, policy, now)
    } else {
        Seq::empty()
    }
}

pub open spec fn decisions_of(actions: Seq<GcAction>) -> Seq<GcDecision> {
    actions.map_values(|a: GcAction| a@)
}

/// The evaluation's arithmetic stays within `i64` on these inputs.
pub open spec fn gc_inputs_in_range(rows: Seq<GcCandidateRow>, policy: GcPolicy, now: Seq<char>) -> bool {
    policy.enabled ==> forall|i: int|
        0 <= i < rows.len() && !is_protected(#[trigger] rows[i]) ==> {
            &&& fits_i64(policy.storage_flag_mb * 1024)
            &&& fits_i64(storage_threshold(policy))
        }
}

proof fn lemma_gc_plan_prefix(rows: Seq<GcCandidateRow>, i: int, policy: GcPolicy, now: Seq<char>)
    requires
        0 <= i < rows.len(),
    ensures
        gc_plan(rows.subrange(0, i + 1), policy, now) == gc_plan(rows.subrange(0, i), policy, now)
            + row_decisions(rows[i], policy, now),
{
    assert(rows.subrange(0, i + 1).drop_last() =~= rows.subrange(0, i));
}

fn row_actions(row: &GcCandidateRow, policy: &GcPolicy, now: &str, out: &mut Vec<GcAction>)
    requires
        !is_protected(*row) ==> {
            &&& fits_i64(policy.storage_flag_mb * 1024)
            &&& fits_i64(storage_threshold(*policy))
        },
    ensures
        decisions_of(final(out)@) == decisions_of(old(out)@) + row_decisions(*row, *policy, now@),
{
    let ghost start = out@;
    if row.pinned || row.legal_held {
        assert(decisions_of(out@) =~= decisions_of(start) + row_decisions(*row, *policy, now@));
        return;
    }
    let last: Option<&str> = match &row.last_execution_at {
        Some(l) => Some(l.as_str()),
        None => None,
    };
    let idle_days = idle_days_before(last, now);
    assert(idle_days == row_idle_days(*row, now@));
    let state = row.state.as_str();
    if str_eq(state, "active") || str_eq(state, "active_phantom_contaminated") {
        if idle_days >= policy.idle_archive_days {
            out.push(GcAction::Archive { graph: row.graph.clone() });
        }
    } else if str_eq(state, "archived") {
        let idle_long = idle_days >= policy.review_expire_days;
        let low_value = row.execution_count < policy.min_executions && idle_days >= policy.idle_archive_days;
        if idle_long || low_value {
            out.push(GcAction::Expire { graph: row.graph.clone() });
        }
    }
    let ghost mid = out@;
    assert(decisions_of(mid) =~= decisions_of(start) + (if is_active_state(row.state@) {
        if idle_days >= policy.idle_archive_days {
            seq![GcDecision::Archive(row.graph@)]
        } else {
            Seq::empty()
        }
    } else if row.state@ == "archived"@ {
        if idle_days >= policy.review_expire_days || (row.execution_count < policy.min_executions
            && idle_days >= policy.idle_archive_days) {
            seq![GcDecision::Expire(row.graph@)]
        } else {
            Seq::empty()
        }
    } else {
        Seq::empty()
    }));
    if row.storage_bytes > policy.storage_flag_mb * 1024 * 1024 {
        out.push(GcAction::FlagStorage { graph: row.graph.clone() });
    }
    assert(decisions_of(out@) =~= decisions_of(start) + row_decisions(*row, *policy, now@));
}

/// Evaluate the policy against candidate rows. Pure: no I/O, no side effects.
pub fn gc_decisions(rows: &[GcCandidateRow], policy: &GcPolicy, now: &str) -> (r: Vec<GcAction>)
    requires
        gc_inputs_in_range(rows@, *policy, now@),
    ensures
        decisions_of(r@) == gc_decisions_spec(rows@, *policy, now@),
{
    let mut actions: Vec<GcAction> = Vec::new();
    if !policy.enabled {
        assert(decisions_of(actions@) =~= Seq::<GcDecision>::empty());
        return actions;
    }
    let mut i: usize = 0;
    assert(decisions_of(actions@) =~= gc_plan(rows@.subrange(0, 0), *policy, now@));
    while i < rows.len()
        invariant
            i <= rows.len(),
            policy.enabled,
            gc_inputs_in_range(rows@, *policy, now@),
            decisions_of(actions@) == gc_plan(rows@.subrange(0, i as int), *policy, now@),
        decreases rows.len() - i,
    {
        proof {
            lemma_gc_plan_prefix(rows@, i as int, *policy, now@);
        }
        row_actions(&rows[i], policy, now, &mut actions);
        i += 1;
    }
    assert(rows@.subrange(0, rows@.len() as int) =~= rows@);
    actions
}

// ── Laws ────────────────────────────────────────────────────────────────

/// `row` is a reason for proposing `d`: the row is neither pinned nor held,
/// names the graph, and meets the policy's condition for that kind of action.
pub open spec fn justifies(row: GcCandidateRow, d: GcDecision, policy: GcPolicy, now: Seq<char>) -> bool {
    let idle = row_idle_days(row, now);
    &&& !is_protected(row)
    &&& row.graph@ == d.graph()
    &&& match d {
        GcDecision::Archive(_) => is_active_state(row.state@) && idle >= policy.idle_archive_days,
        GcDecision::Expire(_) => row.state@ == "archived"@ && (idle >= policy.review_expire_days || (
        row.execution_count < policy.min_executions && idle >= policy.idle_archive_days)),
        GcDecision::FlagStorage(_) => row.storage_bytes > storage_threshold(policy),
    }
}

/// GC never proposes anything without a reason: every proposed action comes
/// from a row that is neither pinned nor legally held, archiving only an idle
/// active graph, expiring only an archived one, and flagging only storage
/// over the threshold. Nothing past `expired_pending_review` is ever proposed.
pub proof fn lemma_gc_decisions_justified(rows: Seq<GcCandidateRow>, policy: GcPolicy, now: Seq<char>)
    ensures
        forall|k: int|
            #![trigger gc_decisions_spec(rows, policy, now)[k]]
            0 <= k < gc_decisions_spec(rows, policy, now).len() ==> exists|i: int|
                0 <= i < rows.len() && justifies(
                    #[trigger] rows[i],
                    gc_decisions_spec(rows, policy, now)[k],
                    policy,
                    now,
                ),
    decreases rows.len(),
{
    if policy.enabled && rows.len() > 0 {
        let init = rows.drop_last();
        lemma_gc_decisions_justified(init, policy, now);
        let plan = gc_plan(rows, policy, now);
        let head = gc_plan(init, policy, now);
        let tail = row_decisions(rows.last(), policy, now);
        assert(plan == head + tail);
        assert forall|k: int| #![trigger plan[k]] 0 <= k < plan.len() implies exists|i: int|
            0 <= i < rows.len() && justifies(#[trigger] rows[i], plan[k], policy, now) by {
            if k < head.len() {
                assert(gc_decisions_spec(init, policy, now)[k] == head[k]);
                let i = choose|i: int| 0 <= i < init.len() && justifies(#[trigger] init[i], head[k], policy, now);
                assert(rows[i] == init[i]);
                assert(plan[k] == head[k]);
            } else {
                let last = rows.len() - 1;
                assert(rows[last] == rows.last());
                assert(plan[k] == tail[k - head.len()]);
                assert(justifies(rows[last], plan[k], policy, now));
            }
        }
    }
}

/// A disabled policy proposes nothing, whatever the rows.
pub proof fn lemma_disabled_policy_proposes_nothing(rows: Seq<GcCandidateRow>, policy: GcPolicy, now: Seq<char>)
    requires
        !policy.enabled,
    ensures
        gc_decisions_spec(rows, policy, now).len() == 0,
{
}

/// Pinned and legally held graphs are always skipped: no proposed action
/// comes from such a row.
pub proof fn lemma_protected_rows_skipped(rows: Seq<GcCandidateRow>, policy: GcPolicy, now: Seq<char>)
    requires
        forall|i: int| 0 <= i < rows.len() ==> is_protected(#[trigger] rows[i]),
    ensures
        gc_decisions_spec(rows, policy, now).len() == 0,
{
    lemma_gc_decisions_justified(rows, policy, now);
    if gc_decisions_spec(rows, policy, now).len() > 0 {
        let i = choose|i: int| 0 <= i < rows.len() && justifies(#[trigger] rows[i], gc_decisions_spec(rows, policy, now)[0], policy, now);
        assert(is_protected(rows[i]));
    }
}

pub open spec fn unprotected(row: GcCandidateRow) -> bool {
    !is_protected(row)
}

proof fn lemma_protected_row_silent(row: GcCandidateRow, policy: GcPolicy, now: Seq<char>)
    requires
        is_protected(row),
    ensures
        row_decisions(row, policy, now) == Seq::<GcDecision>::empty(),
{
}

proof fn lemma_plan_step(rows: Seq<GcCandidateRow>, policy: GcPolicy, now: Seq<char>)
    requires
        rows.len() > 0,
    ensures
        gc_plan(rows, policy, now) == gc_plan(rows.drop_last(), policy, now) + row_decisions(rows.last(), policy, now),
{
}

#[verifier::rlimit(40)]
proof fn lemma_plan_ignores_protected(rows: Seq<GcCandidateRow>, policy: GcPolicy, now: Seq<char>)
    ensures
        gc_plan(rows, policy, now) == gc_plan(rows.filter(|r: GcCandidateRow| unprotected(r)), policy, now),
    decreases rows.len(),
{
    if rows.len() > 0 {
        let pred = |r: GcCandidateRow| unprotected(r);
        let init = rows.drop_last();
        lemma_plan_ignores_protected(init, policy, now);
        let f = init.filter(pred);
        reveal_with_fuel(Seq::<GcCandidateRow>::filter, 1);
        assert(rows.filter(pred) == (if pred(rows.last()) {
            f.push(rows.last())
        } else {
            f
        }));
        lemma_plan_step(rows, policy, now);
        if pred(rows.last()) {
            let g = f.push(rows.last());
            assert(g.drop_last() =~= f);
            assert(g.last() == rows.last());
            lemma_plan_step(g, policy, now);
        } else {
            lemma_protected_row_silent(rows.last(), policy, now);
            assert(gc_plan(init, policy, now) + Seq::<GcDecision>::empty() =~= gc_plan(init, policy, now));
        }
    }
}

/// Pinned and legally held graphs are always skipped: evaluating the rows
/// gives the same proposals as evaluating only the rows that are neither
/// pinned nor held.
pub proof fn lemma_protected_rows_filtered_out(rows: Seq<GcCandidateRow>, policy: GcPolicy, now: Seq<char>)
    ensures
        gc_decisions_spec(rows, policy, now) == gc_decisions_spec(
            rows.filter(|r: GcCandidateRow| unprotected(r)),
            policy,
            now,
        ),
{
    lemma_plan_ignores_protected(rows, policy, now);
}

proof fn lemma_plan_contains_row(rows: Seq<GcCandidateRow>, i: int, d: GcDecision, policy: GcPolicy, now: Seq<char>)
    requires
        0 <= i < rows.len(),
        row_decisions(rows[i], policy, now).contains(d),
    ensures
        gc_plan(rows, policy, now).contains(d),
    decreases rows.len(),
{
    let head = gc_plan(rows.drop_last(), policy, now);
    let tail = row_decisions(rows.last(), policy, now);
    lemma_plan_step(rows, policy, now);
    if i == rows.len() - 1 {
        let k = choose|k: int| 0 <= k < tail.len() && tail[k] == d;
        assert((head + tail)[head.len() + k] == d);
    } else {
        assert(rows.drop_last()[i] == rows[i]);
        lemma_plan_contains_row(rows.drop_last(), i, d, policy, now);
        let k = choose|k: int| 0 <= k < head.len() && head[k] == d;
        assert((head + tail)[k] == d);
    }
}

/// GC misses nothing it should propose: under an enabled policy, every row
/// that is neither pinned nor legally held gets an archive proposal when it
/// is `active` or `active_phantom_contaminated` and idle at least
/// `idle_archive_days`; an expiry proposal when it is `archived` and idle at
/// least `review_expire_days`, or idle at least `idle_archive_days` with
/// fewer than `min_executions` runs; and a storage flag when it stores more
/// than `storage_flag_mb` MiB.
pub proof fn lemma_gc_decisions_complete(rows: Seq<GcCandidateRow>, policy: GcPolicy, now: Seq<char>, i: int)
    requires
        policy.enabled,
        0 <= i < rows.len(),
        !rows[i].pinned,
        !rows[i].legal_held,
    ensures
        ({
            let r = rows[i];
            (r.state@ == "active"@ || r.state@ == "active_phantom_contaminated"@) && row_idle_days(r, now)
                >= policy.idle_archive_days
        }) ==> gc_decisions_spec(rows, policy, now).contains(GcDecision::Archive(rows[i].graph@)),
        ({
            let r = rows[i];
            let idle = row_idle_days(r, now);
            r.state@ == "archived"@ && (idle >= policy.review_expire_days || (r.execution_count
                < policy.min_executions && idle >= policy.idle_archive_days))
        }) ==> gc_decisions_spec(rows, policy, now).contains(GcDecision::Expire(rows[i].graph@)),
        rows[i].storage_bytes > policy.storage_flag_mb * 1048576 ==> gc_decisions_spec(rows, policy, now).contains(
            GcDecision::FlagStorage(rows[i].graph@),
        ),
{
    let r = rows[i];
    let ds = row_decisions(r, policy, now);
    let idle = row_idle_days(r, now);
    if (r.state@ == "active"@ || r.state@ == "active_phantom_contaminated"@) && idle >= policy.idle_archive_days {
        assert(ds[0] == GcDecision::Archive(r.graph@));
        lemma_plan_contains_row(rows, i, GcDecision::Archive(r.graph@), policy, now);
    }
    if r.state@ == "archived"@ && (idle >= policy.review_expire_days || (r.execution_count < policy.min_executions
        && idle >= policy.idle_archive_days)) {
        reveal_strlit("archived");
        reveal_strlit("active");
        reveal_strlit("active_phantom_contaminated");
        assert("archived"@[1] != "active"@[1]);
        assert("archived"@ != "active"@);
        assert("archived"@.len() != "active_phantom_contaminated"@.len());
        assert(ds[0] == GcDecision::Expire(r.graph@));
        lemma_plan_contains_row(rows, i, GcDecision::Expire(r.graph@), policy, now);
    }
    if r.storage_bytes > policy.storage_flag_mb * 1048576 {
        assert(ds[ds.len() - 1] == GcDecision::FlagStorage(r.graph@));
        lemma_plan_contains_row(rows, i, GcDecision::FlagStorage(r.graph@), policy, now);
    }
}

/// Evaluating two lists of rows one after the other proposes what
/// evaluating them together does: proposals follow the rows' order and
/// depend on each row alone.
pub proof fn lemma_gc_decisions_concat(a: Seq<GcCandidateRow>, b: Seq<GcCandidateRow>, policy: GcPolicy, now: Seq<char>)
    ensures
        gc_decisions_spec(a + b, policy, now) == gc_decisions_spec(a, policy, now) + gc_decisions_spec(b, policy, now),
    decreases b.len(),
{
    if b.len() == 0 {
        assert(a + b =~= a);
        assert(gc_decisions_spec(a, policy, now) + Seq::<GcDecision>::empty() =~= gc_decisions_spec(a, policy, now));
    } else {
        lemma_gc_decisions_concat(a, b.drop_last(), policy, now);
        assert((a + b).drop_last() =~= a + b.drop_last());
        assert((a + b).last() == b.last());
        if policy.enabled {
            lemma_plan_step(a + b, policy, now);
            lemma_plan_step(b, policy, now);
        }
    }
}

/// What one unprotected row gets under an enabled policy, in order: an
/// archive proposal when it is `active` or `active_phantom_contaminated` and
/// idle at least `idle_archive_days`, or an expiry proposal when it is
/// `archived` and idle at least `review_expire_days` (or at least
/// `idle_archive_days` with fewer than `min_executions` runs), then a storage
/// flag when it stores more than `storage_flag_mb` MiB; nothing else.
pub proof fn lemma_gc_single_row(r: GcCandidateRow, policy: GcPolicy, now: Seq<char>)
    requires
        policy.enabled,
        !r.pinned,
        !r.legal_held,
    ensures
        ({
            let idle = row_idle_days(r, now);
            let archive = (r.state@ == "active"@ || r.state@ == "active_phantom_contaminated"@) && idle
                >= policy.idle_archive_days;
            let expire = r.state@ == "archived"@ && (idle >= policy.review_expire_days || (r.execution_count
                < policy.min_executions && idle >= policy.idle_archive_days));
            let flag = r.storage_bytes > policy.storage_flag_mb * 1048576;
            let first: Seq<GcDecision> = if archive {
                seq![GcDecision::Archive(r.graph@)]
            } else if expire {
                seq![GcDecision::Expire(r.graph@)]
            } else {
                Seq::empty()
            };
            gc_decisions_spec(seq![r], policy, now) == if flag {
                first.push(GcDecision::FlagStorage(r.graph@))
            } else {
                first
            }
        }),
{
    reveal_strlit("archived");
    reveal_strlit("active");
    reveal_strlit("active_phantom_contaminated");
    assert("archived"@[1] != "active"@[1]);
    assert("archived"@ != "active"@);
    assert("archived"@.len() != "active_phantom_contaminated"@.len());
    let rows = seq![r];
    assert(rows.drop_last() =~= Seq::<GcCandidateRow>::empty());
    lemma_plan_step(rows, policy, now);
    assert(Seq::<GcDecision>::empty() + row_decisions(r, policy, now) =~= row_decisions(r, policy, now));
}

proof fn lemma_frac_acc_bound(t: Seq<char>, i: int, end: int, k: nat, acc: int)
    requires
        0 <= acc,
        forall|j: int| i <= j < end ==> is_digit(#[trigger] t[j]),
    ensures
        0 <= frac_acc(t, i, end, k, acc) < (acc + 1) * pow10_spec(k),
    decreases k,
{
    if k > 0 {
        let d = if i < end {
            digit_at(t, i)
        } else {
            0
        };
        assert(0 <= d <= 9);
        lemma_frac_acc_bound(t, i + 1, end, (k - 1) as nat, acc * 10 + d);
        let p = pow10_spec((k - 1) as nat);
        lemma_pow10_monotone(0, (k - 1) as nat);
        assert((acc * 10 + d + 1) * p <= (acc + 1) * (10 * p)) by (nonlinear_arith)
            requires
                0 <= d <= 9,
                p >= 1,
                acc >= 0,
        ;
    }
}

proof fn lemma_instant_nanos(s: Seq<char>)
    ensures
        instant_seconds(s) matches Some((_, n)) ==> 0 <= n < 1000000000,
{
    let t = trim_spec(s);
    if instant_seconds(s) is Some && t.len() != 10 {
        let frac = t.len() > 19 && t[19] == '.' && digits_end(t, 20) > 20;
        if frac {
            lemma_digits_end_digits(t, 20);
            lemma_frac_acc_bound(t, 20, digits_end(t, 20), 9, 0);
            assert(pow10_spec(9) == 1000000000) by {
                reveal_with_fuel(pow10_spec, 10);
            }
        }
    }
}

/// Idle days are whole days between the two instants: when both timestamps
/// parse, the time from `last` to `now` (to the nanosecond) lasts at least
/// that many days and less than one day more; a `now` before `last` counts
/// as no idle day; a missing `last`, or one of the two that does not parse,
/// as fully idle.
pub proof fn lemma_idle_days_are_whole_days(last: Seq<char>, now: Seq<char>)
    ensures
        idle_days_spec(None, now) == i64::MAX,
        instant_seconds(last) is None || instant_seconds(now) is None ==> idle_days_spec(Some(last), now) == i64::MAX,
        instant_seconds(last) matches Some((a, an)) ==> instant_seconds(now) matches Some((b, bn)) ==> {
            let elapsed = (b - a) * 1000000000 + (bn - an);
            let idle = idle_days_spec(Some(last), now);
            &&& elapsed < 0 ==> idle == 0
            &&& elapsed >= 0 ==> 86400000000000 * idle <= elapsed < 86400000000000 * (idle + 1)
        },
{
    lemma_instant_nanos(last);
    lemma_instant_nanos(now);
    if instant_seconds(last) is Some && instant_seconds(now) is Some {
        let (a, an) = instant_seconds(last)->0;
        let (b, bn) = instant_seconds(now)->0;
        let secs = b - a - if bn < an {
            1int
        } else {
            0int
        };
        let r = bn - an + if bn < an {
            1000000000int
        } else {
            0int
        };
        assert((b - a) * 1000000000 + (bn - an) == secs * 1000000000 + r);
        assert(0 <= r < 1000000000);
        if secs > 0 {
            let idle = secs / 86400;
            assert(idle * 86400 <= secs < (idle + 1) * 86400);
        }
    }
}

/// Day numbers follow the proleptic Gregorian calendar: 1970-01-01 is day
/// 0, the next day of a month is the next day number, the first of a month
/// follows the last day of the month before (28 or 29 days in February by
/// the leap-year rule, 30 in April, June, September and November, 31
/// otherwise), and New Year follows December 31.
pub proof fn lemma_calendar(y: int, m: int, d: int)
    ensures
        days_from_civil(1970, 1, 1) == 0,
        1 <= m <= 12 && 1 <= d < days_in_month(y, m) ==> days_from_civil(y, m, d + 1) == days_from_civil(y, m, d) + 1,
        1 <= m < 12 ==> days_from_civil(y, m + 1, 1) == days_from_civil(y, m, days_in_month(y, m)) + 1,
        days_from_civil(y + 1, 1, 1) == days_from_civil(y, 12, 31) + 1,
{
    if m == 2 {
        let yy = y - 1 + 400;
        let era = yy / 400;
        let yoe = yy - era * 400;
        assert(0 <= yoe < 400);
        assert(y % 400 == (yoe + 1) % 400) by {
            assert(y == era * 400 + yoe + 1 - 400);
        }
        assert(y % 4 == (yoe + 1) % 4) by {
            assert(y == (era - 1) * 400 + yoe + 1);
            assert(((era - 1) * 400) % 4 == 0) by {
                assert((era - 1) * 400 == ((era - 1) * 100) * 4);
            }
        }
        assert(y % 100 == (yoe + 1) % 100) by {
            assert(y == (era - 1) * 400 + yoe + 1);
            assert((era - 1) * 400 == ((era - 1) * 4) * 100);
        }
        let nyy = y + 400;
        if yoe < 399 {
            assert(nyy / 400 == era);
        } else {
            assert(nyy / 400 == era + 1);
        }
    }
}

} // verus!
