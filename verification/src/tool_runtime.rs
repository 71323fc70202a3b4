//! Signed tool leases, call reservations and receipt chains.
//!
//! A lease grants a graph node a bounded set of tools and effects with call
//! budgets and depth limits. It is signed (HMAC-SHA256 over its canonical
//! JSON), checked against the run it is bound to, and every tool call is
//! reserved before execution: the reservation yields a signed intent and a
//! re-signed lease whose counters moved by exactly one call. A receipt
//! completes an intent and is chained to it by digest and signature.
use vstd::prelude::*;
use vstd::utf8::encode_utf8;
use crate::crypto::{digest, digest_text, hex_text, sha256, sha256_digest, canonical_bytes, push_hex, sign, signature_text};
use crate::json::{decimal, Json, JsonValue};
use crate::text::{lemma_differ_at, opt_view, ascii_lower, ascii_lower_exec, chars_of, contains, contains_exec, ends_with, ends_with_exec, is_blank, is_blank_str, starts_with, starts_with_exec, str_eq};

verus! {

pub const TOOL_LEASE_PROTOCOL: &'static str = "agent_graph.tool_lease.v1";

pub const TOOL_INTENT_PROTOCOL: &'static str = "agent_graph.tool_intent.v1";

pub const TOOL_RECEIPT_PROTOCOL: &'static str = "agent_graph.tool_receipt.v1";

pub const MAX_RECEIPT_SUMMARY_BYTES: usize = 4096;

/// What a tool call can do to the world.
#[derive(Debug, Clone, Copy, PartialEq, Eq, Structural)]
pub enum ToolEffect {
    ReadOnly,
    LocalMutation,
    ExternalEffect,
    AuthorityChange,
    RecursiveOrchestration,
}

/// Whether an effect is recursive orchestration.
pub fn is_recursive(effect: ToolEffect) -> (r: bool)
    ensures
        r == (effect == ToolEffect::RecursiveOrchestration),
{
    effect == ToolEffect::RecursiveOrchestration
}

/// Calls made so far under a lease.
#[derive(Debug, Clone, Copy, PartialEq, Eq, Structural)]
pub struct ToolCounters {
    pub tool_calls: u64,
    pub recursive_calls: u64,
    pub children: u64,
}

impl Default for ToolCounters {
    fn default() -> (r: Self)
        ensures
            r.tool_calls == 0 && r.recursive_calls == 0 && r.children == 0,
    {
        ToolCounters { tool_calls: 0, recursive_calls: 0, children: 0 }
    }
}

/// A UTC instant: whole seconds since the Unix epoch and the nanoseconds
/// within that second. Instants are ordered by seconds, then nanoseconds.
#[derive(Debug, Clone, Copy, PartialEq, Eq, Structural)]
pub struct UtcTime {
    pub secs: i64,
    pub nanos: u32,
}

pub open spec fn time_lt(a: UtcTime, b: UtcTime) -> bool {
    a.secs < b.secs || (a.secs == b.secs && a.nanos < b.nanos)
}

impl UtcTime {
    pub fn before(&self, other: &UtcTime) -> (r: bool)
        ensures
            r == time_lt(*self, *other),
    {
        self.secs < other.secs || (self.secs == other.secs && self.nanos < other.nanos)
    }
}

#[derive(Debug, Clone, PartialEq, Eq)]
pub struct ToolLease {
    pub protocol: String,
    pub lease_id: String,
    pub lineage_id: String,
    pub graph_id: String,
    pub graph_version: String,
    pub run_id: String,
    pub node_id: String,
    pub issued_at: UtcTime,
    pub expires_at: UtcTime,
    pub tool_allowlist: Vec<String>,
    pub effect_allowlist: Vec<ToolEffect>,
    pub max_tool_calls: u64,
    pub max_recursive_calls: u64,
    pub max_agent_depth: u64,
    pub max_graph_depth: u64,
    pub max_children: u64,
    pub agent_depth: u64,
    pub graph_depth: u64,
    pub active_stack: Vec<String>,
    pub counters: ToolCounters,
    pub parent_receipt_digest: Option<String>,
}

#[derive(Debug, Clone, PartialEq, Eq)]
pub struct SignedToolLease {
    pub lease: ToolLease,
    pub signature: String,
}

/// The run a lease must be used in.
#[derive(Debug, Clone, Copy)]
pub struct LeaseBinding<'a> {
    pub graph_id: &'a str,
    pub graph_version: &'a str,
    pub run_id: &'a str,
    pub node_id: &'a str,
}

/// A requested tool call.
pub struct ToolInvocation {
    pub graph_id: String,
    pub graph_version: String,
    pub run_id: String,
    pub node_id: String,
    pub attempt: u64,
    pub tool_name: String,
    pub arguments: JsonValue,
    pub effect: ToolEffect,
    pub recursion_identity: Option<String>,
    pub parent_receipt_digest: Option<String>,
}

/// A reserved, signed call that has not run yet.
#[derive(Debug, Clone, PartialEq, Eq)]
pub struct ToolCallIntent {
    pub protocol: String,
    pub call_id: String,
    pub lease_id: String,
    pub lease_digest: String,
    pub lineage_id: String,
    pub graph_id: String,
    pub graph_version: String,
    pub run_id: String,
    pub node_id: String,
    pub attempt: u64,
    pub tool_name: String,
    pub arguments_digest: String,
    pub effect: ToolEffect,
    pub parent_receipt_digest: Option<String>,
    pub reserved_at: UtcTime,
    pub signature: String,
}

#[derive(Debug, Clone, Copy, PartialEq, Eq, Structural)]
pub enum ReceiptOutcome {
    Succeeded,
    Failed,
    Blocked,
    Cancelled,
    Indeterminate,
}

/// The signed record of a completed call.
#[derive(Debug, Clone, PartialEq, Eq)]
pub struct ToolCallReceipt {
    pub protocol: String,
    pub call_id: String,
    pub intent_digest: String,
    pub lineage_id: String,
    pub outcome: ReceiptOutcome,
    pub result_digest: String,
    pub redacted_summary: String,
    pub parent_receipt_digest: Option<String>,
    pub completed_at: UtcTime,
    pub signature: String,
}

#[derive(Debug, Clone, PartialEq, Eq)]
pub struct CallReservation {
    pub intent: ToolCallIntent,
    pub updated_lease: SignedToolLease,
}

#[derive(Debug, Clone, Copy, PartialEq, Eq, Structural)]
pub enum ToolPolicyError {
    LeaseProtocolUnsupported,
    LeaseIdentityInvalid,
    LeaseSignatureRequired,
    LeaseSignatureInvalid,
    LeaseExpired,
    LeaseNotYetValid,
    LeaseBindingMismatch,
    LeaseScopeInvalid,
    ToolNotGranted,
    EffectNotGranted,
    EffectClassificationMismatch,
    ToolBudgetExhausted,
    RecursiveBudgetExhausted,
    ChildBudgetExhausted,
    AgentDepthExceeded,
    GraphDepthExceeded,
    RecursionCycleDetected,
    InvocationInvalid,
    IntentSignatureInvalid,
    ReceiptSignatureInvalid,
    ReceiptIntentMismatch,
    ReceiptChainMismatch,
    ReceiptSummaryTooLarge,
    SerializationFailed,
}

// ── Canonical JSON forms ────────────────────────────────────────────────

pub open spec fn effect_name(e: ToolEffect) -> Seq<char> {
    match e {
        ToolEffect::ReadOnly => "read_only"@,
        ToolEffect::LocalMutation => "local_mutation"@,
        ToolEffect::ExternalEffect => "external_effect"@,
        ToolEffect::AuthorityChange => "authority_change"@,
        ToolEffect::RecursiveOrchestration => "recursive_orchestration"@,
    }
}

pub open spec fn outcome_name(o: ReceiptOutcome) -> Seq<char> {
    match o {
        ReceiptOutcome::Succeeded => "succeeded"@,
        ReceiptOutcome::Failed => "failed"@,
        ReceiptOutcome::Blocked => "blocked"@,
        ReceiptOutcome::Cancelled => "cancelled"@,
        ReceiptOutcome::Indeterminate => "indeterminate"@,
    }
}

impl ToolEffect {
    /// The snake_case name of the effect.
    pub fn as_str(&self) -> (r: &'static str)
        ensures
            r@ == effect_name(*self),
    {
        match self {
            ToolEffect::ReadOnly => "read_only",
            ToolEffect::LocalMutation => "local_mutation",
            ToolEffect::ExternalEffect => "external_effect",
            ToolEffect::AuthorityChange => "authority_change",
            ToolEffect::RecursiveOrchestration => "recursive_orchestration",
        }
    }
}

impl ReceiptOutcome {
    /// The snake_case name of the outcome.
    pub fn as_str(&self) -> (r: &'static str)
        ensures
            r@ == outcome_name(*self),
    {
        match self {
            ReceiptOutcome::Succeeded => "succeeded",
            ReceiptOutcome::Failed => "failed",
            ReceiptOutcome::Blocked => "blocked",
            ReceiptOutcome::Cancelled => "cancelled",
            ReceiptOutcome::Indeterminate => "indeterminate",
        }
    }
}

pub open spec fn u64_json(n: u64) -> Json {
    Json::Number(decimal(n as nat))
}

pub open spec fn str_json(s: String) -> Json {
    Json::Str(s@)
}

pub open spec fn opt_str_json(o: Option<String>) -> Json {
    match o {
        Some(s) => Json::Str(s@),
        None => Json::Null,
    }
}

pub open spec fn strs_json(v: Vec<String>) -> Json {
    Json::Array(Seq::new(v.len() as nat, |i: int| Json::Str(v@[i]@)))
}

pub open spec fn effects_json(v: Vec<ToolEffect>) -> Json {
    Json::Array(Seq::new(v.len() as nat, |i: int| Json::Str(effect_name(v@[i]))))
}

/// chrono's serialized text of the UTC instant `secs` seconds and `nanos`
/// nanoseconds after the epoch: RFC 3339 with `Z` and as many fraction
/// digits (none, 3, 6 or 9) as the nanoseconds need; `None` when chrono
/// cannot represent the instant.
pub uninterp spec fn chrono_utc_text(secs: i64, nanos: u32) -> Option<Seq<char>>;

/// `DateTime::<Utc>::from_timestamp(secs, nanos)` rendered as chrono's
/// `Serialize` renders it (`to_rfc3339_opts(SecondsFormat::AutoSi, true)`).
/// The text is named `chrono_utc_text`, a function of the two numbers.
#[verifier::external_body]
fn utc_serde_text(secs: i64, nanos: u32) -> (r: Option<String>)
    ensures
        opt_view(r) == chrono_utc_text(secs, nanos),
{
    match chrono::DateTime::from_timestamp(secs, nanos) {
        Some(d) => Some(d.to_rfc3339_opts(chrono::SecondsFormat::AutoSi, true)),
        None => None,
    }
}

/// A time as signed and digested: the RFC 3339 string chrono serializes it
/// as; an instant chrono cannot represent is written as `null`.
pub open spec fn time_json(t: UtcTime) -> Json {
    match chrono_utc_text(t.secs, t.nanos) {
        Some(text) => Json::Str(text),
        None => Json::Null,
    }
}

pub open spec fn counters_json(c: ToolCounters) -> Json {
    Json::Object(
        seq![
            ("children"@, u64_json(c.children)),
            ("recursive_calls"@, u64_json(c.recursive_calls)),
            ("tool_calls"@, u64_json(c.tool_calls)),
        ],
    )
}

/// The canonical JSON object of a lease (keys in sorted order).
pub open spec fn lease_json(l: ToolLease) -> Json {
    Json::Object(
        seq![
            ("active_stack"@, strs_json(l.active_stack)),
            ("agent_depth"@, u64_json(l.agent_depth)),
            ("counters"@, counters_json(l.counters)),
            ("effect_allowlist"@, effects_json(l.effect_allowlist)),
            ("expires_at"@, time_json(l.expires_at)),
            ("graph_depth"@, u64_json(l.graph_depth)),
            ("graph_id"@, str_json(l.graph_id)),
            ("graph_version"@, str_json(l.graph_version)),
            ("issued_at"@, time_json(l.issued_at)),
            ("lease_id"@, str_json(l.lease_id)),
            ("lineage_id"@, str_json(l.lineage_id)),
            ("max_agent_depth"@, u64_json(l.max_agent_depth)),
            ("max_children"@, u64_json(l.max_children)),
            ("max_graph_depth"@, u64_json(l.max_graph_depth)),
            ("max_recursive_calls"@, u64_json(l.max_recursive_calls)),
            ("max_tool_calls"@, u64_json(l.max_tool_calls)),
            ("node_id"@, str_json(l.node_id)),
            ("parent_receipt_digest"@, opt_str_json(l.parent_receipt_digest)),
            ("protocol"@, str_json(l.protocol)),
            ("run_id"@, str_json(l.run_id)),
            ("tool_allowlist"@, strs_json(l.tool_allowlist)),
        ],
    )
}

/// The signature a lease carries when signed with `key`.
pub open spec fn lease_signature(l: ToolLease, key: Seq<u8>) -> Seq<char> {
    signature_text(lease_json(l), key)
}

/// The canonical JSON object of an intent, with `sig` in place of its
/// signature.
pub open spec fn intent_json(i: ToolCallIntent, sig: Seq<char>) -> Json {
    Json::Object(
        seq![
            ("arguments_digest"@, str_json(i.arguments_digest)),
            ("attempt"@, u64_json(i.attempt)),
            ("call_id"@, str_json(i.call_id)),
            ("effect"@, Json::Str(effect_name(i.effect))),
            ("graph_id"@, str_json(i.graph_id)),
            ("graph_version"@, str_json(i.graph_version)),
            ("lease_digest"@, str_json(i.lease_digest)),
            ("lease_id"@, str_json(i.lease_id)),
            ("lineage_id"@, str_json(i.lineage_id)),
            ("node_id"@, str_json(i.node_id)),
            ("parent_receipt_digest"@, opt_str_json(i.parent_receipt_digest)),
            ("protocol"@, str_json(i.protocol)),
            ("reserved_at"@, time_json(i.reserved_at)),
            ("run_id"@, str_json(i.run_id)),
            ("signature"@, Json::Str(sig)),
            ("tool_name"@, str_json(i.tool_name)),
        ],
    )
}

/// The signature an intent carries: over its canonical form with an empty
/// signature field.
pub open spec fn intent_signature(i: ToolCallIntent, key: Seq<u8>) -> Seq<char> {
    signature_text(intent_json(i, Seq::empty()), key)
}

/// The digest of an intent as a receipt refers to it (signature included).
pub open spec fn intent_digest(i: ToolCallIntent) -> Seq<char> {
    digest_text(intent_json(i, i.signature@))
}

/// The canonical JSON object of a receipt, with `sig` in place of its
/// signature.
pub open spec fn receipt_json(r: ToolCallReceipt, sig: Seq<char>) -> Json {
    Json::Object(
        seq![
            ("call_id"@, str_json(r.call_id)),
            ("completed_at"@, time_json(r.completed_at)),
            ("intent_digest"@, str_json(r.intent_digest)),
            ("lineage_id"@, str_json(r.lineage_id)),
            ("outcome"@, Json::Str(outcome_name(r.outcome))),
            ("parent_receipt_digest"@, opt_str_json(r.parent_receipt_digest)),
            ("protocol"@, str_json(r.protocol)),
            ("redacted_summary"@, str_json(r.redacted_summary)),
            ("result_digest"@, str_json(r.result_digest)),
            ("signature"@, Json::Str(sig)),
        ],
    )
}

pub open spec fn receipt_signature(r: ToolCallReceipt, key: Seq<u8>) -> Seq<char> {
    signature_text(receipt_json(r, Seq::empty()), key)
}

fn u64_value(n: u64) -> (r: JsonValue)
    ensures
        r@ == u64_json(n),
{
    JsonValue::number_u64(n)
}

fn str_value(s: &String) -> (r: JsonValue)
    ensures
        r@ == str_json(*s),
{
    JsonValue::Str(s.clone())
}

fn opt_str_value(o: &Option<String>) -> (r: JsonValue)
    ensures
        r@ == opt_str_json(*o),
{
    match o {
        Some(s) => JsonValue::Str(s.clone()),
        None => JsonValue::Null,
    }
}

fn strs_value(v: &Vec<String>) -> (r: JsonValue)
    ensures
        r@ == strs_json(*v),
{
    let mut out: Vec<JsonValue> = Vec::new();
    let mut i: usize = 0;
    while i < v.len()
        invariant
            i <= v.len(),
            out.len() == i,
            forall|j: int| 0 <= j < i ==> #[trigger] out[j]@ == Json::Str(v@[j]@),
        decreases v.len() - i,
    {
        out.push(JsonValue::Str(v[i].clone()));
        i += 1;
    }
    let r = JsonValue::Array(out);
    assert forall|j: int| 0 <= j < v.len() implies r@->Array_0[j] == strs_json(*v)->Array_0[j] by {
        assert(out[j]@ == Json::Str(v@[j]@));
    }
    assert(r@->Array_0 =~= strs_json(*v)->Array_0);
    r
}

fn effects_value(v: &Vec<ToolEffect>) -> (r: JsonValue)
    ensures
        r@ == effects_json(*v),
{
    let mut out: Vec<JsonValue> = Vec::new();
    let mut i: usize = 0;
    while i < v.len()
        invariant
            i <= v.len(),
            out.len() == i,
            forall|j: int| 0 <= j < i ==> #[trigger] out[j]@ == Json::Str(effect_name(v@[j])),
        decreases v.len() - i,
    {
        out.push(JsonValue::string(v[i].as_str()));
        i += 1;
    }
    let r = JsonValue::Array(out);
    assert forall|j: int| 0 <= j < v.len() implies r@->Array_0[j] == effects_json(*v)->Array_0[j] by {
        assert(out[j]@ == Json::Str(effect_name(v@[j])));
    }
    assert(r@->Array_0 =~= effects_json(*v)->Array_0);
    r
}

fn time_value(t: &UtcTime) -> (r: JsonValue)
    ensures
        r@ == time_json(*t),
{
    let r = match utc_serde_text(t.secs, t.nanos) {
        Some(text) => JsonValue::Str(text),
        None => JsonValue::Null,
    };
    r
}

fn counters_value(c: &ToolCounters) -> (r: JsonValue)
    ensures
        r@ == counters_json(*c),
{
    let r = JsonValue::Object(
        vec![
            ("children".to_owned(), u64_value(c.children)),
            ("recursive_calls".to_owned(), u64_value(c.recursive_calls)),
            ("tool_calls".to_owned(), u64_value(c.tool_calls)),
        ],
    );
    assert(r@->Object_0 =~= counters_json(*c)->Object_0);
    r
}

/// The canonical JSON object of a lease.
pub fn lease_value(l: &ToolLease) -> (r: JsonValue)
    ensures
        r@ == lease_json(*l),
{
    let r = JsonValue::Object(
        vec![
            ("active_stack".to_owned(), strs_value(&l.active_stack)),
            ("agent_depth".to_owned(), u64_value(l.agent_depth)),
            ("counters".to_owned(), counters_value(&l.counters)),
            ("effect_allowlist".to_owned(), effects_value(&l.effect_allowlist)),
            ("expires_at".to_owned(), time_value(&l.expires_at)),
            ("graph_depth".to_owned(), u64_value(l.graph_depth)),
            ("graph_id".to_owned(), str_value(&l.graph_id)),
            ("graph_version".to_owned(), str_value(&l.graph_version)),
            ("issued_at".to_owned(), time_value(&l.issued_at)),
            ("lease_id".to_owned(), str_value(&l.lease_id)),
            ("lineage_id".to_owned(), str_value(&l.lineage_id)),
            ("max_agent_depth".to_owned(), u64_value(l.max_agent_depth)),
            ("max_children".to_owned(), u64_value(l.max_children)),
            ("max_graph_depth".to_owned(), u64_value(l.max_graph_depth)),
            ("max_recursive_calls".to_owned(), u64_value(l.max_recursive_calls)),
            ("max_tool_calls".to_owned(), u64_value(l.max_tool_calls)),
            ("node_id".to_owned(), str_value(&l.node_id)),
            ("parent_receipt_digest".to_owned(), opt_str_value(&l.parent_receipt_digest)),
            ("protocol".to_owned(), str_value(&l.protocol)),
            ("run_id".to_owned(), str_value(&l.run_id)),
            ("tool_allowlist".to_owned(), strs_value(&l.tool_allowlist)),
        ],
    );
    assert(r@->Object_0 =~= lease_json(*l)->Object_0);
    r
}

pub open spec fn strs_view(v: Vec<String>) -> Seq<Seq<char>> {
    Seq::new(v.len() as nat, |i: int| v@[i]@)
}

/// Two leases grant the same scope: every field but the counters agrees.
pub open spec fn same_scope(a: ToolLease, b: ToolLease) -> bool {
    &&& a.protocol@ == b.protocol@
    &&& a.lease_id@ == b.lease_id@
    &&& a.lineage_id@ == b.lineage_id@
    &&& a.graph_id@ == b.graph_id@
    &&& a.graph_version@ == b.graph_version@
    &&& a.run_id@ == b.run_id@
    &&& a.node_id@ == b.node_id@
    &&& a.issued_at == b.issued_at
    &&& a.expires_at == b.expires_at
    &&& strs_view(a.tool_allowlist) == strs_view(b.tool_allowlist)
    &&& a.effect_allowlist@ == b.effect_allowlist@
    &&& a.max_tool_calls == b.max_tool_calls
    &&& a.max_recursive_calls == b.max_recursive_calls
    &&& a.max_agent_depth == b.max_agent_depth
    &&& a.max_graph_depth == b.max_graph_depth
    &&& a.max_children == b.max_children
    &&& a.agent_depth == b.agent_depth
    &&& a.graph_depth == b.graph_depth
    &&& strs_view(a.active_stack) == strs_view(b.active_stack)
    &&& opt_view(a.parent_receipt_digest) == opt_view(b.parent_receipt_digest)
}

/// The first shape problem of a lease, in the order the checks run.
pub open spec fn lease_shape_error(l: ToolLease) -> Option<ToolPolicyError> {
    if l.protocol@ != TOOL_LEASE_PROTOCOL@ {
        Some(ToolPolicyError::LeaseProtocolUnsupported)
    } else if is_blank(l.lease_id@) || is_blank(l.lineage_id@) || is_blank(l.graph_id@)
        || is_blank(l.graph_version@) || is_blank(l.run_id@) || is_blank(l.node_id@) {
        Some(ToolPolicyError::LeaseIdentityInvalid)
    } else if !time_lt(l.issued_at, l.expires_at) || l.tool_allowlist.len() == 0
        || l.effect_allowlist.len() == 0 || l.max_tool_calls == 0 {
        Some(ToolPolicyError::LeaseScopeInvalid)
    } else if l.agent_depth > l.max_agent_depth {
        Some(ToolPolicyError::AgentDepthExceeded)
    } else if l.graph_depth > l.max_graph_depth {
        Some(ToolPolicyError::GraphDepthExceeded)
    } else if l.counters.tool_calls > l.max_tool_calls || l.counters.recursive_calls
        > l.max_recursive_calls || l.counters.children > l.max_children {
        Some(ToolPolicyError::LeaseScopeInvalid)
    } else {
        None
    }
}

fn validate_lease_shape(l: &ToolLease) -> (r: Result<(), ToolPolicyError>)
    ensures
        match r {
            Ok(()) => lease_shape_error(*l) is None,
            Err(e) => lease_shape_error(*l) == Some(e),
        },
{
    if !str_eq(l.protocol.as_str(), TOOL_LEASE_PROTOCOL) {
        return Err(ToolPolicyError::LeaseProtocolUnsupported);
    }
    if is_blank_str(l.lease_id.as_str()) || is_blank_str(l.lineage_id.as_str()) || is_blank_str(
        l.graph_id.as_str(),
    ) || is_blank_str(l.graph_version.as_str()) || is_blank_str(l.run_id.as_str())
        || is_blank_str(l.node_id.as_str()) {
        return Err(ToolPolicyError::LeaseIdentityInvalid);
    }
    if !l.issued_at.before(&l.expires_at) || l.tool_allowlist.len() == 0
        || l.effect_allowlist.len() == 0 || l.max_tool_calls == 0 {
        return Err(ToolPolicyError::LeaseScopeInvalid);
    }
    if l.agent_depth > l.max_agent_depth {
        return Err(ToolPolicyError::AgentDepthExceeded);
    }
    if l.graph_depth > l.max_graph_depth {
        return Err(ToolPolicyError::GraphDepthExceeded);
    }
    if l.counters.tool_calls > l.max_tool_calls || l.counters.recursive_calls
        > l.max_recursive_calls || l.counters.children > l.max_children {
        return Err(ToolPolicyError::LeaseScopeInvalid);
    }
    Ok(())
}

/// Signs a lease after checking its shape.
pub fn issue_lease(lease: ToolLease, key: &[u8]) -> (r: Result<SignedToolLease, ToolPolicyError>)
    ensures
        match r {
            Ok(signed) => lease_shape_error(lease) is None && signed.lease == lease
                && signed.signature@ == lease_signature(lease, key@),
            Err(e) => lease_shape_error(lease) == Some(e),
        },
{
    match validate_lease_shape(&lease) {
        Err(e) => Err(e),
        Ok(()) => {
            let value = lease_value(&lease);
            let signature = sign(&value, key);
            Ok(SignedToolLease { lease, signature })
        },
    }
}

/// Constant-time equality of two strings.
pub fn secure_eq(left: &str, right: &str) -> (r: bool)
    ensures
        r == (left@ == right@),
{
    let a = left.as_bytes();
    let b = right.as_bytes();
    proof {
        vstd::utf8::encode_utf8_decode_utf8(left@);
        vstd::utf8::encode_utf8_decode_utf8(right@);
    }
    if a.len() != b.len() {
        return false;
    }
    let mut difference: u8 = 0;
    let mut i: usize = 0;
    while i < a.len()
        invariant
            i <= a.len(),
            a.len() == b.len(),
            (difference == 0) == (forall|j: int| 0 <= j < i ==> a@[j] == b@[j]),
        decreases a.len() - i,
    {
        let x = a[i];
        let y = b[i];
        let d = difference;
        assert(((d | (x ^ y)) == 0) == (d == 0 && x == y)) by (bit_vector);
        difference = difference | (x ^ y);
        i += 1;
    }
    if difference == 0 {
        assert(a@ =~= b@);
        true
    } else {
        false
    }
}

pub open spec fn binding_matches_lease(l: ToolLease, b: LeaseBinding) -> bool {
    l.graph_id@ == b.graph_id@ && l.graph_version@ == b.graph_version@ && l.run_id@ == b.run_id@
        && l.node_id@ == b.node_id@
}

/// The first reason a signed lease is unusable at `now` for `binding`.
pub open spec fn lease_error(
    signed: SignedToolLease,
    key: Seq<u8>,
    now: UtcTime,
    binding: LeaseBinding,
) -> Option<ToolPolicyError> {
    let l = signed.lease;
    if lease_shape_error(l) is Some {
        lease_shape_error(l)
    } else if signed.signature@.len() == 0 {
        Some(ToolPolicyError::LeaseSignatureRequired)
    } else if signed.signature@ != lease_signature(l, key) {
        Some(ToolPolicyError::LeaseSignatureInvalid)
    } else if !time_lt(now, l.expires_at) {
        Some(ToolPolicyError::LeaseExpired)
    } else if time_lt(now, l.issued_at) {
        Some(ToolPolicyError::LeaseNotYetValid)
    } else if !binding_matches_lease(l, binding) {
        Some(ToolPolicyError::LeaseBindingMismatch)
    } else {
        None
    }
}

/// Checks a signed lease: shape, signature, validity window and binding.
pub fn verify_lease(signed: &SignedToolLease, key: &[u8], now: UtcTime, binding: LeaseBinding) -> (r:
    Result<(), ToolPolicyError>)
    ensures
        match r {
            Ok(()) => lease_error(*signed, key@, now, binding) is None,
            Err(e) => lease_error(*signed, key@, now, binding) == Some(e),
        },
{
    validate_lease_shape(&signed.lease)?;
    if signed.signature.as_str().is_empty() {
        return Err(ToolPolicyError::LeaseSignatureRequired);
    }
    let value = lease_value(&signed.lease);
    let expected = sign(&value, key);
    if !secure_eq(expected.as_str(), signed.signature.as_str()) {
        return Err(ToolPolicyError::LeaseSignatureInvalid);
    }
    if !now.before(&signed.lease.expires_at) {
        return Err(ToolPolicyError::LeaseExpired);
    }
    if now.before(&signed.lease.issued_at) {
        return Err(ToolPolicyError::LeaseNotYetValid);
    }
    if !str_eq(signed.lease.graph_id.as_str(), binding.graph_id) || !str_eq(
        signed.lease.graph_version.as_str(),
        binding.graph_version,
    ) || !str_eq(signed.lease.run_id.as_str(), binding.run_id) || !str_eq(
        signed.lease.node_id.as_str(),
        binding.node_id,
    ) {
        return Err(ToolPolicyError::LeaseBindingMismatch);
    }
    Ok(())
}

// ── Tool classification ─────────────────────────────────────────────────

pub open spec fn is_recursive_name(lower: Seq<char>) -> bool {
    ||| lower == "delegate_task"@
    ||| lower == "execute_code"@
    ||| starts_with(lower, "mcp__agent_graph__graph_execute"@)
    ||| starts_with(lower, "mcp__agent_graph__graph_run_start"@)
    ||| starts_with(lower, "mcp__agent_graph__graph_run_resume"@)
}

pub open spec fn is_read_only_name(lower: Seq<char>) -> bool {
    ||| lower == "read_file"@
    ||| lower == "search_files"@
    ||| lower == "session_search"@
    ||| lower == "web_search"@
    ||| lower == "web_extract"@
    ||| lower == "browser_snapshot"@
    ||| lower == "browser_get_images"@
    ||| lower == "browser_console"@
    ||| lower == "ha_get_state"@
    ||| lower == "ha_list_entities"@
    ||| lower == "ha_list_services"@
    ||| lower == "skills_list"@
    ||| lower == "skill_view"@
    ||| lower == "git_status"@
    ||| starts_with(lower, "mcp__semantic_memory__sm_get_"@)
    ||| starts_with(lower, "mcp__semantic_memory__sm_list_"@)
    ||| starts_with(lower, "mcp__semantic_memory__sm_search"@)
    ||| starts_with(lower, "mcp__agent_graph__graph_list"@)
    ||| starts_with(lower, "mcp__agent_graph__graph_inspect"@)
    ||| starts_with(lower, "mcp__agent_graph__graph_render"@)
    ||| starts_with(lower, "mcp__agent_graph__graph_run_get"@)
    ||| starts_with(lower, "mcp__agent_graph__graph_run_events"@)
    ||| starts_with(lower, "mcp__agent_graph__graph_run_receipt"@)
}

pub open spec fn is_local_mutation_name(lower: Seq<char>) -> bool {
    ||| lower == "write_file"@
    ||| lower == "patch"@
    ||| lower == "skill_manage"@
    ||| lower == "project_create"@
    ||| lower == "project_switch"@
}

pub open spec fn is_external_name(lower: Seq<char>) -> bool {
    ||| lower == "ha_call_service"@
    ||| lower == "browser_click"@
    ||| lower == "browser_type"@
    ||| lower == "computer_use"@
    ||| lower == "text_to_speech"@
}

pub open spec fn is_authority_name(lower: Seq<char>) -> bool {
    ||| contains(lower, "approval"@)
    ||| ends_with(lower, "delete_namespace"@)
    ||| ends_with(lower, "delete_fact"@)
}

/// The effect class of a tool, from its (case-insensitive) name and, for
/// `cronjob`, its `action` argument. Unknown tools count as external
/// effects.
pub open spec fn classify_spec(name: Seq<char>, arguments: Json) -> ToolEffect {
    let lower = ascii_lower(name);
    if is_recursive_name(lower) {
        ToolEffect::RecursiveOrchestration
    } else if lower == "cronjob"@ {
        if arguments.get("action"@) matches Some(a) && a.as_str() == Some("list"@) {
            ToolEffect::ReadOnly
        } else {
            ToolEffect::RecursiveOrchestration
        }
    } else if is_read_only_name(lower) {
        ToolEffect::ReadOnly
    } else if is_local_mutation_name(lower) {
        ToolEffect::LocalMutation
    } else if is_external_name(lower) {
        ToolEffect::ExternalEffect
    } else if is_authority_name(lower) {
        ToolEffect::AuthorityChange
    } else {
        ToolEffect::ExternalEffect
    }
}

fn is_lit(s: &Vec<char>, lit: &str) -> (r: bool)
    ensures
        r == (s@ == lit@),
{
    let l = chars_of(lit);
    crate::text::chars_eq(s.as_slice(), l.as_slice())
}

fn has_prefix(s: &Vec<char>, lit: &str) -> (r: bool)
    ensures
        r == starts_with(s@, lit@),
{
    let l = chars_of(lit);
    starts_with_exec(s.as_slice(), l.as_slice())
}

fn has_suffix(s: &Vec<char>, lit: &str) -> (r: bool)
    ensures
        r == ends_with(s@, lit@),
{
    let l = chars_of(lit);
    ends_with_exec(s.as_slice(), l.as_slice())
}

fn has_infix(s: &Vec<char>, lit: &str) -> (r: bool)
    ensures
        r == contains(s@, lit@),
{
    let l = chars_of(lit);
    contains_exec(s.as_slice(), l.as_slice())
}

fn recursive_name(lower: &Vec<char>) -> (r: bool)
    ensures
        r == is_recursive_name(lower@),
{
    is_lit(lower, "delegate_task") || is_lit(lower, "execute_code") || has_prefix(
        lower,
        "mcp__agent_graph__graph_execute",
    ) || has_prefix(lower, "mcp__agent_graph__graph_run_start") || has_prefix(
        lower,
        "mcp__agent_graph__graph_run_resume",
    )
}

fn read_only_name(lower: &Vec<char>) -> (r: bool)
    ensures
        r == is_read_only_name(lower@),
{
    is_lit(lower, "read_file") || is_lit(lower, "search_files") || is_lit(lower, "session_search")
        || is_lit(lower, "web_search") || is_lit(lower, "web_extract") || is_lit(
        lower,
        "browser_snapshot",
    ) || is_lit(lower, "browser_get_images") || is_lit(lower, "browser_console") || is_lit(
        lower,
        "ha_get_state",
    ) || is_lit(lower, "ha_list_entities") || is_lit(lower, "ha_list_services") || is_lit(
        lower,
        "skills_list",
    ) || is_lit(lower, "skill_view") || is_lit(lower, "git_status") || has_prefix(
        lower,
        "mcp__semantic_memory__sm_get_",
    ) || has_prefix(lower, "mcp__semantic_memory__sm_list_") || has_prefix(
        lower,
        "mcp__semantic_memory__sm_search",
    ) || has_prefix(lower, "mcp__agent_graph__graph_list") || has_prefix(
        lower,
        "mcp__agent_graph__graph_inspect",
    ) || has_prefix(lower, "mcp__agent_graph__graph_render") || has_prefix(
        lower,
        "mcp__agent_graph__graph_run_get",
    ) || has_prefix(lower, "mcp__agent_graph__graph_run_events") || has_prefix(
        lower,
        "mcp__agent_graph__graph_run_receipt",
    )
}

fn local_mutation_name(lower: &Vec<char>) -> (r: bool)
    ensures
        r == is_local_mutation_name(lower@),
{
    is_lit(lower, "write_file") || is_lit(lower, "patch") || is_lit(lower, "skill_manage")
        || is_lit(lower, "project_create") || is_lit(lower, "project_switch")
}

fn external_name(lower: &Vec<char>) -> (r: bool)
    ensures
        r == is_external_name(lower@),
{
    is_lit(lower, "ha_call_service") || is_lit(lower, "browser_click") || is_lit(
        lower,
        "browser_type",
    ) || is_lit(lower, "computer_use") || is_lit(lower, "text_to_speech")
}

fn authority_name(lower: &Vec<char>) -> (r: bool)
    ensures
        r == is_authority_name(lower@),
{
    has_infix(lower, "approval") || has_suffix(lower, "delete_namespace") || has_suffix(
        lower,
        "delete_fact",
    )
}

/// Classifies a tool call by name (and, for `cronjob`, by its `action`).
pub fn classify_tool(tool_name: &str, arguments: &JsonValue) -> (r: ToolEffect)
    ensures
        r == classify_spec(tool_name@, arguments@),
{
    let name = chars_of(tool_name);
    let lower = ascii_lower_exec(name.as_slice());
    if recursive_name(&lower) {
        return ToolEffect::RecursiveOrchestration;
    }
    if is_lit(&lower, "cronjob") {
        let list = match arguments.get("action") {
            Some(a) => match a.as_str() {
                Some(s) => str_eq(s.as_str(), "list"),
                None => false,
            },
            None => false,
        };
        return if list {
            ToolEffect::ReadOnly
        } else {
            ToolEffect::RecursiveOrchestration
        };
    }
    if read_only_name(&lower) {
        return ToolEffect::ReadOnly;
    }
    if local_mutation_name(&lower) {
        return ToolEffect::LocalMutation;
    }
    if external_name(&lower) {
        return ToolEffect::ExternalEffect;
    }
    if authority_name(&lower) {
        return ToolEffect::AuthorityChange;
    }
    ToolEffect::ExternalEffect
}

// ── Reservations ────────────────────────────────────────────────────────

pub open spec fn tool_granted_spec(allowlist: Vec<String>, name: Seq<char>) -> bool {
    exists|i: int|
        0 <= i < allowlist.len() && (#[trigger] allowlist@[i]@ == "*"@ || allowlist@[i]@ == name)
}

pub open spec fn stack_contains(stack: Vec<String>, id: Seq<char>) -> bool {
    exists|i: int| 0 <= i < stack.len() && #[trigger] stack@[i]@ == id
}

pub open spec fn invocation_matches(inv: ToolInvocation, b: LeaseBinding) -> bool {
    &&& inv.graph_id@ == b.graph_id@
    &&& inv.graph_version@ == b.graph_version@
    &&& inv.run_id@ == b.run_id@
    &&& inv.node_id@ == b.node_id@
    &&& inv.attempt != 0
    &&& !is_blank(inv.tool_name@)
}

/// The first reason a call cannot be reserved, in the order the checks run.
pub open spec fn reserve_error(
    signed: SignedToolLease,
    key: Seq<u8>,
    now: UtcTime,
    binding: LeaseBinding,
    inv: ToolInvocation,
) -> Option<ToolPolicyError> {
    let l = signed.lease;
    let c = classify_spec(inv.tool_name@, inv.arguments@);
    if lease_error(signed, key, now, binding) is Some {
        lease_error(signed, key, now, binding)
    } else if !invocation_matches(inv, binding) {
        Some(ToolPolicyError::InvocationInvalid)
    } else if !tool_granted_spec(l.tool_allowlist, inv.tool_name@) {
        Some(ToolPolicyError::ToolNotGranted)
    } else if c != inv.effect {
        Some(ToolPolicyError::EffectClassificationMismatch)
    } else if !l.effect_allowlist@.contains(c) {
        Some(ToolPolicyError::EffectNotGranted)
    } else if l.counters.tool_calls >= l.max_tool_calls {
        Some(ToolPolicyError::ToolBudgetExhausted)
    } else if c == ToolEffect::RecursiveOrchestration && l.counters.recursive_calls
        >= l.max_recursive_calls {
        Some(ToolPolicyError::RecursiveBudgetExhausted)
    } else if inv.recursion_identity matches Some(id) && stack_contains(l.active_stack, id@) {
        Some(ToolPolicyError::RecursionCycleDetected)
    } else {
        None
    }
}

/// Counters after one reserved call of the given effect.
pub open spec fn counters_after_call(c: ToolCounters, effect: ToolEffect) -> ToolCounters {
    ToolCounters {
        tool_calls: (c.tool_calls + 1) as u64,
        recursive_calls: if effect == ToolEffect::RecursiveOrchestration {
            (c.recursive_calls + 1) as u64
        } else {
            c.recursive_calls
        },
        children: c.children,
    }
}

/// The identity that names a call: lease digest, binding, attempt, tool,
/// arguments digest and parent receipt.
pub open spec fn call_identity_json(lease_digest: Seq<char>, inv: ToolInvocation) -> Json {
    Json::Object(
        seq![
            ("arguments_digest"@, Json::Str(digest_text(inv.arguments@))),
            ("attempt"@, u64_json(inv.attempt)),
            ("graph_id"@, str_json(inv.graph_id)),
            ("graph_version"@, str_json(inv.graph_version)),
            ("lease_digest"@, Json::Str(lease_digest)),
            ("node_id"@, str_json(inv.node_id)),
            ("parent_receipt_digest"@, opt_str_json(inv.parent_receipt_digest)),
            ("run_id"@, str_json(inv.run_id)),
            ("tool_name"@, str_json(inv.tool_name)),
        ],
    )
}

pub open spec fn call_id_spec(lease_digest: Seq<char>, inv: ToolInvocation) -> Seq<char> {
    "tool-call-"@ + hex_text(sha256_digest(canonical_bytes(call_identity_json(lease_digest, inv))))
}

/// The intent a reservation of `inv` under `signed` at `now` produces.
pub open spec fn intent_of_call(
    intent: ToolCallIntent,
    signed: SignedToolLease,
    key: Seq<u8>,
    now: UtcTime,
    inv: ToolInvocation,
) -> bool {
    let lease_digest = digest_text(lease_json(signed.lease));
    &&& intent.protocol@ == TOOL_INTENT_PROTOCOL@
    &&& intent.call_id@ == call_id_spec(lease_digest, inv)
    &&& intent.lease_id@ == signed.lease.lease_id@
    &&& intent.lease_digest@ == lease_digest
    &&& intent.lineage_id@ == signed.lease.lineage_id@
    &&& intent.graph_id@ == inv.graph_id@
    &&& intent.graph_version@ == inv.graph_version@
    &&& intent.run_id@ == inv.run_id@
    &&& intent.node_id@ == inv.node_id@
    &&& intent.attempt == inv.attempt
    &&& intent.tool_name@ == inv.tool_name@
    &&& intent.arguments_digest@ == digest_text(inv.arguments@)
    &&& intent.effect == classify_spec(inv.tool_name@, inv.arguments@)
    &&& opt_view(intent.parent_receipt_digest) == opt_view(inv.parent_receipt_digest)
    &&& intent.reserved_at == now
    &&& intent.signature@ == intent_signature(intent, key)
}

/// The lease a reservation hands back: same scope, one more call counted,
/// signed again with the same key.
pub open spec fn lease_after_call(
    updated: SignedToolLease,
    signed: SignedToolLease,
    key: Seq<u8>,
    effect: ToolEffect,
) -> bool {
    &&& same_scope(updated.lease, signed.lease)
    &&& updated.lease.counters == counters_after_call(signed.lease.counters, effect)
    &&& updated.signature@ == lease_signature(updated.lease, key)
}

/// Whether the allowlist grants the tool, by name or by `*`.
pub fn tool_granted(allowlist: &Vec<String>, tool_name: &str) -> (r: bool)
    ensures
        r == tool_granted_spec(*allowlist, tool_name@),
{
    let mut i: usize = 0;
    while i < allowlist.len()
        invariant
            i <= allowlist.len(),
            forall|j: int|
                0 <= j < i ==> !(#[trigger] allowlist@[j]@ == "*"@ || allowlist@[j]@
                    == tool_name@),
        decreases allowlist.len() - i,
    {
        if str_eq(allowlist[i].as_str(), "*") || str_eq(allowlist[i].as_str(), tool_name) {
            return true;
        }
        i += 1;
    }
    false
}

fn effect_listed(allow: &Vec<ToolEffect>, effect: ToolEffect) -> (r: bool)
    ensures
        r == allow@.contains(effect),
{
    let mut i: usize = 0;
    while i < allow.len()
        invariant
            i <= allow.len(),
            forall|j: int| 0 <= j < i ==> allow@[j] != effect,
        decreases allow.len() - i,
    {
        if allow[i] == effect {
            return true;
        }
        i += 1;
    }
    false
}

fn on_stack(stack: &Vec<String>, id: &str) -> (r: bool)
    ensures
        r == stack_contains(*stack, id@),
{
    let mut i: usize = 0;
    while i < stack.len()
        invariant
            i <= stack.len(),
            forall|j: int| 0 <= j < i ==> #[trigger] stack@[j]@ != id@,
        decreases stack.len() - i,
    {
        if str_eq(stack[i].as_str(), id) {
            return true;
        }
        i += 1;
    }
    false
}

fn clone_strings(v: &Vec<String>) -> (r: Vec<String>)
    ensures
        strs_view(r) == strs_view(*v),
        r.len() == v.len(),
{
    let mut out: Vec<String> = Vec::new();
    let mut i: usize = 0;
    while i < v.len()
        invariant
            i <= v.len(),
            out.len() == i,
            forall|j: int| 0 <= j < i ==> #[trigger] out@[j]@ == v@[j]@,
        decreases v.len() - i,
    {
        out.push(v[i].clone());
        i += 1;
    }
    assert(strs_view(out) =~= strs_view(*v));
    out
}

fn clone_effects(v: &Vec<ToolEffect>) -> (r: Vec<ToolEffect>)
    ensures
        r@ == v@,
{
    let mut out: Vec<ToolEffect> = Vec::new();
    let mut i: usize = 0;
    while i < v.len()
        invariant
            i <= v.len(),
            out@ == v@.subrange(0, i as int),
        decreases v.len() - i,
    {
        out.push(v[i]);
        i += 1;
    }
    assert(out@ =~= v@);
    out
}

fn clone_opt(o: &Option<String>) -> (r: Option<String>)
    ensures
        opt_view(r) == opt_view(*o),
{
    match o {
        Some(s) => Some(s.clone()),
        None => None,
    }
}

/// The canonical JSON object of an intent with `sig` as its signature.
pub fn intent_value(i: &ToolCallIntent, sig: &str) -> (r: JsonValue)
    ensures
        r@ == intent_json(*i, sig@),
{
    let r = JsonValue::Object(
        vec![
            ("arguments_digest".to_owned(), str_value(&i.arguments_digest)),
            ("attempt".to_owned(), u64_value(i.attempt)),
            ("call_id".to_owned(), str_value(&i.call_id)),
            ("effect".to_owned(), JsonValue::string(i.effect.as_str())),
            ("graph_id".to_owned(), str_value(&i.graph_id)),
            ("graph_version".to_owned(), str_value(&i.graph_version)),
            ("lease_digest".to_owned(), str_value(&i.lease_digest)),
            ("lease_id".to_owned(), str_value(&i.lease_id)),
            ("lineage_id".to_owned(), str_value(&i.lineage_id)),
            ("node_id".to_owned(), str_value(&i.node_id)),
            ("parent_receipt_digest".to_owned(), opt_str_value(&i.parent_receipt_digest)),
            ("protocol".to_owned(), str_value(&i.protocol)),
            ("reserved_at".to_owned(), time_value(&i.reserved_at)),
            ("run_id".to_owned(), str_value(&i.run_id)),
            ("signature".to_owned(), JsonValue::string(sig)),
            ("tool_name".to_owned(), str_value(&i.tool_name)),
        ],
    );
    assert(r@->Object_0 =~= intent_json(*i, sig@)->Object_0);
    r
}

fn call_identity_value(lease_digest: &String, inv: &ToolInvocation) -> (r: JsonValue)
    ensures
        r@ == call_identity_json(lease_digest@, *inv),
{
    let ad = digest(&inv.arguments);
    let e0 = ("arguments_digest".to_owned(), JsonValue::Str(ad));
    assert(e0.1@ == Json::Str(digest_text(inv.arguments@)));
    let r = JsonValue::Object(
        vec![
            e0,
            ("attempt".to_owned(), u64_value(inv.attempt)),
            ("graph_id".to_owned(), str_value(&inv.graph_id)),
            ("graph_version".to_owned(), str_value(&inv.graph_version)),
            ("lease_digest".to_owned(), str_value(lease_digest)),
            ("node_id".to_owned(), str_value(&inv.node_id)),
            ("parent_receipt_digest".to_owned(), opt_str_value(&inv.parent_receipt_digest)),
            ("run_id".to_owned(), str_value(&inv.run_id)),
            ("tool_name".to_owned(), str_value(&inv.tool_name)),
        ],
    );
    assert(r@->Object_0 =~= call_identity_json(lease_digest@, *inv)->Object_0);
    r
}

/// All checks of a reservation; on success the call's effect class.
fn check_call(
    signed: &SignedToolLease,
    key: &[u8],
    now: UtcTime,
    binding: LeaseBinding,
    invocation: &ToolInvocation,
) -> (r: Result<ToolEffect, ToolPolicyError>)
    ensures
        match r {
            Ok(c) => reserve_error(*signed, key@, now, binding, *invocation) is None && c
                == classify_spec(invocation.tool_name@, invocation.arguments@),
            Err(e) => reserve_error(*signed, key@, now, binding, *invocation) == Some(e),
        },
{
    verify_lease(signed, key, now, binding)?;
    let l = &signed.lease;
    if !str_eq(invocation.graph_id.as_str(), binding.graph_id) || !str_eq(
        invocation.graph_version.as_str(),
        binding.graph_version,
    ) || !str_eq(invocation.run_id.as_str(), binding.run_id) || !str_eq(
        invocation.node_id.as_str(),
        binding.node_id,
    ) || invocation.attempt == 0 || is_blank_str(invocation.tool_name.as_str()) {
        return Err(ToolPolicyError::InvocationInvalid);
    }
    if !tool_granted(&l.tool_allowlist, invocation.tool_name.as_str()) {
        return Err(ToolPolicyError::ToolNotGranted);
    }
    let classified = classify_tool(invocation.tool_name.as_str(), &invocation.arguments);
    if classified != invocation.effect {
        return Err(ToolPolicyError::EffectClassificationMismatch);
    }
    if !effect_listed(&l.effect_allowlist, classified) {
        return Err(ToolPolicyError::EffectNotGranted);
    }
    if l.counters.tool_calls >= l.max_tool_calls {
        return Err(ToolPolicyError::ToolBudgetExhausted);
    }
    let recursive = classified == ToolEffect::RecursiveOrchestration;
    if recursive && l.counters.recursive_calls >= l.max_recursive_calls {
        return Err(ToolPolicyError::RecursiveBudgetExhausted);
    }
    match &invocation.recursion_identity {
        Some(identity) => {
            if on_stack(&l.active_stack, identity.as_str()) {
                return Err(ToolPolicyError::RecursionCycleDetected);
            }
        },
        None => {},
    }
    Ok(classified)
}

/// The signed intent for a checked call.
fn build_intent(
    signed: &SignedToolLease,
    key: &[u8],
    now: UtcTime,
    invocation: ToolInvocation,
    classified: ToolEffect,
) -> (intent: ToolCallIntent)
    requires
        classified == classify_spec(invocation.tool_name@, invocation.arguments@),
    ensures
        intent_of_call(intent, *signed, key@, now, invocation),
{
    let ghost inv0 = invocation;
    let lease_digest = digest(&lease_value(&signed.lease));
    let identity = call_identity_value(&lease_digest, &invocation);
    let identity_text = identity.to_json_string();
    let identity_hash = sha256(identity_text.as_str().as_bytes());
    let mut call_id = String::new();
    crate::text::push_all(&mut call_id, "tool-call-");
    push_hex(&mut call_id, identity_hash.as_slice());
    let arguments_digest = digest(&invocation.arguments);
    let mut intent = ToolCallIntent {
        protocol: TOOL_INTENT_PROTOCOL.to_owned(),
        call_id,
        lease_id: signed.lease.lease_id.clone(),
        lease_digest,
        lineage_id: signed.lease.lineage_id.clone(),
        graph_id: invocation.graph_id,
        graph_version: invocation.graph_version,
        run_id: invocation.run_id,
        node_id: invocation.node_id,
        attempt: invocation.attempt,
        tool_name: invocation.tool_name,
        arguments_digest,
        effect: classified,
        parent_receipt_digest: invocation.parent_receipt_digest,
        reserved_at: now,
        signature: String::new(),
    };
    let unsigned = intent_value(&intent, "");
    proof {
        assert(""@ =~= Seq::<char>::empty()) by {
            reveal_strlit("");
        }
    }
    intent.signature = sign(&unsigned, key);
    assert(intent.call_id@ =~= call_id_spec(intent.lease_digest@, inv0));
    intent
}

/// The lease with one more call of `effect` counted, signed again.
fn advance_lease(signed: &SignedToolLease, key: &[u8], effect: ToolEffect) -> (r: SignedToolLease)
    requires
        lease_shape_error(signed.lease) is None,
        signed.lease.counters.tool_calls < signed.lease.max_tool_calls,
        effect == ToolEffect::RecursiveOrchestration ==> signed.lease.counters.recursive_calls
            < signed.lease.max_recursive_calls,
    ensures
        lease_after_call(r, *signed, key@, effect),
{
    let l = &signed.lease;
    let counters = ToolCounters {
        tool_calls: l.counters.tool_calls + 1,
        recursive_calls: if effect == ToolEffect::RecursiveOrchestration {
            l.counters.recursive_calls + 1
        } else {
            l.counters.recursive_calls
        },
        children: l.counters.children,
    };
    let updated = ToolLease {
        protocol: l.protocol.clone(),
        lease_id: l.lease_id.clone(),
        lineage_id: l.lineage_id.clone(),
        graph_id: l.graph_id.clone(),
        graph_version: l.graph_version.clone(),
        run_id: l.run_id.clone(),
        node_id: l.node_id.clone(),
        issued_at: l.issued_at,
        expires_at: l.expires_at,
        tool_allowlist: clone_strings(&l.tool_allowlist),
        effect_allowlist: clone_effects(&l.effect_allowlist),
        max_tool_calls: l.max_tool_calls,
        max_recursive_calls: l.max_recursive_calls,
        max_agent_depth: l.max_agent_depth,
        max_graph_depth: l.max_graph_depth,
        max_children: l.max_children,
        agent_depth: l.agent_depth,
        graph_depth: l.graph_depth,
        active_stack: clone_strings(&l.active_stack),
        counters,
        parent_receipt_digest: clone_opt(&l.parent_receipt_digest),
    };
    let value = lease_value(&updated);
    let signature = sign(&value, key);
    SignedToolLease { lease: updated, signature }
}

/// Reserves one tool call under a signed lease before it runs.
///
/// On success the result holds the signed intent and the lease re-signed
/// with its counters advanced by one call; on failure the first policy
/// violation.
pub fn reserve_call(
    signed: &SignedToolLease,
    key: &[u8],
    now: UtcTime,
    binding: LeaseBinding,
    invocation: ToolInvocation,
) -> (r: Result<CallReservation, ToolPolicyError>)
    ensures
        match r {
            Ok(res) => {
                &&& reserve_error(*signed, key@, now, binding, invocation) is None
                &&& intent_of_call(res.intent, *signed, key@, now, invocation)
                &&& lease_after_call(
                    res.updated_lease,
                    *signed,
                    key@,
                    classify_spec(invocation.tool_name@, invocation.arguments@),
                )
            },
            Err(e) => reserve_error(*signed, key@, now, binding, invocation) == Some(e),
        },
{
    let classified = check_call(signed, key, now, binding, &invocation)?;
    let updated_lease = advance_lease(signed, key, classified);
    let intent = build_intent(signed, key, now, invocation, classified);
    Ok(CallReservation { intent, updated_lease })
}

// ── Receipts ────────────────────────────────────────────────────────────

/// The receipt `complete` makes for `intent`.
pub open spec fn receipt_of(
    r: ToolCallReceipt,
    intent: ToolCallIntent,
    outcome: ReceiptOutcome,
    result: Json,
    summary: Seq<char>,
    completed_at: UtcTime,
    key: Seq<u8>,
) -> bool {
    &&& r.protocol@ == TOOL_RECEIPT_PROTOCOL@
    &&& r.call_id@ == intent.call_id@
    &&& r.intent_digest@ == intent_digest(intent)
    &&& r.lineage_id@ == intent.lineage_id@
    &&& r.outcome == outcome
    &&& r.result_digest@ == digest_text(result)
    &&& r.redacted_summary@ == summary
    &&& opt_view(r.parent_receipt_digest) == opt_view(intent.parent_receipt_digest)
    &&& r.completed_at == completed_at
    &&& r.signature@ == receipt_signature(r, key)
}

/// The first reason a receipt does not complete an intent.
pub open spec fn receipt_chain_error(intent: ToolCallIntent, receipt: ToolCallReceipt, key: Seq<u8>) -> Option<
    ToolPolicyError,
> {
    if intent.signature@ != intent_signature(intent, key) {
        Some(ToolPolicyError::IntentSignatureInvalid)
    } else if receipt.protocol@ != TOOL_RECEIPT_PROTOCOL@ || receipt.call_id@ != intent.call_id@
        || receipt.lineage_id@ != intent.lineage_id@ || receipt.intent_digest@ != intent_digest(
        intent,
    ) {
        Some(ToolPolicyError::ReceiptIntentMismatch)
    } else if opt_view(receipt.parent_receipt_digest) != opt_view(intent.parent_receipt_digest) {
        Some(ToolPolicyError::ReceiptChainMismatch)
    } else if receipt.signature@ != receipt_signature(receipt, key) {
        Some(ToolPolicyError::ReceiptSignatureInvalid)
    } else {
        None
    }
}

/// The canonical JSON object of a receipt with `sig` as its signature.
pub fn receipt_value(r: &ToolCallReceipt, sig: &str) -> (v: JsonValue)
    ensures
        v@ == receipt_json(*r, sig@),
{
    let v = JsonValue::Object(
        vec![
            ("call_id".to_owned(), str_value(&r.call_id)),
            ("completed_at".to_owned(), time_value(&r.completed_at)),
            ("intent_digest".to_owned(), str_value(&r.intent_digest)),
            ("lineage_id".to_owned(), str_value(&r.lineage_id)),
            ("outcome".to_owned(), JsonValue::string(r.outcome.as_str())),
            ("parent_receipt_digest".to_owned(), opt_str_value(&r.parent_receipt_digest)),
            ("protocol".to_owned(), str_value(&r.protocol)),
            ("redacted_summary".to_owned(), str_value(&r.redacted_summary)),
            ("result_digest".to_owned(), str_value(&r.result_digest)),
            ("signature".to_owned(), JsonValue::string(sig)),
        ],
    );
    assert(v@->Object_0 =~= receipt_json(*r, sig@)->Object_0);
    v
}

fn opt_eq(a: &Option<String>, b: &Option<String>) -> (r: bool)
    ensures
        r == (opt_view(*a) == opt_view(*b)),
{
    match (a, b) {
        (Some(x), Some(y)) => *x == *y,
        (None, None) => true,
        _ => false,
    }
}

proof fn lemma_empty_literal()
    ensures
        ""@ == Seq::<char>::empty(),
{
    reveal_strlit("");
    assert(""@ =~= Seq::<char>::empty());
}

impl ToolCallReceipt {
    /// Completes an intent with its outcome, signing the receipt. The
    /// summary may hold at most `MAX_RECEIPT_SUMMARY_BYTES` bytes.
    pub fn complete(
        intent: &ToolCallIntent,
        outcome: ReceiptOutcome,
        result: &JsonValue,
        redacted_summary: &str,
        completed_at: UtcTime,
        key: &[u8],
    ) -> (r: Result<Self, ToolPolicyError>)
        ensures
            match r {
                Ok(receipt) => encode_utf8(redacted_summary@).len() <= MAX_RECEIPT_SUMMARY_BYTES
                    && receipt_of(
                    receipt,
                    *intent,
                    outcome,
                    result@,
                    redacted_summary@,
                    completed_at,
                    key@,
                ),
                Err(e) => encode_utf8(redacted_summary@).len() > MAX_RECEIPT_SUMMARY_BYTES && e
                    == ToolPolicyError::ReceiptSummaryTooLarge,
            },
    {
        if redacted_summary.as_bytes().len() > MAX_RECEIPT_SUMMARY_BYTES {
            return Err(ToolPolicyError::ReceiptSummaryTooLarge);
        }
        let intent_digest = digest(&intent_value(intent, intent.signature.as_str()));
        let result_digest = digest(result);
        let mut receipt = ToolCallReceipt {
            protocol: TOOL_RECEIPT_PROTOCOL.to_owned(),
            call_id: intent.call_id.clone(),
            intent_digest,
            lineage_id: intent.lineage_id.clone(),
            outcome,
            result_digest,
            redacted_summary: redacted_summary.to_owned(),
            parent_receipt_digest: clone_opt(&intent.parent_receipt_digest),
            completed_at,
            signature: String::new(),
        };
        let unsigned = receipt_value(&receipt, "");
        proof {
            lemma_empty_literal();
        }
        receipt.signature = sign(&unsigned, key);
        Ok(receipt)
    }

    /// The `sha256:` digest of this receipt (signature included), by which a
    /// later call names it as its parent.
    pub fn compute_digest(&self) -> (r: String)
        ensures
            r@ == digest_text(receipt_json(*self, self.signature@)),
    {
        digest(&receipt_value(self, self.signature.as_str()))
    }
}

/// Checks that a receipt completes an intent: the intent's own signature,
/// the identity fields, the parent link and the receipt's signature.
pub fn verify_receipt_chain(intent: &ToolCallIntent, receipt: &ToolCallReceipt, key: &[u8]) -> (r:
    Result<(), ToolPolicyError>)
    ensures
        match r {
            Ok(()) => receipt_chain_error(*intent, *receipt, key@) is None,
            Err(e) => receipt_chain_error(*intent, *receipt, key@) == Some(e),
        },
{
    proof {
        lemma_empty_literal();
    }
    let expected_intent = sign(&intent_value(intent, ""), key);
    if !secure_eq(expected_intent.as_str(), intent.signature.as_str()) {
        return Err(ToolPolicyError::IntentSignatureInvalid);
    }
    let intent_digest = digest(&intent_value(intent, intent.signature.as_str()));
    if !str_eq(receipt.protocol.as_str(), TOOL_RECEIPT_PROTOCOL) || receipt.call_id
        != intent.call_id || receipt.lineage_id != intent.lineage_id || receipt.intent_digest
        != intent_digest {
        return Err(ToolPolicyError::ReceiptIntentMismatch);
    }
    if !opt_eq(&receipt.parent_receipt_digest, &intent.parent_receipt_digest) {
        return Err(ToolPolicyError::ReceiptChainMismatch);
    }
    let expected = sign(&receipt_value(receipt, ""), key);
    if !secure_eq(expected.as_str(), receipt.signature.as_str()) {
        return Err(ToolPolicyError::ReceiptSignatureInvalid);
    }
    Ok(())
}

// ── Laws ────────────────────────────────────────────────────────────────

proof fn lemma_signature_nonempty(v: Json, key: Seq<u8>)
    ensures
        signature_text(v, key).len() > 0,
{
    assert(signature_text(v, key)[0] == 'h');
}

/// A lease that `issue_lease` signed verifies under the same key, at any
/// instant of its validity window, for the run it names.
pub proof fn lemma_issued_lease_verifies(
    signed: SignedToolLease,
    key: Seq<u8>,
    now: UtcTime,
    binding: LeaseBinding,
)
    requires
        lease_shape_error(signed.lease) is None,
        signed.signature@ == lease_signature(signed.lease, key),
        !time_lt(now, signed.lease.issued_at),
        time_lt(now, signed.lease.expires_at),
        binding_matches_lease(signed.lease, binding),
    ensures
        lease_error(signed, key, now, binding) is None,
{
    lemma_signature_nonempty(lease_json(signed.lease), key);
}

/// A reservation only succeeds within budget: the tool is granted, the
/// effect is the classified one and is allowed, the call budget has room,
/// a recursive call has recursive budget, and the lease itself verifies.
pub proof fn lemma_reservation_within_budget(
    signed: SignedToolLease,
    key: Seq<u8>,
    now: UtcTime,
    binding: LeaseBinding,
    inv: ToolInvocation,
)
    requires
        reserve_error(signed, key, now, binding, inv) is None,
    ensures
        lease_error(signed, key, now, binding) is None,
        tool_granted_spec(signed.lease.tool_allowlist, inv.tool_name@),
        inv.effect == classify_spec(inv.tool_name@, inv.arguments@),
        signed.lease.effect_allowlist@.contains(inv.effect),
        signed.lease.counters.tool_calls < signed.lease.max_tool_calls,
        inv.effect == ToolEffect::RecursiveOrchestration ==> signed.lease.counters.recursive_calls
            < signed.lease.max_recursive_calls,
{
}

/// The lease a reservation hands back verifies again (same key, instant and
/// run), so reservations chain.
pub proof fn lemma_reserved_lease_verifies(
    signed: SignedToolLease,
    updated: SignedToolLease,
    key: Seq<u8>,
    now: UtcTime,
    binding: LeaseBinding,
    inv: ToolInvocation,
)
    requires
        reserve_error(signed, key, now, binding, inv) is None,
        lease_after_call(updated, signed, key, classify_spec(inv.tool_name@, inv.arguments@)),
    ensures
        lease_error(updated, key, now, binding) is None,
{
    lemma_signature_nonempty(lease_json(updated.lease), key);
    let a = updated.lease;
    let b = signed.lease;
    assert(a.tool_allowlist.len() == strs_view(a.tool_allowlist).len());
    assert(b.tool_allowlist.len() == strs_view(b.tool_allowlist).len());
    assert(a.effect_allowlist@.len() == b.effect_allowlist@.len());
}

/// One successful reservation step from lease `a` to lease `b`.
pub open spec fn reservation_step(a: SignedToolLease, b: SignedToolLease, key: Seq<u8>) -> bool {
    &&& a.lease.counters.tool_calls < a.lease.max_tool_calls
    &&& exists|effect: ToolEffect| lease_after_call(b, a, key, effect)
}

/// Reservations never widen a lease: along any chain of reservations the
/// scope stays the one first granted, each step counts exactly one call,
/// and no chain is longer than the call budget left at its start.
pub proof fn lemma_reservation_chain_budget(chain: Seq<SignedToolLease>, key: Seq<u8>)
    requires
        chain.len() >= 1,
        lease_shape_error(chain[0].lease) is None,
        forall|i: int| 0 <= i < chain.len() - 1 ==> reservation_step(#[trigger] chain[i], chain[i + 1], key),
    ensures
        same_scope(chain.last().lease, chain[0].lease),
        chain.last().lease.counters.tool_calls == chain[0].lease.counters.tool_calls + chain.len() - 1,
        chain.len() - 1 <= chain[0].lease.max_tool_calls - chain[0].lease.counters.tool_calls,
    decreases chain.len(),
{
    if chain.len() > 1 {
        let prefix = chain.drop_last();
        assert forall|i: int| 0 <= i < prefix.len() - 1 implies reservation_step(#[trigger] prefix[i], prefix[i + 1], key) by {
            assert(prefix[i] == chain[i] && prefix[i + 1] == chain[i + 1]);
        }
        assert(prefix[0] == chain[0]);
        lemma_reservation_chain_budget(prefix, key);
        let a = chain[chain.len() - 2];
        let b = chain.last();
        assert(reservation_step(a, b, key));
        let effect = choose|effect: ToolEffect| lease_after_call(b, a, key, effect);
        assert(lease_after_call(b, a, key, effect));
        assert(prefix.last() == a);
        assert(prefix[0] == chain[0]);
        assert(same_scope(a.lease, chain[0].lease));
        assert(a.lease.max_tool_calls == chain[0].lease.max_tool_calls);
        assert(a.lease.counters.tool_calls < a.lease.max_tool_calls);
        assert(a.lease.counters.tool_calls == chain[0].lease.counters.tool_calls + prefix.len() - 1);
        lemma_same_scope_trans(b.lease, a.lease, chain[0].lease);
    }
}

proof fn lemma_same_scope_trans(a: ToolLease, b: ToolLease, c: ToolLease)
    requires
        same_scope(a, b),
        same_scope(b, c),
    ensures
        same_scope(a, c),
{
}

/// A receipt that `complete` made for a validly signed intent passes the
/// receipt-chain check under the same key.
pub proof fn lemma_completed_receipt_verifies(
    intent: ToolCallIntent,
    receipt: ToolCallReceipt,
    outcome: ReceiptOutcome,
    result: Json,
    summary: Seq<char>,
    completed_at: UtcTime,
    key: Seq<u8>,
)
    requires
        intent.signature@ == intent_signature(intent, key),
        receipt_of(receipt, intent, outcome, result, summary, completed_at, key),
    ensures
        receipt_chain_error(intent, receipt, key) is None,
{
}

/// Reserve, then complete: the intent a reservation produced and the
/// receipt completed for it form a valid chain.
pub proof fn lemma_reserved_call_receipt_verifies(
    signed: SignedToolLease,
    key: Seq<u8>,
    now: UtcTime,
    inv: ToolInvocation,
    intent: ToolCallIntent,
    receipt: ToolCallReceipt,
    outcome: ReceiptOutcome,
    result: Json,
    summary: Seq<char>,
    completed_at: UtcTime,
)
    requires
        intent_of_call(intent, signed, key, now, inv),
        receipt_of(receipt, intent, outcome, result, summary, completed_at, key),
    ensures
        receipt_chain_error(intent, receipt, key) is None,
{
}

/// A lease verifies only when it carries the signature its key makes over
/// its fields, `now` lies in its window (not before `issued_at`, before
/// `expires_at`), and it names exactly the graph, version, run and node it
/// is used for.
pub proof fn lemma_verified_lease_is_authentic(
    signed: SignedToolLease,
    key: Seq<u8>,
    now: UtcTime,
    binding: LeaseBinding,
)
    requires
        lease_error(signed, key, now, binding) is None,
    ensures
        signed.signature@ == lease_signature(signed.lease, key),
        signed.lease.protocol@ == TOOL_LEASE_PROTOCOL@,
        signed.lease.issued_at.secs < signed.lease.expires_at.secs || (signed.lease.issued_at.secs
            == signed.lease.expires_at.secs && signed.lease.issued_at.nanos < signed.lease.expires_at.nanos),
        now.secs < signed.lease.expires_at.secs || (now.secs == signed.lease.expires_at.secs && now.nanos
            < signed.lease.expires_at.nanos),
        signed.lease.issued_at.secs < now.secs || (signed.lease.issued_at.secs == now.secs
            && signed.lease.issued_at.nanos <= now.nanos),
        signed.lease.graph_id@ == binding.graph_id@,
        signed.lease.graph_version@ == binding.graph_version@,
        signed.lease.run_id@ == binding.run_id@,
        signed.lease.node_id@ == binding.node_id@,
        signed.lease.agent_depth <= signed.lease.max_agent_depth,
        signed.lease.graph_depth <= signed.lease.max_graph_depth,
        signed.lease.counters.tool_calls <= signed.lease.max_tool_calls,
{
}

/// A reservation refuses a call that would close a recursion cycle or that
/// does not match the binding: an accepted call is for the bound graph,
/// version, run and node, with a non-zero attempt and a tool name that is not
/// blank, and its recursion identity is not already on the active stack.
pub proof fn lemma_reservation_matches_call(
    signed: SignedToolLease,
    key: Seq<u8>,
    now: UtcTime,
    binding: LeaseBinding,
    inv: ToolInvocation,
)
    requires
        reserve_error(signed, key, now, binding, inv) is None,
    ensures
        inv.graph_id@ == binding.graph_id@,
        inv.graph_version@ == binding.graph_version@,
        inv.run_id@ == binding.run_id@,
        inv.node_id@ == binding.node_id@,
        inv.attempt != 0,
        !is_blank(inv.tool_name@),
        inv.recursion_identity matches Some(id) ==> forall|i: int|
            0 <= i < signed.lease.active_stack.len() ==> signed.lease.active_stack@[i]@ != id@,
{
}

/// Each reservation counts one call; a recursive-orchestration call also
/// uses one unit of the recursive budget, any other call none; the children
/// count is untouched.
pub proof fn lemma_reservation_counts_one_call(
    updated: SignedToolLease,
    signed: SignedToolLease,
    key: Seq<u8>,
    effect: ToolEffect,
)
    requires
        lease_after_call(updated, signed, key, effect),
        signed.lease.counters.tool_calls < u64::MAX,
        signed.lease.counters.recursive_calls < u64::MAX,
    ensures
        updated.lease.counters.tool_calls == signed.lease.counters.tool_calls + 1,
        effect == ToolEffect::RecursiveOrchestration ==> updated.lease.counters.recursive_calls
            == signed.lease.counters.recursive_calls + 1,
        effect != ToolEffect::RecursiveOrchestration ==> updated.lease.counters.recursive_calls
            == signed.lease.counters.recursive_calls,
        updated.lease.counters.children == signed.lease.counters.children,
{
}

/// A receipt chain verifies only when the intent carries its own signature
/// under the key, the receipt names that intent (call, lineage and digest),
/// continues the same parent receipt, and carries its own signature.
pub proof fn lemma_verified_receipt_is_authentic(intent: ToolCallIntent, receipt: ToolCallReceipt, key: Seq<u8>)
    requires
        receipt_chain_error(intent, receipt, key) is None,
    ensures
        intent.signature@ == intent_signature(intent, key),
        receipt.signature@ == receipt_signature(receipt, key),
        receipt.protocol@ == TOOL_RECEIPT_PROTOCOL@,
        receipt.call_id@ == intent.call_id@,
        receipt.lineage_id@ == intent.lineage_id@,
        receipt.intent_digest@ == intent_digest(intent),
        opt_view(receipt.parent_receipt_digest) == opt_view(intent.parent_receipt_digest),
{
}

/// The orchestration tools count against the recursive-call budget: a tool
/// whose name, ignoring ASCII case, is `delegate_task` or `execute_code`, or
/// starts with `mcp__agent_graph__graph_execute`,
/// `mcp__agent_graph__graph_run_start` or `mcp__agent_graph__graph_run_resume`,
/// is recursive orchestration whatever its arguments; `cronjob` is too,
/// unless its `action` argument is the string `list`, which only reads.
pub proof fn lemma_orchestration_tools_are_recursive(name: Seq<char>, arguments: Json)
    ensures
        ({
            let lower = ascii_lower(name);
            lower == "delegate_task"@ || lower == "execute_code"@
                || starts_with(lower, "mcp__agent_graph__graph_execute"@)
                || starts_with(lower, "mcp__agent_graph__graph_run_start"@)
                || starts_with(lower, "mcp__agent_graph__graph_run_resume"@)
        }) ==> classify_spec(name, arguments) == ToolEffect::RecursiveOrchestration,
        ascii_lower(name) == "cronjob"@ ==> (classify_spec(name, arguments) == if arguments.get("action"@)
            == Some(Json::Str("list"@)) {
            ToolEffect::ReadOnly
        } else {
            ToolEffect::RecursiveOrchestration
        }),
{
    reveal_strlit("cronjob");
    reveal_strlit("delegate_task");
    reveal_strlit("execute_code");
    reveal_strlit("mcp__agent_graph__graph_execute");
    reveal_strlit("mcp__agent_graph__graph_run_start");
    reveal_strlit("mcp__agent_graph__graph_run_resume");
    let lower = ascii_lower(name);
    if lower == "cronjob"@ {
        assert(lower.len() == 7);
        assert("delegate_task"@.len() == 13);
        assert(lower != "delegate_task"@);
        assert(lower != "execute_code"@);
        assert(!starts_with(lower, "mcp__agent_graph__graph_execute"@));
        assert(!is_recursive_name(lower));
        match arguments.get("action"@) {
            Some(a) => {
                if a.as_str() == Some("list"@) {
                    assert(a == Json::Str("list"@));
                }
            },
            None => {},
        }
    }
}

/// The lengths of the tool names the policy lists.
proof fn lemma_listed_name_lengths()
    ensures
        "browser_click"@.len() == 13,
        "browser_console"@.len() == 15,
        "browser_get_images"@.len() == 18,
        "browser_snapshot"@.len() == 16,
        "browser_type"@.len() == 12,
        "computer_use"@.len() == 12,
        "cronjob"@.len() == 7,
        "delegate_task"@.len() == 13,
        "execute_code"@.len() == 12,
        "git_status"@.len() == 10,
        "ha_call_service"@.len() == 15,
        "ha_get_state"@.len() == 12,
        "ha_list_entities"@.len() == 16,
        "ha_list_services"@.len() == 16,
        "mcp__agent_graph__graph_execute"@.len() == 31,
        "mcp__agent_graph__graph_inspect"@.len() == 31,
        "mcp__agent_graph__graph_list"@.len() == 28,
        "mcp__agent_graph__graph_render"@.len() == 30,
        "mcp__agent_graph__graph_run_events"@.len() == 34,
        "mcp__agent_graph__graph_run_get"@.len() == 31,
        "mcp__agent_graph__graph_run_receipt"@.len() == 35,
        "mcp__agent_graph__graph_run_resume"@.len() == 34,
        "mcp__agent_graph__graph_run_start"@.len() == 33,
        "mcp__semantic_memory__sm_get_"@.len() == 29,
        "mcp__semantic_memory__sm_list_"@.len() == 30,
        "mcp__semantic_memory__sm_search"@.len() == 31,
        "patch"@.len() == 5,
        "project_create"@.len() == 14,
        "project_switch"@.len() == 14,
        "read_file"@.len() == 9,
        "search_files"@.len() == 12,
        "session_search"@.len() == 14,
        "skill_manage"@.len() == 12,
        "skill_view"@.len() == 10,
        "skills_list"@.len() == 11,
        "text_to_speech"@.len() == 14,
        "web_extract"@.len() == 11,
        "web_search"@.len() == 10,
        "write_file"@.len() == 10,
{
    reveal_strlit("browser_click");
    reveal_strlit("browser_console");
    reveal_strlit("browser_get_images");
    reveal_strlit("browser_snapshot");
    reveal_strlit("browser_type");
    reveal_strlit("computer_use");
    reveal_strlit("cronjob");
    reveal_strlit("delegate_task");
    reveal_strlit("execute_code");
    reveal_strlit("git_status");
    reveal_strlit("ha_call_service");
    reveal_strlit("ha_get_state");
    reveal_strlit("ha_list_entities");
    reveal_strlit("ha_list_services");
    reveal_strlit("mcp__agent_graph__graph_execute");
    reveal_strlit("mcp__agent_graph__graph_inspect");
    reveal_strlit("mcp__agent_graph__graph_list");
    reveal_strlit("mcp__agent_graph__graph_render");
    reveal_strlit("mcp__agent_graph__graph_run_events");
    reveal_strlit("mcp__agent_graph__graph_run_get");
    reveal_strlit("mcp__agent_graph__graph_run_receipt");
    reveal_strlit("mcp__agent_graph__graph_run_resume");
    reveal_strlit("mcp__agent_graph__graph_run_start");
    reveal_strlit("mcp__semantic_memory__sm_get_");
    reveal_strlit("mcp__semantic_memory__sm_list_");
    reveal_strlit("mcp__semantic_memory__sm_search");
    reveal_strlit("patch");
    reveal_strlit("project_create");
    reveal_strlit("project_switch");
    reveal_strlit("read_file");
    reveal_strlit("search_files");
    reveal_strlit("session_search");
    reveal_strlit("skill_manage");
    reveal_strlit("skill_view");
    reveal_strlit("skills_list");
    reveal_strlit("text_to_speech");
    reveal_strlit("web_extract");
    reveal_strlit("web_search");
    reveal_strlit("write_file");
}

/// Tools named (ignoring ASCII case) in the fixed lists of the policy have
/// their listed effect: the listed readers only read, the listed editors
/// mutate local state, and the listed device, browser and speech tools act
/// outside, whatever their arguments.
pub proof fn lemma_listed_tools_have_their_effect(name: Seq<char>, arguments: Json)
    ensures
        ({
            let lower = ascii_lower(name);
            lower == "read_file"@ || lower == "search_files"@ || lower == "session_search"@ || lower == "web_search"@ || lower == "web_extract"@ || lower == "browser_snapshot"@ || lower == "browser_get_images"@ || lower == "browser_console"@ || lower == "ha_get_state"@ || lower == "ha_list_entities"@ || lower == "ha_list_services"@ || lower == "skills_list"@ || lower == "skill_view"@ || lower == "git_status"@
        }) ==> classify_spec(name, arguments) == ToolEffect::ReadOnly,
        ({
            let lower = ascii_lower(name);
            lower == "write_file"@ || lower == "patch"@ || lower == "skill_manage"@ || lower == "project_create"@ || lower == "project_switch"@
        }) ==> classify_spec(name, arguments) == ToolEffect::LocalMutation,
        ({
            let lower = ascii_lower(name);
            lower == "ha_call_service"@ || lower == "browser_click"@ || lower == "browser_type"@ || lower == "computer_use"@ || lower == "text_to_speech"@
        }) ==> classify_spec(name, arguments) == ToolEffect::ExternalEffect,
{
    reveal_strlit("browser_click");
    reveal_strlit("browser_console");
    reveal_strlit("browser_get_images");
    reveal_strlit("browser_snapshot");
    reveal_strlit("browser_type");
    reveal_strlit("computer_use");
    reveal_strlit("cronjob");
    reveal_strlit("delegate_task");
    reveal_strlit("execute_code");
    reveal_strlit("git_status");
    reveal_strlit("ha_call_service");
    reveal_strlit("ha_get_state");
    reveal_strlit("ha_list_entities");
    reveal_strlit("ha_list_services");
    reveal_strlit("mcp__agent_graph__graph_execute");
    reveal_strlit("mcp__agent_graph__graph_inspect");
    reveal_strlit("mcp__agent_graph__graph_list");
    reveal_strlit("mcp__agent_graph__graph_render");
    reveal_strlit("mcp__agent_graph__graph_run_events");
    reveal_strlit("mcp__agent_graph__graph_run_get");
    reveal_strlit("mcp__agent_graph__graph_run_receipt");
    reveal_strlit("mcp__agent_graph__graph_run_resume");
    reveal_strlit("mcp__agent_graph__graph_run_start");
    reveal_strlit("mcp__semantic_memory__sm_get_");
    reveal_strlit("mcp__semantic_memory__sm_list_");
    reveal_strlit("mcp__semantic_memory__sm_search");
    reveal_strlit("patch");
    reveal_strlit("project_create");
    reveal_strlit("project_switch");
    reveal_strlit("read_file");
    reveal_strlit("search_files");
    reveal_strlit("session_search");
    reveal_strlit("skill_manage");
    reveal_strlit("skill_view");
    reveal_strlit("skills_list");
    reveal_strlit("text_to_speech");
    reveal_strlit("web_extract");
    reveal_strlit("web_search");
    reveal_strlit("write_file");
    let lower = ascii_lower(name);
    lemma_listed_name_lengths();
    if lower == "search_files"@ {
        assert(lower[0] == 's' && "execute_code"@[0] == 'e');
        lemma_differ_at(lower, "execute_code"@, 0);
    }
    if lower == "ha_get_state"@ {
        assert(lower[0] == 'h' && "execute_code"@[0] == 'e');
        lemma_differ_at(lower, "execute_code"@, 0);
    }
    if lower == "write_file"@ {
        assert(lower[1] == 'r' && "web_search"@[1] == 'e');
        lemma_differ_at(lower, "web_search"@, 1);
        assert(lower[0] == 'w' && "skill_view"@[0] == 's');
        lemma_differ_at(lower, "skill_view"@, 0);
        assert(lower[0] == 'w' && "git_status"@[0] == 'g');
        lemma_differ_at(lower, "git_status"@, 0);
    }
    if lower == "skill_manage"@ {
        assert(lower[0] == 's' && "execute_code"@[0] == 'e');
        lemma_differ_at(lower, "execute_code"@, 0);
        assert(lower[1] == 'k' && "search_files"@[1] == 'e');
        lemma_differ_at(lower, "search_files"@, 1);
        assert(lower[0] == 's' && "ha_get_state"@[0] == 'h');
        lemma_differ_at(lower, "ha_get_state"@, 0);
    }
    if lower == "project_create"@ {
        assert(lower[0] == 'p' && "session_search"@[0] == 's');
        lemma_differ_at(lower, "session_search"@, 0);
    }
    if lower == "project_switch"@ {
        assert(lower[0] == 'p' && "session_search"@[0] == 's');
        lemma_differ_at(lower, "session_search"@, 0);
    }
    if lower == "ha_call_service"@ {
        assert(lower[0] == 'h' && "browser_console"@[0] == 'b');
        lemma_differ_at(lower, "browser_console"@, 0);
    }
    if lower == "browser_click"@ {
        assert(lower[0] == 'b' && "delegate_task"@[0] == 'd');
        lemma_differ_at(lower, "delegate_task"@, 0);
    }
    if lower == "browser_type"@ {
        assert(lower[0] == 'b' && "execute_code"@[0] == 'e');
        lemma_differ_at(lower, "execute_code"@, 0);
        assert(lower[0] == 'b' && "search_files"@[0] == 's');
        lemma_differ_at(lower, "search_files"@, 0);
        assert(lower[0] == 'b' && "ha_get_state"@[0] == 'h');
        lemma_differ_at(lower, "ha_get_state"@, 0);
        assert(lower[0] == 'b' && "skill_manage"@[0] == 's');
        lemma_differ_at(lower, "skill_manage"@, 0);
    }
    if lower == "computer_use"@ {
        assert(lower[0] == 'c' && "execute_code"@[0] == 'e');
        lemma_differ_at(lower, "execute_code"@, 0);
        assert(lower[0] == 'c' && "search_files"@[0] == 's');
        lemma_differ_at(lower, "search_files"@, 0);
        assert(lower[0] == 'c' && "ha_get_state"@[0] == 'h');
        lemma_differ_at(lower, "ha_get_state"@, 0);
        assert(lower[0] == 'c' && "skill_manage"@[0] == 's');
        lemma_differ_at(lower, "skill_manage"@, 0);
    }
    if lower == "text_to_speech"@ {
        assert(lower[0] == 't' && "session_search"@[0] == 's');
        lemma_differ_at(lower, "session_search"@, 0);
        assert(lower[0] == 't' && "project_create"@[0] == 'p');
        lemma_differ_at(lower, "project_create"@, 0);
        assert(lower[0] == 't' && "project_switch"@[0] == 'p');
        lemma_differ_at(lower, "project_switch"@, 0);
    }
}

/// The listed query tools of the semantic memory and of the graph server
/// only read: a tool whose name, ignoring ASCII case, starts with one of
/// their prefixes is read-only whatever its arguments.
pub proof fn lemma_query_tools_only_read(name: Seq<char>, arguments: Json)
    ensures
        ({
            let lower = ascii_lower(name);
            starts_with(lower, "mcp__semantic_memory__sm_get_"@)
                || starts_with(lower, "mcp__semantic_memory__sm_list_"@)
                || starts_with(lower, "mcp__semantic_memory__sm_search"@)
                || starts_with(lower, "mcp__agent_graph__graph_list"@)
                || starts_with(lower, "mcp__agent_graph__graph_inspect"@)
                || starts_with(lower, "mcp__agent_graph__graph_render"@)
                || starts_with(lower, "mcp__agent_graph__graph_run_get"@)
                || starts_with(lower, "mcp__agent_graph__graph_run_events"@)
                || starts_with(lower, "mcp__agent_graph__graph_run_receipt"@)
        }) ==> classify_spec(name, arguments) == ToolEffect::ReadOnly,
{
    reveal_strlit("mcp__agent_graph__graph_execute");
    reveal_strlit("mcp__agent_graph__graph_run_start");
    reveal_strlit("mcp__agent_graph__graph_run_resume");
    reveal_strlit("mcp__semantic_memory__sm_get_");
    reveal_strlit("mcp__semantic_memory__sm_list_");
    reveal_strlit("mcp__semantic_memory__sm_search");
    reveal_strlit("mcp__agent_graph__graph_list");
    reveal_strlit("mcp__agent_graph__graph_inspect");
    reveal_strlit("mcp__agent_graph__graph_render");
    reveal_strlit("mcp__agent_graph__graph_run_get");
    reveal_strlit("mcp__agent_graph__graph_run_events");
    reveal_strlit("mcp__agent_graph__graph_run_receipt");
    reveal_strlit("cronjob");
    reveal_strlit("delegate_task");
    reveal_strlit("execute_code");
    let lower = ascii_lower(name);
    if starts_with(lower, "mcp__semantic_memory__sm_get_"@) {
        assert("mcp__semantic_memory__sm_get_"@.len() == 29);
        assert(lower.len() >= 29);
        assert("cronjob"@.len() == 7);
        assert("delegate_task"@.len() == 13);
        assert("execute_code"@.len() == 12);
        assert(lower.subrange(0, 29)[5] == lower[5]);
        assert(lower[5] == 's' && "mcp__agent_graph__graph_execute"@[5] == 'a');
        assert(!starts_with(lower, "mcp__agent_graph__graph_execute"@)) by {
            if starts_with(lower, "mcp__agent_graph__graph_execute"@) {
                assert(lower.subrange(0, 31)[5] == lower[5]);
            }
        }
        assert(lower.subrange(0, 29)[5] == lower[5]);
        assert(lower[5] == 's' && "mcp__agent_graph__graph_run_start"@[5] == 'a');
        assert(!starts_with(lower, "mcp__agent_graph__graph_run_start"@)) by {
            if starts_with(lower, "mcp__agent_graph__graph_run_start"@) {
                assert(lower.subrange(0, 33)[5] == lower[5]);
            }
        }
        assert(lower.subrange(0, 29)[5] == lower[5]);
        assert(lower[5] == 's' && "mcp__agent_graph__graph_run_resume"@[5] == 'a');
        assert(!starts_with(lower, "mcp__agent_graph__graph_run_resume"@)) by {
            if starts_with(lower, "mcp__agent_graph__graph_run_resume"@) {
                assert(lower.subrange(0, 34)[5] == lower[5]);
            }
        }
    }
    if starts_with(lower, "mcp__semantic_memory__sm_list_"@) {
        assert("mcp__semantic_memory__sm_list_"@.len() == 30);
        assert(lower.len() >= 30);
        assert("cronjob"@.len() == 7);
        assert("delegate_task"@.len() == 13);
        assert("execute_code"@.len() == 12);
        assert(lower.subrange(0, 30)[5] == lower[5]);
        assert(lower[5] == 's' && "mcp__agent_graph__graph_execute"@[5] == 'a');
        assert(!starts_with(lower, "mcp__agent_graph__graph_execute"@)) by {
            if starts_with(lower, "mcp__agent_graph__graph_execute"@) {
                assert(lower.subrange(0, 31)[5] == lower[5]);
            }
        }
        assert(lower.subrange(0, 30)[5] == lower[5]);
        assert(lower[5] == 's' && "mcp__agent_graph__graph_run_start"@[5] == 'a');
        assert(!starts_with(lower, "mcp__agent_graph__graph_run_start"@)) by {
            if starts_with(lower, "mcp__agent_graph__graph_run_start"@) {
                assert(lower.subrange(0, 33)[5] == lower[5]);
            }
        }
        assert(lower.subrange(0, 30)[5] == lower[5]);
        assert(lower[5] == 's' && "mcp__agent_graph__graph_run_resume"@[5] == 'a');
        assert(!starts_with(lower, "mcp__agent_graph__graph_run_resume"@)) by {
            if starts_with(lower, "mcp__agent_graph__graph_run_resume"@) {
                assert(lower.subrange(0, 34)[5] == lower[5]);
            }
        }
    }
    if starts_with(lower, "mcp__semantic_memory__sm_search"@) {
        assert("mcp__semantic_memory__sm_search"@.len() == 31);
        assert(lower.len() >= 31);
        assert("cronjob"@.len() == 7);
        assert("delegate_task"@.len() == 13);
        assert("execute_code"@.len() == 12);
        assert(lower.subrange(0, 31)[5] == lower[5]);
        assert(lower[5] == 's' && "mcp__agent_graph__graph_execute"@[5] == 'a');
        assert(!starts_with(lower, "mcp__agent_graph__graph_execute"@)) by {
            if starts_with(lower, "mcp__agent_graph__graph_execute"@) {
                assert(lower.subrange(0, 31)[5] == lower[5]);
            }
        }
        assert(lower.subrange(0, 31)[5] == lower[5]);
        assert(lower[5] == 's' && "mcp__agent_graph__graph_run_start"@[5] == 'a');
        assert(!starts_with(lower, "mcp__agent_graph__graph_run_start"@)) by {
            if starts_with(lower, "mcp__agent_graph__graph_run_start"@) {
                assert(lower.subrange(0, 33)[5] == lower[5]);
            }
        }
        assert(lower.subrange(0, 31)[5] == lower[5]);
        assert(lower[5] == 's' && "mcp__agent_graph__graph_run_resume"@[5] == 'a');
        assert(!starts_with(lower, "mcp__agent_graph__graph_run_resume"@)) by {
            if starts_with(lower, "mcp__agent_graph__graph_run_resume"@) {
                assert(lower.subrange(0, 34)[5] == lower[5]);
            }
        }
    }
    if starts_with(lower, "mcp__agent_graph__graph_list"@) {
        assert("mcp__agent_graph__graph_list"@.len() == 28);
        assert(lower.len() >= 28);
        assert("cronjob"@.len() == 7);
        assert("delegate_task"@.len() == 13);
        assert("execute_code"@.len() == 12);
        assert(lower.subrange(0, 28)[24] == lower[24]);
        assert(lower[24] == 'l' && "mcp__agent_graph__graph_execute"@[24] == 'e');
        assert(!starts_with(lower, "mcp__agent_graph__graph_execute"@)) by {
            if starts_with(lower, "mcp__agent_graph__graph_execute"@) {
                assert(lower.subrange(0, 31)[24] == lower[24]);
            }
        }
        assert(lower.subrange(0, 28)[24] == lower[24]);
        assert(lower[24] == 'l' && "mcp__agent_graph__graph_run_start"@[24] == 'r');
        assert(!starts_with(lower, "mcp__agent_graph__graph_run_start"@)) by {
            if starts_with(lower, "mcp__agent_graph__graph_run_start"@) {
                assert(lower.subrange(0, 33)[24] == lower[24]);
            }
        }
        assert(lower.subrange(0, 28)[24] == lower[24]);
        assert(lower[24] == 'l' && "mcp__agent_graph__graph_run_resume"@[24] == 'r');
        assert(!starts_with(lower, "mcp__agent_graph__graph_run_resume"@)) by {
            if starts_with(lower, "mcp__agent_graph__graph_run_resume"@) {
                assert(lower.subrange(0, 34)[24] == lower[24]);
            }
        }
    }
    if starts_with(lower, "mcp__agent_graph__graph_inspect"@) {
        assert("mcp__agent_graph__graph_inspect"@.len() == 31);
        assert(lower.len() >= 31);
        assert("cronjob"@.len() == 7);
        assert("delegate_task"@.len() == 13);
        assert("execute_code"@.len() == 12);
        assert(lower.subrange(0, 31)[24] == lower[24]);
        assert(lower[24] == 'i' && "mcp__agent_graph__graph_execute"@[24] == 'e');
        assert(!starts_with(lower, "mcp__agent_graph__graph_execute"@)) by {
            if starts_with(lower, "mcp__agent_graph__graph_execute"@) {
                assert(lower.subrange(0, 31)[24] == lower[24]);
            }
        }
        assert(lower.subrange(0, 31)[24] == lower[24]);
        assert(lower[24] == 'i' && "mcp__agent_graph__graph_run_start"@[24] == 'r');
        assert(!starts_with(lower, "mcp__agent_graph__graph_run_start"@)) by {
            if starts_with(lower, "mcp__agent_graph__graph_run_start"@) {
                assert(lower.subrange(0, 33)[24] == lower[24]);
            }
        }
        assert(lower.subrange(0, 31)[24] == lower[24]);
        assert(lower[24] == 'i' && "mcp__agent_graph__graph_run_resume"@[24] == 'r');
        assert(!starts_with(lower, "mcp__agent_graph__graph_run_resume"@)) by {
            if starts_with(lower, "mcp__agent_graph__graph_run_resume"@) {
                assert(lower.subrange(0, 34)[24] == lower[24]);
            }
        }
    }
    if starts_with(lower, "mcp__agent_graph__graph_render"@) {
        assert("mcp__agent_graph__graph_render"@.len() == 30);
        assert(lower.len() >= 30);
        assert("cronjob"@.len() == 7);
        assert("delegate_task"@.len() == 13);
        assert("execute_code"@.len() == 12);
        assert(lower.subrange(0, 30)[24] == lower[24]);
        assert(lower[24] == 'r' && "mcp__agent_graph__graph_execute"@[24] == 'e');
        assert(!starts_with(lower, "mcp__agent_graph__graph_execute"@)) by {
            if starts_with(lower, "mcp__agent_graph__graph_execute"@) {
                assert(lower.subrange(0, 31)[24] == lower[24]);
            }
        }
        assert(lower.subrange(0, 30)[25] == lower[25]);
        assert(lower[25] == 'e' && "mcp__agent_graph__graph_run_start"@[25] == 'u');
        assert(!starts_with(lower, "mcp__agent_graph__graph_run_start"@)) by {
            if starts_with(lower, "mcp__agent_graph__graph_run_start"@) {
                assert(lower.subrange(0, 33)[25] == lower[25]);
            }
        }
        assert(lower.subrange(0, 30)[25] == lower[25]);
        assert(lower[25] == 'e' && "mcp__agent_graph__graph_run_resume"@[25] == 'u');
        assert(!starts_with(lower, "mcp__agent_graph__graph_run_resume"@)) by {
            if starts_with(lower, "mcp__agent_graph__graph_run_resume"@) {
                assert(lower.subrange(0, 34)[25] == lower[25]);
            }
        }
    }
    if starts_with(lower, "mcp__agent_graph__graph_run_get"@) {
        assert("mcp__agent_graph__graph_run_get"@.len() == 31);
        assert(lower.len() >= 31);
        assert("cronjob"@.len() == 7);
        assert("delegate_task"@.len() == 13);
        assert("execute_code"@.len() == 12);
        assert(lower.subrange(0, 31)[24] == lower[24]);
        assert(lower[24] == 'r' && "mcp__agent_graph__graph_execute"@[24] == 'e');
        assert(!starts_with(lower, "mcp__agent_graph__graph_execute"@)) by {
            if starts_with(lower, "mcp__agent_graph__graph_execute"@) {
                assert(lower.subrange(0, 31)[24] == lower[24]);
            }
        }
        assert(lower.subrange(0, 31)[28] == lower[28]);
        assert(lower[28] == 'g' && "mcp__agent_graph__graph_run_start"@[28] == 's');
        assert(!starts_with(lower, "mcp__agent_graph__graph_run_start"@)) by {
            if starts_with(lower, "mcp__agent_graph__graph_run_start"@) {
                assert(lower.subrange(0, 33)[28] == lower[28]);
            }
        }
        assert(lower.subrange(0, 31)[28] == lower[28]);
        assert(lower[28] == 'g' && "mcp__agent_graph__graph_run_resume"@[28] == 'r');
        assert(!starts_with(lower, "mcp__agent_graph__graph_run_resume"@)) by {
            if starts_with(lower, "mcp__agent_graph__graph_run_resume"@) {
                assert(lower.subrange(0, 34)[28] == lower[28]);
            }
        }
    }
    if starts_with(lower, "mcp__agent_graph__graph_run_events"@) {
        assert("mcp__agent_graph__graph_run_events"@.len() == 34);
        assert(lower.len() >= 34);
        assert("cronjob"@.len() == 7);
        assert("delegate_task"@.len() == 13);
        assert("execute_code"@.len() == 12);
        assert(lower.subrange(0, 34)[24] == lower[24]);
        assert(lower[24] == 'r' && "mcp__agent_graph__graph_execute"@[24] == 'e');
        assert(!starts_with(lower, "mcp__agent_graph__graph_execute"@)) by {
            if starts_with(lower, "mcp__agent_graph__graph_execute"@) {
                assert(lower.subrange(0, 31)[24] == lower[24]);
            }
        }
        assert(lower.subrange(0, 34)[28] == lower[28]);
        assert(lower[28] == 'e' && "mcp__agent_graph__graph_run_start"@[28] == 's');
        assert(!starts_with(lower, "mcp__agent_graph__graph_run_start"@)) by {
            if starts_with(lower, "mcp__agent_graph__graph_run_start"@) {
                assert(lower.subrange(0, 33)[28] == lower[28]);
            }
        }
        assert(lower.subrange(0, 34)[28] == lower[28]);
        assert(lower[28] == 'e' && "mcp__agent_graph__graph_run_resume"@[28] == 'r');
        assert(!starts_with(lower, "mcp__agent_graph__graph_run_resume"@)) by {
            if starts_with(lower, "mcp__agent_graph__graph_run_resume"@) {
                assert(lower.subrange(0, 34)[28] == lower[28]);
            }
        }
    }
    if starts_with(lower, "mcp__agent_graph__graph_run_receipt"@) {
        assert("mcp__agent_graph__graph_run_receipt"@.len() == 35);
        assert(lower.len() >= 35);
        assert("cronjob"@.len() == 7);
        assert("delegate_task"@.len() == 13);
        assert("execute_code"@.len() == 12);
        assert(lower.subrange(0, 35)[24] == lower[24]);
        assert(lower[24] == 'r' && "mcp__agent_graph__graph_execute"@[24] == 'e');
        assert(!starts_with(lower, "mcp__agent_graph__graph_execute"@)) by {
            if starts_with(lower, "mcp__agent_graph__graph_execute"@) {
                assert(lower.subrange(0, 31)[24] == lower[24]);
            }
        }
        assert(lower.subrange(0, 35)[28] == lower[28]);
        assert(lower[28] == 'r' && "mcp__agent_graph__graph_run_start"@[28] == 's');
        assert(!starts_with(lower, "mcp__agent_graph__graph_run_start"@)) by {
            if starts_with(lower, "mcp__agent_graph__graph_run_start"@) {
                assert(lower.subrange(0, 33)[28] == lower[28]);
            }
        }
        assert(lower.subrange(0, 35)[30] == lower[30]);
        assert(lower[30] == 'c' && "mcp__agent_graph__graph_run_resume"@[30] == 's');
        assert(!starts_with(lower, "mcp__agent_graph__graph_run_resume"@)) by {
            if starts_with(lower, "mcp__agent_graph__graph_run_resume"@) {
                assert(lower.subrange(0, 34)[30] == lower[30]);
            }
        }
    }
}

/// Outside the listed tools and the `mcp__` servers, a tool changes
/// authority when its name (ignoring ASCII case) mentions `approval` or
/// ends in `delete_namespace` or `delete_fact`; any other such tool is
/// taken to act outside.
pub proof fn lemma_unlisted_tools(name: Seq<char>, arguments: Json)
    requires
        !starts_with(ascii_lower(name), "mcp__"@),
        ascii_lower(name) != "delegate_task"@,
        ascii_lower(name) != "execute_code"@,
        ascii_lower(name) != "cronjob"@,
        ascii_lower(name) != "read_file"@,
        ascii_lower(name) != "search_files"@,
        ascii_lower(name) != "session_search"@,
        ascii_lower(name) != "web_search"@,
        ascii_lower(name) != "web_extract"@,
        ascii_lower(name) != "browser_snapshot"@,
        ascii_lower(name) != "browser_get_images"@,
        ascii_lower(name) != "browser_console"@,
        ascii_lower(name) != "ha_get_state"@,
        ascii_lower(name) != "ha_list_entities"@,
        ascii_lower(name) != "ha_list_services"@,
        ascii_lower(name) != "skills_list"@,
        ascii_lower(name) != "skill_view"@,
        ascii_lower(name) != "git_status"@,
        ascii_lower(name) != "write_file"@,
        ascii_lower(name) != "patch"@,
        ascii_lower(name) != "skill_manage"@,
        ascii_lower(name) != "project_create"@,
        ascii_lower(name) != "project_switch"@,
        ascii_lower(name) != "ha_call_service"@,
        ascii_lower(name) != "browser_click"@,
        ascii_lower(name) != "browser_type"@,
        ascii_lower(name) != "computer_use"@,
        ascii_lower(name) != "text_to_speech"@,
    ensures
        ({
            let lower = ascii_lower(name);
            contains(lower, "approval"@) || ends_with(lower, "delete_namespace"@) || ends_with(lower, "delete_fact"@)
        }) ==> classify_spec(name, arguments) == ToolEffect::AuthorityChange,
        !({
            let lower = ascii_lower(name);
            contains(lower, "approval"@) || ends_with(lower, "delete_namespace"@) || ends_with(lower, "delete_fact"@)
        }) ==> classify_spec(name, arguments) == ToolEffect::ExternalEffect,
{
    reveal_strlit("mcp__agent_graph__graph_execute");
    reveal_strlit("mcp__agent_graph__graph_run_start");
    reveal_strlit("mcp__agent_graph__graph_run_resume");
    reveal_strlit("mcp__semantic_memory__sm_get_");
    reveal_strlit("mcp__semantic_memory__sm_list_");
    reveal_strlit("mcp__semantic_memory__sm_search");
    reveal_strlit("mcp__agent_graph__graph_list");
    reveal_strlit("mcp__agent_graph__graph_inspect");
    reveal_strlit("mcp__agent_graph__graph_render");
    reveal_strlit("mcp__agent_graph__graph_run_get");
    reveal_strlit("mcp__agent_graph__graph_run_events");
    reveal_strlit("mcp__agent_graph__graph_run_receipt");
    reveal_strlit("mcp__");
    reveal_strlit("approval");
    reveal_strlit("delete_namespace");
    reveal_strlit("delete_fact");
    let lower = ascii_lower(name);
    if starts_with(lower, "mcp__agent_graph__graph_execute"@) {
        assert("mcp__agent_graph__graph_execute"@.subrange(0, 5) =~= "mcp__"@);
        assert(lower.subrange(0, 5) =~= lower.subrange(0, 31).subrange(0, 5));
    }
    if starts_with(lower, "mcp__agent_graph__graph_run_start"@) {
        assert("mcp__agent_graph__graph_run_start"@.subrange(0, 5) =~= "mcp__"@);
        assert(lower.subrange(0, 5) =~= lower.subrange(0, 33).subrange(0, 5));
    }
    if starts_with(lower, "mcp__agent_graph__graph_run_resume"@) {
        assert("mcp__agent_graph__graph_run_resume"@.subrange(0, 5) =~= "mcp__"@);
        assert(lower.subrange(0, 5) =~= lower.subrange(0, 34).subrange(0, 5));
    }
    if starts_with(lower, "mcp__semantic_memory__sm_get_"@) {
        assert("mcp__semantic_memory__sm_get_"@.subrange(0, 5) =~= "mcp__"@);
        assert(lower.subrange(0, 5) =~= lower.subrange(0, 29).subrange(0, 5));
    }
    if starts_with(lower, "mcp__semantic_memory__sm_list_"@) {
        assert("mcp__semantic_memory__sm_list_"@.subrange(0, 5) =~= "mcp__"@);
        assert(lower.subrange(0, 5) =~= lower.subrange(0, 30).subrange(0, 5));
    }
    if starts_with(lower, "mcp__semantic_memory__sm_search"@) {
        assert("mcp__semantic_memory__sm_search"@.subrange(0, 5) =~= "mcp__"@);
        assert(lower.subrange(0, 5) =~= lower.subrange(0, 31).subrange(0, 5));
    }
    if starts_with(lower, "mcp__agent_graph__graph_list"@) {
        assert("mcp__agent_graph__graph_list"@.subrange(0, 5) =~= "mcp__"@);
        assert(lower.subrange(0, 5) =~= lower.subrange(0, 28).subrange(0, 5));
    }
    if starts_with(lower, "mcp__agent_graph__graph_inspect"@) {
        assert("mcp__agent_graph__graph_inspect"@.subrange(0, 5) =~= "mcp__"@);
        assert(lower.subrange(0, 5) =~= lower.subrange(0, 31).subrange(0, 5));
    }
    if starts_with(lower, "mcp__agent_graph__graph_render"@) {
        assert("mcp__agent_graph__graph_render"@.subrange(0, 5) =~= "mcp__"@);
        assert(lower.subrange(0, 5) =~= lower.subrange(0, 30).subrange(0, 5));
    }
    if starts_with(lower, "mcp__agent_graph__graph_run_get"@) {
        assert("mcp__agent_graph__graph_run_get"@.subrange(0, 5) =~= "mcp__"@);
        assert(lower.subrange(0, 5) =~= lower.subrange(0, 31).subrange(0, 5));
    }
    if starts_with(lower, "mcp__agent_graph__graph_run_events"@) {
        assert("mcp__agent_graph__graph_run_events"@.subrange(0, 5) =~= "mcp__"@);
        assert(lower.subrange(0, 5) =~= lower.subrange(0, 34).subrange(0, 5));
    }
    if starts_with(lower, "mcp__agent_graph__graph_run_receipt"@) {
        assert("mcp__agent_graph__graph_run_receipt"@.subrange(0, 5) =~= "mcp__"@);
        assert(lower.subrange(0, 5) =~= lower.subrange(0, 35).subrange(0, 5));
    }
}

} // verus!
