//! The daemon's operator service: which operator requests it will carry to
//! the retention store, and how the store's verdict is answered.
//!
//! Frame validation, the authorization time window, the request digest and
//! the store itself live outside this module; what is decided here is the
//! resource and peer screening, the reading of the decision material, and
//! the response for each outcome of a retention request.
use vstd::prelude::*;
use crate::json::{decimal, parsed_json, Json, JsonValue};
use crate::crypto::{digest, digest_text};
use crate::tool_runtime::{time_lt, UtcTime};
use crate::text::{chars_of, str_eq};
use vstd::utf8::encode_utf8;

verus! {

/// The operator wire protocol the daemon speaks.
pub const PROTOCOL: &'static str = "agent_graph.operator.v1";

/// The kernel-reported credentials of the connected peer.
#[derive(Debug, Clone, Copy, PartialEq, Eq)]
pub struct PeerCredentials {
    pub uid: u32,
    pub gid: u32,
}

/// The daemon's answer to one operator frame.
#[derive(Debug)]
pub struct OperatorResponse {
    pub protocol: String,
    pub ok: bool,
    pub error_code: Option<String>,
    pub receipt_id: Option<String>,
}

/// Why the store refused a retention request.
#[derive(Debug, Clone, Copy, PartialEq, Eq)]
pub enum OperatorRetentionError {
    StaleState,
    NonceReplayed,
    Tombstoned,
    Referenced,
    ReferencedBySubgraph,
    InvalidState,
    InvalidTransition,
    NotFound,
    InvalidAction,
    Persistence,
}

/// What the store did with an accepted retention request.
#[derive(Debug)]
pub enum OperatorRetentionResult {
    /// The request was applied now.
    Applied { receipt_id: String },
    /// The same request was applied before; its receipt is returned again.
    Replayed { receipt_id: String },
}

/// The error code reported for each refusal of the store.
pub open spec fn retention_error_code(e: OperatorRetentionError) -> Seq<char> {
    match e {
        OperatorRetentionError::StaleState => "AUTHORIZATION_STATE_STALE"@,
        OperatorRetentionError::NonceReplayed => "AUTHORIZATION_NONCE_REPLAYED"@,
        OperatorRetentionError::Tombstoned => "GRAPH_TOMBSTONED"@,
        OperatorRetentionError::Referenced => "GRAPH_REFERENCED"@,
        OperatorRetentionError::ReferencedBySubgraph => "GRAPH_REFERENCED_BY_SUBGRAPH"@,
        OperatorRetentionError::InvalidState => "RETENTION_STATE_INVALID"@,
        OperatorRetentionError::InvalidTransition => "RETENTION_TRANSITION_INVALID"@,
        OperatorRetentionError::NotFound => "GRAPH_NOT_FOUND"@,
        OperatorRetentionError::InvalidAction => "OPERATOR_ACTION_UNSUPPORTED"@,
        OperatorRetentionError::Persistence => "OPERATOR_PERSISTENCE_FAILED"@,
    }
}

impl OperatorRetentionError {
    pub fn code(&self) -> (r: &'static str)
        ensures
            r@ == retention_error_code(*self),
    {
        match self {
            OperatorRetentionError::StaleState => "AUTHORIZATION_STATE_STALE",
            OperatorRetentionError::NonceReplayed => "AUTHORIZATION_NONCE_REPLAYED",
            OperatorRetentionError::Tombstoned => "GRAPH_TOMBSTONED",
            OperatorRetentionError::Referenced => "GRAPH_REFERENCED",
            OperatorRetentionError::ReferencedBySubgraph => "GRAPH_REFERENCED_BY_SUBGRAPH",
            OperatorRetentionError::InvalidState => "RETENTION_STATE_INVALID",
            OperatorRetentionError::InvalidTransition => "RETENTION_TRANSITION_INVALID",
            OperatorRetentionError::NotFound => "GRAPH_NOT_FOUND",
            OperatorRetentionError::InvalidAction => "OPERATOR_ACTION_UNSUPPORTED",
            OperatorRetentionError::Persistence => "OPERATOR_PERSISTENCE_FAILED",
        }
    }
}

/// A refusal carrying `code`.
pub fn rejection(code: &str) -> (r: OperatorResponse)
    ensures
        r.protocol@ == PROTOCOL@,
        !r.ok,
        r.error_code matches Some(c) && c@ == code@,
        r.receipt_id is None,
{
    OperatorResponse {
        protocol: PROTOCOL.to_owned(),
        ok: false,
        error_code: Some(code.to_owned()),
        receipt_id: None,
    }
}

/// The receipt of an accepted request, or the store's refusal.
pub open spec fn outcome_view(result: Result<OperatorRetentionResult, OperatorRetentionError>) -> Result<
    Seq<char>,
    OperatorRetentionError,
> {
    match result {
        Ok(OperatorRetentionResult::Applied { receipt_id }) => Ok(receipt_id@),
        Ok(OperatorRetentionResult::Replayed { receipt_id }) => Ok(receipt_id@),
        Err(e) => Err(e),
    }
}

/// The answer (`ok`, error code, receipt) to an outcome.
pub open spec fn answer_spec(outcome: Result<Seq<char>, OperatorRetentionError>) -> (bool, Option<Seq<char>>, Option<Seq<char>>) {
    match outcome {
        Ok(id) => (true, None, Some(id)),
        Err(e) => (false, Some(retention_error_code(e)), None),
    }
}

pub open spec fn opt_text(o: Option<String>) -> Option<Seq<char>> {
    match o {
        Some(s) => Some(s@),
        None => None,
    }
}

/// The answer to the store's outcome: an accepted request (new or seen
/// before) returns its receipt; a refused one returns the store's code.
pub fn retention_response(result: Result<OperatorRetentionResult, OperatorRetentionError>) -> (r: OperatorResponse)
    ensures
        r.protocol@ == PROTOCOL@,
        (r.ok, opt_text(r.error_code), opt_text(r.receipt_id)) == answer_spec(outcome_view(result)),
{
    match result {
        Ok(OperatorRetentionResult::Applied { receipt_id }) | Ok(OperatorRetentionResult::Replayed { receipt_id }) => {
            OperatorResponse { protocol: PROTOCOL.to_owned(), ok: true, error_code: None, receipt_id: Some(receipt_id) }
        },
        Err(e) => rejection(e.code()),
    }
}

/// A replayed request is answered exactly as it was when first applied: the
/// same success and the same receipt, so a retried operator command is
/// idempotent.
pub proof fn lemma_replay_answers_as_applied(receipt_id: String)
    ensures
        answer_spec(outcome_view(Ok(OperatorRetentionResult::Replayed { receipt_id })))
            == answer_spec(outcome_view(Ok(OperatorRetentionResult::Applied { receipt_id }))),
{
}

/// A refused request never carries a receipt, and an accepted one never
/// carries an error code.
pub proof fn lemma_answers_fail_closed(outcome: Result<Seq<char>, OperatorRetentionError>)
    ensures
        answer_spec(outcome).0 <==> outcome is Ok,
        !answer_spec(outcome).0 ==> answer_spec(outcome).2 is None && answer_spec(outcome).1 is Some,
        answer_spec(outcome).0 ==> answer_spec(outcome).1 is None && answer_spec(outcome).2 is Some,
{
}

/// The daemon's operator policy: the peers allowed to act and the daemon
/// instance that issues the receipts.
pub struct OperatorService {
    allowed_uids: Vec<u32>,
    daemon_instance_id: String,
}

/// The resource kind operator requests may name.
pub open spec fn graph_resource() -> Seq<char> {
    "graph"@
}

impl OperatorService {
    pub closed spec fn allowed(&self) -> Set<u32> {
        self.allowed_uids@.to_set()
    }

    pub closed spec fn instance(&self) -> Seq<char> {
        self.daemon_instance_id@
    }

    pub fn new(allowed_uids: Vec<u32>, daemon_instance_id: String) -> (r: Self)
        ensures
            r.allowed() == allowed_uids@.to_set(),
            r.instance() == daemon_instance_id@,
    {
        OperatorService { allowed_uids, daemon_instance_id }
    }

    pub fn daemon_instance_id(&self) -> (r: &str)
        ensures
            r@ == self.instance(),
    {
        self.daemon_instance_id.as_str()
    }

    /// Whether the peer's uid is one the daemon serves.
    pub fn admits(&self, uid: u32) -> (r: bool)
        ensures
            r == self.allowed().contains(uid),
    {
        let mut k: usize = 0;
        while k < self.allowed_uids.len()
            invariant
                k <= self.allowed_uids@.len(),
                forall|j: int| 0 <= j < k ==> self.allowed_uids@[j] != uid,
            decreases self.allowed_uids.len() - k,
        {
            if self.allowed_uids[k] == uid {
                assert(self.allowed_uids@.contains(uid));
                return true;
            }
            k += 1;
        }
        assert(!self.allowed_uids@.contains(uid));
        false
    }

    /// The screening of a well-formed frame before its timestamps are read:
    /// only graph resources are served, and only to allowed peers, in that
    /// order.
    pub fn screen(&self, resource_kind: &str, peer: PeerCredentials) -> (r: Result<(), &'static str>)
        ensures
            r == (if resource_kind@ != graph_resource() {
                Err::<(), &'static str>("OPERATOR_RESOURCE_UNSUPPORTED")
            } else if !self.allowed().contains(peer.uid) {
                Err::<(), &'static str>("OPERATOR_PEER_UNAUTHORIZED")
            } else {
                Ok::<(), &'static str>(())
            }),
    {
        if !str_eq(resource_kind, "graph") {
            return Err("OPERATOR_RESOURCE_UNSUPPORTED");
        }
        if !self.admits(peer.uid) {
            return Err("OPERATOR_PEER_UNAUTHORIZED");
        }
        Ok(())
    }
}

/// The decision material of a frame: its JSON, `{}` when absent; a
/// material that does not parse is refused.
pub fn decision_material(raw: &Option<String>) -> (r: Result<JsonValue, &'static str>)
    ensures
        match raw {
            None => r matches Ok(v) && v@ == Json::Object(Seq::empty()),
            Some(text) => match parsed_json(encode_utf8(text@)) {
                Ok(m) => r matches Ok(v) && v@ == m,
                Err(_) => r == Err::<JsonValue, &'static str>("OPERATOR_DECISION_INVALID"),
            },
        },
{
    match raw {
        None => {
            let v = JsonValue::Object(Vec::new());
            assert(v@->Object_0 =~= Seq::<(Seq<char>, Json)>::empty());
            Ok(v)
        },
        Some(text) => match JsonValue::parse(text.as_str()) {
            Ok(v) => Ok(v),
            Err(_) => Err("OPERATOR_DECISION_INVALID"),
        },
    }
}

/// A string member of the decision material (`state`, `reason`,
/// `review_after`); anything else reads as absent.
pub fn material_text(material: &JsonValue, key: &str) -> (r: Option<String>)
    ensures
        match material@.get(key@) {
            Some(Json::Str(s)) => r matches Some(t) && t@ == s,
            _ => r is None,
        },
{
    match material.get(key) {
        Some(JsonValue::Str(s)) => Some(s.clone()),
        _ => None,
    }
}

/// What the client reports for the daemon's answer: nothing on success,
/// else the error code, or a generic failure when the answer has none.
pub fn response_outcome(response: &OperatorResponse) -> (r: Result<(), String>)
    ensures
        response.ok ==> r is Ok,
        !response.ok ==> (r matches Err(e) && e@ == match response.error_code {
            Some(c) => c@,
            None => "operator request failed"@,
        }),
{
    if response.ok {
        return Ok(());
    }
    match &response.error_code {
        Some(c) => Err(c.clone()),
        None => Err("operator request failed".to_owned()),
    }
}

// ── Retention requests ──────────────────────────────────────────────────

/// An operator frame as it arrives on the operator socket; the action is
/// its wire name (`set_graph_retention`, `delete_graph`, ...).
#[derive(Debug, Clone)]
pub struct OperatorFrame {
    pub protocol: String,
    pub request_id: String,
    pub action: String,
    pub resource_kind: String,
    pub resource_id: String,
    pub expected_state_digest: String,
    pub nonce: String,
    pub issued_at: String,
    pub expires_at: String,
    pub decision_material: Option<String>,
}

/// The retention request the daemon hands to the store.
#[derive(Debug)]
pub struct OperatorRetentionRequest {
    pub request_digest: String,
    pub action: String,
    pub graph_id: String,
    pub expected_state_digest: String,
    pub nonce: String,
    pub operator_uid: u32,
    pub daemon_instance_id: String,
    pub issued_at: String,
    pub expires_at: String,
    pub state: Option<String>,
    pub reason: Option<String>,
    pub review_after: Option<String>,
}

/// What chrono makes of an RFC 3339 timestamp: the instant (whole seconds
/// since the epoch and nanoseconds) and its RFC 3339 text in UTC; `None`
/// when the text is not RFC 3339.
pub uninterp spec fn rfc3339_utc(s: Seq<char>) -> Option<(UtcTime, Seq<char>)>;

/// `DateTime::parse_from_rfc3339`, taken to UTC, with `timestamp`,
/// `timestamp_subsec_nanos` and `to_rfc3339` of the result. The result is
/// named `rfc3339_utc`: a function of the text alone.
#[verifier::external_body]
fn parse_rfc3339(s: &str) -> (r: Option<(UtcTime, String)>)
    ensures
        match r {
            Some((t, text)) => rfc3339_utc(s@) == Some((t, text@)),
            None => rfc3339_utc(s@) is None,
        },
{
    match chrono::DateTime::parse_from_rfc3339(s) {
        Ok(d) => {
            let u = d.with_timezone(&chrono::Utc);
            Some((UtcTime { secs: u.timestamp(), nanos: u.timestamp_subsec_nanos() }, u.to_rfc3339()))
        },
        Err(_) => None,
    }
}

/// The RFC 3339 text in UTC of a timestamp that parses.
pub open spec fn utc_text(s: Seq<char>) -> Seq<char> {
    match rfc3339_utc(s) {
        Some((_, text)) => text,
        None => Seq::empty(),
    }
}

/// The actions the operator service carries to the retention store.
pub open spec fn is_retention_action(action: Seq<char>) -> bool {
    action == "set_graph_retention"@ || action == "approve_graph_deletion"@ || action == "delete_graph"@
}

pub open spec fn material_json(raw: Option<String>) -> Result<Json, Seq<char>> {
    match raw {
        None => Ok(Json::Object(Seq::empty())),
        Some(text) => parsed_json(encode_utf8(text@)),
    }
}

/// The instant of a timestamp that parses.
pub open spec fn instant_of(s: Seq<char>) -> UtcTime {
    match rfc3339_utc(s) {
        Some((t, _)) => t,
        None => UtcTime { secs: 0, nanos: 0 },
    }
}

/// Why the service refuses a frame at `now`, in the order it checks: the
/// protocol version, the resource kind, the peer, the two timestamps, the
/// authorization window (a nonce is required, the authorization must not
/// have expired — `expires_at` after `now` — and must already be valid —
/// `issued_at` not after `now`), the action, then the decision material.
pub open spec fn refusal(allowed: Set<u32>, peer: PeerCredentials, frame: OperatorFrame, now: UtcTime) -> Option<Seq<char>> {
    if frame.protocol@ != PROTOCOL@ {
        Some("OPERATOR_PROTOCOL_UNSUPPORTED"@)
    } else if frame.resource_kind@ != graph_resource() {
        Some("OPERATOR_RESOURCE_UNSUPPORTED"@)
    } else if !allowed.contains(peer.uid) {
        Some("OPERATOR_PEER_UNAUTHORIZED"@)
    } else if rfc3339_utc(frame.issued_at@) is None || rfc3339_utc(frame.expires_at@) is None {
        Some("OPERATOR_TIMESTAMP_INVALID"@)
    } else if frame.nonce@.len() == 0 {
        Some("AUTHORIZATION_NONCE_REQUIRED"@)
    } else if !time_lt(now, instant_of(frame.expires_at@)) {
        Some("AUTHORIZATION_EXPIRED"@)
    } else if time_lt(now, instant_of(frame.issued_at@)) {
        Some("AUTHORIZATION_NOT_YET_VALID"@)
    } else if !is_retention_action(frame.action@) {
        Some("OPERATOR_ACTION_UNSUPPORTED"@)
    } else if material_json(frame.decision_material) is Err {
        Some("OPERATOR_DECISION_INVALID"@)
    } else {
        None
    }
}

/// The request material whose digest identifies a retention request:
/// the frame's fields, its decision material and the peer (sorted keys).
pub open spec fn request_material(peer: PeerCredentials, frame: OperatorFrame, material: Json) -> Json {
    Json::Object(
        seq![
            ("action"@, Json::Str(frame.action@)),
            ("decision_material"@, material),
            ("expected_state_digest"@, Json::Str(frame.expected_state_digest@)),
            ("expires_at"@, Json::Str(frame.expires_at@)),
            ("issued_at"@, Json::Str(frame.issued_at@)),
            ("nonce"@, Json::Str(frame.nonce@)),
            ("peer_gid"@, Json::Number(decimal(peer.gid as nat))),
            ("peer_uid"@, Json::Number(decimal(peer.uid as nat))),
            ("protocol"@, Json::Str(frame.protocol@)),
            ("request_id"@, Json::Str(frame.request_id@)),
            ("resource_id"@, Json::Str(frame.resource_id@)),
            ("resource_kind"@, Json::Str(frame.resource_kind@)),
        ],
    )
}

/// A string member of the decision material.
pub open spec fn material_member(material: Json, key: Seq<char>) -> Option<Seq<char>> {
    match material.get(key) {
        Some(Json::Str(s)) => Some(s),
        _ => None,
    }
}

/// The retention request the service builds from an accepted frame.
pub open spec fn request_for(instance: Seq<char>, peer: PeerCredentials, frame: OperatorFrame, r: OperatorRetentionRequest) -> bool {
    let material = material_json(frame.decision_material)->Ok_0;
    &&& r.request_digest@ == digest_text(request_material(peer, frame, material))
    &&& r.action@ == frame.action@
    &&& r.graph_id@ == frame.resource_id@
    &&& r.expected_state_digest@ == frame.expected_state_digest@
    &&& r.nonce@ == frame.nonce@
    &&& r.operator_uid == peer.uid
    &&& r.daemon_instance_id@ == instance
    &&& r.issued_at@ == utc_text(frame.issued_at@)
    &&& r.expires_at@ == utc_text(frame.expires_at@)
    &&& opt_text(r.state) == material_member(material, "state"@)
    &&& opt_text(r.reason) == material_member(material, "reason"@)
    &&& opt_text(r.review_after) == material_member(material, "review_after"@)
}

fn str_value(s: &String) -> (r: JsonValue)
    ensures
        r@ == Json::Str(s@),
{
    JsonValue::string(s.as_str())
}

fn material_value(peer: PeerCredentials, frame: &OperatorFrame, material: JsonValue) -> (r: JsonValue)
    ensures
        r@ == request_material(peer, *frame, material@),
{
    let ghost m = material@;
    let r = JsonValue::Object(
        vec![
            ("action".to_owned(), str_value(&frame.action)),
            ("decision_material".to_owned(), material),
            ("expected_state_digest".to_owned(), str_value(&frame.expected_state_digest)),
            ("expires_at".to_owned(), str_value(&frame.expires_at)),
            ("issued_at".to_owned(), str_value(&frame.issued_at)),
            ("nonce".to_owned(), str_value(&frame.nonce)),
            ("peer_gid".to_owned(), JsonValue::number_u64(peer.gid as u64)),
            ("peer_uid".to_owned(), JsonValue::number_u64(peer.uid as u64)),
            ("protocol".to_owned(), str_value(&frame.protocol)),
            ("request_id".to_owned(), str_value(&frame.request_id)),
            ("resource_id".to_owned(), str_value(&frame.resource_id)),
            ("resource_kind".to_owned(), str_value(&frame.resource_kind)),
        ],
    );
    assert(r@->Object_0 =~= request_material(peer, *frame, m)->Object_0);
    r
}

impl OperatorService {
    /// Turns an operator frame into the retention request for the store, or
    /// refuses it with the code of the first check it fails at `now`, the
    /// daemon's clock reading (see `refusal`). The store's verdict is
    /// answered by `retention_response`.
    pub fn operator_request(&self, peer: PeerCredentials, frame: &OperatorFrame, now: UtcTime) -> (r: Result<
        OperatorRetentionRequest,
        &'static str,
    >)
        ensures
            match r {
                Err(code) => refusal(self.allowed(), peer, *frame, now) == Some(code@),
                Ok(req) => refusal(self.allowed(), peer, *frame, now) is None && request_for(
                    self.instance(),
                    peer,
                    *frame,
                    req,
                ),
            },
    {
        if !str_eq(frame.protocol.as_str(), PROTOCOL) {
            return Err("OPERATOR_PROTOCOL_UNSUPPORTED");
        }
        match self.screen(frame.resource_kind.as_str(), peer) {
            Ok(()) => {},
            Err(code) => return Err(code),
        }
        let issued = parse_rfc3339(frame.issued_at.as_str());
        let expires = parse_rfc3339(frame.expires_at.as_str());
        let (issued_at, issued_text, expires_at, expires_text) = match (issued, expires) {
            (Some((it, i)), Some((et, e))) => (it, i, et, e),
            _ => return Err("OPERATOR_TIMESTAMP_INVALID"),
        };
        if chars_of(frame.nonce.as_str()).len() == 0 {
            return Err("AUTHORIZATION_NONCE_REQUIRED");
        }
        if !now.before(&expires_at) {
            return Err("AUTHORIZATION_EXPIRED");
        }
        if now.before(&issued_at) {
            return Err("AUTHORIZATION_NOT_YET_VALID");
        }
        let action = frame.action.as_str();
        if !(str_eq(action, "set_graph_retention") || str_eq(action, "approve_graph_deletion") || str_eq(
            action,
            "delete_graph",
        )) {
            return Err("OPERATOR_ACTION_UNSUPPORTED");
        }
        let material = match decision_material(&frame.decision_material) {
            Ok(m) => m,
            Err(code) => return Err(code),
        };
        let state = material_text(&material, "state");
        let reason = material_text(&material, "reason");
        let review_after = material_text(&material, "review_after");
        let ghost m = material@;
        let request_digest = digest(&material_value(peer, frame, material));
        let req = OperatorRetentionRequest {
            request_digest,
            action: frame.action.clone(),
            graph_id: frame.resource_id.clone(),
            expected_state_digest: frame.expected_state_digest.clone(),
            nonce: frame.nonce.clone(),
            operator_uid: peer.uid,
            daemon_instance_id: self.daemon_instance_id.clone(),
            issued_at: issued_text,
            expires_at: expires_text,
            state,
            reason,
            review_after,
        };
        assert(material_json(frame.decision_material) == Ok::<Json, Seq<char>>(m));
        Ok(req)
    }
}

} // verus!
