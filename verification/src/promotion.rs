//! Canonical, operator-authorized template promotion.
//!
//! Outcome evidence is advisory; only an authenticated operator receipt can
//! approve, and each authorization nonce is accepted once.
use vstd::prelude::*;
use vstd::utf8::encode_utf8;
use crate::crypto::{sha256_digest, sha256_hex, hex_text};
use crate::text::{
    eq_ignore_ascii_case, eq_ignore_ascii_case_exec, push_all, starts_with, starts_with_exec,
    chars_of, str_eq,
};

verus! {

#[derive(Debug, Clone, Copy, PartialEq, Eq, Structural)]
pub enum TemplateCandidateState {
    LegacyUnverified,
    Candidate,
    Quarantined,
    Approved,
    Revoked,
}

/// The transitions of the template life cycle.
pub open spec fn transition_allowed(from: TemplateCandidateState, to: TemplateCandidateState) -> bool {
    match from {
        TemplateCandidateState::LegacyUnverified => to == TemplateCandidateState::Quarantined,
        TemplateCandidateState::Candidate => to == TemplateCandidateState::Candidate || to
            == TemplateCandidateState::Quarantined || to == TemplateCandidateState::Approved,
        TemplateCandidateState::Approved => to == TemplateCandidateState::Approved || to
            == TemplateCandidateState::Quarantined || to == TemplateCandidateState::Revoked,
        TemplateCandidateState::Quarantined => to == TemplateCandidateState::Candidate,
        TemplateCandidateState::Revoked => false,
    }
}

pub open spec fn state_name(s: TemplateCandidateState) -> Seq<char> {
    match s {
        TemplateCandidateState::LegacyUnverified => "legacy_unverified"@,
        TemplateCandidateState::Candidate => "candidate"@,
        TemplateCandidateState::Quarantined => "quarantined"@,
        TemplateCandidateState::Approved => "approved"@,
        TemplateCandidateState::Revoked => "revoked"@,
    }
}

impl TemplateCandidateState {
    pub fn as_str(self) -> (r: &'static str)
        ensures
            r@ == state_name(self),
    {
        match self {
            TemplateCandidateState::LegacyUnverified => "legacy_unverified",
            TemplateCandidateState::Candidate => "candidate",
            TemplateCandidateState::Quarantined => "quarantined",
            TemplateCandidateState::Approved => "approved",
            TemplateCandidateState::Revoked => "revoked",
        }
    }

    pub fn can_transition(self, to: Self) -> (r: bool)
        ensures
            r == transition_allowed(self, to),
    {
        match self {
            TemplateCandidateState::LegacyUnverified => to == TemplateCandidateState::Quarantined,
            TemplateCandidateState::Candidate => to == TemplateCandidateState::Candidate || to
                == TemplateCandidateState::Quarantined || to == TemplateCandidateState::Approved,
            TemplateCandidateState::Approved => to == TemplateCandidateState::Approved || to
                == TemplateCandidateState::Quarantined || to == TemplateCandidateState::Revoked,
            TemplateCandidateState::Quarantined => to == TemplateCandidateState::Candidate,
            TemplateCandidateState::Revoked => false,
        }
    }
}

#[derive(Debug, Clone, PartialEq, Eq)]
pub struct TemplateOutcome {
    pub template_id: String,
    pub run_id: String,
    pub terminal_receipt_id: String,
    pub receipt_digest: String,
    pub disposition: String,
    pub evidence_digest: String,
}

/// The mathematical form of an outcome.
pub struct OutcomeView {
    pub template_id: Seq<char>,
    pub run_id: Seq<char>,
    pub terminal_receipt_id: Seq<char>,
    pub receipt_digest: Seq<char>,
    pub disposition: Seq<char>,
    pub evidence_digest: Seq<char>,
}

impl View for TemplateOutcome {
    type V = OutcomeView;

    open spec fn view(&self) -> OutcomeView {
        OutcomeView {
            template_id: self.template_id@,
            run_id: self.run_id@,
            terminal_receipt_id: self.terminal_receipt_id@,
            receipt_digest: self.receipt_digest@,
            disposition: self.disposition@,
            evidence_digest: self.evidence_digest@,
        }
    }
}

#[derive(Debug, Clone, PartialEq, Eq)]
pub struct OperatorReceipt {
    pub operator_id: String,
    pub nonce: String,
    pub authenticated: bool,
}

#[derive(Debug, Clone, PartialEq, Eq)]
pub enum PromotionError {
    Unauthorized,
    AuthorizationReplayed,
    NotFound,
    InvalidTransition,
    NotEligible,
    ReceiptMismatch(String),
    NonTerminal,
}

// ── Authorization nonces ────────────────────────────────────────────────

/// The authorization nonces already used. A promotion consumes its nonce
/// once it is authenticated, so that no receipt authorizes twice.
#[derive(Debug, Clone)]
pub struct NonceRegistry {
    used: Vec<String>,
}

impl View for NonceRegistry {
    type V = Set<Seq<char>>;

    closed spec fn view(&self) -> Set<Seq<char>> {
        Set::new(|n: Seq<char>| exists|i: int| 0 <= i < self.used@.len() && (#[trigger] self.used@[i])@ == n)
    }
}

impl NonceRegistry {
    /// An empty registry.
    pub fn new() -> (r: Self)
        ensures
            r@ == Set::<Seq<char>>::empty(),
    {
        let r = NonceRegistry { used: Vec::new() };
        assert(r@ =~= Set::<Seq<char>>::empty());
        r
    }

    /// Whether `nonce` was used.
    pub fn contains(&self, nonce: &str) -> (r: bool)
        ensures
            r == self@.contains(nonce@),
    {
        let mut i: usize = 0;
        while i < self.used.len()
            invariant
                i <= self.used@.len(),
                forall|j: int| 0 <= j < i ==> (#[trigger] self.used@[j])@ != nonce@,
            decreases self.used.len() - i,
        {
            if str_eq(self.used[i].as_str(), nonce) {
                assert(self@.contains(nonce@));
                return true;
            }
            i += 1;
        }
        false
    }

    /// Records `nonce`; true when it had not been used before.
    pub fn insert(&mut self, nonce: String) -> (r: bool)
        ensures
            r == !old(self)@.contains(nonce@),
            final(self)@ == old(self)@.insert(nonce@),
    {
        if self.contains(nonce.as_str()) {
            assert(self@ =~= self@.insert(nonce@));
            false
        } else {
            let ghost before = self@;
            self.used.push(nonce);
            assert forall|n: Seq<char>| self@.contains(n) == before.insert(nonce@).contains(n) by {
                if before.contains(n) {
                    let i = choose|i: int| 0 <= i < old(self).used@.len() && (#[trigger] old(self).used@[i])@ == n;
                    assert(self.used@[i] == old(self).used@[i]);
                }
                if self@.contains(n) && n != nonce@ {
                    let i = choose|i: int| 0 <= i < self.used@.len() && (#[trigger] self.used@[i])@ == n;
                    assert(i < old(self).used@.len());
                    assert(old(self).used@[i] == self.used@[i]);
                }
                if n == nonce@ {
                    assert(self.used@[self.used@.len() - 1]@ == n);
                }
            }
            assert(self@ =~= before.insert(nonce@));
            true
        }
    }
}

// ── The promotion store ─────────────────────────────────────────────────

#[derive(Debug, Clone)]
pub struct PromotionStore {
    pub template_id: String,
    pub spec_digest: String,
    pub graph_id: String,
    pub graph_version: String,
    pub state: TemplateCandidateState,
    pub outcomes: Vec<TemplateOutcome>,
    pub decisions: Vec<String>,
}

/// The mathematical form of a promotion store.
pub struct PromotionView {
    pub template_id: Seq<char>,
    pub spec_digest: Seq<char>,
    pub graph_id: Seq<char>,
    pub graph_version: Seq<char>,
    pub state: TemplateCandidateState,
    pub outcomes: Seq<OutcomeView>,
    pub decisions: Seq<Seq<char>>,
}

impl View for PromotionStore {
    type V = PromotionView;

    open spec fn view(&self) -> PromotionView {
        PromotionView {
            template_id: self.template_id@,
            spec_digest: self.spec_digest@,
            graph_id: self.graph_id@,
            graph_version: self.graph_version@,
            state: self.state,
            outcomes: self.outcomes@.map_values(|o: TemplateOutcome| o@),
            decisions: self.decisions@.map_values(|d: String| d@),
        }
    }
}

/// A disposition that quarantines the template.
pub open spec fn is_adverse(d: Seq<char>) -> bool {
    eq_ignore_ascii_case(d, "bad"@) || eq_ignore_ascii_case(d, "failed"@) || eq_ignore_ascii_case(
        d,
        "contradicted"@,
    )
}

/// A disposition that counts toward eligibility.
pub open spec fn is_favourable(d: Seq<char>) -> bool {
    eq_ignore_ascii_case(d, "good"@) || eq_ignore_ascii_case(d, "supported"@)
}

pub open spec fn has_run(outcomes: Seq<OutcomeView>, run_id: Seq<char>) -> bool {
    exists|i: int| 0 <= i < outcomes.len() && (#[trigger] outcomes[i]).run_id == run_id
}

/// Number of favourable outcomes.
pub open spec fn favourable_count(outcomes: Seq<OutcomeView>) -> nat
    decreases outcomes.len(),
{
    if outcomes.len() == 0 {
        0
    } else {
        favourable_count(outcomes.drop_last()) + if is_favourable(outcomes.last().disposition) {
            1nat
        } else {
            0nat
        }
    }
}

/// A candidate with at least three favourable outcomes.
pub open spec fn eligible_spec(s: PromotionView) -> bool {
    s.state == TemplateCandidateState::Candidate && favourable_count(s.outcomes) >= 3
}

/// The store after accepting an outcome of its template: a run already
/// recorded changes nothing; otherwise the outcome is recorded, and an
/// adverse one quarantines the template.
pub open spec fn with_outcome(s: PromotionView, o: OutcomeView) -> PromotionView {
    if has_run(s.outcomes, o.run_id) {
        s
    } else {
        PromotionView {
            state: if is_adverse(o.disposition) {
                TemplateCandidateState::Quarantined
            } else {
                s.state
            },
            outcomes: s.outcomes.push(o),
            ..s
        }
    }
}

/// Why a promotion attempt fails, in the order the checks are made; `None`
/// when it succeeds.
pub enum PromotionRefusal {
    Unauthorized,
    AuthorizationReplayed,
    NotEligible,
    InvalidTransition,
}

pub open spec fn is_operator_receipt(r: OperatorReceipt) -> bool {
    r.authenticated && starts_with(r.operator_id@, "operator:"@)
}

pub open spec fn promotion_refusal(s: PromotionView, used: Set<Seq<char>>, r: OperatorReceipt) -> Option<
    PromotionRefusal,
> {
    if !is_operator_receipt(r) {
        Some(PromotionRefusal::Unauthorized)
    } else if used.contains(r.nonce@) {
        Some(PromotionRefusal::AuthorizationReplayed)
    } else if !eligible_spec(s) {
        Some(PromotionRefusal::NotEligible)
    } else if !transition_allowed(s.state, TemplateCandidateState::Approved) {
        Some(PromotionRefusal::InvalidTransition)
    } else {
        None
    }
}

/// The nonce registry after a promotion attempt: an authenticated receipt
/// consumes its nonce whatever follows.
pub open spec fn nonces_after(used: Set<Seq<char>>, r: OperatorReceipt) -> Set<Seq<char>> {
    if is_operator_receipt(r) {
        used.insert(r.nonce@)
    } else {
        used
    }
}

/// The store after an approved promotion.
pub open spec fn approved(s: PromotionView, nonce: Seq<char>) -> PromotionView {
    PromotionView { state: TemplateCandidateState::Approved, decisions: s.decisions.push(nonce), ..s }
}

pub open spec fn error_matches(e: PromotionError, refusal: PromotionRefusal) -> bool {
    match refusal {
        PromotionRefusal::Unauthorized => e == PromotionError::Unauthorized,
        PromotionRefusal::AuthorizationReplayed => e == PromotionError::AuthorizationReplayed,
        PromotionRefusal::NotEligible => e == PromotionError::NotEligible,
        PromotionRefusal::InvalidTransition => e == PromotionError::InvalidTransition,
    }
}

fn mismatch(name: &str) -> (e: PromotionError)
    ensures
        e matches PromotionError::ReceiptMismatch(m) && m@ == name@,
{
    PromotionError::ReceiptMismatch(name.to_owned())
}

impl PromotionStore {
    pub fn new(template_id: &str, spec_digest: &str, graph_id: &str, graph_version: &str) -> (r: Self)
        ensures
            r@ == (PromotionView {
                template_id: template_id@,
                spec_digest: spec_digest@,
                graph_id: graph_id@,
                graph_version: graph_version@,
                state: TemplateCandidateState::Candidate,
                outcomes: Seq::empty(),
                decisions: Seq::empty(),
            }),
    {
        let r = PromotionStore {
            template_id: template_id.to_owned(),
            spec_digest: spec_digest.to_owned(),
            graph_id: graph_id.to_owned(),
            graph_version: graph_version.to_owned(),
            state: TemplateCandidateState::Candidate,
            outcomes: Vec::new(),
            decisions: Vec::new(),
        };
        assert(r@.outcomes =~= Seq::<OutcomeView>::empty());
        assert(r@.decisions =~= Seq::<Seq<char>>::empty());
        r
    }

    /// Records the outcome of a run of this template; see `with_outcome`.
    pub fn add_outcome(&mut self, o: TemplateOutcome) -> (r: Result<(), PromotionError>)
        ensures
            o.template_id@ != old(self)@.template_id ==> {
                &&& r matches Err(PromotionError::ReceiptMismatch(m)) && m@ == "template_id"@
                &&& final(self)@ == old(self)@
            },
            o.template_id@ == old(self)@.template_id ==> {
                &&& r is Ok
                &&& final(self)@ == with_outcome(old(self)@, o@)
            },
    {
        if !str_eq(o.template_id.as_str(), self.template_id.as_str()) {
            return Err(mismatch("template_id"));
        }
        let ghost before = self@;
        let mut i: usize = 0;
        while i < self.outcomes.len()
            invariant
                i <= self.outcomes@.len(),
                self@ == before,
                o.template_id@ == before.template_id,
                forall|j: int| 0 <= j < i ==> (#[trigger] self.outcomes@[j]).run_id@ != o.run_id@,
            decreases self.outcomes.len() - i,
        {
            if str_eq(self.outcomes[i].run_id.as_str(), o.run_id.as_str()) {
                assert(before.outcomes[i as int].run_id == o.run_id@);
                return Ok(());
            }
            i += 1;
        }
        assert(!has_run(before.outcomes, o.run_id@));
        if eq_ignore_ascii_case_exec(o.disposition.as_str(), "bad") || eq_ignore_ascii_case_exec(
            o.disposition.as_str(),
            "failed",
        ) || eq_ignore_ascii_case_exec(o.disposition.as_str(), "contradicted") {
            self.state = TemplateCandidateState::Quarantined;
        }
        self.outcomes.push(o);
        assert(self@.outcomes =~= before.outcomes.push(o@));
        Ok(())
    }

    /// Whether the template may be promoted: a candidate with at least three
    /// favourable outcomes.
    pub fn eligible(&self) -> (r: bool)
        ensures
            r == eligible_spec(self@),
    {
        let mut count: usize = 0;
        let mut i: usize = 0;
        while i < self.outcomes.len()
            invariant
                i <= self.outcomes@.len(),
                count == favourable_count(self@.outcomes.subrange(0, i as int)),
                count <= i,
            decreases self.outcomes.len() - i,
        {
            assert(self@.outcomes.subrange(0, i + 1).drop_last() =~= self@.outcomes.subrange(0, i as int));
            let d = self.outcomes[i].disposition.as_str();
            if eq_ignore_ascii_case_exec(d, "good") || eq_ignore_ascii_case_exec(d, "supported") {
                count += 1;
            }
            i += 1;
        }
        assert(self@.outcomes.subrange(0, self@.outcomes.len() as int) =~= self@.outcomes);
        self.state == TemplateCandidateState::Candidate && count >= 3
    }

    /// Approves the template on an authenticated operator receipt whose
    /// nonce has not been used; the nonce is consumed once the receipt is
    /// authenticated.
    pub fn promote_template(&mut self, receipt: OperatorReceipt, nonces: &mut NonceRegistry) -> (r: Result<
        (),
        PromotionError,
    >)
        ensures
            final(nonces)@ == nonces_after(old(nonces)@, receipt),
            match promotion_refusal(old(self)@, old(nonces)@, receipt) {
                Some(refusal) => r matches Err(e) && error_matches(e, refusal) && final(self)@ == old(self)@,
                None => r is Ok && final(self)@ == approved(old(self)@, receipt.nonce@),
            },
    {
        if !receipt.authenticated || !starts_with_exec(
            chars_of(receipt.operator_id.as_str()).as_slice(),
            chars_of("operator:").as_slice(),
        ) {
            return Err(PromotionError::Unauthorized);
        }
        let nonce = receipt.nonce.clone();
        if !nonces.insert(nonce) {
            return Err(PromotionError::AuthorizationReplayed);
        }
        if !self.eligible() {
            return Err(PromotionError::NotEligible);
        }
        if !self.state.can_transition(TemplateCandidateState::Approved) {
            return Err(PromotionError::InvalidTransition);
        }
        let ghost before = self@;
        self.state = TemplateCandidateState::Approved;
        self.decisions.push(receipt.nonce);
        assert(self@.decisions =~= before.decisions.push(receipt.nonce@));
        Ok(())
    }
}

// ── Laws ────────────────────────────────────────────────────────────────

/// A revoked template never changes state again.
pub proof fn lemma_revoked_is_terminal(to: TemplateCandidateState)
    ensures
        !transition_allowed(TemplateCandidateState::Revoked, to),
{
}

/// Only an authenticated operator receipt with a fresh nonce approves, and
/// only an eligible candidate; the approving nonce is then used, so the same
/// receipt is refused as a replay ever after.
pub proof fn lemma_promotion_authorized_once(s: PromotionView, used: Set<Seq<char>>, r: OperatorReceipt, later: PromotionView)
    requires
        promotion_refusal(s, used, r) is None,
    ensures
        is_operator_receipt(r),
        r.authenticated,
        starts_with(r.operator_id@, "operator:"@),
        !used.contains(r.nonce@),
        s.state == TemplateCandidateState::Candidate,
        favourable_count(s.outcomes) >= 3,
        promotion_refusal(later, nonces_after(used, r), r) == Some(PromotionRefusal::AuthorizationReplayed),
{
}

/// A receipt that is not authenticated, or whose operator id does not start
/// with `operator:`, is refused as unauthorized before anything else, and
/// consumes no nonce.
pub proof fn lemma_unauthenticated_receipts_refused(s: PromotionView, used: Set<Seq<char>>, r: OperatorReceipt)
    requires
        !r.authenticated || !starts_with(r.operator_id@, "operator:"@),
    ensures
        promotion_refusal(s, used, r) == Some(PromotionRefusal::Unauthorized),
        nonces_after(used, r) == used,
{
}

/// Recording the same outcome twice changes nothing the second time.
pub proof fn lemma_outcome_idempotent(s: PromotionView, o: OutcomeView)
    ensures
        with_outcome(with_outcome(s, o), o) == with_outcome(s, o),
{
    if !has_run(s.outcomes, o.run_id) {
        let t = with_outcome(s, o);
        assert(t.outcomes[t.outcomes.len() - 1].run_id == o.run_id);
    }
}

/// A newly recorded adverse outcome leaves the template ineligible.
pub proof fn lemma_adverse_outcome_blocks_promotion(s: PromotionView, o: OutcomeView)
    requires
        !has_run(s.outcomes, o.run_id),
        is_adverse(o.disposition),
    ensures
        !eligible_spec(with_outcome(s, o)),
{
}

/// What recording an outcome of a new run does: the outcome is appended;
/// a `bad`, `failed` or `contradicted` disposition (ignoring ASCII case)
/// quarantines the template; any other disposition leaves its state as it
/// was. An outcome of a run already recorded changes nothing.
pub proof fn lemma_outcome_effect(s: PromotionView, o: OutcomeView)
    ensures
        !has_run(s.outcomes, o.run_id) ==> with_outcome(s, o).outcomes == s.outcomes.push(o),
        !has_run(s.outcomes, o.run_id) && (eq_ignore_ascii_case(o.disposition, "bad"@) || eq_ignore_ascii_case(
            o.disposition,
            "failed"@,
        ) || eq_ignore_ascii_case(o.disposition, "contradicted"@)) ==> with_outcome(s, o).state
            == TemplateCandidateState::Quarantined,
        !has_run(s.outcomes, o.run_id) && !eq_ignore_ascii_case(o.disposition, "bad"@) && !eq_ignore_ascii_case(
            o.disposition,
            "failed"@,
        ) && !eq_ignore_ascii_case(o.disposition, "contradicted"@) ==> with_outcome(s, o).state == s.state,
        has_run(s.outcomes, o.run_id) ==> with_outcome(s, o) == s,
{
}

/// A new outcome counts toward eligibility exactly when its disposition is
/// `good` or `supported` (ignoring ASCII case): the count of favourable
/// outcomes grows by one then, and stays as it was otherwise.
pub proof fn lemma_favourable_outcome_counts(s: PromotionView, o: OutcomeView)
    requires
        !has_run(s.outcomes, o.run_id),
    ensures
        favourable_count(with_outcome(s, o).outcomes) == favourable_count(s.outcomes) + if eq_ignore_ascii_case(
            o.disposition,
            "good"@,
        ) || eq_ignore_ascii_case(o.disposition, "supported"@) {
            1nat
        } else {
            0nat
        },
{
    let t = s.outcomes.push(o);
    assert(t.drop_last() =~= s.outcomes);
}

// ── Receipts ────────────────────────────────────────────────────────────

#[derive(Clone, Copy)]
pub struct ReceiptIdentity<'a> {
    pub run_id: &'a str,
    pub receipt_digest: &'a str,
    pub graph_id: &'a str,
    pub graph_version: &'a str,
    pub template_id: &'a str,
    pub spec_digest: &'a str,
}

/// The fields of a receipt identity, with their names, in checking order.
pub open spec fn identity_fields(r: ReceiptIdentity) -> Seq<(Seq<char>, Seq<char>)> {
    seq![
        ("run_id"@, r.run_id@),
        ("receipt_digest"@, r.receipt_digest@),
        ("graph_id"@, r.graph_id@),
        ("graph_version"@, r.graph_version@),
        ("template_id"@, r.template_id@),
        ("spec_digest"@, r.spec_digest@),
    ]
}

/// Index of the first field on which the identities differ (6 when none).
pub open spec fn first_mismatch(a: ReceiptIdentity, b: ReceiptIdentity) -> int {
    let fa = identity_fields(a);
    let fb = identity_fields(b);
    if fa[0].1 != fb[0].1 {
        0
    } else if fa[1].1 != fb[1].1 {
        1
    } else if fa[2].1 != fb[2].1 {
        2
    } else if fa[3].1 != fb[3].1 {
        3
    } else if fa[4].1 != fb[4].1 {
        4
    } else if fa[5].1 != fb[5].1 {
        5
    } else {
        6
    }
}

/// Checks that `actual` names the same run, receipt, graph and template as
/// `expected`, field by field, and that the run is terminal.
pub fn verify_canonical_receipt(expected: &ReceiptIdentity, actual: &ReceiptIdentity, terminal: bool) -> (r: Result<
    (),
    PromotionError,
>)
    ensures
        ({
            let k = first_mismatch(*expected, *actual);
            if k < 6 {
                r matches Err(PromotionError::ReceiptMismatch(m)) && m@ == identity_fields(*expected)[k].0
            } else if !terminal {
                r == Err::<(), PromotionError>(PromotionError::NonTerminal)
            } else {
                r is Ok
            }
        }),
{
    if !str_eq(expected.run_id, actual.run_id) {
        return Err(mismatch("run_id"));
    }
    if !str_eq(expected.receipt_digest, actual.receipt_digest) {
        return Err(mismatch("receipt_digest"));
    }
    if !str_eq(expected.graph_id, actual.graph_id) {
        return Err(mismatch("graph_id"));
    }
    if !str_eq(expected.graph_version, actual.graph_version) {
        return Err(mismatch("graph_version"));
    }
    if !str_eq(expected.template_id, actual.template_id) {
        return Err(mismatch("template_id"));
    }
    if !str_eq(expected.spec_digest, actual.spec_digest) {
        return Err(mismatch("spec_digest"));
    }
    if !terminal {
        return Err(PromotionError::NonTerminal);
    }
    Ok(())
}

/// One evidence line per outcome: its six fields joined by `:`.
pub open spec fn outcome_line(o: OutcomeView) -> Seq<char> {
    o.template_id + ":"@ + o.run_id + ":"@ + o.terminal_receipt_id + ":"@ + o.receipt_digest + ":"@
        + o.disposition + ":"@ + o.evidence_digest + "\n"@
}

pub open spec fn outcome_lines(outcomes: Seq<OutcomeView>) -> Seq<char>
    decreases outcomes.len(),
{
    if outcomes.len() == 0 {
        Seq::empty()
    } else {
        outcome_lines(outcomes.drop_last()) + outcome_line(outcomes.last())
    }
}

/// Lower-case hex SHA-256 over the evidence lines of the outcomes.
pub fn evidence_digest(outcomes: &[TemplateOutcome]) -> (r: String)
    ensures
        r@ == hex_text(sha256_digest(encode_utf8(outcome_lines(outcomes@.map_values(|o: TemplateOutcome| o@))))),
{
    let ghost views = outcomes@.map_values(|o: TemplateOutcome| o@);
    let mut text = String::new();
    let mut i: usize = 0;
    while i < outcomes.len()
        invariant
            i <= outcomes@.len(),
            views == outcomes@.map_values(|o: TemplateOutcome| o@),
            text@ == outcome_lines(views.subrange(0, i as int)),
        decreases outcomes.len() - i,
    {
        let o = &outcomes[i];
        assert(views.subrange(0, i + 1).drop_last() =~= views.subrange(0, i as int));
        push_all(&mut text, o.template_id.as_str());
        push_all(&mut text, ":");
        push_all(&mut text, o.run_id.as_str());
        push_all(&mut text, ":");
        push_all(&mut text, o.terminal_receipt_id.as_str());
        push_all(&mut text, ":");
        push_all(&mut text, o.receipt_digest.as_str());
        push_all(&mut text, ":");
        push_all(&mut text, o.disposition.as_str());
        push_all(&mut text, ":");
        push_all(&mut text, o.evidence_digest.as_str());
        push_all(&mut text, "\n");
        assert(text@ =~= outcome_lines(views.subrange(0, i + 1)));
        i += 1;
    }
    assert(views.subrange(0, views.len() as int) =~= views);
    sha256_hex(text.as_str())
}

} // verus!
