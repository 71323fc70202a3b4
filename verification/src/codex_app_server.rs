//! Provider-neutral handling of Codex app-server JSON-RPC traffic.
//!
//! The transport emits numerous lifecycle/status events. Only
//! `turn/completed` is terminal. Text streams in `item/agentMessage/delta`;
//! older/newer servers may instead expose final text in a completed
//! `agentMessage` item. Processes, pipes and sockets are driven by the
//! application; this module decides what the traffic means.
use vstd::prelude::*;
use crate::json::{clone_json, decimal, json_text, walk_keys, Json, JsonValue};
use crate::text::{
    ascii_lower, ascii_lower_exec, chars_of, contains, contains_exec, is_blank, is_blank_str, joined,
    lemma_encode_utf8_concat, lemma_split_on_nonempty, lemma_trim_end_bounds, lemma_trim_start_bounds,
    trim_end_index, trim_start_index, push_all, split_chars, split_on, str_eq,
    occurs_at, string_from_chars, trim_chars, trim_spec, utf8_len, seq_lt, chars_lt,
    lemma_seq_lt_transitive, lemma_seq_lt_total, parse_u64, parse_u64_spec,
};
use vstd::utf8::{encode_utf8, is_char_boundary};

verus! {

pub open spec fn method_of(e: Json) -> Option<Seq<char>> {
    match e.get("method"@) {
        Some(Json::Str(m)) => Some(m),
        _ => None,
    }
}

/// The string at an object path (`Value::pointer` with plain keys).
pub open spec fn str_at(e: Json, keys: Seq<Seq<char>>) -> Option<Seq<char>> {
    match walk_keys(e, keys) {
        Some(Json::Str(s)) => Some(s),
        _ => None,
    }
}

pub open spec fn is_terminal(e: Json) -> bool {
    method_of(e) == Some("turn/completed"@)
}

pub open spec fn is_delta(e: Json) -> bool {
    method_of(e) == Some("item/agentMessage/delta"@)
}

/// A completed `agentMessage` item.
pub open spec fn is_completed_message(e: Json) -> bool {
    method_of(e) == Some("item/completed"@) && str_at(e, seq!["params"@, "item"@, "type"@]) == Some(
        "agentMessage"@,
    )
}

pub open spec fn delta_text(e: Json) -> Option<Seq<char>> {
    if is_delta(e) {
        str_at(e, seq!["params"@, "delta"@])
    } else {
        None
    }
}

pub open spec fn completed_text(e: Json) -> Option<Seq<char>> {
    if is_completed_message(e) {
        str_at(e, seq!["params"@, "item"@, "text"@])
    } else {
        None
    }
}

/// All streamed deltas, concatenated in order.
pub open spec fn deltas_of(events: Seq<Json>) -> Seq<char>
    decreases events.len(),
{
    if events.len() == 0 {
        Seq::empty()
    } else {
        deltas_of(events.drop_last()) + match delta_text(events.last()) {
            Some(d) => d,
            None => Seq::empty(),
        }
    }
}

/// The text of the last completed agent message, if any.
pub open spec fn last_completed(events: Seq<Json>) -> Option<Seq<char>>
    decreases events.len(),
{
    if events.len() == 0 {
        None
    } else {
        match completed_text(events.last()) {
            Some(t) => Some(t),
            None => last_completed(events.drop_last()),
        }
    }
}

/// The assistant text of a turn: the deltas when there are any, else the
/// last completed agent message, else nothing.
pub open spec fn collect_text_spec(events: Seq<Json>) -> Seq<char> {
    if deltas_of(events).len() > 0 {
        deltas_of(events)
    } else {
        match last_completed(events) {
            Some(t) => t,
            None => Seq::empty(),
        }
    }
}

fn str_at_exec<'a>(e: &'a JsonValue, k1: &str, k2: &str, k3: Option<&str>) -> (r: Option<&'a String>)
    ensures
        ({
            let keys = match k3 {
                Some(k) => seq![k1@, k2@, k@],
                None => seq![k1@, k2@],
            };
            match r {
                Some(s) => str_at(e@, keys) == Some(s@),
                None => str_at(e@, keys) is None,
            }
        }),
{
    let ghost keys = match k3 {
        Some(k) => seq![k1@, k2@, k@],
        None => seq![k1@, k2@],
    };
    let ghost rest1 = keys.drop_first();
    let ghost rest2 = rest1.drop_first();
    assert(keys[0] == k1@);
    assert(rest1[0] == k2@);
    let a = match e.get(k1) {
        Some(a) => a,
        None => return None,
    };
    assert(walk_keys(e@, keys) == walk_keys(a@, rest1));
    let b = match a.get(k2) {
        Some(b) => b,
        None => return None,
    };
    assert(walk_keys(a@, rest1) == walk_keys(b@, rest2));
    let c = match k3 {
        Some(k) => {
            assert(rest2[0] == k@);
            let c = match b.get(k) {
                Some(c) => c,
                None => return None,
            };
            assert(rest2.drop_first() =~= Seq::<Seq<char>>::empty());
            assert(walk_keys(b@, rest2) == walk_keys(c@, rest2.drop_first()));
            c
        },
        None => {
            assert(rest2 =~= Seq::<Seq<char>>::empty());
            b
        },
    };
    assert(walk_keys(e@, keys) == Some(c@));
    match c {
        JsonValue::Str(s) => Some(s),
        _ => None,
    }
}

fn method_is(e: &JsonValue, name: &str) -> (r: bool)
    ensures
        r == (method_of(e@) == Some(name@)),
{
    match e.get("method") {
        Some(JsonValue::Str(m)) => str_eq(m.as_str(), name),
        _ => false,
    }
}

/// True only for the app-server's terminal turn notification.
pub fn is_terminal_notification(event: &JsonValue) -> (r: bool)
    ensures
        r == is_terminal(event@),
{
    method_is(event, "turn/completed")
}

fn delta_exec(e: &JsonValue) -> (r: Option<&String>)
    ensures
        match r {
            Some(d) => delta_text(e@) == Some(d@),
            None => delta_text(e@) is None,
        },
{
    if method_is(e, "item/agentMessage/delta") {
        str_at_exec(e, "params", "delta", None)
    } else {
        None
    }
}

fn completed_exec(e: &JsonValue) -> (r: Option<&String>)
    ensures
        match r {
            Some(t) => completed_text(e@) == Some(t@),
            None => completed_text(e@) is None,
        },
{
    if !method_is(e, "item/completed") {
        return None;
    }
    match str_at_exec(e, "params", "item", Some("type")) {
        Some(kind) => {
            if !str_eq(kind.as_str(), "agentMessage") {
                return None;
            }
        },
        None => return None,
    }
    str_at_exec(e, "params", "item", Some("text"))
}

pub open spec fn event_views(events: Seq<JsonValue>) -> Seq<Json> {
    events.map_values(|e: JsonValue| e@)
}

/// Collects assistant text without treating non-message events as output.
///
/// Delta text is authoritative when present. The completed-item form is a
/// compatibility fallback for app-server versions that omit deltas.
pub fn collect_text(events: &[JsonValue]) -> (r: String)
    ensures
        r@ == collect_text_spec(event_views(events@)),
{
    let ghost evs = event_views(events@);
    let mut deltas = String::new();
    let mut last: Option<&String> = None;
    let mut i: usize = 0;
    while i < events.len()
        invariant
            i <= events@.len(),
            evs == event_views(events@),
            deltas@ == deltas_of(evs.subrange(0, i as int)),
            match last {
                Some(t) => last_completed(evs.subrange(0, i as int)) == Some(t@),
                None => last_completed(evs.subrange(0, i as int)) is None,
            },
        decreases events.len() - i,
    {
        let ghost pre = evs.subrange(0, i + 1);
        assert(pre.drop_last() =~= evs.subrange(0, i as int));
        assert(pre.last() == events@[i as int]@);
        match delta_exec(&events[i]) {
            Some(d) => push_all(&mut deltas, d.as_str()),
            None => {},
        }
        match completed_exec(&events[i]) {
            Some(t) => {
                last = Some(t);
            },
            None => {},
        }
        assert(deltas@ =~= deltas_of(pre));
        i += 1;
    }
    assert(evs.subrange(0, evs.len() as int) =~= evs);
    if deltas.as_str().is_empty() {
        match last {
            Some(t) => t.clone(),
            None => String::new(),
        }
    } else {
        deltas
    }
}

// ── One turn ────────────────────────────────────────────────────────────

/// Bound on the assistant text of one turn, in bytes.
pub const MAX_OUTPUT_BYTES: usize = 262144;

pub open spec fn output_limit_message() -> Seq<char> {
    "codex app-server output exceeds bounded limit (262144 bytes)"@
}

pub open spec fn no_text_message() -> Seq<char> {
    "codex app-server completed without assistant text"@
}

/// A request the server sent us (an event with a numeric `id`).
pub open spec fn request_id_of(e: Json) -> Option<u64> {
    match e.get("id"@) {
        Some(v) => v.as_u64(),
        None => None,
    }
}

/// What the turn loop does after an event.
pub enum TurnStep {
    /// Refuse the server's tool/approval request with this id.
    Deny(u64),
    /// Wait for the next event.
    Continue,
    /// The turn is over, with its text or its error.
    Finished(Result<String, String>),
}

pub enum StepView {
    Deny(u64),
    Continue,
    Finished(Result<Seq<char>, Seq<char>>),
}

impl View for TurnStep {
    type V = StepView;

    open spec fn view(&self) -> StepView {
        match self {
            TurnStep::Deny(id) => StepView::Deny(*id),
            TurnStep::Continue => StepView::Continue,
            TurnStep::Finished(Ok(t)) => StepView::Finished(Ok(t@)),
            TurnStep::Finished(Err(e)) => StepView::Finished(Err(e@)),
        }
    }
}

/// The text gathered so far in a turn: streamed deltas and the latest
/// completed agent message.
pub struct TurnState {
    pub streamed: Seq<char>,
    pub fallback: Option<Seq<char>>,
}

/// The result of a terminal event.
pub open spec fn finish(s: TurnState) -> Result<Seq<char>, Seq<char>> {
    let text = if s.streamed.len() > 0 {
        s.streamed
    } else {
        match s.fallback {
            Some(t) => t,
            None => Seq::empty(),
        }
    };
    if is_blank(text) {
        Err(no_text_message())
    } else {
        Ok(text)
    }
}

/// One event of a turn: server requests are denied; deltas accumulate and
/// a completed agent message replaces the fallback, each within the output
/// bound; the terminal notification finishes the turn.
pub open spec fn turn_step(s: TurnState, e: Json) -> (TurnState, StepView) {
    match request_id_of(e) {
        Some(id) => (s, StepView::Deny(id)),
        None => {
            let gathered: Option<TurnState> = match delta_text(e) {
                Some(d) => if utf8_len(s.streamed) + utf8_len(d) > MAX_OUTPUT_BYTES {
                    None
                } else {
                    Some(TurnState { streamed: s.streamed + d, ..s })
                },
                None => match completed_text(e) {
                    Some(t) => if utf8_len(t) > MAX_OUTPUT_BYTES {
                        None
                    } else {
                        Some(TurnState { fallback: Some(t), ..s })
                    },
                    None => Some(s),
                },
            };
            match gathered {
                None => (s, StepView::Finished(Err(output_limit_message()))),
                Some(n) => if is_terminal(e) {
                    (n, StepView::Finished(finish(n)))
                } else {
                    (n, StepView::Continue)
                },
            }
        },
    }
}

/// Accumulates the assistant text of one turn, event by event.
pub struct TurnText {
    streamed: String,
    fallback: Option<String>,
}

impl View for TurnText {
    type V = TurnState;

    closed spec fn view(&self) -> TurnState {
        TurnState {
            streamed: self.streamed@,
            fallback: match self.fallback {
                Some(t) => Some(t@),
                None => None,
            },
        }
    }
}

impl TurnText {
    pub fn new() -> (r: Self)
        ensures
            r@ == (TurnState { streamed: Seq::empty(), fallback: None }),
    {
        TurnText { streamed: String::new(), fallback: None }
    }

    /// Takes in the next event of the turn; see `turn_step`.
    pub fn observe(&mut self, event: &JsonValue) -> (r: TurnStep)
        ensures
            turn_step(old(self)@, event@) == (final(self)@, r@),
    {
        match event.get("id") {
            Some(v) => match v.as_u64() {
                Some(id) => return TurnStep::Deny(id),
                None => {},
            },
            None => {},
        }
        let ghost s0 = self@;
        match delta_exec(event) {
            Some(d) => {
                let have = self.streamed.as_str().as_bytes().len();
                let more = d.as_str().as_bytes().len();
                let over = match have.checked_add(more) {
                    Some(t) => t > MAX_OUTPUT_BYTES,
                    None => true,
                };
                if over {
                    return TurnStep::Finished(Err("codex app-server output exceeds bounded limit (262144 bytes)".to_owned()));
                }
                push_all(&mut self.streamed, d.as_str());
            },
            None => match completed_exec(event) {
                Some(t) => {
                    if t.as_str().as_bytes().len() > MAX_OUTPUT_BYTES {
                        return TurnStep::Finished(Err("codex app-server output exceeds bounded limit (262144 bytes)".to_owned()));
                    }
                    self.fallback = Some(t.clone());
                },
                None => {},
            },
        }
        if is_terminal_notification(event) {
            let text = if self.streamed.as_str().is_empty() {
                match &self.fallback {
                    Some(t) => t.clone(),
                    None => String::new(),
                }
            } else {
                self.streamed.clone()
            };
            if is_blank_str(text.as_str()) {
                TurnStep::Finished(Err("codex app-server completed without assistant text".to_owned()))
            } else {
                TurnStep::Finished(Ok(text))
            }
        } else {
            TurnStep::Continue
        }
    }
}

/// The state after feeding events one by one, as long as none stops the turn.
pub open spec fn feed(s: TurnState, events: Seq<Json>) -> TurnState
    decreases events.len(),
{
    if events.len() == 0 {
        s
    } else {
        turn_step(feed(s, events.drop_last()), events.last()).0
    }
}

/// Events that neither request anything, nor finish the turn, nor
/// overflow the output bound.
pub open spec fn quiet_events(events: Seq<Json>) -> bool {
    &&& forall|i: int| 0 <= i < events.len() ==> request_id_of(#[trigger] events[i]) is None
    &&& forall|i: int| 0 <= i < events.len() ==> !is_terminal(#[trigger] events[i])
    &&& utf8_len(deltas_of(events)) <= MAX_OUTPUT_BYTES
    &&& forall|i: int|
        0 <= i < events.len() && completed_text(#[trigger] events[i]) is Some ==> utf8_len(
            completed_text(events[i])->0,
        ) <= MAX_OUTPUT_BYTES
}

proof fn lemma_deltas_prefix_len(events: Seq<Json>)
    requires
        events.len() > 0,
    ensures
        utf8_len(deltas_of(events.drop_last())) <= utf8_len(deltas_of(events)),
{
    let d = match delta_text(events.last()) {
        Some(d) => d,
        None => Seq::empty(),
    };
    lemma_encode_utf8_concat(deltas_of(events.drop_last()), d);
}

/// Feeding quiet events from a fresh turn gathers exactly the deltas and the
/// last completed message that `collect_text` reads.
pub proof fn lemma_feed_gathers(events: Seq<Json>)
    requires
        quiet_events(events),
    ensures
        feed(TurnState { streamed: Seq::empty(), fallback: None }, events) == (TurnState {
            streamed: deltas_of(events),
            fallback: last_completed(events),
        }),
    decreases events.len(),
{
    if events.len() > 0 {
        let init = events.drop_last();
        let e = events.last();
        lemma_deltas_prefix_len(events);
        assert(quiet_events(init)) by {
            assert forall|i: int| 0 <= i < init.len() implies request_id_of(#[trigger] init[i]) is None by {
                assert(init[i] == events[i]);
            }
            assert forall|i: int| 0 <= i < init.len() implies !is_terminal(#[trigger] init[i]) by {
                assert(init[i] == events[i]);
            }
            assert forall|i: int|
                0 <= i < init.len() && completed_text(#[trigger] init[i]) is Some implies utf8_len(
                completed_text(init[i])->0,
            ) <= MAX_OUTPUT_BYTES by {
                assert(init[i] == events[i]);
            }
        }
        lemma_feed_gathers(init);
        assert(feed(TurnState { streamed: Seq::empty(), fallback: None }, events) == turn_step(
            feed(TurnState { streamed: Seq::empty(), fallback: None }, init),
            e,
        ).0);
        assert(request_id_of(events[events.len() - 1]) is None);
        assert(!is_terminal(events[events.len() - 1]));
        reveal_strlit("item/agentMessage/delta");
        reveal_strlit("item/completed");
        assert("item/agentMessage/delta"@ != "item/completed"@) by {
            assert("item/agentMessage/delta"@[5] != "item/completed"@[5]);
        }
        match delta_text(e) {
            Some(d) => {
                lemma_encode_utf8_concat(deltas_of(init), d);
                assert(completed_text(e) is None);
            },
            None => {
                match completed_text(e) {
                    Some(t) => {
                        assert(completed_text(events[events.len() - 1]) is Some);
                    },
                    None => {},
                }
            },
        }
    }
}

/// A turn whose quiet events are followed by the terminal notification
/// finishes with the text `collect_text` reads from the same events, unless
/// that text is blank.
pub proof fn lemma_turn_text_matches_collect_text(events: Seq<Json>, terminal: Json)
    requires
        quiet_events(events),
        is_terminal(terminal),
        request_id_of(terminal) is None,
        delta_text(terminal) is None,
        completed_text(terminal) is None,
    ensures
        turn_step(feed(TurnState { streamed: Seq::empty(), fallback: None }, events), terminal).1 == StepView::Finished(
            if is_blank(collect_text_spec(events.push(terminal))) {
                Err(no_text_message())
            } else {
                Ok(collect_text_spec(events.push(terminal)))
            },
        ),
{
    lemma_feed_gathers(events);
    let all = events.push(terminal);
    assert(all.drop_last() =~= events);
    assert(all.last() == terminal);
}

/// An `item/completed` event whose item is an `agentMessage` with text `t`.
pub open spec fn completes_message(e: Json, t: Seq<char>) -> bool {
    &&& method_of(e) == Some("item/completed"@)
    &&& str_at(e, seq!["params"@, "item"@, "type"@]) == Some("agentMessage"@)
    &&& str_at(e, seq!["params"@, "item"@, "text"@]) == Some(t)
}

proof fn lemma_completion_is_no_delta(e: Json, t: Seq<char>)
    requires
        completes_message(e, t),
    ensures
        delta_text(e) is None,
        completed_text(e) == Some(t),
        !is_terminal(e),
{
    reveal_strlit("item/completed");
    reveal_strlit("item/agentMessage/delta");
    reveal_strlit("turn/completed");
    assert("item/completed"@[5] != "item/agentMessage/delta"@[5]);
    assert("item/completed"@ != "item/agentMessage/delta"@);
    assert("item/completed"@[0] != "turn/completed"@[0]);
    assert("item/completed"@ != "turn/completed"@);
}

/// Without streamed deltas, the text of a turn is the text of its last
/// completed agent message: appending a completed `agentMessage` with text
/// `t` makes the turn's text `t`, whatever messages came before.
pub proof fn lemma_last_completed_message_is_the_text(events: Seq<Json>, e: Json, t: Seq<char>)
    requires
        deltas_of(events).len() == 0,
        completes_message(e, t),
    ensures
        collect_text_spec(events.push(e)) == t,
{
    lemma_completion_is_no_delta(e, t);
    let all = events.push(e);
    assert(all.drop_last() =~= events);
    assert(all.last() == e);
    assert(deltas_of(all) =~= deltas_of(events));
}

/// Streamed deltas take precedence: once anything was streamed, a completed
/// agent message does not change the turn's text.
pub proof fn lemma_deltas_take_precedence(events: Seq<Json>, e: Json, t: Seq<char>)
    requires
        deltas_of(events).len() > 0,
        completes_message(e, t),
    ensures
        collect_text_spec(events.push(e)) == collect_text_spec(events),
{
    lemma_completion_is_no_delta(e, t);
    let all = events.push(e);
    assert(all.drop_last() =~= events);
    assert(deltas_of(all) =~= deltas_of(events));
}

/// Output is bounded: a delta that would take the streamed text past
/// `MAX_OUTPUT_BYTES` ends the turn with the output-limit error and keeps
/// the state as it was.
pub proof fn lemma_output_bound_enforced(s: TurnState, e: Json, d: Seq<char>)
    requires
        method_of(e) == Some("item/agentMessage/delta"@),
        str_at(e, seq!["params"@, "delta"@]) == Some(d),
        e.get("id"@) is None,
        utf8_len(s.streamed) + utf8_len(d) > MAX_OUTPUT_BYTES,
    ensures
        turn_step(s, e) == (s, StepView::Finished(Err(output_limit_message()))),
{
}

/// Observing a completed agent message (not a request, within the output
/// bound) keeps the streamed text, makes the message's text the fallback,
/// and lets the turn continue.
pub proof fn lemma_completed_message_replaces_fallback(s: TurnState, e: Json, t: Seq<char>)
    requires
        completes_message(e, t),
        e.get("id"@) is None,
        utf8_len(t) <= MAX_OUTPUT_BYTES,
    ensures
        turn_step(s, e) == (TurnState { streamed: s.streamed, fallback: Some(t) }, StepView::Continue),
{
    lemma_completion_is_no_delta(e, t);
}

/// Observing a delta (not a request, within the output bound) appends its
/// text to the streamed text and keeps the fallback.
pub proof fn lemma_delta_appends(s: TurnState, e: Json, d: Seq<char>)
    requires
        method_of(e) == Some("item/agentMessage/delta"@),
        str_at(e, seq!["params"@, "delta"@]) == Some(d),
        e.get("id"@) is None,
        utf8_len(s.streamed) + utf8_len(d) <= MAX_OUTPUT_BYTES,
    ensures
        turn_step(s, e) == (TurnState { streamed: s.streamed + d, fallback: s.fallback }, StepView::Continue),
{
    reveal_strlit("item/agentMessage/delta");
    reveal_strlit("turn/completed");
    assert("item/agentMessage/delta"@[0] != "turn/completed"@[0]);
    assert("item/agentMessage/delta"@ != "turn/completed"@);
}

/// The terminal notification finishes the turn with the streamed text when
/// any was streamed, else with the last completed message, and refuses a
/// turn whose text is blank.
pub proof fn lemma_terminal_finishes(s: TurnState, e: Json)
    requires
        method_of(e) == Some("turn/completed"@),
        e.get("id"@) is None,
    ensures
        s.streamed.len() > 0 && !is_blank(s.streamed) ==> turn_step(s, e) == (s, StepView::Finished(Ok(s.streamed))),
        s.streamed.len() == 0 && (s.fallback matches Some(t) && !is_blank(t)) ==> turn_step(s, e) == (
            s,
            StepView::Finished(Ok(s.fallback->0)),
        ),
        s.streamed.len() == 0 && s.fallback is None ==> turn_step(s, e) == (s, StepView::Finished(Err(no_text_message()))),
        is_blank(s.streamed) && (s.streamed.len() > 0 || s.fallback is None || is_blank(s.fallback->0)) ==> turn_step(
            s,
            e,
        ).1 == StepView::Finished(Err(no_text_message())),
{
    reveal_strlit("turn/completed");
    reveal_strlit("item/completed");
    reveal_strlit("item/agentMessage/delta");
    assert("turn/completed"@[0] != "item/agentMessage/delta"@[0]);
    assert("turn/completed"@ != "item/agentMessage/delta"@);
    assert("turn/completed"@[0] != "item/completed"@[0]);
    assert("turn/completed"@ != "item/completed"@);
}

/// Streamed deltas are the turn's text, in order: appending a non-empty
/// delta `d` to the events makes the text what it was (when anything had
/// been streamed) followed by `d`, or `d` alone.
pub proof fn lemma_delta_extends_text(events: Seq<Json>, e: Json, d: Seq<char>)
    requires
        method_of(e) == Some("item/agentMessage/delta"@),
        str_at(e, seq!["params"@, "delta"@]) == Some(d),
        d.len() > 0,
    ensures
        collect_text_spec(events.push(e)) == if deltas_of(events).len() > 0 {
            collect_text_spec(events) + d
        } else {
            d
        },
{
    let all = events.push(e);
    assert(all.drop_last() =~= events);
    assert(all.last() == e);
    assert(deltas_of(all) == deltas_of(events) + d);
    if deltas_of(events).len() == 0 {
        assert(deltas_of(events) + d =~= d);
    }
}

// ── Diagnostics ─────────────────────────────────────────────────────────

/// Bound on the stderr text attached to an error, in bytes.
pub const MAX_STDERR_CHARS: usize = 4096;

/// `str::lines`: split at `\n`, a `\r` before the `\n` dropped, and no
/// empty line after a final `\n`.
pub open spec fn lines_of(s: Seq<char>) -> Seq<Seq<char>> {
    let pieces = split_on(s, '\n');
    let body = pieces.drop_last().map_values(|l: Seq<char>| strip_cr(l));
    if pieces.last().len() == 0 {
        body
    } else {
        body.push(pieces.last())
    }
}

pub open spec fn strip_cr(l: Seq<char>) -> Seq<char> {
    if l.len() > 0 && l.last() == '\r' {
        l.drop_last()
    } else {
        l
    }
}

/// `str::lines`: the text cut at each `\n`, a `\r` before it dropped, and
/// no empty line after a final `\n`.
pub fn text_lines(s: &str) -> (r: Vec<String>)
    ensures
        r@.len() == lines_of(s@).len(),
        forall|j: int| 0 <= j < r@.len() ==> #[trigger] r@[j]@ == lines_of(s@)[j],
{
    let cs = chars_of(s);
    let pieces = split_chars(cs.as_slice(), '\n');
    proof {
        lemma_split_on_nonempty(s@, '\n');
    }
    let ghost ps = split_on(s@, '\n');
    let ghost lines = lines_of(s@);
    let n = pieces.len();
    let last_empty = pieces[n - 1].len() == 0;
    let count = if last_empty { n - 1 } else { n };
    assert(lines.len() == count);
    let mut out: Vec<String> = Vec::new();
    let mut k: usize = 0;
    while k < count
        invariant
            k <= count,
            count <= n,
            n == pieces@.len(),
            n == ps.len(),
            ps == split_on(s@, '\n'),
            lines == lines_of(s@),
            lines.len() == count,
            forall|j: int| 0 <= j < n ==> #[trigger] pieces@[j]@ == ps[j],
            out@.len() == k,
            forall|j: int| 0 <= j < k ==> #[trigger] out@[j]@ == lines[j],
        decreases count - k,
    {
        let piece = &pieces[k];
        let plen = piece.len();
        let mut l: Vec<char> = Vec::new();
        push_chars(&mut l, piece.as_slice());
        if k + 1 < n && plen > 0 && piece[plen - 1] == '\r' {
            l.pop();
        }
        let line = string_from_chars(l.as_slice());
        proof {
            if k + 1 < n {
                assert(lines[k as int] == strip_cr(ps[k as int]));
            } else {
                assert(lines[k as int] == ps[k as int]);
            }
            assert(line@ =~= lines[k as int]);
        }
        out.push(line);
        k += 1;
    }
    out
}

pub open spec fn sensitive_markers() -> Seq<Seq<char>> {
    seq!["authorization"@, "api key"@, "api_key"@, "token"@, "secret"@, "password"@]
}

/// A line that mentions credentials, in any ASCII case.
pub open spec fn is_sensitive(line: Seq<char>) -> bool {
    exists|k: int| 0 <= k < sensitive_markers().len() && contains(ascii_lower(line), #[trigger] sensitive_markers()[k])
}

pub open spec fn redaction_marker() -> Seq<char> {
    "[redacted sensitive stderr line]"@
}

pub open spec fn redact_line(line: Seq<char>) -> Seq<char> {
    if is_sensitive(line) {
        redaction_marker()
    } else {
        line
    }
}

/// The first character boundary of `bytes` at or after `i`.
pub open spec fn boundary_from(bytes: Seq<u8>, i: int) -> int
    decreases bytes.len() - i,
{
    if i >= bytes.len() || is_char_boundary(bytes, i) {
        i
    } else {
        boundary_from(bytes, i + 1)
    }
}

/// The bytes of the diagnostic tail: sensitive lines redacted, the text
/// trimmed, and only its last 4096 bytes kept, cut at a character
/// boundary; nothing when it is blank.
pub open spec fn stderr_tail_spec(stderr: Seq<char>) -> Option<Seq<u8>> {
    let redacted = joined(lines_of(stderr).map_values(|l: Seq<char>| redact_line(l)), "\n"@);
    let trimmed = trim_spec(redacted);
    let bytes = encode_utf8(trimmed);
    if trimmed.len() == 0 {
        None
    } else if bytes.len() > MAX_STDERR_CHARS {
        Some(bytes.subrange(boundary_from(bytes, bytes.len() - MAX_STDERR_CHARS), bytes.len() as int))
    } else {
        Some(bytes)
    }
}

fn is_sensitive_exec(line: &[char]) -> (r: bool)
    ensures
        r == is_sensitive(line@),
{
    let lower = ascii_lower_exec(line);
    let markers: [&str; 6] = ["authorization", "api key", "api_key", "token", "secret", "password"];
    let mut k: usize = 0;
    while k < 6
        invariant
            k <= 6,
            lower@ == ascii_lower(line@),
            forall|j: int| 0 <= j < 6 ==> (#[trigger] markers@[j])@ == sensitive_markers()[j],
            forall|j: int| 0 <= j < k ==> !contains(ascii_lower(line@), #[trigger] sensitive_markers()[j]),
        decreases 6 - k,
    {
        if contains_exec(lower.as_slice(), chars_of(markers[k]).as_slice()) {
            assert(contains(ascii_lower(line@), sensitive_markers()[k as int]));
            return true;
        }
        k += 1;
    }
    false
}

fn push_chars(out: &mut Vec<char>, extra: &[char])
    ensures
        final(out)@ == old(out)@ + extra@,
{
    let ghost start = out@;
    let mut i: usize = 0;
    while i < extra.len()
        invariant
            i <= extra@.len(),
            out@ == start + extra@.subrange(0, i as int),
        decreases extra.len() - i,
    {
        out.push(extra[i]);
        i += 1;
    }
    assert(extra@.subrange(0, extra@.len() as int) =~= extra@);
}

/// The redacted lines joined with `\n`.
fn redacted_text(stderr: &str) -> (r: Vec<char>)
    ensures
        r@ == joined(lines_of(stderr@).map_values(|l: Seq<char>| redact_line(l)), "\n"@),
{
    let cs = chars_of(stderr);
    let pieces = split_chars(cs.as_slice(), '\n');
    proof {
        lemma_split_on_nonempty(stderr@, '\n');
    }
    let ghost ps = split_on(stderr@, '\n');
    let ghost lines = lines_of(stderr@);
    let ghost red = lines.map_values(|l: Seq<char>| redact_line(l));
    let n = pieces.len();
    let last_empty = pieces[n - 1].len() == 0;
    let count = if last_empty { n - 1 } else { n };
    assert(lines.len() == count);
    let mut out: Vec<char> = Vec::new();
    let mut k: usize = 0;
    let marker = chars_of("[redacted sensitive stderr line]");
    while k < count
        invariant
            k <= count,
            count <= n,
            n == pieces@.len(),
            n == ps.len(),
            ps == split_on(stderr@, '\n'),
            lines == lines_of(stderr@),
            red == lines.map_values(|l: Seq<char>| redact_line(l)),
            lines.len() == count,
            marker@ == redaction_marker(),
            forall|j: int| 0 <= j < n ==> #[trigger] pieces@[j]@ == ps[j],
            out@ == joined(red.subrange(0, k as int), "\n"@),
        decreases count - k,
    {
        let piece = &pieces[k];
        let line: Vec<char> = if k + 1 < n && piece.len() > 0 && piece[piece.len() - 1] == '\r' {
            let mut l: Vec<char> = Vec::new();
            push_chars(&mut l, piece.as_slice());
            l.pop();
            l
        } else {
            let mut l: Vec<char> = Vec::new();
            push_chars(&mut l, piece.as_slice());
            l
        };
        proof {
            if k + 1 < n {
                assert(lines[k as int] == strip_cr(ps[k as int]));
                if piece@.len() > 0 && piece@.last() == '\r' {
                    assert(line@ =~= ps[k as int].drop_last());
                }
            } else {
                assert(lines[k as int] == ps[k as int]);
            }
            assert(line@ == lines[k as int]);
        }
        let ghost pre = red.subrange(0, k + 1);
        assert(pre.drop_last() =~= red.subrange(0, k as int));
        if k > 0 {
            out.push('\n');
        }
        if is_sensitive_exec(line.as_slice()) {
            push_chars(&mut out, marker.as_slice());
        } else {
            push_chars(&mut out, line.as_slice());
        }
        proof {
            reveal_strlit("\n");
            assert(pre.last() == red[k as int]);
            assert(red[k as int] == redact_line(lines[k as int]));
            if k == 0 {
                assert(red.subrange(0, 0) =~= Seq::<Seq<char>>::empty());
            }
            assert(out@ =~= joined(pre, "\n"@));
        }
        k += 1;
    }
    assert(red.subrange(0, count as int) =~= red);
    out
}

/// The redacted, trimmed and bounded tail of a child's stderr; `None` when
/// nothing but whitespace remains.
pub fn redacted_stderr_tail(stderr: String) -> (r: Option<String>)
    ensures
        match r {
            Some(t) => stderr_tail_spec(stderr@) == Some(encode_utf8(t@)),
            None => stderr_tail_spec(stderr@) is None,
        },
{
    let redacted = redacted_text(stderr.as_str());
    let trimmed_chars = trim_chars(redacted.as_slice());
    if trimmed_chars.len() == 0 {
        return None;
    }
    let trimmed = string_from_chars(trimmed_chars.as_slice());
    let t: &str = trimmed.as_str();
    let len = t.as_bytes().len();
    if len > MAX_STDERR_CHARS {
        let ghost bytes = encode_utf8(t@);
        let mut start = len - MAX_STDERR_CHARS;
        assert(boundary_from(bytes, (len - MAX_STDERR_CHARS) as int) == boundary_from(bytes, start as int));
        while start < len && !t.is_char_boundary(start)
            invariant
                len == bytes.len(),
                bytes == encode_utf8(t@),
                len - MAX_STDERR_CHARS <= start <= len,
                boundary_from(bytes, (len - MAX_STDERR_CHARS) as int) == boundary_from(bytes, start as int),
            decreases len - start,
        {
            start += 1;
        }
        proof {
            vstd::utf8::encode_utf8_valid_utf8(t@);
            vstd::utf8::is_char_boundary_start_end_of_seq(bytes);
        }
        let (_, tail) = t.split_at(start);
        let out = tail.to_owned();
        Some(out)
    } else {
        Some(trimmed)
    }
}

proof fn lemma_boundary_from_at_least(bytes: Seq<u8>, i: int)
    ensures
        i <= boundary_from(bytes, i),
        i <= bytes.len() ==> boundary_from(bytes, i) <= bytes.len(),
    decreases bytes.len() - i,
{
    if !(i >= bytes.len() || is_char_boundary(bytes, i)) {
        lemma_boundary_from_at_least(bytes, i + 1);
    }
}

/// No two adjacent characters of `s` from position `i` on are `a` then `b`.
pub open spec fn pair_free_from(s: Seq<char>, a: char, b: char, i: nat) -> bool
    decreases s.len() - i,
{
    if i + 1 >= s.len() {
        true
    } else {
        !(s[i as int] == a && s[i as int + 1] == b) && pair_free_from(s, a, b, i + 1)
    }
}

proof fn lemma_pair_free(s: Seq<char>, a: char, b: char, i: nat)
    requires
        pair_free_from(s, a, b, i),
    ensures
        forall|j: int| i <= j && j + 1 < s.len() ==> !(#[trigger] s[j] == a && s[j + 1] == b),
    decreases s.len() - i,
{
    if i + 1 < s.len() {
        lemma_pair_free(s, a, b, i + 1);
    }
}

/// A text in which `p[k]` is never followed by `p[k + 1]` does not contain
/// `p`.
proof fn lemma_pair_blocks(s: Seq<char>, p: Seq<char>, k: int)
    requires
        0 <= k,
        k + 1 < p.len(),
        pair_free_from(s, p[k], p[k + 1], 0),
    ensures
        !contains(s, p),
{
    lemma_pair_free(s, p[k], p[k + 1], 0);
    if contains(s, p) {
        let i = choose|i: int| occurs_at(s, p, i);
        assert(s.subrange(i, i + p.len())[k] == p[k]);
        assert(s.subrange(i, i + p.len())[k + 1] == p[k + 1]);
        assert(s[i + k] == p[k] && s[i + k + 1] == p[k + 1]);
    }
}

/// The redaction marker mentions no credential.
proof fn lemma_marker_not_sensitive()
    ensures
        !is_sensitive(redaction_marker()),
{
    reveal_strlit("[redacted sensitive stderr line]");
    reveal_strlit("authorization");
    reveal_strlit("api key");
    reveal_strlit("api_key");
    reveal_strlit("token");
    reveal_strlit("secret");
    reveal_strlit("password");
    let m = redaction_marker();
    assert(ascii_lower(m) =~= m);
    reveal_with_fuel(pair_free_from, 40);
    assert(pair_free_from(m, 'a', 'u', 0));
    assert(pair_free_from(m, 'a', 'p', 0));
    assert(pair_free_from(m, 't', 'o', 0));
    assert(pair_free_from(m, 'e', 'c', 0));
    assert(pair_free_from(m, 'p', 'a', 0));
    lemma_pair_blocks(m, "authorization"@, 0);
    lemma_pair_blocks(m, "api key"@, 0);
    lemma_pair_blocks(m, "api_key"@, 0);
    lemma_pair_blocks(m, "token"@, 0);
    lemma_pair_blocks(m, "secret"@, 1);
    lemma_pair_blocks(m, "password"@, 0);
    assert forall|k: int| 0 <= k < sensitive_markers().len() implies !contains(
        ascii_lower(m),
        #[trigger] sensitive_markers()[k],
    ) by {
        assert(k == 0 || k == 1 || k == 2 || k == 3 || k == 4 || k == 5);
    }
}

/// Redaction leaves no line that mentions a credential: a sensitive line is
/// replaced by the marker, which mentions none.
pub proof fn lemma_redaction_leaves_no_sensitive_line(stderr: Seq<char>)
    ensures
        forall|j: int| 0 <= j < lines_of(stderr).len() ==> !is_sensitive(
            #[trigger] redact_line(lines_of(stderr)[j]),
        ),
{
    lemma_marker_not_sensitive();
}

proof fn lemma_boundary_from_is_boundary(bytes: Seq<u8>, i: int)
    ensures
        boundary_from(bytes, i) >= bytes.len() || is_char_boundary(bytes, boundary_from(bytes, i)),
    decreases bytes.len() - i,
{
    if !(i >= bytes.len() || is_char_boundary(bytes, i)) {
        lemma_boundary_from_is_boundary(bytes, i + 1);
    }
}

/// Lower-casing commutes with taking a piece of a text.
proof fn lemma_lower_subrange(s: Seq<char>, x: int, y: int)
    requires
        0 <= x <= y <= s.len(),
    ensures
        ascii_lower(s.subrange(x, y)) == ascii_lower(s).subrange(x, y),
{
    assert(ascii_lower(s.subrange(x, y)) =~= ascii_lower(s).subrange(x, y));
}

/// A piece of a text free of a marker is free of it too.
proof fn lemma_clean_subrange(s: Seq<char>, m: Seq<char>, x: int, y: int)
    requires
        0 <= x <= y <= s.len(),
        !contains(ascii_lower(s), m),
    ensures
        !contains(ascii_lower(s.subrange(x, y)), m),
{
    lemma_lower_subrange(s, x, y);
    let low = ascii_lower(s);
    if contains(low.subrange(x, y), m) {
        let i = choose|i: int| occurs_at(low.subrange(x, y), m, i);
        assert(low.subrange(x + i, x + i + m.len()) =~= low.subrange(x, y).subrange(i, i + m.len()));
        assert(occurs_at(low, m, x + i));
    }
}

/// A marker without a line break that is in neither of two texts is not in
/// the two joined by a line break.
proof fn lemma_clean_join(a: Seq<char>, b: Seq<char>, m: Seq<char>)
    requires
        forall|i: int| 0 <= i < m.len() ==> m[i] != '\n',
        !contains(a, m),
        !contains(b, m),
    ensures
        !contains(a + "\n"@ + b, m),
{
    reveal_strlit("\n");
    let s = a + "\n"@ + b;
    if contains(s, m) {
        let i = choose|i: int| occurs_at(s, m, i);
        if i + m.len() <= a.len() {
            assert(a.subrange(i, i + m.len()) =~= s.subrange(i, i + m.len()));
            assert(occurs_at(a, m, i));
        } else if i >= a.len() + 1 {
            let j = i - a.len() - 1;
            assert(b.subrange(j, j + m.len()) =~= s.subrange(i, i + m.len()));
            assert(occurs_at(b, m, j));
        } else {
            assert(s[a.len() as int] == '\n');
            assert(s.subrange(i, i + m.len())[a.len() - i] == m[a.len() - i]);
        }
    }
}

/// Lines free of a marker stay free of it once joined by line breaks.
proof fn lemma_clean_joined(parts: Seq<Seq<char>>, m: Seq<char>)
    requires
        m.len() > 0,
        forall|i: int| 0 <= i < m.len() ==> m[i] != '\n',
        forall|i: int| 0 <= i < parts.len() ==> !contains(ascii_lower(#[trigger] parts[i]), m),
    ensures
        !contains(ascii_lower(joined(parts, "\n"@)), m),
    decreases parts.len(),
{
    reveal_strlit("\n");
    if parts.len() == 0 {
        let e = ascii_lower(joined(parts, "\n"@));
        assert(e.len() == 0);
        if contains(e, m) {
            let i = choose|i: int| occurs_at(e, m, i);
        }
    } else if parts.len() == 1 {
        assert(!contains(ascii_lower(parts[0]), m));
    } else {
        let front = parts.drop_last();
        assert forall|i: int| 0 <= i < front.len() implies !contains(ascii_lower(#[trigger] front[i]), m) by {
            assert(front[i] == parts[i]);
        }
        lemma_clean_joined(front, m);
        let j = joined(front, "\n"@);
        assert(ascii_lower(j + "\n"@ + parts.last()) =~= ascii_lower(j) + "\n"@ + ascii_lower(parts.last()));
        assert(!contains(ascii_lower(parts.last()), m)) by {
            assert(parts.last() == parts[parts.len() - 1]);
        }
        lemma_clean_join(ascii_lower(j), ascii_lower(parts.last()), m);
    }
}

/// The diagnostic tail a failed turn reports never mentions a credential:
/// sensitive lines are redacted before the text is trimmed and cut, and no
/// marker spans a line break.
pub proof fn lemma_stderr_tail_mentions_no_credential(stderr: Seq<char>, t: Seq<char>)
    requires
        stderr_tail_spec(stderr) == Some(encode_utf8(t)),
    ensures
        forall|k: int| 0 <= k < sensitive_markers().len() ==> !contains(ascii_lower(t), #[trigger] sensitive_markers()[k]),
{
    reveal_strlit("authorization");
    reveal_strlit("api key");
    reveal_strlit("api_key");
    reveal_strlit("token");
    reveal_strlit("secret");
    reveal_strlit("password");
    lemma_redaction_leaves_no_sensitive_line(stderr);
    let lines = lines_of(stderr);
    let red = lines.map_values(|l: Seq<char>| redact_line(l));
    let redacted = joined(red, "\n"@);
    let trimmed = trim_spec(redacted);
    let bytes = encode_utf8(trimmed);
    lemma_trim_start_bounds(redacted);
    lemma_trim_end_bounds(redacted);
    vstd::utf8::encode_utf8_decode_utf8(t);
    vstd::utf8::encode_utf8_decode_utf8(trimmed);
    vstd::utf8::encode_utf8_valid_utf8(trimmed);
    // `t` is a suffix of `trimmed`.
    let cut: int = if bytes.len() > MAX_STDERR_CHARS {
        let start = boundary_from(bytes, bytes.len() - MAX_STDERR_CHARS);
        lemma_boundary_from_at_least(bytes, bytes.len() - MAX_STDERR_CHARS);
        lemma_boundary_from_is_boundary(bytes, bytes.len() - MAX_STDERR_CHARS);
        vstd::utf8::is_char_boundary_start_end_of_seq(bytes);
        vstd::utf8::decode_utf8_split(bytes, start);
        assert(encode_utf8(t) == bytes.subrange(start, bytes.len() as int));
        trimmed.len() - t.len()
    } else {
        assert(encode_utf8(t) == bytes);
        0
    };
    assert(0 <= cut <= trimmed.len());
    assert(t =~= trimmed.subrange(cut, trimmed.len() as int));
    assert forall|k: int| 0 <= k < sensitive_markers().len() implies !contains(
        ascii_lower(t),
        #[trigger] sensitive_markers()[k],
    ) by {
        let m = sensitive_markers()[k];
        assert(m.len() > 0 && forall|i: int| 0 <= i < m.len() ==> m[i] != '\n') by {
            assert(k == 0 || k == 1 || k == 2 || k == 3 || k == 4 || k == 5);
        }
        assert forall|i: int| 0 <= i < red.len() implies !contains(ascii_lower(#[trigger] red[i]), m) by {
            assert(!is_sensitive(redact_line(lines[i])));
            assert(red[i] == redact_line(lines[i]));
        }
        lemma_clean_joined(red, m);
        let a = trim_start_index(redacted);
        let b = trim_end_index(redacted);
        if a < b {
            lemma_clean_subrange(redacted, m, a, b);
        } else {
            assert(trimmed.len() == 0);
        }
        lemma_clean_subrange(trimmed, m, cut, trimmed.len() as int);
    }
}

/// The diagnostic tail never exceeds 4096 bytes.
pub proof fn lemma_stderr_tail_bounded(stderr: Seq<char>)
    ensures
        stderr_tail_spec(stderr) matches Some(b) ==> b.len() <= MAX_STDERR_CHARS,
{
    let redacted = joined(lines_of(stderr).map_values(|l: Seq<char>| redact_line(l)), "\n"@);
    let bytes = encode_utf8(trim_spec(redacted));
    if bytes.len() > MAX_STDERR_CHARS {
        lemma_boundary_from_at_least(bytes, bytes.len() - MAX_STDERR_CHARS);
    }
}

/// An error gains the stderr tail of the child as context; a success, or an
/// error with nothing on stderr, is returned unchanged.
pub fn attach_stderr_context(result: Result<String, String>, stderr: String) -> (r: Result<String, String>)
    ensures
        match (result, stderr_tail_spec(stderr@)) {
            (Err(e), Some(tail)) => r matches Err(m) && exists|t: Seq<char>|
                encode_utf8(t) == tail && m@ == e@ + "; codex stderr tail: "@ + t,
            _ => r == result,
        },
{
    match (result, redacted_stderr_tail(stderr)) {
        (Err(error), Some(tail)) => {
            let mut m = error;
            push_all(&mut m, "; codex stderr tail: ");
            push_all(&mut m, tail.as_str());
            Err(m)
        },
        (result, _) => result,
    }
}

// ── Isolation overrides ─────────────────────────────────────────────────

/// Names of MCP servers to disable, decoded from their JSON text as
/// `serde_json` decodes a `Vec<String>`: the names, or the decoder's error
/// message.
pub uninterp spec fn json_string_array(raw: Seq<char>) -> Result<Seq<Seq<char>>, Seq<char>>;

/// `serde_json::from_str::<Vec<String>>`, its error rendered with
/// `to_string`. The result is named `json_string_array`: a function of the
/// text alone.
#[verifier::external_body]
fn parse_json_string_array(raw: &str) -> (r: Result<Vec<String>, String>)
    ensures
        match r {
            Ok(v) => json_string_array(raw@) == Ok::<Seq<Seq<char>>, Seq<char>>(string_views(v@)),
            Err(e) => json_string_array(raw@) == Err::<Seq<Seq<char>>, Seq<char>>(e@),
        },
{
    serde_json::from_str::<Vec<String>>(raw).map_err(|e| e.to_string())
}

pub open spec fn string_views(v: Seq<String>) -> Seq<Seq<char>> {
    v.map_values(|s: String| s@)
}

pub open spec fn is_name_char(c: char) -> bool {
    ('a' <= c && c <= 'z') || ('A' <= c && c <= 'Z') || ('0' <= c && c <= '9') || c == '-' || c == '_'
}

/// A server name that cannot escape its config path: 1 to 128 ASCII
/// letters, digits, `-` or `_`.
pub open spec fn valid_server_name(n: Seq<char>) -> bool {
    0 < n.len() <= 128 && forall|i: int| 0 <= i < n.len() ==> is_name_char(#[trigger] n[i])
}

pub open spec fn strictly_sorted(v: Seq<Seq<char>>) -> bool {
    forall|i: int, j: int| 0 <= i < j < v.len() ==> seq_lt(#[trigger] v[i], #[trigger] v[j])
}

/// The accepted server names: the same names, sorted, each once.
pub open spec fn sorted_names_of(names: Seq<Seq<char>>, out: Seq<Seq<char>>) -> bool {
    &&& strictly_sorted(out)
    &&& forall|x: Seq<char>| #[trigger] out.contains(x) <==> names.contains(x)
}

/// What the names decoded from the variable yield: an error for a decoding
/// failure, too many names or a bad name, else the names sorted and
/// deduplicated.
pub open spec fn server_names_ok(decoded: Result<Seq<Seq<char>>, Seq<char>>, out: Result<Seq<Seq<char>>, Seq<char>>) -> bool {
    match decoded {
        Err(e) => out == Err::<Seq<Seq<char>>, Seq<char>>("invalid AGENT_GRAPH_CODEX_DISABLED_MCP_SERVERS_JSON: "@ + e),
        Ok(names) => if names.len() > 128 {
            out == Err::<Seq<Seq<char>>, Seq<char>>("AGENT_GRAPH_CODEX_DISABLED_MCP_SERVERS_JSON exceeds bounded server count (128)"@)
        } else if exists|i: int| 0 <= i < names.len() && !valid_server_name(#[trigger] names[i]) {
            out == Err::<Seq<Seq<char>>, Seq<char>>("invalid MCP server name in AGENT_GRAPH_CODEX_DISABLED_MCP_SERVERS_JSON"@)
        } else {
            out matches Ok(v) && sorted_names_of(names, v)
        },
    }
}

pub open spec fn names_result_view(r: Result<Vec<String>, String>) -> Result<Seq<Seq<char>>, Seq<char>> {
    match r {
        Ok(v) => Ok(string_views(v@)),
        Err(e) => Err(e@),
    }
}

fn valid_server_name_exec(n: &str) -> (r: bool)
    ensures
        r == valid_server_name(n@),
{
    let cs = chars_of(n);
    if cs.len() == 0 || cs.len() > 128 {
        return false;
    }
    let mut i: usize = 0;
    while i < cs.len()
        invariant
            i <= cs@.len(),
            cs@ == n@,
            forall|j: int| 0 <= j < i ==> is_name_char(#[trigger] cs@[j]),
        decreases cs.len() - i,
    {
        let c = cs[i];
        if !(('a' <= c && c <= 'z') || ('A' <= c && c <= 'Z') || ('0' <= c && c <= '9') || c == '-' || c == '_') {
            assert(!is_name_char(cs@[i as int]));
            return false;
        }
        i += 1;
    }
    true
}

/// Inserts `x` into a strictly sorted list unless it is already there.
fn insert_sorted(v: &mut Vec<String>, x: String)
    requires
        strictly_sorted(string_views(old(v)@)),
    ensures
        strictly_sorted(string_views(final(v)@)),
        forall|y: Seq<char>|
            #[trigger] string_views(final(v)@).contains(y) <==> (string_views(old(v)@).contains(y)
                || y == x@),
{
    let ghost old_v = string_views(v@);
    let xs = chars_of(x.as_str());
    let mut p: usize = 0;
    while p < v.len() && chars_lt(chars_of(v[p].as_str()).as_slice(), xs.as_slice())
        invariant
            p <= v@.len(),
            old_v == string_views(v@),
            xs@ == x@,
            forall|j: int| 0 <= j < p ==> seq_lt(#[trigger] old_v[j], x@),
        decreases v.len() - p,
    {
        p += 1;
    }
    if p < v.len() && str_eq(v[p].as_str(), x.as_str()) {
        assert(old_v[p as int] == x@);
        assert forall|y: Seq<char>| old_v.contains(y) || y == x@ implies old_v.contains(y) by {
            if y == x@ {
                assert(old_v[p as int] == y);
            }
        }
        return;
    }
    proof {
        if p < old_v.len() {
            lemma_seq_lt_total(old_v[p as int], x@);
            assert(seq_lt(x@, old_v[p as int]));
        }
    }
    v.insert(p, x);
    let ghost new_v = string_views(v@);
    assert(new_v =~= old_v.insert(p as int, x@));
    assert forall|i: int, j: int| 0 <= i < j < new_v.len() implies seq_lt(#[trigger] new_v[i], #[trigger] new_v[j]) by {
        if j < p {
            assert(new_v[i] == old_v[i] && new_v[j] == old_v[j]);
        } else if j == p {
            assert(new_v[i] == old_v[i]);
        } else if i == p {
            assert(new_v[j] == old_v[j - 1]);
            if j - 1 > p {
                assert(seq_lt(old_v[p as int], old_v[j - 1]));
                lemma_seq_lt_transitive(x@, old_v[p as int], old_v[j - 1]);
            }
        } else if i < p {
            assert(new_v[i] == old_v[i] && new_v[j] == old_v[j - 1]);
            assert(seq_lt(old_v[i], x@));
            if j - 1 >= p {
                if j - 1 > p {
                    assert(seq_lt(old_v[p as int], old_v[j - 1]));
                    lemma_seq_lt_transitive(x@, old_v[p as int], old_v[j - 1]);
                }
                lemma_seq_lt_transitive(old_v[i], x@, old_v[j - 1]);
            }
        } else {
            assert(new_v[i] == old_v[i - 1] && new_v[j] == old_v[j - 1]);
        }
    }
    assert forall|y: Seq<char>| new_v.contains(y) <==> (old_v.contains(y) || y == x@) by {
        if new_v.contains(y) {
            let k = choose|k: int| 0 <= k < new_v.len() && new_v[k] == y;
            if k < p {
                assert(old_v[k] == y);
            } else if k > p {
                assert(old_v[k - 1] == y);
            }
        }
        if old_v.contains(y) {
            let k = choose|k: int| 0 <= k < old_v.len() && old_v[k] == y;
            if k < p {
                assert(new_v[k] == y);
            } else {
                assert(new_v[k + 1] == y);
            }
        }
        if y == x@ {
            assert(new_v[p as int] == y);
        }
    }
}

/// Validates decoded server names and puts them in order; see
/// `server_names_ok`.
pub fn server_names_from(decoded: Result<Vec<String>, String>) -> (r: Result<Vec<String>, String>)
    ensures
        server_names_ok(names_result_view(decoded), names_result_view(r)),
{
    let ghost d = names_result_view(decoded);
    let names = match decoded {
        Err(e) => {
            let mut m = "invalid AGENT_GRAPH_CODEX_DISABLED_MCP_SERVERS_JSON: ".to_owned();
            push_all(&mut m, e.as_str());
            return Err(m);
        },
        Ok(v) => v,
    };
    let ghost ns = string_views(names@);
    if names.len() > 128 {
        return Err("AGENT_GRAPH_CODEX_DISABLED_MCP_SERVERS_JSON exceeds bounded server count (128)".to_owned());
    }
    let mut i: usize = 0;
    while i < names.len()
        invariant
            i <= names@.len(),
            ns == string_views(names@),
            d == Ok::<Seq<Seq<char>>, Seq<char>>(ns),
            d == names_result_view(decoded),
            ns.len() <= 128,
            forall|j: int| 0 <= j < i ==> valid_server_name(#[trigger] ns[j]),
        decreases names.len() - i,
    {
        if !valid_server_name_exec(names[i].as_str()) {
            assert(!valid_server_name(ns[i as int]));
            return Err("invalid MCP server name in AGENT_GRAPH_CODEX_DISABLED_MCP_SERVERS_JSON".to_owned());
        }
        i += 1;
    }
    let mut out: Vec<String> = Vec::new();
    let mut k: usize = 0;
    assert(string_views(out@) =~= Seq::<Seq<char>>::empty());
    while k < names.len()
        invariant
            k <= names@.len(),
            ns == string_views(names@),
            strictly_sorted(string_views(out@)),
            forall|y: Seq<char>|
                #[trigger] string_views(out@).contains(y) <==> ns.subrange(0, k as int).contains(y),
        decreases names.len() - k,
    {
        let ghost before = string_views(out@);
        insert_sorted(&mut out, names[k].clone());
        assert forall|y: Seq<char>|
            string_views(out@).contains(y) <==> ns.subrange(0, k + 1).contains(y) by {
            let pre = ns.subrange(0, k as int);
            let nxt = ns.subrange(0, k + 1);
            if pre.contains(y) {
                let t = choose|t: int| 0 <= t < pre.len() && pre[t] == y;
                assert(nxt[t] == y);
            }
            if nxt.contains(y) {
                let t = choose|t: int| 0 <= t < nxt.len() && nxt[t] == y;
                if t < k {
                    assert(pre[t] == y);
                } else {
                    assert(y == ns[k as int]);
                }
            }
            if y == ns[k as int] {
                assert(nxt[k as int] == y);
            }
        }
        k += 1;
    }
    assert(ns.subrange(0, ns.len() as int) =~= ns);
    Ok(out)
}

/// Decodes and validates the JSON list of MCP servers to disable; see
/// `server_names_ok` over `json_string_array`.
pub fn parse_disabled_mcp_server_names(raw: &str) -> (r: Result<Vec<String>, String>)
    ensures
        server_names_ok(json_string_array(raw@), names_result_view(r)),
{
    let decoded = parse_json_string_array(raw);
    server_names_from(decoded)
}

/// The `-c` overrides that isolate a Codex child from plugins, apps and the
/// named MCP servers.
pub open spec fn isolation_args_spec(names: Seq<Seq<char>>) -> Seq<Seq<char>>
    decreases names.len(),
{
    if names.len() == 0 {
        seq!["-c"@, "features.plugins=false"@, "-c"@, "features.apps=false"@]
    } else {
        isolation_args_spec(names.drop_last()) + seq!["-c"@, "mcp_servers."@ + names.last() + ".enabled=false"@]
    }
}

/// The command-line overrides for disabling plugins, apps and the given MCP
/// servers.
pub fn codex_isolation_args(names: &Vec<String>) -> (r: Vec<String>)
    ensures
        string_views(r@) == isolation_args_spec(string_views(names@)),
{
    let ghost ns = string_views(names@);
    let mut args: Vec<String> = vec![
        "-c".to_owned(),
        "features.plugins=false".to_owned(),
        "-c".to_owned(),
        "features.apps=false".to_owned(),
    ];
    assert(string_views(args@) =~= isolation_args_spec(ns.subrange(0, 0)));
    let mut i: usize = 0;
    while i < names.len()
        invariant
            i <= names@.len(),
            ns == string_views(names@),
            string_views(args@) == isolation_args_spec(ns.subrange(0, i as int)),
        decreases names.len() - i,
    {
        let ghost pre = ns.subrange(0, i + 1);
        assert(pre.drop_last() =~= ns.subrange(0, i as int));
        let mut a = "mcp_servers.".to_owned();
        push_all(&mut a, names[i].as_str());
        push_all(&mut a, ".enabled=false");
        args.push("-c".to_owned());
        args.push(a);
        assert(string_views(args@) =~= isolation_args_spec(pre));
        i += 1;
    }
    assert(ns.subrange(0, ns.len() as int) =~= ns);
    args
}

// ── Process admission ───────────────────────────────────────────────────

pub const DEFAULT_MAX_PROCESSES: usize = 3;

pub const MAX_CONFIGURED_PROCESSES: usize = 32;

/// The process limit configured by `AGENT_GRAPH_CODEX_MAX_PROCESSES`: a
/// positive integer, capped at 32, else 3.
pub open spec fn admission_limit_spec(raw: Option<Seq<char>>) -> usize {
    let configured: usize = match raw {
        Some(t) => match parse_u64_spec(t) {
            Some(v) => if 0 < v && v <= usize::MAX {
                v as usize
            } else {
                DEFAULT_MAX_PROCESSES
            },
            None => DEFAULT_MAX_PROCESSES,
        },
        None => DEFAULT_MAX_PROCESSES,
    };
    if configured < MAX_CONFIGURED_PROCESSES {
        configured
    } else {
        MAX_CONFIGURED_PROCESSES
    }
}

/// Reads the configured process limit from the variable's text.
pub fn admission_limit(raw: Option<&str>) -> (r: usize)
    ensures
        r == admission_limit_spec(match raw {
            Some(t) => Some(t@),
            None => None,
        }),
{
    let configured: usize = match raw {
        Some(t) => match parse_u64(chars_of(t).as_slice()) {
            Some(v) => if 0 < v && v <= usize::MAX as u64 {
                v as usize
            } else {
                DEFAULT_MAX_PROCESSES
            },
            None => DEFAULT_MAX_PROCESSES,
        },
        None => DEFAULT_MAX_PROCESSES,
    };
    if configured < MAX_CONFIGURED_PROCESSES {
        configured
    } else {
        MAX_CONFIGURED_PROCESSES
    }
}

/// Counts the Codex children running against a fixed limit.
pub struct ProcessAdmission {
    active: usize,
    limit: usize,
}

impl ProcessAdmission {
    pub closed spec fn active(&self) -> nat {
        self.active as nat
    }

    pub closed spec fn limit(&self) -> nat {
        self.limit as nat
    }

    /// The count never exceeds the limit.
    pub closed spec fn wf(&self) -> bool {
        self.active <= self.limit
    }

    pub fn new(limit: usize) -> (r: Self)
        ensures
            r.wf(),
            r.active() == 0,
            r.limit() == limit,
    {
        ProcessAdmission { active: 0, limit }
    }

    pub fn limit_value(&self) -> (r: usize)
        ensures
            r == self.limit(),
    {
        self.limit
    }

    /// A single configured process uses the reusable worker. Higher limits
    /// select bounded one-shot workers so graph fan-out is real provider
    /// concurrency.
    pub fn use_persistent_worker(&self) -> (r: bool)
        ensures
            r == (self.limit() == 1),
    {
        self.limit == 1
    }

    /// Admits one more child when below the limit.
    pub fn try_acquire(&mut self) -> (r: bool)
        requires
            old(self).wf(),
        ensures
            final(self).wf(),
            final(self).limit() == old(self).limit(),
            r == (old(self).active() < old(self).limit()),
            final(self).active() == if r {
                old(self).active() + 1
            } else {
                old(self).active()
            },
    {
        if self.active < self.limit {
            self.active = self.active + 1;
            true
        } else {
            false
        }
    }

    /// A child finished; the count never goes below zero.
    pub fn release(&mut self)
        requires
            old(self).wf(),
        ensures
            final(self).wf(),
            final(self).limit() == old(self).limit(),
            final(self).active() == if old(self).active() > 0 {
                old(self).active() - 1
            } else {
                0
            },
    {
        if self.active > 0 {
            self.active = self.active - 1;
        }
    }
}

/// The message when no capacity freed up in time.
pub fn capacity_exhausted_message(limit: usize) -> (r: String)
    ensures
        r@ == "codex app-server process capacity exhausted (limit "@ + decimal(limit as nat) + ")"@,
{
    let mut m = "codex app-server process capacity exhausted (limit ".to_owned();
    let d = string_from_chars(crate::json::decimal_chars(limit as u64).as_slice());
    push_all(&mut m, d.as_str());
    push_all(&mut m, ")");
    m
}

// ── Turn set-up ─────────────────────────────────────────────────────────

/// Bound on a prompt, in bytes.
pub const MAX_PROMPT_BYTES: usize = 262144;

/// Time left before `deadline_ms` at `now_ms`; an error once it is reached.
pub fn remaining(deadline_ms: u64, now_ms: u64) -> (r: Result<u64, String>)
    ensures
        match r {
            Ok(left) => deadline_ms > now_ms && left == deadline_ms - now_ms,
            Err(e) => deadline_ms <= now_ms && e@ == "codex app-server timed out"@,
        },
{
    if deadline_ms > now_ms {
        Ok(deadline_ms - now_ms)
    } else {
        Err("codex app-server timed out".to_owned())
    }
}

/// The inputs of a turn are acceptable: a model is named and the prompt is
/// within its bound.
pub open spec fn turn_input_error(model: Seq<char>, prompt: Seq<char>) -> Option<Seq<char>> {
    if trim_spec(model).len() == 0 {
        Some("codex model must not be empty"@)
    } else if utf8_len(prompt) > MAX_PROMPT_BYTES {
        Some("codex prompt exceeds bounded input limit (262144 bytes)"@)
    } else {
        None
    }
}

/// Checks the inputs of a turn before any child is started.
pub fn check_turn_input(model: &str, prompt: &str) -> (r: Result<(), String>)
    ensures
        match r {
            Ok(()) => turn_input_error(model@, prompt@) is None,
            Err(e) => turn_input_error(model@, prompt@) == Some(e@),
        },
{
    if is_blank_str(model) {
        return Err("codex model must not be empty".to_owned());
    }
    if prompt.as_bytes().len() > MAX_PROMPT_BYTES {
        return Err("codex prompt exceeds bounded input limit (262144 bytes)".to_owned());
    }
    Ok(())
}

/// The note a start failure carries when the executable exited cleanly at
/// startup: a server that speaks only over stdio.
pub open spec fn clean_startup_exit() -> Seq<char> {
    "exited during startup (exit status: 0)"@
}

/// Whether a pooled turn whose worker failed to start runs as a one-shot
/// stdio turn instead: only when the executable exited cleanly at startup.
pub fn falls_back_to_stdio(start_error: &str) -> (r: bool)
    ensures
        r == contains(start_error@, clean_startup_exit()),
{
    let e = chars_of(start_error);
    let note = chars_of("exited during startup (exit status: 0)");
    contains_exec(e.as_slice(), note.as_slice())
}

/// Whether the pooled worker can serve a turn: one is running and was
/// started for the same executable, model and working directory.
pub fn worker_reusable(worker: &Option<(String, String, String)>, codex_bin: &str, model: &str, cwd: &str) -> (r: bool)
    ensures
        r == (match worker {
            Some(w) => w.0@ == codex_bin@ && w.1@ == model@ && w.2@ == cwd@,
            None => false,
        }),
{
    match worker {
        Some(w) => str_eq(w.0.as_str(), codex_bin) && str_eq(w.1.as_str(), model) && str_eq(w.2.as_str(), cwd),
        None => false,
    }
}

pub open spec fn effort_allowed(e: Seq<char>) -> bool {
    e == "minimal"@ || e == "low"@ || e == "medium"@ || e == "high"@ || e == "xhigh"@
}

/// Checks a configured reasoning effort.
pub fn check_reasoning_effort(effort: &str) -> (r: Result<(), String>)
    ensures
        match r {
            Ok(()) => effort_allowed(effort@),
            Err(e) => !effort_allowed(effort@) && e@ == "unsupported Codex reasoning effort: "@ + effort@,
        },
{
    if str_eq(effort, "minimal") || str_eq(effort, "low") || str_eq(effort, "medium") || str_eq(effort, "high")
        || str_eq(effort, "xhigh") {
        Ok(())
    } else {
        let mut m = "unsupported Codex reasoning effort: ".to_owned();
        push_all(&mut m, effort);
        Err(m)
    }
}

/// The thread id of a `thread/start` result: `thread.id`, else
/// `thread.sessionId`.
pub open spec fn thread_id_spec(result: Json) -> Option<Seq<char>> {
    match str_at(result, seq!["thread"@, "id"@]) {
        Some(id) => Some(id),
        None => str_at(result, seq!["thread"@, "sessionId"@]),
    }
}

pub fn thread_id_of(result: &JsonValue) -> (r: Result<String, String>)
    ensures
        match r {
            Ok(id) => thread_id_spec(result@) == Some(id@),
            Err(e) => thread_id_spec(result@) is None && e@ == "codex thread/start returned no thread id"@,
        },
{
    match str_at_exec(result, "thread", "id", None) {
        Some(id) => Ok(id.clone()),
        None => match str_at_exec(result, "thread", "sessionId", None) {
            Some(id) => Ok(id.clone()),
            None => Err("codex thread/start returned no thread id".to_owned()),
        },
    }
}

/// What a received message means for a request with id `id`: nothing when
/// it answers another request; the error it carries; else its result (null
/// when absent).
pub open spec fn response_spec(message: Json, id: u64) -> Option<Result<Json, Seq<char>>> {
    if request_id_of(message) != Some(id) {
        None
    } else {
        match message.get("error"@) {
            Some(err) => Some(
                Err("codex app-server request "@ + decimal(id as nat) + " failed: "@ + json_text(err)),
            ),
            None => Some(
                Ok(
                    match message.get("result"@) {
                        Some(r) => r,
                        None => Json::Null,
                    },
                ),
            ),
        }
    }
}

pub fn response_for(message: &JsonValue, id: u64) -> (r: Option<Result<JsonValue, String>>)
    ensures
        match r {
            None => response_spec(message@, id) is None,
            Some(Ok(v)) => response_spec(message@, id) == Some(Ok::<Json, Seq<char>>(v@)),
            Some(Err(e)) => response_spec(message@, id) == Some(Err::<Json, Seq<char>>(e@)),
        },
{
    let matches = match message.get("id") {
        Some(v) => match v.as_u64() {
            Some(n) => n == id,
            None => false,
        },
        None => false,
    };
    if !matches {
        return None;
    }
    match message.get("error") {
        Some(err) => {
            let mut m = "codex app-server request ".to_owned();
            let d = string_from_chars(crate::json::decimal_chars(id).as_slice());
            push_all(&mut m, d.as_str());
            push_all(&mut m, " failed: ");
            let t = err.to_json_string();
            push_all(&mut m, t.as_str());
            Some(Err(m))
        },
        None => match message.get("result") {
            Some(r) => Some(Ok(clone_json(r))),
            None => Some(Ok(JsonValue::Null)),
        },
    }
}

/// A JSON-RPC request.
pub open spec fn request_json(id: u64, method: Seq<char>, params: Json) -> Json {
    Json::Object(
        seq![
            ("id"@, Json::Number(decimal(id as nat))),
            ("jsonrpc"@, Json::Str("2.0"@)),
            ("method"@, Json::Str(method)),
            ("params"@, params),
        ],
    )
}

/// A JSON-RPC notification.
pub open spec fn notification_json(method: Seq<char>, params: Json) -> Json {
    Json::Object(
        seq![("jsonrpc"@, Json::Str("2.0"@)), ("method"@, Json::Str(method)), ("params"@, params)],
    )
}

/// The refusal of a server-initiated tool or approval request.
pub open spec fn denial_json(request_id: u64) -> Json {
    Json::Object(
        seq![
            ("error"@, Json::Object(
                seq![
                    ("code"@, Json::Number("-32000"@)),
                    ("message"@, Json::Str("Agent Graph forbids Codex tool/approval requests"@)),
                ],
            )),
            ("id"@, Json::Number(decimal(request_id as nat))),
            ("jsonrpc"@, Json::Str("2.0"@)),
        ],
    )
}

pub fn rpc_request(id: u64, method: &str, params: JsonValue) -> (r: JsonValue)
    ensures
        r@ == request_json(id, method@, params@),
{
    let r = JsonValue::Object(
        vec![
            ("id".to_owned(), JsonValue::number_u64(id)),
            ("jsonrpc".to_owned(), JsonValue::string("2.0")),
            ("method".to_owned(), JsonValue::string(method)),
            ("params".to_owned(), params),
        ],
    );
    assert(r@->Object_0 =~= request_json(id, method@, params@)->Object_0);
    r
}

pub fn rpc_notification(method: &str, params: JsonValue) -> (r: JsonValue)
    ensures
        r@ == notification_json(method@, params@),
{
    let r = JsonValue::Object(
        vec![
            ("jsonrpc".to_owned(), JsonValue::string("2.0")),
            ("method".to_owned(), JsonValue::string(method)),
            ("params".to_owned(), params),
        ],
    );
    assert(r@->Object_0 =~= notification_json(method@, params@)->Object_0);
    r
}

pub fn denial_reply(request_id: u64) -> (r: JsonValue)
    ensures
        r@ == denial_json(request_id),
{
    let code = JsonValue::Number("-32000".to_owned());
    assert(code@ == Json::Number("-32000"@));
    let err = JsonValue::Object(
        vec![
            ("code".to_owned(), code),
            ("message".to_owned(), JsonValue::string("Agent Graph forbids Codex tool/approval requests")),
        ],
    );
    assert(err@->Object_0 =~= denial_json(request_id)->Object_0[0].1->Object_0);
    let r = JsonValue::Object(
        vec![
            ("error".to_owned(), err),
            ("id".to_owned(), JsonValue::number_u64(request_id)),
            ("jsonrpc".to_owned(), JsonValue::string("2.0")),
        ],
    );
    assert(r@->Object_0 =~= denial_json(request_id)->Object_0);
    r
}

/// Parameters of `initialize`, naming this client at `version`.
pub open spec fn initialize_params_json(version: Seq<char>) -> Json {
    Json::Object(
        seq![
            ("capabilities"@, Json::Object(Seq::empty())),
            ("clientInfo"@, Json::Object(
                seq![
                    ("name"@, Json::Str("agent-graph-mcp"@)),
                    ("title"@, Json::Str("Agent Graph MCP"@)),
                    ("version"@, Json::Str(version)),
                ],
            )),
        ],
    )
}

pub fn initialize_params(version: &str) -> (r: JsonValue)
    ensures
        r@ == initialize_params_json(version@),
{
    let caps = JsonValue::Object(Vec::new());
    assert(caps@->Object_0 =~= Seq::<(Seq<char>, Json)>::empty());
    let info = JsonValue::Object(
        vec![
            ("name".to_owned(), JsonValue::string("agent-graph-mcp")),
            ("title".to_owned(), JsonValue::string("Agent Graph MCP")),
            ("version".to_owned(), JsonValue::string(version)),
        ],
    );
    assert(info@->Object_0 =~= initialize_params_json(version@)->Object_0[1].1->Object_0);
    let r = JsonValue::Object(vec![("capabilities".to_owned(), caps), ("clientInfo".to_owned(), info)]);
    assert(r@->Object_0 =~= initialize_params_json(version@)->Object_0);
    r
}

/// Parameters of `turn/start`: the prompt as the only text input.
pub open spec fn turn_start_params_json(thread_id: Seq<char>, prompt: Seq<char>) -> Json {
    Json::Object(
        seq![
            ("input"@, Json::Array(
                seq![Json::Object(seq![("text"@, Json::Str(prompt)), ("type"@, Json::Str("text"@))])],
            )),
            ("threadId"@, Json::Str(thread_id)),
        ],
    )
}

pub fn turn_start_params(thread_id: &str, prompt: &str) -> (r: JsonValue)
    ensures
        r@ == turn_start_params_json(thread_id@, prompt@),
{
    let item = JsonValue::Object(
        vec![("text".to_owned(), JsonValue::string(prompt)), ("type".to_owned(), JsonValue::string("text"))],
    );
    assert(item@->Object_0 =~= seq![("text"@, Json::Str(prompt@)), ("type"@, Json::Str("text"@))]);
    let input = JsonValue::Array(vec![item]);
    assert(input@->Array_0 =~= turn_start_params_json(thread_id@, prompt@)->Object_0[0].1->Array_0);
    let r = JsonValue::Object(
        vec![("input".to_owned(), input), ("threadId".to_owned(), JsonValue::string(thread_id))],
    );
    assert(r@->Object_0 =~= turn_start_params_json(thread_id@, prompt@)->Object_0);
    r
}

/// Parameters naming one thread (`thread/delete`).
pub fn thread_params(thread_id: &str) -> (r: JsonValue)
    ensures
        r@ == Json::Object(seq![("threadId"@, Json::Str(thread_id@))]),
{
    let r = JsonValue::Object(vec![("threadId".to_owned(), JsonValue::string(thread_id))]);
    assert(r@->Object_0 =~= seq![("threadId"@, Json::Str(thread_id@))]);
    r
}

/// Parameters of `thread/start` in a working directory.
pub fn cwd_params(cwd: &str) -> (r: JsonValue)
    ensures
        r@ == Json::Object(seq![("cwd"@, Json::Str(cwd@))]),
{
    let r = JsonValue::Object(vec![("cwd".to_owned(), JsonValue::string(cwd))]);
    assert(r@->Object_0 =~= seq![("cwd"@, Json::Str(cwd@))]);
    r
}

/// The next request id after `id`, saturating.
pub fn next_request_id(id: u64) -> (r: u64)
    ensures
        r == if id == u64::MAX {
            u64::MAX
        } else {
            (id + 1) as u64
        },
{
    id.saturating_add(1)
}

// ── WebSocket frames ────────────────────────────────────────────────────

/// Bound on one JSON message, in bytes.
pub const MAX_JSON_LINE_BYTES: usize = 4194304;

pub open spec fn frame_limit_message() -> Seq<char> {
    "codex app-server websocket frame exceeds bounded limit (4194304 bytes)"@
}

/// Big-endian bytes of a 64-bit value.
pub open spec fn be_u64(x: u64) -> Seq<u8> {
    seq![
        ((x >> 56u64) & 0xff) as u8,
        ((x >> 48u64) & 0xff) as u8,
        ((x >> 40u64) & 0xff) as u8,
        ((x >> 32u64) & 0xff) as u8,
        ((x >> 24u64) & 0xff) as u8,
        ((x >> 16u64) & 0xff) as u8,
        ((x >> 8u64) & 0xff) as u8,
        (x & 0xff) as u8,
    ]
}

/// Big-endian bytes of a 32-bit value.
pub open spec fn be_u32(x: u32) -> Seq<u8> {
    seq![((x >> 24u32) & 0xff) as u8, ((x >> 16u32) & 0xff) as u8, ((x >> 8u32) & 0xff) as u8, (x & 0xff) as u8]
}

/// The header of a final, masked client frame with `len` payload bytes.
pub open spec fn frame_header(opcode: u8, len: u64) -> Seq<u8> {
    let b0 = 0x80u8 | (opcode & 0x0fu8);
    if len <= 125 {
        seq![b0, (0x80u64 | len) as u8]
    } else if len <= 65535 {
        seq![b0, 0xfeu8, ((len >> 8u64) & 0xff) as u8, (len & 0xff) as u8]
    } else {
        seq![b0, 0xffu8] + be_u64(len)
    }
}

/// `payload` XOR-ed with the repeating 4-byte mask.
pub open spec fn masked(payload: Seq<u8>, mask: Seq<u8>) -> Seq<u8> {
    Seq::new(payload.len(), |i: int| payload[i] ^ mask[i % 4])
}

/// The bytes of a final, masked client frame: header, mask, masked payload.
pub open spec fn frame_bytes(opcode: u8, payload: Seq<u8>, mask_seed: u32) -> Seq<u8> {
    frame_header(opcode, payload.len() as u64) + be_u32(mask_seed) + masked(payload, be_u32(mask_seed))
}

fn be_u64_exec(x: u64) -> (r: Vec<u8>)
    ensures
        r@ == be_u64(x),
{
    let r = vec![
        ((x >> 56u64) & 0xff) as u8,
        ((x >> 48u64) & 0xff) as u8,
        ((x >> 40u64) & 0xff) as u8,
        ((x >> 32u64) & 0xff) as u8,
        ((x >> 24u64) & 0xff) as u8,
        ((x >> 16u64) & 0xff) as u8,
        ((x >> 8u64) & 0xff) as u8,
        (x & 0xff) as u8,
    ];
    assert(r@ =~= be_u64(x));
    r
}

/// XORs `payload` with the repeating mask.
pub fn apply_mask(payload: &[u8], mask: &[u8]) -> (r: Vec<u8>)
    requires
        mask.len() == 4,
    ensures
        r@ == masked(payload@, mask@),
{
    let mut r: Vec<u8> = Vec::new();
    let mut i: usize = 0;
    while i < payload.len()
        invariant
            i <= payload@.len(),
            mask@.len() == 4,
            r@.len() == i,
            forall|j: int| 0 <= j < i ==> #[trigger] r@[j] == payload@[j] ^ mask@[j % 4],
        decreases payload.len() - i,
    {
        r.push(payload[i] ^ mask[i % 4]);
        i += 1;
    }
    assert(r@ =~= masked(payload@, mask@));
    r
}

/// The bytes of a final, masked frame carrying `payload`; refused beyond
/// the message bound.
pub fn websocket_frame(opcode: u8, payload: &[u8], mask_seed: u32) -> (r: Result<Vec<u8>, String>)
    ensures
        match r {
            Ok(b) => payload@.len() <= MAX_JSON_LINE_BYTES && b@ == frame_bytes(opcode, payload@, mask_seed),
            Err(e) => payload@.len() > MAX_JSON_LINE_BYTES && e@ == frame_limit_message(),
        },
{
    if payload.len() > MAX_JSON_LINE_BYTES {
        return Err("codex app-server websocket frame exceeds bounded limit (4194304 bytes)".to_owned());
    }
    let len = payload.len() as u64;
    let mut out: Vec<u8> = Vec::new();
    out.push(0x80u8 | (opcode & 0x0fu8));
    if len <= 125 {
        out.push((0x80u64 | len) as u8);
    } else if len <= 65535 {
        out.push(0xfeu8);
        out.push(((len >> 8u64) & 0xff) as u8);
        out.push((len & 0xff) as u8);
    } else {
        out.push(0xffu8);
        let ext = be_u64_exec(len);
        let mut k: usize = 0;
        let ghost start = out@;
        while k < 8
            invariant
                k <= 8,
                ext@ == be_u64(len),
                out@ == start + ext@.subrange(0, k as int),
            decreases 8 - k,
        {
            out.push(ext[k]);
            k += 1;
        }
        assert(ext@.subrange(0, 8) =~= ext@);
    }
    assert(out@ =~= frame_header(opcode, len));
    let mask = vec![
        ((mask_seed >> 24u32) & 0xff) as u8,
        ((mask_seed >> 16u32) & 0xff) as u8,
        ((mask_seed >> 8u32) & 0xff) as u8,
        (mask_seed & 0xff) as u8,
    ];
    assert(mask@ =~= be_u32(mask_seed));
    let body = apply_mask(payload, mask.as_slice());
    let ghost head = out@;
    let mut k: usize = 0;
    while k < 4
        invariant
            k <= 4,
            mask@.len() == 4,
            out@ == head + mask@.subrange(0, k as int),
        decreases 4 - k,
    {
        out.push(mask[k]);
        k += 1;
    }
    assert(mask@.subrange(0, 4) =~= mask@);
    let ghost mid = out@;
    let mut k: usize = 0;
    while k < body.len()
        invariant
            k <= body@.len(),
            out@ == mid + body@.subrange(0, k as int),
        decreases body.len() - k,
    {
        out.push(body[k]);
        k += 1;
    }
    assert(body@.subrange(0, body@.len() as int) =~= body@);
    assert(out@ =~= frame_bytes(opcode, payload@, mask_seed));
    Ok(out)
}

/// What the first two bytes of a frame say.
pub struct FrameStart {
    pub fin: bool,
    pub opcode: u8,
    pub masked: bool,
    pub len7: u8,
}

pub open spec fn reserved_message() -> Seq<char> {
    "codex app-server websocket reserved bits were set"@
}

/// Reads the first two bytes of a frame; reserved bits are refused.
pub fn frame_start(b0: u8, b1: u8) -> (r: Result<FrameStart, String>)
    ensures
        match r {
            Ok(f) => b0 & 0x70u8 == 0 && f.fin == (b0 & 0x80u8 != 0) && f.opcode == b0 & 0x0fu8 && f.masked == (b1
                & 0x80u8 != 0) && f.len7 == b1 & 0x7fu8,
            Err(e) => b0 & 0x70u8 != 0 && e@ == reserved_message(),
        },
{
    if b0 & 0x70u8 != 0 {
        return Err("codex app-server websocket reserved bits were set".to_owned());
    }
    Ok(FrameStart { fin: b0 & 0x80u8 != 0, opcode: b0 & 0x0fu8, masked: b1 & 0x80u8 != 0, len7: b1 & 0x7fu8 })
}

/// Number of extended length bytes that follow the first two.
pub open spec fn ext_len(len7: u8) -> nat {
    if len7 == 126 {
        2
    } else if len7 == 127 {
        8
    } else {
        0
    }
}

/// The payload length from the 7-bit length and its big-endian extension.
pub open spec fn length_from(len7: u8, ext: Seq<u8>) -> int {
    if len7 == 126 {
        ext[0] * 256 + ext[1]
    } else if len7 == 127 {
        ext[0] * 0x100000000000000 + ext[1] * 0x1000000000000 + ext[2] * 0x10000000000 + ext[3] * 0x100000000
            + ext[4] * 0x1000000 + ext[5] * 0x10000 + ext[6] * 0x100 + ext[7]
    } else {
        len7 as int
    }
}

pub fn ext_len_of(len7: u8) -> (r: usize)
    ensures
        r == ext_len(len7),
{
    if len7 == 126 {
        2
    } else if len7 == 127 {
        8
    } else {
        0
    }
}

/// The payload length of a frame.
pub fn frame_length(len7: u8, ext: &[u8]) -> (r: u64)
    requires
        ext.len() == ext_len(len7),
    ensures
        r == length_from(len7, ext@),
{
    if len7 == 126 {
        (ext[0] as u64) * 256 + (ext[1] as u64)
    } else if len7 == 127 {
        let mut v: u64 = 0;
        let mut k: usize = 0;
        while k < 8
            invariant
                k <= 8,
                ext@.len() == 8,
                v == be_prefix(ext@, k as int),
                v < pow256(k as int),
            decreases 8 - k,
        {
            proof {
                lemma_be_prefix_step(ext@, k as int);
            }
            v = v * 256 + ext[k] as u64;
            k += 1;
        }
        proof {
            lemma_be_prefix_full(ext@);
        }
        v
    } else {
        len7 as u64
    }
}

pub open spec fn pow256(k: int) -> int
    decreases k,
{
    if k <= 0 {
        1
    } else {
        256 * pow256(k - 1)
    }
}

/// The big-endian value of the first `k` bytes.
pub open spec fn be_prefix(b: Seq<u8>, k: int) -> int
    decreases k,
{
    if k <= 0 {
        0
    } else {
        be_prefix(b, k - 1) * 256 + b[k - 1]
    }
}

proof fn lemma_be_prefix_step(b: Seq<u8>, k: int)
    requires
        0 <= k < 8,
        b.len() == 8,
        be_prefix(b, k) < pow256(k),
    ensures
        be_prefix(b, k + 1) == be_prefix(b, k) * 256 + b[k],
        be_prefix(b, k + 1) < pow256(k + 1),
        pow256(k + 1) <= 0x10000000000000000,
{
    reveal_with_fuel(pow256, 9);
    assert(pow256(1) == 256);
    assert(pow256(2) == 0x10000);
    assert(pow256(3) == 0x1000000);
    assert(pow256(4) == 0x100000000);
    assert(pow256(5) == 0x10000000000);
    assert(pow256(6) == 0x1000000000000);
    assert(pow256(7) == 0x100000000000000);
    assert(pow256(8) == 0x10000000000000000);
    let p = be_prefix(b, k);
    let q = pow256(k);
    assert(p * 256 + b[k] < q * 256) by (nonlinear_arith)
        requires
            p < q,
            0 <= b[k] < 256,
    ;
}

proof fn lemma_be_prefix_full(b: Seq<u8>)
    requires
        b.len() == 8,
    ensures
        be_prefix(b, 8) == length_from(127, b),
{
    reveal_with_fuel(be_prefix, 9);
}

/// Refuses a frame whose payload would exceed the message bound.
pub fn check_frame_length(length: u64) -> (r: Result<(), String>)
    ensures
        match r {
            Ok(()) => length <= MAX_JSON_LINE_BYTES,
            Err(e) => length > MAX_JSON_LINE_BYTES && e@ == frame_limit_message(),
        },
{
    if length > MAX_JSON_LINE_BYTES as u64 {
        Err("codex app-server websocket frame exceeds bounded limit (4194304 bytes)".to_owned())
    } else {
        Ok(())
    }
}

/// Masking twice with the same mask gives the payload back.
pub proof fn lemma_mask_involution(payload: Seq<u8>, mask: Seq<u8>)
    requires
        mask.len() == 4,
    ensures
        masked(masked(payload, mask), mask) == payload,
{
    assert forall|i: int| 0 <= i < payload.len() implies #[trigger] masked(masked(payload, mask), mask)[i]
        == payload[i] by {
        let b = payload[i];
        let m = mask[i % 4];
        assert((b ^ m) ^ m == b) by (bit_vector);
    }
    assert(masked(masked(payload, mask), mask) =~= payload);
}

/// A frame this client writes reads back as itself: the header says final,
/// the opcode, masked and the payload length, and unmasking restores the
/// payload.
pub proof fn lemma_frame_roundtrip(opcode: u8, payload: Seq<u8>, mask_seed: u32)
    requires
        payload.len() <= MAX_JSON_LINE_BYTES,
    ensures
        ({
            let bytes = frame_bytes(opcode, payload, mask_seed);
            let b0 = bytes[0];
            let b1 = bytes[1];
            let len7 = b1 & 0x7fu8;
            let at: int = 2 + ext_len(len7) as int;
            let ext = bytes.subrange(2, at);
            &&& b0 & 0x70u8 == 0
            &&& b0 & 0x80u8 != 0
            &&& b0 & 0x0fu8 == opcode & 0x0fu8
            &&& b1 & 0x80u8 != 0
            &&& length_from(len7, ext) == payload.len()
            &&& masked(bytes.subrange(at + 4, bytes.len() as int), bytes.subrange(at, at + 4)) == payload
        }),
{
    let len = payload.len() as u64;
    let bytes = frame_bytes(opcode, payload, mask_seed);
    let head = frame_header(opcode, len);
    let b0 = 0x80u8 | (opcode & 0x0fu8);
    assert(b0 & 0x70u8 == 0 && b0 & 0x80u8 != 0 && b0 & 0x0fu8 == opcode & 0x0fu8) by (bit_vector)
        requires
            b0 == 0x80u8 | (opcode & 0x0fu8),
    ;
    assert(bytes[0] == b0);
    let mask = be_u32(mask_seed);
    if len <= 125 {
        let b1 = (0x80u64 | len) as u8;
        assert(b1 & 0x80u8 != 0 && (b1 & 0x7fu8) as u64 == len) by (bit_vector)
            requires
                len <= 125,
                b1 == (0x80u64 | len) as u8,
        ;
        assert(bytes[1] == b1);
        assert(ext_len(b1 & 0x7fu8) == 0);
        assert(bytes.subrange(2, 6) =~= mask);
        assert(bytes.subrange(6, bytes.len() as int) =~= masked(payload, mask));
    } else if len <= 65535 {
        assert(bytes[1] == 0xfeu8);
        assert(0xfeu8 & 0x80u8 != 0 && 0xfeu8 & 0x7fu8 == 126) by (bit_vector);
        let hi = ((len >> 8u64) & 0xff) as u8;
        let lo = (len & 0xff) as u8;
        assert((hi as u64) * 256 + (lo as u64) == len) by (bit_vector)
            requires
                len <= 65535,
                hi == ((len >> 8u64) & 0xff) as u8,
                lo == (len & 0xff) as u8,
        ;
        assert(bytes.subrange(2, 4) =~= seq![hi, lo]);
        assert(bytes.subrange(4, 8) =~= mask);
        assert(bytes.subrange(8, bytes.len() as int) =~= masked(payload, mask));
    } else {
        assert(bytes[1] == 0xffu8);
        assert(0xffu8 & 0x80u8 != 0 && 0xffu8 & 0x7fu8 == 127) by (bit_vector);
        let e = be_u64(len);
        assert(bytes.subrange(2, 10) =~= e);
        let x = len;
        let (e0, e1, e2, e3, e4, e5, e6, e7) = (e[0], e[1], e[2], e[3], e[4], e[5], e[6], e[7]);
        assert((e0 as u64) * 0x100000000000000 + (e1 as u64) * 0x1000000000000 + (e2 as u64) * 0x10000000000 + (e3
            as u64) * 0x100000000 + (e4 as u64) * 0x1000000 + (e5 as u64) * 0x10000 + (e6 as u64) * 0x100 + (e7 as u64)
            == x) by (bit_vector)
            requires
                e0 == ((x >> 56u64) & 0xff) as u8,
                e1 == ((x >> 48u64) & 0xff) as u8,
                e2 == ((x >> 40u64) & 0xff) as u8,
                e3 == ((x >> 32u64) & 0xff) as u8,
                e4 == ((x >> 24u64) & 0xff) as u8,
                e5 == ((x >> 16u64) & 0xff) as u8,
                e6 == ((x >> 8u64) & 0xff) as u8,
                e7 == (x & 0xff) as u8,
        ;
        assert(bytes.subrange(10, 14) =~= mask);
        assert(bytes.subrange(14, bytes.len() as int) =~= masked(payload, mask));
    }
    lemma_mask_involution(payload, mask);
}

// ── WebSocket messages ──────────────────────────────────────────────────

/// What the reader does with a frame.
pub enum WsEvent {
    /// The server closed the connection.
    Close,
    /// Answer a ping with this payload.
    Pong(Vec<u8>),
    /// Nothing to deliver yet.
    Ignore,
    /// A complete text message.
    Message(Vec<u8>),
    /// The connection is unusable.
    Fail(String),
}

pub enum WsEventView {
    Close,
    Pong(Seq<u8>),
    Ignore,
    Message(Seq<u8>),
    Fail(Seq<char>),
}

impl View for WsEvent {
    type V = WsEventView;

    open spec fn view(&self) -> WsEventView {
        match self {
            WsEvent::Close => WsEventView::Close,
            WsEvent::Pong(p) => WsEventView::Pong(p@),
            WsEvent::Ignore => WsEventView::Ignore,
            WsEvent::Message(m) => WsEventView::Message(m@),
            WsEvent::Fail(e) => WsEventView::Fail(e@),
        }
    }
}

/// One frame of the message stream: control frames, single-frame text
/// messages, and text messages in fragments within the message bound.
pub open spec fn ws_step(frag: Option<Seq<u8>>, fin: bool, opcode: u8, payload: Seq<u8>) -> (Option<Seq<u8>>, WsEventView) {
    if opcode == 0x8 {
        (frag, WsEventView::Close)
    } else if opcode == 0x9 {
        (frag, WsEventView::Pong(payload))
    } else if opcode == 0xa {
        (frag, WsEventView::Ignore)
    } else if opcode == 0x1 {
        if fin {
            (frag, WsEventView::Message(payload))
        } else {
            (Some(payload), WsEventView::Ignore)
        }
    } else if opcode == 0x0 {
        match frag {
            None => (frag, WsEventView::Fail("codex app-server websocket continuation without text frame"@)),
            Some(buf) => if buf.len() + payload.len() > MAX_JSON_LINE_BYTES {
                (frag, WsEventView::Fail("codex app-server websocket message exceeds bounded limit (4194304 bytes)"@))
            } else if fin {
                (None, WsEventView::Message(buf + payload))
            } else {
                (Some(buf + payload), WsEventView::Ignore)
            },
        }
    } else {
        (frag, WsEventView::Fail("unsupported codex app-server websocket opcode "@ + decimal(opcode as nat)))
    }
}

/// Reassembles text messages from frames.
pub struct WsAssembler {
    fragmented: Option<Vec<u8>>,
}

impl View for WsAssembler {
    type V = Option<Seq<u8>>;

    closed spec fn view(&self) -> Option<Seq<u8>> {
        match self.fragmented {
            Some(b) => Some(b@),
            None => None,
        }
    }
}

impl WsAssembler {
    pub fn new() -> (r: Self)
        ensures
            r@ is None,
    {
        WsAssembler { fragmented: None }
    }

    /// Takes in the next frame; see `ws_step`.
    pub fn on_frame(&mut self, fin: bool, opcode: u8, payload: Vec<u8>) -> (r: WsEvent)
        ensures
            ws_step(old(self)@, fin, opcode, payload@) == (final(self)@, r@),
    {
        if opcode == 0x8 {
            WsEvent::Close
        } else if opcode == 0x9 {
            WsEvent::Pong(payload)
        } else if opcode == 0xa {
            WsEvent::Ignore
        } else if opcode == 0x1 {
            if fin {
                WsEvent::Message(payload)
            } else {
                self.fragmented = Some(payload);
                WsEvent::Ignore
            }
        } else if opcode == 0x0 {
            match self.fragmented.take() {
                None => WsEvent::Fail("codex app-server websocket continuation without text frame".to_owned()),
                Some(mut buf) => {
                    if payload.len() > MAX_JSON_LINE_BYTES || buf.len() > MAX_JSON_LINE_BYTES - payload.len() {
                        self.fragmented = Some(buf);
                        return WsEvent::Fail(
                            "codex app-server websocket message exceeds bounded limit (4194304 bytes)".to_owned(),
                        );
                    }
                    let ghost start = buf@;
                    let mut k: usize = 0;
                    while k < payload.len()
                        invariant
                            k <= payload@.len(),
                            buf@ == start + payload@.subrange(0, k as int),
                        decreases payload.len() - k,
                    {
                        buf.push(payload[k]);
                        k += 1;
                    }
                    assert(payload@.subrange(0, payload@.len() as int) =~= payload@);
                    if fin {
                        WsEvent::Message(buf)
                    } else {
                        self.fragmented = Some(buf);
                        WsEvent::Ignore
                    }
                },
            }
        } else {
            let mut m = "unsupported codex app-server websocket opcode ".to_owned();
            let d = string_from_chars(crate::json::decimal_chars(opcode as u64).as_slice());
            push_all(&mut m, d.as_str());
            WsEvent::Fail(m)
        }
    }
}

/// The upgrade request sent to the app-server's listener.
pub const HANDSHAKE_REQUEST: &'static str = "GET / HTTP/1.1\r\nHost: 127.0.0.1\r\nUpgrade: websocket\r\nConnection: Upgrade\r\nSec-WebSocket-Key: dGhlIHNhbXBsZSBub25jZQ==\r\nSec-WebSocket-Version: 13\r\n\r\n";

/// Bound on the handshake answer, in bytes.
pub const WEBSOCKET_HANDSHAKE_MAX_BYTES: usize = 8192;

/// The bytes of the upgrade request.
pub fn handshake_request() -> (r: Vec<u8>)
    ensures
        r@ == encode_utf8(HANDSHAKE_REQUEST@),
{
    crate::text::bytes_of(HANDSHAKE_REQUEST)
}

pub open spec fn handshake_ok(response: Seq<char>) -> bool {
    crate::text::starts_with(response, "HTTP/1.1 101"@) || crate::text::starts_with(response, "HTTP/1.0 101"@)
}

/// Accepts a switching-protocols answer to the upgrade request.
pub fn check_handshake(response: &str) -> (r: Result<(), String>)
    ensures
        match r {
            Ok(()) => handshake_ok(response@),
            Err(e) => !handshake_ok(response@) && e@ == "codex app-server websocket handshake failed: "@ + response@,
        },
{
    let cs = chars_of(response);
    if crate::text::starts_with_exec(cs.as_slice(), chars_of("HTTP/1.1 101").as_slice())
        || crate::text::starts_with_exec(cs.as_slice(), chars_of("HTTP/1.0 101").as_slice()) {
        Ok(())
    } else {
        let mut m = "codex app-server websocket handshake failed: ".to_owned();
        push_all(&mut m, response);
        Err(m)
    }
}

// ── Bounded stderr ──────────────────────────────────────────────────────

/// Bound on the stderr kept from a child, in bytes.
pub const MAX_STDERR_BYTES: usize = 8192;

/// The last `n` bytes of `b` (all of it when shorter).
pub open spec fn last_bytes(b: Seq<u8>, n: nat) -> Seq<u8> {
    if b.len() > n {
        b.subrange(b.len() - n, b.len() as int)
    } else {
        b
    }
}

/// Appends a chunk read from stderr, keeping only the trailing bytes so a
/// faulty child cannot consume unbounded memory.
pub fn keep_stderr_tail(tail: &mut Vec<u8>, chunk: &[u8])
    ensures
        final(tail)@ == last_bytes(old(tail)@ + chunk@, MAX_STDERR_BYTES as nat),
{
    let ghost all = old(tail)@ + chunk@;
    let mut k: usize = 0;
    let ghost start = tail@;
    while k < chunk.len()
        invariant
            k <= chunk@.len(),
            tail@ == start + chunk@.subrange(0, k as int),
        decreases chunk.len() - k,
    {
        tail.push(chunk[k]);
        k += 1;
    }
    assert(chunk@.subrange(0, chunk@.len() as int) =~= chunk@);
    assert(tail@ == all);
    if tail.len() > MAX_STDERR_BYTES {
        let excess = tail.len() - MAX_STDERR_BYTES;
        let mut kept: Vec<u8> = Vec::new();
        let mut j: usize = excess;
        while j < tail.len()
            invariant
                excess <= j <= tail@.len(),
                tail@ == all,
                kept@ == all.subrange(excess as int, j as int),
            decreases tail.len() - j,
        {
            kept.push(tail[j]);
            j += 1;
        }
        *tail = kept;
    }
}

/// `String::from_utf8_lossy`: valid UTF-8 decodes to its characters;
/// invalid sequences become U+FFFD replacement characters, which is not
/// modelled here.
#[verifier::external_body]
pub(crate) fn lossy_text(bytes: &[u8]) -> (r: String)
    ensures
        vstd::utf8::valid_utf8(bytes@) ==> r@ == vstd::utf8::decode_utf8(bytes@),
{
    String::from_utf8_lossy(bytes).into_owned()
}

/// The stderr tail as text.
pub fn stderr_text(tail: &Vec<u8>) -> (r: String)
    ensures
        vstd::utf8::valid_utf8(tail@) ==> r@ == vstd::utf8::decode_utf8(tail@),
{
    lossy_text(tail.as_slice())
}

} // verus!
