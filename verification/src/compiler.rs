//! Join strategies of compiled graphs, and the reading of each node's
//! configuration when a graph is compiled.
//!
//! A join node combines the artifacts of its branches. The strategy joins
//! run a five-stage pipeline (validate, normalize, expose contradictions,
//! adjudicate, certify) and every one emits a certification envelope; a
//! `fail` certification surfaces as an execution error, quarantine and
//! abstain complete visibly.
use vstd::prelude::*;
use crate::json::{clone_json, decimal, decimal_chars, json_eq, path_get, plain_text, Json, JsonValue};
use crate::text::{chars_of, joined, push_all, str_eq, string_from_chars};

verus! {

/// The view of branch artifacts: (branch key, value).
pub open spec fn arts_view(values: Seq<(String, JsonValue)>) -> Seq<(Seq<char>, Json)> {
    values.map_values(|a: (String, JsonValue)| (a.0@, a.1@))
}

pub open spec fn json_views(v: Seq<JsonValue>) -> Seq<Json> {
    v.map_values(|x: JsonValue| x@)
}

pub open spec fn str_views(v: Seq<String>) -> Seq<Seq<char>> {
    v.map_values(|x: String| x@)
}

pub open spec fn result_view(r: Result<JsonValue, String>) -> Result<Json, Seq<char>> {
    match r {
        Ok(v) => Ok(v@),
        Err(e) => Err(e@),
    }
}

/// The certification envelope every strategy emits, keys in sorted order.
pub open spec fn envelope(
    join: Seq<char>,
    certification: Seq<char>,
    value: Json,
    contradictions: Seq<Json>,
    minority: Seq<Json>,
    notes: Seq<Seq<char>>,
) -> Json {
    Json::Object(
        seq![
            ("certification"@, Json::Str(certification)),
            ("contradictions"@, Json::Array(contradictions)),
            ("join"@, Json::Str(join)),
            ("minority_report"@, Json::Array(minority)),
            ("notes"@, Json::Array(notes.map_values(|n: Seq<char>| Json::Str(n)))),
            ("value"@, value),
        ],
    )
}

fn str_items(v: &Vec<String>) -> (r: Vec<JsonValue>)
    ensures
        json_views(r@) == str_views(v@).map_values(|n: Seq<char>| Json::Str(n)),
{
    let mut r: Vec<JsonValue> = Vec::new();
    let mut i: usize = 0;
    while i < v.len()
        invariant
            i <= v@.len(),
            r@.len() == i,
            forall|k: int| 0 <= k < i ==> (#[trigger] r@[k])@ == Json::Str(v@[k]@),
        decreases v.len() - i,
    {
        let item = JsonValue::Str(v[i].clone());
        assert(item@ == Json::Str(v@[i as int]@));
        r.push(item);
        i += 1;
    }
    assert(json_views(r@) =~= str_views(v@).map_values(|n: Seq<char>| Json::Str(n)));
    r
}

fn array_of(items: Vec<JsonValue>) -> (r: JsonValue)
    ensures
        r@ == Json::Array(json_views(items@)),
{
    let r = JsonValue::Array(items);
    assert(r@->Array_0 =~= json_views(items@));
    r
}

/// Builds the certification envelope.
pub fn join_envelope(
    join: &str,
    certification: &str,
    value: JsonValue,
    contradictions: Vec<JsonValue>,
    minority_report: Vec<JsonValue>,
    notes: Vec<String>,
) -> (r: JsonValue)
    ensures
        r@ == envelope(
            join@,
            certification@,
            value@,
            json_views(contradictions@),
            json_views(minority_report@),
            str_views(notes@),
        ),
{
    let c = array_of(contradictions);
    let m = array_of(minority_report);
    let n = array_of(str_items(&notes));
    let r = JsonValue::Object(
        vec![
            ("certification".to_owned(), JsonValue::string(certification)),
            ("contradictions".to_owned(), c),
            ("join".to_owned(), JsonValue::string(join)),
            ("minority_report".to_owned(), m),
            ("notes".to_owned(), n),
            ("value".to_owned(), value),
        ],
    );
    assert(r@->Object_0 =~= envelope(
        join@,
        certification@,
        value@,
        json_views(contradictions@),
        json_views(minority_report@),
        str_views(notes@),
    )->Object_0);
    r
}

// ── dedupe_by_identity ──────────────────────────────────────────────────

/// The identity of an artifact: the string at the identity path, else its
/// branch key.
pub open spec fn identity_of(a: (Seq<char>, Json), path: Option<Seq<char>>) -> Seq<char> {
    match path {
        Some(p) => match path_get(a.1, p) {
            Some(Json::Str(s)) => s,
            _ => a.0,
        },
        None => a.0,
    }
}

pub open spec fn seen_before(arts: Seq<(Seq<char>, Json)>, i: int, path: Option<Seq<char>>) -> bool {
    exists|j: int| 0 <= j < i && identity_of(#[trigger] arts[j], path) == identity_of(arts[i], path)
}

/// The artifacts whose identity was not seen earlier, in order.
pub open spec fn dedupe_kept(arts: Seq<(Seq<char>, Json)>, path: Option<Seq<char>>) -> Seq<Json>
    decreases arts.len(),
{
    if arts.len() == 0 {
        Seq::empty()
    } else {
        dedupe_kept(arts.drop_last(), path) + if seen_before(arts, arts.len() - 1, path) {
            Seq::empty()
        } else {
            seq![arts.last().1]
        }
    }
}

/// Index of the first artifact without a value at `path` (`len` when none).
pub open spec fn first_missing(arts: Seq<(Seq<char>, Json)>, path: Seq<char>) -> int
    decreases arts.len(),
{
    if arts.len() == 0 {
        0
    } else if path_get(arts[0].1, path) is None {
        0
    } else {
        1 + first_missing(arts.drop_first(), path)
    }
}

pub open spec fn dedupe_spec(arts: Seq<(Seq<char>, Json)>, path: Option<Seq<char>>) -> Result<Json, Seq<char>> {
    if arts.len() == 0 {
        Err("dedupe_by_identity requires at least one branch artifact"@)
    } else if path is Some && first_missing(arts, path->0) < arts.len() {
        Err(
            "dedupe_by_identity: artifact '"@ + arts[first_missing(arts, path->0)].0
                + "' is missing identity path '"@ + path->0 + "'"@,
        )
    } else {
        Ok(
            envelope(
                "dedupe_by_identity"@,
                "pass"@,
                Json::Array(dedupe_kept(arts, path)),
                Seq::empty(),
                Seq::empty(),
                Seq::empty(),
            ),
        )
    }
}

fn first_missing_exec(values: &Vec<(String, JsonValue)>, path: &str) -> (k: usize)
    ensures
        k == first_missing(arts_view(values@), path@),
        k <= values.len(),
{
    let ghost arts = arts_view(values@);
    let mut i: usize = 0;
    assert(arts.subrange(0, arts.len() as int) =~= arts);
    while i < values.len()
        invariant
            i <= values@.len(),
            arts == arts_view(values@),
            first_missing(arts, path@) == i + first_missing(arts.subrange(i as int, arts.len() as int), path@),
        decreases values.len() - i,
    {
        let ghost rest = arts.subrange(i as int, arts.len() as int);
        assert(rest[0] == arts[i as int]);
        if values[i].1.path_get(path).is_none() {
            return i;
        }
        assert(rest.drop_first() =~= arts.subrange(i + 1, arts.len() as int));
        i += 1;
    }
    i
}

fn identity_exec(a: &(String, JsonValue), path: Option<&str>) -> (r: String)
    ensures
        r@ == identity_of((a.0@, a.1@), match path {
            Some(p) => Some(p@),
            None => None,
        }),
{
    match path {
        Some(p) => match a.1.path_get(p) {
            Some(JsonValue::Str(s)) => s.clone(),
            _ => a.0.clone(),
        },
        None => a.0.clone(),
    }
}

/// Keeps the first artifact of each identity.
pub fn strategy_join_dedupe(values: Vec<(String, JsonValue)>, identity_path: Option<&str>) -> (r: Result<
    JsonValue,
    String,
>)
    ensures
        result_view(r) == dedupe_spec(arts_view(values@), match identity_path {
            Some(p) => Some(p@),
            None => None,
        }),
{
    let ghost arts = arts_view(values@);
    let ghost path = match identity_path {
        Some(p) => Some(p@),
        None => None,
    };
    if values.len() == 0 {
        return Err("dedupe_by_identity requires at least one branch artifact".to_owned());
    }
    if let Some(p) = identity_path {
        let k = first_missing_exec(&values, p);
        if k < values.len() {
            let mut e = "dedupe_by_identity: artifact '".to_owned();
            push_all(&mut e, values[k].0.as_str());
            push_all(&mut e, "' is missing identity path '");
            push_all(&mut e, p);
            push_all(&mut e, "'");
            return Err(e);
        }
    }
    let mut seen: Vec<String> = Vec::new();
    let mut out: Vec<JsonValue> = Vec::new();
    let mut i: usize = 0;
    while i < values.len()
        invariant
            i <= values@.len(),
            arts == arts_view(values@),
            path == (match identity_path {
                Some(p) => Some(p@),
                None => None::<Seq<char>>,
            }),
            seen@.len() == i,
            forall|j: int| 0 <= j < i ==> (#[trigger] seen@[j])@ == identity_of(arts[j], path),
            json_views(out@) == dedupe_kept(arts.subrange(0, i as int), path),
        decreases values.len() - i,
    {
        let id = identity_exec(&values[i], identity_path);
        let ghost pre = arts.subrange(0, i + 1);
        assert(pre.drop_last() =~= arts.subrange(0, i as int));
        let mut found = false;
        let mut j: usize = 0;
        while j < seen.len()
            invariant
                j <= seen@.len(),
                found == exists|t: int| 0 <= t < j && (#[trigger] seen@[t])@ == id@,
            decreases seen.len() - j,
        {
            if str_eq(seen[j].as_str(), id.as_str()) {
                found = true;
            }
            j += 1;
        }
        proof {
            assert(id@ == identity_of(pre[i as int], path));
            if found {
                let t = choose|t: int| 0 <= t < seen@.len() && (#[trigger] seen@[t])@ == id@;
                assert(pre[t] == arts[t]);
                assert(seen_before(pre, i as int, path));
            } else {
                assert forall|t: int| 0 <= t < i implies identity_of(#[trigger] pre[t], path) != identity_of(pre[i as int], path) by {
                    assert(pre[t] == arts[t]);
                    assert(seen@[t]@ == identity_of(arts[t], path));
                }
            }
        }
        if !found {
            out.push(clone_json(&values[i].1));
        }
        assert(json_views(out@) =~= dedupe_kept(pre, path));
        seen.push(id);
        i += 1;
    }
    assert(arts.subrange(0, arts.len() as int) =~= arts);
    let value = array_of(out);
    let none: Vec<JsonValue> = Vec::new();
    let no_notes: Vec<String> = Vec::new();
    assert(json_views(none@) =~= Seq::<Json>::empty());
    assert(str_views(no_notes@) =~= Seq::<Seq<char>>::empty());
    Ok(join_envelope("dedupe_by_identity", "pass", value, Vec::new(), Vec::new(), no_notes))
}

// ── contradiction_matrix ────────────────────────────────────────────────

/// A contradiction between two artifacts: both carry a scope, a time and a
/// claim, scope and time agree, and the claims (as plain text) differ.
pub open spec fn pair_contradiction(
    l: (Seq<char>, Json),
    r: (Seq<char>, Json),
    scope_path: Seq<char>,
    claim_path: Seq<char>,
    time_path: Seq<char>,
) -> Option<Json> {
    match (
        path_get(l.1, scope_path),
        path_get(r.1, scope_path),
        path_get(l.1, time_path),
        path_get(r.1, time_path),
        path_get(l.1, claim_path),
        path_get(r.1, claim_path),
    ) {
        (Some(ls), Some(rs), Some(lt), Some(rt), Some(lc), Some(rc)) => if ls == rs && lt == rt && plain_text(lc)
            != plain_text(rc) {
            Some(
                Json::Object(
                    seq![
                        ("left"@, Json::Str(l.0)),
                        ("left_claim"@, Json::Str(plain_text(lc))),
                        ("right"@, Json::Str(r.0)),
                        ("right_claim"@, Json::Str(plain_text(rc))),
                        ("scope"@, ls),
                        ("time"@, lt),
                    ],
                ),
            )
        } else {
            None
        },
        _ => None,
    }
}

pub open spec fn opt_seq(o: Option<Json>) -> Seq<Json> {
    match o {
        Some(x) => seq![x],
        None => Seq::empty(),
    }
}

/// Contradictions of artifact `l` with the artifacts `l + 1 .. r`.
pub open spec fn row_upto(
    arts: Seq<(Seq<char>, Json)>,
    l: int,
    r: int,
    scope_path: Seq<char>,
    claim_path: Seq<char>,
    time_path: Seq<char>,
) -> Seq<Json>
    decreases r - l,
{
    if r <= l + 1 {
        Seq::empty()
    } else {
        row_upto(arts, l, r - 1, scope_path, claim_path, time_path) + opt_seq(
            pair_contradiction(arts[l], arts[r - 1], scope_path, claim_path, time_path),
        )
    }
}

/// Contradictions whose left artifact is among the first `l`, ordered by
/// left then right artifact.
pub open spec fn rows_before(
    arts: Seq<(Seq<char>, Json)>,
    l: int,
    scope_path: Seq<char>,
    claim_path: Seq<char>,
    time_path: Seq<char>,
) -> Seq<Json>
    decreases l,
{
    if l <= 0 {
        Seq::empty()
    } else {
        rows_before(arts, l - 1, scope_path, claim_path, time_path) + row_upto(
            arts,
            l - 1,
            arts.len() as int,
            scope_path,
            claim_path,
            time_path,
        )
    }
}

/// Every contradicting pair, left before right.
pub open spec fn contradictions_of(
    arts: Seq<(Seq<char>, Json)>,
    scope_path: Seq<char>,
    claim_path: Seq<char>,
    time_path: Seq<char>,
) -> Seq<Json> {
    rows_before(arts, arts.len() as int, scope_path, claim_path, time_path)
}

pub open spec fn artifact_values(arts: Seq<(Seq<char>, Json)>) -> Seq<Json> {
    arts.map_values(|a: (Seq<char>, Json)| a.1)
}

pub open spec fn matrix_spec(
    arts: Seq<(Seq<char>, Json)>,
    scope_path: Seq<char>,
    claim_path: Seq<char>,
    time_path: Seq<char>,
    strict: bool,
) -> Result<Json, Seq<char>> {
    if arts.len() == 0 {
        Err("contradiction_matrix requires at least one branch artifact"@)
    } else {
        let cs = contradictions_of(arts, scope_path, claim_path, time_path);
        let exposed: Seq<Seq<char>> = if cs.len() > 0 {
            seq![decimal(cs.len()) + " contradiction pair(s) exposed"@]
        } else {
            Seq::empty()
        };
        let quarantine = strict && cs.len() > 0;
        Ok(
            envelope(
                "contradiction_matrix"@,
                if quarantine {
                    "quarantine"@
                } else {
                    "pass"@
                },
                Json::Array(artifact_values(arts)),
                cs,
                Seq::empty(),
                if quarantine {
                    exposed.push("strict mode: quarantined on contradiction"@)
                } else {
                    exposed
                },
            ),
        )
    }
}

fn pair_exec(
    l: &(String, JsonValue),
    r: &(String, JsonValue),
    scope_path: &str,
    claim_path: &str,
    time_path: &str,
) -> (c: Option<JsonValue>)
    ensures
        match c {
            Some(v) => pair_contradiction((l.0@, l.1@), (r.0@, r.1@), scope_path@, claim_path@, time_path@) == Some(v@),
            None => pair_contradiction((l.0@, l.1@), (r.0@, r.1@), scope_path@, claim_path@, time_path@) is None,
        },
{
    let (ls, rs) = match (l.1.path_get(scope_path), r.1.path_get(scope_path)) {
        (Some(a), Some(b)) => (a, b),
        _ => return None,
    };
    let (lt, rt) = match (l.1.path_get(time_path), r.1.path_get(time_path)) {
        (Some(a), Some(b)) => (a, b),
        _ => return None,
    };
    if !json_eq(ls, rs) || !json_eq(lt, rt) {
        return None;
    }
    let (lc, rc) = match (l.1.path_get(claim_path), r.1.path_get(claim_path)) {
        (Some(a), Some(b)) => (a.plain_text(), b.plain_text()),
        _ => return None,
    };
    if str_eq(lc.as_str(), rc.as_str()) {
        return None;
    }
    let left = JsonValue::Str(l.0.clone());
    let left_claim = JsonValue::Str(lc);
    let right = JsonValue::Str(r.0.clone());
    let right_claim = JsonValue::Str(rc);
    let scope = clone_json(ls);
    let time = clone_json(lt);
    assert(left@ == Json::Str(l.0@));
    assert(right@ == Json::Str(r.0@));
    assert(left_claim@ == Json::Str(lc@));
    assert(right_claim@ == Json::Str(rc@));
    let v = JsonValue::Object(
        vec![
            ("left".to_owned(), left),
            ("left_claim".to_owned(), left_claim),
            ("right".to_owned(), right),
            ("right_claim".to_owned(), right_claim),
            ("scope".to_owned(), scope),
            ("time".to_owned(), time),
        ],
    );
    assert(v@->Object_0 =~= pair_contradiction(
        (l.0@, l.1@),
        (r.0@, r.1@),
        scope_path@,
        claim_path@,
        time_path@,
    )->0->Object_0);
    Some(v)
}

fn values_of(values: &Vec<(String, JsonValue)>) -> (r: Vec<JsonValue>)
    ensures
        json_views(r@) == artifact_values(arts_view(values@)),
{
    let mut r: Vec<JsonValue> = Vec::new();
    let mut i: usize = 0;
    while i < values.len()
        invariant
            i <= values@.len(),
            r@.len() == i,
            forall|k: int| 0 <= k < i ==> (#[trigger] r@[k])@ == values@[k].1@,
        decreases values.len() - i,
    {
        r.push(clone_json(&values[i].1));
        i += 1;
    }
    assert(json_views(r@) =~= artifact_values(arts_view(values@)));
    r
}

/// Exposes every pair of artifacts that make differing claims about the same
/// scope at the same time; in strict mode, any such pair quarantines.
pub fn strategy_join_contradiction_matrix(
    values: Vec<(String, JsonValue)>,
    scope_path: &str,
    claim_path: &str,
    time_path: &str,
    strict: bool,
) -> (r: Result<JsonValue, String>)
    ensures
        result_view(r) == matrix_spec(arts_view(values@), scope_path@, claim_path@, time_path@, strict),
{
    let ghost arts = arts_view(values@);
    if values.len() == 0 {
        return Err("contradiction_matrix requires at least one branch artifact".to_owned());
    }
    let mut contradictions: Vec<JsonValue> = Vec::new();
    let mut left: usize = 0;
    while left < values.len()
        invariant
            left <= values@.len(),
            arts == arts_view(values@),
            json_views(contradictions@) == rows_before(arts, left as int, scope_path@, claim_path@, time_path@),
        decreases values.len() - left,
    {
        let mut right: usize = left + 1;
        while right < values.len()
            invariant
                left < values@.len(),
                left + 1 <= right <= values@.len(),
                arts == arts_view(values@),
                json_views(contradictions@) == rows_before(arts, left as int, scope_path@, claim_path@, time_path@)
                    + row_upto(arts, left as int, right as int, scope_path@, claim_path@, time_path@),
            decreases values.len() - right,
        {
            let c = pair_exec(&values[left], &values[right], scope_path, claim_path, time_path);
            let ghost before = json_views(contradictions@);
            assert(arts[left as int] == (values@[left as int].0@, values@[left as int].1@));
            assert(arts[right as int] == (values@[right as int].0@, values@[right as int].1@));
            let ghost step = opt_seq(
                pair_contradiction(arts[left as int], arts[right as int], scope_path@, claim_path@, time_path@),
            );
            assert(row_upto(arts, left as int, right + 1, scope_path@, claim_path@, time_path@) == row_upto(
                arts,
                left as int,
                right as int,
                scope_path@,
                claim_path@,
                time_path@,
            ) + step);
            match c {
                Some(v) => {
                    contradictions.push(v);
                    assert(json_views(contradictions@) =~= before + step);
                },
                None => {
                    assert(step =~= Seq::<Json>::empty());
                    assert(json_views(contradictions@) =~= before + step);
                },
            }
            assert(json_views(contradictions@) =~= rows_before(arts, left as int, scope_path@, claim_path@, time_path@)
                + row_upto(arts, left as int, right + 1, scope_path@, claim_path@, time_path@));
            right += 1;
        }
        assert(json_views(contradictions@) =~= rows_before(arts, left + 1, scope_path@, claim_path@, time_path@));
        left += 1;
    }
    let n = contradictions.len();
    let ghost cs = json_views(contradictions@);
    let mut notes: Vec<String> = Vec::new();
    if n > 0 {
        let mut note = string_from_chars(decimal_chars(n as u64).as_slice());
        push_all(&mut note, " contradiction pair(s) exposed");
        notes.push(note);
    }
    let quarantine = strict && n > 0;
    if quarantine {
        notes.push("strict mode: quarantined on contradiction".to_owned());
    }
    let certification = if quarantine {
        "quarantine"
    } else {
        "pass"
    };
    let value = array_of(values_of(&values));
    let no_minority: Vec<JsonValue> = Vec::new();
    assert(json_views(no_minority@) =~= Seq::<Json>::empty());
    proof {
        let exposed: Seq<Seq<char>> = if cs.len() > 0 {
            seq![decimal(cs.len()) + " contradiction pair(s) exposed"@]
        } else {
            Seq::empty()
        };
        let expected = if quarantine {
            exposed.push("strict mode: quarantined on contradiction"@)
        } else {
            exposed
        };
        assert(str_views(notes@) =~= expected);
    }
    Ok(join_envelope("contradiction_matrix", certification, value, contradictions, no_minority, notes))
}

// ── minority_report ─────────────────────────────────────────────────────

/// An artifact dissents when the boolean at the dissent path is true.
pub open spec fn dissents(v: Json, dissent_path: Seq<char>) -> bool {
    match path_get(v, dissent_path) {
        Some(Json::Bool(b)) => b,
        _ => false,
    }
}

/// The artifact values that do (`side`) or do not (`!side`) dissent, in order.
pub open spec fn dissent_side(arts: Seq<(Seq<char>, Json)>, dissent_path: Seq<char>, side: bool) -> Seq<Json>
    decreases arts.len(),
{
    if arts.len() == 0 {
        Seq::empty()
    } else {
        dissent_side(arts.drop_last(), dissent_path, side) + if dissents(arts.last().1, dissent_path) == side {
            seq![arts.last().1]
        } else {
            Seq::empty()
        }
    }
}

pub open spec fn minority_spec(arts: Seq<(Seq<char>, Json)>, dissent_path: Seq<char>) -> Result<Json, Seq<char>> {
    if arts.len() == 0 {
        Err("minority_report requires at least one branch artifact"@)
    } else {
        let minority = dissent_side(arts, dissent_path, true);
        Ok(
            envelope(
                "minority_report"@,
                "pass"@,
                Json::Array(dissent_side(arts, dissent_path, false)),
                Seq::empty(),
                minority,
                if minority.len() > 0 {
                    seq![decimal(minority.len()) + " dissenting artifact(s) preserved in minority report"@]
                } else {
                    Seq::empty()
                },
            ),
        )
    }
}

/// Keeps dissenting artifacts apart from the majority instead of dropping
/// them.
pub fn strategy_join_minority_report(values: Vec<(String, JsonValue)>, dissent_path: &str) -> (r: Result<
    JsonValue,
    String,
>)
    ensures
        result_view(r) == minority_spec(arts_view(values@), dissent_path@),
{
    let ghost arts = arts_view(values@);
    if values.len() == 0 {
        return Err("minority_report requires at least one branch artifact".to_owned());
    }
    let mut majority: Vec<JsonValue> = Vec::new();
    let mut minority: Vec<JsonValue> = Vec::new();
    let mut i: usize = 0;
    while i < values.len()
        invariant
            i <= values@.len(),
            arts == arts_view(values@),
            json_views(majority@) == dissent_side(arts.subrange(0, i as int), dissent_path@, false),
            json_views(minority@) == dissent_side(arts.subrange(0, i as int), dissent_path@, true),
        decreases values.len() - i,
    {
        let ghost pre = arts.subrange(0, i + 1);
        assert(pre.drop_last() =~= arts.subrange(0, i as int));
        assert(pre.last() == arts[i as int]);
        let dissent = match values[i].1.path_get(dissent_path) {
            Some(JsonValue::Bool(b)) => *b,
            _ => false,
        };
        assert(dissent == dissents(arts[i as int].1, dissent_path@));
        if dissent {
            minority.push(clone_json(&values[i].1));
        } else {
            majority.push(clone_json(&values[i].1));
        }
        assert(json_views(majority@) =~= dissent_side(pre, dissent_path@, false));
        assert(json_views(minority@) =~= dissent_side(pre, dissent_path@, true));
        i += 1;
    }
    assert(arts.subrange(0, arts.len() as int) =~= arts);
    let mut notes: Vec<String> = Vec::new();
    if minority.len() > 0 {
        let mut note = string_from_chars(decimal_chars(minority.len() as u64).as_slice());
        push_all(&mut note, " dissenting artifact(s) preserved in minority report");
        notes.push(note);
    }
    let ghost m = json_views(minority@);
    assert(str_views(notes@) =~= (if m.len() > 0 {
        seq![decimal(m.len()) + " dissenting artifact(s) preserved in minority report"@]
    } else {
        Seq::<Seq<char>>::empty()
    }));
    let none: Vec<JsonValue> = Vec::new();
    assert(json_views(none@) =~= Seq::<Json>::empty());
    let value = array_of(majority);
    Ok(join_envelope("minority_report", "pass", value, none, minority, notes))
}

// ── proof_carrying_join ─────────────────────────────────────────────────

pub open spec fn evidence_message() -> Seq<char> {
    "evidence entry must carry non-empty witness_id and digest"@
}

pub open spec fn checks_message() -> Seq<char> {
    "every check must carry status \"passed\" (executed check receipts only)"@
}

/// An evidence entry names a non-empty witness and a non-empty digest.
pub open spec fn evidence_entry_ok(e: Json) -> bool {
    match (e.get("witness_id"@), e.get("digest"@)) {
        (Some(Json::Str(w)), Some(Json::Str(d))) => w.len() > 0 && d.len() > 0,
        _ => false,
    }
}

/// `evidence`, when it is an array, holds only well-formed entries.
pub open spec fn evidence_error(v: Json) -> Option<Seq<char>> {
    match v.get("evidence"@) {
        Some(Json::Array(entries)) => if forall|i: int| 0 <= i < entries.len() ==> evidence_entry_ok(#[trigger] entries[i]) {
            None
        } else {
            Some(evidence_message())
        },
        _ => None,
    }
}

pub open spec fn check_passed(c: Json) -> bool {
    c.get("status"@) == Some(Json::Str("passed"@))
}

/// `checks`, when it is an array, is non-empty and every check passed.
pub open spec fn checks_error(v: Json) -> Option<Seq<char>> {
    match v.get("checks"@) {
        Some(Json::Array(entries)) => if entries.len() == 0 {
            Some("checks must not be empty"@)
        } else if forall|i: int| 0 <= i < entries.len() ==> check_passed(#[trigger] entries[i]) {
            None
        } else {
            Some(checks_message())
        },
        _ => None,
    }
}

/// One reason per missing required field, in the order of the fields.
pub open spec fn missing_reasons(v: Json, fields: Seq<Seq<char>>) -> Seq<Seq<char>>
    decreases fields.len(),
{
    if fields.len() == 0 {
        Seq::empty()
    } else {
        missing_reasons(v, fields.drop_last()) + if path_get(v, fields.last()) is None {
            seq!["missing required field '"@ + fields.last() + "'"@]
        } else {
            Seq::empty()
        }
    }
}

pub open spec fn opt_reason(o: Option<Seq<char>>) -> Seq<Seq<char>> {
    match o {
        Some(m) => seq![m],
        None => Seq::empty(),
    }
}

/// Everything wrong with an artifact: missing fields, then bad evidence,
/// then bad checks.
pub open spec fn reasons_of(v: Json, fields: Seq<Seq<char>>) -> Seq<Seq<char>> {
    missing_reasons(v, fields) + opt_reason(evidence_error(v)) + opt_reason(checks_error(v))
}

pub open spec fn carrying_valid(arts: Seq<(Seq<char>, Json)>, fields: Seq<Seq<char>>) -> Seq<Json>
    decreases arts.len(),
{
    if arts.len() == 0 {
        Seq::empty()
    } else {
        carrying_valid(arts.drop_last(), fields) + if reasons_of(arts.last().1, fields).len() == 0 {
            seq![arts.last().1]
        } else {
            Seq::empty()
        }
    }
}

pub open spec fn carrying_notes(arts: Seq<(Seq<char>, Json)>, fields: Seq<Seq<char>>) -> Seq<Seq<char>>
    decreases arts.len(),
{
    if arts.len() == 0 {
        Seq::empty()
    } else {
        let reasons = reasons_of(arts.last().1, fields);
        carrying_notes(arts.drop_last(), fields) + if reasons.len() == 0 {
            Seq::empty()
        } else {
            seq!["artifact '"@ + arts.last().0 + "' quarantined: "@ + joined(reasons, "; "@)]
        }
    }
}

pub open spec fn carrying_spec(arts: Seq<(Seq<char>, Json)>, fields: Seq<Seq<char>>) -> Result<Json, Seq<char>> {
    if arts.len() == 0 {
        Err("proof_carrying_join requires at least one branch artifact"@)
    } else {
        let valid = carrying_valid(arts, fields);
        Ok(
            envelope(
                "proof_carrying_join"@,
                if valid.len() == arts.len() {
                    "pass"@
                } else {
                    "quarantine"@
                },
                Json::Array(valid),
                Seq::empty(),
                Seq::empty(),
                carrying_notes(arts, fields),
            ),
        )
    }
}

/// Checks the evidence entries of an artifact.
pub fn join_evidence_valid(value: &JsonValue) -> (r: Result<(), String>)
    ensures
        match r {
            Ok(()) => evidence_error(value@) is None,
            Err(e) => evidence_error(value@) == Some(e@),
        },
{
    let entries = match value.get("evidence") {
        Some(v) => match v.as_array() {
            Some(a) => a,
            None => return Ok(()),
        },
        None => return Ok(()),
    };
    let ghost es = value@.get("evidence"@)->0->Array_0;
    assert(es == json_views(entries@));
    let mut i: usize = 0;
    while i < entries.len()
        invariant
            i <= entries@.len(),
            es == json_views(entries@),
            value@.get("evidence"@) == Some(Json::Array(es)),
            forall|j: int| 0 <= j < i ==> evidence_entry_ok(#[trigger] es[j]),
        decreases entries.len() - i,
    {
        let entry = &entries[i];
        let ok = match (entry.get("witness_id"), entry.get("digest")) {
            (Some(JsonValue::Str(w)), Some(JsonValue::Str(d))) => chars_of(w.as_str()).len() > 0 && chars_of(d.as_str()).len() > 0,
            _ => false,
        };
        assert(es[i as int] == entry@);
        assert(ok == evidence_entry_ok(es[i as int]));
        if !ok {
            assert(!(forall|j: int| 0 <= j < es.len() ==> evidence_entry_ok(#[trigger] es[j])));
            assert(value@.get("evidence"@) == Some(Json::Array(es)));
            assert(value@.get("evidence"@) matches Some(Json::Array(entries)) && entries == es);
            assert(evidence_error(value@) == Some(evidence_message()));
            return Err("evidence entry must carry non-empty witness_id and digest".to_owned());
        }
        i += 1;
    }
    Ok(())
}

/// Checks the executed-check receipts of an artifact.
pub fn join_checks_valid(value: &JsonValue) -> (r: Result<(), String>)
    ensures
        match r {
            Ok(()) => checks_error(value@) is None,
            Err(e) => checks_error(value@) == Some(e@),
        },
{
    let entries = match value.get("checks") {
        Some(v) => match v.as_array() {
            Some(a) => a,
            None => return Ok(()),
        },
        None => return Ok(()),
    };
    let ghost es = value@.get("checks"@)->0->Array_0;
    assert(es == json_views(entries@));
    if entries.len() == 0 {
        return Err("checks must not be empty".to_owned());
    }
    let mut i: usize = 0;
    while i < entries.len()
        invariant
            i <= entries@.len(),
            entries@.len() > 0,
            es == json_views(entries@),
            value@.get("checks"@) == Some(Json::Array(es)),
            forall|j: int| 0 <= j < i ==> check_passed(#[trigger] es[j]),
        decreases entries.len() - i,
    {
        let entry = &entries[i];
        let ok = match entry.get("status") {
            Some(JsonValue::Str(s)) => str_eq(s.as_str(), "passed"),
            _ => false,
        };
        assert(es[i as int] == entry@);
        assert(ok == check_passed(es[i as int]));
        if !ok {
            return Err("every check must carry status \"passed\" (executed check receipts only)".to_owned());
        }
        i += 1;
    }
    Ok(())
}

fn push_joined(out: &mut String, parts: &Vec<String>, sep: &str)
    ensures
        final(out)@ == old(out)@ + joined(str_views(parts@), sep@),
{
    let ghost start = out@;
    let mut i: usize = 0;
    while i < parts.len()
        invariant
            i <= parts@.len(),
            out@ == start + joined(str_views(parts@).subrange(0, i as int), sep@),
        decreases parts.len() - i,
    {
        let ghost pre = str_views(parts@).subrange(0, i + 1);
        assert(pre.drop_last() =~= str_views(parts@).subrange(0, i as int));
        if i > 0 {
            push_all(out, sep);
        } else {
            assert(str_views(parts@).subrange(0, 0) =~= Seq::<Seq<char>>::empty());
        }
        push_all(out, parts[i].as_str());
        assert(out@ =~= start + joined(pre, sep@));
        i += 1;
    }
    assert(str_views(parts@).subrange(0, parts@.len() as int) =~= str_views(parts@));
}

fn reasons_exec(value: &JsonValue, required_fields: &[String]) -> (r: Vec<String>)
    ensures
        str_views(r@) == reasons_of(value@, str_views(required_fields@)),
{
    let ghost fields = str_views(required_fields@);
    let mut reasons: Vec<String> = Vec::new();
    let mut i: usize = 0;
    while i < required_fields.len()
        invariant
            i <= required_fields@.len(),
            fields == str_views(required_fields@),
            str_views(reasons@) == missing_reasons(value@, fields.subrange(0, i as int)),
        decreases required_fields.len() - i,
    {
        let ghost pre = fields.subrange(0, i + 1);
        assert(pre.drop_last() =~= fields.subrange(0, i as int));
        let field = &required_fields[i];
        if value.path_get(field.as_str()).is_none() {
            let mut m = "missing required field '".to_owned();
            push_all(&mut m, field.as_str());
            push_all(&mut m, "'");
            reasons.push(m);
        }
        assert(str_views(reasons@) =~= missing_reasons(value@, pre));
        i += 1;
    }
    assert(fields.subrange(0, fields.len() as int) =~= fields);
    let ghost base = str_views(reasons@);
    match join_evidence_valid(value) {
        Err(e) => reasons.push(e),
        Ok(()) => {},
    }
    assert(str_views(reasons@) =~= base + opt_reason(evidence_error(value@)));
    let ghost mid = str_views(reasons@);
    match join_checks_valid(value) {
        Err(e) => reasons.push(e),
        Ok(()) => {},
    }
    assert(str_views(reasons@) =~= mid + opt_reason(checks_error(value@)));
    reasons
}

/// Passes artifacts that carry every required field, well-formed evidence
/// and passed checks; quarantines the others with their reasons.
pub fn strategy_join_proof_carrying(values: Vec<(String, JsonValue)>, required_fields: &[String]) -> (r: Result<
    JsonValue,
    String,
>)
    ensures
        result_view(r) == carrying_spec(arts_view(values@), str_views(required_fields@)),
{
    let ghost arts = arts_view(values@);
    let ghost fields = str_views(required_fields@);
    if values.len() == 0 {
        return Err("proof_carrying_join requires at least one branch artifact".to_owned());
    }
    let mut valid: Vec<JsonValue> = Vec::new();
    let mut notes: Vec<String> = Vec::new();
    let mut invalid: usize = 0;
    let mut i: usize = 0;
    while i < values.len()
        invariant
            i <= values@.len(),
            arts == arts_view(values@),
            fields == str_views(required_fields@),
            json_views(valid@) == carrying_valid(arts.subrange(0, i as int), fields),
            str_views(notes@) == carrying_notes(arts.subrange(0, i as int), fields),
            valid@.len() + invalid == i,
        decreases values.len() - i,
    {
        let ghost pre = arts.subrange(0, i + 1);
        assert(pre.drop_last() =~= arts.subrange(0, i as int));
        assert(pre.last() == arts[i as int]);
        let reasons = reasons_exec(&values[i].1, required_fields);
        if reasons.len() == 0 {
            valid.push(clone_json(&values[i].1));
        } else {
            invalid += 1;
            let mut note = "artifact '".to_owned();
            push_all(&mut note, values[i].0.as_str());
            push_all(&mut note, "' quarantined: ");
            push_joined(&mut note, &reasons, "; ");
            notes.push(note);
        }
        assert(json_views(valid@) =~= carrying_valid(pre, fields));
        assert(str_views(notes@) =~= carrying_notes(pre, fields));
        i += 1;
    }
    assert(arts.subrange(0, arts.len() as int) =~= arts);
    let certification = if invalid == 0 {
        "pass"
    } else {
        "quarantine"
    };
    let none: Vec<JsonValue> = Vec::new();
    assert(json_views(none@) =~= Seq::<Json>::empty());
    let value = array_of(valid);
    Ok(join_envelope("proof_carrying_join", certification, value, Vec::new(), none, notes))
}

// ── Join configuration ──────────────────────────────────────────────────

/// How a join node combines its branch artifacts.
pub enum JoinStrategy {
    /// The engine's array collection.
    CollectArray,
    /// The engine's object collection, keyed by branch.
    CollectObject,
    /// The engine's object merge.
    MergeObjects,
    FirstNonNull,
    AllSuccess,
    Quorum { required: u64 },
    DedupeByIdentity { identity_path: Option<String> },
    ContradictionMatrix { scope_path: String, claim_path: String, time_path: String, strict: bool },
    MinorityReport { dissent_path: String },
    ProofCarrying { required_fields: Vec<String> },
}

/// A join node's configuration.
pub struct JoinPlan {
    pub inputs: Vec<String>,
    pub output: String,
    pub strategy: JoinStrategy,
}

/// The mathematical form of a join strategy.
pub enum StrategyView {
    CollectArray,
    CollectObject,
    MergeObjects,
    FirstNonNull,
    AllSuccess,
    Quorum(u64),
    DedupeByIdentity(Option<Seq<char>>),
    ContradictionMatrix(Seq<char>, Seq<char>, Seq<char>, bool),
    MinorityReport(Seq<char>),
    ProofCarrying(Seq<Seq<char>>),
}

impl View for JoinStrategy {
    type V = StrategyView;

    open spec fn view(&self) -> StrategyView {
        match self {
            JoinStrategy::CollectArray => StrategyView::CollectArray,
            JoinStrategy::CollectObject => StrategyView::CollectObject,
            JoinStrategy::MergeObjects => StrategyView::MergeObjects,
            JoinStrategy::FirstNonNull => StrategyView::FirstNonNull,
            JoinStrategy::AllSuccess => StrategyView::AllSuccess,
            JoinStrategy::Quorum { required } => StrategyView::Quorum(*required),
            JoinStrategy::DedupeByIdentity { identity_path } => StrategyView::DedupeByIdentity(
                match identity_path {
                    Some(p) => Some(p@),
                    None => None,
                },
            ),
            JoinStrategy::ContradictionMatrix { scope_path, claim_path, time_path, strict } =>
                StrategyView::ContradictionMatrix(scope_path@, claim_path@, time_path@, *strict),
            JoinStrategy::MinorityReport { dissent_path } => StrategyView::MinorityReport(dissent_path@),
            JoinStrategy::ProofCarrying { required_fields } => StrategyView::ProofCarrying(
                str_views(required_fields@),
            ),
        }
    }
}

/// The string stored under `key`, if any.
pub open spec fn config_str(config: Json, key: Seq<char>) -> Option<Seq<char>> {
    match config.get(key) {
        Some(Json::Str(s)) => Some(s),
        _ => None,
    }
}

/// The string stored under `key`, or `default`.
pub open spec fn config_str_or(config: Json, key: Seq<char>, default: Seq<char>) -> Seq<char> {
    match config_str(config, key) {
        Some(s) => s,
        None => default,
    }
}

/// The strings of an array, others skipped.
pub open spec fn strings_in(items: Seq<Json>) -> Seq<Seq<char>>
    decreases items.len(),
{
    if items.len() == 0 {
        Seq::empty()
    } else {
        strings_in(items.drop_last()) + match items.last() {
            Json::Str(s) => seq![s],
            _ => Seq::empty(),
        }
    }
}

pub open spec fn default_required_fields() -> Seq<Seq<char>> {
    seq!["evidence"@, "checks"@, "receipt"@]
}

/// The strategy named by a join mode, with its options and defaults.
pub open spec fn strategy_for(mode: Seq<char>, config: Json) -> Option<StrategyView> {
    if mode == "collect_array"@ {
        Some(StrategyView::CollectArray)
    } else if mode == "collect_object"@ {
        Some(StrategyView::CollectObject)
    } else if mode == "merge_objects"@ {
        Some(StrategyView::MergeObjects)
    } else if mode == "first_non_null"@ {
        Some(StrategyView::FirstNonNull)
    } else if mode == "all_success"@ {
        Some(StrategyView::AllSuccess)
    } else if mode == "quorum"@ {
        Some(
            StrategyView::Quorum(
                match config.get("required"@) {
                    Some(v) => match v.as_u64() {
                        Some(n) => n,
                        None => 1,
                    },
                    None => 1,
                },
            ),
        )
    } else if mode == "dedupe_by_identity"@ {
        Some(StrategyView::DedupeByIdentity(config_str(config, "identity_path"@)))
    } else if mode == "contradiction_matrix"@ {
        Some(
            StrategyView::ContradictionMatrix(
                config_str_or(config, "scope_path"@, "scope"@),
                config_str_or(config, "claim_path"@, "claim"@),
                config_str_or(config, "time_path"@, "time"@),
                match config.get("strict"@) {
                    Some(Json::Bool(b)) => b,
                    _ => false,
                },
            ),
        )
    } else if mode == "minority_report"@ {
        Some(StrategyView::MinorityReport(config_str_or(config, "dissent_path"@, "dissent"@)))
    } else if mode == "proof_carrying_join"@ {
        Some(
            StrategyView::ProofCarrying(
                match config.get("required_fields"@) {
                    Some(Json::Array(items)) => if strings_in(items).len() > 0 {
                        strings_in(items)
                    } else {
                        default_required_fields()
                    },
                    _ => default_required_fields(),
                },
            ),
        )
    } else {
        None
    }
}

/// What a join node's configuration says: its inputs (the strings of the
/// `inputs` array), its output key and its strategy (`collect_array` when no
/// mode is given).
pub open spec fn join_plan_spec(node_id: Seq<char>, config: Json) -> Result<
    (Seq<Seq<char>>, Seq<char>, StrategyView),
    Seq<char>,
> {
    match config.get("inputs"@) {
        Some(Json::Array(items)) => match config_str(config, "output"@) {
            Some(output) => {
                let mode = config_str_or(config, "mode"@, "collect_array"@);
                match strategy_for(mode, config) {
                    Some(st) => Ok((strings_in(items), output, st)),
                    None => Err("unsupported join mode '"@ + mode + "'"@),
                }
            },
            None => Err("join '"@ + node_id + "' requires output"@),
        },
        _ => Err("join '"@ + node_id + "' requires inputs"@),
    }
}

fn config_str_exec<'a>(config: &'a JsonValue, key: &str) -> (r: Option<&'a String>)
    ensures
        match r {
            Some(s) => config_str(config@, key@) == Some(s@),
            None => config_str(config@, key@) is None,
        },
{
    match config.get(key) {
        Some(JsonValue::Str(s)) => Some(s),
        _ => None,
    }
}

fn config_str_or_exec(config: &JsonValue, key: &str, default: &str) -> (r: String)
    ensures
        r@ == config_str_or(config@, key@, default@),
{
    match config_str_exec(config, key) {
        Some(s) => s.clone(),
        None => default.to_owned(),
    }
}

fn strings_in_exec(items: &Vec<JsonValue>) -> (r: Vec<String>)
    ensures
        str_views(r@) == strings_in(json_views(items@)),
{
    let ghost all = json_views(items@);
    let mut r: Vec<String> = Vec::new();
    let mut i: usize = 0;
    while i < items.len()
        invariant
            i <= items@.len(),
            all == json_views(items@),
            str_views(r@) == strings_in(all.subrange(0, i as int)),
        decreases items.len() - i,
    {
        let ghost pre = all.subrange(0, i + 1);
        assert(pre.drop_last() =~= all.subrange(0, i as int));
        assert(pre.last() == items@[i as int]@);
        match &items[i] {
            JsonValue::Str(s) => r.push(s.clone()),
            _ => {},
        }
        assert(str_views(r@) =~= strings_in(pre));
        i += 1;
    }
    assert(all.subrange(0, all.len() as int) =~= all);
    r
}

fn strategy_for_exec(mode: &str, config: &JsonValue) -> (r: Option<JoinStrategy>)
    ensures
        match r {
            Some(st) => strategy_for(mode@, config@) == Some(st@),
            None => strategy_for(mode@, config@) is None,
        },
{
    if str_eq(mode, "collect_array") {
        Some(JoinStrategy::CollectArray)
    } else if str_eq(mode, "collect_object") {
        Some(JoinStrategy::CollectObject)
    } else if str_eq(mode, "merge_objects") {
        Some(JoinStrategy::MergeObjects)
    } else if str_eq(mode, "first_non_null") {
        Some(JoinStrategy::FirstNonNull)
    } else if str_eq(mode, "all_success") {
        Some(JoinStrategy::AllSuccess)
    } else if str_eq(mode, "quorum") {
        let required = match config.get("required") {
            Some(v) => match v.as_u64() {
                Some(n) => n,
                None => 1,
            },
            None => 1,
        };
        Some(JoinStrategy::Quorum { required })
    } else if str_eq(mode, "dedupe_by_identity") {
        let identity_path = match config_str_exec(config, "identity_path") {
            Some(s) => Some(s.clone()),
            None => None,
        };
        Some(JoinStrategy::DedupeByIdentity { identity_path })
    } else if str_eq(mode, "contradiction_matrix") {
        let strict = match config.get("strict") {
            Some(JsonValue::Bool(b)) => *b,
            _ => false,
        };
        Some(
            JoinStrategy::ContradictionMatrix {
                scope_path: config_str_or_exec(config, "scope_path", "scope"),
                claim_path: config_str_or_exec(config, "claim_path", "claim"),
                time_path: config_str_or_exec(config, "time_path", "time"),
                strict,
            },
        )
    } else if str_eq(mode, "minority_report") {
        Some(JoinStrategy::MinorityReport { dissent_path: config_str_or_exec(config, "dissent_path", "dissent") })
    } else if str_eq(mode, "proof_carrying_join") {
        let mut fields: Vec<String> = Vec::new();
        let mut given = false;
        match config.get("required_fields") {
            Some(JsonValue::Array(items)) => {
                proof {
                    assert(config@.get("required_fields"@) == Some(Json::Array(json_views(items@)))) by {
                        assert(json_views(items@) =~= config@.get("required_fields"@)->0->Array_0);
                    }
                }
                fields = strings_in_exec(items);
                given = fields.len() > 0;
            },
            _ => {},
        }
        if !given {
            fields = vec!["evidence".to_owned(), "checks".to_owned(), "receipt".to_owned()];
            assert(str_views(fields@) =~= default_required_fields());
        }
        Some(JoinStrategy::ProofCarrying { required_fields: fields })
    } else {
        None
    }
}

/// Reads a join node's configuration; see `join_plan_spec`.
pub fn join_plan(node_id: &str, config: &JsonValue) -> (r: Result<JoinPlan, String>)
    ensures
        match r {
            Ok(p) => join_plan_spec(node_id@, config@) == Ok::<(Seq<Seq<char>>, Seq<char>, StrategyView), Seq<char>>(
                (str_views(p.inputs@), p.output@, p.strategy@),
            ),
            Err(e) => join_plan_spec(node_id@, config@) == Err::<(Seq<Seq<char>>, Seq<char>, StrategyView), Seq<char>>(
                e@,
            ),
        },
{
    let items = match config.get("inputs") {
        Some(JsonValue::Array(items)) => items,
        _ => {
            let mut e = "join '".to_owned();
            push_all(&mut e, node_id);
            push_all(&mut e, "' requires inputs");
            return Err(e);
        },
    };
    proof {
        assert(json_views(items@) =~= config@.get("inputs"@)->0->Array_0);
    }
    let inputs = strings_in_exec(items);
    let output = match config_str_exec(config, "output") {
        Some(s) => s.clone(),
        None => {
            let mut e = "join '".to_owned();
            push_all(&mut e, node_id);
            push_all(&mut e, "' requires output");
            return Err(e);
        },
    };
    let mode = config_str_or_exec(config, "mode", "collect_array");
    match strategy_for_exec(mode.as_str(), config) {
        Some(strategy) => Ok(JoinPlan { inputs, output, strategy }),
        None => {
            let mut e = "unsupported join mode '".to_owned();
            push_all(&mut e, mode.as_str());
            push_all(&mut e, "'");
            Err(e)
        },
    }
}

// ── Node configuration ──────────────────────────────────────────────────

/// The number stored under `key` when it is a `u64`, or `default`.
pub open spec fn config_u64_or(config: Json, key: Seq<char>, default: u64) -> u64 {
    match config.get(key) {
        Some(v) => match v.as_u64() {
            Some(n) => n,
            None => default,
        },
        None => default,
    }
}

/// The strings of the array stored under `key` (others skipped), or
/// `default` when there is no array.
pub open spec fn config_strings_or(config: Json, key: Seq<char>, default: Seq<Seq<char>>) -> Seq<Seq<char>> {
    match config.get(key) {
        Some(Json::Array(items)) => strings_in(items),
        _ => default,
    }
}

fn config_u64_or_exec(config: &JsonValue, key: &str, default: u64) -> (r: u64)
    ensures
        r == config_u64_or(config@, key@, default),
{
    match config.get(key) {
        Some(v) => match v.as_u64() {
            Some(n) => n,
            None => default,
        },
        None => default,
    }
}

fn config_strings_or_exec(config: &JsonValue, key: &str, default: Vec<String>) -> (r: Vec<String>)
    ensures
        str_views(r@) == config_strings_or(config@, key@, str_views(default@)),
{
    match config.get(key) {
        Some(JsonValue::Array(items)) => {
            proof {
                assert(json_views(items@) =~= config@.get(key@)->0->Array_0);
            }
            strings_in_exec(items)
        },
        _ => default,
    }
}

/// The settings of an LLM node.
pub struct LlmSettings {
    pub prompt: String,
    pub input_key: String,
    pub output_key: String,
    pub context_file: Option<String>,
    pub tools: Vec<JsonValue>,
    pub timeout_ms: u64,
}

/// The prompt of an LLM node: its own, else the configured one, else
/// `{input}`.
pub open spec fn llm_prompt(prompt: Option<Seq<char>>, config: Json) -> Seq<char> {
    match prompt {
        Some(p) => p,
        None => config_str_or(config, "prompt"@, "{input}"@),
    }
}

/// The tool definitions of an LLM node: the configured array, else none.
pub open spec fn llm_tools(config: Json) -> Seq<Json> {
    match config.get("tools"@) {
        Some(Json::Array(items)) => items,
        _ => Seq::empty(),
    }
}

/// What an LLM node's settings are, read from its own prompt and its
/// configuration: keys default to `__input__`, the timeout to two minutes.
pub open spec fn llm_settings_for(prompt: Option<String>, config: Json, r: LlmSettings) -> bool {
    &&& r.prompt@ == llm_prompt(
        match prompt {
            Some(p) => Some(p@),
            None => None,
        },
        config,
    )
    &&& r.input_key@ == config_str_or(config, "input_key"@, "__input__"@)
    &&& r.output_key@ == config_str_or(config, "output_key"@, "__input__"@)
    &&& match r.context_file {
        Some(f) => config_str(config, "context_file"@) == Some(f@),
        None => config_str(config, "context_file"@) is None,
    }
    &&& json_views(r.tools@) == llm_tools(config)
    &&& r.timeout_ms == config_u64_or(config, "timeout_ms"@, 120000)
}

/// Reads an LLM node's configuration: keys default to `__input__`, the
/// timeout to two minutes.
pub fn llm_settings(prompt: &Option<String>, config: &JsonValue) -> (r: LlmSettings)
    ensures
        llm_settings_for(*prompt, config@, r),
{
    let p = match prompt {
        Some(p) => p.clone(),
        None => config_str_or_exec(config, "prompt", "{input}"),
    };
    let context_file = match config_str_exec(config, "context_file") {
        Some(f) => Some(f.clone()),
        None => None,
    };
    let mut tools: Vec<JsonValue> = Vec::new();
    match config.get("tools") {
        Some(JsonValue::Array(items)) => {
            let mut k: usize = 0;
            while k < items.len()
                invariant
                    k <= items@.len(),
                    tools@.len() == k,
                    forall|j: int| 0 <= j < k ==> (#[trigger] tools@[j])@ == items@[j]@,
                decreases items.len() - k,
            {
                tools.push(clone_json(&items[k]));
                k += 1;
            }
            assert(json_views(tools@) =~= config@.get("tools"@)->0->Array_0);
        },
        _ => {
            assert(json_views(tools@) =~= Seq::<Json>::empty());
        },
    }
    LlmSettings {
        prompt: p,
        input_key: config_str_or_exec(config, "input_key", "__input__"),
        output_key: config_str_or_exec(config, "output_key", "__input__"),
        context_file,
        tools,
        timeout_ms: config_u64_or_exec(config, "timeout_ms", 120000),
    }
}

/// The settings of a subgraph node.
pub struct SubgraphSettings {
    pub graph_name: String,
    pub input_key: String,
    pub output_key: String,
}

pub open spec fn subgraph_settings_for(config: Json, r: SubgraphSettings) -> bool {
    &&& r.graph_name@ == config_str_or(config, "graph_name"@, ""@)
    &&& r.input_key@ == config_str_or(config, "input_key"@, "__input__"@)
    &&& r.output_key@ == config_str_or(config, "output_key"@, "__subgraph_output__"@)
}

pub fn subgraph_settings(config: &JsonValue) -> (r: SubgraphSettings)
    ensures
        subgraph_settings_for(config@, r),
{
    SubgraphSettings {
        graph_name: config_str_or_exec(config, "graph_name", ""),
        input_key: config_str_or_exec(config, "input_key", "__input__"),
        output_key: config_str_or_exec(config, "output_key", "__subgraph_output__"),
    }
}

/// The settings of a loop node.
pub struct LoopSettings {
    pub entry: String,
    pub exit: String,
    pub max_iterations: u64,
    pub counter_key: String,
}

pub open spec fn loop_settings_for(node_id: Seq<char>, config: Json, r: LoopSettings) -> bool {
    &&& r.entry@ == config_str_or(config, "entry"@, ""@)
    &&& r.exit@ == config_str_or(config, "exit"@, "END"@)
    &&& r.max_iterations == config_u64_or(config, "max_iterations"@, 1)
    &&& r.counter_key@ == config_str_or(config, "counter_key"@, "__loop__:"@ + node_id)
}

/// Reads a loop node's configuration: one iteration to `END` unless
/// configured, counted under `__loop__:<node id>` by default.
pub fn loop_settings(node_id: &str, config: &JsonValue) -> (r: LoopSettings)
    ensures
        loop_settings_for(node_id@, config@, r),
{
    let counter_key = match config_str_exec(config, "counter_key") {
        Some(k) => k.clone(),
        None => {
            let mut k = "__loop__:".to_owned();
            push_all(&mut k, node_id);
            k
        },
    };
    LoopSettings {
        entry: config_str_or_exec(config, "entry", ""),
        exit: config_str_or_exec(config, "exit", "END"),
        max_iterations: config_u64_or_exec(config, "max_iterations", 1),
        counter_key,
    }
}

/// The settings of a human-approval node.
pub struct ApprovalSettings {
    pub prompt_key: String,
    pub output_key: String,
    pub audience: Vec<String>,
    pub allowed_decisions: Vec<String>,
    pub expiry_ms: u64,
}

pub open spec fn default_decisions() -> Seq<Seq<char>> {
    seq!["approve"@, "reject"@]
}

pub open spec fn approval_settings_for(config: Json, r: ApprovalSettings) -> bool {
    &&& r.prompt_key@ == config_str_or(config, "prompt_key"@, "__approval_prompt__"@)
    &&& r.output_key@ == config_str_or(config, "output_key"@, "__approval_decision__"@)
    &&& str_views(r.audience@) == config_strings_or(config, "audience"@, Seq::empty())
    &&& str_views(r.allowed_decisions@) == config_strings_or(config, "allowed_decisions"@, default_decisions())
    &&& r.expiry_ms == config_u64_or(config, "expiry_ms"@, 300000)
}

/// Reads an approval node's configuration: approve or reject within five
/// minutes unless configured.
pub fn approval_settings(config: &JsonValue) -> (r: ApprovalSettings)
    ensures
        approval_settings_for(config@, r),
{
    let no_audience: Vec<String> = Vec::new();
    assert(str_views(no_audience@) =~= Seq::<Seq<char>>::empty());
    let decisions = vec!["approve".to_owned(), "reject".to_owned()];
    assert(str_views(decisions@) =~= default_decisions());
    ApprovalSettings {
        prompt_key: config_str_or_exec(config, "prompt_key", "__approval_prompt__"),
        output_key: config_str_or_exec(config, "output_key", "__approval_decision__"),
        audience: config_strings_or_exec(config, "audience", no_audience),
        allowed_decisions: config_strings_or_exec(config, "allowed_decisions", decisions),
        expiry_ms: config_u64_or_exec(config, "expiry_ms", 300000),
    }
}

/// The settings of a tool node.
pub struct ToolSettings {
    pub python: String,
    pub hermes_source: String,
    pub lease: JsonValue,
    pub receipt_dir: String,
    pub timeout_ms: u64,
}

pub open spec fn tool_settings_for(config: Json, r: ToolSettings) -> bool {
    &&& r.python@ == config_str_or(config, "python"@, "python3"@)
    &&& r.hermes_source@ == config_str_or(config, "hermes_source"@, "/home/sikmindz/.hermes/hermes-agent"@)
    &&& r.lease@ == (match config.get("lease"@) {
        Some(l) => l,
        None => Json::Null,
    })
    &&& r.receipt_dir@ == config_str_or(config, "receipt_dir"@, "/tmp/agent-graph-tool-receipts"@)
    &&& r.timeout_ms == config_u64_or(config, "timeout_ms"@, 120000)
}

/// Reads a tool node's configuration; the lease is null when none is
/// configured.
pub fn tool_settings(config: &JsonValue) -> (r: ToolSettings)
    ensures
        tool_settings_for(config@, r),
{
    let lease = match config.get("lease") {
        Some(l) => clone_json(l),
        None => JsonValue::Null,
    };
    ToolSettings {
        python: config_str_or_exec(config, "python", "python3"),
        hermes_source: config_str_or_exec(config, "hermes_source", "/home/sikmindz/.hermes/hermes-agent"),
        lease,
        receipt_dir: config_str_or_exec(config, "receipt_dir", "/tmp/agent-graph-tool-receipts"),
        timeout_ms: config_u64_or_exec(config, "timeout_ms", 120000),
    }
}

/// A node's retry settings, but for its backoff factor, a floating-point
/// number the application reads.
pub struct RetrySettings {
    pub max_attempts: u64,
    pub initial_delay_ms: u64,
    pub max_delay_ms: u64,
    pub jitter: bool,
}

pub open spec fn retry_settings_for(config: Json, r: Option<RetrySettings>) -> bool {
    match config.get("retry"@) {
        None => r is None,
        Some(retry) => r matches Some(s) && s.max_attempts == config_u64_or(retry, "max_attempts"@, 3)
            && s.initial_delay_ms == config_u64_or(retry, "initial_delay_ms"@, 250)
            && s.max_delay_ms == config_u64_or(retry, "max_delay_ms"@, 5000)
            && s.jitter == (match retry.get("jitter"@) {
                Some(Json::Bool(b)) => b,
                _ => false,
            }),
    }
}

/// Reads a node's `retry` configuration: none without a `retry` member;
/// otherwise three attempts, 250 ms growing to at most 5 s, no jitter,
/// unless configured.
pub fn retry_settings(config: &JsonValue) -> (r: Option<RetrySettings>)
    ensures
        retry_settings_for(config@, r),
{
    match config.get("retry") {
        None => None,
        Some(retry) => {
            let jitter = match retry.get("jitter") {
                Some(JsonValue::Bool(b)) => *b,
                _ => false,
            };
            Some(
                RetrySettings {
                    max_attempts: config_u64_or_exec(retry, "max_attempts", 3),
                    initial_delay_ms: config_u64_or_exec(retry, "initial_delay_ms", 250),
                    max_delay_ms: config_u64_or_exec(retry, "max_delay_ms", 5000),
                    jitter,
                },
            )
        },
    }
}

// ── Graph compilation ───────────────────────────────────────────────────

/// The kinds of node a graph spec may declare.
#[derive(Debug, Clone, Copy, PartialEq, Eq)]
pub enum NodeKind {
    Passthrough,
    Llm,
    StateTransform,
    Router,
    Join,
    Parallel,
    Subgraph,
    Loop,
    HumanApproval,
    External,
    Tool,
}

/// One node of a graph spec.
#[derive(Debug)]
pub struct NodeSpecModel {
    pub id: String,
    pub node_type: NodeKind,
    pub config: JsonValue,
    pub prompt: Option<String>,
    pub model: Option<String>,
    pub json_mode: bool,
    pub evidence_required: bool,
    pub max_tokens: Option<u64>,
    /// Legacy `pattern -> target` routes of a router.
    pub routes: Option<Vec<(String, String)>>,
}

/// One edge of a graph spec; `END` names the end of the run.
#[derive(Debug)]
pub struct EdgeSpecModel {
    pub from: String,
    pub to: String,
}

/// How a state key combines concurrent writes.
#[derive(Debug, Clone, Copy, PartialEq, Eq)]
pub enum ReducerKind {
    LastWriteWins,
    Append,
    Add,
    Merge,
}

/// A declarative graph spec.
#[derive(Debug)]
pub struct GraphSpecModel {
    pub name: String,
    pub max_iterations: Option<u64>,
    pub nodes: Vec<NodeSpecModel>,
    pub entry: String,
    pub edges: Vec<EdgeSpecModel>,
    pub reducers: Vec<(String, ReducerKind)>,
}

/// What the engine builds for one node.
pub enum NodePlan {
    /// A passthrough node (also what a parallel fan-out compiles to).
    Passthrough,
    Llm {
        settings: LlmSettings,
        model: Option<String>,
        json_mode: bool,
        evidence_required: bool,
        max_tokens: Option<u64>,
    },
    /// A transform node; its configuration is read as a `TransformConfig`.
    Transform { config: JsonValue },
    /// A router from legacy routes.
    LegacyRouter { config: crate::nodes::RouterConfig },
    /// A router whose configuration is read as a `RouterConfig`.
    ConfiguredRouter { config: JsonValue },
    Join { plan: JoinPlan },
    Subgraph { settings: SubgraphSettings },
    Loop { settings: LoopSettings },
    HumanApproval { settings: ApprovalSettings },
    Tool { settings: ToolSettings },
}

/// A node of the compiled graph, with its retry policy when it has one.
pub struct PlannedNode {
    pub id: String,
    pub plan: NodePlan,
    pub retry: Option<RetrySettings>,
}

/// Where an edge leads.
pub enum EdgeTarget {
    End,
    Node(String),
}

/// A compiled graph, ready for the engine to assemble.
pub struct GraphPlan {
    pub name: String,
    pub max_iterations: u64,
    pub nodes: Vec<PlannedNode>,
    pub entry: String,
    pub edges: Vec<(String, EdgeTarget)>,
    pub reducers: Vec<(String, ReducerKind)>,
}

/// The most branches a parallel fan-out may declare.
pub const MAX_PARALLEL_BRANCHES: u64 = 16;

/// How many branches a parallel node's `config.branches` lists (0 when it
/// lists none).
pub open spec fn branch_count(config: Json) -> nat {
    match config.get("branches"@) {
        Some(Json::Array(items)) => items.len(),
        _ => 0,
    }
}

/// Why a node cannot be compiled: an external node is not executable here,
/// a parallel fan-out is limited to `MAX_PARALLEL_BRANCHES` branches, and a
/// join's configuration may be incomplete.
pub open spec fn node_error(node: NodeSpecModel) -> Option<Seq<char>> {
    if node.node_type == NodeKind::External {
        Some("node '"@ + node.id@ + "' is not executable by this local runtime"@)
    } else if node.node_type == NodeKind::Parallel && branch_count(node.config@) > MAX_PARALLEL_BRANCHES {
        Some("node '"@ + node.id@ + "': a parallel fan-out takes at most 16 branches"@)
    } else if node.node_type == NodeKind::Join {
        match join_plan_spec(node.id@, node.config@) {
            Err(e) => Some(e),
            Ok(_) => None,
        }
    } else {
        None
    }
}

/// The plan built for a node that compiles.
pub open spec fn plan_for(node: NodeSpecModel, plan: NodePlan) -> bool {
    let config = node.config@;
    match node.node_type {
        NodeKind::Passthrough | NodeKind::Parallel => plan is Passthrough,
        NodeKind::Llm => plan matches NodePlan::Llm { settings, model, json_mode, evidence_required, max_tokens }
            && llm_settings_for(node.prompt, config, settings) && opt_text(model) == opt_text(node.model)
            && json_mode == node.json_mode && evidence_required == node.evidence_required && max_tokens
            == node.max_tokens,
        NodeKind::StateTransform => plan matches NodePlan::Transform { config: c } && c@ == config,
        NodeKind::Router => match node.routes {
            Some(routes) => plan matches NodePlan::LegacyRouter { config: c } && crate::nodes::is_legacy_router(
                routes@,
                c,
            ),
            None => plan matches NodePlan::ConfiguredRouter { config: c } && c@ == config,
        },
        NodeKind::Join => plan matches NodePlan::Join { plan: p } && join_plan_spec(node.id@, config) == Ok::<
            (Seq<Seq<char>>, Seq<char>, StrategyView),
            Seq<char>,
        >((str_views(p.inputs@), p.output@, p.strategy@)),
        NodeKind::Subgraph => plan matches NodePlan::Subgraph { settings } && subgraph_settings_for(config, settings),
        NodeKind::Loop => plan matches NodePlan::Loop { settings } && loop_settings_for(node.id@, config, settings),
        NodeKind::HumanApproval => plan matches NodePlan::HumanApproval { settings } && approval_settings_for(
            config,
            settings,
        ),
        NodeKind::Tool => plan matches NodePlan::Tool { settings } && tool_settings_for(config, settings),
        NodeKind::External => false,
    }
}

pub open spec fn opt_text(o: Option<String>) -> Option<Seq<char>> {
    match o {
        Some(s) => Some(s@),
        None => None,
    }
}

/// A compiled node: same id, its plan, and its retry policy.
pub open spec fn planned(node: NodeSpecModel, p: PlannedNode) -> bool {
    &&& p.id@ == node.id@
    &&& plan_for(node, p.plan)
    &&& retry_settings_for(node.config@, p.retry)
}

/// An edge's target: the end for `END`, the named node otherwise.
pub open spec fn target_for(to: Seq<char>, t: EdgeTarget) -> bool {
    if to == "END"@ {
        t is End
    } else {
        t matches EdgeTarget::Node(n) && n@ == to
    }
}

/// The first node that cannot be compiled, from index `i` on.
pub open spec fn first_error_from(nodes: Seq<NodeSpecModel>, i: int) -> Option<(int, Seq<char>)>
    decreases nodes.len() - i,
{
    if i < 0 || i >= nodes.len() {
        None
    } else {
        match node_error(nodes[i]) {
            Some(e) => Some((i, e)),
            None => first_error_from(nodes, i + 1),
        }
    }
}

/// The compiled graph of a spec: nodes in order, each with its plan and
/// retry policy; edges with `END` mapped to the end of the run; reducers as
/// declared; at most 64 iterations unless the spec says otherwise.
pub open spec fn compiles_to(spec: GraphSpecModel, p: GraphPlan) -> bool {
    &&& p.name@ == spec.name@
    &&& p.max_iterations == match spec.max_iterations {
        Some(n) => n,
        None => 64,
    }
    &&& p.entry@ == spec.entry@
    &&& p.nodes@.len() == spec.nodes@.len()
    &&& forall|i: int| 0 <= i < spec.nodes@.len() ==> planned(#[trigger] spec.nodes@[i], p.nodes@[i])
    &&& p.edges@.len() == spec.edges@.len()
    &&& forall|i: int|
        0 <= i < spec.edges@.len() ==> p.edges@[i].0@ == (#[trigger] spec.edges@[i]).from@ && target_for(
            spec.edges@[i].to@,
            p.edges@[i].1,
        )
    &&& p.reducers@.len() == spec.reducers@.len()
    &&& forall|i: int|
        0 <= i < spec.reducers@.len() ==> p.reducers@[i].0@ == (#[trigger] spec.reducers@[i]).0@
            && p.reducers@[i].1 == spec.reducers@[i].1
}

fn plan_node(node: &NodeSpecModel) -> (r: Result<PlannedNode, String>)
    ensures
        match r {
            Ok(p) => node_error(*node) is None && planned(*node, p),
            Err(e) => node_error(*node) == Some(e@),
        },
{
    let config = &node.config;
    let plan = match node.node_type {
        NodeKind::Passthrough => NodePlan::Passthrough,
        NodeKind::Parallel => {
            let n: usize = match config.get("branches") {
                Some(b) => match b.as_array() {
                    Some(items) => items.len(),
                    None => 0,
                },
                None => 0,
            };
            if n > 16 {
                let mut e = "node '".to_owned();
                push_all(&mut e, node.id.as_str());
                push_all(&mut e, "': a parallel fan-out takes at most 16 branches");
                return Err(e);
            }
            NodePlan::Passthrough
        },
        NodeKind::Llm => NodePlan::Llm {
            settings: llm_settings(&node.prompt, config),
            model: match &node.model {
                Some(m) => Some(m.clone()),
                None => None,
            },
            json_mode: node.json_mode,
            evidence_required: node.evidence_required,
            max_tokens: node.max_tokens,
        },
        NodeKind::StateTransform => NodePlan::Transform { config: clone_json(config) },
        NodeKind::Router => match &node.routes {
            Some(routes) => NodePlan::LegacyRouter { config: crate::nodes::legacy_router(routes) },
            None => NodePlan::ConfiguredRouter { config: clone_json(config) },
        },
        NodeKind::Join => match join_plan(node.id.as_str(), config) {
            Ok(p) => NodePlan::Join { plan: p },
            Err(e) => return Err(e),
        },
        NodeKind::Subgraph => NodePlan::Subgraph { settings: subgraph_settings(config) },
        NodeKind::Loop => NodePlan::Loop { settings: loop_settings(node.id.as_str(), config) },
        NodeKind::HumanApproval => NodePlan::HumanApproval { settings: approval_settings(config) },
        NodeKind::Tool => NodePlan::Tool { settings: tool_settings(config) },
        NodeKind::External => {
            let mut e = "node '".to_owned();
            push_all(&mut e, node.id.as_str());
            push_all(&mut e, "' is not executable by this local runtime");
            return Err(e);
        },
    };
    Ok(PlannedNode { id: node.id.clone(), plan, retry: retry_settings(config) })
}

proof fn lemma_first_error_step(nodes: Seq<NodeSpecModel>, i: int)
    requires
        0 <= i < nodes.len(),
        node_error(nodes[i]) is None,
    ensures
        first_error_from(nodes, i) == first_error_from(nodes, i + 1),
{
}

proof fn lemma_no_error_past_end(nodes: Seq<NodeSpecModel>)
    ensures
        first_error_from(nodes, nodes.len() as int) is None,
{
}

/// Compiles a graph spec into the plan the engine assembles; the first node
/// that cannot be compiled refuses the whole spec with its error.
pub fn compile_plan(spec: &GraphSpecModel) -> (r: Result<GraphPlan, String>)
    ensures
        match r {
            Ok(p) => first_error_from(spec.nodes@, 0) is None && compiles_to(*spec, p),
            Err(e) => first_error_from(spec.nodes@, 0) matches Some((_, msg)) && e@ == msg,
        },
{
    let mut nodes: Vec<PlannedNode> = Vec::new();
    let mut i: usize = 0;
    while i < spec.nodes.len()
        invariant
            i <= spec.nodes@.len(),
            nodes@.len() == i,
            first_error_from(spec.nodes@, 0) == first_error_from(spec.nodes@, i as int),
            forall|j: int| 0 <= j < i ==> planned(#[trigger] spec.nodes@[j], nodes@[j]),
        decreases spec.nodes.len() - i,
    {
        match plan_node(&spec.nodes[i]) {
            Ok(p) => {
                proof {
                    lemma_first_error_step(spec.nodes@, i as int);
                }
                nodes.push(p);
            },
            Err(e) => {
                return Err(e);
            },
        }
        i += 1;
    }
    proof {
        lemma_no_error_past_end(spec.nodes@);
    }
    let mut edges: Vec<(String, EdgeTarget)> = Vec::new();
    let mut k: usize = 0;
    while k < spec.edges.len()
        invariant
            k <= spec.edges@.len(),
            edges@.len() == k,
            forall|j: int|
                0 <= j < k ==> edges@[j].0@ == (#[trigger] spec.edges@[j]).from@ && target_for(
                    spec.edges@[j].to@,
                    edges@[j].1,
                ),
        decreases spec.edges.len() - k,
    {
        let edge = &spec.edges[k];
        let target = if str_eq(edge.to.as_str(), "END") {
            EdgeTarget::End
        } else {
            EdgeTarget::Node(edge.to.clone())
        };
        edges.push((edge.from.clone(), target));
        k += 1;
    }
    let mut reducers: Vec<(String, ReducerKind)> = Vec::new();
    let mut m: usize = 0;
    while m < spec.reducers.len()
        invariant
            m <= spec.reducers@.len(),
            reducers@.len() == m,
            forall|j: int|
                0 <= j < m ==> reducers@[j].0@ == (#[trigger] spec.reducers@[j]).0@ && reducers@[j].1
                    == spec.reducers@[j].1,
        decreases spec.reducers.len() - m,
    {
        reducers.push((spec.reducers[m].0.clone(), spec.reducers[m].1));
        m += 1;
    }
    let max_iterations = match spec.max_iterations {
        Some(n) => n,
        None => 64,
    };
    Ok(GraphPlan { name: spec.name.clone(), max_iterations, nodes, entry: spec.entry.clone(), edges, reducers })
}

// ── Simple joins ────────────────────────────────────────────────────────

/// The first artifact value that is not null, else null.
pub open spec fn first_non_null_spec(arts: Seq<(Seq<char>, Json)>) -> Json
    decreases arts.len(),
{
    if arts.len() == 0 {
        Json::Null
    } else if arts[0].1 != Json::Null {
        arts[0].1
    } else {
        first_non_null_spec(arts.drop_first())
    }
}

/// A branch succeeded: its value is `true`, or an object whose `success`
/// is `true`.
pub open spec fn succeeded(v: Json) -> bool {
    match v {
        Json::Bool(b) => b,
        _ => v.get("success"@) == Some(Json::Bool(true)),
    }
}

pub open spec fn all_succeeded(arts: Seq<(Seq<char>, Json)>) -> bool {
    forall|i: int| 0 <= i < arts.len() ==> succeeded(#[trigger] arts[i].1)
}

pub open spec fn all_success_spec(arts: Seq<(Seq<char>, Json)>) -> Json {
    Json::Object(
        seq![
            ("all_success"@, Json::Bool(all_succeeded(arts))),
            ("values"@, Json::Array(artifact_values(arts))),
        ],
    )
}

/// Number of artifacts whose value is `true`.
pub open spec fn approvals(arts: Seq<(Seq<char>, Json)>) -> nat
    decreases arts.len(),
{
    if arts.len() == 0 {
        0
    } else {
        approvals(arts.drop_last()) + if arts.last().1 == Json::Bool(true) {
            1nat
        } else {
            0nat
        }
    }
}

pub open spec fn quorum_spec(arts: Seq<(Seq<char>, Json)>, required: u64) -> Json {
    Json::Object(
        seq![
            ("approvals"@, Json::Number(decimal(approvals(arts)))),
            ("met"@, Json::Bool(approvals(arts) >= required)),
            ("required"@, Json::Number(decimal(required as nat))),
        ],
    )
}

/// The first branch value that is not null.
pub fn join_first_non_null(values: &Vec<(String, JsonValue)>) -> (r: JsonValue)
    ensures
        r@ == first_non_null_spec(arts_view(values@)),
{
    let ghost arts = arts_view(values@);
    let mut i: usize = 0;
    assert(arts.subrange(0, arts.len() as int) =~= arts);
    while i < values.len()
        invariant
            i <= values@.len(),
            arts == arts_view(values@),
            first_non_null_spec(arts) == first_non_null_spec(arts.subrange(i as int, arts.len() as int)),
        decreases values.len() - i,
    {
        let ghost rest = arts.subrange(i as int, arts.len() as int);
        assert(rest[0] == arts[i as int]);
        if !values[i].1.is_null() {
            return clone_json(&values[i].1);
        }
        assert(rest.drop_first() =~= arts.subrange(i + 1, arts.len() as int));
        i += 1;
    }
    JsonValue::Null
}

/// Whether every branch succeeded, with the branch values.
pub fn join_all_success(values: &Vec<(String, JsonValue)>) -> (r: JsonValue)
    ensures
        r@ == all_success_spec(arts_view(values@)),
{
    let ghost arts = arts_view(values@);
    let mut all = true;
    let mut i: usize = 0;
    while i < values.len()
        invariant
            i <= values@.len(),
            arts == arts_view(values@),
            all == (forall|j: int| 0 <= j < i ==> succeeded(#[trigger] arts[j].1)),
        decreases values.len() - i,
    {
        let v = &values[i].1;
        let ok = match v.as_bool() {
            Some(b) => b,
            None => match v.get("success") {
                Some(s) => match s.as_bool() {
                    Some(b) => b,
                    None => false,
                },
                None => false,
            },
        };
        assert(arts[i as int].1 == v@);
        assert(ok == succeeded(v@));
        all = all && ok;
        i += 1;
    }
    let flag = JsonValue::Bool(all);
    let vals = array_of(values_of(values));
    assert(flag@ == Json::Bool(all_succeeded(arts)));
    let r = JsonValue::Object(vec![("all_success".to_owned(), flag), ("values".to_owned(), vals)]);
    assert(r@->Object_0 =~= all_success_spec(arts)->Object_0);
    r
}

/// Whether at least `required` branches approved.
pub fn join_quorum(values: &Vec<(String, JsonValue)>, required: u64) -> (r: JsonValue)
    ensures
        r@ == quorum_spec(arts_view(values@), required),
{
    let ghost arts = arts_view(values@);
    let mut count: u64 = 0;
    let mut i: usize = 0;
    while i < values.len()
        invariant
            i <= values@.len(),
            arts == arts_view(values@),
            count == approvals(arts.subrange(0, i as int)),
            count <= i,
        decreases values.len() - i,
    {
        let ghost pre = arts.subrange(0, i + 1);
        assert(pre.drop_last() =~= arts.subrange(0, i as int));
        assert(pre.last() == arts[i as int]);
        match &values[i].1 {
            JsonValue::Bool(true) => {
                count += 1;
            },
            _ => {},
        }
        i += 1;
    }
    assert(arts.subrange(0, arts.len() as int) =~= arts);
    let met = JsonValue::Bool(count >= required);
    assert(met@ == Json::Bool(approvals(arts) >= required));
    let r = JsonValue::Object(
        vec![
            ("approvals".to_owned(), JsonValue::number_u64(count)),
            ("met".to_owned(), met),
            ("required".to_owned(), JsonValue::number_u64(required)),
        ],
    );
    assert(r@->Object_0 =~= quorum_spec(arts, required)->Object_0);
    r
}

/// What a join node computes from its branch artifacts; `None` for the
/// collections the graph engine performs itself.
pub open spec fn run_join_spec(st: StrategyView, arts: Seq<(Seq<char>, Json)>) -> Option<Result<Json, Seq<char>>> {
    match st {
        StrategyView::FirstNonNull => Some(Ok(first_non_null_spec(arts))),
        StrategyView::AllSuccess => Some(Ok(all_success_spec(arts))),
        StrategyView::Quorum(required) => Some(Ok(quorum_spec(arts, required))),
        StrategyView::DedupeByIdentity(path) => Some(dedupe_spec(arts, path)),
        StrategyView::ContradictionMatrix(scope, claim, time, strict) => Some(
            matrix_spec(arts, scope, claim, time, strict),
        ),
        StrategyView::MinorityReport(dissent) => Some(minority_spec(arts, dissent)),
        StrategyView::ProofCarrying(fields) => Some(carrying_spec(arts, fields)),
        _ => None,
    }
}

/// Runs a join strategy over the branch artifacts.
pub fn run_join(strategy: &JoinStrategy, values: Vec<(String, JsonValue)>) -> (r: Option<Result<JsonValue, String>>)
    ensures
        match r {
            Some(x) => run_join_spec(strategy@, arts_view(values@)) == Some(result_view(x)),
            None => run_join_spec(strategy@, arts_view(values@)) is None,
        },
{
    match strategy {
        JoinStrategy::FirstNonNull => Some(Ok(join_first_non_null(&values))),
        JoinStrategy::AllSuccess => Some(Ok(join_all_success(&values))),
        JoinStrategy::Quorum { required } => Some(Ok(join_quorum(&values, *required))),
        JoinStrategy::DedupeByIdentity { identity_path } => {
            let path: Option<&str> = match identity_path {
                Some(p) => Some(p.as_str()),
                None => None,
            };
            Some(strategy_join_dedupe(values, path))
        },
        JoinStrategy::ContradictionMatrix { scope_path, claim_path, time_path, strict } => Some(
            strategy_join_contradiction_matrix(
                values,
                scope_path.as_str(),
                claim_path.as_str(),
                time_path.as_str(),
                *strict,
            ),
        ),
        JoinStrategy::MinorityReport { dissent_path } => Some(
            strategy_join_minority_report(values, dissent_path.as_str()),
        ),
        JoinStrategy::ProofCarrying { required_fields } => Some(
            strategy_join_proof_carrying(values, required_fields.as_slice()),
        ),
        _ => None,
    }
}

// ── Laws ────────────────────────────────────────────────────────────────

/// Deduplication never invents artifacts: it keeps at most one value per
/// artifact, and when all identities differ it keeps every value, in order.
pub proof fn lemma_dedupe_keeps_distinct(arts: Seq<(Seq<char>, Json)>, path: Option<Seq<char>>)
    ensures
        dedupe_kept(arts, path).len() <= arts.len(),
        (forall|i: int, j: int|
            0 <= i < j < arts.len() ==> identity_of(#[trigger] arts[i], path) != identity_of(#[trigger] arts[j], path))
            ==> dedupe_kept(arts, path) == artifact_values(arts),
    decreases arts.len(),
{
    if arts.len() > 0 {
        let init = arts.drop_last();
        lemma_dedupe_keeps_distinct(init, path);
        if forall|i: int, j: int|
            0 <= i < j < arts.len() ==> identity_of(#[trigger] arts[i], path) != identity_of(#[trigger] arts[j], path) {
            assert forall|i: int, j: int| 0 <= i < j < init.len() implies identity_of(#[trigger] init[i], path)
                != identity_of(#[trigger] init[j], path) by {
                assert(init[i] == arts[i] && init[j] == arts[j]);
            }
            assert(!seen_before(arts, arts.len() - 1, path)) by {
                if seen_before(arts, arts.len() - 1, path) {
                    let j = choose|j: int| 0 <= j < arts.len() - 1 && identity_of(#[trigger] arts[j], path)
                        == identity_of(arts[arts.len() - 1], path);
                    assert(identity_of(arts[j], path) != identity_of(arts[arts.len() - 1], path));
                }
            }
            assert(artifact_values(arts) =~= artifact_values(init).push(arts.last().1));
        }
    }
}

/// A contradiction matrix with no contradicting pair exposes nothing and
/// passes, strict or not; in strict mode, any exposed pair quarantines.
pub proof fn lemma_matrix_quarantines_exactly_on_contradiction(
    arts: Seq<(Seq<char>, Json)>,
    scope_path: Seq<char>,
    claim_path: Seq<char>,
    time_path: Seq<char>,
    strict: bool,
)
    requires
        arts.len() > 0,
    ensures
        (forall|l: int, r: int|
            0 <= l < r < arts.len() ==> (#[trigger] pair_contradiction(
                arts[l],
                arts[r],
                scope_path,
                claim_path,
                time_path,
            )) is None) ==> contradictions_of(arts, scope_path, claim_path, time_path).len() == 0,
        matrix_spec(arts, scope_path, claim_path, time_path, strict)->Ok_0->Object_0[0].1 == Json::Str(
            if strict && contradictions_of(arts, scope_path, claim_path, time_path).len() > 0 {
                "quarantine"@
            } else {
                "pass"@
            },
        ),
{
    if forall|l: int, r: int|
        0 <= l < r < arts.len() ==> (#[trigger] pair_contradiction(
            arts[l],
            arts[r],
            scope_path,
            claim_path,
            time_path,
        )) is None {
        lemma_rows_empty(arts, arts.len() as int, scope_path, claim_path, time_path);
    }
}

proof fn lemma_row_empty(
    arts: Seq<(Seq<char>, Json)>,
    l: int,
    r: int,
    scope_path: Seq<char>,
    claim_path: Seq<char>,
    time_path: Seq<char>,
)
    requires
        0 <= l,
        r <= arts.len(),
        forall|a: int, b: int|
            0 <= a < b < arts.len() ==> (#[trigger] pair_contradiction(
                arts[a],
                arts[b],
                scope_path,
                claim_path,
                time_path,
            )) is None,
    ensures
        row_upto(arts, l, r, scope_path, claim_path, time_path).len() == 0,
    decreases r - l,
{
    if r > l + 1 {
        lemma_row_empty(arts, l, r - 1, scope_path, claim_path, time_path);
        assert(pair_contradiction(arts[l], arts[r - 1], scope_path, claim_path, time_path) is None);
    }
}

proof fn lemma_rows_empty(
    arts: Seq<(Seq<char>, Json)>,
    l: int,
    scope_path: Seq<char>,
    claim_path: Seq<char>,
    time_path: Seq<char>,
)
    requires
        l <= arts.len(),
        forall|a: int, b: int|
            0 <= a < b < arts.len() ==> (#[trigger] pair_contradiction(
                arts[a],
                arts[b],
                scope_path,
                claim_path,
                time_path,
            )) is None,
    ensures
        rows_before(arts, l, scope_path, claim_path, time_path).len() == 0,
    decreases l,
{
    if l > 0 {
        lemma_rows_empty(arts, l - 1, scope_path, claim_path, time_path);
        lemma_row_empty(arts, l - 1, arts.len() as int, scope_path, claim_path, time_path);
    }
}

/// The minority report partitions the artifacts: every one lands on exactly
/// one side, the dissenting ones in the minority report.
pub proof fn lemma_minority_partitions(arts: Seq<(Seq<char>, Json)>, dissent_path: Seq<char>)
    ensures
        dissent_side(arts, dissent_path, true).len() + dissent_side(arts, dissent_path, false).len() == arts.len(),
        forall|k: int|
            0 <= k < dissent_side(arts, dissent_path, true).len() ==> dissents(
                #[trigger] dissent_side(arts, dissent_path, true)[k],
                dissent_path,
            ),
        forall|k: int|
            0 <= k < dissent_side(arts, dissent_path, false).len() ==> !dissents(
                #[trigger] dissent_side(arts, dissent_path, false)[k],
                dissent_path,
            ),
    decreases arts.len(),
{
    if arts.len() > 0 {
        lemma_minority_partitions(arts.drop_last(), dissent_path);
        let mt = dissent_side(arts.drop_last(), dissent_path, true);
        let mf = dissent_side(arts.drop_last(), dissent_path, false);
        assert forall|k: int| 0 <= k < dissent_side(arts, dissent_path, true).len() implies dissents(
            #[trigger] dissent_side(arts, dissent_path, true)[k],
            dissent_path,
        ) by {
            if k < mt.len() {
                assert(dissent_side(arts, dissent_path, true)[k] == mt[k]);
            }
        }
        assert forall|k: int| 0 <= k < dissent_side(arts, dissent_path, false).len() implies !dissents(
            #[trigger] dissent_side(arts, dissent_path, false)[k],
            dissent_path,
        ) by {
            if k < mf.len() {
                assert(dissent_side(arts, dissent_path, false)[k] == mf[k]);
            }
        }
    }
}

/// The proof-carrying join accounts for every artifact: each is either
/// passed or quarantined with one note, and the join passes exactly when
/// nothing was quarantined.
pub proof fn lemma_carrying_accounts_for_all(arts: Seq<(Seq<char>, Json)>, fields: Seq<Seq<char>>)
    ensures
        carrying_valid(arts, fields).len() + carrying_notes(arts, fields).len() == arts.len(),
        carrying_valid(arts, fields).len() == arts.len() <==> (forall|i: int|
            0 <= i < arts.len() ==> reasons_of(#[trigger] arts[i].1, fields).len() == 0),
    decreases arts.len(),
{
    if arts.len() > 0 {
        let init = arts.drop_last();
        lemma_carrying_accounts_for_all(init, fields);
        if forall|i: int| 0 <= i < arts.len() ==> reasons_of(#[trigger] arts[i].1, fields).len() == 0 {
            assert forall|i: int| 0 <= i < init.len() implies reasons_of(#[trigger] init[i].1, fields).len() == 0 by {
                assert(init[i] == arts[i]);
            }
            assert(reasons_of(arts[arts.len() - 1].1, fields).len() == 0);
        } else {
            let i = choose|i: int| 0 <= i < arts.len() && reasons_of(#[trigger] arts[i].1, fields).len() != 0;
            if i < init.len() {
                assert(init[i] == arts[i]);
                assert(carrying_valid(init, fields).len() < init.len());
            }
        }
    }
}

} // verus!
