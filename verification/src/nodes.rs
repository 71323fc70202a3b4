//! The decisions of graph nodes: state transforms and routing.
//!
//! Nodes read and write the shared graph state through the engine; what a
//! transform reads, what it writes, and where a router sends the run are
//! decided here. Numeric comparisons and increments work on floating-point
//! numbers and are left to the application.
use vstd::prelude::*;
use crate::json::{clone_json, decimal, json_eq, json_text, parsed_json, plain_text, walk_keys, Json, JsonValue};
use crate::codex_app_server::{lines_of, request_json, rpc_request, text_lines};
use vstd::utf8::encode_utf8;
use crate::text::{lemma_differ_at, chars_of, contains, contains_exec, push_all, seq_lt, chars_lt, str_eq, starts_with,
    lemma_seq_lt_total, lemma_seq_lt_transitive, lemma_seq_lt_irreflexive, string_from_chars};

verus! {

/// One state transform operation.
#[derive(Debug)]
pub struct TransformOp {
    pub op: String,
    pub path: String,
    pub from: Option<String>,
    pub value: JsonValue,
    pub values: Vec<String>,
    pub template: Option<String>,
}

#[derive(Debug)]
pub struct TransformConfig {
    pub operations: Vec<TransformOp>,
}

/// One routing rule: when the value at `path` satisfies `op` against
/// `value`, the run goes to `targets`.
#[derive(Debug)]
pub struct Rule {
    pub path: String,
    pub op: String,
    pub value: JsonValue,
    pub targets: Vec<String>,
}

#[derive(Debug)]
pub struct RouterConfig {
    pub rules: Vec<Rule>,
    pub default: Vec<String>,
}

pub open spec fn str_views(v: Seq<String>) -> Seq<Seq<char>> {
    v.map_values(|s: String| s@)
}

/// A value as text: a string stands for itself, anything else is its JSON.
pub fn value_text(value: &JsonValue) -> (r: String)
    ensures
        r@ == plain_text(value@),
{
    value.plain_text()
}

// ── Objects ─────────────────────────────────────────────────────────────

/// The map an object's entries describe (a later entry wins).
pub open spec fn entries_map(e: Seq<(Seq<char>, Json)>) -> Map<Seq<char>, Json>
    decreases e.len(),
{
    if e.len() == 0 {
        Map::empty()
    } else {
        entries_map(e.drop_last()).insert(e.last().0, e.last().1)
    }
}

/// Entries in strictly increasing key order, as a `serde_json` map keeps
/// them.
pub open spec fn sorted_keys(e: Seq<(Seq<char>, Json)>) -> bool {
    forall|i: int, j: int| 0 <= i < j < e.len() ==> seq_lt(#[trigger] e[i].0, #[trigger] e[j].0)
}

pub open spec fn entry_views(e: Seq<(String, JsonValue)>) -> Seq<(Seq<char>, Json)> {
    e.map_values(|p: (String, JsonValue)| (p.0@, p.1@))
}

proof fn lemma_entries_map_sorted(e: Seq<(Seq<char>, Json)>)
    requires
        sorted_keys(e),
    ensures
        forall|i: int| 0 <= i < e.len() ==> #[trigger] entries_map(e).contains_key(e[i].0) && entries_map(e)[e[i].0]
            == e[i].1,
        forall|k: Seq<char>| #[trigger] entries_map(e).contains_key(k) ==> exists|i: int| 0 <= i < e.len() && e[i].0 == k,
    decreases e.len(),
{
    if e.len() > 0 {
        let init = e.drop_last();
        assert(sorted_keys(init)) by {
            assert forall|i: int, j: int| 0 <= i < j < init.len() implies seq_lt(#[trigger] init[i].0, #[trigger] init[j].0) by {
                assert(init[i] == e[i] && init[j] == e[j]);
            }
        }
        lemma_entries_map_sorted(init);
        assert forall|i: int| 0 <= i < e.len() implies #[trigger] entries_map(e).contains_key(e[i].0) && entries_map(
            e,
        )[e[i].0] == e[i].1 by {
            if i < e.len() - 1 {
                assert(init[i] == e[i]);
                assert(entries_map(init).contains_key(init[i].0));
                assert(seq_lt(e[i].0, e[e.len() - 1].0));
                lemma_seq_lt_irreflexive(e[i].0);
                assert(e[i].0 != e.last().0);
            }
        }
        assert forall|k: Seq<char>| #[trigger] entries_map(e).contains_key(k) implies exists|i: int|
            0 <= i < e.len() && e[i].0 == k by {
            if k != e.last().0 {
                assert(entries_map(init).contains_key(k));
                let i = choose|i: int| 0 <= i < init.len() && init[i].0 == k;
                assert(e[i] == init[i]);
            } else {
                assert(e[e.len() - 1].0 == k);
            }
        }
    }
}

/// Inserts or replaces `key` in entries kept in key order.
pub fn object_insert(entries: &mut Vec<(String, JsonValue)>, key: String, value: JsonValue)
    requires
        sorted_keys(entry_views(old(entries)@)),
    ensures
        sorted_keys(entry_views(final(entries)@)),
        entries_map(entry_views(final(entries)@)) == entries_map(entry_views(old(entries)@)).insert(key@, value@),
{
    let ghost old_e = entry_views(entries@);
    proof {
        lemma_entries_map_sorted(old_e);
    }
    let ks = chars_of(key.as_str());
    let mut p: usize = 0;
    while p < entries.len() && chars_lt(chars_of(entries[p].0.as_str()).as_slice(), ks.as_slice())
        invariant
            p <= entries@.len(),
            old_e == entry_views(entries@),
            ks@ == key@,
            forall|j: int| 0 <= j < p ==> seq_lt(#[trigger] old_e[j].0, key@),
        decreases entries.len() - p,
    {
        p += 1;
    }
    let ghost kv = key@;
    let ghost vv = value@;
    if p < entries.len() && str_eq(entries[p].0.as_str(), key.as_str()) {
        entries.set(p, (key, value));
        let ghost new_e = entry_views(entries@);
        assert(new_e =~= old_e.update(p as int, (kv, vv)));
        assert(sorted_keys(new_e)) by {
            assert forall|i: int, j: int| 0 <= i < j < new_e.len() implies seq_lt(#[trigger] new_e[i].0, #[trigger] new_e[j].0) by {
                assert(new_e[i].0 == old_e[i].0 && new_e[j].0 == old_e[j].0);
            }
        }
        proof {
            lemma_entries_map_sorted(new_e);
            assert(entries_map(new_e) =~= entries_map(old_e).insert(kv, vv)) by {
                assert forall|k: Seq<char>| entries_map(new_e).contains_key(k) <==> entries_map(old_e).insert(kv, vv).contains_key(k) by {
                    if entries_map(new_e).contains_key(k) {
                        let i = choose|i: int| 0 <= i < new_e.len() && new_e[i].0 == k;
                        assert(entries_map(old_e).contains_key(old_e[i].0));
                    }
                    if entries_map(old_e).contains_key(k) {
                        let i = choose|i: int| 0 <= i < old_e.len() && old_e[i].0 == k;
                        assert(entries_map(new_e).contains_key(new_e[i].0));
                    }
                    if k == kv {
                        assert(entries_map(new_e).contains_key(new_e[p as int].0));
                    }
                }
                assert forall|k: Seq<char>| #[trigger] entries_map(new_e).contains_key(k) implies entries_map(new_e)[k]
                    == entries_map(old_e).insert(kv, vv)[k] by {
                    let i = choose|i: int| 0 <= i < new_e.len() && new_e[i].0 == k;
                    assert(entries_map(new_e).contains_key(new_e[i].0));
                    if i != p {
                        assert(new_e[i] == old_e[i]);
                        assert(entries_map(old_e).contains_key(old_e[i].0));
                        if i < p {
                            assert(seq_lt(old_e[i].0, old_e[p as int].0));
                        } else {
                            assert(seq_lt(old_e[p as int].0, old_e[i].0));
                        }
                        lemma_seq_lt_irreflexive(kv);
                        assert(k != kv);
                    }
                }
            }
        }
        return;
    }
    proof {
        if p < old_e.len() {
            lemma_seq_lt_total(old_e[p as int].0, kv);
        }
    }
    entries.insert(p, (key, value));
    let ghost new_e = entry_views(entries@);
    assert(new_e =~= old_e.insert(p as int, (kv, vv)));
    assert(sorted_keys(new_e)) by {
        assert forall|i: int, j: int| 0 <= i < j < new_e.len() implies seq_lt(#[trigger] new_e[i].0, #[trigger] new_e[j].0) by {
            if j < p {
                assert(new_e[i] == old_e[i] && new_e[j] == old_e[j]);
            } else if j == p {
                assert(new_e[i] == old_e[i]);
            } else if i == p {
                assert(new_e[j] == old_e[j - 1]);
                if j - 1 > p {
                    lemma_seq_lt_transitive(kv, old_e[p as int].0, old_e[j - 1].0);
                }
            } else if i < p {
                assert(new_e[i] == old_e[i] && new_e[j] == old_e[j - 1]);
                if j - 1 > p {
                    lemma_seq_lt_transitive(kv, old_e[p as int].0, old_e[j - 1].0);
                }
                lemma_seq_lt_transitive(old_e[i].0, kv, old_e[j - 1].0);
            } else {
                assert(new_e[i] == old_e[i - 1] && new_e[j] == old_e[j - 1]);
            }
        }
    }
    proof {
        lemma_entries_map_sorted(new_e);
        assert(entries_map(new_e) =~= entries_map(old_e).insert(kv, vv)) by {
            assert forall|k: Seq<char>| entries_map(new_e).contains_key(k) <==> entries_map(old_e).insert(kv, vv).contains_key(k) by {
                if entries_map(new_e).contains_key(k) {
                    let i = choose|i: int| 0 <= i < new_e.len() && new_e[i].0 == k;
                    if i < p {
                        assert(entries_map(old_e).contains_key(old_e[i].0));
                    } else if i > p {
                        assert(entries_map(old_e).contains_key(old_e[i - 1].0));
                    }
                }
                if entries_map(old_e).contains_key(k) {
                    let i = choose|i: int| 0 <= i < old_e.len() && old_e[i].0 == k;
                    if i < p {
                        assert(entries_map(new_e).contains_key(new_e[i].0));
                    } else {
                        assert(entries_map(new_e).contains_key(new_e[i + 1].0));
                    }
                }
                if k == kv {
                    assert(entries_map(new_e).contains_key(new_e[p as int].0));
                }
            }
            assert forall|k: Seq<char>| #[trigger] entries_map(new_e).contains_key(k) implies entries_map(new_e)[k]
                == entries_map(old_e).insert(kv, vv)[k] by {
                let i = choose|i: int| 0 <= i < new_e.len() && new_e[i].0 == k;
                if i < p {
                    assert(new_e[i] == old_e[i]);
                    assert(seq_lt(old_e[i].0, kv));
                    lemma_seq_lt_irreflexive(kv);
                } else if i > p {
                    assert(new_e[i] == old_e[i - 1]);
                    assert(seq_lt(kv, old_e[i - 1].0)) by {
                        if i - 1 > p {
                            lemma_seq_lt_transitive(kv, old_e[p as int].0, old_e[i - 1].0);
                        }
                    }
                    lemma_seq_lt_irreflexive(kv);
                }
            }
        }
    }
}

/// `m` with the entries of `e` inserted in order.
pub open spec fn insert_all(m: Map<Seq<char>, Json>, e: Seq<(Seq<char>, Json)>) -> Map<Seq<char>, Json>
    decreases e.len(),
{
    if e.len() == 0 {
        m
    } else {
        insert_all(m, e.drop_last()).insert(e.last().0, e.last().1)
    }
}

/// Entries in key order describing `insert_all(entries_map(base), extra)`.
fn insert_entries(out: &mut Vec<(String, JsonValue)>, extra: &Vec<(String, JsonValue)>)
    requires
        sorted_keys(entry_views(old(out)@)),
    ensures
        sorted_keys(entry_views(final(out)@)),
        entries_map(entry_views(final(out)@)) == insert_all(entries_map(entry_views(old(out)@)), entry_views(extra@)),
{
    let ghost base = entries_map(entry_views(out@));
    let ghost ex = entry_views(extra@);
    let mut i: usize = 0;
    while i < extra.len()
        invariant
            i <= extra@.len(),
            ex == entry_views(extra@),
            sorted_keys(entry_views(out@)),
            entries_map(entry_views(out@)) == insert_all(base, ex.subrange(0, i as int)),
        decreases extra.len() - i,
    {
        let ghost pre = ex.subrange(0, i + 1);
        assert(pre.drop_last() =~= ex.subrange(0, i as int));
        object_insert(out, extra[i].0.clone(), clone_json(&extra[i].1));
        i += 1;
    }
    assert(ex.subrange(0, ex.len() as int) =~= ex);
}

/// What a transform writes at its path.
pub enum StateUpdate {
    /// Write this value.
    Put(JsonValue),
    /// Remove the key.
    Remove,
    /// Add the operation's number to the current one (floating point, done
    /// by the application).
    Increment,
}

/// The mathematical form of a write; objects are given by their map, their
/// entries being kept in key order.
pub enum WriteView {
    Put(Json),
    PutObject(Map<Seq<char>, Json>),
    Remove,
    Increment,
}

pub open spec fn appended(current: Json, value: Json) -> Json {
    match current {
        Json::Array(items) => Json::Array(items.push(value)),
        Json::Null => Json::Array(seq![value]),
        other => Json::Array(seq![other, value]),
    }
}

pub open spec fn object_entries(v: Json) -> Seq<(Seq<char>, Json)> {
    match v {
        Json::Object(e) => e,
        _ => Seq::empty(),
    }
}

/// `s` with every non-overlapping occurrence of the non-empty `pat`
/// replaced by `rep`, left to right (`str::replace`).
pub open spec fn replace_all(s: Seq<char>, pat: Seq<char>, rep: Seq<char>) -> Seq<char>
    decreases s.len(),
{
    if pat.len() == 0 || s.len() < pat.len() {
        s
    } else if starts_with(s, pat) {
        rep + replace_all(s.subrange(pat.len() as int, s.len() as int), pat, rep)
    } else {
        seq![s[0]] + replace_all(s.drop_first(), pat, rep)
    }
}

/// Replacing a pattern that never occurs leaves the text as it is.
pub proof fn lemma_replace_absent(s: Seq<char>, pat: Seq<char>, rep: Seq<char>)
    requires
        forall|i: int| !crate::text::occurs_at(s, pat, i),
    ensures
        replace_all(s, pat, rep) == s,
    decreases s.len(),
{
    if pat.len() > 0 && s.len() >= pat.len() {
        assert(!crate::text::occurs_at(s, pat, 0));
        assert(!starts_with(s, pat));
        let t = s.drop_first();
        assert forall|i: int| !crate::text::occurs_at(t, pat, i) by {
            if crate::text::occurs_at(t, pat, i) {
                assert(s.subrange(i + 1, i + 1 + pat.len()) =~= t.subrange(i, i + pat.len()));
                assert(crate::text::occurs_at(s, pat, i + 1));
            }
        }
        lemma_replace_absent(t, pat, rep);
        assert(seq![s[0]] + t =~= s);
    }
}

/// Every occurrence is replaced, not only the first: a text that starts
/// with the pattern becomes the replacement followed by the rest of the
/// text with its own occurrences replaced.
pub proof fn lemma_replace_leading(s: Seq<char>, pat: Seq<char>, rep: Seq<char>)
    requires
        pat.len() > 0,
    ensures
        replace_all(pat + s, pat, rep) == rep + replace_all(s, pat, rep),
{
    let t = pat + s;
    assert(t.subrange(0, pat.len() as int) =~= pat);
    assert(t.subrange(pat.len() as int, t.len() as int) =~= s);
}

/// The template with each `{key}` replaced by the text of its value, key
/// after key.
pub open spec fn formatted(text: Seq<char>, keys: Seq<Seq<char>>, vals: Seq<Option<Json>>) -> Seq<char>
    decreases keys.len(),
{
    if keys.len() == 0 {
        text
    } else {
        let v = match vals[keys.len() - 1] {
            Some(v) => v,
            None => Json::Null,
        };
        replace_all(
            formatted(text, keys.drop_last(), vals),
            "{"@ + keys.last() + "}"@,
            plain_text(v),
        )
    }
}

/// The present values of the selected keys.
pub open spec fn selected(keys: Seq<Seq<char>>, vals: Seq<Option<Json>>) -> Seq<(Seq<char>, Json)>
    decreases keys.len(),
{
    if keys.len() == 0 {
        Seq::empty()
    } else {
        selected(keys.drop_last(), vals) + match vals[keys.len() - 1] {
            Some(v) => seq![(keys.last(), v)],
            None => Seq::empty(),
        }
    }
}

pub open spec fn opt_str(o: Option<String>) -> Option<Seq<char>> {
    match o {
        Some(s) => Some(s@),
        None => None,
    }
}

/// The keys a transform reads besides its own path: `from` for a copy, the
/// listed keys for a selection or a template.
pub open spec fn reads_spec(op: Seq<char>, from: Option<Seq<char>>, values: Seq<Seq<char>>) -> Seq<Seq<char>> {
    if op == "copy"@ {
        match from {
            Some(f) => seq![f],
            None => Seq::empty(),
        }
    } else if op == "select"@ || op == "format"@ {
        values
    } else {
        Seq::empty()
    }
}

/// What a transform writes, given the current value at its path and the
/// values read at `transform_reads` (absent keys as `None`).
pub open spec fn transform_spec(
    op: Seq<char>,
    from: Option<Seq<char>>,
    value: Json,
    values: Seq<Seq<char>>,
    template: Option<Seq<char>>,
    current: Json,
    looked: Seq<Option<Json>>,
) -> Result<WriteView, Seq<char>> {
    if op == "set"@ {
        Ok(WriteView::Put(value))
    } else if op == "copy"@ {
        match from {
            None => Err("copy requires from"@),
            Some(_) => Ok(
                WriteView::Put(
                    match looked[0] {
                        Some(v) => v,
                        None => Json::Null,
                    },
                ),
            ),
        }
    } else if op == "delete"@ {
        Ok(WriteView::Remove)
    } else if op == "increment"@ {
        Ok(WriteView::Increment)
    } else if op == "append"@ {
        Ok(WriteView::Put(appended(current, value)))
    } else if op == "merge"@ || op == "merge_object"@ {
        match value {
            Json::Object(add) => Ok(
                WriteView::PutObject(insert_all(entries_map(object_entries(current)), add)),
            ),
            _ => Err("merge value must be object"@),
        }
    } else if op == "select"@ {
        Ok(WriteView::PutObject(entries_map(selected(values, looked))))
    } else if op == "compare"@ {
        Ok(WriteView::Put(Json::Bool(current == value)))
    } else if op == "format"@ {
        Ok(
            WriteView::Put(
                Json::Str(
                    formatted(
                        match template {
                            Some(t) => t,
                            None => Seq::empty(),
                        },
                        values,
                        looked,
                    ),
                ),
            ),
        )
    } else {
        Err("unsupported transform operation '"@ + op + "'"@)
    }
}

/// The exec update is the write the spec describes.
pub open spec fn update_is(r: Result<StateUpdate, String>, w: Result<WriteView, Seq<char>>) -> bool {
    match (r, w) {
        (Ok(StateUpdate::Put(v)), Ok(WriteView::Put(x))) => v@ == x,
        (Ok(StateUpdate::Put(v)), Ok(WriteView::PutObject(m))) => v@ matches Json::Object(e) && sorted_keys(e)
            && entries_map(e) == m,
        (Ok(StateUpdate::Remove), Ok(WriteView::Remove)) => true,
        (Ok(StateUpdate::Increment), Ok(WriteView::Increment)) => true,
        (Err(e), Err(m)) => e@ == m,
        _ => false,
    }
}

impl TransformOp {
    pub open spec fn reads(&self) -> Seq<Seq<char>> {
        reads_spec(self.op@, opt_str(self.from), str_views(self.values@))
    }

    pub open spec fn write_for(&self, current: Json, looked: Seq<Option<Json>>) -> Result<WriteView, Seq<char>> {
        transform_spec(
            self.op@,
            opt_str(self.from),
            self.value@,
            str_views(self.values@),
            opt_str(self.template),
            current,
            looked,
        )
    }
}

/// The keys this transform reads besides its path; see `reads_spec`.
pub fn transform_reads(op: &TransformOp) -> (r: Vec<String>)
    ensures
        str_views(r@) == op.reads(),
{
    if str_eq(op.op.as_str(), "copy") {
        match &op.from {
            Some(f) => {
                let r = vec![f.clone()];
                assert(str_views(r@) =~= seq![f@]);
                r
            },
            None => {
                let r: Vec<String> = Vec::new();
                assert(str_views(r@) =~= Seq::<Seq<char>>::empty());
                r
            },
        }
    } else if str_eq(op.op.as_str(), "select") || str_eq(op.op.as_str(), "format") {
        let mut r: Vec<String> = Vec::new();
        let mut i: usize = 0;
        while i < op.values.len()
            invariant
                i <= op.values@.len(),
                r@.len() == i,
                forall|j: int| 0 <= j < i ==> (#[trigger] r@[j])@ == op.values@[j]@,
            decreases op.values.len() - i,
        {
            r.push(op.values[i].clone());
            i += 1;
        }
        assert(str_views(r@) =~= str_views(op.values@));
        r
    } else {
        let r: Vec<String> = Vec::new();
        assert(str_views(r@) =~= Seq::<Seq<char>>::empty());
        r
    }
}

pub open spec fn looked_views(v: Seq<Option<JsonValue>>) -> Seq<Option<Json>> {
    v.map_values(|o: Option<JsonValue>| match o {
        Some(x) => Some(x@),
        None => None,
    })
}

/// `str::replace` with a non-empty pattern.
pub fn replace_all_exec(s: &[char], pat: &[char], rep: &[char]) -> (r: Vec<char>)
    ensures
        r@ == replace_all(s@, pat@, rep@),
{
    let mut out: Vec<char> = Vec::new();
    if pat.len() == 0 {
        let mut k: usize = 0;
        while k < s.len()
            invariant
                k <= s@.len(),
                out@ == s@.subrange(0, k as int),
            decreases s.len() - k,
        {
            out.push(s[k]);
            k += 1;
        }
        assert(s@.subrange(0, s@.len() as int) =~= s@);
        return out;
    }
    let mut i: usize = 0;
    assert(s@.subrange(0, s@.len() as int) =~= s@);
    while i < s.len()
        invariant
            i <= s@.len(),
            pat@.len() > 0,
            out@ + replace_all(s@.subrange(i as int, s@.len() as int), pat@, rep@) == replace_all(s@, pat@, rep@),
        decreases s.len() - i,
    {
        let ghost rest = s@.subrange(i as int, s@.len() as int);
        if s.len() - i >= pat.len() && crate::text::occurs_at_exec(s, pat, i) {
            assert(starts_with(rest, pat@)) by {
                assert(rest.subrange(0, pat@.len() as int) =~= s@.subrange(i as int, i + pat@.len()));
            }
            assert(rest.subrange(pat@.len() as int, rest.len() as int) =~= s@.subrange(i + pat@.len(), s@.len() as int));
            let mut k: usize = 0;
            let ghost o0 = out@;
            while k < rep.len()
                invariant
                    k <= rep@.len(),
                    out@ == o0 + rep@.subrange(0, k as int),
                decreases rep.len() - k,
            {
                out.push(rep[k]);
                k += 1;
            }
            assert(rep@.subrange(0, rep@.len() as int) =~= rep@);
            assert(out@ + replace_all(s@.subrange(i + pat@.len(), s@.len() as int), pat@, rep@) =~= o0 + replace_all(rest, pat@, rep@));
            i = i + pat.len();
        } else {
            proof {
                if rest.len() >= pat@.len() {
                    assert(!starts_with(rest, pat@)) by {
                        if starts_with(rest, pat@) {
                            assert(rest.subrange(0, pat@.len() as int) =~= s@.subrange(i as int, i + pat@.len()));
                        }
                    }
                }
            }
            let ghost o0 = out@;
            out.push(s[i]);
            proof {
                if rest.len() >= pat@.len() {
                    assert(rest.drop_first() =~= s@.subrange(i + 1, s@.len() as int));
                    assert(out@ + replace_all(s@.subrange(i + 1, s@.len() as int), pat@, rep@) =~= o0 + replace_all(
                        rest,
                        pat@,
                        rep@,
                    ));
                } else {
                    assert(replace_all(rest, pat@, rep@) == rest);
                    assert(s@.subrange(i + 1, s@.len() as int).len() < pat@.len());
                    assert(replace_all(s@.subrange(i + 1, s@.len() as int), pat@, rep@) == s@.subrange(
                        i + 1,
                        s@.len() as int,
                    ));
                    assert(out@ + s@.subrange(i + 1, s@.len() as int) =~= o0 + rest);
                }
            }
            i = i + 1;
        }
    }
    assert(s@.subrange(i as int, s@.len() as int) =~= Seq::<char>::empty());
    out
}

proof fn lemma_entries_map_is_insert_all(e: Seq<(Seq<char>, Json)>)
    ensures
        entries_map(e) == insert_all(Map::empty(), e),
    decreases e.len(),
{
    if e.len() > 0 {
        lemma_entries_map_is_insert_all(e.drop_last());
    }
}

fn appended_exec(current: &JsonValue, value: &JsonValue) -> (r: JsonValue)
    ensures
        r@ == appended(current@, value@),
{
    match current {
        JsonValue::Array(items) => {
            let mut out: Vec<JsonValue> = Vec::new();
            let mut k: usize = 0;
            while k < items.len()
                invariant
                    k <= items@.len(),
                    out@.len() == k,
                    forall|j: int| 0 <= j < k ==> (#[trigger] out@[j])@ == items@[j]@,
                decreases items.len() - k,
            {
                out.push(clone_json(&items[k]));
                k += 1;
            }
            out.push(clone_json(value));
            let r = JsonValue::Array(out);
            assert(r@->Array_0 =~= current@->Array_0.push(value@));
            r
        },
        JsonValue::Null => {
            let r = JsonValue::Array(vec![clone_json(value)]);
            assert(r@->Array_0 =~= seq![value@]);
            r
        },
        _ => {
            let r = JsonValue::Array(vec![clone_json(current), clone_json(value)]);
            assert(r@->Array_0 =~= seq![current@, value@]);
            r
        },
    }
}

fn entries_of(v: &JsonValue) -> (r: Vec<(String, JsonValue)>)
    ensures
        entry_views(r@) == object_entries(v@),
{
    match v {
        JsonValue::Object(e) => {
            let mut out: Vec<(String, JsonValue)> = Vec::new();
            let mut k: usize = 0;
            while k < e.len()
                invariant
                    k <= e@.len(),
                    out@.len() == k,
                    forall|j: int| 0 <= j < k ==> (#[trigger] out@[j]).0@ == e@[j].0@ && out@[j].1@ == e@[j].1@,
                decreases e.len() - k,
            {
                out.push((e[k].0.clone(), clone_json(&e[k].1)));
                k += 1;
            }
            assert(entry_views(out@) =~= v@->Object_0);
            out
        },
        _ => {
            let out: Vec<(String, JsonValue)> = Vec::new();
            assert(entry_views(out@) =~= Seq::<(Seq<char>, Json)>::empty());
            out
        },
    }
}

fn sorted_object_of(entries: &Vec<(String, JsonValue)>) -> (r: JsonValue)
    ensures
        r@ matches Json::Object(e) && sorted_keys(e) && entries_map(e) == insert_all(Map::empty(), entry_views(entries@)),
{
    let mut out: Vec<(String, JsonValue)> = Vec::new();
    assert(entry_views(out@) =~= Seq::<(Seq<char>, Json)>::empty());
    assert(entries_map(entry_views(out@)) =~= Map::<Seq<char>, Json>::empty());
    insert_entries(&mut out, entries);
    let ghost e = entry_views(out@);
    let r = JsonValue::Object(out);
    assert(r@->Object_0 =~= e);
    r
}

/// What a transform writes, from the current value at its path and the
/// values read at `transform_reads` (absent keys as `None`).
pub fn transform_update(op: &TransformOp, current: &JsonValue, looked: &Vec<Option<JsonValue>>) -> (r: Result<
    StateUpdate,
    String,
>)
    requires
        looked@.len() == op.reads().len(),
    ensures
        update_is(r, op.write_for(current@, looked_views(looked@))),
{
    let name = op.op.as_str();
    if str_eq(name, "set") {
        Ok(StateUpdate::Put(clone_json(&op.value)))
    } else if str_eq(name, "copy") {
        match &op.from {
            None => Err("copy requires from".to_owned()),
            Some(_) => {
                let v = match &looked[0] {
                    Some(v) => clone_json(v),
                    None => JsonValue::Null,
                };
                Ok(StateUpdate::Put(v))
            },
        }
    } else if str_eq(name, "delete") {
        Ok(StateUpdate::Remove)
    } else if str_eq(name, "increment") {
        Ok(StateUpdate::Increment)
    } else if str_eq(name, "append") {
        Ok(StateUpdate::Put(appended_exec(current, &op.value)))
    } else if str_eq(name, "merge") || str_eq(name, "merge_object") {
        match &op.value {
            JsonValue::Object(add) => {
                let mut out = Vec::new();
                let cur = entries_of(current);
                let ghost ce = entry_views(cur@);
                let ghost ae = entry_views(add@);
                assert(ae =~= op.value@->Object_0);
                assert(entry_views(out@) =~= Seq::<(Seq<char>, Json)>::empty());
                assert(entries_map(entry_views(out@)) =~= Map::<Seq<char>, Json>::empty());
                insert_entries(&mut out, &cur);
                insert_entries(&mut out, add);
                proof {
                    lemma_entries_map_is_insert_all(ce);
                }
                let ghost e = entry_views(out@);
                let r = JsonValue::Object(out);
                assert(r@->Object_0 =~= e);
                Ok(StateUpdate::Put(r))
            },
            _ => Err("merge value must be object".to_owned()),
        }
    } else if str_eq(name, "select") {
        let mut pairs: Vec<(String, JsonValue)> = Vec::new();
        let ghost keys = str_views(op.values@);
        let ghost lv = looked_views(looked@);
        let mut k: usize = 0;
        while k < op.values.len()
            invariant
                k <= op.values@.len(),
                keys == str_views(op.values@),
                lv == looked_views(looked@),
                looked@.len() == keys.len(),
                entry_views(pairs@) == selected(keys.subrange(0, k as int), lv),
            decreases op.values.len() - k,
        {
            let ghost pre = keys.subrange(0, k + 1);
            assert(pre.drop_last() =~= keys.subrange(0, k as int));
            match &looked[k] {
                Some(v) => {
                    pairs.push((op.values[k].clone(), clone_json(v)));
                },
                None => {},
            }
            assert(entry_views(pairs@) =~= selected(pre, lv));
            k += 1;
        }
        assert(keys.subrange(0, keys.len() as int) =~= keys);
        let r = sorted_object_of(&pairs);
        proof {
            lemma_entries_map_is_insert_all(selected(keys, lv));
        }
        Ok(StateUpdate::Put(r))
    } else if str_eq(name, "compare") {
        Ok(StateUpdate::Put(JsonValue::Bool(json_eq(current, &op.value))))
    } else if str_eq(name, "format") {
        let mut text: Vec<char> = match &op.template {
            Some(t) => chars_of(t.as_str()),
            None => Vec::new(),
        };
        let ghost keys = str_views(op.values@);
        let ghost lv = looked_views(looked@);
        let ghost t0 = text@;
        let mut k: usize = 0;
        while k < op.values.len()
            invariant
                k <= op.values@.len(),
                keys == str_views(op.values@),
                lv == looked_views(looked@),
                looked@.len() == keys.len(),
                text@ == formatted(t0, keys.subrange(0, k as int), lv),
            decreases op.values.len() - k,
        {
            let ghost pre = keys.subrange(0, k + 1);
            assert(pre.drop_last() =~= keys.subrange(0, k as int));
            let mut pat: Vec<char> = vec!['{'];
            let kc = chars_of(op.values[k].as_str());
            let mut j: usize = 0;
            while j < kc.len()
                invariant
                    j <= kc@.len(),
                    pat@ == seq!['{'] + kc@.subrange(0, j as int),
                decreases kc.len() - j,
            {
                pat.push(kc[j]);
                j += 1;
            }
            pat.push('}');
            proof {
                reveal_strlit("{");
                reveal_strlit("}");
                assert(kc@.subrange(0, kc@.len() as int) =~= kc@);
                assert(pat@ =~= "{"@ + pre.last() + "}"@);
            }
            let rep = match &looked[k] {
                Some(v) => v.plain_text(),
                None => JsonValue::Null.plain_text(),
            };
            text = replace_all_exec(text.as_slice(), pat.as_slice(), chars_of(rep.as_str()).as_slice());
            k += 1;
        }
        assert(keys.subrange(0, keys.len() as int) =~= keys);
        Ok(StateUpdate::Put(JsonValue::Str(string_from_chars(text.as_slice()))))
    } else {
        let mut m = "unsupported transform operation '".to_owned();
        push_all(&mut m, name);
        push_all(&mut m, "'");
        Err(m)
    }
}

/// What each transform operation writes at its path, from the current
/// value there: `set` writes its value; `copy` writes the value read at
/// `from` (null when absent) and is refused without `from`; `delete`
/// removes the key; `increment` adds; `append` writes an array ending in the
/// op's value, after the current items (none for null, the current value
/// itself otherwise); `compare` writes `true` exactly when the current value
/// equals the op's value; `merge` is refused unless its value is an object.
pub proof fn lemma_transform_writes(op: TransformOp, current: Json, looked: Seq<Option<Json>>)
    ensures
        op.op@ == "set"@ ==> op.write_for(current, looked) == Ok::<WriteView, Seq<char>>(WriteView::Put(op.value@)),
        op.op@ == "copy"@ ==> match op.from {
            None => op.write_for(current, looked) is Err,
            Some(_) => op.write_for(current, looked) == Ok::<WriteView, Seq<char>>(
                WriteView::Put(
                    match looked[0] {
                        Some(v) => v,
                        None => Json::Null,
                    },
                ),
            ),
        },
        op.op@ == "delete"@ ==> op.write_for(current, looked) == Ok::<WriteView, Seq<char>>(WriteView::Remove),
        op.op@ == "increment"@ ==> op.write_for(current, looked) == Ok::<WriteView, Seq<char>>(WriteView::Increment),
        op.op@ == "append"@ ==> (op.write_for(current, looked) matches Ok(WriteView::Put(Json::Array(items)))
            && items.len() > 0 && items.last() == op.value@ && items.drop_last() == match current {
            Json::Array(old) => old,
            Json::Null => Seq::empty(),
            other => seq![other],
        }),
        op.op@ == "compare"@ ==> (op.write_for(current, looked) matches Ok(WriteView::Put(Json::Bool(b))) && (b
            <==> current == op.value@)),
        (op.op@ == "merge"@ || op.op@ == "merge_object"@) && !(op.value@ is Object) ==> op.write_for(current, looked) is Err,
{
    reveal_strlit("set");
    reveal_strlit("copy");
    reveal_strlit("delete");
    reveal_strlit("increment");
    reveal_strlit("append");
    reveal_strlit("merge");
    reveal_strlit("merge_object");
    reveal_strlit("select");
    reveal_strlit("compare");
    reveal_strlit("format");
    let o = op.op@;
    if o == "set"@ {
        assert(o.len() == 3);
    }
    if o == "copy"@ {
        assert(o.len() == 4);
        assert("set"@.len() == 3);
    }
    if o == "delete"@ {
        assert(o.len() == 6);
        assert("set"@.len() == 3);
        assert("copy"@.len() == 4);
    }
    if o == "increment"@ {
        assert(o.len() == 9);
        assert("set"@.len() == 3);
        assert("copy"@.len() == 4);
        assert("delete"@.len() == 6);
    }
    if o == "append"@ {
        assert(o.len() == 6);
        assert("set"@.len() == 3);
        assert("copy"@.len() == 4);
        assert(o[0] == 'a' && "delete"@[0] == 'd');
        lemma_differ_at(o, "delete"@, 0);
        assert("increment"@.len() == 9);
        match current {
            Json::Array(old) => assert(old.push(op.value@).drop_last() =~= old),
            _ => {},
        }
    }
    if o == "merge"@ {
        assert(o.len() == 5);
        assert("set"@.len() == 3);
        assert("copy"@.len() == 4);
        assert("delete"@.len() == 6);
        assert("increment"@.len() == 9);
        assert("append"@.len() == 6);
    }
    if o == "merge_object"@ {
        assert(o.len() == 12);
        assert("set"@.len() == 3);
        assert("copy"@.len() == 4);
        assert("delete"@.len() == 6);
        assert("increment"@.len() == 9);
        assert("append"@.len() == 6);
        assert("merge"@.len() == 5);
    }
    if o == "select"@ {
        assert(o.len() == 6);
        assert("set"@.len() == 3);
        assert("copy"@.len() == 4);
        assert(o[0] == 's' && "delete"@[0] == 'd');
        lemma_differ_at(o, "delete"@, 0);
        assert("increment"@.len() == 9);
        assert(o[0] == 's' && "append"@[0] == 'a');
        lemma_differ_at(o, "append"@, 0);
        assert("merge"@.len() == 5);
        assert("merge_object"@.len() == 12);
    }
    if o == "compare"@ {
        assert(o.len() == 7);
        assert("set"@.len() == 3);
        assert("copy"@.len() == 4);
        assert("delete"@.len() == 6);
        assert("increment"@.len() == 9);
        assert("append"@.len() == 6);
        assert("merge"@.len() == 5);
        assert("merge_object"@.len() == 12);
        assert("select"@.len() == 6);
    }
    if o == "format"@ {
        assert(o.len() == 6);
        assert("set"@.len() == 3);
        assert("copy"@.len() == 4);
        assert(o[0] == 'f' && "delete"@[0] == 'd');
        lemma_differ_at(o, "delete"@, 0);
        assert("increment"@.len() == 9);
        assert(o[0] == 'f' && "append"@[0] == 'a');
        lemma_differ_at(o, "append"@, 0);
        assert("merge"@.len() == 5);
        assert("merge_object"@.len() == 12);
        assert(o[0] == 'f' && "select"@[0] == 's');
        lemma_differ_at(o, "select"@, 0);
        assert("compare"@.len() == 7);
    }
}

// ── Routing ─────────────────────────────────────────────────────────────

/// Where a router sends the run.
pub enum Route {
    End,
    Node(String),
    Nodes(Vec<String>),
}

pub enum RouteView {
    End,
    Node(Seq<char>),
    Nodes(Seq<Seq<char>>),
}

impl View for Route {
    type V = RouteView;

    open spec fn view(&self) -> RouteView {
        match self {
            Route::End => RouteView::End,
            Route::Node(n) => RouteView::Node(n@),
            Route::Nodes(v) => RouteView::Nodes(str_views(v@)),
        }
    }
}

/// No targets, or only `END`, ends the run; one target goes there; several
/// fan out.
pub open spec fn route_spec(targets: Seq<Seq<char>>) -> RouteView {
    if targets.len() == 0 || targets == seq!["END"@] {
        RouteView::End
    } else if targets.len() == 1 {
        RouteView::Node(targets[0])
    } else {
        RouteView::Nodes(targets)
    }
}

pub fn route_for(targets: &Vec<String>) -> (r: Route)
    ensures
        r@ == route_spec(str_views(targets@)),
{
    if targets.len() == 0 {
        return Route::End;
    }
    if targets.len() == 1 && str_eq(targets[0].as_str(), "END") {
        assert(str_views(targets@) =~= seq!["END"@]);
        return Route::End;
    }
    if targets.len() == 1 {
        proof {
            if str_views(targets@) == seq!["END"@] {
                assert(str_views(targets@)[0] == "END"@);
            }
        }
        return Route::Node(targets[0].clone());
    }
    let mut v: Vec<String> = Vec::new();
    let mut k: usize = 0;
    while k < targets.len()
        invariant
            k <= targets@.len(),
            v@.len() == k,
            forall|j: int| 0 <= j < k ==> (#[trigger] v@[j])@ == targets@[j]@,
        decreases targets.len() - k,
    {
        v.push(targets[k].clone());
        k += 1;
    }
    assert(str_views(v@) =~= str_views(targets@));
    Route::Nodes(v)
}

/// The route recorded in the state under `__route__`.
pub open spec fn route_label_spec(r: RouteView) -> Json {
    match r {
        RouteView::End => Json::Str("END"@),
        RouteView::Node(n) => Json::Str(n),
        RouteView::Nodes(v) => Json::Array(v.map_values(|s: Seq<char>| Json::Str(s))),
    }
}

pub fn goto_label(route: &Route) -> (r: JsonValue)
    ensures
        r@ == route_label_spec(route@),
{
    match route {
        Route::End => JsonValue::string("END"),
        Route::Node(n) => JsonValue::Str(n.clone()),
        Route::Nodes(v) => {
            let mut out: Vec<JsonValue> = Vec::new();
            let mut k: usize = 0;
            while k < v.len()
                invariant
                    k <= v@.len(),
                    out@.len() == k,
                    forall|j: int| 0 <= j < k ==> (#[trigger] out@[j])@ == Json::Str(v@[j]@),
                decreases v.len() - k,
            {
                let item = JsonValue::Str(v[k].clone());
                assert(item@ == Json::Str(v@[k as int]@));
                out.push(item);
                k += 1;
            }
            let r = JsonValue::Array(out);
            assert(r@->Array_0 =~= route_label_spec(route@)->Array_0);
            r
        },
    }
}

/// The verdict of a rule on the value at its path; `None` for the numeric
/// comparisons (`lt`, `lte`, `gt`, `gte`), which compare floating-point
/// numbers and are the application's.
pub open spec fn predicate_spec(op: Seq<char>, value: Json, rule_value: Json) -> Option<bool> {
    if op == "equals"@ || op == "eq"@ {
        Some(value == rule_value)
    } else if op == "exists"@ {
        Some(value != Json::Null)
    } else if op == "contains"@ {
        Some(contains(plain_text(value), plain_text(rule_value)))
    } else if op == "lt"@ || op == "lte"@ || op == "gt"@ || op == "gte"@ {
        None
    } else {
        Some(false)
    }
}

/// Evaluates a rule on the value found at its path (null when absent).
pub fn predicate(rule: &Rule, value: &JsonValue) -> (r: Option<bool>)
    ensures
        r == predicate_spec(rule.op@, value@, rule.value@),
{
    let op = rule.op.as_str();
    if str_eq(op, "equals") || str_eq(op, "eq") {
        Some(json_eq(value, &rule.value))
    } else if str_eq(op, "exists") {
        Some(!value.is_null())
    } else if str_eq(op, "contains") {
        let hay = value.plain_text();
        let needle = rule.value.plain_text();
        Some(contains_exec(chars_of(hay.as_str()).as_slice(), chars_of(needle.as_str()).as_slice()))
    } else if str_eq(op, "lt") || str_eq(op, "lte") || str_eq(op, "gt") || str_eq(op, "gte") {
        None
    } else {
        Some(false)
    }
}

/// A router built from legacy `pattern -> target` routes: each pattern
/// found in `__input__` sends the run to its target; otherwise the run
/// ends.
pub open spec fn is_legacy_router(routes: Seq<(String, String)>, r: RouterConfig) -> bool {
    &&& r.rules@.len() == routes.len()
    &&& forall|i: int|
        0 <= i < routes.len() ==> {
            let rule = #[trigger] r.rules@[i];
            &&& rule.path@ == "__input__"@
            &&& rule.op@ == "contains"@
            &&& rule.value@ == Json::Str(routes[i].0@)
            &&& str_views(rule.targets@) == seq![routes[i].1@]
        }
    &&& str_views(r.default@) == seq!["END"@]
}

pub fn legacy_router(routes: &Vec<(String, String)>) -> (r: RouterConfig)
    ensures
        is_legacy_router(routes@, r),
        r.rules@.len() == routes@.len(),
        forall|i: int|
            0 <= i < routes@.len() ==> {
                let rule = #[trigger] r.rules@[i];
                &&& rule.path@ == "__input__"@
                &&& rule.op@ == "contains"@
                &&& rule.value@ == Json::Str(routes@[i].0@)
                &&& str_views(rule.targets@) == seq![routes@[i].1@]
            },
        str_views(r.default@) == seq!["END"@],
{
    let mut rules: Vec<Rule> = Vec::new();
    let mut k: usize = 0;
    while k < routes.len()
        invariant
            k <= routes@.len(),
            rules@.len() == k,
            forall|i: int|
                0 <= i < k ==> {
                    let rule = #[trigger] rules@[i];
                    &&& rule.path@ == "__input__"@
                    &&& rule.op@ == "contains"@
                    &&& rule.value@ == Json::Str(routes@[i].0@)
                    &&& str_views(rule.targets@) == seq![routes@[i].1@]
                },
        decreases routes.len() - k,
    {
        let targets = vec![routes[k].1.clone()];
        assert(str_views(targets@) =~= seq![routes@[k as int].1@]);
        let value = JsonValue::Str(routes[k].0.clone());
        assert(value@ == Json::Str(routes@[k as int].0@));
        rules.push(Rule { path: "__input__".to_owned(), op: "contains".to_owned(), value, targets });
        k += 1;
    }
    let default = vec!["END".to_owned()];
    assert(str_views(default@) =~= seq!["END"@]);
    RouterConfig { rules, default }
}

/// The targets of the first matching rule, or the default.
pub open spec fn chosen_targets(rules: Seq<Rule>, verdicts: Seq<bool>, default: Seq<Seq<char>>) -> Seq<Seq<char>>
    decreases verdicts.len(),
{
    if verdicts.len() == 0 {
        default
    } else if verdicts[0] {
        str_views(rules[0].targets@)
    } else {
        chosen_targets(rules.drop_first(), verdicts.drop_first(), default)
    }
}

/// Where a router goes for the targets it chose: no target, or only `END`,
/// ends the run; one other target is that node; several fan out to all of
/// them, in order.
pub proof fn lemma_route_targets(targets: Seq<Seq<char>>)
    ensures
        targets.len() == 0 ==> route_spec(targets) == RouteView::End,
        targets == seq!["END"@] ==> route_spec(targets) == RouteView::End,
        targets.len() == 1 && targets[0] != "END"@ ==> route_spec(targets) == RouteView::Node(targets[0]),
        targets.len() >= 2 ==> route_spec(targets) == RouteView::Nodes(targets),
{
    if targets.len() == 1 && targets[0] != "END"@ {
        assert(targets != seq!["END"@]);
    }
}

/// Routing is ordered: the first rule that matches decides, whatever the
/// rules after it say; when none matches the default targets are taken.
pub proof fn lemma_first_match_wins(rules: Seq<Rule>, verdicts: Seq<bool>, default: Seq<Seq<char>>)
    requires
        verdicts.len() == rules.len(),
    ensures
        forall|i: int|
            0 <= i < verdicts.len() && #[trigger] verdicts[i] && (forall|j: int| 0 <= j < i ==> !verdicts[j])
                ==> chosen_targets(rules, verdicts, default) == str_views(rules[i].targets@),
        (forall|j: int| 0 <= j < verdicts.len() ==> !verdicts[j]) ==> chosen_targets(rules, verdicts, default)
            == default,
    decreases verdicts.len(),
{
    if verdicts.len() > 0 {
        lemma_first_match_wins(rules.drop_first(), verdicts.drop_first(), default);
        assert forall|i: int|
            0 <= i < verdicts.len() && #[trigger] verdicts[i] && (forall|j: int| 0 <= j < i ==> !verdicts[j])
                implies chosen_targets(rules, verdicts, default) == str_views(rules[i].targets@) by {
            if i > 0 {
                assert(!verdicts[0]);
                assert(verdicts.drop_first()[i - 1] == verdicts[i]);
                assert(rules.drop_first()[i - 1] == rules[i]);
                assert forall|j: int| 0 <= j < i - 1 implies !verdicts.drop_first()[j] by {
                    assert(verdicts.drop_first()[j] == verdicts[j + 1]);
                }
            }
        }
        if forall|j: int| 0 <= j < verdicts.len() ==> !verdicts[j] {
            assert(!verdicts[0]);
            assert forall|j: int| 0 <= j < verdicts.drop_first().len() implies !verdicts.drop_first()[j] by {
                assert(verdicts.drop_first()[j] == verdicts[j + 1]);
            }
        }
    }
}

/// The route of a router whose rules gave these verdicts, in order.
pub fn choose_route(config: &RouterConfig, verdicts: &Vec<bool>) -> (r: Route)
    requires
        verdicts@.len() == config.rules@.len(),
    ensures
        r@ == route_spec(chosen_targets(config.rules@, verdicts@, str_views(config.default@))),
{
    let ghost d = str_views(config.default@);
    let mut k: usize = 0;
    assert(config.rules@.subrange(0, config.rules@.len() as int) =~= config.rules@);
    assert(verdicts@.subrange(0, verdicts@.len() as int) =~= verdicts@);
    while k < verdicts.len()
        invariant
            k <= verdicts@.len(),
            verdicts@.len() == config.rules@.len(),
            d == str_views(config.default@),
            chosen_targets(config.rules@, verdicts@, d) == chosen_targets(
                config.rules@.subrange(k as int, config.rules@.len() as int),
                verdicts@.subrange(k as int, verdicts@.len() as int),
                d,
            ),
        decreases verdicts.len() - k,
    {
        let ghost rs = config.rules@.subrange(k as int, config.rules@.len() as int);
        let ghost vs = verdicts@.subrange(k as int, verdicts@.len() as int);
        assert(rs[0] == config.rules@[k as int]);
        assert(vs[0] == verdicts@[k as int]);
        if verdicts[k] {
            assert(vs.len() > 0);
            assert(chosen_targets(rs, vs, d) == str_views(rs[0].targets@));
            return route_for(&config.rules[k].targets);
        }
        assert(rs.drop_first() =~= config.rules@.subrange(k + 1, config.rules@.len() as int));
        assert(vs.drop_first() =~= verdicts@.subrange(k + 1, verdicts@.len() as int));
        k += 1;
    }
    route_for(&config.default)
}

// ── LLM node ────────────────────────────────────────────────────────────

/// The prompt sent to the model: each `{input}` replaced by the compact JSON
/// of the node's input value.
pub fn render_prompt(prompt: &str, input: &JsonValue) -> (r: String)
    ensures
        r@ == replace_all(prompt@, "{input}"@, json_text(input@)),
{
    let text = input.to_json_string();
    let pat = chars_of("{input}");
    let out = replace_all_exec(chars_of(prompt).as_slice(), pat.as_slice(), chars_of(text.as_str()).as_slice());
    string_from_chars(out.as_slice())
}

/// Where an LLM node sends its prompt.
#[derive(Debug, PartialEq, Eq)]
pub enum LlmBackend {
    /// A turn of the local Codex app-server.
    CodexAppServer,
    /// The HTTP model endpoint at the node's base URL.
    Http,
}

/// The base URL that selects the Codex app-server.
pub open spec fn codex_app_server_url() -> Seq<char> {
    "codex-app-server://"@
}

pub fn llm_backend(base_url: &str) -> (r: LlmBackend)
    ensures
        (r == LlmBackend::CodexAppServer) <==> base_url@ == codex_app_server_url(),
        (r == LlmBackend::Http) <==> base_url@ != codex_app_server_url(),
{
    if str_eq(base_url, "codex-app-server://") {
        LlmBackend::CodexAppServer
    } else {
        LlmBackend::Http
    }
}

/// The model an LLM node asks for: its own, else the graph's default.
pub fn llm_model(model: &Option<String>, default_model: &String) -> (r: String)
    ensures
        r@ == (match model {
            Some(m) => m@,
            None => default_model@,
        }),
{
    match model {
        Some(m) => m.clone(),
        None => default_model.clone(),
    }
}

// ── Human approval node ────────────────────────────────────────────────

pub open spec fn string_array(v: Seq<Seq<char>>) -> Json {
    Json::Array(v.map_values(|s: Seq<char>| Json::Str(s)))
}

pub fn string_array_value(v: &Vec<String>) -> (r: JsonValue)
    ensures
        r@ == string_array(str_views(v@)),
{
    let mut out: Vec<JsonValue> = Vec::new();
    let mut k: usize = 0;
    while k < v.len()
        invariant
            k <= v@.len(),
            out@.len() == k,
            forall|j: int| 0 <= j < k ==> (#[trigger] out@[j])@ == Json::Str(v@[j]@),
        decreases v.len() - k,
    {
        let item = JsonValue::Str(v[k].clone());
        out.push(item);
        k += 1;
    }
    let r = JsonValue::Array(out);
    assert(r@->Array_0 =~= string_array(str_views(v@))->Array_0);
    r
}

/// The request an approval node records under `__approval_request__`.
pub open spec fn approval_request_json(
    prompt: Json,
    audience: Seq<Seq<char>>,
    allowed_decisions: Seq<Seq<char>>,
    expiry_ms: u64,
    issued_at: Seq<char>,
) -> Json {
    Json::Object(
        seq![
            ("allowed_decisions"@, string_array(allowed_decisions)),
            ("audience"@, string_array(audience)),
            ("expiry_ms"@, Json::Number(decimal(expiry_ms as nat))),
            ("issued_at"@, Json::Str(issued_at)),
            ("prompt"@, prompt),
            ("status"@, Json::Str("pending"@)),
        ],
    )
}

pub fn approval_request(
    prompt: JsonValue,
    audience: &Vec<String>,
    allowed_decisions: &Vec<String>,
    expiry_ms: u64,
    issued_at: &str,
) -> (r: JsonValue)
    ensures
        r@ == approval_request_json(prompt@, str_views(audience@), str_views(allowed_decisions@), expiry_ms, issued_at@),
{
    let ghost p = prompt@;
    let r = JsonValue::Object(
        vec![
            ("allowed_decisions".to_owned(), string_array_value(allowed_decisions)),
            ("audience".to_owned(), string_array_value(audience)),
            ("expiry_ms".to_owned(), JsonValue::number_u64(expiry_ms)),
            ("issued_at".to_owned(), JsonValue::string(issued_at)),
            ("prompt".to_owned(), prompt),
            ("status".to_owned(), JsonValue::string("pending")),
        ],
    );
    assert(r@->Object_0 =~= approval_request_json(p, str_views(audience@), str_views(allowed_decisions@), expiry_ms, issued_at@)->Object_0);
    r
}

/// The value an approval node interrupts the run with.
pub open spec fn approval_interrupt_json(prompt_key: Seq<char>) -> Json {
    Json::Object(seq![("approval_required"@, Json::Bool(true)), ("prompt_key"@, Json::Str(prompt_key))])
}

/// What an approval node does after recording its request: it is done when
/// a decision (any non-null value) already stands under its output key, and
/// otherwise interrupts the run, naming its prompt key.
pub fn approval_step(prior: &Option<JsonValue>, prompt_key: &str) -> (r: Result<(), JsonValue>)
    ensures
        (r is Ok) <==> (prior matches Some(d) && d@ != Json::Null),
        r matches Err(v) ==> v@ == approval_interrupt_json(prompt_key@),
{
    if let Some(d) = prior {
        if !d.is_null() {
            return Ok(());
        }
    }
    let required = JsonValue::Bool(true);
    assert(required@ == Json::Bool(true));
    let v = JsonValue::Object(
        vec![
            ("approval_required".to_owned(), required),
            ("prompt_key".to_owned(), JsonValue::string(prompt_key)),
        ],
    );
    assert(v@->Object_0 =~= approval_interrupt_json(prompt_key@)->Object_0);
    Err(v)
}

// ── Tool node ───────────────────────────────────────────────────────────

pub open spec fn small_number(n: nat) -> Json {
    Json::Number(decimal(n))
}

/// The lease a tool node runs under when its configuration gives none:
/// read-only effects, any tool, at most twenty calls, no recursion and no
/// children.
pub open spec fn default_lease_json(node_id: Seq<char>, issued_at: Seq<char>, expires_at: Seq<char>) -> Json {
    Json::Object(
        seq![
            ("active_stack"@, Json::Array(Seq::empty())),
            ("agent_depth"@, small_number(1)),
            ("counters"@, Json::Object(
                seq![
                    ("children"@, small_number(0)),
                    ("recursive_calls"@, small_number(0)),
                    ("tool_calls"@, small_number(0)),
                ],
            )),
            ("effect_allowlist"@, Json::Array(seq![Json::Str("read_only"@)])),
            ("expires_at"@, Json::Str(expires_at)),
            ("graph_depth"@, small_number(1)),
            ("graph_id"@, Json::Str("auto"@)),
            ("graph_version"@, Json::Str("auto"@)),
            ("issued_at"@, Json::Str(issued_at)),
            ("lease_id"@, Json::Str("auto-"@ + node_id)),
            ("lineage_id"@, Json::Str("lineage-"@ + node_id)),
            ("max_agent_depth"@, small_number(1)),
            ("max_children"@, small_number(0)),
            ("max_graph_depth"@, small_number(1)),
            ("max_recursive_calls"@, small_number(0)),
            ("max_tool_calls"@, small_number(20)),
            ("node_id"@, Json::Str(node_id)),
            ("parent_receipt_digest"@, Json::Null),
            ("protocol"@, Json::Str("agent_graph.tool_lease.v1"@)),
            ("run_id"@, Json::Str("auto"@)),
            ("tool_allowlist"@, Json::Array(seq![Json::Str("*"@)])),
        ],
    )
}

fn prefixed(prefix: &str, rest: &str) -> (r: String)
    ensures
        r@ == prefix@ + rest@,
{
    let mut s = prefix.to_owned();
    push_all(&mut s, rest);
    s
}

#[verifier::rlimit(30)]
fn default_lease(node_id: &str, issued_at: &str, expires_at: &str) -> (r: JsonValue)
    ensures
        r@ == default_lease_json(node_id@, issued_at@, expires_at@),
{
    let empty = JsonValue::Array(Vec::new());
    assert(empty@->Array_0 =~= Seq::<Json>::empty());
    assert(empty@ == Json::Array(Seq::empty()));
    let counters = JsonValue::Object(
        vec![
            ("children".to_owned(), JsonValue::number_u64(0)),
            ("recursive_calls".to_owned(), JsonValue::number_u64(0)),
            ("tool_calls".to_owned(), JsonValue::number_u64(0)),
        ],
    );
    assert(counters@->Object_0 =~= default_lease_json(node_id@, issued_at@, expires_at@)->Object_0[2].1->Object_0);
    let effects = JsonValue::Array(vec![JsonValue::string("read_only")]);
    assert(effects@->Array_0 =~= seq![Json::Str("read_only"@)]);
    let tools = JsonValue::Array(vec![JsonValue::string("*")]);
    assert(tools@->Array_0 =~= seq![Json::Str("*"@)]);
    let parent = JsonValue::Null;
    assert(parent@ == Json::Null);
    let lease_id = JsonValue::Str(prefixed("auto-", node_id));
    assert(lease_id@ == Json::Str("auto-"@ + node_id@));
    let lineage_id = JsonValue::Str(prefixed("lineage-", node_id));
    assert(lineage_id@ == Json::Str("lineage-"@ + node_id@));
    let r = JsonValue::Object(
        vec![
            ("active_stack".to_owned(), empty),
            ("agent_depth".to_owned(), JsonValue::number_u64(1)),
            ("counters".to_owned(), counters),
            ("effect_allowlist".to_owned(), effects),
            ("expires_at".to_owned(), JsonValue::string(expires_at)),
            ("graph_depth".to_owned(), JsonValue::number_u64(1)),
            ("graph_id".to_owned(), JsonValue::string("auto")),
            ("graph_version".to_owned(), JsonValue::string("auto")),
            ("issued_at".to_owned(), JsonValue::string(issued_at)),
            ("lease_id".to_owned(), lease_id),
            ("lineage_id".to_owned(), lineage_id),
            ("max_agent_depth".to_owned(), JsonValue::number_u64(1)),
            ("max_children".to_owned(), JsonValue::number_u64(0)),
            ("max_graph_depth".to_owned(), JsonValue::number_u64(1)),
            ("max_recursive_calls".to_owned(), JsonValue::number_u64(0)),
            ("max_tool_calls".to_owned(), JsonValue::number_u64(20)),
            ("node_id".to_owned(), JsonValue::string(node_id)),
            ("parent_receipt_digest".to_owned(), parent),
            ("protocol".to_owned(), JsonValue::string("agent_graph.tool_lease.v1")),
            ("run_id".to_owned(), JsonValue::string("auto")),
            ("tool_allowlist".to_owned(), tools),
        ],
    );
    assert(r@->Object_0 =~= default_lease_json(node_id@, issued_at@, expires_at@)->Object_0);
    r
}

/// The lease handed to the tools broker: the configured one, or the default
/// lease when the configuration leaves it null.
pub fn tool_lease(configured: &JsonValue, node_id: &str, issued_at: &str, expires_at: &str) -> (r: JsonValue)
    ensures
        r@ == (if configured@ == Json::Null {
            default_lease_json(node_id@, issued_at@, expires_at@)
        } else {
            configured@
        }),
{
    if configured.is_null() {
        default_lease(node_id, issued_at, expires_at)
    } else {
        clone_json(configured)
    }
}

/// The tool a node calls: the string under `__tool_name__`, else `read_file`.
pub open spec fn tool_name_spec(v: Option<Json>) -> Seq<char> {
    match v {
        Some(Json::Str(s)) => s,
        _ => "read_file"@,
    }
}

pub fn tool_name(v: &Option<JsonValue>) -> (r: String)
    ensures
        r@ == tool_name_spec(match v {
            Some(x) => Some(x@),
            None => None,
        }),
{
    match v {
        Some(JsonValue::Str(s)) => s.clone(),
        _ => "read_file".to_owned(),
    }
}

/// The MCP `initialize` request a tool node opens the broker with.
pub open spec fn mcp_initialize_json() -> Json {
    request_json(
        1,
        "initialize"@,
        Json::Object(
            seq![
                ("capabilities"@, Json::Object(Seq::empty())),
                ("clientInfo"@, Json::Object(
                    seq![("name"@, Json::Str("agent-graph-tool-node"@)), ("version"@, Json::Str("0.1"@))],
                )),
                ("protocolVersion"@, Json::Str("2024-11-05"@)),
            ],
        ),
    )
}

pub fn mcp_initialize() -> (r: JsonValue)
    ensures
        r@ == mcp_initialize_json(),
{
    let caps = JsonValue::Object(Vec::new());
    assert(caps@->Object_0 =~= Seq::<(Seq<char>, Json)>::empty());
    let client = JsonValue::Object(
        vec![
            ("name".to_owned(), JsonValue::string("agent-graph-tool-node")),
            ("version".to_owned(), JsonValue::string("0.1")),
        ],
    );
    assert(client@->Object_0 =~= seq![("name"@, Json::Str("agent-graph-tool-node"@)), ("version"@, Json::Str("0.1"@))]);
    let params = JsonValue::Object(
        vec![
            ("capabilities".to_owned(), caps),
            ("clientInfo".to_owned(), client),
            ("protocolVersion".to_owned(), JsonValue::string("2024-11-05")),
        ],
    );
    assert(params@->Object_0 =~= mcp_initialize_json()->Object_0[3].1->Object_0);
    rpc_request(1, "initialize", params)
}

/// The MCP `notifications/initialized` notification (it has no params).
pub open spec fn mcp_initialized_json() -> Json {
    Json::Object(seq![("jsonrpc"@, Json::Str("2.0"@)), ("method"@, Json::Str("notifications/initialized"@))])
}

pub fn mcp_initialized() -> (r: JsonValue)
    ensures
        r@ == mcp_initialized_json(),
{
    let r = JsonValue::Object(
        vec![
            ("jsonrpc".to_owned(), JsonValue::string("2.0")),
            ("method".to_owned(), JsonValue::string("notifications/initialized")),
        ],
    );
    assert(r@->Object_0 =~= mcp_initialized_json()->Object_0);
    r
}

/// The MCP `tools/call` request for one tool.
pub open spec fn mcp_tool_call_json(name: Seq<char>, arguments: Json) -> Json {
    request_json(2, "tools/call"@, Json::Object(seq![("arguments"@, arguments), ("name"@, Json::Str(name))]))
}

pub fn mcp_tool_call(name: &str, arguments: JsonValue) -> (r: JsonValue)
    ensures
        r@ == mcp_tool_call_json(name@, arguments@),
{
    let ghost a = arguments@;
    let params = JsonValue::Object(
        vec![("arguments".to_owned(), arguments), ("name".to_owned(), JsonValue::string(name))],
    );
    assert(params@->Object_0 =~= seq![("arguments"@, a), ("name"@, Json::Str(name@))]);
    rpc_request(2, "tools/call", params)
}

/// What a tool produced: the `text` of the first item of
/// `result.content`, null when there is none.
pub open spec fn tool_output_spec(response: Json) -> Json {
    match walk_keys(response, seq!["result"@, "content"@]) {
        Some(Json::Array(items)) => if items.len() > 0 {
            match items[0].get("text"@) {
                Some(t) => t,
                None => Json::Null,
            }
        } else {
            Json::Null
        },
        _ => Json::Null,
    }
}

/// Why a broker reply does not yield a tool result.
#[derive(Debug, PartialEq)]
pub enum ToolReplyError {
    /// The reply line is not JSON; the parser's message.
    Unparsable(String),
    /// The reply carries an `error`; the node's failure message.
    Failed(String),
}

/// The failure message for a reply that carries an error.
pub open spec fn tool_failure_text(tool_name: Seq<char>, error: Json) -> Seq<char> {
    "tool '"@ + tool_name + "' failed: "@ + json_text(error)
}

/// Reads the broker's reply to a tool call: a parse failure, the reply's
/// `error` (an `error` member, even null, fails the call), or the tool's
/// output.
pub fn tool_reply(tool_name: &str, line: &str) -> (r: Result<JsonValue, ToolReplyError>)
    ensures
        match parsed_json(encode_utf8(line@)) {
            Err(msg) => r matches Err(ToolReplyError::Unparsable(m)) && m@ == msg,
            Ok(reply) => match reply.get("error"@) {
                Some(e) => r matches Err(ToolReplyError::Failed(m)) && m@ == tool_failure_text(tool_name@, e),
                None => r matches Ok(out) && out@ == tool_output_spec(reply),
            },
        },
{
    let reply = match JsonValue::parse(line) {
        Ok(v) => v,
        Err(msg) => return Err(ToolReplyError::Unparsable(msg)),
    };
    if let Some(e) = reply.get("error") {
        let mut m = prefixed("tool '", tool_name);
        push_all(&mut m, "' failed: ");
        let t = e.to_json_string();
        push_all(&mut m, t.as_str());
        return Err(ToolReplyError::Failed(m));
    }
    let mut out = JsonValue::Null;
    if let Some(result) = reply.get("result") {
        if let Some(content) = result.get("content") {
            if let Some(items) = content.as_array() {
                if items.len() > 0 {
                    if let Some(t) = items[0].get("text") {
                        out = clone_json(t);
                    }
                }
            }
        }
    }
    proof {
        reveal_with_fuel(walk_keys, 3);
    }
    Ok(out)
}

/// The receipts of a ledger: each line that parses as JSON, in order.
pub open spec fn parsed_lines(lines: Seq<Seq<char>>) -> Seq<Json>
    decreases lines.len(),
{
    if lines.len() == 0 {
        Seq::empty()
    } else {
        let before = parsed_lines(lines.drop_last());
        match parsed_json(encode_utf8(lines.last())) {
            Ok(v) => before.push(v),
            Err(_) => before,
        }
    }
}

/// The receipt ledger's lines that parse, as an array.
pub fn ledger_receipts(contents: &str) -> (r: JsonValue)
    ensures
        r@ == Json::Array(parsed_lines(lines_of(contents@))),
{
    let lines = text_lines(contents);
    let ghost ls = lines_of(contents@);
    let mut out: Vec<JsonValue> = Vec::new();
    let mut k: usize = 0;
    while k < lines.len()
        invariant
            k <= lines@.len(),
            lines@.len() == ls.len(),
            ls == lines_of(contents@),
            forall|j: int| 0 <= j < lines@.len() ==> #[trigger] lines@[j]@ == ls[j],
            out@.len() == parsed_lines(ls.subrange(0, k as int)).len(),
            forall|j: int| 0 <= j < out@.len() ==> (#[trigger] out@[j])@ == parsed_lines(ls.subrange(0, k as int))[j],
        decreases lines.len() - k,
    {
        let ghost pre = ls.subrange(0, k + 1);
        assert(pre.drop_last() =~= ls.subrange(0, k as int));
        assert(pre.last() == lines@[k as int]@);
        match JsonValue::parse(lines[k].as_str()) {
            Ok(v) => {
                out.push(v);
            },
            Err(_) => {},
        }
        k += 1;
    }
    assert(ls.subrange(0, ls.len() as int) =~= ls);
    let r = JsonValue::Array(out);
    assert(r@->Array_0 =~= parsed_lines(ls));
    r
}

/// What a tool node writes when the call succeeds: the output, the ledger's
/// receipts, and the success flag.
pub open spec fn tool_writes_json(output: Json, receipts: Json) -> Seq<(Seq<char>, Json)> {
    seq![("__tool_result__"@, output), ("__tool_receipts__"@, receipts), ("__tool_success__"@, Json::Bool(true))]
}

pub fn tool_writes(output: JsonValue, receipts: JsonValue) -> (r: Vec<(String, JsonValue)>)
    ensures
        r@.len() == 3,
        forall|j: int| 0 <= j < 3 ==> #[trigger] r@[j].0@ == tool_writes_json(output@, receipts@)[j].0
            && r@[j].1@ == tool_writes_json(output@, receipts@)[j].1,
{
    let success = JsonValue::Bool(true);
    assert(success@ == Json::Bool(true));
    vec![
        ("__tool_result__".to_owned(), output),
        ("__tool_receipts__".to_owned(), receipts),
        ("__tool_success__".to_owned(), success),
    ]
}

} // verus!
