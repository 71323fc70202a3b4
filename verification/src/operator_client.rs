//! The operator client's decisions: which socket it talks to, what it asks
//! the daemon for each subcommand, and what it makes of the answers.
//!
//! Sockets resolve from the environment first, then from the status file
//! the daemon publishes, then from the default paths under the home
//! directory. The convenience subcommands are MCP `tools/call` requests over
//! the daemon's MCP socket.
use vstd::prelude::*;
use crate::codex_app_server::{request_json, rpc_request};
use crate::json::{clone_json, int_text, json_text, parsed_json, Json, JsonValue};
use crate::text::{chars_eq, chars_of, parse_i64, parse_i64_spec, parse_u64, parse_u64_spec, push_all, starts_with,
    starts_with_exec, str_eq, string_from_chars, trim_chars, trim_spec};
use crate::transport::be32_value;
use crate::operator::PROTOCOL;
use vstd::utf8::encode_utf8;

verus! {

pub const DEFAULT_OPERATOR_SOCKET: &'static str = "~/.local/share/agent-graph/run/operator.sock";

pub const DEFAULT_MCP_SOCKET: &'static str = "~/.local/share/agent-graph/run/mcp.sock";

pub const DEFAULT_STATUS_FILE: &'static str = "~/.local/share/agent-graph/run/status.json";

/// A path with a leading `~/` placed under the home directory, when one is
/// known; any other path as it is.
pub open spec fn expand_home_spec(p: Seq<char>, home: Option<Seq<char>>) -> Seq<char> {
    if starts_with(p, "~/"@) && home is Some {
        home->0 + "/"@ + p.subrange(2, p.len() as int)
    } else {
        p
    }
}

pub fn expand_home(p: &str, home: &Option<String>) -> (r: String)
    ensures
        r@ == expand_home_spec(p@, match home {
            Some(h) => Some(h@),
            None => None,
        }),
{
    let cs = chars_of(p);
    let tilde = chars_of("~/");
    proof {
        reveal_strlit("~/");
    }
    if starts_with_exec(cs.as_slice(), tilde.as_slice()) {
        if let Some(h) = home {
            let mut out = h.clone();
            push_all(&mut out, "/");
            let mut rest: Vec<char> = Vec::new();
            let mut k: usize = 2;
            while k < cs.len()
                invariant
                    2 <= k <= cs@.len(),
                    rest@ == cs@.subrange(2, k as int),
                decreases cs.len() - k,
            {
                rest.push(cs[k]);
                k += 1;
            }
            let tail = string_from_chars(rest.as_slice());
            push_all(&mut out, tail.as_str());
            return out;
        }
    }
    p.to_owned()
}

/// The status file the daemon publishes: the environment's path, else the
/// default, either placed under the home directory.
pub fn status_file_path(env_value: &Option<String>, home: &Option<String>) -> (r: String)
    ensures
        r@ == expand_home_spec(
            match env_value {
                Some(e) => e@,
                None => DEFAULT_STATUS_FILE@,
            },
            match home {
                Some(h) => Some(h@),
                None => None,
            },
        ),
{
    match env_value {
        Some(e) => expand_home(e.as_str(), home),
        None => expand_home(DEFAULT_STATUS_FILE, home),
    }
}

/// The status file's contents as JSON; none when they do not parse.
pub fn parse_status(raw: &str) -> (r: Option<JsonValue>)
    ensures
        match parsed_json(encode_utf8(raw@)) {
            Ok(v) => r matches Some(s) && s@ == v,
            Err(_) => r is None,
        },
{
    match JsonValue::parse(raw) {
        Ok(v) => Some(v),
        Err(_) => None,
    }
}

/// The socket a client talks to: the environment's choice, else the string
/// the daemon published under `key`, else the default under the home
/// directory.
pub open spec fn resolve_socket_spec(
    env_value: Option<Seq<char>>,
    status: Option<Json>,
    key: Seq<char>,
    default: Seq<char>,
    home: Option<Seq<char>>,
) -> Seq<char> {
    match env_value {
        Some(e) => e,
        None => match status {
            Some(s) => match s.get(key) {
                Some(Json::Str(p)) => p,
                _ => expand_home_spec(default, home),
            },
            None => expand_home_spec(default, home),
        },
    }
}

pub fn resolve_socket(
    env_value: &Option<String>,
    status: &Option<JsonValue>,
    key: &str,
    default: &str,
    home: &Option<String>,
) -> (r: String)
    ensures
        r@ == resolve_socket_spec(
            match env_value {
                Some(e) => Some(e@),
                None => None,
            },
            match status {
                Some(s) => Some(s@),
                None => None,
            },
            key@,
            default@,
            match home {
                Some(h) => Some(h@),
                None => None,
            },
        ),
{
    if let Some(e) = env_value {
        return e.clone();
    }
    if let Some(s) = status {
        if let Some(JsonValue::Str(p)) = s.get(key) {
            return p.clone();
        }
    }
    expand_home(default, home)
}

// ── MCP calls ───────────────────────────────────────────────────────────

/// The `tools/call` request a client sends for one tool.
pub open spec fn mcp_call_json(tool: Seq<char>, arguments: Json) -> Json {
    request_json(1, "tools/call"@, Json::Object(seq![("arguments"@, arguments), ("name"@, Json::Str(tool))]))
}

pub fn mcp_call_request(tool: &str, arguments: JsonValue) -> (r: JsonValue)
    ensures
        r@ == mcp_call_json(tool@, arguments@),
{
    let ghost a = arguments@;
    let params = JsonValue::Object(
        vec![("arguments".to_owned(), arguments), ("name".to_owned(), JsonValue::string(tool))],
    );
    assert(params@->Object_0 =~= seq![("arguments"@, a), ("name"@, Json::Str(tool@))]);
    rpc_request(1, "tools/call", params)
}

/// `value[key]`: the member, or null when there is none.
pub open spec fn member(v: Json, key: Seq<char>) -> Json {
    match v.get(key) {
        Some(m) => m,
        None => Json::Null,
    }
}

/// `value[0]`: the first item of an array, or null.
pub open spec fn first_item(v: Json) -> Json {
    match v {
        Json::Array(items) => if items.len() > 0 {
            items[0]
        } else {
            Json::Null
        },
        _ => Json::Null,
    }
}

/// What a tool answered: `result.structuredContent.data` when it is not
/// null; else the JSON inside the string `result.content[0].text` (the
/// string itself when it is not JSON); else `result`.
pub open spec fn mcp_data(reply: Json) -> Json {
    let result = member(reply, "result"@);
    let data = member(member(result, "structuredContent"@), "data"@);
    if data != Json::Null {
        data
    } else {
        match member(first_item(member(result, "content"@)), "text"@) {
            Json::Str(t) => match parsed_json(encode_utf8(t)) {
                Ok(v) => v,
                Err(_) => Json::Str(t),
            },
            _ => result,
        }
    }
}

/// What the client makes of the daemon's reply line: the parser's error,
/// the reply's `error`, or the tool's data.
pub open spec fn mcp_outcome(line: Seq<char>) -> Result<Json, Seq<char>> {
    match parsed_json(encode_utf8(line)) {
        Err(e) => Err(e),
        Ok(reply) => match reply.get("error"@) {
            Some(err) => Err("mcp error: "@ + json_text(err)),
            None => Ok(mcp_data(reply)),
        },
    }
}

fn member_exec(v: &JsonValue, key: &str) -> (r: JsonValue)
    ensures
        r@ == member(v@, key@),
{
    match v.get(key) {
        Some(m) => clone_json(m),
        None => JsonValue::Null,
    }
}

fn first_item_exec(v: &JsonValue) -> (r: JsonValue)
    ensures
        r@ == first_item(v@),
{
    match v {
        JsonValue::Array(items) => if items.len() > 0 {
            clone_json(&items[0])
        } else {
            JsonValue::Null
        },
        _ => JsonValue::Null,
    }
}

pub fn mcp_reply(line: &str) -> (r: Result<JsonValue, String>)
    ensures
        match r {
            Ok(v) => mcp_outcome(line@) == Ok::<Json, Seq<char>>(v@),
            Err(e) => mcp_outcome(line@) == Err::<Json, Seq<char>>(e@),
        },
{
    let reply = match JsonValue::parse(line) {
        Ok(v) => v,
        Err(e) => return Err(e),
    };
    if let Some(err) = reply.get("error") {
        let mut m = "mcp error: ".to_owned();
        let t = err.to_json_string();
        push_all(&mut m, t.as_str());
        return Err(m);
    }
    let result = member_exec(&reply, "result");
    let data = member_exec(&member_exec(&result, "structuredContent"), "data");
    if !data.is_null() {
        return Ok(data);
    }
    let text = member_exec(&first_item_exec(&member_exec(&result, "content")), "text");
    match text {
        JsonValue::Str(t) => match JsonValue::parse(t.as_str()) {
            Ok(v) => Ok(v),
            Err(_) => Ok(JsonValue::Str(t)),
        },
        _ => Ok(result),
    }
}

// ── Command line ────────────────────────────────────────────────────────

pub open spec fn arg_views(v: Seq<String>) -> Seq<Seq<char>> {
    v.map_values(|s: String| s@)
}

/// The arguments with every `--non-interactive` removed, in order.
pub open spec fn without_flag(args: Seq<Seq<char>>) -> Seq<Seq<char>>
    decreases args.len(),
{
    if args.len() == 0 {
        Seq::empty()
    } else if args.last() == "--non-interactive"@ {
        without_flag(args.drop_last())
    } else {
        without_flag(args.drop_last()).push(args.last())
    }
}

/// The arguments without `--non-interactive`, and whether it was given.
pub fn strip_non_interactive(raw: &Vec<String>) -> (r: (Vec<String>, bool))
    ensures
        arg_views(r.0@) == without_flag(arg_views(raw@)),
        r.1 == exists|j: int| 0 <= j < raw@.len() && raw@[j]@ == "--non-interactive"@,
{
    let ghost all = arg_views(raw@);
    let mut kept: Vec<String> = Vec::new();
    let mut seen = false;
    let mut k: usize = 0;
    while k < raw.len()
        invariant
            k <= raw@.len(),
            all == arg_views(raw@),
            arg_views(kept@) == without_flag(all.subrange(0, k as int)),
            seen == exists|j: int| 0 <= j < k && raw@[j]@ == "--non-interactive"@,
        decreases raw.len() - k,
    {
        let ghost pre = all.subrange(0, k + 1);
        assert(pre.drop_last() =~= all.subrange(0, k as int));
        assert(pre.last() == raw@[k as int]@);
        let a = raw[k].clone();
        if str_eq(a.as_str(), "--non-interactive") {
            seen = true;
        } else {
            let ghost before = kept@;
            kept.push(a);
            assert(arg_views(kept@) =~= arg_views(before).push(raw@[k as int]@));
        }
        k += 1;
    }
    assert(all.subrange(0, raw@.len() as int) =~= all);
    (kept, seen)
}

/// What the command line asks of the client.
#[derive(Debug)]
pub enum ClientCommand {
    /// One MCP tool call, its data printed.
    Call { tool: String, arguments: JsonValue },
    /// Create a graph from a spec file, run it, follow it to the end.
    CouncilRun { spec_path: String },
    Help,
    /// An operator frame on the operator socket.
    Operator,
}

pub enum CommandView {
    Call(Seq<char>, Json),
    CouncilRun(Seq<char>),
    Help,
    Operator,
}

impl View for ClientCommand {
    type V = CommandView;

    open spec fn view(&self) -> CommandView {
        match self {
            ClientCommand::Call { tool, arguments } => CommandView::Call(tool@, arguments@),
            ClientCommand::CouncilRun { spec_path } => CommandView::CouncilRun(spec_path@),
            ClientCommand::Help => CommandView::Help,
            ClientCommand::Operator => CommandView::Operator,
        }
    }
}

/// The listing limit: the argument after the subcommand when it reads as an
/// `i32`, else 100.
pub open spec fn limit_of(args: Seq<Seq<char>>) -> int {
    if args.len() > 1 {
        match parse_i64_spec(args[1]) {
            Some(v) => if i32::MIN <= v <= i32::MAX {
                v as int
            } else {
                100
            },
            None => 100,
        }
    } else {
        100
    }
}

pub open spec fn one_key(key: Seq<char>, value: Json) -> Json {
    Json::Object(seq![(key, value)])
}

/// The request of each subcommand (the arguments without
/// `--non-interactive`); an error names a missing argument.
pub open spec fn command_spec(args: Seq<Seq<char>>) -> Result<CommandView, Seq<char>> {
    if args.len() == 0 {
        Ok(CommandView::Operator)
    } else {
        let sub = args[0];
        if sub == "status"@ {
            Ok(CommandView::Call("graph_status"@, one_key("resource"@, Json::Str("server"@))))
        } else if sub == "retention-review"@ {
            Ok(CommandView::Call("graph_retention_review"@, one_key("limit"@, Json::Number(int_text(limit_of(args))))))
        } else if sub == "run-triage"@ {
            Ok(CommandView::Call("graph_run_triage"@, one_key("limit"@, Json::Number(int_text(limit_of(args))))))
        } else if sub == "run-wait"@ {
            if args.len() > 1 {
                let timeout = if args.len() > 2 {
                    match parse_u64_spec(args[2]) {
                        Some(t) => Json::Number(int_text(t as int)),
                        None => Json::Null,
                    }
                } else {
                    Json::Null
                };
                Ok(CommandView::Call(
                    "graph_run_wait"@,
                    Json::Object(seq![("run_id"@, Json::Str(args[1])), ("timeout_ms"@, timeout)]),
                ))
            } else {
                Err("run-wait requires <run_id>"@)
            }
        } else if sub == "run-poll"@ {
            if args.len() > 1 {
                Ok(CommandView::Call("graph_run_get"@, one_key("run_id"@, Json::Str(args[1]))))
            } else {
                Err("run-poll requires <run_id>"@)
            }
        } else if sub == "receipt"@ {
            if args.len() > 1 {
                Ok(CommandView::Call("graph_run_receipt"@, one_key("run_id"@, Json::Str(args[1]))))
            } else {
                Err("receipt requires <run_id>"@)
            }
        } else if sub == "council-run"@ {
            if args.len() > 1 {
                Ok(CommandView::CouncilRun(args[1]))
            } else {
                Err("council-run requires <spec.json>"@)
            }
        } else if sub == "help"@ || sub == "--help"@ || sub == "-h"@ {
            Ok(CommandView::Help)
        } else {
            Ok(CommandView::Operator)
        }
    }
}

fn one_key_value(key: &str, value: JsonValue) -> (r: JsonValue)
    ensures
        r@ == one_key(key@, value@),
{
    let ghost v = value@;
    let r = JsonValue::Object(vec![(key.to_owned(), value)]);
    assert(r@->Object_0 =~= seq![(key@, v)]);
    r
}

fn limit_value(args: &Vec<String>) -> (r: JsonValue)
    ensures
        r@ == Json::Number(int_text(limit_of(arg_views(args@)))),
{
    let mut limit: i64 = 100;
    if args.len() > 1 {
        match parse_i64(chars_of(args[1].as_str()).as_slice()) {
            Some(v) => {
                if -2147483648 <= v && v <= 2147483647 {
                    limit = v;
                }
            },
            None => {},
        }
    }
    JsonValue::number_i64(limit)
}

/// Reads the command line (without `--non-interactive`); see
/// `command_spec`.
pub fn client_command(args: &Vec<String>) -> (r: Result<ClientCommand, String>)
    ensures
        match r {
            Ok(c) => command_spec(arg_views(args@)) == Ok::<CommandView, Seq<char>>(c@),
            Err(e) => command_spec(arg_views(args@)) == Err::<CommandView, Seq<char>>(e@),
        },
{
    if args.len() == 0 {
        return Ok(ClientCommand::Operator);
    }
    let sub = args[0].as_str();
    if str_eq(sub, "status") {
        let arguments = one_key_value("resource", JsonValue::string("server"));
        Ok(ClientCommand::Call { tool: "graph_status".to_owned(), arguments })
    } else if str_eq(sub, "retention-review") {
        let arguments = one_key_value("limit", limit_value(args));
        Ok(ClientCommand::Call { tool: "graph_retention_review".to_owned(), arguments })
    } else if str_eq(sub, "run-triage") {
        let arguments = one_key_value("limit", limit_value(args));
        Ok(ClientCommand::Call { tool: "graph_run_triage".to_owned(), arguments })
    } else if str_eq(sub, "run-wait") {
        if args.len() > 1 {
            let timeout = if args.len() > 2 {
                match parse_u64(chars_of(args[2].as_str()).as_slice()) {
                    Some(t) => {
                        let n = JsonValue::number_u64(t);
                        proof {
                            assert(int_text(t as int) == crate::json::decimal(t as nat));
                        }
                        n
                    },
                    None => JsonValue::Null,
                }
            } else {
                JsonValue::Null
            };
            let ghost tv = timeout@;
            let run_id = JsonValue::Str(args[1].clone());
            assert(run_id@ == Json::Str(args@[1]@));
            let arguments = JsonValue::Object(
                vec![("run_id".to_owned(), run_id), ("timeout_ms".to_owned(), timeout)],
            );
            assert(arguments@->Object_0 =~= seq![("run_id"@, Json::Str(args@[1]@)), ("timeout_ms"@, tv)]);
            Ok(ClientCommand::Call { tool: "graph_run_wait".to_owned(), arguments })
        } else {
            Err("run-wait requires <run_id>".to_owned())
        }
    } else if str_eq(sub, "run-poll") {
        if args.len() > 1 {
            let arguments = one_key_value("run_id", JsonValue::Str(args[1].clone()));
            Ok(ClientCommand::Call { tool: "graph_run_get".to_owned(), arguments })
        } else {
            Err("run-poll requires <run_id>".to_owned())
        }
    } else if str_eq(sub, "receipt") {
        if args.len() > 1 {
            let arguments = one_key_value("run_id", JsonValue::Str(args[1].clone()));
            Ok(ClientCommand::Call { tool: "graph_run_receipt".to_owned(), arguments })
        } else {
            Err("receipt requires <run_id>".to_owned())
        }
    } else if str_eq(sub, "council-run") {
        if args.len() > 1 {
            Ok(ClientCommand::CouncilRun { spec_path: args[1].clone() })
        } else {
            Err("council-run requires <spec.json>".to_owned())
        }
    } else if str_eq(sub, "help") || str_eq(sub, "--help") || str_eq(sub, "-h") {
        Ok(ClientCommand::Help)
    } else {
        Ok(ClientCommand::Operator)
    }
}

// ── Council runs ────────────────────────────────────────────────────────

/// The entries of an object without those under `key`.
pub open spec fn without_key(entries: Seq<(Seq<char>, Json)>, key: Seq<char>) -> Seq<(Seq<char>, Json)>
    decreases entries.len(),
{
    if entries.len() == 0 {
        Seq::empty()
    } else if entries.last().0 == key {
        without_key(entries.drop_last(), key)
    } else {
        without_key(entries.drop_last(), key).push(entries.last())
    }
}

/// A council spec file split in two: the graph spec (without its `input`
/// member, when it is an object) and the run's input (`{}` when absent).
pub open spec fn council_parts(spec: Json) -> (Json, Json) {
    let input = match spec.get("input"@) {
        Some(i) => i,
        None => Json::Object(Seq::empty()),
    };
    let graph = match spec {
        Json::Object(entries) => Json::Object(without_key(entries, "input"@)),
        other => other,
    };
    (graph, input)
}

pub fn council_split(spec: &JsonValue) -> (r: (JsonValue, JsonValue))
    ensures
        r.0@ == council_parts(spec@).0,
        r.1@ == council_parts(spec@).1,
{
    let input = match spec.get("input") {
        Some(i) => clone_json(i),
        None => {
            let empty = JsonValue::Object(Vec::new());
            assert(empty@->Object_0 =~= Seq::<(Seq<char>, Json)>::empty());
            empty
        },
    };
    let graph = match spec {
        JsonValue::Object(entries) => {
            let ghost all = spec@->Object_0;
            let mut kept: Vec<(String, JsonValue)> = Vec::new();
            let mut k: usize = 0;
            while k < entries.len()
                invariant
                    k <= entries@.len(),
                    all.len() == entries@.len(),
                    forall|j: int| 0 <= j < entries@.len() ==> #[trigger] all[j] == (entries@[j].0@, entries@[j].1@),
                    kept@.len() == without_key(all.subrange(0, k as int), "input"@).len(),
                    forall|j: int| 0 <= j < kept@.len() ==> (#[trigger] kept@[j]).0@ == without_key(all.subrange(0, k as int), "input"@)[j].0
                        && kept@[j].1@ == without_key(all.subrange(0, k as int), "input"@)[j].1,
                decreases entries.len() - k,
            {
                let ghost pre = all.subrange(0, k + 1);
                assert(pre.drop_last() =~= all.subrange(0, k as int));
                assert(pre.last() == all[k as int]);
                if !str_eq(entries[k].0.as_str(), "input") {
                    kept.push((entries[k].0.clone(), clone_json(&entries[k].1)));
                }
                k += 1;
            }
            assert(all.subrange(0, all.len() as int) =~= all);
            let g = JsonValue::Object(kept);
            assert(g@->Object_0 =~= without_key(all, "input"@));
            g
        },
        _ => clone_json(spec),
    };
    (graph, input)
}

/// The graph a `graph_create` call made: its `graph_id`, else its `name`
/// (the first of the two present decides), when a string.
pub open spec fn created_graph(created: Json) -> Option<Seq<char>> {
    let chosen = match created.get("graph_id"@) {
        Some(g) => Some(g),
        None => created.get("name"@),
    };
    match chosen {
        Some(Json::Str(s)) => Some(s),
        _ => None,
    }
}

pub fn created_graph_id(created: &JsonValue) -> (r: Result<String, String>)
    ensures
        match created_graph(created@) {
            Some(g) => r matches Ok(s) && s@ == g,
            None => r matches Err(e) && e@ == "graph_create returned no graph_id: "@ + json_text(created@),
        },
{
    let chosen = match created.get("graph_id") {
        Some(g) => Some(g),
        None => created.get("name"),
    };
    match chosen {
        Some(JsonValue::Str(s)) => Ok(s.clone()),
        _ => {
            let mut e = "graph_create returned no graph_id: ".to_owned();
            let t = created.to_json_string();
            push_all(&mut e, t.as_str());
            Err(e)
        },
    }
}

pub fn started_run_id(started: &JsonValue) -> (r: Result<String, String>)
    ensures
        match started@.get("run_id"@) {
            Some(Json::Str(id)) => r matches Ok(s) && s@ == id,
            _ => r matches Err(e) && e@ == "graph_run_start returned no run_id: "@ + json_text(started@),
        },
{
    match started.get("run_id") {
        Some(JsonValue::Str(s)) => Ok(s.clone()),
        _ => {
            let mut e = "graph_run_start returned no run_id: ".to_owned();
            let t = started.to_json_string();
            push_all(&mut e, t.as_str());
            Err(e)
        },
    }
}

/// The status a polled run reports (empty when it reports none).
pub fn run_status(state: &JsonValue) -> (r: String)
    ensures
        r@ == (match state@.get("status"@) {
            Some(Json::Str(s)) => s,
            _ => Seq::empty(),
        }),
{
    match state.get("status") {
        Some(JsonValue::Str(s)) => s.clone(),
        _ => String::new(),
    }
}

pub open spec fn is_terminal_run_status_spec(status: Seq<char>) -> bool {
    status == "completed"@ || status == "failed"@ || status == "cancelled"@ || status == "interrupted_non_resumable"@
}

/// Whether a polled run has finished.
pub fn is_terminal_run_status(status: &str) -> (r: bool)
    ensures
        r == is_terminal_run_status_spec(status@),
{
    str_eq(status, "completed") || str_eq(status, "failed") || str_eq(status, "cancelled") || str_eq(
        status,
        "interrupted_non_resumable",
    )
}

/// How many times, and how many seconds apart, a council run is polled.
pub const COUNCIL_POLLS: u32 = 75;

pub const COUNCIL_POLL_SECS: u64 = 8;

// ── Operator frames ─────────────────────────────────────────────────────

/// Where the last `/` in `p` stands, or -1 without one.
pub open spec fn last_slash(p: Seq<char>) -> int
    decreases p.len(),
{
    if p.len() == 0 {
        -1
    } else if p.last() == '/' {
        p.len() - 1
    } else {
        last_slash(p.drop_last())
    }
}

/// The final component of a path, as `Path::file_name` gives it: repeated
/// and trailing separators and `.` components are passed over, and a path
/// that ends in `..`, or has no normal component, has none.
pub open spec fn file_name(p: Seq<char>) -> Option<Seq<char>>
    decreases p.len(),
{
    if p.len() == 0 {
        None
    } else {
        let k = last_slash(p);
        let seg = p.subrange(k + 1, p.len() as int);
        if seg.len() == 0 || seg == "."@ {
            if k < 0 {
                None
            } else {
                proof {
                    lemma_last_slash_in(p);
                }
                file_name(p.subrange(0, k))
            }
        } else if seg == ".."@ {
            None
        } else {
            Some(seg)
        }
    }
}

/// Whether `Path::extension` finds an extension: the file name holds a `.`
/// that is not its first character.
pub open spec fn path_has_extension_spec(p: Seq<char>) -> bool {
    match file_name(p) {
        Some(f) => exists|i: int| 0 < i < f.len() && f[i] == '.',
        None => false,
    }
}

/// The last `/` found lies within the path.
pub proof fn lemma_last_slash_in(p: Seq<char>)
    ensures
        -1 <= last_slash(p) < p.len(),
        last_slash(p) >= 0 ==> p[last_slash(p)] == '/',
    decreases p.len(),
{
    if p.len() > 0 && p.last() != '/' {
        lemma_last_slash_in(p.drop_last());
    }
}

/// A file name is a piece of the path: a path without any `.` has no
/// extension.
pub proof fn lemma_no_dot_no_extension(p: Seq<char>)
    requires
        forall|i: int| 0 <= i < p.len() ==> p[i] != '.',
    ensures
        !path_has_extension_spec(p),
    decreases p.len(),
{
    if p.len() > 0 {
        lemma_last_slash_in(p);
        let k = last_slash(p);
        let seg = p.subrange(k + 1, p.len() as int);
        if seg.len() == 0 || seg == "."@ {
            if k >= 0 {
                let q = p.subrange(0, k);
                assert forall|i: int| 0 <= i < q.len() implies q[i] != '.' by {
                    assert(q[i] == p[i]);
                }
                lemma_no_dot_no_extension(q);
            }
        } else if seg != ".."@ {
            assert forall|i: int| 0 < i < seg.len() implies seg[i] != '.' by {
                assert(seg[i] == p[k + 1 + i]);
            }
        }
    }
}

/// `Path::new(p).extension().is_some()`, as its documentation and that of
/// `Path::file_name` and `Path::components` describe it on Unix
/// (`path_has_extension_spec`).
#[verifier::external_body]
fn path_has_extension(p: &str) -> (r: bool)
    ensures
        r == path_has_extension_spec(p@),
{
    std::path::Path::new(p).extension().is_some()
}

/// What makes the first argument the operator socket: it is not an option,
/// it is a path (it holds a `/`), and it has no extension.
pub open spec fn names_socket(a: Seq<char>) -> bool {
    &&& !starts_with(a, "-"@)
    &&& exists|i: int| 0 <= i < a.len() && a[i] == '/'
    &&& !path_has_extension_spec(a)
}

/// The operator socket named on the command line, if its first argument is
/// one (see `names_socket`). A first argument that is a path without any
/// `.` and does not start with `-` always names it.
pub fn socket_argument(args: &Vec<String>) -> (r: Option<String>)
    ensures
        opt_str(r) == (if args@.len() > 0 && names_socket(args@[0]@) {
            Some(args@[0]@)
        } else {
            None
        }),
        args@.len() > 0 && !starts_with(args@[0]@, "-"@) && (exists|i: int| 0 <= i < args@[0]@.len() && args@[0]@[i] == '/')
            && (forall|i: int| 0 <= i < args@[0]@.len() ==> args@[0]@[i] != '.') ==> r is Some,
{
    if args.len() == 0 {
        return None;
    }
    let a = args[0].as_str();
    let cs = chars_of(a);
    let dash = chars_of("-");
    if starts_with_exec(cs.as_slice(), dash.as_slice()) {
        return None;
    }
    let mut slash = false;
    let mut k: usize = 0;
    while k < cs.len()
        invariant
            k <= cs@.len(),
            cs@ == a@,
            slash == exists|i: int| 0 <= i < k && cs@[i] == '/',
        decreases cs.len() - k,
    {
        if cs[k] == '/' {
            slash = true;
        }
        k += 1;
    }
    proof {
        if forall|i: int| 0 <= i < a@.len() ==> a@[i] != '.' {
            lemma_no_dot_no_extension(a@);
        }
    }
    if !slash || path_has_extension(a) {
        return None;
    }
    Some(args[0].clone())
}

/// The operator request the command line names after the socket: the action,
/// the graph, its expected state digest, the
/// nonce, and optionally the new state and a reason.
#[derive(Debug)]
pub struct OperatorArgs {
    pub action: String,
    pub resource_id: String,
    pub expected_state_digest: String,
    pub nonce: String,
    pub state: Option<String>,
    pub reason: Option<String>,
}

pub open spec fn opt_arg(args: Seq<Seq<char>>, i: int) -> Option<Seq<char>> {
    if i < args.len() {
        Some(args[i])
    } else {
        None
    }
}

pub fn operator_args(rest: &Vec<String>) -> (r: Result<OperatorArgs, String>)
    ensures
        rest@.len() < 2 ==> (r matches Err(e) && e@ == "missing resource ID"@),
        rest@.len() == 2 ==> (r matches Err(e) && e@ == "missing expected state digest"@),
        rest@.len() == 3 ==> (r matches Err(e) && e@ == "missing nonce"@),
        rest@.len() >= 4 ==> (r matches Ok(a) && a.action@ == rest@[0]@ && a.resource_id@ == rest@[1]@
            && a.expected_state_digest@ == rest@[2]@ && a.nonce@ == rest@[3]@
            && opt_str(a.state) == opt_arg(arg_views(rest@), 4) && opt_str(a.reason) == opt_arg(arg_views(rest@), 5)),
{
    if rest.len() < 2 {
        return Err("missing resource ID".to_owned());
    }
    if rest.len() < 3 {
        return Err("missing expected state digest".to_owned());
    }
    if rest.len() < 4 {
        return Err("missing nonce".to_owned());
    }
    let state = if rest.len() > 4 { Some(rest[4].clone()) } else { None };
    let reason = if rest.len() > 5 { Some(rest[5].clone()) } else { None };
    Ok(OperatorArgs {
        action: rest[0].clone(),
        resource_id: rest[1].clone(),
        expected_state_digest: rest[2].clone(),
        nonce: rest[3].clone(),
        state,
        reason,
    })
}

pub open spec fn opt_str(o: Option<String>) -> Option<Seq<char>> {
    match o {
        Some(s) => Some(s@),
        None => None,
    }
}

/// The kind of resource an action targets: runs for `purge_run`, graphs
/// otherwise.
pub fn resource_kind_for(action: &str) -> (r: &'static str)
    ensures
        r@ == (if action@ == "purge_run"@ {
            "run"@
        } else {
            "graph"@
        }),
{
    if str_eq(action, "purge_run") {
        "run"
    } else {
        "graph"
    }
}

/// The decision material a frame carries: the new state and, with it, the
/// reason, as compact JSON; none without a state.
pub open spec fn frame_material_json(state: Option<Seq<char>>, reason: Option<Seq<char>>) -> Option<Json> {
    match (state, reason) {
        (Some(s), Some(why)) => Some(Json::Object(seq![("reason"@, Json::Str(why)), ("state"@, Json::Str(s))])),
        (Some(s), None) => Some(Json::Object(seq![("state"@, Json::Str(s))])),
        _ => None,
    }
}

pub fn frame_material(state: &Option<String>, reason: &Option<String>) -> (r: Option<String>)
    ensures
        match frame_material_json(opt_str(*state), opt_str(*reason)) {
            Some(m) => r matches Some(t) && t@ == json_text(m),
            None => r is None,
        },
{
    match (state, reason) {
        (Some(s), Some(why)) => {
            let v = JsonValue::Object(
                vec![("reason".to_owned(), JsonValue::string(why.as_str())), ("state".to_owned(), JsonValue::string(s.as_str()))],
            );
            assert(v@->Object_0 =~= seq![("reason"@, Json::Str(why@)), ("state"@, Json::Str(s@))]);
            Some(v.to_json_string())
        },
        (Some(s), None) => {
            let v = JsonValue::Object(vec![("state".to_owned(), JsonValue::string(s.as_str()))]);
            assert(v@->Object_0 =~= seq![("state"@, Json::Str(s@))]);
            Some(v.to_json_string())
        },
        _ => None,
    }
}

/// Whether the person at the terminal authorized the request: the answer,
/// trimmed, is `yes`.
pub fn confirmed(answer: &str) -> (r: bool)
    ensures
        r == (trim_spec(answer@) == "yes"@),
{
    let t = trim_chars(chars_of(answer).as_slice());
    let yes = chars_of("yes");
    chars_eq(t.as_slice(), yes.as_slice())
}

/// The largest operator reply the client reads.
pub const MAX_OPERATOR_REPLY: usize = 1048576;

/// The length of the daemon's reply, from its 4-byte prefix; an empty or
/// oversized reply is refused.
pub fn operator_reply_length(header: &[u8]) -> (r: Result<usize, String>)
    requires
        header.len() == 4,
    ensures
        match r {
            Ok(n) => n == be32_value(header@) && 0 < n <= MAX_OPERATOR_REPLY,
            Err(e) => (be32_value(header@) == 0 || be32_value(header@) > MAX_OPERATOR_REPLY)
                && e@ == "invalid operator response frame"@,
        },
{
    let n: u64 = (header[0] as u64) * 0x1000000 + (header[1] as u64) * 0x10000 + (header[2] as u64) * 0x100
        + (header[3] as u64);
    if n == 0 || n > MAX_OPERATOR_REPLY as u64 {
        return Err("invalid operator response frame".to_owned());
    }
    Ok(n as usize)
}

/// The frame the client sends on the operator socket (members in sorted
/// order); the request id is `cli-` and the nonce.
pub open spec fn operator_frame_json(
    a: OperatorArgs,
    resource_kind: Seq<char>,
    issued_at: Seq<char>,
    expires_at: Seq<char>,
    material: Option<Seq<char>>,
) -> Json {
    Json::Object(
        seq![
            ("action"@, Json::Str(a.action@)),
            ("decision_material"@, match material {
                Some(m) => Json::Str(m),
                None => Json::Null,
            }),
            ("expected_state_digest"@, Json::Str(a.expected_state_digest@)),
            ("expires_at"@, Json::Str(expires_at)),
            ("issued_at"@, Json::Str(issued_at)),
            ("nonce"@, Json::Str(a.nonce@)),
            ("protocol"@, Json::Str(PROTOCOL@)),
            ("request_id"@, Json::Str("cli-"@ + a.nonce@)),
            ("resource_id"@, Json::Str(a.resource_id@)),
            ("resource_kind"@, Json::Str(resource_kind)),
        ],
    )
}

/// Builds the operator frame for the command line's request: the resource
/// kind follows the action, the decision material the state and reason.
pub fn operator_frame(a: &OperatorArgs, issued_at: &str, expires_at: &str) -> (r: JsonValue)
    ensures
        r@ == operator_frame_json(
            *a,
            if a.action@ == "purge_run"@ {
                "run"@
            } else {
                "graph"@
            },
            issued_at@,
            expires_at@,
            match frame_material_json(opt_str(a.state), opt_str(a.reason)) {
                Some(m) => Some(json_text(m)),
                None => None,
            },
        ),
{
    let kind = resource_kind_for(a.action.as_str());
    let material = match frame_material(&a.state, &a.reason) {
        Some(t) => JsonValue::Str(t),
        None => JsonValue::Null,
    };
    let ghost mv = material@;
    let mut request_id = "cli-".to_owned();
    push_all(&mut request_id, a.nonce.as_str());
    let rid = JsonValue::Str(request_id);
    assert(rid@ == Json::Str("cli-"@ + a.nonce@));
    let r = JsonValue::Object(
        vec![
            ("action".to_owned(), JsonValue::string(a.action.as_str())),
            ("decision_material".to_owned(), material),
            ("expected_state_digest".to_owned(), JsonValue::string(a.expected_state_digest.as_str())),
            ("expires_at".to_owned(), JsonValue::string(expires_at)),
            ("issued_at".to_owned(), JsonValue::string(issued_at)),
            ("nonce".to_owned(), JsonValue::string(a.nonce.as_str())),
            ("protocol".to_owned(), JsonValue::string(PROTOCOL)),
            ("request_id".to_owned(), rid),
            ("resource_id".to_owned(), JsonValue::string(a.resource_id.as_str())),
            ("resource_kind".to_owned(), JsonValue::string(kind)),
        ],
    );
    assert(r@->Object_0 =~= operator_frame_json(
        *a,
        kind@,
        issued_at@,
        expires_at@,
        match frame_material_json(opt_str(a.state), opt_str(a.reason)) {
            Some(m) => Some(json_text(m)),
            None => None,
        },
    )->Object_0);
    r
}

} // verus!
