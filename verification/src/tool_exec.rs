//! Graph tool definitions as tool-runtime descriptors.
//!
//! Graph tool entries use OpenAI's `{name, description, parameters}` shape,
//! optionally wrapped as `{"type": "function", "function": {...}}`; the
//! runtime needs a descriptor with its own metadata. Graph tools are local,
//! read-only, side-effect free and idempotent.
use vstd::prelude::*;
use crate::json::{clone_json, decimal, Json, JsonValue};

verus! {

/// The function part of a tool entry: its `function` member, else the
/// entry itself.
pub open spec fn tool_function(value: Json) -> Json {
    match value.get("function"@) {
        Some(f) => f,
        None => value,
    }
}

/// The name of a tool entry's function, when it is a string.
pub open spec fn tool_name_of(value: Json) -> Option<Seq<char>> {
    match tool_function(value).get("name"@) {
        Some(Json::Str(n)) => Some(n),
        _ => None,
    }
}

/// The runtime descriptor of a named tool entry (members in sorted order).
pub open spec fn descriptor_json(name: Seq<char>, value: Json) -> Json {
    let function = tool_function(value);
    Json::Object(
        seq![
            ("approval_kind"@, Json::Str("none"@)),
            ("backend_kind"@, Json::Str("local_function"@)),
            ("description"@, match function.get("description"@) {
                Some(d) => d,
                None => Json::Null,
            }),
            ("exposure_mode"@, Json::Str("public"@)),
            ("idempotency_class"@, Json::Str("idempotent"@)),
            ("input_schema"@, match function.get("parameters"@) {
                Some(p) => p,
                None => Json::Object(seq![("type"@, Json::Str("object"@))]),
            }),
            ("mcp_surface_kind"@, Json::Str("none"@)),
            ("name"@, Json::Str(name)),
            ("output_mode"@, Json::Str("structured_json"@)),
            ("provider_payload"@, value),
            ("read_only"@, Json::Bool(true)),
            ("side_effect_class"@, Json::Str("none"@)),
            ("timeout_ms"@, Json::Number(decimal(120000))),
            ("version"@, Json::Str("1"@)),
        ],
    )
}

/// The descriptor of one tool entry; an entry without a function name is
/// refused.
pub fn tool_descriptor(value: &JsonValue) -> (r: Result<JsonValue, String>)
    ensures
        match tool_name_of(value@) {
            Some(n) => r matches Ok(d) && d@ == descriptor_json(n, value@),
            None => r matches Err(e) && e@ == "tool definition missing function.name"@,
        },
{
    let function = match value.get("function") {
        Some(f) => f,
        None => value,
    };
    assert(function@ == tool_function(value@));
    let name = match function.get("name") {
        Some(JsonValue::Str(n)) => n.clone(),
        _ => return Err("tool definition missing function.name".to_owned()),
    };
    let description = match function.get("description") {
        Some(d) => clone_json(d),
        None => JsonValue::Null,
    };
    let schema = match function.get("parameters") {
        Some(p) => clone_json(p),
        None => {
            let s = JsonValue::Object(vec![("type".to_owned(), JsonValue::string("object"))]);
            assert(s@->Object_0 =~= seq![("type"@, Json::Str("object"@))]);
            s
        },
    };
    assert(description@ == match tool_function(value@).get("description"@) {
        Some(x) => x,
        None => Json::Null,
    });
    assert(schema@ == match tool_function(value@).get("parameters"@) {
        Some(p) => p,
        None => Json::Object(seq![("type"@, Json::Str("object"@))]),
    });
    let read_only = JsonValue::Bool(true);
    assert(read_only@ == Json::Bool(true));
    let ghost n = name@;
    let d = JsonValue::Object(
        vec![
            ("approval_kind".to_owned(), JsonValue::string("none")),
            ("backend_kind".to_owned(), JsonValue::string("local_function")),
            ("description".to_owned(), description),
            ("exposure_mode".to_owned(), JsonValue::string("public")),
            ("idempotency_class".to_owned(), JsonValue::string("idempotent")),
            ("input_schema".to_owned(), schema),
            ("mcp_surface_kind".to_owned(), JsonValue::string("none")),
            ("name".to_owned(), JsonValue::Str(name)),
            ("output_mode".to_owned(), JsonValue::string("structured_json")),
            ("provider_payload".to_owned(), clone_json(value)),
            ("read_only".to_owned(), read_only),
            ("side_effect_class".to_owned(), JsonValue::string("none")),
            ("timeout_ms".to_owned(), JsonValue::number_u64(120000)),
            ("version".to_owned(), JsonValue::string("1")),
        ],
    );
    assert(d@->Object_0[7].1 == Json::Str(n));
    assert(d@->Object_0 =~= descriptor_json(n, value@)->Object_0);
    Ok(d)
}

/// The descriptors of all tool entries, in order; the first entry without a
/// function name refuses the whole set.
pub fn tool_descriptors(tools: &Vec<JsonValue>) -> (r: Result<Vec<JsonValue>, String>)
    ensures
        match r {
            Ok(ds) => ds@.len() == tools@.len() && forall|j: int| 0 <= j < tools@.len() ==>
                (tool_name_of(#[trigger] tools@[j]@) matches Some(n) && ds@[j]@ == descriptor_json(n, tools@[j]@)),
            Err(e) => e@ == "tool definition missing function.name"@ && exists|j: int| 0 <= j < tools@.len()
                && (tool_name_of(#[trigger] tools@[j]@) is None),
        },
{
    let mut out: Vec<JsonValue> = Vec::new();
    let mut k: usize = 0;
    while k < tools.len()
        invariant
            k <= tools@.len(),
            out@.len() == k,
            forall|j: int| 0 <= j < k ==> (tool_name_of(#[trigger] tools@[j]@) matches Some(n) && out@[j]@
                == descriptor_json(n, tools@[j]@)),
        decreases tools.len() - k,
    {
        match tool_descriptor(&tools[k]) {
            Ok(d) => out.push(d),
            Err(e) => {
                assert(tool_name_of(tools@[k as int]@) is None);
                return Err(e);
            },
        }
        k += 1;
    }
    Ok(out)
}

/// What a graph tool answers when the loop calls it: the call is forwarded
/// to the MCP tool runtime, which executes it.
pub open spec fn forwarded_json(tool: Seq<char>, arguments: Json) -> Json {
    Json::Object(
        seq![
            ("arguments"@, arguments),
            ("note"@, Json::Str("graph tool execution delegated to MCP runtime"@)),
            ("status"@, Json::Str("forwarded"@)),
            ("tool"@, Json::Str(tool)),
        ],
    )
}

pub fn forwarded_result(tool: &str, arguments: JsonValue) -> (r: JsonValue)
    ensures
        r@ == forwarded_json(tool@, arguments@),
{
    let ghost a = arguments@;
    let r = JsonValue::Object(
        vec![
            ("arguments".to_owned(), arguments),
            ("note".to_owned(), JsonValue::string("graph tool execution delegated to MCP runtime")),
            ("status".to_owned(), JsonValue::string("forwarded")),
            ("tool".to_owned(), JsonValue::string(tool)),
        ],
    );
    assert(r@->Object_0 =~= forwarded_json(tool@, a)->Object_0);
    r
}

} // verus!
