//! JSON-RPC framing of the stdio server: errors, envelopes, method names.

use serde_json::Value;
use vstd::prelude::*;

use crate::json::{
    field_pairs, json_from_option, json_i64, json_integer, json_object, json_object_of, json_option,
    json_string, json_text,
};
use crate::text::str_eq;

verus! {

/// Code of a request that is not valid JSON.
pub const PARSE_ERROR: i64 = -32700;

/// Code of a request that is not a valid JSON-RPC request.
pub const INVALID_REQUEST: i64 = -32600;

/// Code of a request for a method the server does not have.
pub const METHOD_NOT_FOUND: i64 = -32601;

/// Code of a request whose parameters are not acceptable.
pub const INVALID_PARAMS: i64 = -32602;

/// Code of a request that failed inside the server.
pub const INTERNAL_ERROR: i64 = -32603;

/// A JSON-RPC error: code, message and optional data.
#[derive(Debug)]
pub struct JsonRpcError {
    pub code: i64,
    pub message: String,
    pub data: Option<Value>,
}

/// The mathematical content of an error.
pub struct JsonRpcErrorView {
    pub code: i64,
    pub message: Seq<char>,
    pub data: Option<Value>,
}

impl View for JsonRpcError {
    type V = JsonRpcErrorView;

    open spec fn view(&self) -> JsonRpcErrorView {
        JsonRpcErrorView { code: self.code, message: self.message@, data: self.data }
    }
}

/// The error with this code and message and no data.
pub open spec fn rpc_error(code: i64, message: Seq<char>) -> JsonRpcErrorView {
    JsonRpcErrorView { code, message, data: None }
}

impl JsonRpcError {
    /// The request is not valid JSON.
    pub fn parse_error(message: &str) -> (e: Self)
        ensures
            e@ == rpc_error(PARSE_ERROR, message@),
    {
        JsonRpcError { code: PARSE_ERROR, message: String::from_str(message), data: None }
    }

    /// The request is not a valid JSON-RPC request.
    pub fn invalid_request(message: &str) -> (e: Self)
        ensures
            e@ == rpc_error(INVALID_REQUEST, message@),
    {
        JsonRpcError { code: INVALID_REQUEST, message: String::from_str(message), data: None }
    }

    /// The method is not one the server has.
    pub fn method_not_found(method: &str) -> (e: Self)
        ensures
            e@ == rpc_error(METHOD_NOT_FOUND, "unsupported method: "@ + method@),
    {
        let mut message = String::from_str("unsupported method: ");
        message.append(method);
        JsonRpcError { code: METHOD_NOT_FOUND, message, data: None }
    }

    /// The parameters are not acceptable.
    pub fn invalid_params(message: &str) -> (e: Self)
        ensures
            e@ == rpc_error(INVALID_PARAMS, message@),
    {
        JsonRpcError { code: INVALID_PARAMS, message: String::from_str(message), data: None }
    }

    /// The request failed inside the server.
    pub fn internal(message: &str) -> (e: Self)
        ensures
            e@ == rpc_error(INTERNAL_ERROR, message@),
    {
        JsonRpcError { code: INTERNAL_ERROR, message: String::from_str(message), data: None }
    }
}

/// `"2.0"`, the protocol version every envelope carries.
pub open spec fn rpc_version() -> Seq<char> {
    "2.0"@
}

/// `{"jsonrpc": "2.0", "id": <id or null>, "result": <result>}`.
pub open spec fn result_envelope(id: Option<Value>, result: Value) -> Value {
    json_object_of(
        seq![
            ("jsonrpc"@, json_text(rpc_version())),
            ("id"@, json_option(id)),
            ("result"@, result),
        ],
    )
}

/// `{"jsonrpc": "2.0", "id": <id or null>, "error": {"code", "message", "data"}}`.
pub open spec fn error_envelope(id: Option<Value>, err: JsonRpcErrorView) -> Value {
    json_object_of(
        seq![
            ("jsonrpc"@, json_text(rpc_version())),
            ("id"@, json_option(id)),
            (
                "error"@,
                json_object_of(
                    seq![
                        ("code"@, json_integer(err.code)),
                        ("message"@, json_text(err.message)),
                        ("data"@, json_option(err.data)),
                    ],
                ),
            ),
        ],
    )
}

/// The response that carries `result` for the request `id`.
pub fn jsonrpc_result(id: Option<Value>, result: Value) -> (v: Value)
    ensures
        v == result_envelope(id, result),
{
    let mut fields: Vec<(String, Value)> = Vec::new();
    fields.push((String::from_str("jsonrpc"), json_string(String::from_str("2.0"))));
    fields.push((String::from_str("id"), json_from_option(id)));
    fields.push((String::from_str("result"), result));
    proof {
        assert(field_pairs(fields@) =~= seq![
            ("jsonrpc"@, json_text(rpc_version())),
            ("id"@, json_option(id)),
            ("result"@, result),
        ]);
    }
    json_object(fields)
}

/// The response that reports `err` for the request `id`.
pub fn jsonrpc_error(id: Option<Value>, err: JsonRpcError) -> (v: Value)
    ensures
        v == error_envelope(id, err@),
{
    let ghost ev = err@;
    let JsonRpcError { code, message, data } = err;
    let mut inner: Vec<(String, Value)> = Vec::new();
    inner.push((String::from_str("code"), json_i64(code)));
    inner.push((String::from_str("message"), json_string(message)));
    inner.push((String::from_str("data"), json_from_option(data)));
    proof {
        assert(field_pairs(inner@) =~= seq![
            ("code"@, json_integer(ev.code)),
            ("message"@, json_text(ev.message)),
            ("data"@, json_option(ev.data)),
        ]);
    }
    let error_value = json_object(inner);
    let mut fields: Vec<(String, Value)> = Vec::new();
    fields.push((String::from_str("jsonrpc"), json_string(String::from_str("2.0"))));
    fields.push((String::from_str("id"), json_from_option(id)));
    fields.push((String::from_str("error"), error_value));
    proof {
        assert(field_pairs(fields@) =~= seq![
            ("jsonrpc"@, json_text(rpc_version())),
            ("id"@, json_option(id)),
            ("error"@, error_value),
        ]);
    }
    json_object(fields)
}

/// A request may name the protocol version; any name but `2.0` is refused.
pub fn check_jsonrpc_version(version: Option<&str>) -> (r: Result<(), JsonRpcError>)
    ensures
        match version {
            Some(v) if v@ != rpc_version() => r matches Err(e) && e@ == rpc_error(
                INVALID_REQUEST,
                "jsonrpc version must be 2.0"@,
            ),
            _ => r is Ok,
        },
{
    match version {
        Some(v) => {
            if str_eq(v, "2.0") {
                Ok(())
            } else {
                Err(JsonRpcError::invalid_request("jsonrpc version must be 2.0"))
            }
        },
        None => Ok(()),
    }
}

/// The methods the stdio server answers.
#[derive(Debug, Clone, Copy, PartialEq, Eq, Structural)]
pub enum RpcMethod {
    Initialize,
    Healthz,
    ToolsList,
    ToolsCall,
    ResourcesList,
    ResourcesRead,
    ServerList,
    ServerRegister,
    ServerStart,
    ServerStop,
    ServerUnregister,
    Shutdown,
}

/// The method a request names (`capabilities` is `initialize`; `servers/...` is
/// `server/...`).
pub open spec fn method_named(name: Seq<char>) -> Option<RpcMethod> {
    if name == "initialize"@ || name == "capabilities"@ {
        Some(RpcMethod::Initialize)
    } else if name == "healthz"@ {
        Some(RpcMethod::Healthz)
    } else if name == "tools/list"@ {
        Some(RpcMethod::ToolsList)
    } else if name == "tools/call"@ {
        Some(RpcMethod::ToolsCall)
    } else if name == "resources/list"@ {
        Some(RpcMethod::ResourcesList)
    } else if name == "resources/read"@ {
        Some(RpcMethod::ResourcesRead)
    } else if name == "server/list"@ || name == "servers/list"@ {
        Some(RpcMethod::ServerList)
    } else if name == "server/register"@ || name == "servers/register"@ {
        Some(RpcMethod::ServerRegister)
    } else if name == "server/start"@ || name == "servers/start"@ {
        Some(RpcMethod::ServerStart)
    } else if name == "server/stop"@ || name == "servers/stop"@ {
        Some(RpcMethod::ServerStop)
    } else if name == "server/unregister"@ || name == "servers/unregister"@ {
        Some(RpcMethod::ServerUnregister)
    } else if name == "shutdown"@ {
        Some(RpcMethod::Shutdown)
    } else {
        None
    }
}

impl RpcMethod {
    /// The method a request names, if the server has it.
    pub fn from_name(name: &str) -> (r: Option<RpcMethod>)
        ensures
            r == method_named(name@),
    {
        if str_eq(name, "initialize") || str_eq(name, "capabilities") {
            Some(RpcMethod::Initialize)
        } else if str_eq(name, "healthz") {
            Some(RpcMethod::Healthz)
        } else if str_eq(name, "tools/list") {
            Some(RpcMethod::ToolsList)
        } else if str_eq(name, "tools/call") {
            Some(RpcMethod::ToolsCall)
        } else if str_eq(name, "resources/list") {
            Some(RpcMethod::ResourcesList)
        } else if str_eq(name, "resources/read") {
            Some(RpcMethod::ResourcesRead)
        } else if str_eq(name, "server/list") || str_eq(name, "servers/list") {
            Some(RpcMethod::ServerList)
        } else if str_eq(name, "server/register") || str_eq(name, "servers/register") {
            Some(RpcMethod::ServerRegister)
        } else if str_eq(name, "server/start") || str_eq(name, "servers/start") {
            Some(RpcMethod::ServerStart)
        } else if str_eq(name, "server/stop") || str_eq(name, "servers/stop") {
            Some(RpcMethod::ServerStop)
        } else if str_eq(name, "server/unregister") || str_eq(name, "servers/unregister") {
            Some(RpcMethod::ServerUnregister)
        } else if str_eq(name, "shutdown") {
            Some(RpcMethod::Shutdown)
        } else {
            None
        }
    }
}

/// The names of the methods the server advertises, in the order it advertises them.
pub open spec fn rpc_method_names() -> Seq<Seq<char>> {
    seq![
        "initialize"@,
        "healthz"@,
        "capabilities"@,
        "tools/list"@,
        "tools/call"@,
        "resources/list"@,
        "resources/read"@,
        "server/list"@,
        "server/register"@,
        "server/start"@,
        "server/stop"@,
        "server/unregister"@,
        "shutdown"@,
    ]
}

/// The method names the server advertises.
pub fn default_rpc_methods() -> (r: Vec<&'static str>)
    ensures
        r@.map_values(|s: &str| s@) == rpc_method_names(),
{
    let v: Vec<&'static str> = vec![
        "initialize",
        "healthz",
        "capabilities",
        "tools/list",
        "tools/call",
        "resources/list",
        "resources/read",
        "server/list",
        "server/register",
        "server/start",
        "server/stop",
        "server/unregister",
        "shutdown",
    ];
    proof {
        assert(v@.map_values(|s: &str| s@) =~= rpc_method_names());
    }
    v
}

} // verus!
