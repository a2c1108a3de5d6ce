use deepseek_mcp::json::params_or_object;
use deepseek_mcp::rpc::{
    check_jsonrpc_version, default_rpc_methods, jsonrpc_error, jsonrpc_result, JsonRpcError, RpcMethod,
};
use serde_json::Value;

fn obj(pairs: &[(&str, Value)]) -> Value {
    let mut m = serde_json::Map::new();
    for (k, v) in pairs {
        m.insert(k.to_string(), v.clone());
    }
    Value::Object(m)
}

#[test]
fn jsonrpc_error_codes() {
    assert_eq!(JsonRpcError::parse_error("x").code, -32700);
    assert_eq!(JsonRpcError::invalid_request("x").code, -32600);
    assert_eq!(JsonRpcError::method_not_found("m").code, -32601);
    assert_eq!(JsonRpcError::invalid_params("x").code, -32602);
    assert_eq!(JsonRpcError::internal("x").code, -32603);
}

#[test]
fn jsonrpc_error_messages() {
    assert_eq!(JsonRpcError::method_not_found("m").message, "unsupported method: m");
    assert_eq!(JsonRpcError::internal("boom").message, "boom");
    assert!(JsonRpcError::invalid_params("x").data.is_none());
}

#[test]
fn jsonrpc_result_structure() {
    let result = jsonrpc_result(Some(Value::from(1)), obj(&[("ok", Value::Bool(true))]));
    assert_eq!(result["jsonrpc"], "2.0");
    assert_eq!(result["id"], 1);
    assert_eq!(result["result"]["ok"], true);
}

#[test]
fn jsonrpc_error_structure() {
    let err = jsonrpc_error(Some(Value::from(2)), JsonRpcError::internal("fail"));
    assert_eq!(err["jsonrpc"], "2.0");
    assert_eq!(err["id"], 2);
    assert_eq!(err["error"]["code"], -32603);
    assert_eq!(err["error"]["message"], "fail");
}

#[test]
fn jsonrpc_error_data_is_null_when_absent() {
    let err = jsonrpc_error(None, JsonRpcError::parse_error("bad"));
    assert!(err["id"].is_null());
    assert!(err["error"]["data"].is_null());
    assert_eq!(err.as_object().unwrap().len(), 3);
}

#[test]
fn jsonrpc_null_id_when_missing() {
    let result = jsonrpc_result(None, obj(&[]));
    assert!(result["id"].is_null());
}

#[test]
fn jsonrpc_version_check() {
    assert!(check_jsonrpc_version(None).is_ok());
    assert!(check_jsonrpc_version(Some("2.0")).is_ok());
    let err = check_jsonrpc_version(Some("1.0")).unwrap_err();
    assert_eq!(err.code, -32600);
    assert_eq!(err.message, "jsonrpc version must be 2.0");
}

#[test]
fn rpc_method_names_and_aliases() {
    assert_eq!(RpcMethod::from_name("initialize"), Some(RpcMethod::Initialize));
    assert_eq!(RpcMethod::from_name("capabilities"), Some(RpcMethod::Initialize));
    assert_eq!(RpcMethod::from_name("servers/list"), Some(RpcMethod::ServerList));
    assert_eq!(RpcMethod::from_name("server/unregister"), Some(RpcMethod::ServerUnregister));
    assert_eq!(RpcMethod::from_name("shutdown"), Some(RpcMethod::Shutdown));
    assert_eq!(RpcMethod::from_name("tools/delete"), None);
}

#[test]
fn default_rpc_methods_lists_every_method() {
    let methods = default_rpc_methods();
    assert_eq!(methods.len(), 13);
    assert_eq!(methods[0], "initialize");
    assert_eq!(methods[12], "shutdown");
    assert!(methods.iter().all(|m| RpcMethod::from_name(m).is_some()));
}

#[test]
fn params_or_object_replaces_null_only() {
    assert_eq!(params_or_object(Value::Null), obj(&[]));
    assert_eq!(params_or_object(Value::Bool(false)), Value::Bool(false));
}
