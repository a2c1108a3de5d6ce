use std::collections::HashMap;

use deepseek_mcp::model::{McpServerConfig, McpServerDefinition, ToolFilter};
use deepseek_mcp::stdio::{
    build_stdio_state, default_stdio_client, dispatch_stdio_request, retain_server_tools,
    LifecycleStatus, RpcReply, StdioMcpState, StdioRequest,
};
use deepseek_mcp::client::McpManagedClient;
use deepseek_mcp::render::render_reply;
use deepseek_mcp::model::McpToolDescriptor;
use serde_json::Value;

fn fields(pairs: &[(&str, Value)]) -> Value {
    let mut m = serde_json::Map::new();
    for (k, v) in pairs {
        m.insert(k.to_string(), v.clone());
    }
    Value::Object(m)
}

fn s(v: &str) -> Value {
    Value::String(v.to_string())
}

fn config(name: &str, enabled: bool) -> McpServerConfig {
    McpServerConfig {
        name: name.to_string(),
        command: "node".to_string(),
        args: vec!["server.js".to_string()],
        env: HashMap::new(),
        enabled,
    }
}

fn definition(name: &str, enabled: bool) -> McpServerDefinition {
    McpServerDefinition { config: config(name, enabled), filter: ToolFilter::default() }
}

fn state() -> StdioMcpState {
    build_stdio_state(vec![definition("beta", true), definition("alpha", false)])
}

fn server_names(state: &StdioMcpState) -> Vec<(String, bool)> {
    state.lifecycle_snapshot().servers.iter().map(|s| (s.name.clone(), s.running)).collect()
}

fn expect_error(r: Result<(RpcReply, bool), deepseek_mcp::rpc::JsonRpcError>, code: i64, message: &str) {
    match r {
        Err(e) => {
            assert_eq!(e.code, code);
            assert_eq!(e.message, message);
        }
        Ok(_) => panic!("expected an error"),
    }
}

#[test]
fn default_client_answers_health_and_capabilities() {
    let c = default_stdio_client("srv");
    assert_eq!(c.call_tool("health", Value::Null).unwrap(), fields(&[("status", s("ok")), ("server_name", s("srv"))]));
    let caps = c.call_tool("capabilities", Value::Null).unwrap();
    assert_eq!(caps["tools"], Value::Array(vec![s("health"), s("capabilities")]));
    assert_eq!(caps["resources"], Value::Array(vec![s("mcp://srv/health"), s("mcp://srv/capabilities")]));
    let res = c.read_resource("mcp://srv/capabilities").unwrap();
    assert_eq!(res["server_name"], "srv");
    assert_eq!(res["methods"].as_array().unwrap().len(), 9);
    assert_eq!(c.list_resources().unwrap().len(), 2);
}

#[test]
fn built_state_lists_servers_sorted_by_name() {
    let st = state();
    let snap = st.lifecycle_snapshot();
    assert_eq!(snap.status, LifecycleStatus::Running);
    assert_eq!(server_names(&st), vec![("alpha".to_string(), false), ("beta".to_string(), true)]);
    assert_eq!(snap.defined, 2);
    assert_eq!(snap.running, 1);
    assert_eq!(snap.servers[1].command, "node");
    assert_eq!(snap.servers[1].args, vec!["server.js".to_string()]);
}

#[test]
fn later_initial_definition_replaces_earlier() {
    let st = build_stdio_state(vec![definition("x", true), definition("x", false)]);
    let snap = st.lifecycle_snapshot();
    assert_eq!(snap.defined, 1);
    assert_eq!(snap.running, 0);
    assert!(!snap.servers[0].enabled);
}

#[test]
fn initialize_describes_the_server() {
    let mut st = state();
    match dispatch_stdio_request(&mut st, StdioRequest::Initialize) {
        Ok((RpcReply::Describe { methods, lifecycle }, exit)) => {
            assert!(!exit);
            assert_eq!(methods.len(), 13);
            assert_eq!(lifecycle.defined, 2);
        }
        _ => panic!("unexpected reply"),
    }
}

#[test]
fn health_tool_of_running_server() {
    let mut st = state();
    let r = dispatch_stdio_request(
        &mut st,
        StdioRequest::ToolsCall { name: Some("health".to_string()), tool: None, server: Some("beta".to_string()), arguments: Value::Null },
    );
    match r {
        Ok((RpcReply::ToolResult { result }, false)) => {
            assert_eq!(result, fields(&[("status", s("ok")), ("server_name", s("beta"))]));
        }
        _ => panic!("unexpected reply"),
    }
    let r = dispatch_stdio_request(
        &mut st,
        StdioRequest::ToolsCall { name: None, tool: Some("mcp__beta__health".to_string()), server: None, arguments: Value::Null },
    );
    assert!(matches!(r, Ok((RpcReply::ToolResult { .. }, false))));
}

#[test]
fn tool_call_refusals() {
    let mut st = state();
    expect_error(
        dispatch_stdio_request(&mut st, StdioRequest::ToolsCall { name: None, tool: None, server: None, arguments: Value::Null }),
        -32602,
        "missing tool name",
    );
    expect_error(
        dispatch_stdio_request(&mut st, StdioRequest::ToolsCall { name: Some("health".to_string()), tool: None, server: None, arguments: Value::Null }),
        -32602,
        "missing server for unqualified tool",
    );
    expect_error(
        dispatch_stdio_request(&mut st, StdioRequest::ToolsCall { name: Some("health".to_string()), tool: None, server: Some("alpha".to_string()), arguments: Value::Null }),
        -32603,
        "MCP server 'alpha' not available",
    );
    expect_error(
        dispatch_stdio_request(&mut st, StdioRequest::ToolsCall { name: Some("mcp__beta".to_string()), tool: None, server: None, arguments: Value::Null }),
        -32603,
        "invalid qualified MCP tool name: mcp__beta",
    );
    expect_error(
        dispatch_stdio_request(&mut st, StdioRequest::ToolsCall { name: Some("nope".to_string()), tool: None, server: Some("beta".to_string()), arguments: Value::Null }),
        -32603,
        "tool 'nope' not found",
    );
}

#[test]
fn resource_read_takes_server_from_uri() {
    let mut st = state();
    let r = dispatch_stdio_request(&mut st, StdioRequest::ResourcesRead { server: None, uri: "mcp://beta/health".to_string() });
    match r {
        Ok((RpcReply::Resource { resource }, false)) => assert_eq!(resource["server_name"], "beta"),
        _ => panic!("unexpected reply"),
    }
    expect_error(
        dispatch_stdio_request(&mut st, StdioRequest::ResourcesRead { server: None, uri: "file:///x".to_string() }),
        -32602,
        "missing server for resource read",
    );
}

#[test]
fn tools_list_filters_by_server() {
    let mut st = state();
    let _ = dispatch_stdio_request(&mut st, StdioRequest::ServerStart { name: "alpha".to_string() });
    match dispatch_stdio_request(&mut st, StdioRequest::ToolsList { server: None }) {
        Ok((RpcReply::Tools { tools }, false)) => assert_eq!(tools.len(), 2),
        _ => panic!("unexpected reply"),
    }
    // alpha is disabled and does not start
    match dispatch_stdio_request(&mut st, StdioRequest::ToolsList { server: Some("beta".to_string()) }) {
        Ok((RpcReply::Tools { tools }, false)) => {
            assert_eq!(tools.len(), 2);
            assert!(tools.iter().all(|t| t.server_name == "beta"));
            assert_eq!(tools[0].qualified_name, "mcp__beta__health");
        }
        _ => panic!("unexpected reply"),
    }
    match dispatch_stdio_request(&mut st, StdioRequest::ResourcesList { server: Some("alpha".to_string()) }) {
        Ok((RpcReply::Resources { resources }, false)) => assert!(resources.is_empty()),
        _ => panic!("unexpected reply"),
    }
}

#[test]
fn refused_requests_leave_state_unchanged() {
    let mut st = state();
    let before = server_names(&st);
    expect_error(
        dispatch_stdio_request(&mut st, StdioRequest::ServerStart { name: "ghost".to_string() }),
        -32602,
        "server 'ghost' is not defined",
    );
    expect_error(
        dispatch_stdio_request(&mut st, StdioRequest::ServerStart { name: "alpha".to_string() }),
        -32602,
        "server 'alpha' is disabled",
    );
    expect_error(
        dispatch_stdio_request(&mut st, StdioRequest::ServerUnregister { name: "ghost".to_string() }),
        -32602,
        "server 'ghost' is not defined",
    );
    expect_error(
        dispatch_stdio_request(
            &mut st,
            StdioRequest::ServerRegister { server: config("  ", true), filter: ToolFilter::default(), start: true },
        ),
        -32602,
        "server.name must not be empty",
    );
    assert_eq!(server_names(&st), before);
}

#[test]
fn register_start_stop_unregister_cycle() {
    let mut st = state();
    let r = dispatch_stdio_request(
        &mut st,
        StdioRequest::ServerRegister { server: config("gamma", true), filter: ToolFilter::default(), start: false },
    );
    match r {
        Ok((RpcReply::Lifecycle { lifecycle }, false)) => {
            assert_eq!(lifecycle.defined, 3);
            assert_eq!(lifecycle.running, 1);
        }
        _ => panic!("unexpected reply"),
    }
    let r = dispatch_stdio_request(&mut st, StdioRequest::ServerStart { name: "gamma".to_string() });
    assert!(matches!(r, Ok((RpcReply::Lifecycle { .. }, false))));
    assert_eq!(
        server_names(&st),
        vec![("alpha".to_string(), false), ("beta".to_string(), true), ("gamma".to_string(), true)]
    );
    let r = dispatch_stdio_request(&mut st, StdioRequest::ServerStop { name: "beta".to_string() });
    assert!(r.is_ok());
    expect_error(
        dispatch_stdio_request(&mut st, StdioRequest::ToolsCall { name: Some("health".to_string()), tool: None, server: Some("beta".to_string()), arguments: Value::Null }),
        -32603,
        "MCP server 'beta' not available",
    );
    let r = dispatch_stdio_request(&mut st, StdioRequest::ServerUnregister { name: "gamma".to_string() });
    match r {
        Ok((RpcReply::Lifecycle { lifecycle }, false)) => {
            assert_eq!(lifecycle.defined, 2);
            assert_eq!(lifecycle.running, 0);
        }
        _ => panic!("unexpected reply"),
    }
}

#[test]
fn stop_of_unknown_server_succeeds() {
    let mut st = state();
    let r = dispatch_stdio_request(&mut st, StdioRequest::ServerStop { name: "ghost".to_string() });
    match r {
        Ok((RpcReply::Lifecycle { lifecycle }, false)) => assert_eq!(lifecycle.defined, 2),
        _ => panic!("unexpected reply"),
    }
}

#[test]
fn reregister_replaces_definition() {
    let mut st = state();
    let _ = dispatch_stdio_request(
        &mut st,
        StdioRequest::ServerRegister { server: config("beta", false), filter: ToolFilter::default(), start: true },
    );
    let snap = st.lifecycle_snapshot();
    assert_eq!(snap.defined, 2);
    assert_eq!(snap.running, 0);
    assert!(!snap.servers[1].enabled);
}

#[test]
fn shutdown_asks_to_exit() {
    let mut st = state();
    match dispatch_stdio_request(&mut st, StdioRequest::Shutdown) {
        Ok((RpcReply::Shutdown { lifecycle }, exit)) => {
            assert!(exit);
            assert_eq!(lifecycle.status, LifecycleStatus::ShuttingDown);
            assert_eq!(lifecycle.status.as_str(), "shutting_down");
        }
        _ => panic!("unexpected reply"),
    }
    let r = dispatch_stdio_request(&mut st, StdioRequest::Healthz);
    assert!(matches!(r, Ok((RpcReply::Health { .. }, false))));
}

#[test]
fn finish_returns_definitions_sorted() {
    let st = build_stdio_state(vec![definition("zeta", true), definition("alpha", false), definition("mid", true)]);
    let defs = st.finish();
    let names: Vec<&str> = defs.iter().map(|d| d.config.name.as_str()).collect();
    assert_eq!(names, vec!["alpha", "mid", "zeta"]);
}

#[test]
fn retain_server_tools_keeps_order() {
    let t = |server: &str, tool: &str| McpToolDescriptor {
        server_name: server.to_string(),
        tool_name: tool.to_string(),
        qualified_name: tool.to_string(),
        description: None,
    };
    let tools = vec![t("a", "1"), t("b", "2"), t("a", "3")];
    let kept = retain_server_tools(tools, Some("a"));
    let names: Vec<&str> = kept.iter().map(|d| d.tool_name.as_str()).collect();
    assert_eq!(names, vec!["1", "3"]);
}

#[test]
fn registered_filter_applies_to_tools_list() {
    let mut st = build_stdio_state(vec![]);
    let filter = ToolFilter { allow: vec![], deny: vec!["capabilities".to_string()] };
    let r = dispatch_stdio_request(&mut st, StdioRequest::ServerRegister { server: config("f", true), filter, start: true });
    assert!(r.is_ok());
    match dispatch_stdio_request(&mut st, StdioRequest::ToolsList { server: None }) {
        Ok((RpcReply::Tools { tools }, false)) => {
            let names: Vec<&str> = tools.iter().map(|t| t.tool_name.as_str()).collect();
            assert_eq!(names, vec!["health"]);
        }
        _ => panic!("unexpected reply"),
    }
}

#[test]
fn started_server_uses_its_definition_filter() {
    let def = McpServerDefinition {
        config: config("g", true),
        filter: ToolFilter { allow: vec!["capabilities".to_string()], deny: vec![] },
    };
    let mut st = build_stdio_state(vec![def]);
    let _ = dispatch_stdio_request(&mut st, StdioRequest::ServerStop { name: "g".to_string() });
    let _ = dispatch_stdio_request(&mut st, StdioRequest::ServerStart { name: "g".to_string() });
    match dispatch_stdio_request(&mut st, StdioRequest::ToolsList { server: Some("g".to_string()) }) {
        Ok((RpcReply::Tools { tools }, false)) => {
            assert_eq!(tools.len(), 1);
            assert_eq!(tools[0].tool_name, "capabilities");
        }
        _ => panic!("unexpected reply"),
    }
}

#[test]
fn unsupported_method_is_refused() {
    let mut st = state();
    let before = server_names(&st);
    expect_error(
        dispatch_stdio_request(&mut st, StdioRequest::Unsupported { method: "tools/delete".to_string() }),
        -32601,
        "unsupported method: tools/delete",
    );
    assert_eq!(server_names(&st), before);
}

#[test]
fn stop_of_disabled_server_renders_counts() {
    let mut st = build_stdio_state(vec![definition("a", false)]);
    match dispatch_stdio_request(&mut st, StdioRequest::ServerStop { name: "a".to_string() }) {
        Ok((reply, false)) => {
            let v = render_reply(reply);
            assert_eq!(v["lifecycle"]["counts"]["defined"], 1);
            assert_eq!(v["lifecycle"]["counts"]["running"], 0);
            assert_eq!(v["lifecycle"]["servers"][0]["running"], false);
            assert_eq!(v["lifecycle"]["servers"][0]["name"], "a");
            assert_eq!(v["lifecycle"]["servers"][0]["args"], Value::Array(vec![s("server.js")]));
            assert_eq!(v["lifecycle"]["status"], "running");
        }
        _ => panic!("unexpected reply"),
    }
}

#[test]
fn rendered_replies_have_their_fields() {
    let mut st = state();
    let (reply, _) = dispatch_stdio_request(&mut st, StdioRequest::Initialize).ok().unwrap();
    let v = render_reply(reply);
    assert_eq!(v["server"], "deepseek-mcp");
    assert_eq!(v["transport"], "stdio");
    assert_eq!(v["methods"].as_array().unwrap().len(), 13);
    let (reply, _) = dispatch_stdio_request(&mut st, StdioRequest::Healthz).ok().unwrap();
    let v = render_reply(reply);
    assert_eq!(v["status"], "ok");
    assert_eq!(v["service"], "deepseek-mcp");
    let (reply, _) = dispatch_stdio_request(&mut st, StdioRequest::ToolsList { server: None }).ok().unwrap();
    let v = render_reply(reply);
    assert_eq!(v["tools"][0]["qualified_name"], "mcp__beta__health");
    assert!(v["tools"][0]["description"].is_null());
    let (reply, _) = dispatch_stdio_request(&mut st, StdioRequest::ResourcesList { server: None }).ok().unwrap();
    let v = render_reply(reply);
    assert_eq!(v["resources"][0]["uri"], "mcp://beta/health");
    let (reply, exit) = dispatch_stdio_request(&mut st, StdioRequest::Shutdown).ok().unwrap();
    assert!(exit);
    let v = render_reply(reply);
    assert_eq!(v["ok"], true);
    assert_eq!(v["lifecycle"]["status"], "shutting_down");
}
