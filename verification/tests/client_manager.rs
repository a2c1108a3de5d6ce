use std::collections::HashMap;

use deepseek_mcp::client::{InMemoryMcpClient, McpManagedClient};
use deepseek_mcp::manager::McpManager;
use deepseek_mcp::model::{McpServerConfig, McpStartupStatus, ToolFilter};
use serde_json::Value;

fn object(pairs: &[(&str, Value)]) -> Value {
    let mut m = serde_json::Map::new();
    for (k, v) in pairs {
        m.insert(k.to_string(), v.clone());
    }
    Value::Object(m)
}

fn text(s: &str) -> Value {
    Value::String(s.to_string())
}

fn sample_config(name: &str, enabled: bool) -> McpServerConfig {
    McpServerConfig {
        name: name.to_string(),
        command: "echo".to_string(),
        args: vec![],
        env: HashMap::new(),
        enabled,
    }
}

#[test]
fn in_memory_client_lists_tools() {
    let client = InMemoryMcpClient::default()
        .with_tool("ping", object(&[("pong", Value::Bool(true))]))
        .with_tool("echo", object(&[("ok", Value::Bool(true))]));
    let tools = client.list_tools().unwrap();
    assert_eq!(tools.len(), 2);
    assert!(tools.iter().all(|t| t.server_name == "in-memory"));
}

#[test]
fn in_memory_client_lists_tools_in_insertion_order() {
    let client = InMemoryMcpClient::default()
        .with_tool("ping", Value::Null)
        .with_tool("echo", Value::Null)
        .with_tool("ping", Value::Bool(true));
    let tools = client.list_tools().unwrap();
    let names: Vec<&str> = tools.iter().map(|t| t.tool_name.as_str()).collect();
    assert_eq!(names, vec!["ping", "echo"]);
    assert_eq!(tools[0].qualified_name, "ping");
    assert!(tools[0].description.is_none());
    assert_eq!(client.call_tool("ping", Value::Null).unwrap(), Value::Bool(true));
}

#[test]
fn in_memory_client_calls_existing_tool() {
    let client = InMemoryMcpClient::default().with_tool("ping", object(&[("pong", Value::Bool(true))]));
    let result = client.call_tool("ping", object(&[])).unwrap();
    assert_eq!(result, object(&[("pong", Value::Bool(true))]));
}

#[test]
fn in_memory_client_call_missing_tool_returns_error() {
    let client = InMemoryMcpClient::default();
    let err = client.call_tool("nonexistent", object(&[])).unwrap_err();
    assert!(err.message().contains("nonexistent"));
    assert_eq!(err.message(), "tool 'nonexistent' not found");
}

#[test]
fn in_memory_client_lists_resources() {
    let client = InMemoryMcpClient::default()
        .with_resource("mcp://test/health", object(&[("status", text("ok"))]));
    let resources = client.list_resources().unwrap();
    assert_eq!(resources.len(), 1);
    assert_eq!(resources[0].uri, "mcp://test/health");
}

#[test]
fn in_memory_client_reads_resource() {
    let client = InMemoryMcpClient::default()
        .with_resource("mcp://test/status", object(&[("up", Value::Bool(true))]));
    let val = client.read_resource("mcp://test/status").unwrap();
    assert_eq!(val, object(&[("up", Value::Bool(true))]));
}

#[test]
fn in_memory_client_read_missing_resource_returns_error() {
    let client = InMemoryMcpClient::default();
    let err = client.read_resource("mcp://test/missing").unwrap_err();
    assert!(err.message().contains("missing"));
    assert_eq!(err.message(), "resource 'mcp://test/missing' not found");
}

#[test]
fn manager_register_and_list_tools() {
    let mut manager = McpManager::default();
    let client = InMemoryMcpClient::default().with_tool("greet", object(&[("hi", Value::Bool(true))]));
    manager.register_server(sample_config("test-srv", true), ToolFilter::default(), client);
    let tools = manager.list_tools().unwrap();
    assert_eq!(tools.len(), 1);
    assert_eq!(tools[0].tool_name, "greet");
    assert!(tools[0].qualified_name.starts_with("mcp__"));
}

#[test]
fn manager_list_tools_names_server_and_qualifies() {
    let mut manager = McpManager::default();
    let client = InMemoryMcpClient::default().with_tool("greet", Value::Null);
    manager.register_server(sample_config("test-srv", true), ToolFilter::default(), client);
    let tools = manager.list_tools().unwrap();
    assert_eq!(tools[0].server_name, "test-srv");
    assert_eq!(tools[0].qualified_name, "mcp__test_srv__greet");
}

#[test]
fn manager_call_tool_directly() {
    let mut manager = McpManager::default();
    let client = InMemoryMcpClient::default().with_tool("echo", object(&[("echoed", Value::Bool(true))]));
    manager.register_server(sample_config("srv", true), ToolFilter::default(), client);
    let result = manager.call_tool("srv", "echo", object(&[])).unwrap();
    assert_eq!(result, object(&[("echoed", Value::Bool(true))]));
}

#[test]
fn manager_call_qualified_tool() {
    let mut manager = McpManager::default();
    let client = InMemoryMcpClient::default().with_tool("greet", object(&[("hello", Value::Bool(true))]));
    manager.register_server(sample_config("demo", true), ToolFilter::default(), client);
    let result = manager.call_qualified_tool("mcp__demo__greet", object(&[])).unwrap();
    assert_eq!(result, object(&[("hello", Value::Bool(true))]));
}

#[test]
fn manager_call_qualified_tool_rejects_bad_name() {
    let manager: McpManager<InMemoryMcpClient> = McpManager::default();
    let err = manager.call_qualified_tool("mcp__demo", object(&[])).unwrap_err();
    assert_eq!(err.message(), "invalid qualified MCP tool name: mcp__demo");
}

#[test]
fn manager_call_tool_missing_server_errors() {
    let manager: McpManager<InMemoryMcpClient> = McpManager::default();
    assert!(manager.call_tool("ghost", "ping", object(&[])).is_err());
    let err = manager.call_tool("ghost", "ping", object(&[])).unwrap_err();
    assert_eq!(err.message(), "MCP server 'ghost' not available");
}

#[test]
fn manager_stop_server_removes_client() {
    let mut manager = McpManager::default();
    let client = InMemoryMcpClient::default().with_tool("a", Value::Null);
    manager.register_server(sample_config("s1", true), ToolFilter::default(), client);
    manager.stop_server("s1").unwrap();
    assert!(manager.call_tool("s1", "a", object(&[])).is_err());
}

#[test]
fn manager_stop_nonexistent_server_errors() {
    let mut manager: McpManager<InMemoryMcpClient> = McpManager::default();
    assert!(manager.stop_server("nope").is_err());
    assert_eq!(manager.stop_server("nope").unwrap_err().message(), "server 'nope' is not running");
}

#[test]
fn manager_unregister_server_removes_config_and_client() {
    let mut manager = McpManager::default();
    let client = InMemoryMcpClient::default();
    manager.register_server(sample_config("s2", true), ToolFilter::default(), client);
    manager.unregister_server("s2").unwrap();
    assert!(manager.list_tools().unwrap().is_empty());
}

#[test]
fn manager_unregister_nonexistent_server_errors() {
    let mut manager: McpManager<InMemoryMcpClient> = McpManager::default();
    assert!(manager.unregister_server("missing").is_err());
    assert_eq!(
        manager.unregister_server("missing").unwrap_err().message(),
        "server 'missing' is not registered"
    );
}

#[test]
fn manager_list_and_read_resources() {
    let mut manager = McpManager::default();
    let client = InMemoryMcpClient::default().with_resource("mcp://res/data", object(&[("key", text("value"))]));
    manager.register_server(sample_config("res-srv", true), ToolFilter::default(), client);
    let resources = manager.list_resources().unwrap();
    assert_eq!(resources.len(), 1);

    let value = manager.read_resource("res-srv", "mcp://res/data").unwrap();
    assert_eq!(value["key"], "value");
}

#[test]
fn manager_list_resources_marks_server() {
    let mut manager = McpManager::default();
    let client = InMemoryMcpClient::default().with_resource("mcp://res/data", Value::Null);
    manager.register_server(sample_config("res-srv", true), ToolFilter::default(), client);
    let resources = manager.list_resources().unwrap();
    assert_eq!(resources[0].server_name, "res-srv");
    assert_eq!(resources[0].uri, "mcp://res/data");
}

#[test]
fn manager_read_resource_missing_server_errors() {
    let manager: McpManager<InMemoryMcpClient> = McpManager::default();
    assert!(manager.read_resource("noserver", "mcp://x").is_err());
}

#[test]
fn manager_start_all_reports_ready_failed_cancelled() {
    let mut manager = McpManager::default();
    let client = InMemoryMcpClient::default();
    manager.register_server(sample_config("enabled", true), ToolFilter::default(), client);
    manager
        .configs
        .insert("disabled".to_string(), (sample_config("disabled", false), ToolFilter::default()));

    let mut events = Vec::new();
    let result = manager.start_all(|evt| events.push(evt));

    assert!(result.ready.contains(&"enabled".to_string()));
    assert!(result.cancelled.contains(&"disabled".to_string()));
    assert!(!events.is_empty());
}

#[test]
fn manager_start_all_reports_missing_client_as_failed() {
    let mut manager: McpManager<InMemoryMcpClient> = McpManager::default();
    manager
        .configs
        .insert("orphan".to_string(), (sample_config("orphan", true), ToolFilter::default()));
    let mut events = Vec::new();
    let result = manager.start_all(|evt| events.push(evt));
    assert!(result.ready.is_empty());
    assert!(result.cancelled.is_empty());
    assert_eq!(result.failed.len(), 1);
    assert_eq!(result.failed[0].server_name, "orphan");
    assert_eq!(result.failed[0].error, "client not registered");
    assert_eq!(events.len(), 2);
    assert_eq!(events[0].status, McpStartupStatus::Starting);
    assert_eq!(
        events[1].status,
        McpStartupStatus::Failed { error: "client not registered".to_string() }
    );
}

#[test]
fn manager_start_all_events_in_order() {
    let mut manager = McpManager::default();
    manager.register_server(sample_config("a", true), ToolFilter::default(), InMemoryMcpClient::default());
    manager
        .configs
        .insert("b".to_string(), (sample_config("b", false), ToolFilter::default()));
    let mut events = Vec::new();
    let _ = manager.start_all(|evt| events.push(evt));
    let seen: Vec<(String, McpStartupStatus)> =
        events.into_iter().map(|e| (e.server_name, e.status)).collect();
    assert_eq!(
        seen,
        vec![
            ("a".to_string(), McpStartupStatus::Starting),
            ("a".to_string(), McpStartupStatus::Ready),
            ("b".to_string(), McpStartupStatus::Cancelled),
        ]
    );
}

#[test]
fn manager_update_sandbox_state_produces_notices() {
    let mut manager: McpManager<InMemoryMcpClient> = McpManager::default();
    manager
        .configs
        .insert("s".to_string(), (sample_config("s", true), ToolFilter::default()));
    let notices = manager.update_sandbox_state("strict", "/tmp").unwrap();
    assert_eq!(notices.len(), 1);
    assert_eq!(notices[0]["method"], "codex/sandbox-state/update");
}

#[test]
fn manager_update_sandbox_state_notice_fields() {
    let mut manager: McpManager<InMemoryMcpClient> = McpManager::default();
    manager
        .configs
        .insert("s".to_string(), (sample_config("s", true), ToolFilter::default()));
    let notices = manager.update_sandbox_state("strict", "/tmp").unwrap();
    assert_eq!(notices[0]["server_name"], "s");
    assert_eq!(notices[0]["params"]["sandbox_mode"], "strict");
    assert_eq!(notices[0]["params"]["cwd"], "/tmp");
}

#[test]
fn manager_tool_filter_applied_on_list() {
    let mut manager = McpManager::default();
    let client = InMemoryMcpClient::default()
        .with_tool("allowed_tool", Value::Null)
        .with_tool("blocked_tool", Value::Null);
    let filter = ToolFilter { allow: vec![], deny: vec!["blocked_tool".to_string()] };
    manager.register_server(sample_config("filtered", true), filter, client);
    let tools = manager.list_tools().unwrap();
    assert_eq!(tools.len(), 1);
    assert_eq!(tools[0].tool_name, "allowed_tool");
}

#[test]
fn manager_stopped_server_keeps_config_but_lists_nothing() {
    let mut manager = McpManager::default();
    let client = InMemoryMcpClient::default().with_tool("a", Value::Null);
    manager.register_server(sample_config("s1", true), ToolFilter::default(), client);
    manager.stop_server("s1").unwrap();
    assert!(manager.list_tools().unwrap().is_empty());
    assert!(manager.unregister_server("s1").is_ok());
}

struct EchoClient;

impl McpManagedClient for EchoClient {
    fn list_tools(&self) -> Result<Vec<deepseek_mcp::model::McpToolDescriptor>, deepseek_mcp::client::McpError> {
        Ok(vec![])
    }
    fn call_tool(&self, _tool_name: &str, arguments: Value) -> Result<Value, deepseek_mcp::client::McpError> {
        Ok(arguments)
    }
    fn list_resources(&self) -> Result<Vec<deepseek_mcp::model::McpResourceDescriptor>, deepseek_mcp::client::McpError> {
        Ok(vec![])
    }
    fn read_resource(&self, uri: &str) -> Result<Value, deepseek_mcp::client::McpError> {
        Err(deepseek_mcp::client::McpError::ResourceNotFound { uri: uri.to_string() })
    }
}

#[test]
fn manager_drives_boxed_clients_of_different_kinds() {
    let mut manager: McpManager<Box<dyn McpManagedClient>> = McpManager::default();
    let memory = InMemoryMcpClient::default().with_tool("greet", object(&[("hi", Value::Bool(true))]));
    manager.register_server(sample_config("mem", true), ToolFilter::default(), Box::new(memory));
    manager.register_server(sample_config("echo", true), ToolFilter::default(), Box::new(EchoClient));
    assert_eq!(manager.call_tool("mem", "greet", object(&[])).unwrap(), object(&[("hi", Value::Bool(true))]));
    assert_eq!(manager.call_tool("echo", "any", text("x")).unwrap(), text("x"));
    assert_eq!(manager.list_tools().unwrap().len(), 1);
    let mut events = Vec::new();
    let report = manager.start_all(|e| events.push(e));
    assert_eq!(report.ready, vec!["mem".to_string(), "echo".to_string()]);
    assert_eq!(events.len(), 4);
}
