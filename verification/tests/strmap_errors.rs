use deepseek_mcp::client::McpError;
use deepseek_mcp::naming::QualifiedNameError;
use deepseek_mcp::strmap::StrMap;

#[test]
fn strmap_insert_keeps_position_of_existing_key() {
    let mut m: StrMap<u32> = StrMap::new();
    assert!(m.is_empty());
    assert_eq!(m.insert("b".to_string(), 1), None);
    assert_eq!(m.insert("a".to_string(), 2), None);
    assert_eq!(m.insert("b".to_string(), 3), Some(1));
    assert_eq!(m.len(), 2);
    assert_eq!(m.key_at(0), "b");
    assert_eq!(*m.value_at(0), 3);
    assert_eq!(m.get("a"), Some(&2));
    assert!(m.contains_key("a"));
    assert!(!m.contains_key("c"));
}

#[test]
fn strmap_remove_keeps_order_of_others() {
    let mut m: StrMap<u32> = StrMap::default();
    m.insert("x".to_string(), 1);
    m.insert("y".to_string(), 2);
    m.insert("z".to_string(), 3);
    assert_eq!(m.remove("y"), Some(2));
    assert_eq!(m.remove("y"), None);
    assert_eq!(m.find("z"), Some(1));
    assert_eq!(m.into_values(), vec![1, 3]);
}

#[test]
fn mcp_error_messages() {
    let cases = vec![
        (McpError::ToolNotFound { tool: "t".to_string() }, "tool 't' not found"),
        (McpError::ResourceNotFound { uri: "u".to_string() }, "resource 'u' not found"),
        (McpError::ServerNotRunning { server: "s".to_string() }, "server 's' is not running"),
        (McpError::ServerNotRegistered { server: "s".to_string() }, "server 's' is not registered"),
        (McpError::ServerNotAvailable { server: "s".to_string() }, "MCP server 's' not available"),
        (
            McpError::InvalidQualifiedName { name: "n".to_string(), cause: QualifiedNameError::MissingTool },
            "invalid qualified MCP tool name: n",
        ),
        (
            McpError::NameNotQualifiable { server: "s".to_string(), tool: "t".to_string() },
            "cannot qualify tool 't' of server 's'",
        ),
        (McpError::Client { message: "boom".to_string() }, "boom"),
    ];
    for (err, expected) in cases {
        assert_eq!(err.message(), expected);
    }
}
