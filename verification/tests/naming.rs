use deepseek_mcp::model::ToolFilter;
use deepseek_mcp::naming::{
    allowed_by_filter, has_qualified_prefix, parse_qualified_tool_name, parse_server_from_uri,
    qualify_tool_name, sanitize_component, try_qualify_tool_name, QualifiedNameError,
};

fn names(list: &[&str]) -> Vec<String> {
    list.iter().map(|s| s.to_string()).collect()
}

#[test]
fn filter_allow_empty_permits_all() {
    let filter = ToolFilter { allow: vec![], deny: vec![] };
    assert!(allowed_by_filter("anything", &filter));
}

#[test]
fn filter_deny_blocks_exact_match() {
    let filter = ToolFilter { allow: vec![], deny: names(&["blocked"]) };
    assert!(!allowed_by_filter("blocked", &filter));
    assert!(allowed_by_filter("allowed", &filter));
}

#[test]
fn filter_allow_restricts_to_listed() {
    let filter = ToolFilter { allow: names(&["ping"]), deny: vec![] };
    assert!(allowed_by_filter("ping", &filter));
    assert!(!allowed_by_filter("other", &filter));
}

#[test]
fn filter_deny_takes_precedence_over_allow() {
    let filter = ToolFilter { allow: names(&["ping"]), deny: names(&["ping"]) };
    assert!(!allowed_by_filter("ping", &filter));
}

#[test]
fn filter_matches_whole_names_only() {
    let filter = ToolFilter { allow: names(&["ping"]), deny: names(&["pin"]) };
    assert!(allowed_by_filter("ping", &filter));
    assert!(!allowed_by_filter("pin", &filter));
    assert!(!allowed_by_filter("pingg", &filter));
}

#[test]
fn qualify_tool_name_basic() {
    let name = qualify_tool_name("my-server", "read_file");
    assert_eq!(name, "mcp__my_server__read_file");
}

#[test]
fn qualify_tool_name_sanitizes_special_chars() {
    let name = qualify_tool_name("Server.One!", "tool@2");
    assert!(name.starts_with("mcp__"));
    assert!(!name.contains('.'));
    assert!(!name.contains('!'));
    assert!(!name.contains('@'));
}

#[test]
fn qualify_tool_name_sanitizes_exactly() {
    assert_eq!(qualify_tool_name("Server.One!", "tool@2"), "mcp__server_one___tool_2");
}

#[test]
fn qualify_tool_name_truncates_long_names() {
    let long_server = "a".repeat(40);
    let long_tool = "b".repeat(40);
    let name = qualify_tool_name(&long_server, &long_tool);
    assert!(name.len() <= 64, "qualified name too long: {}", name.len());
}

#[test]
fn qualify_tool_name_long_name_keeps_prefix_and_hash() {
    let long_server = "a".repeat(40);
    let long_tool = "b".repeat(40);
    let name = qualify_tool_name(&long_server, &long_tool);
    let base = format!("mcp__{}__{}", long_server, long_tool);
    assert_eq!(name.len(), 61);
    assert_eq!(&name[..48], &base[..48]);
    assert_eq!(&name[48..49], "_");
    assert!(name[49..].chars().all(|c| c.is_ascii_hexdigit() && !c.is_ascii_uppercase()));
    assert_eq!(qualify_tool_name(&long_server, &long_tool), name);
}

#[test]
fn qualify_tool_name_at_limit_is_kept() {
    let server = "s".repeat(27);
    let tool = "t".repeat(30);
    let name = qualify_tool_name(&server, &tool);
    assert_eq!(name.len(), 64);
    assert_eq!(name, format!("mcp__{}__{}", server, tool));
}

#[test]
fn try_qualify_tool_name_agrees_with_qualify() {
    let long_server = "a".repeat(40);
    let long_tool = "b".repeat(40);
    assert_eq!(
        try_qualify_tool_name(&long_server, &long_tool),
        Some(qualify_tool_name(&long_server, &long_tool))
    );
    assert_eq!(try_qualify_tool_name("x", "y"), Some("mcp__x__y".to_string()));
}

#[test]
fn parse_qualified_tool_name_round_trips() {
    let qualified = qualify_tool_name("myserver", "mytool");
    let (server, tool) = parse_qualified_tool_name(&qualified).unwrap();
    assert_eq!(server, "myserver");
    assert_eq!(tool, "mytool");
}

#[test]
fn parse_qualified_tool_name_rejects_missing_prefix() {
    assert!(parse_qualified_tool_name("no_prefix__server__tool").is_err());
}

#[test]
fn parse_qualified_tool_name_rejects_missing_segments() {
    assert!(parse_qualified_tool_name("mcp__").is_err());
    assert!(parse_qualified_tool_name("mcp__server").is_err());
}

#[test]
fn parse_qualified_tool_name_reports_each_error() {
    assert_eq!(parse_qualified_tool_name("x"), Err(QualifiedNameError::MissingPrefix));
    assert_eq!(parse_qualified_tool_name("mcp__"), Err(QualifiedNameError::MissingServer));
    assert_eq!(parse_qualified_tool_name("mcp____tool"), Err(QualifiedNameError::MissingServer));
    assert_eq!(parse_qualified_tool_name("mcp__server"), Err(QualifiedNameError::MissingTool));
    assert_eq!(parse_qualified_tool_name("mcp__server__"), Err(QualifiedNameError::MissingTool));
    assert_eq!(QualifiedNameError::MissingPrefix.message(), "missing mcp__ prefix");
    assert_eq!(QualifiedNameError::MissingServer.message(), "missing server segment");
    assert_eq!(QualifiedNameError::MissingTool.message(), "missing tool segment");
}

#[test]
fn parse_qualified_tool_name_splits_at_first_separator() {
    let (server, tool) = parse_qualified_tool_name("mcp__a__b__c").unwrap();
    assert_eq!(server, "a");
    assert_eq!(tool, "b__c");
}

#[test]
fn has_qualified_prefix_checks_start() {
    assert!(has_qualified_prefix("mcp__x"));
    assert!(has_qualified_prefix("mcp__"));
    assert!(!has_qualified_prefix("mcp_"));
    assert!(!has_qualified_prefix("xmcp__"));
}

#[test]
fn sanitize_component_lowercases_and_replaces() {
    assert_eq!(sanitize_component("Hello-World"), "hello_world");
    assert_eq!(sanitize_component("foo_bar"), "foo_bar");
    assert_eq!(sanitize_component("A.B!C"), "a_b_c");
}

#[test]
fn sanitize_component_replaces_each_non_ascii_char() {
    assert_eq!(sanitize_component("é9Z"), "_9z");
    assert_eq!(sanitize_component(""), "");
}

#[test]
fn parse_server_from_uri_extracts_server() {
    assert_eq!(parse_server_from_uri("mcp://myserver/health"), Some("myserver".to_string()));
}

#[test]
fn parse_server_from_uri_returns_none_for_invalid() {
    assert!(parse_server_from_uri("http://notmcp/path").is_none());
    assert!(parse_server_from_uri("mcp:///no-server").is_none());
}

#[test]
fn parse_server_from_uri_without_path() {
    assert_eq!(parse_server_from_uri("mcp://solo"), Some("solo".to_string()));
    assert!(parse_server_from_uri("mcp://").is_none());
}
