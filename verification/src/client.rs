//! MCP clients: the interface the manager drives, and a client that answers from memory.

use serde_json::Value;
use vstd::prelude::*;

use crate::json::clone_value;
use crate::model::{McpResourceDescriptor, McpToolDescriptor, ResourceDescriptorView, ToolDescriptorView};
use crate::manager::{answers_call, lists_resources, lists_tools, resource_views, tool_views};
use crate::naming::QualifiedNameError;
use crate::strmap::StrMap;

verus! {

/// Why an MCP operation failed.
#[derive(Debug)]
pub enum McpError {
    /// The client has no tool of this name.
    ToolNotFound { tool: String },
    /// The client has no resource at this URI.
    ResourceNotFound { uri: String },
    /// The server has no running client.
    ServerNotRunning { server: String },
    /// No configuration is registered under this name.
    ServerNotRegistered { server: String },
    /// No client is available for this server.
    ServerNotAvailable { server: String },
    /// A qualified tool name could not be split.
    InvalidQualifiedName { name: String, cause: QualifiedNameError },
    /// A tool name is too long to keep and its hash too short to stand in for it.
    NameNotQualifiable { server: String, tool: String },
    /// A client reported a failure of its own.
    Client { message: String },
}

/// The mathematical content of an error.
pub enum McpErrorView {
    ToolNotFound { tool: Seq<char> },
    ResourceNotFound { uri: Seq<char> },
    ServerNotRunning { server: Seq<char> },
    ServerNotRegistered { server: Seq<char> },
    ServerNotAvailable { server: Seq<char> },
    InvalidQualifiedName { name: Seq<char>, cause: QualifiedNameError },
    NameNotQualifiable { server: Seq<char>, tool: Seq<char> },
    Client { message: Seq<char> },
}

impl View for McpError {
    type V = McpErrorView;

    open spec fn view(&self) -> McpErrorView {
        match self {
            McpError::ToolNotFound { tool } => McpErrorView::ToolNotFound { tool: tool@ },
            McpError::ResourceNotFound { uri } => McpErrorView::ResourceNotFound { uri: uri@ },
            McpError::ServerNotRunning { server } => McpErrorView::ServerNotRunning {
                server: server@,
            },
            McpError::ServerNotRegistered { server } => McpErrorView::ServerNotRegistered {
                server: server@,
            },
            McpError::ServerNotAvailable { server } => McpErrorView::ServerNotAvailable {
                server: server@,
            },
            McpError::InvalidQualifiedName { name, cause } => McpErrorView::InvalidQualifiedName {
                name: name@,
                cause: *cause,
            },
            McpError::NameNotQualifiable { server, tool } => McpErrorView::NameNotQualifiable {
                server: server@,
                tool: tool@,
            },
            McpError::Client { message } => McpErrorView::Client { message: message@ },
        }
    }
}

/// The message of each error.
pub open spec fn error_message(e: McpErrorView) -> Seq<char> {
    match e {
        McpErrorView::ToolNotFound { tool } => "tool '"@ + tool + "' not found"@,
        McpErrorView::ResourceNotFound { uri } => "resource '"@ + uri + "' not found"@,
        McpErrorView::ServerNotRunning { server } => "server '"@ + server + "' is not running"@,
        McpErrorView::ServerNotRegistered { server } => "server '"@ + server
            + "' is not registered"@,
        McpErrorView::ServerNotAvailable { server } => "MCP server '"@ + server
            + "' not available"@,
        McpErrorView::InvalidQualifiedName { name, cause } => "invalid qualified MCP tool name: "@
            + name,
        McpErrorView::NameNotQualifiable { server, tool } => "cannot qualify tool '"@ + tool
            + "' of server '"@ + server + "'"@,
        McpErrorView::Client { message } => message,
    }
}

/// `open + middle + close` as a new string.
pub(crate) fn enclose(open: &str, middle: &str, close: &str) -> (r: String)
    ensures
        r@ == open@ + middle@ + close@,
{
    let mut s = String::from_str(open);
    s.append(middle);
    s.append(close);
    s
}

impl McpError {
    /// The message that describes the error.
    pub fn message(&self) -> (r: String)
        ensures
            r@ == error_message(self@),
    {
        match self {
            McpError::ToolNotFound { tool } => enclose("tool '", tool.as_str(), "' not found"),
            McpError::ResourceNotFound { uri } => enclose(
                "resource '",
                uri.as_str(),
                "' not found",
            ),
            McpError::ServerNotRunning { server } => enclose(
                "server '",
                server.as_str(),
                "' is not running",
            ),
            McpError::ServerNotRegistered { server } => enclose(
                "server '",
                server.as_str(),
                "' is not registered",
            ),
            McpError::ServerNotAvailable { server } => enclose(
                "MCP server '",
                server.as_str(),
                "' not available",
            ),
            McpError::InvalidQualifiedName { name, cause: _ } => {
                let mut s = String::from_str("invalid qualified MCP tool name: ");
                s.append(name.as_str());
                s
            },
            McpError::NameNotQualifiable { server, tool } => {
                let mut s = enclose("cannot qualify tool '", tool.as_str(), "' of server '");
                s.append(server.as_str());
                s.append("'");
                s
            },
            McpError::Client { message } => message.clone(),
        }
    }
}

/// What the manager asks of every MCP client. The results are the client's own: nothing
/// here constrains them.
pub trait McpManagedClient: Send + Sync {
    /// The tools the client offers.
    fn list_tools(&self) -> Result<Vec<McpToolDescriptor>, McpError>;

    /// Runs a tool with the given arguments.
    fn call_tool(&self, tool_name: &str, arguments: Value) -> Result<Value, McpError>;

    /// The resources the client offers.
    fn list_resources(&self) -> Result<Vec<McpResourceDescriptor>, McpError>;

    /// Reads one resource.
    fn read_resource(&self, uri: &str) -> Result<Value, McpError>;
}

/// A boxed client of any kind answers as the client inside it, so one manager can drive
/// clients of different kinds.
impl McpManagedClient for Box<dyn McpManagedClient> {
    fn list_tools(&self) -> Result<Vec<McpToolDescriptor>, McpError> {
        (**self).list_tools()
    }

    fn call_tool(&self, tool_name: &str, arguments: Value) -> Result<Value, McpError> {
        (**self).call_tool(tool_name, arguments)
    }

    fn list_resources(&self) -> Result<Vec<McpResourceDescriptor>, McpError> {
        (**self).list_resources()
    }

    fn read_resource(&self, uri: &str) -> Result<Value, McpError> {
        (**self).read_resource(uri)
    }
}

/// A client that answers every tool call and resource read with a fixed value.
#[derive(Debug)]
pub struct InMemoryMcpClient {
    tools: StrMap<Value>,
    resources: StrMap<Value>,
}

/// The server name that in-memory descriptors carry.
pub open spec fn in_memory_server() -> Seq<char> {
    "in-memory"@
}

/// The descriptor the in-memory client gives for tool `name`.
pub open spec fn in_memory_tool(name: Seq<char>) -> ToolDescriptorView {
    ToolDescriptorView {
        server_name: in_memory_server(),
        tool_name: name,
        qualified_name: name,
        description: None,
    }
}

/// The descriptor the in-memory client gives for resource `uri`.
pub open spec fn in_memory_resource(uri: Seq<char>) -> ResourceDescriptorView {
    ResourceDescriptorView { server_name: in_memory_server(), uri, description: None }
}

impl InMemoryMcpClient {
    /// The tools and their results.
    pub closed spec fn tools(&self) -> StrMap<Value> {
        self.tools
    }

    /// The resources and their contents.
    pub closed spec fn resources(&self) -> StrMap<Value> {
        self.resources
    }

    /// The client with no tool and no resource.
    pub fn new() -> (c: Self)
        ensures
            c.tools().keys().len() == 0,
            c.tools().values().len() == 0,
            c.resources().keys().len() == 0,
            c.resources().values().len() == 0,
    {
        InMemoryMcpClient { tools: StrMap::new(), resources: StrMap::new() }
    }

    /// The client with tool `name` answering `sample_result` (replacing an earlier answer).
    pub fn with_tool(self, name: &str, sample_result: Value) -> (c: Self)
        ensures
            c.tools().keys() == self.tools().keys_after_insert(name@),
            c.tools().values() == self.tools().values_after_insert(name@, sample_result),
            c.resources() == self.resources(),
    {
        let mut c = self;
        c.tools.insert(String::from_str(name), sample_result);
        c
    }

    /// The client with resource `uri` holding `data` (replacing earlier data).
    pub fn with_resource(self, uri: &str, data: Value) -> (c: Self)
        ensures
            c.resources().keys() == self.resources().keys_after_insert(uri@),
            c.resources().values() == self.resources().values_after_insert(uri@, data),
            c.tools() == self.tools(),
    {
        let mut c = self;
        c.resources.insert(String::from_str(uri), data);
        c
    }
}

impl Default for InMemoryMcpClient {
    fn default() -> (c: Self)
        ensures
            c.tools().keys().len() == 0,
            c.resources().keys().len() == 0,
    {
        InMemoryMcpClient::new()
    }
}

impl McpManagedClient for InMemoryMcpClient {
    /// One descriptor per tool, in the order the tools were added.
    fn list_tools(&self) -> (r: Result<Vec<McpToolDescriptor>, McpError>)
        ensures
            r matches Ok(v) && v@.len() == self.tools().keys().len() && (forall|i: int|
                0 <= i < v@.len() ==> #[trigger] v@[i]@ == in_memory_tool(self.tools().keys()[i])),
    {
        let n = self.tools.len();
        let mut out: Vec<McpToolDescriptor> = Vec::new();
        let mut i: usize = 0;
        while i < n
            invariant
                i <= n,
                n == self.tools().keys().len(),
                out@.len() == i,
                forall|j: int|
                    0 <= j < i ==> #[trigger] out@[j]@ == in_memory_tool(self.tools().keys()[j]),
            decreases n - i,
        {
            let name = self.tools.key_at(i);
            out.push(
                McpToolDescriptor {
                    server_name: String::from_str("in-memory"),
                    tool_name: name.clone(),
                    qualified_name: name.clone(),
                    description: None,
                },
            );
            i = i + 1;
        }
        Ok(out)
    }

    /// The tool's fixed result, or `ToolNotFound`.
    fn call_tool(&self, tool_name: &str, arguments: Value) -> (r: Result<Value, McpError>)
        ensures
            match self.tools().lookup(tool_name@) {
                Some(v) => r == Ok::<Value, McpError>(v),
                None => r matches Err(e) && e@ == (McpErrorView::ToolNotFound { tool: tool_name@ }),
            },
    {
        match self.tools.get(tool_name) {
            Some(v) => Ok(clone_value(v)),
            None => Err(McpError::ToolNotFound { tool: String::from_str(tool_name) }),
        }
    }

    /// One descriptor per resource, in the order the resources were added.
    fn list_resources(&self) -> (r: Result<Vec<McpResourceDescriptor>, McpError>)
        ensures
            r matches Ok(v) && v@.len() == self.resources().keys().len() && (forall|i: int|
                0 <= i < v@.len() ==> #[trigger] v@[i]@ == in_memory_resource(
                    self.resources().keys()[i],
                )),
    {
        let n = self.resources.len();
        let mut out: Vec<McpResourceDescriptor> = Vec::new();
        let mut i: usize = 0;
        while i < n
            invariant
                i <= n,
                n == self.resources().keys().len(),
                out@.len() == i,
                forall|j: int|
                    0 <= j < i ==> #[trigger] out@[j]@ == in_memory_resource(
                        self.resources().keys()[j],
                    ),
            decreases n - i,
        {
            let uri = self.resources.key_at(i);
            out.push(
                McpResourceDescriptor {
                    server_name: String::from_str("in-memory"),
                    uri: uri.clone(),
                    description: None,
                },
            );
            i = i + 1;
        }
        Ok(out)
    }

    /// The resource's data, or `ResourceNotFound`.
    fn read_resource(&self, uri: &str) -> (r: Result<Value, McpError>)
        ensures
            match self.resources().lookup(uri@) {
                Some(v) => r == Ok::<Value, McpError>(v),
                None => r matches Err(e) && e@ == (McpErrorView::ResourceNotFound { uri: uri@ }),
            },
    {
        match self.resources.get(uri) {
            Some(v) => Ok(clone_value(v)),
            None => Err(McpError::ResourceNotFound { uri: String::from_str(uri) }),
        }
    }
}

/// The tools the in-memory client lists: one descriptor per tool, in the order the tools
/// were added.
pub open spec fn in_memory_tools(c: InMemoryMcpClient) -> Seq<ToolDescriptorView> {
    c.tools().keys().map_values(|k: Seq<char>| in_memory_tool(k))
}

/// The resources the in-memory client lists, in the order they were added.
pub open spec fn in_memory_resources(c: InMemoryMcpClient) -> Seq<ResourceDescriptorView> {
    c.resources().keys().map_values(|k: Seq<char>| in_memory_resource(k))
}

/// What the in-memory client answers to a call of tool `tool`.
pub open spec fn in_memory_call(c: InMemoryMcpClient, tool: Seq<char>) -> Result<
    Value,
    McpErrorView,
> {
    match c.tools().lookup(tool) {
        Some(v) => Ok(v),
        None => Err(McpErrorView::ToolNotFound { tool }),
    }
}

/// What the in-memory client answers to a read of resource `uri`.
pub open spec fn in_memory_read(c: InMemoryMcpClient, uri: Seq<char>) -> Result<
    Value,
    McpErrorView,
> {
    match c.resources().lookup(uri) {
        Some(v) => Ok(v),
        None => Err(McpErrorView::ResourceNotFound { uri }),
    }
}

/// The view of a client's answer.
pub open spec fn answer_view(r: Result<Value, McpError>) -> Result<Value, McpErrorView> {
    match r {
        Ok(v) => Ok(v),
        Err(e) => Err(e@),
    }
}

impl InMemoryMcpClient {
    /// Every answer the in-memory client can give to a tool call is its fixed one.
    pub proof fn lemma_answers(c: InMemoryMcpClient, tool: Seq<char>, a: Value, r: Result<Value, McpError>)
        requires
            answers_call(c, tool, a, r),
        ensures
            answer_view(r) == in_memory_call(c, tool),
    {
        let t = choose|t: &str|
            t@ == tool && #[trigger] call_ensures(InMemoryMcpClient::call_tool, (&c, t, a), r);
    }

    /// Every answer the in-memory client can give to a resource read is its fixed one.
    pub proof fn lemma_reads(c: InMemoryMcpClient, uri: &str, r: Result<Value, McpError>)
        requires
            call_ensures(InMemoryMcpClient::read_resource, (&c, uri), r),
        ensures
            answer_view(r) == in_memory_read(c, uri@),
    {
    }

    /// The in-memory client lists its tools and nothing else, and never fails to.
    pub proof fn lemma_lists_tools(c: InMemoryMcpClient, l: Seq<ToolDescriptorView>)
        ensures
            lists_tools(c, l) ==> l == in_memory_tools(c),
            forall|e: McpError|
                !#[trigger] call_ensures(
                    InMemoryMcpClient::list_tools,
                    (&c,),
                    Err::<Vec<McpToolDescriptor>, McpError>(e),
                ),
    {
        if lists_tools(c, l) {
            let v = choose|v: Vec<McpToolDescriptor>|
                call_ensures(
                    InMemoryMcpClient::list_tools,
                    (&c,),
                    Ok::<Vec<McpToolDescriptor>, McpError>(v),
                ) && #[trigger] tool_views(v@) == l;
            assert(tool_views(v@) =~= in_memory_tools(c));
        }
    }

    /// The in-memory client lists its resources and nothing else, and never fails to.
    pub proof fn lemma_lists_resources(c: InMemoryMcpClient, l: Seq<ResourceDescriptorView>)
        ensures
            lists_resources(c, l) ==> l == in_memory_resources(c),
            forall|e: McpError|
                !#[trigger] call_ensures(
                    InMemoryMcpClient::list_resources,
                    (&c,),
                    Err::<Vec<McpResourceDescriptor>, McpError>(e),
                ),
    {
        if lists_resources(c, l) {
            let v = choose|v: Vec<McpResourceDescriptor>|
                call_ensures(
                    InMemoryMcpClient::list_resources,
                    (&c,),
                    Ok::<Vec<McpResourceDescriptor>, McpError>(v),
                ) && #[trigger] resource_views(v@) == l;
            assert(resource_views(v@) =~= in_memory_resources(c));
        }
    }
}

} // verus!
