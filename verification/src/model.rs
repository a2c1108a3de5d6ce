//! The MCP configuration, filter, startup and descriptor records.

use std::collections::HashMap;
use vstd::prelude::*;

verus! {

/// How one MCP server is launched.
#[derive(Debug)]
pub struct McpServerConfig {
    pub name: String,
    pub command: String,
    pub args: Vec<String>,
    pub env: HashMap<String, String>,
    pub enabled: bool,
}

/// The mathematical content of a server configuration.
pub struct ServerConfigView {
    pub name: Seq<char>,
    pub command: Seq<char>,
    pub args: Seq<Seq<char>>,
    pub env: Map<String, String>,
    pub enabled: bool,
}

impl View for McpServerConfig {
    type V = ServerConfigView;

    open spec fn view(&self) -> ServerConfigView {
        ServerConfigView {
            name: self.name@,
            command: self.command@,
            args: self.args.deep_view(),
            env: self.env@,
            enabled: self.enabled,
        }
    }
}

impl Clone for McpServerConfig {
    fn clone(&self) -> (r: Self)
        ensures
            r@ == self@,
    {
        let args = self.args.clone();
        proof {
            assert(args.deep_view() =~= self.args.deep_view());
        }
        McpServerConfig {
            name: self.name.clone(),
            command: self.command.clone(),
            args,
            env: self.env.clone(),
            enabled: self.enabled,
        }
    }
}

/// Allow and deny lists of tool names for one server.
#[derive(Debug)]
pub struct ToolFilter {
    pub allow: Vec<String>,
    pub deny: Vec<String>,
}

/// The mathematical content of a tool filter.
pub struct ToolFilterView {
    pub allow: Seq<Seq<char>>,
    pub deny: Seq<Seq<char>>,
}

impl View for ToolFilter {
    type V = ToolFilterView;

    open spec fn view(&self) -> ToolFilterView {
        ToolFilterView { allow: self.allow.deep_view(), deny: self.deny.deep_view() }
    }
}

impl Clone for ToolFilter {
    fn clone(&self) -> (r: Self)
        ensures
            r@ == self@,
    {
        let allow = self.allow.clone();
        let deny = self.deny.clone();
        proof {
            assert(allow.deep_view() =~= self.allow.deep_view());
            assert(deny.deep_view() =~= self.deny.deep_view());
        }
        ToolFilter { allow, deny }
    }
}

impl Default for ToolFilter {
    fn default() -> (r: Self)
        ensures
            r@.allow.len() == 0,
            r@.deny.len() == 0,
    {
        ToolFilter { allow: Vec::new(), deny: Vec::new() }
    }
}

/// A server configuration together with the filter applied to its tools.
#[derive(Debug)]
pub struct McpServerDefinition {
    pub config: McpServerConfig,
    pub filter: ToolFilter,
}

/// The mathematical content of a server definition.
pub struct ServerDefinitionView {
    pub config: ServerConfigView,
    pub filter: ToolFilterView,
}

impl View for McpServerDefinition {
    type V = ServerDefinitionView;

    open spec fn view(&self) -> ServerDefinitionView {
        ServerDefinitionView { config: self.config@, filter: self.filter@ }
    }
}

impl Clone for McpServerDefinition {
    fn clone(&self) -> (r: Self)
        ensures
            r@ == self@,
    {
        McpServerDefinition { config: self.config.clone(), filter: self.filter.clone() }
    }
}

/// The startup state that is reported for one server.
#[derive(Debug)]
pub enum McpStartupStatus {
    Starting,
    Ready,
    Failed { error: String },
    Cancelled,
}

/// The mathematical content of a startup status.
pub enum StartupStatusView {
    Starting,
    Ready,
    Failed { error: Seq<char> },
    Cancelled,
}

impl View for McpStartupStatus {
    type V = StartupStatusView;

    open spec fn view(&self) -> StartupStatusView {
        match self {
            McpStartupStatus::Starting => StartupStatusView::Starting,
            McpStartupStatus::Ready => StartupStatusView::Ready,
            McpStartupStatus::Failed { error } => StartupStatusView::Failed { error: error@ },
            McpStartupStatus::Cancelled => StartupStatusView::Cancelled,
        }
    }
}

impl Clone for McpStartupStatus {
    fn clone(&self) -> (r: Self)
        ensures
            r@ == self@,
    {
        match self {
            McpStartupStatus::Starting => McpStartupStatus::Starting,
            McpStartupStatus::Ready => McpStartupStatus::Ready,
            McpStartupStatus::Failed { error } => McpStartupStatus::Failed { error: error.clone() },
            McpStartupStatus::Cancelled => McpStartupStatus::Cancelled,
        }
    }
}

impl PartialEq for McpStartupStatus {
    fn eq(&self, other: &Self) -> (r: bool) {
        match self {
            McpStartupStatus::Starting => matches!(other, McpStartupStatus::Starting),
            McpStartupStatus::Ready => matches!(other, McpStartupStatus::Ready),
            McpStartupStatus::Failed { error: a } => match other {
                McpStartupStatus::Failed { error: b } => {
                    let same = crate::text::str_eq(a.as_str(), b.as_str());
                    proof {
                        if same {
                            assert(self@ == other@);
                        } else {
                            assert(self@ != other@) by {
                                if self@ == other@ {
                                    assert(a@ == b@);
                                }
                            }
                        }
                    }
                    same
                },
                _ => false,
            },
            McpStartupStatus::Cancelled => matches!(other, McpStartupStatus::Cancelled),
        }
    }
}

impl vstd::std_specs::cmp::PartialEqSpecImpl for McpStartupStatus {
    open spec fn obeys_eq_spec() -> bool {
        true
    }

    open spec fn eq_spec(&self, other: &Self) -> bool {
        self@ == other@
    }
}

impl Eq for McpStartupStatus {

}

/// A status change of one server during startup.
#[derive(Debug)]
pub struct McpStartupUpdateEvent {
    pub server_name: String,
    pub status: McpStartupStatus,
}

/// The mathematical content of a startup update.
pub struct StartupUpdateView {
    pub server_name: Seq<char>,
    pub status: StartupStatusView,
}

impl View for McpStartupUpdateEvent {
    type V = StartupUpdateView;

    open spec fn view(&self) -> StartupUpdateView {
        StartupUpdateView { server_name: self.server_name@, status: self.status@ }
    }
}

impl Clone for McpStartupUpdateEvent {
    fn clone(&self) -> (r: Self)
        ensures
            r@ == self@,
    {
        McpStartupUpdateEvent { server_name: self.server_name.clone(), status: self.status.clone() }
    }
}

/// A server that could not be started, with the reason.
#[derive(Debug)]
pub struct McpStartupFailure {
    pub server_name: String,
    pub error: String,
}

/// The mathematical content of a startup failure.
pub struct StartupFailureView {
    pub server_name: Seq<char>,
    pub error: Seq<char>,
}

impl View for McpStartupFailure {
    type V = StartupFailureView;

    open spec fn view(&self) -> StartupFailureView {
        StartupFailureView { server_name: self.server_name@, error: self.error@ }
    }
}

impl Clone for McpStartupFailure {
    fn clone(&self) -> (r: Self)
        ensures
            r@ == self@,
    {
        McpStartupFailure { server_name: self.server_name.clone(), error: self.error.clone() }
    }
}

/// The outcome of starting every configured server.
#[derive(Debug)]
pub struct McpStartupCompleteEvent {
    pub ready: Vec<String>,
    pub failed: Vec<McpStartupFailure>,
    pub cancelled: Vec<String>,
}

/// The mathematical content of a startup report.
pub struct StartupCompleteView {
    pub ready: Seq<Seq<char>>,
    pub failed: Seq<StartupFailureView>,
    pub cancelled: Seq<Seq<char>>,
}

impl View for McpStartupCompleteEvent {
    type V = StartupCompleteView;

    open spec fn view(&self) -> StartupCompleteView {
        StartupCompleteView {
            ready: self.ready.deep_view(),
            failed: self.failed@.map_values(|f: McpStartupFailure| f@),
            cancelled: self.cancelled.deep_view(),
        }
    }
}

/// A tool offered by a server, with its name qualified for the whole manager.
#[derive(Debug)]
pub struct McpToolDescriptor {
    pub server_name: String,
    pub tool_name: String,
    pub qualified_name: String,
    pub description: Option<String>,
}

/// The mathematical content of a tool descriptor.
pub struct ToolDescriptorView {
    pub server_name: Seq<char>,
    pub tool_name: Seq<char>,
    pub qualified_name: Seq<char>,
    pub description: Option<Seq<char>>,
}

impl View for McpToolDescriptor {
    type V = ToolDescriptorView;

    open spec fn view(&self) -> ToolDescriptorView {
        ToolDescriptorView {
            server_name: self.server_name@,
            tool_name: self.tool_name@,
            qualified_name: self.qualified_name@,
            description: self.description.deep_view(),
        }
    }
}

/// Copies an optional text.
pub fn clone_opt_string(o: &Option<String>) -> (r: Option<String>)
    ensures
        r.deep_view() == o.deep_view(),
{
    match o {
        Some(s) => Some(s.clone()),
        None => None,
    }
}

impl Clone for McpToolDescriptor {
    fn clone(&self) -> (r: Self)
        ensures
            r@ == self@,
    {
        McpToolDescriptor {
            server_name: self.server_name.clone(),
            tool_name: self.tool_name.clone(),
            qualified_name: self.qualified_name.clone(),
            description: clone_opt_string(&self.description),
        }
    }
}

/// A resource offered by a server.
#[derive(Debug)]
pub struct McpResourceDescriptor {
    pub server_name: String,
    pub uri: String,
    pub description: Option<String>,
}

/// The mathematical content of a resource descriptor.
pub struct ResourceDescriptorView {
    pub server_name: Seq<char>,
    pub uri: Seq<char>,
    pub description: Option<Seq<char>>,
}

impl View for McpResourceDescriptor {
    type V = ResourceDescriptorView;

    open spec fn view(&self) -> ResourceDescriptorView {
        ResourceDescriptorView {
            server_name: self.server_name@,
            uri: self.uri@,
            description: self.description.deep_view(),
        }
    }
}

impl Clone for McpResourceDescriptor {
    fn clone(&self) -> (r: Self)
        ensures
            r@ == self@,
    {
        McpResourceDescriptor {
            server_name: self.server_name.clone(),
            uri: self.uri.clone(),
            description: clone_opt_string(&self.description),
        }
    }
}

/// The value a configuration takes for `enabled` when it is not given.
pub fn default_true() -> (r: bool)
    ensures
        r,
{
    true
}

} // verus!
