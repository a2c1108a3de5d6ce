//! The state of the stdio MCP server and the way each request changes it.

use serde_json::Value;
use vstd::prelude::*;

use crate::client::{
    enclose, error_message, in_memory_call, in_memory_read, in_memory_resources, in_memory_tools,
    InMemoryMcpClient, McpError, McpErrorView,
};
use crate::json::{
    field_pairs, json_array, json_array_of, json_object, json_object_of, json_string, json_text,
    params_or_object,
};
use crate::manager::{McpManager, resource_views, tool_views};
use crate::model::{
    McpResourceDescriptor, McpServerConfig, McpServerDefinition, McpToolDescriptor,
    ResourceDescriptorView, ServerConfigView, ServerDefinitionView, ToolDescriptorView, ToolFilter,
    ToolFilterView,
};
use crate::naming::{
    first_slash_from, has_prefix, has_qualified_prefix, parse_qualified, parse_server_from_uri,
    qualified_prefix, server_from_uri, uri_prefix,
};
use crate::rpc::{
    default_rpc_methods, rpc_error, rpc_method_names, JsonRpcError, JsonRpcErrorView,
    INTERNAL_ERROR, INVALID_PARAMS, METHOD_NOT_FOUND,
};
use crate::sorting::{
    keyed_view, keys_of, lemma_sort_by_key, lemma_sort_map_payload, lemma_sort_same_items,
    lemma_sorted_keys_increase, map_payload, sort_by_key, sort_keyed,
};
use crate::strmap::{lemma_lookup_after_insert, lemma_lookup_after_remove, StrMap};
use crate::text::{chars_of, is_blank, is_blank_text, str_eq, text_less};

verus! {

/// The name the server reports for itself.
pub const SERVICE_NAME: &'static str = "deepseek-mcp";

/// The transport the server reports.
pub const TRANSPORT: &'static str = "stdio";

/// Where the server is in its life.
#[derive(Debug, Clone, Copy, PartialEq, Eq, Structural)]
pub enum LifecycleStatus {
    Running,
    ShuttingDown,
    Stopped,
}

impl LifecycleStatus {
    /// The name of the status as the server reports it.
    pub fn as_str(&self) -> (r: &'static str)
        ensures
            r@ == match self {
                LifecycleStatus::Running => "running"@,
                LifecycleStatus::ShuttingDown => "shutting_down"@,
                LifecycleStatus::Stopped => "stopped"@,
            },
    {
        match self {
            LifecycleStatus::Running => "running",
            LifecycleStatus::ShuttingDown => "shutting_down",
            LifecycleStatus::Stopped => "stopped",
        }
    }
}

/// One defined server as the lifecycle snapshot shows it.
#[derive(Debug)]
pub struct ServerSnapshot {
    pub name: String,
    pub enabled: bool,
    pub running: bool,
    pub command: String,
    pub args: Vec<String>,
}

/// The mathematical content of a server snapshot.
pub struct ServerSnapshotView {
    pub name: Seq<char>,
    pub enabled: bool,
    pub running: bool,
    pub command: Seq<char>,
    pub args: Seq<Seq<char>>,
}

impl View for ServerSnapshot {
    type V = ServerSnapshotView;

    open spec fn view(&self) -> ServerSnapshotView {
        ServerSnapshotView {
            name: self.name@,
            enabled: self.enabled,
            running: self.running,
            command: self.command@,
            args: self.args.deep_view(),
        }
    }
}

/// The servers the stdio server knows, sorted by name, with counts.
#[derive(Debug)]
pub struct LifecycleSnapshot {
    pub status: LifecycleStatus,
    pub servers: Vec<ServerSnapshot>,
    pub defined: usize,
    pub running: usize,
}

/// The mathematical content of a lifecycle snapshot.
pub struct LifecycleView {
    pub status: LifecycleStatus,
    pub servers: Seq<ServerSnapshotView>,
    pub defined: nat,
    pub running: nat,
}

impl View for LifecycleSnapshot {
    type V = LifecycleView;

    open spec fn view(&self) -> LifecycleView {
        LifecycleView {
            status: self.status,
            servers: self.servers@.map_values(|s: ServerSnapshot| s@),
            defined: self.defined as nat,
            running: self.running as nat,
        }
    }
}

/// How many entries of `s` are `true`.
pub open spec fn count_true(s: Seq<bool>) -> nat
    decreases s.len(),
{
    if s.len() == 0 {
        0
    } else {
        count_true(s.drop_last()) + if s.last() {
            1nat
        } else {
            0nat
        }
    }
}

/// The view of the definition of key `k`, if `k` is defined.
pub open spec fn definition_of(m: StrMap<McpServerDefinition>, k: Seq<char>) -> Option<
    ServerDefinitionView,
> {
    match m.lookup(k) {
        Some(d) => Some(d@),
        None => None,
    }
}

/// A reply to a request that succeeded.
#[derive(Debug)]
pub enum RpcReply {
    /// `initialize` and `capabilities`: the server, its transport, its methods, its servers.
    Describe { methods: Vec<&'static str>, lifecycle: LifecycleSnapshot },
    /// `healthz`: the server is up; its servers.
    Health { lifecycle: LifecycleSnapshot },
    /// `tools/list`.
    Tools { tools: Vec<McpToolDescriptor> },
    /// `tools/call`.
    ToolResult { result: Value },
    /// `resources/list`.
    Resources { resources: Vec<McpResourceDescriptor> },
    /// `resources/read`.
    Resource { resource: Value },
    /// `server/*`: the servers after the change.
    Lifecycle { lifecycle: LifecycleSnapshot },
    /// `shutdown`: acknowledged, with the servers.
    Shutdown { lifecycle: LifecycleSnapshot },
}

/// A request with its parameters read.
#[derive(Debug)]
#[allow(inconsistent_fields)]
pub enum StdioRequest {
    Initialize,
    Healthz,
    ToolsList { server: Option<String> },
    ToolsCall {
        name: Option<String>,
        tool: Option<String>,
        server: Option<String>,
        arguments: Value,
    },
    ResourcesList { server: Option<String> },
    ResourcesRead { server: Option<String>, uri: String },
    ServerList,
    ServerRegister { server: McpServerConfig, filter: ToolFilter, start: bool },
    ServerStart { name: String },
    ServerStop { name: String },
    ServerUnregister { name: String },
    Shutdown,
    /// A method the server does not have.
    Unsupported { method: String },
}

/// `"mcp://" + server + suffix`.
pub open spec fn server_uri(server: Seq<char>, suffix: Seq<char>) -> Seq<char> {
    "mcp://"@ + server + suffix
}

/// The health resource of a server.
pub open spec fn health_uri(server: Seq<char>) -> Seq<char> {
    server_uri(server, "/health"@)
}

/// The capabilities resource of a server.
pub open spec fn capabilities_uri(server: Seq<char>) -> Seq<char> {
    server_uri(server, "/capabilities"@)
}

/// `{"status": "ok", "server_name": <server>}`.
pub open spec fn health_value(server: Seq<char>) -> Value {
    json_object_of(seq![("status"@, json_text("ok"@)), ("server_name"@, json_text(server))])
}

/// `{"tools": ["health", "capabilities"], "resources": [<health uri>, <capabilities uri>]}`.
pub open spec fn capabilities_tool_value(server: Seq<char>) -> Value {
    json_object_of(
        seq![
            ("tools"@, json_array_of(seq![json_text("health"@), json_text("capabilities"@)])),
            (
                "resources"@,
                json_array_of(
                    seq![json_text(health_uri(server)), json_text(capabilities_uri(server))],
                ),
            ),
        ],
    )
}

/// The methods a server's capabilities resource lists.
pub open spec fn managed_method_names() -> Seq<Seq<char>> {
    seq![
        "tools/list"@,
        "tools/call"@,
        "resources/list"@,
        "resources/read"@,
        "server/list"@,
        "server/register"@,
        "server/start"@,
        "server/stop"@,
        "server/unregister"@,
    ]
}

/// `{"server_name": <server>, "methods": [...]}`.
pub open spec fn capabilities_resource_value(server: Seq<char>) -> Value {
    json_object_of(
        seq![
            ("server_name"@, json_text(server)),
            ("methods"@, json_array_of(managed_method_names().map_values(|m| json_text(m)))),
        ],
    )
}

/// The client every stdio server runs with: tools `health` and `capabilities`, and the
/// resources `mcp://<server>/health` and `mcp://<server>/capabilities`.
pub open spec fn is_default_client(c: InMemoryMcpClient, server: Seq<char>) -> bool {
    &&& c.tools().keys() == seq!["health"@, "capabilities"@]
    &&& c.tools().values() == seq![health_value(server), capabilities_tool_value(server)]
    &&& c.resources().keys() == seq![health_uri(server), capabilities_uri(server)]
    &&& c.resources().values() == seq![health_value(server), capabilities_resource_value(server)]
}

fn text_value(s: &str) -> (v: Value)
    ensures
        v == json_text(s@),
{
    json_string(String::from_str(s))
}

fn server_uri_string(server: &str, suffix: &str) -> (r: String)
    ensures
        r@ == server_uri(server@, suffix@),
{
    let mut s = String::from_str("mcp://");
    s.append(server);
    s.append(suffix);
    s
}

fn health_json(server: &str) -> (v: Value)
    ensures
        v == health_value(server@),
{
    let mut fields: Vec<(String, Value)> = Vec::new();
    fields.push((String::from_str("status"), text_value("ok")));
    fields.push((String::from_str("server_name"), text_value(server)));
    proof {
        assert(field_pairs(fields@) =~= seq![
            ("status"@, json_text("ok"@)),
            ("server_name"@, json_text(server@)),
        ]);
    }
    json_object(fields)
}

/// The client a stdio server runs with, answering for `server_name`.
pub fn default_stdio_client(server_name: &str) -> (c: InMemoryMcpClient)
    ensures
        is_default_client(c, server_name@),
{
    let health_uri = server_uri_string(server_name, "/health");
    let capabilities_uri = server_uri_string(server_name, "/capabilities");

    let mut tool_names: Vec<Value> = Vec::new();
    tool_names.push(text_value("health"));
    tool_names.push(text_value("capabilities"));
    let mut uris: Vec<Value> = Vec::new();
    uris.push(json_string(health_uri.clone()));
    uris.push(json_string(capabilities_uri.clone()));
    proof {
        assert(tool_names@ =~= seq![json_text("health"@), json_text("capabilities"@)]);
        assert(uris@ =~= seq![
            json_text(crate::stdio::health_uri(server_name@)),
            json_text(crate::stdio::capabilities_uri(server_name@)),
        ]);
    }
    let mut cap_fields: Vec<(String, Value)> = Vec::new();
    cap_fields.push((String::from_str("tools"), json_array(tool_names)));
    cap_fields.push((String::from_str("resources"), json_array(uris)));
    proof {
        assert(field_pairs(cap_fields@) =~= seq![
            ("tools"@, json_array_of(seq![json_text("health"@), json_text("capabilities"@)])),
            (
                "resources"@,
                json_array_of(
                    seq![
                        json_text(crate::stdio::health_uri(server_name@)),
                        json_text(crate::stdio::capabilities_uri(server_name@)),
                    ],
                ),
            ),
        ]);
    }
    let capabilities_tool = json_object(cap_fields);

    let mut methods: Vec<Value> = Vec::new();
    methods.push(text_value("tools/list"));
    methods.push(text_value("tools/call"));
    methods.push(text_value("resources/list"));
    methods.push(text_value("resources/read"));
    methods.push(text_value("server/list"));
    methods.push(text_value("server/register"));
    methods.push(text_value("server/start"));
    methods.push(text_value("server/stop"));
    methods.push(text_value("server/unregister"));
    proof {
        assert(methods@ =~= managed_method_names().map_values(|m| json_text(m)));
    }
    let mut res_fields: Vec<(String, Value)> = Vec::new();
    res_fields.push((String::from_str("server_name"), text_value(server_name)));
    res_fields.push((String::from_str("methods"), json_array(methods)));
    proof {
        assert(field_pairs(res_fields@) =~= seq![
            ("server_name"@, json_text(server_name@)),
            ("methods"@, json_array_of(managed_method_names().map_values(|m| json_text(m)))),
        ]);
    }
    let capabilities_resource = json_object(res_fields);

    let c0 = InMemoryMcpClient::new();
    let hv = health_json(server_name);
    let c1 = c0.with_tool("health", hv);
    proof {
        reveal_strlit("health");
        reveal_strlit("capabilities");
        assert(!c0.tools().keys().contains("health"@));
        assert(c0.tools().find_spec("health"@) is None);
        assert(c0.tools().values() =~= Seq::<Value>::empty());
        assert(c1.tools().keys() =~= seq!["health"@]);
        assert(c1.tools().values() =~= seq![health_value(server_name@)]);
        assert("health"@.len() != "capabilities"@.len());
        assert(!c1.tools().keys().contains("capabilities"@));
    }
    let c = c1.with_tool("capabilities", capabilities_tool);
    proof {
        reveal_strlit("/health");
        reveal_strlit("/capabilities");
        assert(c.tools().keys() =~= seq!["health"@, "capabilities"@]);
        assert(c.tools().values() =~= seq![
            health_value(server_name@),
            capabilities_tool_value(server_name@),
        ]);
        assert(!c.resources().keys().contains(health_uri@));
    }
    let hv2 = health_json(server_name);
    let c2 = c.with_resource(health_uri.as_str(), hv2);
    proof {
        assert(c.resources().find_spec(health_uri@) is None);
        assert(c.resources().values() =~= Seq::<Value>::empty());
        assert(c2.resources().keys() =~= seq![crate::stdio::health_uri(server_name@)]);
        assert(c2.resources().values() =~= seq![health_value(server_name@)]);
        assert(crate::stdio::health_uri(server_name@).len() != crate::stdio::capabilities_uri(
            server_name@,
        ).len());
        assert(!c2.resources().keys().contains(capabilities_uri@));
        assert(c2.resources().find_spec(capabilities_uri@) is None);
    }
    let c = c2.with_resource(capabilities_uri.as_str(), capabilities_resource);
    proof {
        assert(c.resources().keys() =~= seq![
            crate::stdio::health_uri(server_name@),
            crate::stdio::capabilities_uri(server_name@),
        ]);
        assert(c.resources().values() =~= seq![
            health_value(server_name@),
            capabilities_resource_value(server_name@),
        ]);
    }
    c
}

/// The state of the stdio server: the manager, every defined server, which servers run,
/// and where the server is in its life.
pub struct StdioMcpState {
    manager: McpManager<InMemoryMcpClient>,
    definitions: StrMap<McpServerDefinition>,
    running: StrMap<bool>,
    lifecycle: LifecycleStatus,
}

impl StdioMcpState {
    /// The manager that holds the running servers.
    pub closed spec fn manager(&self) -> McpManager<InMemoryMcpClient> {
        self.manager
    }

    /// Every defined server, by name.
    pub closed spec fn definitions(&self) -> StrMap<McpServerDefinition> {
        self.definitions
    }

    /// Whether each server runs, by name.
    pub closed spec fn running(&self) -> StrMap<bool> {
        self.running
    }

    /// Where the server is in its life.
    pub closed spec fn lifecycle(&self) -> LifecycleStatus {
        self.lifecycle
    }

    /// Server `k` is marked running.
    pub open spec fn is_running(&self, k: Seq<char>) -> bool {
        self.running().lookup(k) == Some(true)
    }

    /// The state is consistent: a server marked running has a client, each definition is
    /// filed under its configured name, the manager knows only defined servers, each server
    /// with a client has a configuration, every client is the default client of its server,
    /// a running server is served with the configuration and filter of its definition, and
    /// no map holds a key twice.
    pub open spec fn wf(&self) -> bool {
        &&& forall|k: Seq<char>| #[trigger] self.is_running(k) ==> self.manager().clients.has(k)
        &&& forall|i: int|
            0 <= i < self.definitions().keys().len() ==> (
            #[trigger] self.definitions().values()[i]).config.name@
                == self.definitions().keys()[i]
        &&& forall|k: Seq<char>| #[trigger]
            self.manager().clients.has(k) ==> self.definitions().has(k)
        &&& forall|k: Seq<char>| #[trigger]
            self.manager().configs.has(k) ==> self.definitions().has(k)
        &&& forall|k: Seq<char>|
            self.manager().clients.has(k) ==> #[trigger] self.manager().configs.has(k)
        &&& forall|k: Seq<char>| #[trigger]
            self.manager().clients.has(k) ==> self.runs_default_client(k)
        &&& forall|k: Seq<char>| #[trigger]
            self.is_running(k) ==> (definition_of(self.definitions(), k) matches Some(d)
                && config_entry(self.manager(), k) == Some(definition_entry(d)))
        &&& self.maps_valid()
    }

    /// No map of the state holds a key twice, and each has one value per key.
    pub open spec fn maps_valid(&self) -> bool {
        &&& self.definitions().keys().no_duplicates()
        &&& self.definitions().keys().len() == self.definitions().values().len()
        &&& self.running().keys().no_duplicates()
        &&& self.running().keys().len() == self.running().values().len()
        &&& self.manager().clients.keys().no_duplicates()
        &&& self.manager().clients.keys().len() == self.manager().clients.values().len()
        &&& self.manager().configs.keys().no_duplicates()
        &&& self.manager().configs.keys().len() == self.manager().configs.values().len()
    }

    /// Each defined server as the snapshot shows it, keyed by name, in definition order.
    pub open spec fn snapshot_entries(&self) -> Seq<(Seq<char>, ServerSnapshotView)> {
        let ks = self.definitions().keys();
        let vs = self.definitions().values();
        Seq::new(
            ks.len(),
            |i: int|
                (
                    ks[i],
                    ServerSnapshotView {
                        name: ks[i],
                        enabled: vs[i].config.enabled,
                        running: self.is_running(ks[i]),
                        command: vs[i].config.command@,
                        args: vs[i].config.args.deep_view(),
                    },
                ),
        )
    }

    /// The lifecycle snapshot: the status, the defined servers sorted by name, how many are
    /// defined and how many are marked running.
    pub open spec fn snapshot_view(&self) -> LifecycleView {
        LifecycleView {
            status: self.lifecycle(),
            servers: sort_by_key(self.snapshot_entries()).map_values(
                |e: (Seq<char>, ServerSnapshotView)| e.1,
            ),
            defined: self.definitions().keys().len(),
            running: count_true(self.running().values()),
        }
    }

    /// With distinct server names, the snapshot lists the servers in strictly increasing
    /// order of names.
    proof fn lemma_snapshot_names_increase(&self)
        requires
            self.definitions().keys().no_duplicates(),
            self.definitions().keys().len() == self.definitions().values().len(),
        ensures
            forall|i: int, j: int|
                0 <= i < j < self.snapshot_view().servers.len() ==> text_less(
                    #[trigger] self.snapshot_view().servers[i].name,
                    #[trigger] self.snapshot_view().servers[j].name,
                ),
    {
        let e = self.snapshot_entries();
        assert(keys_of(e) =~= self.definitions().keys());
        lemma_sorted_keys_increase(e);
        lemma_sort_same_items(e);
        lemma_sort_by_key(e);
        let srt = sort_by_key(e);
        let v = self.snapshot_view().servers;
        assert forall|i: int| 0 <= i < srt.len() implies (#[trigger] srt[i]).1.name == srt[i].0 by {
            assert(srt.contains(srt[i]));
            let j = choose|j: int| 0 <= j < e.len() && e[j] == srt[i];
        }
        assert forall|i: int, j: int| 0 <= i < j < v.len() implies text_less(
            #[trigger] v[i].name,
            #[trigger] v[j].name,
        ) by {
            assert(v[i] == srt[i].1 && v[j] == srt[j].1);
            assert(srt[i].1.name == srt[i].0);
            assert(srt[j].1.name == srt[j].0);
        }
    }

    /// The lifecycle snapshot of the current state; it names each defined server once, in
    /// increasing order of names.
    pub fn lifecycle_snapshot(&self) -> (r: LifecycleSnapshot)
        ensures
            r@ == self.snapshot_view(),
            forall|i: int, j: int|
                0 <= i < j < r@.servers.len() ==> text_less(
                    #[trigger] r@.servers[i].name,
                    #[trigger] r@.servers[j].name,
                ),
    {
        proof {
            use_type_invariant(&self.definitions);
            self.definitions.lemma_inv();
            self.lemma_snapshot_names_increase();
        }
        let n = self.definitions.len();
        let mut items: Vec<(Vec<char>, ServerSnapshot)> = Vec::new();
        let mut i: usize = 0;
        while i < n
            invariant
                i <= n,
                n == self.definitions().keys().len(),
                n == self.definitions().values().len(),
                items@.len() == i,
                forall|j: int|
                    0 <= j < i ==> (#[trigger] items@[j]).0@ == self.snapshot_entries()[j].0
                        && items@[j].1@ == self.snapshot_entries()[j].1,
            decreases n - i,
        {
            let name = self.definitions.key_at(i);
            let def = self.definitions.value_at(i);
            let is_running = match self.running.get(name.as_str()) {
                Some(b) => *b,
                None => false,
            };
            let args = def.config.args.clone();
            proof {
                assert(args.deep_view() =~= def.config.args.deep_view());
            }
            let snap = ServerSnapshot {
                name: name.clone(),
                enabled: def.config.enabled,
                running: is_running,
                command: def.config.command.clone(),
                args,
            };
            items.push((chars_of(name.as_str()), snap));
            i = i + 1;
        }
        let ghost unsorted = keyed_view(items@);
        proof {
            let f = |t: ServerSnapshot| t@;
            assert(map_payload(unsorted, f) =~= self.snapshot_entries());
            lemma_sort_map_payload(unsorted, f);
        }
        let sorted = sort_keyed(items);
        let mut servers: Vec<ServerSnapshot> = Vec::new();
        for e in it: sorted.into_iter()
            invariant
                keyed_view(it.seq()) == sort_by_key(unsorted),
                servers@.map_values(|s: ServerSnapshot| s@) == it.seq().take(
                    it.index() as int,
                ).map_values(|e: (Vec<char>, ServerSnapshot)| e.1@),
        {
            let ghost before = servers@;
            let (_k, snap) = e;
            servers.push(snap);
            proof {
                assert(it.seq().take(it.index() + 1) =~= it.seq().take(it.index() as int).push(e));
                assert(servers@.map_values(|s: ServerSnapshot| s@) =~= before.map_values(
                    |s: ServerSnapshot| s@,
                ).push(e.1@));
            }
        }
        let running = count_running(&self.running);
        let r = LifecycleSnapshot { status: self.lifecycle, servers, defined: n, running };
        proof {
            let f = |t: ServerSnapshot| t@;
            let srt = sort_by_key(unsorted);
            assert(r@.servers =~= map_payload(srt, f).map_values(
                |e: (Seq<char>, ServerSnapshotView)| e.1,
            ));
        }
        r
    }
}

/// How many servers are marked running.
fn count_running(running: &StrMap<bool>) -> (r: usize)
    ensures
        r == count_true(running.values()),
{
    let n = running.len();
    let mut c: usize = 0;
    let mut i: usize = 0;
    while i < n
        invariant
            i <= n,
            n == running.values().len(),
            n == running.keys().len(),
            c == count_true(running.values().take(i as int)),
            c <= i,
        decreases n - i,
    {
        proof {
            assert(running.values().take(i + 1).drop_last() =~= running.values().take(i as int));
        }
        if *running.value_at(i) {
            c = c + 1;
        }
        i = i + 1;
    }
    proof {
        assert(running.values().take(n as int) =~= running.values());
    }
    c
}

impl StdioMcpState {
    /// Each definition keyed by its name, in definition order.
    pub open spec fn definition_entries(&self) -> Seq<(Seq<char>, ServerDefinitionView)> {
        Seq::new(
            self.definitions().keys().len(),
            |i: int| (self.definitions().keys()[i], self.definitions().values()[i]@),
        )
    }

    /// Ends the server: the definitions it holds, sorted by name (each name once).
    pub fn finish(self) -> (r: Vec<McpServerDefinition>)
        requires
            self.wf(),
        ensures
            r@.map_values(|d: McpServerDefinition| d@) == sort_by_key(
                self.definition_entries(),
            ).map_values(|e: (Seq<char>, ServerDefinitionView)| e.1),
            forall|i: int, j: int|
                0 <= i < j < r@.len() ==> text_less(
                    #[trigger] r@[i].config.name@,
                    #[trigger] r@[j].config.name@,
                ),
    {
        proof {
            use_type_invariant(&self.definitions);
            self.definitions.lemma_inv();
        }
        let ghost entries = self.definition_entries();
        let ghost keys = self.definitions().keys();
        let ghost f = |d: McpServerDefinition| d@;
        let values = self.definitions.into_values();
        let mut items: Vec<(Vec<char>, McpServerDefinition)> = Vec::new();
        for d in it: values.into_iter()
            invariant
                it.seq() == self.definitions().values(),
                keys == self.definitions().keys(),
                keys.len() == it.seq().len(),
                entries == self.definition_entries(),
                filed_by_name(self.definitions()),
                f == (|d: McpServerDefinition| d@),
                map_payload(keyed_view(items@), f) == entries.take(it.index() as int),
        {
            let ghost i = it.index() as int;
            let ghost before = keyed_view(items@);
            let key = chars_of(d.config.name.as_str());
            proof {
                assert(self.definitions().values()[i].config.name@ == keys[i]);
            }
            items.push((key, d));
            proof {
                assert(keyed_view(items@) =~= before.push((key@, d)));
                assert(entries.take(i + 1) =~= entries.take(i).push(entries[i]));
                assert(map_payload(keyed_view(items@), f) =~= map_payload(before, f).push(
                    (key@, f(d)),
                ));
            }
        }
        let ghost unsorted = keyed_view(items@);
        proof {
            assert(entries.take(entries.len() as int) =~= entries);
            lemma_sort_map_payload(unsorted, f);
        }
        let sorted = sort_keyed(items);
        let mut out: Vec<McpServerDefinition> = Vec::new();
        for e in it: sorted.into_iter()
            invariant
                keyed_view(it.seq()) == sort_by_key(unsorted),
                out@.map_values(|d: McpServerDefinition| d@) == it.seq().take(
                    it.index() as int,
                ).map_values(|e: (Vec<char>, McpServerDefinition)| e.1@),
        {
            let ghost before = out@;
            let (_k, d) = e;
            out.push(d);
            proof {
                assert(it.seq().take(it.index() + 1) =~= it.seq().take(it.index() as int).push(e));
                assert(out@.map_values(|d: McpServerDefinition| d@) =~= before.map_values(
                    |d: McpServerDefinition| d@,
                ).push(e.1@));
            }
        }
        proof {
            let srt = sort_by_key(entries);
            assert(srt == map_payload(sort_by_key(unsorted), f));
            assert(out@.map_values(|d: McpServerDefinition| d@) =~= srt.map_values(
                |e: (Seq<char>, ServerDefinitionView)| e.1,
            ));
            assert(keys_of(entries) =~= keys);
            lemma_sorted_keys_increase(entries);
            lemma_sort_same_items(entries);
            lemma_sort_by_key(entries);
            assert forall|i: int| 0 <= i < srt.len() implies (#[trigger] srt[i]).1.config.name
                == srt[i].0 by {
                assert(srt.contains(srt[i]));
                let j = choose|j: int| 0 <= j < entries.len() && entries[j] == srt[i];
            }
            assert forall|i: int, j: int| 0 <= i < j < out@.len() implies text_less(
                #[trigger] out@[i].config.name@,
                #[trigger] out@[j].config.name@,
            ) by {
                let v = out@.map_values(|d: McpServerDefinition| d@);
                assert(v[i] == out@[i]@ && v[j] == out@[j]@);
                assert(v[i] == srt[i].1 && v[j] == srt[j].1);
            }
        }
        out
    }
}

/// Every definition is filed under its configured name.
pub open spec fn filed_by_name(m: StrMap<McpServerDefinition>) -> bool {
    forall|i: int|
        0 <= i < m.keys().len() ==> (#[trigger] m.values()[i]).config.name@ == m.keys()[i]
}

proof fn lemma_filed_after_insert(
    before: StrMap<McpServerDefinition>,
    after: StrMap<McpServerDefinition>,
    k: Seq<char>,
    v: McpServerDefinition,
)
    requires
        filed_by_name(before),
        before.keys().len() == before.values().len(),
        v.config.name@ == k,
        after.keys() == before.keys_after_insert(k),
        after.values() == before.values_after_insert(k, v),
    ensures
        filed_by_name(after),
{
    assert forall|i: int| 0 <= i < after.keys().len() implies (#[trigger] after.values()[i]).config.name@
        == after.keys()[i] by {
        match before.find_spec(k) {
            Some(j) => {
                assert(before.keys()[j] == k);
                if i != j {
                    assert(after.values()[i] == before.values()[i]);
                }
            },
            None => {
                if i < before.keys().len() {
                    assert(after.values()[i] == before.values()[i]);
                }
            },
        }
    }
}

proof fn lemma_filed_after_remove(
    before: StrMap<McpServerDefinition>,
    after: StrMap<McpServerDefinition>,
    k: Seq<char>,
)
    requires
        filed_by_name(before),
        before.keys().len() == before.values().len(),
        after.keys() == before.keys_after_remove(k),
        after.values() == before.values_after_remove(k),
    ensures
        filed_by_name(after),
{
    assert forall|i: int| 0 <= i < after.keys().len() implies (#[trigger] after.values()[i]).config.name@
        == after.keys()[i] by {
        match before.find_spec(k) {
            Some(j) => {
                let bi = if i < j { i } else { i + 1 };
                assert(after.values()[i] == before.values()[bi]);
                assert(after.keys()[i] == before.keys()[bi]);
            },
            None => {},
        }
    }
}

/// The last of `defs` configured under name `k`.
pub open spec fn last_named(defs: Seq<ServerDefinitionView>, k: Seq<char>) -> Option<
    ServerDefinitionView,
>
    decreases defs.len(),
{
    if defs.len() == 0 {
        None
    } else if defs.last().config.name == k {
        Some(defs.last())
    } else {
        last_named(defs.drop_last(), k)
    }
}

/// Some enabled definition of `defs` is configured under name `k`.
pub open spec fn some_enabled_named(defs: Seq<ServerDefinitionView>, k: Seq<char>) -> bool {
    exists|i: int| 0 <= i < defs.len() && (#[trigger] defs[i]).config.name == k && defs[i].config.enabled
}

/// The last enabled definition of `defs` configured under name `k`.
pub open spec fn last_enabled_named(defs: Seq<ServerDefinitionView>, k: Seq<char>) -> Option<
    ServerDefinitionView,
>
    decreases defs.len(),
{
    if defs.len() == 0 {
        None
    } else if defs.last().config.name == k && defs.last().config.enabled {
        Some(defs.last())
    } else {
        last_enabled_named(defs.drop_last(), k)
    }
}

/// The state built from the initial definitions: each name defined by its last definition and
/// marked running as that definition is enabled; a server has a configuration and a client
/// in the manager when some definition of its name is enabled, and the manager holds the
/// configuration and filter of the last enabled one.
pub open spec fn built_from(s: StdioMcpState, defs: Seq<ServerDefinitionView>) -> bool {
    &&& s.lifecycle() == LifecycleStatus::Running
    &&& forall|k: Seq<char>| #[trigger]
        definition_of(s.definitions(), k) == last_named(defs, k)
    &&& forall|k: Seq<char>| #[trigger]
        s.running().lookup(k) == match last_named(defs, k) {
            Some(d) => Some(d.config.enabled),
            None => None,
        }
    &&& forall|k: Seq<char>| #[trigger]
        s.manager().clients.has(k) == some_enabled_named(defs, k)
    &&& forall|k: Seq<char>| #[trigger]
        s.manager().configs.has(k) == some_enabled_named(defs, k)
    &&& forall|k: Seq<char>| #[trigger]
        config_entry(s.manager(), k) == match last_enabled_named(defs, k) {
            Some(d) => Some(definition_entry(d)),
            None => None,
        }
}

/// The state the stdio server starts in: each initial definition is recorded under its name
/// (a later one replacing an earlier one) and each enabled one is registered with the
/// manager and marked running.
pub fn build_stdio_state(initial_definitions: Vec<McpServerDefinition>) -> (s: StdioMcpState)
    ensures
        s.wf(),
        built_from(s, initial_definitions@.map_values(|d: McpServerDefinition| d@)),
{
    let ghost all = initial_definitions@.map_values(|d: McpServerDefinition| d@);
    let mut manager: McpManager<InMemoryMcpClient> = McpManager::new();
    let mut definitions: StrMap<McpServerDefinition> = StrMap::new();
    let mut running: StrMap<bool> = StrMap::new();
    proof {
        assert(all.take(0) =~= Seq::<ServerDefinitionView>::empty());
        assert forall|k: Seq<char>| !(#[trigger] manager.clients.has(k)) by {}
    }
    for d in it: initial_definitions.into_iter()
        invariant
            all == it.seq().map_values(|d: McpServerDefinition| d@),
            it.index() <= all.len(),
            filed_by_name(definitions),
            forall|k: Seq<char>| #[trigger]
                definition_of(definitions, k) == last_named(all.take(it.index() as int), k),
            forall|k: Seq<char>| #[trigger]
                running.lookup(k) == match last_named(all.take(it.index() as int), k) {
                    Some(d) => Some(d.config.enabled),
                    None => None,
                },
            forall|k: Seq<char>| #[trigger]
                manager.clients.has(k) == some_enabled_named(all.take(it.index() as int), k),
            forall|k: Seq<char>| #[trigger]
                manager.configs.has(k) == some_enabled_named(all.take(it.index() as int), k),
            forall|k: Seq<char>| #[trigger]
                manager.clients.has(k) ==> (manager.clients.lookup(k) matches Some(c)
                    && is_default_client(c, k)),
            forall|k: Seq<char>| #[trigger]
                config_entry(manager, k) == match last_enabled_named(
                    all.take(it.index() as int),
                    k,
                ) {
                    Some(d) => Some(definition_entry(d)),
                    None => None,
                },
    {
        let ghost idx = it.index() as int;
        let ghost pre = all.take(idx);
        let ghost post = all.take(idx + 1);
        proof {
            assert(post.drop_last() =~= pre);
            assert(post.last() == d@);
        }
        let ghost defs0 = definitions;
        let ghost run0 = running;
        let ghost mgr0 = manager;
        proof {
            use_type_invariant(&definitions);
            use_type_invariant(&running);
            use_type_invariant(&manager.clients);
            use_type_invariant(&manager.configs);
            definitions.lemma_inv();
            running.lemma_inv();
            manager.clients.lemma_inv();
            manager.configs.lemma_inv();
        }
        let name = d.config.name.clone();
        let enabled = d.config.enabled;
        let ghost dv = d@;
        if enabled {
            let client = default_stdio_client(name.as_str());
            let config = d.config.clone();
            let filter = d.filter.clone();
            let ghost entry = (config, filter);
            let ghost cv = client;
            manager.register_server(config, filter, client);
            proof {
                assert forall|k: Seq<char>| #[trigger] manager.clients.has(k) implies (
                manager.clients.lookup(k) matches Some(c) && is_default_client(c, k)) by {
                    lemma_lookup_after_insert(mgr0.clients, manager.clients, name@, cv, k);
                }
                assert forall|k: Seq<char>|
                    #![trigger manager.clients.has(k)]
                    #![trigger manager.configs.has(k)]
                    manager.clients.has(k) == (k == dv.config.name || mgr0.clients.has(k))
                        && manager.configs.has(k) == (k == dv.config.name || mgr0.configs.has(
                        k,
                    )) by {
                    lemma_lookup_after_insert(
                        mgr0.clients,
                        manager.clients,
                        dv.config.name,
                        cv,
                        k,
                    );
                    lemma_lookup_after_insert(
                        mgr0.configs,
                        manager.configs,
                        dv.config.name,
                        entry,
                        k,
                    );
                }
                assert forall|k: Seq<char>| #[trigger]
                    config_entry(manager, k) == if k == dv.config.name {
                        Some(definition_entry(dv))
                    } else {
                        config_entry(mgr0, k)
                    } by {
                    lemma_lookup_after_insert(
                        mgr0.configs,
                        manager.configs,
                        dv.config.name,
                        entry,
                        k,
                    );
                }
            }
        }
        proof {
            assert forall|k: Seq<char>| #[trigger]
                config_entry(manager, k) == match last_enabled_named(post, k) {
                    Some(d) => Some(definition_entry(d)),
                    None => None,
                } by {
                assert(config_entry(mgr0, k) == match last_enabled_named(pre, k) {
                    Some(d) => Some(definition_entry(d)),
                    None => None,
                });
                if !(enabled && k == dv.config.name) {
                    assert(last_enabled_named(post, k) == last_enabled_named(pre, k));
                }
            }
        }
        definitions.insert(name.clone(), d);
        running.insert(name, enabled);
        proof {
            lemma_filed_after_insert(defs0, definitions, dv.config.name, d);
            assert forall|k: Seq<char>| #[trigger]
                definition_of(definitions, k) == last_named(post, k) by {
                lemma_lookup_after_insert(defs0, definitions, dv.config.name, d, k);
                if k != dv.config.name {
                    assert(last_named(post, k) == last_named(pre, k));
                    assert(definition_of(defs0, k) == last_named(pre, k));
                }
            }
            assert forall|k: Seq<char>| #[trigger]
                running.lookup(k) == match last_named(post, k) {
                    Some(d) => Some(d.config.enabled),
                    None => None,
                } by {
                lemma_lookup_after_insert(run0, running, dv.config.name, enabled, k);
                if k != dv.config.name {
                    assert(last_named(post, k) == last_named(pre, k));
                }
            }
            assert forall|k: Seq<char>|
                #![trigger manager.clients.has(k)]
                #![trigger manager.configs.has(k)]
                manager.clients.has(k) == some_enabled_named(post, k) && manager.configs.has(k)
                    == some_enabled_named(post, k) by {
                assert(mgr0.clients.has(k) == some_enabled_named(pre, k));
                assert(mgr0.configs.has(k) == some_enabled_named(pre, k));
                if some_enabled_named(pre, k) {
                    let i = choose|i: int|
                        0 <= i < pre.len() && (#[trigger] pre[i]).config.name == k
                            && pre[i].config.enabled;
                    assert(post[i] == pre[i]);
                }
                if some_enabled_named(post, k) {
                    let i = choose|i: int|
                        0 <= i < post.len() && (#[trigger] post[i]).config.name == k
                            && post[i].config.enabled;
                    if i < pre.len() {
                        assert(pre[i] == post[i]);
                    }
                }
                if enabled && k == dv.config.name {
                    assert(post[post.len() - 1] == dv);
                }
            }
        }
    }
    let s = StdioMcpState { manager, definitions, running, lifecycle: LifecycleStatus::Running };
    proof {
        assert(all.take(all.len() as int) =~= all);
        assert forall|k: Seq<char>| #[trigger] s.is_running(k) implies s.manager().clients.has(k) by {
            lemma_last_named_enabled(all, k);
        }
        assert forall|k: Seq<char>| #[trigger] s.manager().clients.has(k) implies s.definitions().has(
            k,
        ) by {
            lemma_enabled_named_defined(all, k);
            assert(definition_of(definitions, k) == last_named(all, k));
        }
        assert forall|k: Seq<char>| #[trigger] s.manager().configs.has(k) implies s.definitions().has(
            k,
        ) by {
            lemma_enabled_named_defined(all, k);
            assert(definition_of(definitions, k) == last_named(all, k));
        }
        assert forall|k: Seq<char>| s.manager().clients.has(k) implies #[trigger] s.manager().configs.has(
            k,
        ) by {}
        assert forall|k: Seq<char>| #[trigger] s.manager().clients.has(k) implies s.runs_default_client(
            k,
        ) by {
            assert(manager.clients.has(k));
        }
        assert forall|k: Seq<char>| #[trigger] s.is_running(k) implies (definition_of(
            s.definitions(),
            k,
        ) matches Some(d) && config_entry(s.manager(), k) == Some(definition_entry(d))) by {
            lemma_last_named_enabled_is_last_enabled(all, k);
            assert(definition_of(definitions, k) == last_named(all, k));
            assert(config_entry(manager, k) == match last_enabled_named(all, k) {
                Some(d) => Some(definition_entry(d)),
                None => None,
            });
        }
        use_type_invariant(&s.definitions);
        use_type_invariant(&s.running);
        use_type_invariant(&s.manager.clients);
        use_type_invariant(&s.manager.configs);
        s.definitions.lemma_inv();
        s.running.lemma_inv();
        s.manager.clients.lemma_inv();
        s.manager.configs.lemma_inv();
    }
    s
}

proof fn lemma_last_named_enabled(defs: Seq<ServerDefinitionView>, k: Seq<char>)
    ensures
        last_named(defs, k) matches Some(d) && d.config.enabled ==> some_enabled_named(defs, k),
    decreases defs.len(),
{
    if defs.len() > 0 {
        if defs.last().config.name == k {
            if defs.last().config.enabled {
                assert(defs[defs.len() - 1] == defs.last());
            }
        } else {
            lemma_last_named_enabled(defs.drop_last(), k);
            if some_enabled_named(defs.drop_last(), k) {
                let i = choose|i: int| 0 <= i < defs.drop_last().len() && (#[trigger] defs.drop_last()[i]).config.name == k && defs.drop_last()[i].config.enabled;
                assert(defs[i] == defs.drop_last()[i]);
            }
        }
    }
}

proof fn lemma_last_named_enabled_is_last_enabled(defs: Seq<ServerDefinitionView>, k: Seq<char>)
    ensures
        last_named(defs, k) matches Some(d) ==> (d.config.enabled ==> last_enabled_named(
            defs,
            k,
        ) == Some(d)),
    decreases defs.len(),
{
    if defs.len() > 0 && defs.last().config.name != k {
        lemma_last_named_enabled_is_last_enabled(defs.drop_last(), k);
    }
}

proof fn lemma_enabled_named_defined(defs: Seq<ServerDefinitionView>, k: Seq<char>)
    ensures
        some_enabled_named(defs, k) ==> last_named(defs, k) is Some,
    decreases defs.len(),
{
    if defs.len() > 0 && defs.last().config.name != k {
        lemma_enabled_named_defined(defs.drop_last(), k);
        if some_enabled_named(defs, k) {
            let i = choose|i: int| 0 <= i < defs.len() && (#[trigger] defs[i]).config.name == k && defs[i].config.enabled;
            assert(i < defs.len() - 1);
            assert(defs.drop_last()[i] == defs[i]);
        }
    }
}


/// `"server '" + name + "' is not defined"`.
pub open spec fn not_defined_message(name: Seq<char>) -> Seq<char> {
    "server '"@ + name + "' is not defined"@
}

/// `"server '" + name + "' is disabled"`.
pub open spec fn disabled_message(name: Seq<char>) -> Seq<char> {
    "server '"@ + name + "' is disabled"@
}

/// The views of the configuration and filter the manager holds for server `k`, if any.
pub open spec fn config_entry(m: McpManager<InMemoryMcpClient>, k: Seq<char>) -> Option<
    (ServerConfigView, ToolFilterView),
> {
    match m.configs.lookup(k) {
        Some(e) => Some((e.0@, e.1@)),
        None => None,
    }
}

/// The configuration and filter a definition gives.
pub open spec fn definition_entry(d: ServerDefinitionView) -> (ServerConfigView, ToolFilterView) {
    (d.config, d.filter)
}

impl StdioMcpState {
    /// `after` differs from `self` in server `k` alone: `k` is defined as `d`, marked as `run`
    /// says, has a client when `client`, and the manager holds `config` (views of its
    /// configuration and filter) for it; every other server keeps its client and the
    /// configuration and filter the manager holds for it.
    pub open spec fn changed_at(
        self,
        after: StdioMcpState,
        k: Seq<char>,
        d: Option<ServerDefinitionView>,
        run: Option<bool>,
        client: bool,
        config: Option<(ServerConfigView, ToolFilterView)>,
    ) -> bool {
        &&& after.lifecycle() == self.lifecycle()
        &&& forall|q: Seq<char>| #[trigger]
            definition_of(after.definitions(), q) == if q == k {
                d
            } else {
                definition_of(self.definitions(), q)
            }
        &&& forall|q: Seq<char>| #[trigger]
            after.running().lookup(q) == if q == k {
                run
            } else {
                self.running().lookup(q)
            }
        &&& forall|q: Seq<char>| #[trigger]
            after.manager().clients.has(q) == if q == k {
                client
            } else {
                self.manager().clients.has(q)
            }
        &&& config_entry(after.manager(), k) == config
        &&& forall|q: Seq<char>|
            q != k ==> #[trigger] after.manager().configs.lookup(q) == self.manager().configs.lookup(
                q,
            )
        &&& forall|q: Seq<char>|
            q != k ==> #[trigger] after.manager().clients.lookup(q) == self.manager().clients.lookup(
                q,
            )
    }

    /// Server `k` runs the default client.
    pub open spec fn runs_default_client(&self, k: Seq<char>) -> bool {
        self.manager().clients.lookup(k) matches Some(c) && is_default_client(c, k)
    }

    /// Records `definition` under `name`, replacing what the manager held for that name, and
    /// starts it with the default client when `run`.
    fn define(&mut self, name: String, definition: McpServerDefinition, run: bool)
        requires
            old(self).wf(),
            definition.config.name@ == name@,
        ensures
            final(self).wf(),
            old(self).changed_at(
                *final(self),
                name@,
                Some(definition@),
                Some(run),
                run,
                if run {
                    Some(definition_entry(definition@))
                } else {
                    None
                },
            ),
            run ==> final(self).runs_default_client(name@),
    {
        proof {
            use_type_invariant(&self.definitions);
            use_type_invariant(&self.running);
            use_type_invariant(&self.manager.clients);
            use_type_invariant(&self.manager.configs);
            self.definitions.lemma_inv();
            self.running.lemma_inv();
            self.manager.clients.lemma_inv();
            self.manager.configs.lemma_inv();
        }
        let ghost before = *self;
        let ghost dv = definition@;
        if self.definitions.contains_key(name.as_str()) {
            let _ = self.manager.unregister_server(name.as_str());
        }
        let ghost mid = self.manager;
        proof {
            use_type_invariant(&self.manager.clients);
            use_type_invariant(&self.manager.configs);
            self.manager.clients.lemma_inv();
            self.manager.configs.lemma_inv();
            assert forall|q: Seq<char>|
                #![trigger mid.clients.has(q)]
                #![trigger mid.configs.has(q)]
                mid.clients.has(q) == (q != name@ && before.manager.clients.has(q))
                    && mid.configs.has(q) == (q != name@ && before.manager.configs.has(q)) by {
                if before.definitions.has(name@) {
                    lemma_lookup_after_remove(before.manager.clients, mid.clients, name@, q);
                    lemma_lookup_after_remove(before.manager.configs, mid.configs, name@, q);
                } else {
                    assert(!before.manager().clients.has(name@));
                    assert(!before.manager().configs.has(name@));
                }
            }
            assert forall|q: Seq<char>| q != name@ implies #[trigger] mid.clients.lookup(q)
                == before.manager.clients.lookup(q) by {
                if before.definitions.has(name@) {
                    lemma_lookup_after_remove(before.manager.clients, mid.clients, name@, q);
                }
            }
            assert forall|q: Seq<char>| q != name@ implies #[trigger] mid.configs.lookup(q)
                == before.manager.configs.lookup(q) by {
                if before.definitions.has(name@) {
                    lemma_lookup_after_remove(before.manager.configs, mid.configs, name@, q);
                }
            }
            assert(!mid.configs.has(name@));
        }
        if run {
            let client = default_stdio_client(name.as_str());
            let config = definition.config.clone();
            let filter = definition.filter.clone();
            let ghost entry = (config, filter);
            let ghost cv = client;
            self.manager.register_server(config, filter, client);
            proof {
                assert forall|q: Seq<char>|
                    #![trigger self.manager.clients.has(q)]
                    #![trigger self.manager.configs.has(q)]
                    self.manager.clients.has(q) == (q == name@ || mid.clients.has(q))
                        && self.manager.configs.has(q) == (q == name@ || mid.configs.has(q)) by {
                    lemma_lookup_after_insert(mid.clients, self.manager.clients, name@, cv, q);
                    lemma_lookup_after_insert(mid.configs, self.manager.configs, name@, entry, q);
                }
                lemma_lookup_after_insert(mid.clients, self.manager.clients, name@, cv, name@);
                lemma_lookup_after_insert(mid.configs, self.manager.configs, name@, entry, name@);
                assert(config_entry(self.manager, name@) == Some(definition_entry(dv)));
                assert forall|q: Seq<char>| q != name@ implies #[trigger] self.manager.clients.lookup(q)
                    == mid.clients.lookup(q) by {
                    lemma_lookup_after_insert(mid.clients, self.manager.clients, name@, cv, q);
                }
                assert forall|q: Seq<char>| q != name@ implies #[trigger] self.manager.configs.lookup(q)
                    == mid.configs.lookup(q) by {
                    lemma_lookup_after_insert(mid.configs, self.manager.configs, name@, entry, q);
                }
            }
        }
        proof {
            assert forall|q: Seq<char>| q != name@ implies #[trigger] self.manager().clients.lookup(q)
                == before.manager().clients.lookup(q) by {
                assert(mid.clients.lookup(q) == before.manager.clients.lookup(q));
            }
            assert forall|q: Seq<char>| q != name@ implies #[trigger] self.manager().configs.lookup(q)
                == before.manager().configs.lookup(q) by {
                assert(mid.configs.lookup(q) == before.manager.configs.lookup(q));
            }
            if !run {
                assert(config_entry(self.manager(), name@) is None);
            }
        }
        let ghost defs0 = self.definitions;
        let ghost run0 = self.running;
        proof {
            assert(defs0 == before.definitions());
            assert(filed_by_name(defs0));
        }
        self.definitions.insert(name.clone(), definition);
        self.running.insert(name, run);
        proof {
            lemma_filed_after_insert(defs0, self.definitions, name@, definition);
            assert forall|q: Seq<char>| #[trigger]
                definition_of(self.definitions, q) == if q == name@ {
                    Some(dv)
                } else {
                    definition_of(before.definitions, q)
                } by {
                lemma_lookup_after_insert(defs0, self.definitions, name@, definition, q);
            }
            assert forall|q: Seq<char>| #[trigger]
                self.running.lookup(q) == if q == name@ {
                    Some(run)
                } else {
                    before.running.lookup(q)
                } by {
                lemma_lookup_after_insert(run0, self.running, name@, run, q);
            }
            use_type_invariant(&self.definitions);
            use_type_invariant(&self.running);
            use_type_invariant(&self.manager.clients);
            use_type_invariant(&self.manager.configs);
            self.definitions.lemma_inv();
            self.running.lemma_inv();
            self.manager.clients.lemma_inv();
            self.manager.configs.lemma_inv();
            lemma_changed_wf(
                before,
                *self,
                name@,
                Some(dv),
                Some(run),
                run,
                if run {
                    Some(definition_entry(dv))
                } else {
                    None
                },
            );
        }
    }
}

/// The view of a result with no value.
pub open spec fn unit_view(r: Result<(), JsonRpcError>) -> Result<(), JsonRpcErrorView> {
    match r {
        Ok(()) => Ok(()),
        Err(e) => Err(e@),
    }
}

/// What `server/register` does: a blank name is refused and nothing changes; otherwise the
/// server is defined as given, runs (with the default client) when asked to start and
/// enabled, and is known to the manager exactly when it runs, with the given configuration
/// and filter.
pub open spec fn register_outcome(
    before: StdioMcpState,
    after: StdioMcpState,
    config: ServerConfigView,
    filter: ToolFilterView,
    start: bool,
    r: Result<(), JsonRpcErrorView>,
) -> bool {
    let run = start && config.enabled;
    if is_blank_text(config.name) {
        r == Err::<(), JsonRpcErrorView>(rpc_error(INVALID_PARAMS, "server.name must not be empty"@))
            && after == before
    } else {
        &&& r is Ok
        &&& before.changed_at(
            after,
            config.name,
            Some(ServerDefinitionView { config, filter }),
            Some(run),
            run,
            if run {
                Some((config, filter))
            } else {
                None
            },
        )
        &&& run ==> after.runs_default_client(config.name)
    }
}

/// What `server/start` does: an undefined or disabled server is refused and nothing changes;
/// a running one stays as it is; otherwise it is started with the default client and the
/// configuration and filter of its definition.
pub open spec fn start_outcome(
    before: StdioMcpState,
    after: StdioMcpState,
    name: Seq<char>,
    r: Result<(), JsonRpcErrorView>,
) -> bool {
    match definition_of(before.definitions(), name) {
        None => r == Err::<(), JsonRpcErrorView>(rpc_error(INVALID_PARAMS, not_defined_message(name)))
            && after == before,
        Some(d) => if !d.config.enabled {
            r == Err::<(), JsonRpcErrorView>(rpc_error(INVALID_PARAMS, disabled_message(name)))
                && after == before
        } else if before.is_running(name) {
            r is Ok && after == before
        } else {
            &&& r is Ok
            &&& before.changed_at(
                after,
                name,
                Some(d),
                Some(true),
                true,
                Some(definition_entry(d)),
            )
            &&& after.runs_default_client(name)
        },
    }
}

/// What `server/stop` does: it always succeeds; the server loses its client if it ran and is
/// marked not running, defined or not; its definition and configuration stay.
pub open spec fn stop_outcome(
    before: StdioMcpState,
    after: StdioMcpState,
    name: Seq<char>,
    r: Result<(), JsonRpcErrorView>,
) -> bool {
    &&& r is Ok
    &&& before.changed_at(
        after,
        name,
        definition_of(before.definitions(), name),
        Some(false),
        before.manager().clients.has(name) && !before.is_running(name),
        config_entry(before.manager(), name),
    )
}

/// What `server/unregister` does: an undefined server is refused and nothing changes;
/// otherwise every trace of the server goes.
pub open spec fn unregister_outcome(
    before: StdioMcpState,
    after: StdioMcpState,
    name: Seq<char>,
    r: Result<(), JsonRpcErrorView>,
) -> bool {
    if !before.definitions().has(name) {
        r == Err::<(), JsonRpcErrorView>(rpc_error(INVALID_PARAMS, not_defined_message(name)))
            && after == before
    } else {
        r is Ok && before.changed_at(after, name, None, None, false, None)
    }
}

impl StdioMcpState {
    /// `server/register`: defines the server (replacing an earlier definition of its name and
    /// what the manager held for it) and starts it when asked to and enabled. A blank name is
    /// refused.
    fn register(&mut self, config: McpServerConfig, filter: ToolFilter, start: bool) -> (r: Result<
        (),
        JsonRpcError,
    >)
        requires
            old(self).wf(),
        ensures
            final(self).wf(),
            register_outcome(*old(self), *final(self), config@, filter@, start, unit_view(r)),
    {
        if is_blank(config.name.as_str()) {
            return Err(JsonRpcError::invalid_params("server.name must not be empty"));
        }
        let name = config.name.clone();
        let run = start && config.enabled;
        self.define(name, McpServerDefinition { config, filter }, run);
        Ok(())
    }

    /// `server/start`: starts a defined, enabled server that is not running yet; a running one
    /// is left as it is.
    fn start(&mut self, name: &str) -> (r: Result<(), JsonRpcError>)
        requires
            old(self).wf(),
        ensures
            final(self).wf(),
            start_outcome(*old(self), *final(self), name@, unit_view(r)),
    {
        proof {
            use_type_invariant(&self.running);
            use_type_invariant(&self.manager.clients);
            use_type_invariant(&self.manager.configs);
            self.running.lemma_inv();
            self.manager.clients.lemma_inv();
            self.manager.configs.lemma_inv();
        }
        let ghost before = *self;
        let definition = match self.definitions.get(name) {
            Some(d) => d.clone(),
            None => {
                return Err(
                    JsonRpcError::invalid_params(
                        enclose("server '", name, "' is not defined").as_str(),
                    ),
                );
            },
        };
        if !definition.config.enabled {
            return Err(
                JsonRpcError::invalid_params(enclose("server '", name, "' is disabled").as_str()),
            );
        }
        let already = match self.running.get(name) {
            Some(b) => *b,
            None => false,
        };
        if !already {
            let client = default_stdio_client(name);
            let ghost cv = client;
            let ghost dv = definition@;
            let McpServerDefinition { config, filter } = definition;
            let ghost entry = (config, filter);
            let ghost mgr0 = self.manager;
            let ghost run0 = self.running;
            self.manager.register_server(config, filter, client);
            self.running.insert(String::from_str(name), true);
            proof {
                assert(config.name@ == name@) by {
                    let i = before.definitions().keys().index_of(name@);
                    assert(before.definitions().values()[i].config.name@ == before.definitions().keys()[i]);
                }
                assert forall|q: Seq<char>|
                    #![trigger self.manager.clients.has(q)]
                    #![trigger self.manager.configs.has(q)]
                    self.manager.clients.has(q) == (q == name@ || mgr0.clients.has(q))
                        && self.manager.configs.has(q) == (q == name@ || mgr0.configs.has(q)) by {
                    lemma_lookup_after_insert(mgr0.clients, self.manager.clients, name@, cv, q);
                    lemma_lookup_after_insert(mgr0.configs, self.manager.configs, name@, entry, q);
                }
                lemma_lookup_after_insert(mgr0.clients, self.manager.clients, name@, cv, name@);
                assert forall|q: Seq<char>| q != name@ implies #[trigger] self.manager.clients.lookup(q)
                    == mgr0.clients.lookup(q) by {
                    lemma_lookup_after_insert(mgr0.clients, self.manager.clients, name@, cv, q);
                }
                assert forall|q: Seq<char>| #[trigger]
                    self.running.lookup(q) == if q == name@ {
                        Some(true)
                    } else {
                        before.running.lookup(q)
                    } by {
                    lemma_lookup_after_insert(run0, self.running, name@, true, q);
                }
                lemma_lookup_after_insert(mgr0.configs, self.manager.configs, name@, entry, name@);
                assert(definition_of(before.definitions(), name@) == Some(dv));
                assert(config_entry(self.manager, name@) == Some(definition_entry(dv)));
                assert forall|q: Seq<char>| q != name@ implies #[trigger] self.manager.configs.lookup(q)
                    == mgr0.configs.lookup(q) by {
                    lemma_lookup_after_insert(mgr0.configs, self.manager.configs, name@, entry, q);
                }
                assert(filed_by_name(self.definitions()));
                use_type_invariant(&self.definitions);
                use_type_invariant(&self.running);
                use_type_invariant(&self.manager.clients);
                use_type_invariant(&self.manager.configs);
                self.definitions.lemma_inv();
                self.running.lemma_inv();
                self.manager.clients.lemma_inv();
                self.manager.configs.lemma_inv();
                lemma_changed_wf(
                    before,
                    *self,
                    name@,
                    Some(dv),
                    Some(true),
                    true,
                    Some(definition_entry(dv)),
                );
            }
        }
        Ok(())
    }

    /// `server/stop`: stops the server if it runs, and marks it not running (whether or not
    /// it is defined); its definition and configuration stay.
    fn stop(&mut self, name: &str) -> (r: Result<(), JsonRpcError>)
        requires
            old(self).wf(),
        ensures
            final(self).wf(),
            stop_outcome(*old(self), *final(self), name@, unit_view(r)),
    {
        proof {
            use_type_invariant(&self.running);
            use_type_invariant(&self.manager.clients);
            self.running.lemma_inv();
            self.manager.clients.lemma_inv();
        }
        let ghost before = *self;
        let was_running = match self.running.get(name) {
            Some(b) => *b,
            None => false,
        };
        proof {
            if was_running {
                assert(before.is_running(name@));
                assert(before.manager().clients.has(name@));
            }
        }
        if was_running {
            match self.manager.stop_server(name) {
                Ok(()) => {},
                Err(e) => {
                    return Err(JsonRpcError::internal(e.message().as_str()));
                },
            }
        }
        let ghost mgr1 = self.manager;
        let ghost run0 = self.running;
        self.running.insert(String::from_str(name), false);
        proof {
            assert forall|q: Seq<char>| #[trigger]
                self.manager.clients.has(q) == if q == name@ {
                    before.manager().clients.has(name@) && !before.is_running(name@)
                } else {
                    before.manager.clients.has(q)
                } by {
                if was_running {
                    lemma_lookup_after_remove(before.manager.clients, mgr1.clients, name@, q);
                }
            }
            assert forall|q: Seq<char>|
                q != name@ || !was_running implies #[trigger] self.manager.clients.lookup(q)
                == before.manager.clients.lookup(q) by {
                if was_running {
                    lemma_lookup_after_remove(before.manager.clients, mgr1.clients, name@, q);
                }
            }
            if before.manager().clients.has(name@) {
                assert(before.manager().configs.has(name@));
            }
            if before.manager().configs.has(name@) {
                assert(before.definitions().has(name@));
                assert(definition_of(before.definitions(), name@) is Some);
            }
            if before.manager().clients.has(name@) && !before.is_running(name@) {
                assert(!was_running);
                assert(before.runs_default_client(name@));
                assert(self.manager().clients.lookup(name@) == before.manager().clients.lookup(name@));
            }
            assert forall|q: Seq<char>| #[trigger]
                self.running.lookup(q) == if q == name@ {
                    Some(false)
                } else {
                    before.running.lookup(q)
                } by {
                lemma_lookup_after_insert(run0, self.running, name@, false, q);
            }
            assert(filed_by_name(self.definitions()));
            use_type_invariant(&self.definitions);
            use_type_invariant(&self.running);
            use_type_invariant(&self.manager.clients);
            use_type_invariant(&self.manager.configs);
            self.definitions.lemma_inv();
            self.running.lemma_inv();
            self.manager.clients.lemma_inv();
            self.manager.configs.lemma_inv();
            lemma_changed_wf(
                before,
                *self,
                name@,
                definition_of(before.definitions(), name@),
                Some(false),
                before.manager().clients.has(name@) && !before.is_running(name@),
                config_entry(before.manager(), name@),
            );
        }
        Ok(())
    }

    /// `server/unregister`: forgets a defined server entirely; an undefined one is refused.
    fn unregister(&mut self, name: &str) -> (r: Result<(), JsonRpcError>)
        requires
            old(self).wf(),
        ensures
            final(self).wf(),
            unregister_outcome(*old(self), *final(self), name@, unit_view(r)),
    {
        proof {
            use_type_invariant(&self.definitions);
            use_type_invariant(&self.running);
            use_type_invariant(&self.manager.clients);
            use_type_invariant(&self.manager.configs);
            self.definitions.lemma_inv();
            self.running.lemma_inv();
            self.manager.clients.lemma_inv();
            self.manager.configs.lemma_inv();
        }
        if !self.definitions.contains_key(name) {
            return Err(
                JsonRpcError::invalid_params(enclose("server '", name, "' is not defined").as_str()),
            );
        }
        let ghost before = *self;
        self.definitions.remove(name);
        let _ = self.manager.unregister_server(name);
        self.running.remove(name);
        proof {
            assert(filed_by_name(before.definitions()));
            lemma_filed_after_remove(before.definitions(), self.definitions(), name@);
            assert forall|q: Seq<char>|
                #![trigger self.manager.clients.has(q)]
                #![trigger self.manager.configs.has(q)]
                #![trigger self.running.lookup(q)]
                #![trigger definition_of(self.definitions, q)]
                self.manager.clients.has(q) == (q != name@ && before.manager.clients.has(q))
                    && self.manager.configs.has(q) == (q != name@ && before.manager.configs.has(q))
                    && self.running.lookup(q) == (if q == name@ {
                    None
                } else {
                    before.running.lookup(q)
                }) && definition_of(self.definitions, q) == (if q == name@ {
                    None
                } else {
                    definition_of(before.definitions, q)
                }) by {
                lemma_lookup_after_remove(before.manager.clients, self.manager.clients, name@, q);
                lemma_lookup_after_remove(before.manager.configs, self.manager.configs, name@, q);
                lemma_lookup_after_remove(before.running, self.running, name@, q);
                lemma_lookup_after_remove(before.definitions, self.definitions, name@, q);
            }
            assert forall|q: Seq<char>| q != name@ implies #[trigger] self.manager.clients.lookup(q)
                == before.manager.clients.lookup(q) by {
                lemma_lookup_after_remove(before.manager.clients, self.manager.clients, name@, q);
            }
            assert forall|q: Seq<char>| q != name@ implies #[trigger] self.manager.configs.lookup(q)
                == before.manager.configs.lookup(q) by {
                lemma_lookup_after_remove(before.manager.configs, self.manager.configs, name@, q);
            }
            use_type_invariant(&self.definitions);
            use_type_invariant(&self.running);
            use_type_invariant(&self.manager.clients);
            use_type_invariant(&self.manager.configs);
            self.definitions.lemma_inv();
            self.running.lemma_inv();
            self.manager.clients.lemma_inv();
            self.manager.configs.lemma_inv();
            lemma_changed_wf(before, *self, name@, None, None, false, None);
        }
        Ok(())
    }
}

/// Whether a tool descriptor comes from server `server`.
pub open spec fn tool_on(server: Seq<char>) -> spec_fn(ToolDescriptorView) -> bool {
    |d: ToolDescriptorView| d.server_name == server
}

/// Whether a resource descriptor comes from server `server`.
pub open spec fn resource_on(server: Seq<char>) -> spec_fn(ResourceDescriptorView) -> bool {
    |d: ResourceDescriptorView| d.server_name == server
}

/// The tools of server `server` among `tools`, in their order; all of them when no server is
/// named.
pub fn retain_server_tools(tools: Vec<McpToolDescriptor>, server: Option<&str>) -> (r: Vec<
    McpToolDescriptor,
>)
    ensures
        tool_views(r@) == match server {
            None => tool_views(tools@),
            Some(s) => tool_views(tools@).filter(tool_on(s@)),
        },
{
    match server {
        None => tools,
        Some(s) => {
            let ghost all = tool_views(tools@);
            let mut out: Vec<McpToolDescriptor> = Vec::new();
            for t in it: tools.into_iter()
                invariant
                    all == tool_views(it.seq()),
                    tool_views(out@) == tool_views(it.seq()).take(it.index() as int).filter(
                        tool_on(s@),
                    ),
            {
                let ghost i = it.index() as int;
                let ghost before = tool_views(out@);
                proof {
                    reveal(Seq::filter);
                    let p = tool_views(it.seq());
                    assert(p.take(i + 1).drop_last() =~= p.take(i));
                    assert(p.take(i + 1).last() == t@);
                }
                if str_eq(t.server_name.as_str(), s) {
                    out.push(t);
                    proof {
                        assert(tool_views(out@) =~= before.push(t@));
                    }
                }
            }
            proof {
                assert(all.take(all.len() as int) =~= all);
            }
            out
        },
    }
}

/// The resources of server `server` among `resources`, in their order; all of them when no
/// server is named.
pub fn retain_server_resources(resources: Vec<McpResourceDescriptor>, server: Option<&str>) -> (r:
    Vec<McpResourceDescriptor>)
    ensures
        resource_views(r@) == match server {
            None => resource_views(resources@),
            Some(s) => resource_views(resources@).filter(resource_on(s@)),
        },
{
    match server {
        None => resources,
        Some(s) => {
            let ghost all = resource_views(resources@);
            let mut out: Vec<McpResourceDescriptor> = Vec::new();
            for t in it: resources.into_iter()
                invariant
                    all == resource_views(it.seq()),
                    resource_views(out@) == resource_views(it.seq()).take(it.index() as int).filter(
                        resource_on(s@),
                    ),
            {
                let ghost i = it.index() as int;
                let ghost before = resource_views(out@);
                proof {
                    reveal(Seq::filter);
                    let p = resource_views(it.seq());
                    assert(p.take(i + 1).drop_last() =~= p.take(i));
                    assert(p.take(i + 1).last() == t@);
                }
                if str_eq(t.server_name.as_str(), s) {
                    out.push(t);
                    proof {
                        assert(resource_views(out@) =~= before.push(t@));
                    }
                }
            }
            proof {
                assert(all.take(all.len() as int) =~= all);
            }
            out
        },
    }
}

/// The JSON-RPC error that reports a failure of the manager or of a client.
fn internal_error(e: McpError) -> (r: JsonRpcError)
    ensures
        r@ == rpc_error(INTERNAL_ERROR, error_message(e@)),
{
    JsonRpcError::internal(e.message().as_str())
}

/// The view of an optional text.
pub open spec fn opt_view(o: Option<String>) -> Option<Seq<char>> {
    match o {
        Some(s) => Some(s@),
        None => None,
    }
}

/// The error of a failed manager or client operation is reported as an internal error.
pub open spec fn is_internal_failure(e: JsonRpcErrorView) -> bool {
    exists|m: McpErrorView| e == rpc_error(INTERNAL_ERROR, #[trigger] error_message(m))
}

/// A client's answer as the stdio server reports it: a failure becomes an internal error
/// with the failure's message.
pub open spec fn rpc_answer(a: Result<Value, McpErrorView>) -> Result<Value, JsonRpcErrorView> {
    match a {
        Ok(v) => Ok(v),
        Err(e) => Err(rpc_error(INTERNAL_ERROR, error_message(e))),
    }
}

/// What running tool `tool` on server `server` answers: the server's in-memory answer, or
/// that the server is not available.
pub open spec fn run_tool_on(
    clients: StrMap<InMemoryMcpClient>,
    server: Seq<char>,
    tool: Seq<char>,
) -> Result<Value, JsonRpcErrorView> {
    match clients.lookup(server) {
        None => Err(
            rpc_error(INTERNAL_ERROR, error_message(McpErrorView::ServerNotAvailable { server })),
        ),
        Some(c) => rpc_answer(in_memory_call(c, tool)),
    }
}

/// What `tools/call` answers for tool name `tool` and server `server`: a qualified name is
/// split into server and tool; an unqualified one needs the server.
pub open spec fn tool_call_answer(
    clients: StrMap<InMemoryMcpClient>,
    tool: Option<Seq<char>>,
    server: Option<Seq<char>>,
) -> Result<Value, JsonRpcErrorView> {
    match tool {
        None => Err(rpc_error(INVALID_PARAMS, "missing tool name"@)),
        Some(t) => if has_prefix(t, qualified_prefix()) {
            match parse_qualified(t) {
                Err(cause) => Err(
                    rpc_error(
                        INTERNAL_ERROR,
                        error_message(McpErrorView::InvalidQualifiedName { name: t, cause }),
                    ),
                ),
                Ok((srv, name)) => run_tool_on(clients, srv, name),
            }
        } else {
            match server {
                None => Err(rpc_error(INVALID_PARAMS, "missing server for unqualified tool"@)),
                Some(s) => run_tool_on(clients, s, t),
            }
        },
    }
}

/// What `resources/read` answers: the resource read from the named server, or else from the
/// server the URI names.
pub open spec fn resource_read_answer(
    clients: StrMap<InMemoryMcpClient>,
    server: Option<Seq<char>>,
    uri: Seq<char>,
) -> Result<Value, JsonRpcErrorView> {
    match (if server is Some {
        server
    } else {
        server_from_uri(uri)
    }) {
        None => Err(rpc_error(INVALID_PARAMS, "missing server for resource read"@)),
        Some(s) => match clients.lookup(s) {
            None => Err(
                rpc_error(
                    INTERNAL_ERROR,
                    error_message(McpErrorView::ServerNotAvailable { server: s }),
                ),
            ),
            Some(c) => rpc_answer(in_memory_read(c, uri)),
        },
    }
}

/// The view of a result that may carry a JSON-RPC error.
pub open spec fn result_view(r: Result<Value, JsonRpcError>) -> Result<Value, JsonRpcErrorView> {
    match r {
        Ok(v) => Ok(v),
        Err(e) => Err(e@),
    }
}

/// What the configured servers' in-memory clients list as their tools, in configuration
/// order (nothing for a server without a client).
pub open spec fn in_memory_tool_listings(m: McpManager<InMemoryMcpClient>) -> Seq<
    Seq<ToolDescriptorView>,
> {
    Seq::new(
        m.configs.keys().len(),
        |i: int|
            match m.clients.lookup(m.configs.keys()[i]) {
                Some(c) => in_memory_tools(c),
                None => Seq::empty(),
            },
    )
}

/// What the configured servers' in-memory clients list as their resources, in
/// configuration order (nothing for a server without a client).
pub open spec fn in_memory_resource_listings(m: McpManager<InMemoryMcpClient>) -> Seq<
    Seq<ResourceDescriptorView>,
> {
    Seq::new(
        m.configs.keys().len(),
        |i: int|
            match m.clients.lookup(m.configs.keys()[i]) {
                Some(c) => in_memory_resources(c),
                None => Seq::empty(),
            },
    )
}

/// Listings that the in-memory clients gave are theirs.
proof fn lemma_in_memory_tool_listings(m: McpManager<InMemoryMcpClient>, l: Seq<Seq<ToolDescriptorView>>)
    requires
        m.tools_listed_by_clients(l),
        l.len() <= m.configs.keys().len(),
    ensures
        l == in_memory_tool_listings(m).take(l.len() as int),
{
    let w = in_memory_tool_listings(m).take(l.len() as int);
    assert forall|i: int| 0 <= i < l.len() implies l[i] == w[i] by {
        match m.clients.lookup(m.configs.keys()[i]) {
            Some(c) => {
                InMemoryMcpClient::lemma_lists_tools(c, l[i]);
            },
            None => {},
        }
    }
    assert(l =~= w);
}

/// Listings that the in-memory clients gave are theirs.
proof fn lemma_in_memory_resource_listings(
    m: McpManager<InMemoryMcpClient>,
    l: Seq<Seq<ResourceDescriptorView>>,
)
    requires
        m.resources_listed_by_clients(l),
        l.len() <= m.configs.keys().len(),
    ensures
        l == in_memory_resource_listings(m).take(l.len() as int),
{
    let w = in_memory_resource_listings(m).take(l.len() as int);
    assert forall|i: int| 0 <= i < l.len() implies l[i] == w[i] by {
        match m.clients.lookup(m.configs.keys()[i]) {
            Some(c) => {
                InMemoryMcpClient::lemma_lists_resources(c, l[i]);
            },
            None => {},
        }
    }
    assert(l =~= w);
}

/// What `tools/list` answers when the clients list `listings`: the manager's tools, those of
/// `server` alone when it is named.
pub open spec fn tools_reply_for(
    m: McpManager<InMemoryMcpClient>,
    listings: Seq<Seq<ToolDescriptorView>>,
    server: Option<Seq<char>>,
) -> Option<Seq<ToolDescriptorView>> {
    match m.tool_listing_of(listings) {
        None => None,
        Some(all) => Some(
            match server {
                None => all,
                Some(s) => all.filter(tool_on(s)),
            },
        ),
    }
}

/// What `resources/list` answers when the clients list `listings`: the manager's resources,
/// those of `server` alone when it is named.
pub open spec fn resources_reply_for(
    m: McpManager<InMemoryMcpClient>,
    listings: Seq<Seq<ResourceDescriptorView>>,
    server: Option<Seq<char>>,
) -> Seq<ResourceDescriptorView> {
    match server {
        None => m.resource_listing_of(listings),
        Some(s) => m.resource_listing_of(listings).filter(resource_on(s)),
    }
}

impl StdioMcpState {
    /// `tools/list`: the manager's tools, those of `server` alone when it is named; it fails
    /// when a tool name cannot be qualified.
    fn list_tools(&self, server: Option<String>) -> (r: Result<Vec<McpToolDescriptor>, JsonRpcError>)
        ensures
            match r {
                Ok(v) => tools_reply_for(
                    self.manager(),
                    in_memory_tool_listings(self.manager()),
                    opt_view(server),
                ) == Some(tool_views(v@)),
                Err(e) => tools_reply_for(
                    self.manager(),
                    in_memory_tool_listings(self.manager()),
                    opt_view(server),
                ) is None && is_internal_failure(e@),
            },
    {
        let ghost m = self.manager;
        let ghost full = in_memory_tool_listings(m);
        match self.manager.list_tools() {
            Err(e) => {
                let ghost ev = e@;
                proof {
                    if exists|i: int| #[trigger] m.tool_listing_can_fail(i) {
                        let i = choose|i: int| #[trigger] m.tool_listing_can_fail(i);
                        let c = m.clients.lookup(m.configs.keys()[i]).unwrap();
                        InMemoryMcpClient::lemma_lists_tools(c, Seq::empty());
                        assert(false);
                    }
                    let l = choose|l: Seq<Seq<ToolDescriptorView>>|
                        l.len() <= m.configs.keys().len() && m.tools_listed_by_clients(l)
                            && #[trigger] m.tool_listing_of(l) is None;
                    lemma_in_memory_tool_listings(m, l);
                    m.lemma_tool_listing_none_extends(full, l.len() as int);
                }
                let r = internal_error(e);
                proof {
                    assert(r@ == rpc_error(INTERNAL_ERROR, error_message(ev)));
                }
                Err(r)
            },
            Ok(tools) => {
                let ghost all = tool_views(tools@);
                proof {
                    let l = choose|l: Seq<Seq<ToolDescriptorView>>|
                        l.len() == m.configs.keys().len() && m.tools_listed_by_clients(l)
                            && #[trigger] m.tool_listing_of(l) == Some(all);
                    lemma_in_memory_tool_listings(m, l);
                    assert(full.take(full.len() as int) =~= full);
                }
                let name = match &server {
                    Some(s) => Some(s.as_str()),
                    None => None,
                };
                let kept = retain_server_tools(tools, name);
                Ok(kept)
            },
        }
    }

    /// `resources/list`: the manager's resources, those of `server` alone when it is named.
    fn list_resources(&self, server: Option<String>) -> (r: Result<
        Vec<McpResourceDescriptor>,
        JsonRpcError,
    >)
        ensures
            r matches Ok(v) && resources_reply_for(
                self.manager(),
                in_memory_resource_listings(self.manager()),
                opt_view(server),
            ) == resource_views(v@),
    {
        let ghost m = self.manager;
        let ghost full = in_memory_resource_listings(m);
        match self.manager.list_resources() {
            Err(e) => {
                proof {
                    let i = choose|i: int| #[trigger] m.resource_listing_can_fail(i);
                    let c = m.clients.lookup(m.configs.keys()[i]).unwrap();
                    InMemoryMcpClient::lemma_lists_resources(c, Seq::empty());
                }
                Err(internal_error(e))
            },
            Ok(resources) => {
                let ghost all = resource_views(resources@);
                proof {
                    let l = choose|l: Seq<Seq<ResourceDescriptorView>>|
                        l.len() == m.configs.keys().len() && m.resources_listed_by_clients(l)
                            && #[trigger] m.resource_listing_of(l) == all;
                    lemma_in_memory_resource_listings(m, l);
                    assert(full.take(full.len() as int) =~= full);
                }
                let name = match &server {
                    Some(s) => Some(s.as_str()),
                    None => None,
                };
                let kept = retain_server_resources(resources, name);
                Ok(kept)
            },
        }
    }

    /// `tools/call`: runs the tool named by `name` (or else `tool`), through its qualified
    /// name or on `server`, with `arguments` (an absent value read as `{}`).
    fn call_tool(
        &self,
        name: Option<String>,
        tool: Option<String>,
        server: Option<String>,
        arguments: Value,
    ) -> (r: Result<Value, JsonRpcError>)
        ensures
            result_view(r) == tool_call_answer(
                self.manager().clients,
                if name is Some {
                    opt_view(name)
                } else {
                    opt_view(tool)
                },
                opt_view(server),
            ),
    {
        let ghost clients = self.manager.clients;
        let tool_name = match name {
            Some(n) => n,
            None => match tool {
                Some(t) => t,
                None => {
                    return Err(JsonRpcError::invalid_params("missing tool name"));
                },
            },
        };
        let arguments = params_or_object(arguments);
        let ghost args = arguments;
        let answer = if has_qualified_prefix(tool_name.as_str()) {
            self.manager.call_qualified_tool(tool_name.as_str(), arguments)
        } else {
            match server {
                None => {
                    return Err(JsonRpcError::invalid_params("missing server for unqualified tool"));
                },
                Some(s) => {
                    let answer = self.manager.call_tool(s.as_str(), tool_name.as_str(), arguments);
                    proof {
                        if let Some(c) = clients.lookup(s@) {
                            InMemoryMcpClient::lemma_answers(c, tool_name@, args, answer);
                        }
                    }
                    answer
                },
            }
        };
        proof {
            if has_prefix(tool_name@, qualified_prefix()) {
                if let Ok((srv, t)) = parse_qualified(tool_name@) {
                    if let Some(c) = clients.lookup(srv) {
                        InMemoryMcpClient::lemma_answers(c, t, args, answer);
                    }
                }
            }
        }
        match answer {
            Ok(v) => Ok(v),
            Err(e) => Err(internal_error(e)),
        }
    }

    /// `resources/read`: reads `uri` from `server`, or else from the server the URI names.
    fn read_resource(&self, server: Option<String>, uri: String) -> (r: Result<Value, JsonRpcError>)
        ensures
            result_view(r) == resource_read_answer(self.manager().clients, opt_view(server), uri@),
    {
        let ghost clients = self.manager.clients;
        let server_name = match server {
            Some(s) => s,
            None => match parse_server_from_uri(uri.as_str()) {
                Some(s) => s,
                None => {
                    return Err(JsonRpcError::invalid_params("missing server for resource read"));
                },
            },
        };
        let uri_text = uri.as_str();
        let answer = self.manager.read_resource(server_name.as_str(), uri_text);
        proof {
            if let Some(c) = clients.lookup(server_name@) {
                InMemoryMcpClient::lemma_reads(c, uri_text, answer);
            }
        }
        match answer {
            Ok(v) => Ok(v),
            Err(e) => Err(internal_error(e)),
        }
    }
}

/// A change confined to server `k` keeps the state consistent when it is consistent at `k`.
proof fn lemma_changed_wf(
    before: StdioMcpState,
    after: StdioMcpState,
    k: Seq<char>,
    d: Option<ServerDefinitionView>,
    run: Option<bool>,
    client: bool,
    config: Option<(ServerConfigView, ToolFilterView)>,
)
    requires
        before.wf(),
        before.changed_at(after, k, d, run, client, config),
        filed_by_name(after.definitions()),
        after.maps_valid(),
        run == Some(true) ==> client,
        run == Some(true) ==> (d matches Some(dd) && config == Some(definition_entry(dd))),
        client ==> config is Some,
        config is Some ==> d is Some,
        client ==> after.runs_default_client(k),
    ensures
        after.wf(),
{
    assert forall|q: Seq<char>| #[trigger]
        after.manager().configs.has(q) == if q == k {
            config is Some
        } else {
            before.manager().configs.has(q)
        } by {
        if q != k {
            assert(after.manager().configs.lookup(q) == before.manager().configs.lookup(q));
        }
    }
    assert forall|q: Seq<char>| #[trigger] after.is_running(q) implies (definition_of(
        after.definitions(),
        q,
    ) matches Some(dd) && config_entry(after.manager(), q) == Some(definition_entry(dd))) by {
        if q != k {
            assert(before.is_running(q));
            assert(after.manager().configs.lookup(q) == before.manager().configs.lookup(q));
        }
    }
    assert forall|q: Seq<char>| #[trigger] after.manager().clients.has(q) implies after.runs_default_client(
        q,
    ) by {
        if q != k {
            assert(before.manager().clients.has(q));
            assert(before.runs_default_client(q));
            assert(after.manager().clients.lookup(q) == before.manager().clients.lookup(q));
        }
    }
    assert forall|q: Seq<char>| #[trigger] after.is_running(q) implies after.manager().clients.has(
        q,
    ) by {
        if q != k {
            assert(before.is_running(q));
        }
    }
    assert forall|q: Seq<char>| #[trigger]
        after.manager().clients.has(q) implies after.definitions().has(q) by {
        assert(definition_of(after.definitions(), q) is Some) by {
            if q != k {
                assert(before.definitions().has(q));
                assert(definition_of(before.definitions(), q) is Some);
            }
        }
    }
    assert forall|q: Seq<char>| #[trigger]
        after.manager().configs.has(q) implies after.definitions().has(q) by {
        assert(definition_of(after.definitions(), q) is Some) by {
            if q != k {
                assert(before.definitions().has(q));
                assert(definition_of(before.definitions(), q) is Some);
            }
        }
    }
    assert forall|q: Seq<char>| after.manager().clients.has(q) implies #[trigger] after.manager().configs.has(
        q,
    ) by {
        if q != k {
            assert(before.manager().clients.has(q));
        }
    }
}

/// The value a tool call answered, or the error it failed with.
pub open spec fn tool_result_reply(r: Result<(RpcReply, bool), JsonRpcError>) -> Option<
    Result<Value, JsonRpcErrorView>,
> {
    match r {
        Ok((RpcReply::ToolResult { result }, false)) => Some(Ok(result)),
        Err(e) => Some(Err(e@)),
        _ => None,
    }
}

/// The data a resource read answered, or the error it failed with.
pub open spec fn resource_reply(r: Result<(RpcReply, bool), JsonRpcError>) -> Option<
    Result<Value, JsonRpcErrorView>,
> {
    match r {
        Ok((RpcReply::Resource { resource }, false)) => Some(Ok(resource)),
        Err(e) => Some(Err(e@)),
        _ => None,
    }
}

/// A server operation that succeeded with the snapshot of `after`, or the error it failed
/// with.
pub open spec fn lifecycle_reply(after: StdioMcpState, r: Result<(RpcReply, bool), JsonRpcError>) -> Option<
    Result<(), JsonRpcErrorView>,
> {
    match r {
        Ok((RpcReply::Lifecycle { lifecycle }, false)) => if lifecycle@ == after.snapshot_view() {
            Some(Ok(()))
        } else {
            None
        },
        Err(e) => Some(Err(e@)),
        _ => None,
    }
}

/// The reply of a request that reads the state: `reply`, which shows `s`.
pub open spec fn describes(s: StdioMcpState, r: Result<(RpcReply, bool), JsonRpcError>) -> bool {
    match r {
        Ok((RpcReply::Describe { methods, lifecycle }, false)) => methods@.map_values(
            |m: &str| m@,
        ) == rpc_method_names() && lifecycle@ == s.snapshot_view(),
        _ => false,
    }
}

/// Answers one request, changing the state as the request asks; the flag says whether the
/// server stops after sending the reply. A refused request changes nothing.
pub fn dispatch_stdio_request(state: &mut StdioMcpState, request: StdioRequest) -> (r: Result<
    (RpcReply, bool),
    JsonRpcError,
>)
    requires
        old(state).wf(),
    ensures
        final(state).wf(),
        r is Err ==> *final(state) == *old(state),
        r matches Ok((_, exit)) ==> exit == (request is Shutdown),
        match request {
            StdioRequest::Initialize => *final(state) == *old(state) && describes(*old(state), r),
            StdioRequest::Healthz => *final(state) == *old(state) && (r matches Ok(
                (RpcReply::Health { lifecycle }, _),
            ) && lifecycle@ == old(state).snapshot_view()),
            StdioRequest::ToolsList { server } => *final(state) == *old(state) && match r {
                Ok((RpcReply::Tools { tools }, false)) => tools_reply_for(
                    old(state).manager(),
                    in_memory_tool_listings(old(state).manager()),
                    opt_view(server),
                ) == Some(tool_views(tools@)),
                Err(e) => tools_reply_for(
                    old(state).manager(),
                    in_memory_tool_listings(old(state).manager()),
                    opt_view(server),
                ) is None && is_internal_failure(e@),
                _ => false,
            },
            StdioRequest::ToolsCall { name, tool, server, .. } => *final(state) == *old(state)
                && tool_result_reply(r) == Some(
                tool_call_answer(
                    old(state).manager().clients,
                    if name is Some {
                        opt_view(name)
                    } else {
                        opt_view(tool)
                    },
                    opt_view(server),
                ),
            ),
            StdioRequest::ResourcesList { server } => *final(state) == *old(state) && (r matches Ok(
                (RpcReply::Resources { resources }, false),
            ) && resources_reply_for(
                old(state).manager(),
                in_memory_resource_listings(old(state).manager()),
                opt_view(server),
            ) == resource_views(resources@)),
            StdioRequest::ResourcesRead { server, uri } => *final(state) == *old(state)
                && resource_reply(r) == Some(
                resource_read_answer(old(state).manager().clients, opt_view(server), uri@),
            ),
            StdioRequest::ServerList => *final(state) == *old(state) && lifecycle_reply(
                *old(state),
                r,
            ) == Some(Ok::<(), JsonRpcErrorView>(())),
            StdioRequest::ServerRegister { server, filter, start } => lifecycle_reply(
                *final(state),
                r,
            ) matches Some(u) && register_outcome(
                *old(state),
                *final(state),
                server@,
                filter@,
                start,
                u,
            ),
            StdioRequest::ServerStart { name } => lifecycle_reply(*final(state), r) matches Some(u)
                && start_outcome(*old(state), *final(state), name@, u),
            StdioRequest::ServerStop { name } => lifecycle_reply(*final(state), r) matches Some(u)
                && stop_outcome(*old(state), *final(state), name@, u),
            StdioRequest::ServerUnregister { name } => lifecycle_reply(*final(state), r) matches Some(
                u,
            ) && unregister_outcome(*old(state), *final(state), name@, u),
            StdioRequest::Unsupported { method } => *final(state) == *old(state) && (r matches Err(
                e,
            ) && e@ == rpc_error(METHOD_NOT_FOUND, "unsupported method: "@ + method@)),
            StdioRequest::Shutdown => {
                &&& r matches Ok((RpcReply::Shutdown { lifecycle }, _)) && lifecycle@
                    == final(state).snapshot_view()
                &&& final(state).lifecycle() == LifecycleStatus::ShuttingDown
                &&& final(state).definitions() == old(state).definitions()
                &&& final(state).running() == old(state).running()
                &&& final(state).manager() == old(state).manager()
            },
        },
{
    match request {
        StdioRequest::Initialize => {
            let lifecycle = state.lifecycle_snapshot();
            Ok((RpcReply::Describe { methods: default_rpc_methods(), lifecycle }, false))
        },
        StdioRequest::Healthz => {
            let lifecycle = state.lifecycle_snapshot();
            Ok((RpcReply::Health { lifecycle }, false))
        },
        StdioRequest::ToolsList { server } => match state.list_tools(server) {
            Ok(tools) => Ok((RpcReply::Tools { tools }, false)),
            Err(e) => Err(e),
        },
        StdioRequest::ToolsCall { name, tool, server, arguments } => match state.call_tool(
            name,
            tool,
            server,
            arguments,
        ) {
            Ok(result) => Ok((RpcReply::ToolResult { result }, false)),
            Err(e) => Err(e),
        },
        StdioRequest::ResourcesList { server } => match state.list_resources(server) {
            Ok(resources) => Ok((RpcReply::Resources { resources }, false)),
            Err(e) => Err(e),
        },
        StdioRequest::ResourcesRead { server, uri } => match state.read_resource(server, uri) {
            Ok(resource) => Ok((RpcReply::Resource { resource }, false)),
            Err(e) => Err(e),
        },
        StdioRequest::ServerList => {
            let lifecycle = state.lifecycle_snapshot();
            Ok((RpcReply::Lifecycle { lifecycle }, false))
        },
        StdioRequest::ServerRegister { server, filter, start } => match state.register(
            server,
            filter,
            start,
        ) {
            Ok(()) => {
                let lifecycle = state.lifecycle_snapshot();
                Ok((RpcReply::Lifecycle { lifecycle }, false))
            },
            Err(e) => Err(e),
        },
        StdioRequest::ServerStart { name } => match state.start(name.as_str()) {
            Ok(()) => {
                let lifecycle = state.lifecycle_snapshot();
                Ok((RpcReply::Lifecycle { lifecycle }, false))
            },
            Err(e) => Err(e),
        },
        StdioRequest::ServerStop { name } => match state.stop(name.as_str()) {
            Ok(()) => {
                let lifecycle = state.lifecycle_snapshot();
                Ok((RpcReply::Lifecycle { lifecycle }, false))
            },
            Err(e) => Err(e),
        },
        StdioRequest::ServerUnregister { name } => match state.unregister(name.as_str()) {
            Ok(()) => {
                let lifecycle = state.lifecycle_snapshot();
                Ok((RpcReply::Lifecycle { lifecycle }, false))
            },
            Err(e) => Err(e),
        },
        StdioRequest::Unsupported { method } => Err(JsonRpcError::method_not_found(method.as_str())),
        StdioRequest::Shutdown => {
            let ghost before = *state;
            state.lifecycle = LifecycleStatus::ShuttingDown;
            proof {
                assert(state.manager() == before.manager());
                assert(state.definitions() == before.definitions());
                assert(state.running() == before.running());
                assert forall|k: Seq<char>| #[trigger] state.is_running(k) implies state.manager().clients.has(
                    k,
                ) by {
                    assert(before.is_running(k));
                }
                assert forall|k: Seq<char>| #[trigger] state.is_running(k) implies (definition_of(
                    state.definitions(),
                    k,
                ) matches Some(d) && config_entry(state.manager(), k) == Some(definition_entry(d))) by {
                    assert(before.is_running(k));
                }
            }
            let lifecycle = state.lifecycle_snapshot();
            Ok((RpcReply::Shutdown { lifecycle }, true))
        },
    }
}


/// A running server answers a call of its `health` tool on it with
/// `{"status": "ok", "server_name": <server>}`.
pub proof fn lemma_running_server_answers_health(s: StdioMcpState, name: Seq<char>)
    requires
        s.wf(),
        s.is_running(name),
    ensures
        tool_call_answer(s.manager().clients, Some("health"@), Some(name)) == Ok::<
            Value,
            JsonRpcErrorView,
        >(health_value(name)),
{
    reveal_strlit("health");
    reveal_strlit("capabilities");
    assert(s.runs_default_client(name));
    let c = s.manager().clients.lookup(name).unwrap();
    let ks = c.tools().keys();
    assert(ks[0] == "health"@);
    assert(ks[1] != "health"@) by {
        assert("capabilities"@.len() != "health"@.len());
    }
    assert(ks.contains("health"@));
    assert(ks.index_of("health"@) == 0);
    assert(!has_prefix("health"@, qualified_prefix())) by {
        assert("health"@.take(5)[0] == 'h');
    }
}

/// A running server whose name is not empty and holds no `/` answers a read of
/// `mcp://<server>/health`, with no server named in the request, with
/// `{"status": "ok", "server_name": <server>}`.
pub proof fn lemma_running_server_health_resource(s: StdioMcpState, name: Seq<char>)
    requires
        s.wf(),
        s.is_running(name),
        name.len() > 0,
        !name.contains('/'),
    ensures
        resource_read_answer(s.manager().clients, None, health_uri(name)) == Ok::<
            Value,
            JsonRpcErrorView,
        >(health_value(name)),
{
    reveal_strlit("mcp://");
    reveal_strlit("/health");
    reveal_strlit("/capabilities");
    assert(s.runs_default_client(name));
    let uri = health_uri(name);
    assert(uri.take(6) =~= uri_prefix());
    let rest = uri.skip(6);
    assert(rest =~= name + "/health"@);
    assert(rest.take(name.len() as int) =~= name);
    assert(rest[name.len() as int] == '/');
    assert(first_slash_from(rest, 0) == name.len()) by {
        lemma_first_slash_after(rest, name, 0);
    }
    assert(server_from_uri(uri) == Some(name));
    let c = s.manager().clients.lookup(name).unwrap();
    let ks = c.resources().keys();
    assert(ks[0] == uri);
    assert(ks[1] != uri) by {
        assert(capabilities_uri(name).len() != uri.len());
    }
    assert(ks.contains(uri));
    assert(ks.index_of(uri) == 0);
}

/// The first `/` of `name + "/..."` comes right after `name` when `name` holds none.
proof fn lemma_first_slash_after(rest: Seq<char>, name: Seq<char>, i: int)
    requires
        0 <= i <= name.len(),
        name.len() < rest.len(),
        rest.take(name.len() as int) == name,
        rest[name.len() as int] == '/',
        !name.contains('/'),
    ensures
        first_slash_from(rest, i) == name.len(),
    decreases name.len() - i,
{
    if i < name.len() {
        assert(rest[i] == name[i]);
        if rest[i] == '/' {
            assert(name.contains('/'));
        }
        lemma_first_slash_after(rest, name, i + 1);
    }
}

/// Each row of the lifecycle snapshot shows a defined server as it is: its definition's
/// `enabled` flag, command and arguments, and whether the server is marked running.
pub proof fn lemma_snapshot_rows(s: StdioMcpState, i: int)
    requires
        s.wf(),
        0 <= i < s.snapshot_view().servers.len(),
    ensures
        definition_of(s.definitions(), s.snapshot_view().servers[i].name) matches Some(d) && ({
            let row = s.snapshot_view().servers[i];
            &&& row.enabled == d.config.enabled
            &&& row.running == s.is_running(row.name)
            &&& row.command == d.config.command
            &&& row.args == d.config.args
        }),
{
    let e = s.snapshot_entries();
    let ks = s.definitions().keys();
    let vs = s.definitions().values();
    lemma_sort_by_key(e);
    lemma_sort_same_items(e);
    let srt = sort_by_key(e);
    assert(s.snapshot_view().servers[i] == srt[i].1);
    assert(srt.contains(srt[i]));
    let j = choose|j: int| 0 <= j < e.len() && e[j] == srt[i];
    assert(ks[j] == srt[i].0);
    assert(ks.contains(ks[j]));
    assert(ks.index_of(ks[j]) == j) by {
        let x = ks.index_of(ks[j]);
        assert(ks[x] == ks[j]);
    }
    assert(definition_of(s.definitions(), ks[j]) == Some(vs[j]@));
}

/// A tool name that starts with `mcp__` names its server itself: the call gets the same
/// answer whatever `server` the request names, and when the name splits into a server and a
/// tool, that tool's answer on that server.
pub proof fn lemma_qualified_call_ignores_server(
    clients: StrMap<InMemoryMcpClient>,
    q: Seq<char>,
    server: Option<Seq<char>>,
)
    requires
        has_prefix(q, qualified_prefix()),
    ensures
        tool_call_answer(clients, Some(q), server) == tool_call_answer(clients, Some(q), None),
        parse_qualified(q) matches Ok((srv, t)) ==> (clients.lookup(srv) matches Some(c) ==> (
        c.tools().lookup(t) matches Some(v) ==> tool_call_answer(clients, Some(q), server) == Ok::<
            Value,
            JsonRpcErrorView,
        >(v))),
        parse_qualified(q) matches Ok((srv, t)) ==> (clients.lookup(srv) is None ==> tool_call_answer(
            clients,
            Some(q),
            server,
        ) == Err::<Value, JsonRpcErrorView>(
            rpc_error(INTERNAL_ERROR, error_message(McpErrorView::ServerNotAvailable { server: srv })),
        )),
{
}

} // verus!
