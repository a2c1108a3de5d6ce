//! The manager of MCP servers: their configurations, their clients and the tools they offer.

use serde_json::Value;
use vstd::prelude::*;

use crate::client::{McpError, McpErrorView, McpManagedClient};
use crate::json::{field_pairs, json_object, json_object_of, json_string, json_text};
use crate::model::{
    McpResourceDescriptor, McpServerConfig, McpStartupCompleteEvent, McpStartupFailure,
    McpStartupStatus, McpStartupUpdateEvent, McpToolDescriptor, ResourceDescriptorView,
    StartupCompleteView, StartupFailureView, StartupStatusView, StartupUpdateView, ToolFilter,
    ToolDescriptorView,
};
use crate::naming::{
    allowed_by_filter, filter_allows, parse_qualified, parse_qualified_tool_name,
    qualified_tool_name, qualify_hash_ok, try_qualify_tool_name,
};
use crate::strmap::StrMap;

verus! {

/// The error every enabled server without a client is reported with.
pub open spec fn client_not_registered() -> Seq<char> {
    "client not registered"@
}

/// The updates one server produces at startup: `Cancelled` when disabled, otherwise
/// `Starting` then `Ready` (with a client) or `Failed` (without one).
pub open spec fn server_startup_events(name: Seq<char>, enabled: bool, has_client: bool) -> Seq<
    StartupUpdateView,
> {
    if !enabled {
        seq![StartupUpdateView { server_name: name, status: StartupStatusView::Cancelled }]
    } else if has_client {
        seq![
            StartupUpdateView { server_name: name, status: StartupStatusView::Starting },
            StartupUpdateView { server_name: name, status: StartupStatusView::Ready },
        ]
    } else {
        seq![
            StartupUpdateView { server_name: name, status: StartupStatusView::Starting },
            StartupUpdateView {
                server_name: name,
                status: StartupStatusView::Failed { error: client_not_registered() },
            },
        ]
    }
}

/// The views of a list of updates.
pub open spec fn update_views(v: Seq<McpStartupUpdateEvent>) -> Seq<StartupUpdateView> {
    v.map_values(|e: McpStartupUpdateEvent| e@)
}

/// The views of a list of tool descriptors.
pub open spec fn tool_views(v: Seq<McpToolDescriptor>) -> Seq<ToolDescriptorView> {
    v.map_values(|d: McpToolDescriptor| d@)
}

/// The views of a list of resource descriptors.
pub open spec fn resource_views(v: Seq<McpResourceDescriptor>) -> Seq<ResourceDescriptorView> {
    v.map_values(|d: McpResourceDescriptor| d@)
}

/// A listing of one server's tools: those the filter lets through, named by the server and
/// qualified; `None` when a name cannot be qualified.
pub open spec fn qualify_listing(
    server: Seq<char>,
    filter: crate::model::ToolFilterView,
    tools: Seq<ToolDescriptorView>,
) -> Option<Seq<ToolDescriptorView>>
    decreases tools.len(),
{
    if tools.len() == 0 {
        Some(Seq::empty())
    } else {
        let t = tools.last();
        match qualify_listing(server, filter, tools.drop_last()) {
            None => None,
            Some(prefix) => if !filter_allows(filter, t.tool_name) {
                Some(prefix)
            } else if !qualify_hash_ok(server, t.tool_name) {
                None
            } else {
                Some(
                    prefix.push(
                        ToolDescriptorView {
                            server_name: server,
                            tool_name: t.tool_name,
                            qualified_name: qualified_tool_name(server, t.tool_name),
                            description: t.description,
                        },
                    ),
                )
            },
        }
    }
}

/// A listing of one server's resources, each marked as coming from that server.
pub open spec fn attributed(server: Seq<char>, resources: Seq<ResourceDescriptorView>) -> Seq<
    ResourceDescriptorView,
> {
    resources.map_values(
        |r: ResourceDescriptorView|
            ResourceDescriptorView { server_name: server, uri: r.uri, description: r.description },
    )
}

/// Marking one server's resources as its own replaces their server name and nothing else:
/// each resource keeps its URI and description, in order.
pub proof fn lemma_attributed_keeps_resources(server: Seq<char>, resources: Seq<ResourceDescriptorView>)
    ensures
        attributed(server, resources).len() == resources.len(),
        forall|i: int|
            0 <= i < resources.len() ==> {
                &&& (#[trigger] attributed(server, resources)[i]).server_name == server
                &&& attributed(server, resources)[i].uri == resources[i].uri
                &&& attributed(server, resources)[i].description == resources[i].description
            },
{
}

/// The tools one server lists, filtered and renamed for the whole manager: each tool the
/// filter lets through keeps its name and description, names `server_name`, and gets its
/// qualified name.
pub fn qualify_server_tools(
    server_name: &str,
    filter: &ToolFilter,
    tools: Vec<McpToolDescriptor>,
) -> (r: Result<Vec<McpToolDescriptor>, McpError>)
    ensures
        match r {
            Ok(v) => qualify_listing(server_name@, filter@, tool_views(tools@)) == Some(
                tool_views(v@),
            ),
            Err(e) => qualify_listing(server_name@, filter@, tool_views(tools@)) is None
                && e@ is NameNotQualifiable,
        },
{
    let ghost all = tool_views(tools@);
    let mut out: Vec<McpToolDescriptor> = Vec::new();
    let n = tools.len();
    let mut i: usize = 0;
    while i < n
        invariant
            i <= n,
            n == tools@.len(),
            all == tool_views(tools@),
            qualify_listing(server_name@, filter@, all.take(i as int)) == Some(tool_views(out@)),
        decreases n - i,
    {
        proof {
            assert(all.take(i + 1).drop_last() =~= all.take(i as int));
            assert(all.take(i + 1).last() == tools@[i as int]@);
        }
        let t = &tools[i];
        if allowed_by_filter(t.tool_name.as_str(), filter) {
            match try_qualify_tool_name(server_name, t.tool_name.as_str()) {
                Some(q) => {
                    let d = McpToolDescriptor {
                        server_name: String::from_str(server_name),
                        tool_name: t.tool_name.clone(),
                        qualified_name: q,
                        description: crate::model::clone_opt_string(&t.description),
                    };
                    let ghost before = out@;
                    out.push(d);
                    proof {
                        assert(tool_views(out@) =~= tool_views(before).push(d@));
                    }
                },
                None => {
                    proof {
                        lemma_qualify_listing_none_extends(
                            server_name@,
                            filter@,
                            all,
                            (i + 1) as int,
                        );
                    }
                    return Err(
                        McpError::NameNotQualifiable {
                            server: String::from_str(server_name),
                            tool: t.tool_name.clone(),
                        },
                    );
                },
            }
        }
        i = i + 1;
    }
    proof {
        assert(all.take(n as int) =~= all);
    }
    Ok(out)
}

/// Once a prefix of a listing cannot be qualified, no longer prefix can.
proof fn lemma_qualify_listing_none_extends(
    server: Seq<char>,
    filter: crate::model::ToolFilterView,
    all: Seq<ToolDescriptorView>,
    k: int,
)
    requires
        0 <= k <= all.len(),
        qualify_listing(server, filter, all.take(k)) is None,
    ensures
        qualify_listing(server, filter, all) is None,
    decreases all.len() - k,
{
    if k < all.len() {
        assert(all.take(k + 1).drop_last() =~= all.take(k));
        lemma_qualify_listing_none_extends(server, filter, all, k + 1);
    } else {
        assert(all.take(k) =~= all);
    }
}

/// Every entry of a qualified listing names the server, passes the filter and carries its
/// qualified name.
proof fn lemma_listing_facts(
    server: Seq<char>,
    filter: crate::model::ToolFilterView,
    tools: Seq<ToolDescriptorView>,
)
    ensures
        qualify_listing(server, filter, tools) matches Some(l) ==> forall|j: int|
            0 <= j < l.len() ==> {
                &&& (#[trigger] l[j]).server_name == server
                &&& filter_allows(filter, l[j].tool_name)
                &&& l[j].qualified_name == qualified_tool_name(server, l[j].tool_name)
            },
    decreases tools.len(),
{
    if tools.len() > 0 {
        lemma_listing_facts(server, filter, tools.drop_last());
    }
}

/// The resources one server lists, each marked as coming from `server_name`.
pub fn attribute_resources(server_name: &str, resources: Vec<McpResourceDescriptor>) -> (r: Vec<
    McpResourceDescriptor,
>)
    ensures
        resource_views(r@) == attributed(server_name@, resource_views(resources@)),
        r@.len() == resources@.len(),
        forall|i: int|
            0 <= i < resources@.len() ==> {
                &&& (#[trigger] r@[i])@.server_name == server_name@
                &&& r@[i]@.uri == resources@[i]@.uri
                &&& r@[i]@.description == resources@[i]@.description
            },
{
    let mut out: Vec<McpResourceDescriptor> = Vec::new();
    let n = resources.len();
    let mut i: usize = 0;
    while i < n
        invariant
            i <= n,
            n == resources@.len(),
            resource_views(out@) == attributed(
                server_name@,
                resource_views(resources@.take(i as int)),
            ),
        decreases n - i,
    {
        let res = &resources[i];
        let d = McpResourceDescriptor {
            server_name: String::from_str(server_name),
            uri: res.uri.clone(),
            description: crate::model::clone_opt_string(&res.description),
        };
        let ghost before = out@;
        out.push(d);
        proof {
            assert(resources@.take(i + 1) =~= resources@.take(i as int).push(resources@[i as int]));
            assert(resource_views(out@) =~= resource_views(before).push(d@));
            assert(attributed(server_name@, resource_views(resources@.take(i + 1))) =~= attributed(
                server_name@,
                resource_views(resources@.take(i as int)),
            ).push(d@));
        }
        i = i + 1;
    }
    proof {
        assert(resources@.take(n as int) =~= resources@);
        lemma_attributed_keeps_resources(server_name@, resource_views(resources@));
        assert forall|i: int| 0 <= i < resources@.len() implies {
            &&& (#[trigger] out@[i])@.server_name == server_name@
            &&& out@[i]@.uri == resources@[i]@.uri
            &&& out@[i]@.description == resources@[i]@.description
        } by {
            assert(resource_views(out@)[i] == out@[i]@);
            assert(resource_views(resources@)[i] == resources@[i]@);
        }
    }
    out
}

/// `c` can answer a call of tool `tool` with `arguments` by `r`.
pub open spec fn answers_call<C: McpManagedClient>(
    c: C,
    tool: Seq<char>,
    arguments: Value,
    r: Result<Value, McpError>,
) -> bool {
    exists|t: &str| t@ == tool && #[trigger] call_ensures(C::call_tool, (&c, t, arguments), r)
}

/// `c` can list `l` as its tools.
pub open spec fn lists_tools<C: McpManagedClient>(c: C, l: Seq<ToolDescriptorView>) -> bool {
    exists|v: Vec<McpToolDescriptor>|
        call_ensures(C::list_tools, (&c,), Ok::<Vec<McpToolDescriptor>, McpError>(v))
            && #[trigger] tool_views(v@) == l
}

/// `c` can list `l` as its resources.
pub open spec fn lists_resources<C: McpManagedClient>(c: C, l: Seq<ResourceDescriptorView>) -> bool {
    exists|v: Vec<McpResourceDescriptor>|
        call_ensures(C::list_resources, (&c,), Ok::<Vec<McpResourceDescriptor>, McpError>(v))
            && #[trigger] resource_views(v@) == l
}

/// `emit` was handed, at some call, an update whose view is `v`.
pub open spec fn was_emitted<F: FnMut(McpStartupUpdateEvent)>(emit: F, v: StartupUpdateView) -> bool {
    exists|e: McpStartupUpdateEvent| #[trigger] call_ensures(emit, (e,), ()) && e@ == v
}

/// The MCP servers known to the manager: a configuration and tool filter per server, and a
/// client for each server that runs.
pub struct McpManager<C: McpManagedClient> {
    pub configs: StrMap<(McpServerConfig, ToolFilter)>,
    pub clients: StrMap<C>,
}

impl<C: McpManagedClient> McpManager<C> {
    /// The manager with no server.
    pub fn new() -> (m: Self)
        ensures
            m.configs.keys().len() == 0,
            m.clients.keys().len() == 0,
    {
        McpManager { configs: StrMap::new(), clients: StrMap::new() }
    }

    /// The updates that starting the first `i` configured servers produces.
    pub open spec fn startup_events_upto(&self, i: int) -> Seq<StartupUpdateView>
        decreases i,
    {
        if i <= 0 {
            Seq::empty()
        } else {
            let k = self.configs.keys()[i - 1];
            self.startup_events_upto(i - 1) + server_startup_events(
                k,
                self.configs.values()[i - 1].0.enabled,
                self.clients.has(k),
            )
        }
    }

    /// The report on starting the first `i` configured servers.
    pub open spec fn startup_report_upto(&self, i: int) -> StartupCompleteView
        decreases i,
    {
        if i <= 0 {
            StartupCompleteView { ready: Seq::empty(), failed: Seq::empty(), cancelled: Seq::empty() }
        } else {
            let prev = self.startup_report_upto(i - 1);
            let k = self.configs.keys()[i - 1];
            if !self.configs.values()[i - 1].0.enabled {
                StartupCompleteView { cancelled: prev.cancelled.push(k), ..prev }
            } else if self.clients.has(k) {
                StartupCompleteView { ready: prev.ready.push(k), ..prev }
            } else {
                StartupCompleteView {
                    failed: prev.failed.push(
                        StartupFailureView { server_name: k, error: client_not_registered() },
                    ),
                    ..prev
                }
            }
        }
    }

    /// The updates that starting every configured server produces, in configuration order.
    pub open spec fn startup_events(&self) -> Seq<StartupUpdateView> {
        self.startup_events_upto(self.configs.keys().len() as int)
    }

    /// The report on starting every configured server.
    pub open spec fn startup_report(&self) -> StartupCompleteView {
        self.startup_report_upto(self.configs.keys().len() as int)
    }

    /// Registers a server under its configured name with its filter and client, replacing a
    /// server of the same name.
    pub fn register_server(&mut self, config: McpServerConfig, filter: ToolFilter, client: C)
        ensures
            final(self).clients.keys() == old(self).clients.keys_after_insert(config.name@),
            final(self).clients.values() == old(self).clients.values_after_insert(
                config.name@,
                client,
            ),
            final(self).configs.keys() == old(self).configs.keys_after_insert(config.name@),
            final(self).configs.values() == old(self).configs.values_after_insert(
                config.name@,
                (config, filter),
            ),
    {
        let name = config.name.clone();
        self.clients.insert(config.name.clone(), client);
        self.configs.insert(name, (config, filter));
    }

    /// The updates and the report that starting every configured server produces: a
    /// disabled server is cancelled, an enabled one starts and becomes ready when it has a
    /// client, and fails otherwise.
    pub fn plan_startup(&self) -> (r: (Vec<McpStartupUpdateEvent>, McpStartupCompleteEvent))
        ensures
            update_views(r.0@) == self.startup_events(),
            r.1@ == self.startup_report(),
    {
        let mut events: Vec<McpStartupUpdateEvent> = Vec::new();
        let mut ready: Vec<String> = Vec::new();
        let mut failed: Vec<McpStartupFailure> = Vec::new();
        let mut cancelled: Vec<String> = Vec::new();
        let n = self.configs.len();
        let mut i: usize = 0;
        proof {
            let rep = (McpStartupCompleteEvent { ready, failed, cancelled })@;
            assert(rep.ready =~= Seq::<Seq<char>>::empty());
            assert(rep.failed =~= Seq::<StartupFailureView>::empty());
            assert(rep.cancelled =~= Seq::<Seq<char>>::empty());
            assert(update_views(events@) =~= Seq::<StartupUpdateView>::empty());
        }
        while i < n
            invariant
                i <= n,
                n == self.configs.keys().len(),
                n == self.configs.values().len(),
                update_views(events@) == self.startup_events_upto(i as int),
                (McpStartupCompleteEvent { ready, failed, cancelled })@ == self.startup_report_upto(
                    i as int,
                ),
            decreases n - i,
        {
            let name = self.configs.key_at(i);
            let entry = self.configs.value_at(i);
            let ghost ev0 = events@;
            if !entry.0.enabled {
                events.push(
                    McpStartupUpdateEvent {
                        server_name: name.clone(),
                        status: McpStartupStatus::Cancelled,
                    },
                );
                cancelled.push(name.clone());
            } else {
                events.push(
                    McpStartupUpdateEvent {
                        server_name: name.clone(),
                        status: McpStartupStatus::Starting,
                    },
                );
                if self.clients.contains_key(name.as_str()) {
                    events.push(
                        McpStartupUpdateEvent {
                            server_name: name.clone(),
                            status: McpStartupStatus::Ready,
                        },
                    );
                    ready.push(name.clone());
                } else {
                    let error = String::from_str("client not registered");
                    events.push(
                        McpStartupUpdateEvent {
                            server_name: name.clone(),
                            status: McpStartupStatus::Failed { error: error.clone() },
                        },
                    );
                    failed.push(McpStartupFailure { server_name: name.clone(), error });
                }
            }
            proof {
                assert(update_views(events@) =~= update_views(ev0) + server_startup_events(
                    self.configs.keys()[i as int],
                    self.configs.values()[i as int].0.enabled,
                    self.clients.has(self.configs.keys()[i as int]),
                ));
                let rep = (McpStartupCompleteEvent { ready, failed, cancelled })@;
                let want = self.startup_report_upto(i + 1);
                assert(rep.ready =~= want.ready);
                assert(rep.failed =~= want.failed);
                assert(rep.cancelled =~= want.cancelled);
            }
            i = i + 1;
        }
        (events, McpStartupCompleteEvent { ready, failed, cancelled })
    }

    /// Starts every configured server: hands `emit` each update of `plan_startup` in order
    /// and returns its report.
    pub fn start_all<F: FnMut(McpStartupUpdateEvent)>(&self, mut emit: F) -> (r: McpStartupCompleteEvent)
        requires
            forall|e: McpStartupUpdateEvent| call_requires(emit, (e,)),
        ensures
            r@ == self.startup_report(),
            forall|i: int|
                0 <= i < self.startup_events().len() ==> #[trigger] was_emitted(
                    emit,
                    self.startup_events()[i],
                ),
    {
        let ghost emit0 = emit;
        let (events, report) = self.plan_startup();
        let ghost planned = update_views(events@);
        let n = events.len();
        let mut i: usize = 0;
        while i < n
            invariant
                i <= n,
                n == events@.len(),
                emit == emit0,
                forall|e: McpStartupUpdateEvent| call_requires(emit, (e,)),
                planned == update_views(events@),
                planned == self.startup_events(),
                forall|j: int| 0 <= j < i ==> #[trigger] was_emitted(emit0, planned[j]),
            decreases n - i,
        {
            let e = events[i].clone();
            let ghost ev = e;
            emit(e);
            proof {
                assert(ev@ == planned[i as int]);
                assert(call_ensures(emit0, (ev,), ()));
                assert(was_emitted(emit0, planned[i as int]));
            }
            i = i + 1;
        }
        report
    }

    /// Stops a running server: drops its client and keeps its configuration.
    pub fn stop_server(&mut self, server_name: &str) -> (r: Result<(), McpError>)
        ensures
            final(self).clients.keys() == old(self).clients.keys_after_remove(server_name@),
            final(self).clients.values() == old(self).clients.values_after_remove(server_name@),
            final(self).configs == old(self).configs,
            match r {
                Ok(()) => old(self).clients.has(server_name@),
                Err(e) => !old(self).clients.has(server_name@) && e@ == (
                McpErrorView::ServerNotRunning { server: server_name@ }),
            },
    {
        match self.clients.remove(server_name) {
            Some(_) => Ok(()),
            None => Err(McpError::ServerNotRunning { server: String::from_str(server_name) }),
        }
    }

    /// Forgets a server: its configuration and its client. Fails when no configuration was
    /// registered under the name (a client of that name is dropped all the same).
    pub fn unregister_server(&mut self, server_name: &str) -> (r: Result<(), McpError>)
        ensures
            final(self).configs.keys() == old(self).configs.keys_after_remove(server_name@),
            final(self).configs.values() == old(self).configs.values_after_remove(server_name@),
            final(self).clients.keys() == old(self).clients.keys_after_remove(server_name@),
            final(self).clients.values() == old(self).clients.values_after_remove(server_name@),
            match r {
                Ok(()) => old(self).configs.has(server_name@),
                Err(e) => !old(self).configs.has(server_name@) && e@ == (
                McpErrorView::ServerNotRegistered { server: server_name@ }),
            },
    {
        let had_config = self.configs.remove(server_name).is_some();
        self.clients.remove(server_name);
        if !had_config {
            return Err(McpError::ServerNotRegistered { server: String::from_str(server_name) });
        }
        Ok(())
    }

    /// The tools listed when the configured servers' clients list `listings` (the `i`-th for
    /// the `i`-th configured server; ignored for a server without a client): each server's
    /// listing qualified, one after another; `None` when a name cannot be qualified.
    pub open spec fn tool_listing_of(&self, listings: Seq<Seq<ToolDescriptorView>>) -> Option<
        Seq<ToolDescriptorView>,
    >
        decreases listings.len(),
    {
        if listings.len() == 0 {
            Some(Seq::empty())
        } else {
            let i = listings.len() - 1;
            let k = self.configs.keys()[i];
            match self.tool_listing_of(listings.drop_last()) {
                None => None,
                Some(prefix) => if !self.clients.has(k) {
                    Some(prefix)
                } else {
                    match qualify_listing(k, self.configs.values()[i].1@, listings[i]) {
                        None => None,
                        Some(l) => Some(prefix + l),
                    }
                },
            }
        }
    }

    /// The resources listed when the configured servers' clients list `listings` (the `i`-th
    /// for the `i`-th configured server; ignored for a server without a client): each
    /// server's resources marked as its own, one after another.
    pub open spec fn resource_listing_of(&self, listings: Seq<Seq<ResourceDescriptorView>>) -> Seq<
        ResourceDescriptorView,
    >
        decreases listings.len(),
    {
        if listings.len() == 0 {
            Seq::empty()
        } else {
            let i = listings.len() - 1;
            let k = self.configs.keys()[i];
            let prefix = self.resource_listing_of(listings.drop_last());
            if !self.clients.has(k) {
                prefix
            } else {
                prefix + attributed(k, listings[i])
            }
        }
    }

    /// Each configured server that has a client listed its entry of `listings` as its tools;
    /// the entry of a server without a client is empty.
    pub open spec fn tools_listed_by_clients(&self, listings: Seq<Seq<ToolDescriptorView>>) -> bool {
        forall|i: int|
            #![trigger listings[i]]
            0 <= i < listings.len() ==> match self.clients.lookup(self.configs.keys()[i]) {
                Some(c) => lists_tools(c, listings[i]),
                None => listings[i] == Seq::<ToolDescriptorView>::empty(),
            }
    }

    /// Each configured server that has a client listed its entry of `listings` as its
    /// resources; the entry of a server without a client is empty.
    pub open spec fn resources_listed_by_clients(
        &self,
        listings: Seq<Seq<ResourceDescriptorView>>,
    ) -> bool {
        forall|i: int|
            #![trigger listings[i]]
            0 <= i < listings.len() ==> match self.clients.lookup(self.configs.keys()[i]) {
                Some(c) => lists_resources(c, listings[i]),
                None => listings[i] == Seq::<ResourceDescriptorView>::empty(),
            }
    }

    /// The client of the `i`-th configured server can fail to list its tools.
    pub open spec fn tool_listing_can_fail(&self, i: int) -> bool {
        0 <= i < self.configs.keys().len() && match self.clients.lookup(self.configs.keys()[i]) {
            Some(c) => exists|e: McpError|
                call_ensures(C::list_tools, (&c,), Err::<Vec<McpToolDescriptor>, McpError>(e)),
            None => false,
        }
    }

    /// The client of the `i`-th configured server can fail to list its resources.
    pub open spec fn resource_listing_can_fail(&self, i: int) -> bool {
        0 <= i < self.configs.keys().len() && match self.clients.lookup(self.configs.keys()[i]) {
            Some(c) => exists|e: McpError|
                call_ensures(
                    C::list_resources,
                    (&c,),
                    Err::<Vec<McpResourceDescriptor>, McpError>(e),
                ),
            None => false,
        }
    }

    /// Once the listing of the first servers cannot be qualified, no longer listing can.
    pub proof fn lemma_tool_listing_none_extends(&self, l: Seq<Seq<ToolDescriptorView>>, k: int)
        requires
            0 <= k <= l.len(),
            self.tool_listing_of(l.take(k)) is None,
        ensures
            self.tool_listing_of(l) is None,
        decreases l.len() - k,
    {
        if k < l.len() {
            assert(l.take(k + 1).drop_last() =~= l.take(k));
            self.lemma_tool_listing_none_extends(l, k + 1);
        } else {
            assert(l.take(k) =~= l);
        }
    }

    /// Whether `d` is a descriptor the manager can list: a tool of a configured server that
    /// has a client, let through by the server's filter, and named by its qualified name.
    pub open spec fn listable_tool(&self, d: ToolDescriptorView) -> bool {
        &&& self.configs.has(d.server_name)
        &&& self.clients.has(d.server_name)
        &&& filter_allows(self.configs.lookup(d.server_name).unwrap().1@, d.tool_name)
        &&& d.qualified_name == qualified_tool_name(d.server_name, d.tool_name)
    }

    /// The tools of every configured server that has a client, in configuration order, each
    /// filtered and qualified by `qualify_server_tools`, for what the clients listed. The
    /// first error is returned.
    pub fn list_tools(&self) -> (r: Result<Vec<McpToolDescriptor>, McpError>)
        ensures
            r matches Ok(v) ==> exists|listings: Seq<Seq<ToolDescriptorView>>|
                listings.len() == self.configs.keys().len() && self.tools_listed_by_clients(
                    listings,
                ) && #[trigger] self.tool_listing_of(listings) == Some(tool_views(v@)),
            r matches Ok(v) ==> forall|i: int| 0 <= i < v@.len() ==> self.listable_tool(
                #[trigger] v@[i]@,
            ),
            r is Err ==> (exists|i: int| #[trigger] self.tool_listing_can_fail(i)) || (exists|
                listings: Seq<Seq<ToolDescriptorView>>,
            |
                listings.len() <= self.configs.keys().len() && self.tools_listed_by_clients(
                    listings,
                ) && #[trigger] self.tool_listing_of(listings) is None),
    {
        let ghost mut listings: Seq<Seq<ToolDescriptorView>> = Seq::empty();
        let mut out: Vec<McpToolDescriptor> = Vec::new();
        let n = self.configs.len();
        let mut i: usize = 0;
        while i < n
            invariant
                i <= n,
                n == self.configs.keys().len(),
                n == self.configs.values().len(),
                self.configs.keys().no_duplicates(),
                forall|j: int| 0 <= j < out@.len() ==> self.listable_tool(#[trigger] out@[j]@),
                listings.len() == i,
                self.tools_listed_by_clients(listings),
                self.tool_listing_of(listings) == Some(tool_views(out@)),
            decreases n - i,
        {
            let ghost listings0 = listings;
            let ghost out0 = tool_views(out@);
            let server_name = self.configs.key_at(i);
            let entry = self.configs.value_at(i);
            match self.clients.get(server_name.as_str()) {
                None => {
                    proof {
                        listings = listings.push(Seq::empty());
                        assert(listings.drop_last() =~= listings0);
                        assert(self.configs.keys()[i as int] == server_name@);
                        assert forall|j: int|
                            #![trigger listings[j]]
                            0 <= j < listings.len() implies match self.clients.lookup(
                                self.configs.keys()[j],
                            ) {
                                Some(c) => lists_tools(c, listings[j]),
                                None => listings[j] == Seq::<ToolDescriptorView>::empty(),
                            } by {
                            if j < i {
                                assert(listings[j] == listings0[j]);
                            }
                        }
                    }
                },
                Some(client) => {
                    let tools = match client.list_tools() {
                        Ok(t) => t,
                        Err(e) => {
                            proof {
                                assert(self.configs.keys()[i as int] == server_name@);
                                assert(self.tool_listing_can_fail(i as int));
                            }
                            return Err(e);
                        },
                    };
                    let ghost tv = tool_views(tools@);
                    let ghost ext = listings.push(tv);
                    proof {
                        assert(ext.drop_last() =~= listings0);
                        assert(self.configs.keys()[i as int] == server_name@);
                        assert(lists_tools(*client, tv));
                        assert forall|j: int|
                            #![trigger ext[j]]
                            0 <= j < ext.len() implies match self.clients.lookup(
                                self.configs.keys()[j],
                            ) {
                                Some(c) => lists_tools(c, ext[j]),
                                None => ext[j] == Seq::<ToolDescriptorView>::empty(),
                            } by {
                            if j < i {
                                assert(ext[j] == listings0[j]);
                            }
                        }
                    }
                    let listed = match qualify_server_tools(server_name.as_str(), &entry.1, tools) {
                        Ok(l) => l,
                        Err(e) => {
                            proof {
                                assert(self.tool_listing_of(ext) is None);
                            }
                            return Err(e);
                        },
                    };
                    proof {
                        lemma_listing_facts(server_name@, entry.1@, tool_views(tools@));
                        assert(self.configs.keys()[i as int] == server_name@);
                        assert(self.configs.keys().index_of(server_name@) == i as int);
                    }
                    let ghost before = out@;
                    let mut listed = listed;
                    let ghost added = listed@;
                    out.append(&mut listed);
                    proof {
                        assert forall|j: int| 0 <= j < out@.len() implies self.listable_tool(
                            #[trigger] out@[j]@,
                        ) by {
                            if j >= before.len() {
                                let d = added[j - before.len()]@;
                                assert(out@[j] == added[j - before.len()]);
                                assert(tool_views(added)[j - before.len()] == d);
                            } else {
                                assert(out@[j] == before[j]);
                            }
                        }
                        listings = ext;
                        assert(self.clients.has(server_name@));
                        assert(tool_views(out@) =~= out0 + tool_views(added));
                    }
                },
            }
            i = i + 1;
        }
        Ok(out)
    }

    /// Calls a tool on a server's client; fails with `ServerNotAvailable` when the server has
    /// no client, and otherwise returns what the client returns.
    pub fn call_tool(&self, server_name: &str, tool_name: &str, arguments: Value) -> (r: Result<
        Value,
        McpError,
    >)
        ensures
            !self.clients.has(server_name@) ==> (r matches Err(e) && e@ == (
            McpErrorView::ServerNotAvailable { server: server_name@ })),
            self.clients.lookup(server_name@) matches Some(c) ==> answers_call(
                c,
                tool_name@,
                arguments,
                r,
            ),
    {
        match self.clients.get(server_name) {
            Some(client) => client.call_tool(tool_name, arguments),
            None => Err(McpError::ServerNotAvailable { server: String::from_str(server_name) }),
        }
    }

    /// Calls a tool by its qualified name `mcp__<server>__<tool>`: a name that does not split
    /// fails with `InvalidQualifiedName`; otherwise as `call_tool` on the two parts.
    pub fn call_qualified_tool(&self, qualified_tool_name: &str, arguments: Value) -> (r: Result<
        Value,
        McpError,
    >)
        ensures
            match parse_qualified(qualified_tool_name@) {
                Err(cause) => r matches Err(e) && e@ == (McpErrorView::InvalidQualifiedName {
                    name: qualified_tool_name@,
                    cause,
                }),
                Ok((server, tool)) => match self.clients.lookup(server) {
                    None => r matches Err(e) && e@ == (McpErrorView::ServerNotAvailable { server }),
                    Some(c) => answers_call(c, tool, arguments, r),
                },
            },
    {
        match parse_qualified_tool_name(qualified_tool_name) {
            Err(cause) => Err(
                McpError::InvalidQualifiedName {
                    name: String::from_str(qualified_tool_name),
                    cause,
                },
            ),
            Ok((server_name, tool_name)) => self.call_tool(
                server_name.as_str(),
                tool_name.as_str(),
                arguments,
            ),
        }
    }

    /// Whether `d` is a resource the manager can list: one of a configured server that has a
    /// client, marked as coming from it.
    pub open spec fn listable_resource(&self, d: ResourceDescriptorView) -> bool {
        self.configs.has(d.server_name) && self.clients.has(d.server_name)
    }

    /// The resources of every configured server that has a client, in configuration order,
    /// each marked by `attribute_resources`, for what the clients listed. The first client
    /// error is returned.
    pub fn list_resources(&self) -> (r: Result<Vec<McpResourceDescriptor>, McpError>)
        ensures
            r matches Ok(v) ==> exists|listings: Seq<Seq<ResourceDescriptorView>>|
                listings.len() == self.configs.keys().len() && self.resources_listed_by_clients(
                    listings,
                ) && #[trigger] self.resource_listing_of(listings) == resource_views(v@),
            r matches Ok(v) ==> forall|i: int| 0 <= i < v@.len() ==> self.listable_resource(
                #[trigger] v@[i]@,
            ),
            r is Err ==> exists|i: int| #[trigger] self.resource_listing_can_fail(i),
    {
        let ghost mut listings: Seq<Seq<ResourceDescriptorView>> = Seq::empty();
        let mut out: Vec<McpResourceDescriptor> = Vec::new();
        let n = self.configs.len();
        let mut i: usize = 0;
        while i < n
            invariant
                i <= n,
                n == self.configs.keys().len(),
                forall|j: int| 0 <= j < out@.len() ==> self.listable_resource(#[trigger] out@[j]@),
                listings.len() == i,
                self.resources_listed_by_clients(listings),
                self.resource_listing_of(listings) == resource_views(out@),
            decreases n - i,
        {
            let ghost listings0 = listings;
            let ghost out0 = resource_views(out@);
            let server_name = self.configs.key_at(i);
            match self.clients.get(server_name.as_str()) {
                None => {
                    proof {
                        listings = listings.push(Seq::empty());
                        assert(listings.drop_last() =~= listings0);
                        assert(self.configs.keys()[i as int] == server_name@);
                        assert forall|j: int|
                            #![trigger listings[j]]
                            0 <= j < listings.len() implies match self.clients.lookup(
                                self.configs.keys()[j],
                            ) {
                                Some(c) => lists_resources(c, listings[j]),
                                None => listings[j] == Seq::<ResourceDescriptorView>::empty(),
                            } by {
                            if j < i {
                                assert(listings[j] == listings0[j]);
                            }
                        }
                    }
                },
                Some(client) => {
                    let resources = match client.list_resources() {
                        Ok(v) => v,
                        Err(e) => {
                            proof {
                                assert(self.configs.keys()[i as int] == server_name@);
                                assert(self.resource_listing_can_fail(i as int));
                            }
                            return Err(e);
                        },
                    };
                    let ghost res_v = resource_views(resources@);
                    let mut marked = attribute_resources(server_name.as_str(), resources);
                    let ghost before = out@;
                    let ghost added = marked@;
                    proof {
                        assert(self.configs.keys()[i as int] == server_name@);
                        assert forall|j: int| 0 <= j < added.len() implies (#[trigger] added[j])@.server_name
                            == server_name@ by {
                            assert(resource_views(added)[j] == added[j]@);
                            assert(resource_views(added).len() == res_v.len());
                            assert(resource_views(added)[j] == attributed(server_name@, res_v)[j]);
                        }
                    }
                    out.append(&mut marked);
                    proof {
                        assert forall|j: int| 0 <= j < out@.len() implies self.listable_resource(
                            #[trigger] out@[j]@,
                        ) by {
                            if j >= before.len() {
                                assert(out@[j] == added[j - before.len()]);
                            } else {
                                assert(out@[j] == before[j]);
                            }
                        }
                        listings = listings.push(res_v);
                        assert(listings.drop_last() =~= listings0);
                        assert(self.configs.keys()[i as int] == server_name@);
                        assert(lists_resources(*client, res_v));
                        assert forall|j: int|
                            #![trigger listings[j]]
                            0 <= j < listings.len() implies match self.clients.lookup(
                                self.configs.keys()[j],
                            ) {
                                Some(c) => lists_resources(c, listings[j]),
                                None => listings[j] == Seq::<ResourceDescriptorView>::empty(),
                            } by {
                            if j < i {
                                assert(listings[j] == listings0[j]);
                            }
                        }
                        assert(self.clients.has(server_name@));
                        assert(resource_views(out@) =~= out0 + resource_views(added));
                    }
                },
            }
            i = i + 1;
        }
        Ok(out)
    }

    /// Reads a resource through a server's client; fails with `ServerNotAvailable` when the
    /// server has no client, and otherwise returns what the client returns.
    pub fn read_resource(&self, server_name: &str, uri: &str) -> (r: Result<Value, McpError>)
        ensures
            !self.clients.has(server_name@) ==> (r matches Err(e) && e@ == (
            McpErrorView::ServerNotAvailable { server: server_name@ })),
            self.clients.lookup(server_name@) matches Some(c) ==> call_ensures(
                C::read_resource,
                (&c, uri),
                r,
            ),
    {
        match self.clients.get(server_name) {
            Some(client) => client.read_resource(uri),
            None => Err(McpError::ServerNotAvailable { server: String::from_str(server_name) }),
        }
    }

    /// One sandbox-state notice per configured server, in configuration order.
    pub fn update_sandbox_state(&self, sandbox_mode: &str, cwd: &str) -> (r: Result<
        Vec<Value>,
        McpError,
    >)
        ensures
            r matches Ok(v) && v@.len() == self.configs.keys().len() && forall|i: int|
                0 <= i < v@.len() ==> #[trigger] v@[i] == sandbox_notice(
                    self.configs.keys()[i],
                    sandbox_mode@,
                    cwd@,
                ),
    {
        let mut notices: Vec<Value> = Vec::new();
        let n = self.configs.len();
        let mut i: usize = 0;
        while i < n
            invariant
                i <= n,
                n == self.configs.keys().len(),
                notices@.len() == i,
                forall|j: int|
                    0 <= j < i ==> #[trigger] notices@[j] == sandbox_notice(
                        self.configs.keys()[j],
                        sandbox_mode@,
                        cwd@,
                    ),
            decreases n - i,
        {
            let name = self.configs.key_at(i);
            notices.push(build_sandbox_notice(name.as_str(), sandbox_mode, cwd));
            i = i + 1;
        }
        Ok(notices)
    }
}

impl<C: McpManagedClient> Default for McpManager<C> {
    fn default() -> (m: Self)
        ensures
            m.configs.keys().len() == 0,
            m.clients.keys().len() == 0,
    {
        McpManager::new()
    }
}

/// The method of a sandbox-state notice.
pub open spec fn sandbox_method() -> Seq<char> {
    "codex/sandbox-state/update"@
}

/// The notice that tells server `name` about the sandbox mode and working directory:
/// `{"server_name", "method", "params": {"sandbox_mode", "cwd"}}`.
pub open spec fn sandbox_notice(name: Seq<char>, mode: Seq<char>, cwd: Seq<char>) -> Value {
    json_object_of(
        seq![
            ("server_name"@, json_text(name)),
            ("method"@, json_text(sandbox_method())),
            (
                "params"@,
                json_object_of(seq![("sandbox_mode"@, json_text(mode)), ("cwd"@, json_text(cwd))]),
            ),
        ],
    )
}

fn build_sandbox_notice(name: &str, mode: &str, cwd: &str) -> (v: Value)
    ensures
        v == sandbox_notice(name@, mode@, cwd@),
{
    let mut params: Vec<(String, Value)> = Vec::new();
    params.push((String::from_str("sandbox_mode"), json_string(String::from_str(mode))));
    params.push((String::from_str("cwd"), json_string(String::from_str(cwd))));
    proof {
        assert(field_pairs(params@) =~= seq![
            ("sandbox_mode"@, json_text(mode@)),
            ("cwd"@, json_text(cwd@)),
        ]);
    }
    let params_value = json_object(params);
    let mut fields: Vec<(String, Value)> = Vec::new();
    fields.push((String::from_str("server_name"), json_string(String::from_str(name))));
    fields.push(
        (String::from_str("method"), json_string(String::from_str("codex/sandbox-state/update"))),
    );
    fields.push((String::from_str("params"), params_value));
    proof {
        assert(field_pairs(fields@) =~= seq![
            ("server_name"@, json_text(name@)),
            ("method"@, json_text(sandbox_method())),
            ("params"@, params_value),
        ]);
    }
    json_object(fields)
}

/// Whether an update is about server `k`.
pub open spec fn about_server(k: Seq<char>) -> spec_fn(StartupUpdateView) -> bool {
    |u: StartupUpdateView| u.server_name == k
}

/// The updates among `events` that are about server `k`, in order.
pub open spec fn updates_about(events: Seq<StartupUpdateView>, k: Seq<char>) -> Seq<
    StartupUpdateView,
> {
    events.filter(about_server(k))
}

proof fn lemma_updates_about_one_server(name: Seq<char>, enabled: bool, has_client: bool, k: Seq<char>)
    ensures
        updates_about(server_startup_events(name, enabled, has_client), k) == if name == k {
            server_startup_events(name, enabled, has_client)
        } else {
            Seq::<StartupUpdateView>::empty()
        },
{
    broadcast use Seq::lemma_filter_push;

    let p = about_server(k);
    assert(Seq::<StartupUpdateView>::empty().filter(p) =~= Seq::<StartupUpdateView>::empty()) by {
        reveal(Seq::filter);
    }
    let e = server_startup_events(name, enabled, has_client);
    if !enabled {
        assert(e == Seq::<StartupUpdateView>::empty().push(e[0]));
    } else {
        assert(e == Seq::<StartupUpdateView>::empty().push(e[0]).push(e[1]));
    }
}

proof fn lemma_updates_about_upto<C: McpManagedClient>(m: McpManager<C>, n: int, i: int)
    requires
        m.configs.keys().no_duplicates(),
        0 <= n <= m.configs.keys().len(),
        0 <= i < m.configs.keys().len(),
    ensures
        updates_about(m.startup_events_upto(n), m.configs.keys()[i]) == if i < n {
            server_startup_events(
                m.configs.keys()[i],
                m.configs.values()[i].0.enabled,
                m.clients.has(m.configs.keys()[i]),
            )
        } else {
            Seq::<StartupUpdateView>::empty()
        },
    decreases n,
{
    let k = m.configs.keys()[i];
    if n <= 0 {
        assert(Seq::<StartupUpdateView>::empty().filter(about_server(k))
            =~= Seq::<StartupUpdateView>::empty()) by {
            reveal(Seq::filter);
        }
    } else {
        lemma_updates_about_upto(m, n - 1, i);
        let kn = m.configs.keys()[n - 1];
        let last = server_startup_events(kn, m.configs.values()[n - 1].0.enabled, m.clients.has(kn));
        Seq::filter_distributes_over_add(m.startup_events_upto(n - 1), last, about_server(k));
        lemma_updates_about_one_server(kn, m.configs.values()[n - 1].0.enabled, m.clients.has(kn), k);
        if n - 1 != i {
            assert(kn != k);
            if i < n - 1 {
                assert(updates_about(m.startup_events_upto(n), k) =~= updates_about(
                    m.startup_events_upto(n - 1),
                    k,
                ) + Seq::<StartupUpdateView>::empty());
            } else {
                assert(updates_about(m.startup_events_upto(n), k) =~= Seq::<
                    StartupUpdateView,
                >::empty() + Seq::<StartupUpdateView>::empty());
            }
        } else {
            assert(updates_about(m.startup_events_upto(n), k) =~= Seq::<StartupUpdateView>::empty()
                + last);
        }
    }
}

proof fn lemma_report_upto_disabled<C: McpManagedClient>(m: McpManager<C>, n: int, i: int)
    requires
        m.configs.keys().no_duplicates(),
        0 <= n <= m.configs.keys().len(),
        0 <= i < m.configs.keys().len(),
        !m.configs.values()[i].0.enabled,
    ensures
        i < n ==> m.startup_report_upto(n).cancelled.contains(m.configs.keys()[i]),
        !m.startup_report_upto(n).ready.contains(m.configs.keys()[i]),
        forall|j: int|
            0 <= j < m.startup_report_upto(n).failed.len() ==> (#[trigger] m.startup_report_upto(
                n,
            ).failed[j]).server_name != m.configs.keys()[i],
    decreases n,
{
    let k = m.configs.keys()[i];
    if n > 0 {
        lemma_report_upto_disabled(m, n - 1, i);
        let prev = m.startup_report_upto(n - 1);
        let cur = m.startup_report_upto(n);
        let kn = m.configs.keys()[n - 1];
        if n - 1 == i {
            assert(cur.cancelled == prev.cancelled.push(k));
            assert(cur.cancelled[cur.cancelled.len() - 1] == k);
            assert(cur.ready == prev.ready);
            assert(cur.failed == prev.failed);
        } else {
            assert(kn != k);
            if i < n - 1 {
                let w = choose|w: int| 0 <= w < prev.cancelled.len() && prev.cancelled[w] == k;
                assert(cur.cancelled[w] == k);
            }
            if cur.ready.contains(k) {
                let w = choose|w: int| 0 <= w < cur.ready.len() && cur.ready[w] == k;
                if w < prev.ready.len() {
                    assert(prev.ready[w] == k);
                }
            }
            assert forall|j: int| 0 <= j < cur.failed.len() implies (
            #[trigger] cur.failed[j]).server_name != k by {
                if j < prev.failed.len() {
                    assert(prev.failed[j] == cur.failed[j]);
                }
            }
        }
    }
}

/// A server whose configuration is disabled is cancelled at startup, whether or not a client
/// is registered under its name: the report lists it as cancelled and neither as ready nor as
/// failed, and the only update about it is one `Cancelled`.
pub proof fn lemma_disabled_server_cancelled<C: McpManagedClient>(
    m: McpManager<C>,
    k: Seq<char>,
    entry: (McpServerConfig, ToolFilter),
)
    requires
        m.configs.keys().no_duplicates(),
        m.configs.keys().len() == m.configs.values().len(),
        m.configs.lookup(k) == Some(entry),
        !entry.0.enabled,
    ensures
        m.startup_report().cancelled.contains(k),
        !m.startup_report().ready.contains(k),
        forall|j: int|
            0 <= j < m.startup_report().failed.len() ==> (
            #[trigger] m.startup_report().failed[j]).server_name != k,
        updates_about(m.startup_events(), k) == seq![
            StartupUpdateView { server_name: k, status: StartupStatusView::Cancelled },
        ],
{
    let i = m.configs.keys().index_of(k);
    assert(m.configs.keys().contains(k));
    assert(0 <= i < m.configs.keys().len() && m.configs.keys()[i] == k);
    lemma_report_upto_disabled(m, m.configs.keys().len() as int, i);
    lemma_updates_about_upto(m, m.configs.keys().len() as int, i);
}

/// After `register_server`, the server runs with the client it was registered with and has
/// a configuration; no other server changes.
pub proof fn lemma_registered_server_runs<C: McpManagedClient>(
    before: McpManager<C>,
    after: McpManager<C>,
    name: Seq<char>,
    client: C,
    entry: (McpServerConfig, ToolFilter),
    other: Seq<char>,
)
    requires
        before.clients.keys().no_duplicates(),
        before.clients.keys().len() == before.clients.values().len(),
        before.configs.keys().no_duplicates(),
        before.configs.keys().len() == before.configs.values().len(),
        after.clients.keys() == before.clients.keys_after_insert(name),
        after.clients.values() == before.clients.values_after_insert(name, client),
        after.configs.keys() == before.configs.keys_after_insert(name),
        after.configs.values() == before.configs.values_after_insert(name, entry),
        other != name,
    ensures
        after.clients.lookup(name) == Some(client),
        after.configs.lookup(name) == Some(entry),
        after.clients.lookup(other) == before.clients.lookup(other),
        after.configs.lookup(other) == before.configs.lookup(other),
{
    crate::strmap::lemma_lookup_after_insert(before.clients, after.clients, name, client, name);
    crate::strmap::lemma_lookup_after_insert(before.clients, after.clients, name, client, other);
    crate::strmap::lemma_lookup_after_insert(before.configs, after.configs, name, entry, name);
    crate::strmap::lemma_lookup_after_insert(before.configs, after.configs, name, entry, other);
}

/// After `stop_server`, the server has no client, so `call_tool` and `read_resource` on it
/// fail with `ServerNotAvailable`; its configuration and the other clients stay.
pub proof fn lemma_stopped_server_unavailable<C: McpManagedClient>(
    before: McpManager<C>,
    after: McpManager<C>,
    name: Seq<char>,
    other: Seq<char>,
)
    requires
        before.clients.keys().no_duplicates(),
        before.clients.keys().len() == before.clients.values().len(),
        after.clients.keys() == before.clients.keys_after_remove(name),
        after.clients.values() == before.clients.values_after_remove(name),
        after.configs == before.configs,
        other != name,
    ensures
        !after.clients.has(name),
        after.clients.lookup(other) == before.clients.lookup(other),
        after.configs == before.configs,
{
    crate::strmap::lemma_lookup_after_remove(before.clients, after.clients, name, name);
    crate::strmap::lemma_lookup_after_remove(before.clients, after.clients, name, other);
}


} // verus!
