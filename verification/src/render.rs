//! The JSON form of the stdio server's replies.

use serde_json::Value;
use vstd::prelude::*;

use crate::json::{
    field_pairs, json_array, json_array_of, json_bool, json_boolean, json_count, json_from_option,
    json_object, json_object_of, json_option, json_string, json_text, json_usize,
};
use crate::manager::{resource_views, tool_views};
use crate::model::{
    McpResourceDescriptor, McpToolDescriptor, ResourceDescriptorView, ToolDescriptorView,
};
use crate::stdio::{
    LifecycleSnapshot, LifecycleStatus, LifecycleView, RpcReply, ServerSnapshot,
    ServerSnapshotView, SERVICE_NAME, TRANSPORT,
};

verus! {

/// The JSON array of these texts.
pub open spec fn text_array(items: Seq<Seq<char>>) -> Value {
    json_array_of(items.map_values(|t: Seq<char>| json_text(t)))
}

/// An optional text as JSON: the string, or `null`.
pub open spec fn optional_text(o: Option<Seq<char>>) -> Value {
    json_option(
        match o {
            Some(t) => Some(json_text(t)),
            None => None,
        },
    )
}

/// The name a lifecycle status is reported by.
pub open spec fn status_name(s: LifecycleStatus) -> Seq<char> {
    match s {
        LifecycleStatus::Running => "running"@,
        LifecycleStatus::ShuttingDown => "shutting_down"@,
        LifecycleStatus::Stopped => "stopped"@,
    }
}

/// `{"name", "enabled", "running", "command", "args"}` of one server.
pub open spec fn server_value(s: ServerSnapshotView) -> Value {
    json_object_of(
        seq![
            ("name"@, json_text(s.name)),
            ("enabled"@, json_boolean(s.enabled)),
            ("running"@, json_boolean(s.running)),
            ("command"@, json_text(s.command)),
            ("args"@, text_array(s.args)),
        ],
    )
}

/// `{"status", "servers", "counts": {"defined", "running"}}` of a lifecycle snapshot.
pub open spec fn lifecycle_value(l: LifecycleView) -> Value {
    json_object_of(
        seq![
            ("status"@, json_text(status_name(l.status))),
            ("servers"@, json_array_of(l.servers.map_values(|s: ServerSnapshotView| server_value(s)))),
            (
                "counts"@,
                json_object_of(
                    seq![("defined"@, json_count(l.defined)), ("running"@, json_count(l.running))],
                ),
            ),
        ],
    )
}

/// `{"server_name", "tool_name", "qualified_name", "description"}` of a tool.
pub open spec fn tool_value(d: ToolDescriptorView) -> Value {
    json_object_of(
        seq![
            ("server_name"@, json_text(d.server_name)),
            ("tool_name"@, json_text(d.tool_name)),
            ("qualified_name"@, json_text(d.qualified_name)),
            ("description"@, optional_text(d.description)),
        ],
    )
}

/// `{"server_name", "uri", "description"}` of a resource.
pub open spec fn resource_value(d: ResourceDescriptorView) -> Value {
    json_object_of(
        seq![
            ("server_name"@, json_text(d.server_name)),
            ("uri"@, json_text(d.uri)),
            ("description"@, optional_text(d.description)),
        ],
    )
}

/// The JSON result of a reply.
pub open spec fn reply_value(r: RpcReply) -> Value {
    match r {
        RpcReply::Describe { methods, lifecycle } => json_object_of(
            seq![
                ("server"@, json_text(SERVICE_NAME@)),
                ("transport"@, json_text(TRANSPORT@)),
                ("methods"@, text_array(methods@.map_values(|m: &str| m@))),
                ("lifecycle"@, lifecycle_value(lifecycle@)),
            ],
        ),
        RpcReply::Health { lifecycle } => json_object_of(
            seq![
                ("status"@, json_text("ok"@)),
                ("service"@, json_text(SERVICE_NAME@)),
                ("transport"@, json_text(TRANSPORT@)),
                ("lifecycle"@, lifecycle_value(lifecycle@)),
            ],
        ),
        RpcReply::Tools { tools } => json_object_of(
            seq![
                (
                    "tools"@,
                    json_array_of(
                        tool_views(tools@).map_values(|d: ToolDescriptorView| tool_value(d)),
                    ),
                ),
            ],
        ),
        RpcReply::ToolResult { result } => json_object_of(seq![("result"@, result)]),
        RpcReply::Resources { resources } => json_object_of(
            seq![
                (
                    "resources"@,
                    json_array_of(
                        resource_views(resources@).map_values(
                            |d: ResourceDescriptorView| resource_value(d),
                        ),
                    ),
                ),
            ],
        ),
        RpcReply::Resource { resource } => json_object_of(seq![("resource"@, resource)]),
        RpcReply::Lifecycle { lifecycle } => json_object_of(
            seq![("lifecycle"@, lifecycle_value(lifecycle@))],
        ),
        RpcReply::Shutdown { lifecycle } => json_object_of(
            seq![("ok"@, json_boolean(true)), ("lifecycle"@, lifecycle_value(lifecycle@))],
        ),
    }
}

fn text_json(s: &str) -> (v: Value)
    ensures
        v == json_text(s@),
{
    json_string(String::from_str(s))
}

fn text_array_json(items: &Vec<String>) -> (v: Value)
    ensures
        v == text_array(items.deep_view()),
{
    let mut out: Vec<Value> = Vec::new();
    let n = items.len();
    let mut i: usize = 0;
    while i < n
        invariant
            i <= n,
            n == items@.len(),
            out@ == items.deep_view().take(i as int).map_values(|t: Seq<char>| json_text(t)),
        decreases n - i,
    {
        let ghost before = out@;
        out.push(json_string(items[i].clone()));
        proof {
            assert(items.deep_view().take(i + 1) =~= items.deep_view().take(i as int).push(
                items@[i as int]@,
            ));
            assert(out@ =~= items.deep_view().take(i + 1).map_values(|t: Seq<char>| json_text(t)));
        }
        i = i + 1;
    }
    proof {
        assert(items.deep_view().take(n as int) =~= items.deep_view());
    }
    json_array(out)
}

fn optional_text_json(o: Option<String>) -> (v: Value)
    ensures
        v == optional_text(match o {
            Some(t) => Some(t@),
            None => None,
        }),
{
    let inner = match o {
        Some(t) => Some(json_string(t)),
        None => None,
    };
    json_from_option(inner)
}

fn server_json(s: ServerSnapshot) -> (v: Value)
    ensures
        v == server_value(s@),
{
    let ghost sv = s@;
    let args = text_array_json(&s.args);
    let mut fields: Vec<(String, Value)> = Vec::new();
    fields.push((String::from_str("name"), json_string(s.name)));
    fields.push((String::from_str("enabled"), json_bool(s.enabled)));
    fields.push((String::from_str("running"), json_bool(s.running)));
    fields.push((String::from_str("command"), json_string(s.command)));
    fields.push((String::from_str("args"), args));
    proof {
        assert(field_pairs(fields@) =~= seq![
            ("name"@, json_text(sv.name)),
            ("enabled"@, json_boolean(sv.enabled)),
            ("running"@, json_boolean(sv.running)),
            ("command"@, json_text(sv.command)),
            ("args"@, text_array(sv.args)),
        ]);
    }
    json_object(fields)
}

/// The JSON form of a lifecycle snapshot.
pub fn lifecycle_json(l: LifecycleSnapshot) -> (v: Value)
    ensures
        v == lifecycle_value(l@),
{
    let ghost lv = l@;
    let LifecycleSnapshot { status, servers, defined, running } = l;
    let mut items: Vec<Value> = Vec::new();
    for s in it: servers.into_iter()
        invariant
            lv.servers == it.seq().map_values(|s: ServerSnapshot| s@),
            items@ == it.seq().take(it.index() as int).map_values(
                |s: ServerSnapshot| server_value(s@),
            ),
    {
        let ghost before = items@;
        let ghost sv = s@;
        items.push(server_json(s));
        proof {
            assert(it.seq().take(it.index() + 1) =~= it.seq().take(it.index() as int).push(s));
            assert(items@ =~= before.push(server_value(sv)));
        }
    }
    proof {
        assert(items@ =~= lv.servers.map_values(|s: ServerSnapshotView| server_value(s)));
    }
    let mut counts: Vec<(String, Value)> = Vec::new();
    counts.push((String::from_str("defined"), json_usize(defined)));
    counts.push((String::from_str("running"), json_usize(running)));
    proof {
        assert(field_pairs(counts@) =~= seq![
            ("defined"@, json_count(lv.defined)),
            ("running"@, json_count(lv.running)),
        ]);
    }
    let counts_value = json_object(counts);
    let servers_value = json_array(items);
    let mut fields: Vec<(String, Value)> = Vec::new();
    fields.push((String::from_str("status"), text_json(status.as_str())));
    fields.push((String::from_str("servers"), servers_value));
    fields.push((String::from_str("counts"), counts_value));
    proof {
        assert(field_pairs(fields@) =~= seq![
            ("status"@, json_text(status_name(lv.status))),
            ("servers"@, json_array_of(lv.servers.map_values(|s: ServerSnapshotView| server_value(s)))),
            (
                "counts"@,
                json_object_of(
                    seq![("defined"@, json_count(lv.defined)), ("running"@, json_count(lv.running))],
                ),
            ),
        ]);
    }
    json_object(fields)
}

fn tool_json(d: McpToolDescriptor) -> (v: Value)
    ensures
        v == tool_value(d@),
{
    let ghost dv = d@;
    let mut fields: Vec<(String, Value)> = Vec::new();
    fields.push((String::from_str("server_name"), json_string(d.server_name)));
    fields.push((String::from_str("tool_name"), json_string(d.tool_name)));
    fields.push((String::from_str("qualified_name"), json_string(d.qualified_name)));
    fields.push((String::from_str("description"), optional_text_json(d.description)));
    proof {
        assert(field_pairs(fields@) =~= seq![
            ("server_name"@, json_text(dv.server_name)),
            ("tool_name"@, json_text(dv.tool_name)),
            ("qualified_name"@, json_text(dv.qualified_name)),
            ("description"@, optional_text(dv.description)),
        ]);
    }
    json_object(fields)
}

fn resource_json(d: McpResourceDescriptor) -> (v: Value)
    ensures
        v == resource_value(d@),
{
    let ghost dv = d@;
    let mut fields: Vec<(String, Value)> = Vec::new();
    fields.push((String::from_str("server_name"), json_string(d.server_name)));
    fields.push((String::from_str("uri"), json_string(d.uri)));
    fields.push((String::from_str("description"), optional_text_json(d.description)));
    proof {
        assert(field_pairs(fields@) =~= seq![
            ("server_name"@, json_text(dv.server_name)),
            ("uri"@, json_text(dv.uri)),
            ("description"@, optional_text(dv.description)),
        ]);
    }
    json_object(fields)
}

fn tools_json(tools: Vec<McpToolDescriptor>) -> (v: Value)
    ensures
        v == json_array_of(tool_views(tools@).map_values(|d: ToolDescriptorView| tool_value(d))),
{
    let ghost all = tool_views(tools@);
    let mut items: Vec<Value> = Vec::new();
    for d in it: tools.into_iter()
        invariant
            all == tool_views(it.seq()),
            items@ == tool_views(it.seq()).take(it.index() as int).map_values(
                |d: ToolDescriptorView| tool_value(d),
            ),
    {
        let ghost before = items@;
        let ghost dv = d@;
        items.push(tool_json(d));
        proof {
            assert(tool_views(it.seq()).take(it.index() + 1) =~= tool_views(it.seq()).take(
                it.index() as int,
            ).push(dv));
            assert(items@ =~= before.push(tool_value(dv)));
        }
    }
    proof {
        assert(all.take(all.len() as int) =~= all);
    }
    json_array(items)
}

fn resources_json(resources: Vec<McpResourceDescriptor>) -> (v: Value)
    ensures
        v == json_array_of(
            resource_views(resources@).map_values(|d: ResourceDescriptorView| resource_value(d)),
        ),
{
    let ghost all = resource_views(resources@);
    let mut items: Vec<Value> = Vec::new();
    for d in it: resources.into_iter()
        invariant
            all == resource_views(it.seq()),
            items@ == resource_views(it.seq()).take(it.index() as int).map_values(
                |d: ResourceDescriptorView| resource_value(d),
            ),
    {
        let ghost before = items@;
        let ghost dv = d@;
        items.push(resource_json(d));
        proof {
            assert(resource_views(it.seq()).take(it.index() + 1) =~= resource_views(
                it.seq(),
            ).take(it.index() as int).push(dv));
            assert(items@ =~= before.push(resource_value(dv)));
        }
    }
    proof {
        assert(all.take(all.len() as int) =~= all);
    }
    json_array(items)
}

fn methods_json(methods: Vec<&'static str>) -> (v: Value)
    ensures
        v == text_array(methods@.map_values(|m: &str| m@)),
{
    let ghost all = methods@.map_values(|m: &str| m@);
    let mut items: Vec<Value> = Vec::new();
    for m in it: methods.into_iter()
        invariant
            all == it.seq().map_values(|m: &str| m@),
            items@ == it.seq().take(it.index() as int).map_values(|m: &str| json_text(m@)),
    {
        let ghost before = items@;
        items.push(text_json(m));
        proof {
            assert(it.seq().take(it.index() + 1) =~= it.seq().take(it.index() as int).push(m));
            assert(items@ =~= before.push(json_text(m@)));
        }
    }
    proof {
        assert(items@ =~= all.map_values(|t: Seq<char>| json_text(t)));
    }
    json_array(items)
}

fn one_field(key: &str, value: Value) -> (v: Value)
    ensures
        v == json_object_of(seq![(key@, value)]),
{
    let mut fields: Vec<(String, Value)> = Vec::new();
    fields.push((String::from_str(key), value));
    proof {
        assert(field_pairs(fields@) =~= seq![(key@, value)]);
    }
    json_object(fields)
}

fn two_fields(k1: &str, v1: Value, k2: &str, v2: Value) -> (v: Value)
    ensures
        v == json_object_of(seq![(k1@, v1), (k2@, v2)]),
{
    let mut fields: Vec<(String, Value)> = Vec::new();
    fields.push((String::from_str(k1), v1));
    fields.push((String::from_str(k2), v2));
    proof {
        assert(field_pairs(fields@) =~= seq![(k1@, v1), (k2@, v2)]);
    }
    json_object(fields)
}

fn four_fields(k1: &str, v1: Value, k2: &str, v2: Value, k3: &str, v3: Value, k4: &str, v4: Value) -> (v:
    Value)
    ensures
        v == json_object_of(seq![(k1@, v1), (k2@, v2), (k3@, v3), (k4@, v4)]),
{
    let mut fields: Vec<(String, Value)> = Vec::new();
    fields.push((String::from_str(k1), v1));
    fields.push((String::from_str(k2), v2));
    fields.push((String::from_str(k3), v3));
    fields.push((String::from_str(k4), v4));
    proof {
        assert(field_pairs(fields@) =~= seq![(k1@, v1), (k2@, v2), (k3@, v3), (k4@, v4)]);
    }
    json_object(fields)
}

/// The JSON result the stdio server sends for a reply.
pub fn render_reply(reply: RpcReply) -> (v: Value)
    ensures
        v == reply_value(reply),
{
    match reply {
        RpcReply::Describe { methods, lifecycle } => four_fields(
            "server",
            text_json(SERVICE_NAME),
            "transport",
            text_json(TRANSPORT),
            "methods",
            methods_json(methods),
            "lifecycle",
            lifecycle_json(lifecycle),
        ),
        RpcReply::Health { lifecycle } => four_fields(
            "status",
            text_json("ok"),
            "service",
            text_json(SERVICE_NAME),
            "transport",
            text_json(TRANSPORT),
            "lifecycle",
            lifecycle_json(lifecycle),
        ),
        RpcReply::Tools { tools } => one_field("tools", tools_json(tools)),
        RpcReply::ToolResult { result } => one_field("result", result),
        RpcReply::Resources { resources } => one_field("resources", resources_json(resources)),
        RpcReply::Resource { resource } => one_field("resource", resource),
        RpcReply::Lifecycle { lifecycle } => one_field("lifecycle", lifecycle_json(lifecycle)),
        RpcReply::Shutdown { lifecycle } => two_fields(
            "ok",
            json_bool(true),
            "lifecycle",
            lifecycle_json(lifecycle),
        ),
    }
}

/// `fields` holds key `k` exactly once, with the value `v`.
pub open spec fn field_is(fields: Seq<(Seq<char>, Value)>, k: Seq<char>, v: Value) -> bool {
    exists|j: int|
        0 <= j < fields.len() && #[trigger] fields[j] == (k, v) && (forall|m: int|
            0 <= m < fields.len() && (#[trigger] fields[m]).0 == k ==> m == j)
}

/// `row` is a JSON object whose `name`, `enabled`, `running`, `command` and `args` fields are
/// those of server `s`.
pub open spec fn server_row_shows(row: Value, s: ServerSnapshotView) -> bool {
    exists|f: Seq<(Seq<char>, Value)>|
        #[trigger] json_object_of(f) == row && field_is(f, "name"@, json_text(s.name)) && field_is(
            f,
            "enabled"@,
            json_boolean(s.enabled),
        ) && field_is(f, "running"@, json_boolean(s.running)) && field_is(
            f,
            "command"@,
            json_text(s.command),
        ) && field_is(f, "args"@, json_array_of(s.args.map_values(|t: Seq<char>| json_text(t))))
}

/// `item` is a JSON object whose `server_name`, `tool_name`, `qualified_name` and
/// `description` fields are those of tool `d`.
pub open spec fn tool_item_shows(item: Value, d: ToolDescriptorView) -> bool {
    exists|f: Seq<(Seq<char>, Value)>|
        #[trigger] json_object_of(f) == item && field_is(
            f,
            "server_name"@,
            json_text(d.server_name),
        ) && field_is(f, "tool_name"@, json_text(d.tool_name)) && field_is(
            f,
            "qualified_name"@,
            json_text(d.qualified_name),
        ) && field_is(f, "description"@, optional_text(d.description))
}

proof fn lemma_field_at(f: Seq<(Seq<char>, Value)>, j: int, k: Seq<char>, v: Value)
    requires
        0 <= j < f.len(),
        f[j] == (k, v),
        forall|m: int| 0 <= m < f.len() && m != j ==> f[m].0 != k,
    ensures
        field_is(f, k, v),
{
    assert forall|m: int| 0 <= m < f.len() && (#[trigger] f[m]).0 == k implies m == j by {}
}

/// Two texts with different first chars differ.
proof fn lemma_first_char_differs(a: Seq<char>, b: Seq<char>)
    requires
        a.len() > 0,
        b.len() > 0,
        a[0] != b[0],
    ensures
        a != b,
{
}

/// Each server row of a rendered lifecycle shows that server's name, command and arguments,
/// `enabled` as the server's `enabled` flag and `running` as its `running` flag.
pub proof fn lemma_server_row(s: ServerSnapshotView)
    ensures
        server_row_shows(server_value(s), s),
{
    reveal_strlit("name");
    reveal_strlit("enabled");
    reveal_strlit("running");
    reveal_strlit("command");
    reveal_strlit("args");
    let f = seq![
        ("name"@, json_text(s.name)),
        ("enabled"@, json_boolean(s.enabled)),
        ("running"@, json_boolean(s.running)),
        ("command"@, json_text(s.command)),
        ("args"@, text_array(s.args)),
    ];
    let ks = seq!["name"@, "enabled"@, "running"@, "command"@, "args"@];
    assert forall|a: int, b: int| 0 <= a < 5 && 0 <= b < 5 && a != b implies ks[a] != ks[b] by {
        lemma_first_char_differs(ks[a], ks[b]);
    }
    assert forall|m: int| 0 <= m < 5 implies (#[trigger] f[m]).0 == ks[m] by {}
    lemma_field_at(f, 0, "name"@, json_text(s.name));
    lemma_field_at(f, 1, "enabled"@, json_boolean(s.enabled));
    lemma_field_at(f, 2, "running"@, json_boolean(s.running));
    lemma_field_at(f, 3, "command"@, json_text(s.command));
    lemma_field_at(f, 4, "args"@, text_array(s.args));
    assert(json_object_of(f) == server_value(s));
}

/// A rendered lifecycle is an object whose `servers` field is an array with one row per
/// server of the snapshot, in order, each showing that server.
pub proof fn lemma_lifecycle_rendering(l: LifecycleView)
    ensures
        exists|top: Seq<(Seq<char>, Value)>, rows: Seq<Value>|
            #[trigger] field_is(top, "servers"@, json_array_of(rows)) && json_object_of(top)
                == lifecycle_value(l) && rows.len() == l.servers.len() && forall|i: int|
                0 <= i < rows.len() ==> server_row_shows(#[trigger] rows[i], l.servers[i]),
{
    reveal_strlit("status");
    reveal_strlit("servers");
    reveal_strlit("counts");
    let rows = l.servers.map_values(|s: ServerSnapshotView| server_value(s));
    let top = seq![
        ("status"@, json_text(status_name(l.status))),
        ("servers"@, json_array_of(rows)),
        (
            "counts"@,
            json_object_of(
                seq![("defined"@, json_count(l.defined)), ("running"@, json_count(l.running))],
            ),
        ),
    ];
    assert("status"@[1] != "servers"@[1]);
    assert("counts"@[0] != "servers"@[0]);
    lemma_field_at(top, 1, "servers"@, json_array_of(rows));
    assert forall|i: int| 0 <= i < rows.len() implies server_row_shows(
        #[trigger] rows[i],
        l.servers[i],
    ) by {
        lemma_server_row(l.servers[i]);
    }
    assert(json_object_of(top) == lifecycle_value(l));
}

/// Each rendered tool shows the tool's own name under `tool_name` and its qualified name
/// under `qualified_name`, with its server and description.
pub proof fn lemma_tool_item(d: ToolDescriptorView)
    ensures
        tool_item_shows(tool_value(d), d),
{
    reveal_strlit("server_name");
    reveal_strlit("tool_name");
    reveal_strlit("qualified_name");
    reveal_strlit("description");
    let f = seq![
        ("server_name"@, json_text(d.server_name)),
        ("tool_name"@, json_text(d.tool_name)),
        ("qualified_name"@, json_text(d.qualified_name)),
        ("description"@, optional_text(d.description)),
    ];
    let ks = seq!["server_name"@, "tool_name"@, "qualified_name"@, "description"@];
    assert forall|a: int, b: int| 0 <= a < 4 && 0 <= b < 4 && a != b implies ks[a] != ks[b] by {
        lemma_first_char_differs(ks[a], ks[b]);
    }
    assert forall|m: int| 0 <= m < 4 implies (#[trigger] f[m]).0 == ks[m] by {}
    lemma_field_at(f, 0, "server_name"@, json_text(d.server_name));
    lemma_field_at(f, 1, "tool_name"@, json_text(d.tool_name));
    lemma_field_at(f, 2, "qualified_name"@, json_text(d.qualified_name));
    lemma_field_at(f, 3, "description"@, optional_text(d.description));
    assert(json_object_of(f) == tool_value(d));
}

/// A rendered `tools/list` reply is an object whose `tools` field is an array with one item
/// per listed tool, in order, each showing that tool.
pub proof fn lemma_tools_rendering(tools: Vec<McpToolDescriptor>)
    ensures
        exists|top: Seq<(Seq<char>, Value)>, items: Seq<Value>|
            #[trigger] field_is(top, "tools"@, json_array_of(items)) && json_object_of(top)
                == reply_value(RpcReply::Tools { tools }) && items.len() == tools@.len()
                && forall|i: int|
                0 <= i < items.len() ==> tool_item_shows(#[trigger] items[i], tools@[i]@),
{
    let items = tool_views(tools@).map_values(|d: ToolDescriptorView| tool_value(d));
    let top = seq![("tools"@, json_array_of(items))];
    lemma_field_at(top, 0, "tools"@, json_array_of(items));
    assert forall|i: int| 0 <= i < items.len() implies tool_item_shows(
        #[trigger] items[i],
        tools@[i]@,
    ) by {
        lemma_tool_item(tools@[i]@);
    }
    assert(json_object_of(top) == reply_value(RpcReply::Tools { tools }));
}

} // verus!
