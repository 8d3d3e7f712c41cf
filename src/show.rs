//! The decisions and text of the "show", "commit" and "validate" commands:
//! argument decoding, result messages, table rows and detail blocks built
//! from configuration and state nodes.
use vstd::prelude::*;
use crate::flatten::{lemma_text_of_add, lemma_text_of_one, text_of, views};
use crate::session::ConfigurationType;
use crate::tree::{ConfigNodeRef, ConfigTree, DataNodeRefExt, NodeKind};

verus! {

/// How a configuration is displayed.
#[derive(Clone, Copy, Debug, PartialEq, Eq, Structural)]
pub enum OutputFormat {
    /// As command lines.
    Cmds,
    Json,
    Xml,
}

/// A decoded "show <candidate|running>" request.
#[derive(Clone, Copy, Debug, PartialEq, Eq, Structural)]
pub struct ShowConfigRequest {
    pub config_type: ConfigurationType,
    pub with_defaults: bool,
    pub format: OutputFormat,
}

fn same_text(a: &str, b: &str) -> (r: bool)
    ensures
        r == (a@ == b@),
{
    a.to_owned() == b.to_owned()
}

/// Decodes the structured output format, where one was asked for.
pub fn parse_format(format: &str) -> (r: Option<OutputFormat>)
    ensures
        r == if format@ == "json"@ {
            Some(OutputFormat::Json)
        } else if format@ == "xml"@ {
            Some(OutputFormat::Xml)
        } else {
            None::<OutputFormat>
        },
{
    if same_text(format, "json") {
        Some(OutputFormat::Json)
    } else if same_text(format, "xml") {
        Some(OutputFormat::Xml)
    } else {
        None
    }
}

/// Decodes the arguments of "show <candidate|running>": which configuration,
/// whether default values are included, and the format (command lines where
/// none is given).
pub fn show_config_request(configuration: &str, with_defaults: bool, format: Option<&str>) -> (r:
    Result<ShowConfigRequest, String>)
    ensures
        (configuration@ != "candidate"@ && configuration@ != "running"@) ==> r is Err
            && r->Err_0@ == "% unexpected configuration"@,
        (configuration@ == "candidate"@ || configuration@ == "running"@) ==> match format {
            Some(f) => if f@ == "json"@ || f@ == "xml"@ {
                r is Ok
            } else {
                r is Err && r->Err_0@ == "% unknown format"@
            },
            None => r is Ok,
        },
        r is Ok ==> {
            &&& r->Ok_0.config_type == if configuration@ == "candidate"@ {
                ConfigurationType::Candidate
            } else {
                ConfigurationType::Running
            }
            &&& r->Ok_0.with_defaults == with_defaults
            &&& r->Ok_0.format == match format {
                Some(f) => if f@ == "json"@ {
                    OutputFormat::Json
                } else {
                    OutputFormat::Xml
                },
                None => OutputFormat::Cmds,
            }
        },
{
    let config_type = if same_text(configuration, "candidate") {
        ConfigurationType::Candidate
    } else if same_text(configuration, "running") {
        ConfigurationType::Running
    } else {
        return Err("% unexpected configuration".to_owned());
    };
    let format = match format {
        None => OutputFormat::Cmds,
        Some(f) => match parse_format(f) {
            Some(fmt) => fmt,
            None => {
                return Err("% unknown format".to_owned());
            },
        },
    };
    Ok(ShowConfigRequest { config_type, with_defaults, format })
}

/// Format of "show state": JSON unless XML is asked for.
pub fn show_state_format(format: Option<&str>) -> (r: Result<OutputFormat, String>)
    ensures
        match format {
            None => r == Ok::<OutputFormat, String>(OutputFormat::Json),
            Some(f) => if f@ == "json"@ {
                r == Ok::<OutputFormat, String>(OutputFormat::Json)
            } else if f@ == "xml"@ {
                r == Ok::<OutputFormat, String>(OutputFormat::Xml)
            } else {
                r is Err && r->Err_0@ == "% unknown format"@
            },
        },
{
    match format {
        None => Ok(OutputFormat::Json),
        Some(f) => match parse_format(f) {
            Some(fmt) => Ok(fmt),
            None => Err("% unknown format".to_owned()),
        },
    }
}

fn prefixed(prefix: &str, text: &str) -> (r: String)
    ensures
        r@ == prefix@ + text@,
{
    let mut s = prefix.to_owned();
    s.append(text);
    s
}

/// Message shown after a commit.
pub fn commit_report(result: &Result<(), String>) -> (r: String)
    ensures
        r@ == match result {
            Ok(_) => "% configuration committed successfully"@,
            Err(e) => "% "@ + e@,
        },
{
    match result {
        Ok(_) => "% configuration committed successfully".to_owned(),
        Err(e) => prefixed("% ", e.as_str()),
    }
}

/// Message shown after validating the candidate configuration.
pub fn validate_report(result: &Result<(), String>) -> (r: String)
    ensures
        r@ == match result {
            Ok(_) => "% candidate configuration validated successfully"@,
            Err(e) => "% "@ + e@,
        },
{
    match result {
        Ok(_) => "% candidate configuration validated successfully".to_owned(),
        Err(e) => prefixed("% ", e.as_str()),
    }
}

/// One row of the module table: name, revision or "-", flags ("I" where the
/// module is implemented), namespace.
pub fn yang_module_row(name: &str, revision: Option<&str>, implemented: bool, namespace: &str) -> (r:
    Vec<String>)
    ensures
        views(r@) == seq![
            name@,
            match revision {
                Some(v) => v@,
                None => "-"@,
            },
            if implemented { "I"@ } else { ""@ },
            namespace@,
        ],
{
    let mut row: Vec<String> = Vec::new();
    row.push(name.to_owned());
    row.push(
        match revision {
            Some(v) => v.to_owned(),
            None => "-".to_owned(),
        },
    );
    row.push(if implemented { "I".to_owned() } else { "".to_owned() });
    row.push(namespace.to_owned());
    assert(views(row@) =~= seq![
        name@,
        match revision {
            Some(v) => v@,
            None => "-"@,
        },
        if implemented { "I"@ } else { ""@ },
        namespace@,
    ]);
    row
}

/// A child's value, or "-" where it has none.
pub open spec fn value_or_dash(n: &ConfigNodeRef, name: Seq<char>) -> Seq<char> {
    match n.child_value_spec(name) {
        Some(v) => v,
        None => "-"@,
    }
}

/// Hello cell of an interface row: the interval, then when the timer fires.
pub open spec fn hello_cell(n: &ConfigNodeRef) -> Seq<char> {
    value_or_dash(n, "hello-interval"@) + " ("@ + match n.child_value_spec("hello-timer"@) {
        Some(t) => "due in "@ + t,
        None => "inactive"@,
    } + ")"@
}

fn lookup(n: &ConfigNodeRef, name: &str) -> (r: String)
    requires
        n.valid(),
    ensures
        r@ == value_or_dash(n, name@),
{
    let v = n.child_value(name);
    proof {
        reveal_strlit("-");
    }
    assert(value_or_dash(n, name@) =~= dash_or(n.child_value_spec(name@)));
    v
}

spec fn dash_or(v: Option<Seq<char>>) -> Seq<char> {
    match v {
        Some(x) => x,
        None => seq!['-'],
    }
}

fn join3(a: &str, b: &str, c: &str) -> (r: String)
    ensures
        r@ == a@ + b@ + c@,
{
    let mut s = a.to_owned();
    s.append(b);
    s.append(c);
    s
}

/// One row of the OSPF interface table.
pub fn ospf_interface_row(instance: &str, area: &str, iface: &ConfigNodeRef) -> (r: Vec<String>)
    requires
        iface.valid(),
    ensures
        views(r@) == seq![
            instance@,
            area@,
            value_or_dash(iface, "name"@),
            value_or_dash(iface, "interface-type"@),
            value_or_dash(iface, "state"@),
            value_or_dash(iface, "priority"@),
            value_or_dash(iface, "cost"@),
            hello_cell(iface),
        ],
{
    let timer = match iface.child_opt_value("hello-timer") {
        Some(t) => prefixed("due in ", t.as_str()),
        None => "inactive".to_owned(),
    };
    let hello = join3(lookup(iface, "hello-interval").as_str(), " (", timer.as_str());
    let hello = prefixed(hello.as_str(), ")");
    let mut row: Vec<String> = Vec::new();
    row.push(instance.to_owned());
    row.push(area.to_owned());
    row.push(lookup(iface, "name"));
    row.push(lookup(iface, "interface-type"));
    row.push(lookup(iface, "state"));
    row.push(lookup(iface, "priority"));
    row.push(lookup(iface, "cost"));
    row.push(hello);
    assert(views(row@) =~= seq![
        instance@,
        area@,
        value_or_dash(iface, "name"@),
        value_or_dash(iface, "interface-type"@),
        value_or_dash(iface, "state"@),
        value_or_dash(iface, "priority"@),
        value_or_dash(iface, "cost"@),
        hello_cell(iface),
    ]);
    row
}

/// One row of the OSPF neighbor table; `dead_interval` is that of the
/// neighbor's interface.
pub fn ospf_neighbor_row(
    instance: &str,
    area: &str,
    ifname: &str,
    dead_interval: &str,
    nbr: &ConfigNodeRef,
) -> (r: Vec<String>)
    requires
        nbr.valid(),
    ensures
        views(r@) == seq![
            instance@,
            area@,
            ifname@,
            value_or_dash(nbr, "neighbor-router-id"@),
            value_or_dash(nbr, "address"@),
            value_or_dash(nbr, "state"@),
            dead_interval@ + " (due in "@ + value_or_dash(nbr, "dead-timer"@) + ")"@,
        ],
{
    let dead = join3(dead_interval, " (due in ", lookup(nbr, "dead-timer").as_str());
    let dead = prefixed(dead.as_str(), ")");
    let mut row: Vec<String> = Vec::new();
    row.push(instance.to_owned());
    row.push(area.to_owned());
    row.push(ifname.to_owned());
    row.push(lookup(nbr, "neighbor-router-id"));
    row.push(lookup(nbr, "address"));
    row.push(lookup(nbr, "state"));
    row.push(dead);
    assert(views(row@) =~= seq![
        instance@,
        area@,
        ifname@,
        value_or_dash(nbr, "neighbor-router-id"@),
        value_or_dash(nbr, "address"@),
        value_or_dash(nbr, "state"@),
        dead_interval@ + " (due in "@ + value_or_dash(nbr, "dead-timer"@) + ")"@,
    ]);
    row
}

/// One row of the OSPF route table, for one next hop of `route`. Only the
/// first next hop of a route repeats the route's own columns.
pub fn ospf_route_row(instance: &str, route: &ConfigNodeRef, nexthop: &ConfigNodeRef, first: bool) -> (r:
    Vec<String>)
    requires
        route.valid(),
        nexthop.valid(),
    ensures
        views(r@) == seq![
            instance@,
            if first { value_or_dash(route, "prefix"@) } else { ""@ },
            if first { value_or_dash(route, "metric"@) } else { ""@ },
            if first { value_or_dash(route, "route-type"@) } else { ""@ },
            if first { value_or_dash(route, "route-tag"@) } else { ""@ },
            value_or_dash(nexthop, "outgoing-interface"@),
            value_or_dash(nexthop, "next-hop"@),
        ],
{
    let mut row: Vec<String> = Vec::new();
    row.push(instance.to_owned());
    row.push(if first { lookup(route, "prefix") } else { "".to_owned() });
    row.push(if first { lookup(route, "metric") } else { "".to_owned() });
    row.push(if first { lookup(route, "route-type") } else { "".to_owned() });
    row.push(if first { lookup(route, "route-tag") } else { "".to_owned() });
    row.push(lookup(nexthop, "outgoing-interface"));
    row.push(lookup(nexthop, "next-hop"));
    assert(views(row@) =~= seq![
        instance@,
        if first { value_or_dash(route, "prefix"@) } else { ""@ },
        if first { value_or_dash(route, "metric"@) } else { ""@ },
        if first { value_or_dash(route, "route-type"@) } else { ""@ },
        if first { value_or_dash(route, "route-tag"@) } else { ""@ },
        value_or_dash(nexthop, "outgoing-interface"@),
        value_or_dash(nexthop, "next-hop"@),
    ]);
    row
}

/// "name: value" lines of the valued children of `i`, from the `k`-th on,
/// each after `indent`.
pub open spec fn value_lines(t: &ConfigTree, i: int, k: int, indent: Seq<char>) -> Seq<Seq<char>>
    decreases t.children_of(i).len() - k,
{
    if 0 <= k < t.children_of(i).len() {
        let c = t.children_of(i)[k] as int;
        let rest = value_lines(t, i, k + 1, indent);
        match t.value_of(c) {
            Some(v) => seq![indent + t.name_of(c) + ": "@ + v].add(rest),
            None => rest,
        }
    } else {
        Seq::empty()
    }
}

/// Body of a detail block, from the `k`-th child of `i` on: a line per valued
/// non-key child, and for a child without a value whose name is among
/// `sections`, a " statistics" line followed by that child's valued children.
pub open spec fn detail_lines(t: &ConfigTree, i: int, k: int, sections: Seq<Seq<char>>) -> Seq<
    Seq<char>,
>
    decreases t.children_of(i).len() - k,
{
    if 0 <= k < t.children_of(i).len() {
        let c = t.children_of(i)[k] as int;
        let rest = detail_lines(t, i, k + 1, sections);
        if t.kind_of(c) == NodeKind::ListKeyLeaf {
            rest
        } else {
            match t.value_of(c) {
                Some(v) => seq![" "@ + t.name_of(c) + ": "@ + v].add(rest),
                None => if sections.contains(t.name_of(c)) {
                    seq![" statistics"@].add(value_lines(t, c, 0, "  "@)).add(rest)
                } else {
                    rest
                },
            }
        }
    } else {
        Seq::empty()
    }
}

fn push_line(out: &mut String, line: &str)
    ensures
        final(out)@ == old(out)@ + text_of(seq![line@]),
{
    out.append(line);
    out.append("\n");
    proof {
        reveal_strlit("\n");
        lemma_text_of_one(line@);
    }
    assert(out@ =~= old(out)@ + text_of(seq![line@]));
}

fn field_line(indent: &str, name: &str, value: &str) -> (r: String)
    ensures
        r@ == indent@ + name@ + ": "@ + value@,
{
    let mut s = indent.to_owned();
    s.append(name);
    s.append(": ");
    s.append(value);
    s
}

fn emit_value_lines(t: &ConfigTree, i: usize, k: usize, indent: &str, out: &mut String)
    requires
        t.wf(),
        i < t.nodes@.len(),
        k <= t.children_of(i as int).len(),
    ensures
        final(out)@ == old(out)@ + text_of(value_lines(t, i as int, k as int, indent@)),
    decreases t.children_of(i as int).len() - k,
{
    if k == t.nodes[i].children.len() {
        assert(text_of(value_lines(t, i as int, k as int, indent@)) =~= Seq::<char>::empty());
        assert(out@ =~= old(out)@ + Seq::<char>::empty());
        return;
    }
    let c = t.nodes[i].children[k];
    assert(t.children_of(i as int)[k as int] == c);
    let ghost rest = value_lines(t, i as int, k + 1, indent@);
    let ghost head: Seq<Seq<char>>;
    match &t.nodes[c].value {
        Some(v) => {
            let line = field_line(indent, t.nodes[c].name.as_str(), v.as_str());
            push_line(out, line.as_str());
            proof {
                head = seq![line@];
            }
        },
        None => {
            proof {
                head = Seq::empty();
            }
            assert(text_of(head) =~= Seq::<char>::empty());
            assert(out@ =~= old(out)@ + text_of(head));
        },
    }
    emit_value_lines(t, i, k + 1, indent, out);
    proof {
        lemma_text_of_add(head, rest);
    }
    assert(head.add(rest) =~= value_lines(t, i as int, k as int, indent@));
    assert(out@ =~= old(out)@ + text_of(value_lines(t, i as int, k as int, indent@)));
}

fn is_section(sections: &Vec<String>, name: &String) -> (r: bool)
    ensures
        r == views(sections@).contains(name@),
{
    let n = sections.len();
    let mut k: usize = 0;
    while k < n
        invariant
            n == sections@.len(),
            k <= n,
            forall|j: int| 0 <= j < k ==> sections@[j]@ != name@,
        decreases n - k,
    {
        if sections[k] == *name {
            assert(views(sections@)[k as int] == name@);
            return true;
        }
        k = k + 1;
    }
    assert(!views(sections@).contains(name@)) by {
        if views(sections@).contains(name@) {
            let j = choose|j: int| 0 <= j < n && views(sections@)[j] == name@;
            assert(sections@[j]@ == name@);
        }
    }
    false
}

fn emit_detail_from(t: &ConfigTree, i: usize, k: usize, sections: &Vec<String>, out: &mut String)
    requires
        t.wf(),
        i < t.nodes@.len(),
        k <= t.children_of(i as int).len(),
    ensures
        final(out)@ == old(out)@ + text_of(detail_lines(t, i as int, k as int, views(sections@))),
    decreases t.children_of(i as int).len() - k,
{
    let ghost secs = views(sections@);
    if k == t.nodes[i].children.len() {
        assert(text_of(detail_lines(t, i as int, k as int, secs)) =~= Seq::<char>::empty());
        assert(out@ =~= old(out)@ + Seq::<char>::empty());
        return;
    }
    let c = t.nodes[i].children[k];
    assert(t.children_of(i as int)[k as int] == c);
    let ghost rest = detail_lines(t, i as int, k + 1, secs);
    let ghost head: Seq<Seq<char>>;
    if t.nodes[c].kind == NodeKind::ListKeyLeaf {
        proof {
            head = Seq::empty();
        }
    } else {
        match &t.nodes[c].value {
            Some(v) => {
                let line = field_line(" ", t.nodes[c].name.as_str(), v.as_str());
                push_line(out, line.as_str());
                proof {
                    head = seq![line@];
                }
            },
            None => {
                if is_section(sections, &t.nodes[c].name) {
                    push_line(out, " statistics");
                    emit_value_lines(t, c, 0, "  ", out);
                    proof {
                        head = seq![" statistics"@].add(value_lines(t, c as int, 0, "  "@));
                        lemma_text_of_add(seq![" statistics"@], value_lines(t, c as int, 0, "  "@));
                    }
                } else {
                    proof {
                        head = Seq::empty();
                    }
                }
            },
        }
    }
    assert(out@ =~= old(out)@ + text_of(head)) by {
        if head.len() == 0 {
            assert(text_of(head) =~= Seq::<char>::empty());
        }
    }
    emit_detail_from(t, i, k + 1, sections, out);
    proof {
        lemma_text_of_add(head, rest);
    }
    assert(head.add(rest) =~= detail_lines(t, i as int, k as int, secs));
    assert(out@ =~= old(out)@ + text_of(detail_lines(t, i as int, k as int, secs)));
}

/// Detail block of one OSPF interface: its name, the instance and area it
/// belongs to, its valued fields, its statistics, and an empty line.
pub fn ospf_interface_detail(instance: &str, area: &str, iface: &ConfigNodeRef) -> (r: String)
    requires
        iface.valid(),
    ensures
        r@ == text_of(
            seq![value_or_dash(iface, "name"@), " instance: "@ + instance@, " area: "@ + area@]
                .add(detail_lines(iface.tree, iface.id as int, 0, seq!["statistics"@]))
                .push(""@),
        ),
{
    let mut out = String::new();
    push_line(&mut out, lookup(iface, "name").as_str());
    push_line(&mut out, prefixed(" instance: ", instance).as_str());
    push_line(&mut out, prefixed(" area: ", area).as_str());
    let mut sections: Vec<String> = Vec::new();
    sections.push("statistics".to_owned());
    assert(views(sections@) =~= seq!["statistics"@]);
    emit_detail_from(iface.tree, iface.id, 0, &sections, &mut out);
    push_line(&mut out, "");
    proof {
        let head = seq![value_or_dash(iface, "name"@), " instance: "@ + instance@, " area: "@ + area@];
        let body = detail_lines(iface.tree, iface.id as int, 0, seq!["statistics"@]);
        lemma_text_of_add(seq![head[0]], seq![head[1]]);
        lemma_text_of_add(seq![head[0], head[1]], seq![head[2]]);
        assert(seq![head[0]].add(seq![head[1]]) =~= seq![head[0], head[1]]);
        assert(seq![head[0], head[1]].add(seq![head[2]]) =~= head);
        lemma_text_of_add(head, body);
        lemma_text_of_add(head.add(body), seq![""@]);
        assert(head.add(body).add(seq![""@]) =~= head.add(body).push(""@));
    }
    out
}

/// Detail block of one OSPF neighbor: its router id, the instance, area and
/// interface it was learnt on, its valued fields, its statistics and graceful
/// restart sections, and an empty line.
pub fn ospf_neighbor_detail(instance: &str, area: &str, ifname: &str, nbr: &ConfigNodeRef) -> (r:
    String)
    requires
        nbr.valid(),
    ensures
        r@ == text_of(
            seq![
                value_or_dash(nbr, "neighbor-router-id"@),
                " instance: "@ + instance@,
                " area: "@ + area@,
                " interface: "@ + ifname@,
            ].add(
                detail_lines(nbr.tree, nbr.id as int, 0, seq!["statistics"@, "graceful-restart"@]),
            ).push(""@),
        ),
{
    let mut out = String::new();
    push_line(&mut out, lookup(nbr, "neighbor-router-id").as_str());
    push_line(&mut out, prefixed(" instance: ", instance).as_str());
    push_line(&mut out, prefixed(" area: ", area).as_str());
    push_line(&mut out, prefixed(" interface: ", ifname).as_str());
    let mut sections: Vec<String> = Vec::new();
    sections.push("statistics".to_owned());
    sections.push("graceful-restart".to_owned());
    assert(views(sections@) =~= seq!["statistics"@, "graceful-restart"@]);
    emit_detail_from(nbr.tree, nbr.id, 0, &sections, &mut out);
    push_line(&mut out, "");
    proof {
        let head = seq![
            value_or_dash(nbr, "neighbor-router-id"@),
            " instance: "@ + instance@,
            " area: "@ + area@,
            " interface: "@ + ifname@,
        ];
        let body = detail_lines(nbr.tree, nbr.id as int, 0, seq!["statistics"@, "graceful-restart"@]);
        lemma_text_of_add(seq![head[0]], seq![head[1]]);
        lemma_text_of_add(seq![head[0], head[1]], seq![head[2]]);
        lemma_text_of_add(seq![head[0], head[1], head[2]], seq![head[3]]);
        assert(seq![head[0]].add(seq![head[1]]) =~= seq![head[0], head[1]]);
        assert(seq![head[0], head[1]].add(seq![head[2]]) =~= seq![head[0], head[1], head[2]]);
        assert(seq![head[0], head[1], head[2]].add(seq![head[3]]) =~= head);
        lemma_text_of_add(head, body);
        lemma_text_of_add(head.add(body), seq![""@]);
        assert(head.add(body).add(seq![""@]) =~= head.add(body).push(""@));
    }
    out
}

} // verus!
