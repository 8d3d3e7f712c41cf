use holo_cli_core::session::ConfigurationType;
use holo_cli_core::show::{
    commit_report, ospf_interface_detail, ospf_interface_row, ospf_neighbor_detail,
    ospf_neighbor_row, ospf_route_row, parse_format, show_config_request, show_state_format,
    validate_report, yang_module_row, OutputFormat, ShowConfigRequest,
};
use holo_cli_core::tree::{ConfigNodeRef, ConfigTree, NodeKind, ROOT};

fn leaf(t: &mut ConfigTree, parent: usize, name: &str, kind: NodeKind, value: &str) -> usize {
    t.add_node(parent, name.to_string(), kind, Some(value.to_string()), false)
}

fn strings(v: &[&str]) -> Vec<String> {
    v.iter().map(|s| s.to_string()).collect()
}

#[test]
fn show_config_arguments() {
    assert_eq!(
        show_config_request("running", true, None),
        Ok(ShowConfigRequest {
            config_type: ConfigurationType::Running,
            with_defaults: true,
            format: OutputFormat::Cmds
        })
    );
    assert_eq!(
        show_config_request("candidate", false, Some("xml")),
        Ok(ShowConfigRequest {
            config_type: ConfigurationType::Candidate,
            with_defaults: false,
            format: OutputFormat::Xml
        })
    );
    assert_eq!(
        show_config_request("running", false, Some("yaml")),
        Err("% unknown format".to_string())
    );
    assert_eq!(
        show_config_request("startup", false, None),
        Err("% unexpected configuration".to_string())
    );
}

#[test]
fn formats() {
    assert_eq!(parse_format("json"), Some(OutputFormat::Json));
    assert_eq!(parse_format("JSON"), None);
    assert_eq!(show_state_format(None), Ok(OutputFormat::Json));
    assert_eq!(show_state_format(Some("xml")), Ok(OutputFormat::Xml));
    assert_eq!(show_state_format(Some("text")), Err("% unknown format".to_string()));
}

#[test]
fn reports() {
    assert_eq!(commit_report(&Ok(())), "% configuration committed successfully");
    assert_eq!(commit_report(&Err("no changes".to_string())), "% no changes");
    assert_eq!(validate_report(&Ok(())), "% candidate configuration validated successfully");
    assert_eq!(validate_report(&Err("bad mtu".to_string())), "% bad mtu");
}

#[test]
fn module_rows() {
    assert_eq!(
        yang_module_row("ietf-ospf", Some("2019-10-17"), true, "urn:ietf"),
        strings(&["ietf-ospf", "2019-10-17", "I", "urn:ietf"])
    );
    assert_eq!(yang_module_row("x", None, false, "urn:x"), strings(&["x", "-", "", "urn:x"]));
}

fn interface_tree(with_timer: bool) -> (ConfigTree, usize) {
    let mut t = ConfigTree::new();
    let iface = t.add_node(ROOT, "interface".to_string(), NodeKind::List, None, false);
    leaf(&mut t, iface, "name", NodeKind::ListKeyLeaf, "eth0");
    leaf(&mut t, iface, "state", NodeKind::Leaf, "dr");
    leaf(&mut t, iface, "cost", NodeKind::Leaf, "10");
    leaf(&mut t, iface, "hello-interval", NodeKind::Leaf, "10");
    if with_timer {
        leaf(&mut t, iface, "hello-timer", NodeKind::Leaf, "3");
    }
    let stats = t.add_node(iface, "statistics".to_string(), NodeKind::Container, None, false);
    leaf(&mut t, stats, "if-event-count", NodeKind::Leaf, "4");
    t.add_node(iface, "neighbors".to_string(), NodeKind::Container, None, false);
    (t, iface)
}

#[test]
fn interface_rows() {
    let (t, iface) = interface_tree(true);
    let r = ConfigNodeRef { tree: &t, id: iface };
    assert_eq!(
        ospf_interface_row("main", "0.0.0.0", &r),
        strings(&["main", "0.0.0.0", "eth0", "-", "dr", "-", "10", "10 (due in 3)"])
    );
    let (t, iface) = interface_tree(false);
    let r = ConfigNodeRef { tree: &t, id: iface };
    assert_eq!(ospf_interface_row("main", "0.0.0.0", &r)[7], "10 (inactive)");
}

#[test]
fn interface_detail() {
    let (t, iface) = interface_tree(false);
    let r = ConfigNodeRef { tree: &t, id: iface };
    assert_eq!(
        ospf_interface_detail("main", "0.0.0.0", &r),
        "eth0\n instance: main\n area: 0.0.0.0\n state: dr\n cost: 10\n hello-interval: 10\n statistics\n  if-event-count: 4\n\n"
    );
}

#[test]
fn neighbor_row_and_detail() {
    let mut t = ConfigTree::new();
    let nbr = t.add_node(ROOT, "neighbor".to_string(), NodeKind::List, None, false);
    leaf(&mut t, nbr, "neighbor-router-id", NodeKind::ListKeyLeaf, "2.2.2.2");
    leaf(&mut t, nbr, "address", NodeKind::Leaf, "10.0.0.2");
    leaf(&mut t, nbr, "state", NodeKind::Leaf, "full");
    leaf(&mut t, nbr, "dead-timer", NodeKind::Leaf, "31");
    let gr = t.add_node(nbr, "graceful-restart".to_string(), NodeKind::Container, None, false);
    leaf(&mut t, gr, "restart-reason", NodeKind::Leaf, "unknown");
    let r = ConfigNodeRef { tree: &t, id: nbr };
    assert_eq!(
        ospf_neighbor_row("main", "0.0.0.0", "eth0", "40", &r),
        strings(&["main", "0.0.0.0", "eth0", "2.2.2.2", "10.0.0.2", "full", "40 (due in 31)"])
    );
    assert_eq!(
        ospf_neighbor_detail("main", "0.0.0.0", "eth0", &r),
        "2.2.2.2\n instance: main\n area: 0.0.0.0\n interface: eth0\n address: 10.0.0.2\n state: full\n dead-timer: 31\n statistics\n  restart-reason: unknown\n\n"
    );
}

#[test]
fn route_rows() {
    let mut t = ConfigTree::new();
    let route = t.add_node(ROOT, "route".to_string(), NodeKind::List, None, false);
    leaf(&mut t, route, "prefix", NodeKind::ListKeyLeaf, "10.0.0.0/24");
    leaf(&mut t, route, "metric", NodeKind::Leaf, "20");
    leaf(&mut t, route, "route-type", NodeKind::Leaf, "intra-area");
    let nh = t.add_node(route, "next-hop".to_string(), NodeKind::List, None, false);
    leaf(&mut t, nh, "outgoing-interface", NodeKind::Leaf, "eth0");
    leaf(&mut t, nh, "next-hop", NodeKind::Leaf, "10.0.0.2");
    let rr = ConfigNodeRef { tree: &t, id: route };
    let nr = ConfigNodeRef { tree: &t, id: nh };
    assert_eq!(
        ospf_route_row("main", &rr, &nr, true),
        strings(&["main", "10.0.0.0/24", "20", "intra-area", "-", "eth0", "10.0.0.2"])
    );
    assert_eq!(
        ospf_route_row("main", &rr, &nr, false),
        strings(&["main", "", "", "", "", "eth0", "10.0.0.2"])
    );
}
