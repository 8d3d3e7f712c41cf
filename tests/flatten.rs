use holo_cli_core::flatten::cmd_show_config_cmds;
use holo_cli_core::tree::{ConfigNodeRef, ConfigTree, DataNodeRefExt, NodeKind, ROOT};

fn leaf(t: &mut ConfigTree, parent: usize, name: &str, kind: NodeKind, value: &str, dflt: bool) -> usize {
    t.add_node(parent, name.to_string(), kind, Some(value.to_string()), dflt)
}

fn node(t: &mut ConfigTree, parent: usize, name: &str, kind: NodeKind) -> usize {
    t.add_node(parent, name.to_string(), kind, None, false)
}

fn system_tree() -> ConfigTree {
    let mut t = ConfigTree::new();
    let system = node(&mut t, ROOT, "system", NodeKind::Container);
    leaf(&mut t, system, "hostname", NodeKind::Leaf, "router1", false);
    t
}

fn interfaces_tree() -> ConfigTree {
    let mut t = ConfigTree::new();
    let ifs = node(&mut t, ROOT, "interfaces", NodeKind::NonPresenceContainer);
    for name in ["eth0", "eth1"] {
        let entry = node(&mut t, ifs, "interface", NodeKind::List);
        leaf(&mut t, entry, "name", NodeKind::ListKeyLeaf, name, false);
        leaf(&mut t, entry, "mtu", NodeKind::Leaf, "1500", true);
    }
    t
}

#[test]
fn system_hostname_scenario() {
    let t = system_tree();
    assert_eq!(cmd_show_config_cmds(&t, false), "system\nsystem hostname router1\n!\n");
}

#[test]
fn interface_entries_without_defaults() {
    let t = interfaces_tree();
    let out = cmd_show_config_cmds(&t, false);
    assert_eq!(out, "!\ninterfaces interface eth0\n!\ninterfaces interface eth1\n!\n");
    assert_eq!(out.lines().filter(|l| *l == "!").count(), 3);
    assert!(!out.contains("mtu"));
}

#[test]
fn interface_entries_with_defaults() {
    let t = interfaces_tree();
    let out = cmd_show_config_cmds(&t, true);
    assert_eq!(
        out,
        "!\ninterfaces interface eth0\n mtu 1500\n!\ninterfaces interface eth1\n mtu 1500\n!\n"
    );
}

#[test]
fn flatten_twice_is_identical() {
    let t = interfaces_tree();
    assert_eq!(cmd_show_config_cmds(&t, true), cmd_show_config_cmds(&t, true));
    assert_eq!(cmd_show_config_cmds(&t, false), cmd_show_config_cmds(&t, false));
    let copy = t.duplicate();
    assert_eq!(cmd_show_config_cmds(&t, true), cmd_show_config_cmds(&copy, true));
}

#[test]
fn default_leaf_follows_flag() {
    let mut t = ConfigTree::new();
    let system = node(&mut t, ROOT, "system", NodeKind::Container);
    leaf(&mut t, system, "timezone", NodeKind::Leaf, "UTC", true);
    assert_eq!(cmd_show_config_cmds(&t, false), "system\n!\n");
    assert_eq!(cmd_show_config_cmds(&t, true), "system\nsystem timezone UTC\n!\n");
}

#[test]
fn empty_tree_gives_end_marker() {
    let t = ConfigTree::new();
    assert_eq!(cmd_show_config_cmds(&t, false), "!\n");
    assert_eq!(cmd_show_config_cmds(&t, true), "!\n");
}

#[test]
fn tree_without_rendered_nodes_gives_end_marker() {
    let mut t = ConfigTree::new();
    let np = node(&mut t, ROOT, "routing", NodeKind::NonPresenceContainer);
    node(&mut t, np, "state", NodeKind::Other);
    leaf(&mut t, np, "router-id", NodeKind::Leaf, "1.1.1.1", true);
    assert_eq!(cmd_show_config_cmds(&t, false), "!\n");
}

#[test]
fn list_keys_in_declared_order() {
    let mut t = ConfigTree::new();
    let entry = node(&mut t, ROOT, "neighbor", NodeKind::List);
    leaf(&mut t, entry, "address", NodeKind::ListKeyLeaf, "10.0.0.1", false);
    leaf(&mut t, entry, "port", NodeKind::ListKeyLeaf, "179", false);
    leaf(&mut t, entry, "description", NodeKind::Leaf, "peer", false);
    assert_eq!(
        cmd_show_config_cmds(&t, false),
        "!\nneighbor 10.0.0.1 179\n description peer\n!\n"
    );
}

#[test]
fn nested_lists_are_indented() {
    let mut t = ConfigTree::new();
    let area = node(&mut t, ROOT, "area", NodeKind::List);
    leaf(&mut t, area, "area-id", NodeKind::ListKeyLeaf, "0.0.0.0", false);
    let ifs = node(&mut t, area, "interfaces", NodeKind::NonPresenceContainer);
    let iface = node(&mut t, ifs, "interface", NodeKind::List);
    leaf(&mut t, iface, "name", NodeKind::ListKeyLeaf, "eth0", false);
    leaf(&mut t, iface, "cost", NodeKind::Leaf, "10", false);
    let lst = node(&mut t, area, "ranges", NodeKind::LeafList);
    let _ = lst;
    assert_eq!(
        cmd_show_config_cmds(&t, false),
        "!\narea 0.0.0.0\n !\n interfaces interface eth0\n  cost 10\n ranges\n!\n"
    );
}

#[test]
fn child_value_and_placeholder() {
    let mut t = ConfigTree::new();
    let iface = node(&mut t, ROOT, "interface", NodeKind::List);
    leaf(&mut t, iface, "name", NodeKind::ListKeyLeaf, "eth0", false);
    leaf(&mut t, iface, "cost", NodeKind::Leaf, "10", false);
    node(&mut t, iface, "statistics", NodeKind::Container);
    let r = ConfigNodeRef { tree: &t, id: iface };
    assert_eq!(r.child_value("cost"), "10");
    assert_eq!(r.child_opt_value("name"), Some("eth0".to_string()));
    assert_eq!(r.child_value("state"), "-");
    assert_eq!(r.child_opt_value("state"), None);
    assert_eq!(r.child_opt_value("statistics"), None);
}

#[test]
fn well_formedness_check() {
    let mut t = interfaces_tree();
    assert!(t.check_wf());
    assert!(ConfigTree::new().check_wf());
    t.nodes[2].parent = Some(5);
    assert!(!t.check_wf());
}

#[test]
fn list_root_is_not_an_ancestor() {
    let mut t = ConfigTree::new();
    t.nodes[ROOT].kind = NodeKind::List;
    let system = node(&mut t, ROOT, "system", NodeKind::Container);
    leaf(&mut t, system, "hostname", NodeKind::Leaf, "router1", false);
    assert_eq!(cmd_show_config_cmds(&t, false), "system\nsystem hostname router1\n!\n");
}
