use holo_cli_core::flatten::cmd_show_config_cmds;
use holo_cli_core::session::{
    cmd_config, cmd_discard, cmd_end, cmd_exit_config, cmd_exit_exec, cmd_hostname, cmd_pwd,
    cmd_show_config_changes, get_arg, get_opt_arg, CommandMode, ConfigContext, ParsedArgs,
    Session,
};
use holo_cli_core::tree::{NodeKind, ROOT};
use holo_cli_core::trie::Commands;

fn args(pairs: &[(&str, &str)]) -> ParsedArgs {
    pairs.iter().map(|(a, b)| (a.to_string(), b.to_string())).collect()
}

fn ctx(token_id: usize, path: &str) -> ConfigContext {
    ConfigContext { token_id, data_path: path.to_string() }
}

#[test]
fn opt_arg_takes_first_match() {
    let mut a = args(&[("x", "1"), ("name", "a"), ("name", "b")]);
    assert_eq!(get_opt_arg(&mut a, "name"), Some("a".to_string()));
    assert_eq!(a, args(&[("x", "1"), ("name", "b")]));
    assert_eq!(get_opt_arg(&mut a, "missing"), None);
    assert_eq!(a, args(&[("x", "1"), ("name", "b")]));
}

#[test]
fn arg_is_removed() {
    let mut a = args(&[("hostname", "r2")]);
    assert_eq!(get_arg(&mut a, "hostname"), "r2");
    assert!(a.is_empty());
}

#[test]
fn mode_transitions() {
    let c = Commands::new();
    let mut s = Session::new("r1".to_string());
    assert_eq!(cmd_exit_exec(&c, &mut s, vec![]), Ok(true));
    assert_eq!(cmd_config(&c, &mut s, vec![]), Ok(false));
    assert!(matches!(s.mode(), CommandMode::Configure { nodes } if nodes.is_empty()));
    s.mode_set(CommandMode::Configure { nodes: vec![ctx(3, "/a"), ctx(3, "/a/b")] });
    assert_eq!(cmd_pwd(&s), "/a/b");
    assert_eq!(cmd_exit_config(&c, &mut s, vec![]), Ok(false));
    assert_eq!(cmd_pwd(&s), "/a");
    assert_eq!(cmd_exit_config(&c, &mut s, vec![]), Ok(false));
    assert_eq!(cmd_pwd(&s), "/");
    assert!(matches!(s.mode(), CommandMode::Configure { .. }));
    assert_eq!(cmd_exit_config(&c, &mut s, vec![]), Ok(false));
    assert!(matches!(s.mode(), CommandMode::Operational));
    s.mode_set(CommandMode::Configure { nodes: vec![ctx(3, "/a")] });
    assert_eq!(cmd_end(&c, &mut s, vec![]), Ok(false));
    assert!(matches!(s.mode(), CommandMode::Operational));
    assert_eq!(cmd_pwd(&s), "/");
}

#[test]
fn hostname_is_updated() {
    let c = Commands::new();
    let mut s = Session::new("r1".to_string());
    assert_eq!(cmd_hostname(&c, &mut s, args(&[("hostname", "core-1")])), Ok(false));
    assert_eq!(s.hostname, "core-1");
}

#[test]
fn discard_and_changes() {
    let c = Commands::new();
    let mut s = Session::new("r1".to_string());
    let sys = s.running.add_node(ROOT, "system".to_string(), NodeKind::Container, None, false);
    s.running.add_node(sys, "hostname".to_string(), NodeKind::Leaf, Some("r1".to_string()), false);
    assert_eq!(cmd_discard(&c, &mut s, vec![]), Ok(false));
    assert_eq!(cmd_show_config_cmds(&s.candidate, false), cmd_show_config_cmds(&s.running, false));
    assert_eq!(cmd_show_config_changes(&s), "");

    let cs = 1;
    s.candidate.add_node(cs, "domain".to_string(), NodeKind::Leaf, Some("lab".to_string()), false);
    let diff = cmd_show_config_changes(&s);
    assert_eq!(
        diff,
        "--- running configuration\n+++ candidate configuration\n@@ -1,3 +1,4 @@\n system\n system hostname r1\n+system domain lab\n !\n"
    );
}
