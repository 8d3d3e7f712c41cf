use holo_cli_core::session::{cmd_list, CommandMode, ConfigContext, Session};
use holo_cli_core::trie::{cmd_list_root, token_text, Commands, Token, TokenKind};

#[test]
fn listing_keeps_registration_order() {
    let mut c = Commands::new();
    let root = c.exec_root;
    c.add_token(root, "zeta".to_string(), TokenKind::Word, true);
    c.add_token(root, "alpha".to_string(), TokenKind::Word, true);
    assert_eq!(cmd_list_root(&c, root), vec!["zeta ".to_string(), "alpha ".to_string()]);
}

#[test]
fn keyword_tokens_are_upper_cased() {
    let mut c = Commands::new();
    let root = c.exec_root;
    let iface = c.add_token(root, "interface".to_string(), TokenKind::Word, false);
    let name = c.add_token(iface, "NAME".to_string(), TokenKind::Word, false);
    c.add_token(name, "state".to_string(), TokenKind::Keyword, true);
    assert_eq!(cmd_list_root(&c, root), vec!["interface NAME STATE ".to_string()]);
}

#[test]
fn structural_tokens_are_not_listed() {
    let mut c = Commands::new();
    let root = c.exec_root;
    let show = c.add_token(root, "show".to_string(), TokenKind::Keyword, false);
    c.add_token(show, "running".to_string(), TokenKind::Keyword, true);
    let cfg = c.add_token(show, "configuration".to_string(), TokenKind::Keyword, true);
    c.add_token(cfg, "changes".to_string(), TokenKind::Other, true);
    assert_eq!(
        cmd_list_root(&c, root),
        vec![
            "SHOW RUNNING ".to_string(),
            "SHOW CONFIGURATION ".to_string(),
            "SHOW CONFIGURATION changes ".to_string(),
        ]
    );
}

#[test]
fn token_text_picks_form() {
    assert_eq!(token_text(TokenKind::Keyword, "end", "END"), "END");
    assert_eq!(token_text(TokenKind::Word, "name", "NAME"), "name");
    assert_eq!(token_text(TokenKind::Other, "x", "X"), "x");
}

fn trie() -> Commands {
    let mut c = Commands::new();
    c.add_token(c.exec_root, "configure".to_string(), TokenKind::Keyword, true);
    c.add_token(c.config_dflt_internal, "end".to_string(), TokenKind::Keyword, true);
    c.add_token(c.config_root_internal, "commit".to_string(), TokenKind::Keyword, true);
    c.add_token(c.config_root_yang, "system".to_string(), TokenKind::Keyword, true);
    c
}

#[test]
fn list_in_operational_mode() {
    let c = trie();
    let s = Session::new("r1".to_string());
    assert_eq!(cmd_list(&c, &s), vec!["CONFIGURE ".to_string()]);
}

#[test]
fn list_in_configure_mode() {
    let mut c = trie();
    let mut s = Session::new("r1".to_string());
    s.mode_set(CommandMode::Configure { nodes: vec![] });
    assert_eq!(
        cmd_list(&c, &s),
        vec!["END ", "---", "COMMIT ", "---", "SYSTEM "]
            .into_iter()
            .map(String::from)
            .collect::<Vec<_>>()
    );
    let sys = 4;
    c.add_token(sys, "hostname".to_string(), TokenKind::Keyword, true);
    s.mode_set(CommandMode::Configure {
        nodes: vec![ConfigContext { token_id: sys, data_path: "/system".to_string() }],
    });
    assert_eq!(
        cmd_list(&c, &s),
        vec!["END ", "---", "COMMIT ", "---", "HOSTNAME "]
            .into_iter()
            .map(String::from)
            .collect::<Vec<_>>()
    );
}

fn token(name: &str, kind: TokenKind, has_action: bool, parent: Option<usize>, children: Vec<usize>) -> Token {
    Token { name: name.to_string(), kind, has_action, parent, children }
}

#[test]
fn listing_ignores_index_order() {
    // The child "version" (index 4) was stored before its parent "show" (index 5).
    let c = Commands {
        tokens: vec![
            token("", TokenKind::Other, false, None, vec![5]),
            token("", TokenKind::Other, false, None, vec![]),
            token("", TokenKind::Other, false, None, vec![]),
            token("", TokenKind::Other, false, None, vec![]),
            token("version", TokenKind::Keyword, true, Some(5), vec![]),
            token("show", TokenKind::Keyword, true, Some(0), vec![4]),
        ],
        exec_root: 0,
        config_dflt_internal: 1,
        config_root_internal: 2,
        config_root_yang: 3,
    };
    assert_eq!(cmd_list_root(&c, 0), vec!["SHOW ".to_string(), "SHOW VERSION ".to_string()]);
    assert_eq!(cmd_list_root(&c, 5), vec!["VERSION ".to_string()]);
    assert!(!c.check_ordered());
}

#[test]
fn ordered_check_accepts_built_tries() {
    let mut c = Commands::new();
    let show = c.add_token(c.exec_root, "show".to_string(), TokenKind::Keyword, false);
    c.add_token(show, "version".to_string(), TokenKind::Keyword, true);
    assert!(c.check_ordered());
    c.tokens[show].children.push(99);
    assert!(!c.check_ordered());
}
