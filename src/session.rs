//! Shell session state, command arguments, and the command handlers that
//! decide mode changes and render configuration.
use vstd::prelude::*;
use crate::flatten::{cmd_show_config_cmds, config_text, views};
use crate::tree::ConfigTree;
use crate::trie::{cmd_list_root, root_command_lines, Commands};

verus! {

/// Arguments of a parsed command: name and value, in the order given.
pub type ParsedArgs = Vec<(String, String)>;

/// One level of nesting in configuration mode.
pub struct ConfigContext {
    /// Token under which the commands of this level are found.
    pub token_id: usize,
    /// Data path of the configuration node that this level edits.
    pub data_path: String,
}

/// The shell's mode.
pub enum CommandMode {
    Operational,
    Configure { nodes: Vec<ConfigContext> },
}

/// The configuration snapshot that a command acts on.
#[derive(Clone, Copy, Debug, PartialEq, Eq, Structural)]
pub enum ConfigurationType {
    Candidate,
    Running,
}

/// State of one shell session.
pub struct Session {
    pub mode: CommandMode,
    pub hostname: String,
    pub running: ConfigTree,
    pub candidate: ConfigTree,
}

/// Index of the first argument named `name`, from the `k`-th on, or -1.
pub open spec fn arg_index_from(args: Seq<(String, String)>, name: Seq<char>, k: int) -> int
    decreases args.len() - k,
{
    if 0 <= k < args.len() {
        if args[k].0@ == name {
            k
        } else {
            arg_index_from(args, name, k + 1)
        }
    } else {
        -1
    }
}

pub open spec fn arg_index(args: Seq<(String, String)>, name: Seq<char>) -> int {
    arg_index_from(args, name, 0)
}

proof fn lemma_arg_index_range(args: Seq<(String, String)>, name: Seq<char>, k: int)
    requires
        0 <= k,
    ensures
        arg_index_from(args, name, k) == -1 || (k <= arg_index_from(args, name, k) < args.len()
            && args[arg_index_from(args, name, k)].0@ == name),
    decreases args.len() - k,
{
    if 0 <= k < args.len() && args[k].0@ != name {
        lemma_arg_index_range(args, name, k + 1);
    }
}

/// Takes the first argument named `name` out of `args` and returns its value.
pub fn get_opt_arg(args: &mut ParsedArgs, name: &str) -> (r: Option<String>)
    ensures
        ({
            let idx = arg_index(old(args)@, name@);
            if idx >= 0 {
                &&& r is Some
                &&& r->0@ == old(args)@[idx].1@
                &&& final(args)@ == old(args)@.remove(idx)
            } else {
                &&& r is None
                &&& final(args)@ == old(args)@
            }
        }),
{
    proof {
        lemma_arg_index_range(args@, name@, 0);
    }
    let key = name.to_owned();
    let n = args.len();
    let mut k: usize = 0;
    while k < n
        invariant
            n == args@.len(),
            k <= n,
            key@ == name@,
            *args == *old(args),
            arg_index(args@, name@) == arg_index_from(args@, name@, k as int),
        decreases n - k,
    {
        if args[k].0 == key {
            let (_, value) = args.remove(k);
            return Some(value);
        }
        k = k + 1;
    }
    None
}

/// Takes the argument named `name`, which the command's grammar makes
/// mandatory, out of `args` and returns its value.
pub fn get_arg(args: &mut ParsedArgs, name: &str) -> (r: String)
    requires
        arg_index(old(args)@, name@) >= 0,
    ensures
        r@ == old(args)@[arg_index(old(args)@, name@)].1@,
        final(args)@ == old(args)@.remove(arg_index(old(args)@, name@)),
{
    match get_opt_arg(args, name) {
        Some(v) => v,
        None => String::new(),
    }
}

impl CommandMode {
    /// Token whose commands are offered at this level.
    pub open spec fn token_spec(&self, commands: &Commands) -> usize {
        match self {
            CommandMode::Operational => commands.exec_root,
            CommandMode::Configure { nodes } => if nodes@.len() > 0 {
                nodes@.last().token_id
            } else {
                commands.config_root_yang
            },
        }
    }

    pub open spec fn tokens_valid(&self, commands: &Commands) -> bool {
        match self {
            CommandMode::Operational => true,
            CommandMode::Configure { nodes } => forall|k: int|
                0 <= k < nodes@.len() ==> (#[trigger] nodes@[k]).token_id < commands.tokens@.len(),
        }
    }

    /// Tests that every configuration level names a token of `commands`.
    pub fn check_tokens(&self, commands: &Commands) -> (r: bool)
        ensures
            r == self.tokens_valid(commands),
    {
        match self {
            CommandMode::Operational => true,
            CommandMode::Configure { nodes } => {
                let n = nodes.len();
                let mut k: usize = 0;
                while k < n
                    invariant
                        n == nodes@.len(),
                        k <= n,
                        self is Configure,
                        self->nodes@ == nodes@,
                        forall|j: int|
                            0 <= j < k ==> (#[trigger] nodes@[j]).token_id < commands.tokens@.len(),
                    decreases n - k,
                {
                    if nodes[k].token_id >= commands.tokens.len() {
                        assert(self->nodes@[k as int].token_id >= commands.tokens@.len());
                        return false;
                    }
                    k = k + 1;
                }
                true
            },
        }
    }

    pub fn token(&self, commands: &Commands) -> (r: usize)
        ensures
            r == self.token_spec(commands),
    {
        match self {
            CommandMode::Operational => commands.exec_root,
            CommandMode::Configure { nodes } => if nodes.len() > 0 {
                nodes[nodes.len() - 1].token_id
            } else {
                commands.config_root_yang
            },
        }
    }

    /// Data path of the innermost configuration level, if any.
    pub open spec fn data_path_spec(&self) -> Option<Seq<char>> {
        match self {
            CommandMode::Operational => None,
            CommandMode::Configure { nodes } => if nodes@.len() > 0 {
                Some(nodes@.last().data_path@)
            } else {
                None
            },
        }
    }

    pub fn data_path(&self) -> (r: Option<String>)
        ensures
            match r {
                Some(p) => self.data_path_spec() == Some(p@),
                None => self.data_path_spec() is None,
            },
    {
        match self {
            CommandMode::Operational => None,
            CommandMode::Configure { nodes } => if nodes.len() > 0 {
                Some(nodes[nodes.len() - 1].data_path.clone())
            } else {
                None
            },
        }
    }
}

impl Session {
    /// A session in operational mode with empty configurations.
    pub fn new(hostname: String) -> (r: Session)
        ensures
            r.mode is Operational,
            r.hostname@ == hostname@,
            r.running.wf(),
            r.candidate.wf(),
    {
        Session {
            mode: CommandMode::Operational,
            hostname,
            running: ConfigTree::new(),
            candidate: ConfigTree::new(),
        }
    }

    pub fn mode(&self) -> (r: &CommandMode)
        ensures
            r == &self.mode,
    {
        &self.mode
    }

    pub fn mode_set(&mut self, mode: CommandMode)
        ensures
            final(self).mode == mode,
            final(self).hostname == old(self).hostname,
            final(self).running == old(self).running,
            final(self).candidate == old(self).candidate,
    {
        self.mode = mode;
    }

    /// Leaves the innermost configuration level; leaving the outermost one
    /// returns to operational mode.
    pub fn mode_config_exit(&mut self)
        ensures
            match old(self).mode {
                CommandMode::Operational => final(self).mode is Operational,
                CommandMode::Configure { nodes } => if nodes@.len() > 0 {
                    &&& final(self).mode is Configure
                    &&& final(self).mode->nodes@ == nodes@.drop_last()
                } else {
                    final(self).mode is Operational
                },
            },
            final(self).hostname == old(self).hostname,
            final(self).running == old(self).running,
            final(self).candidate == old(self).candidate,
    {
        let mut mode = CommandMode::Operational;
        std::mem::swap(&mut mode, &mut self.mode);
        match mode {
            CommandMode::Operational => {},
            CommandMode::Configure { mut nodes } => {
                if nodes.len() > 0 {
                    nodes.pop();
                    self.mode = CommandMode::Configure { nodes };
                }
            },
        }
    }

    pub fn update_hostname(&mut self, hostname: &str)
        ensures
            final(self).hostname@ == hostname@,
            final(self).mode == old(self).mode,
            final(self).running == old(self).running,
            final(self).candidate == old(self).candidate,
    {
        self.hostname = hostname.to_owned();
    }

    /// Replaces the candidate configuration by a copy of the running one.
    pub fn candidate_discard(&mut self)
        requires
            old(self).running.wf(),
        ensures
            final(self).candidate.wf(),
            final(self).candidate.same_as(&old(self).running),
            final(self).running == old(self).running,
            final(self).mode == old(self).mode,
            final(self).hostname == old(self).hostname,
    {
        self.candidate = self.running.duplicate();
    }

    pub fn get_configuration(&self, config_type: ConfigurationType) -> (r: &ConfigTree)
        ensures
            r == match config_type {
                ConfigurationType::Candidate => &self.candidate,
                ConfigurationType::Running => &self.running,
            },
    {
        match config_type {
            ConfigurationType::Candidate => &self.candidate,
            ConfigurationType::Running => &self.running,
        }
    }
}

/// "configure": enters configuration mode at its top level.
pub fn cmd_config(_commands: &Commands, session: &mut Session, _args: ParsedArgs) -> (r: Result<
    bool,
    String,
>)
    ensures
        r == Ok::<bool, String>(false),
        final(session).mode is Configure,
        final(session).mode->nodes@.len() == 0,
        final(session).hostname == old(session).hostname,
        final(session).running == old(session).running,
        final(session).candidate == old(session).candidate,
{
    let mode = CommandMode::Configure { nodes: Vec::new() };
    session.mode_set(mode);
    Ok(false)
}

/// "exit" in operational mode: ends the session.
pub fn cmd_exit_exec(_commands: &Commands, _session: &mut Session, _args: ParsedArgs) -> (r:
    Result<bool, String>)
    ensures
        r == Ok::<bool, String>(true),
        *final(_session) == *old(_session),
{
    Ok(true)
}

/// "exit" in configuration mode: leaves the innermost level.
pub fn cmd_exit_config(_commands: &Commands, session: &mut Session, _args: ParsedArgs) -> (r:
    Result<bool, String>)
    ensures
        r == Ok::<bool, String>(false),
        match old(session).mode {
            CommandMode::Operational => final(session).mode is Operational,
            CommandMode::Configure { nodes } => if nodes@.len() > 0 {
                &&& final(session).mode is Configure
                &&& final(session).mode->nodes@ == nodes@.drop_last()
            } else {
                final(session).mode is Operational
            },
        },
        final(session).hostname == old(session).hostname,
        final(session).running == old(session).running,
        final(session).candidate == old(session).candidate,
{
    session.mode_config_exit();
    Ok(false)
}

/// "end": returns to operational mode from any configuration level.
pub fn cmd_end(_commands: &Commands, session: &mut Session, _args: ParsedArgs) -> (r: Result<
    bool,
    String,
>)
    ensures
        r == Ok::<bool, String>(false),
        final(session).mode is Operational,
        final(session).hostname == old(session).hostname,
        final(session).running == old(session).running,
        final(session).candidate == old(session).candidate,
{
    session.mode_set(CommandMode::Operational);
    Ok(false)
}

/// "hostname NAME": renames the device.
pub fn cmd_hostname(_commands: &Commands, session: &mut Session, args: ParsedArgs) -> (r: Result<
    bool,
    String,
>)
    requires
        arg_index(args@, "hostname"@) >= 0,
    ensures
        r == Ok::<bool, String>(false),
        final(session).hostname@ == args@[arg_index(args@, "hostname"@)].1@,
        final(session).mode == old(session).mode,
        final(session).running == old(session).running,
        final(session).candidate == old(session).candidate,
{
    let mut args = args;
    let hostname = get_arg(&mut args, "hostname");
    session.update_hostname(hostname.as_str());
    Ok(false)
}

/// "pwd": the data path being edited, or "/" at the top.
pub fn cmd_pwd(session: &Session) -> (r: String)
    ensures
        r@ == match session.mode.data_path_spec() {
            Some(p) => p,
            None => seq!['/'],
        },
{
    match session.mode().data_path() {
        Some(p) => p,
        None => {
            let top = "/".to_owned();
            proof {
                reveal_strlit("/");
            }
            assert(top@ =~= seq!['/']);
            top
        },
    }
}

/// "discard": drops the changes made to the candidate configuration.
pub fn cmd_discard(_commands: &Commands, session: &mut Session, _args: ParsedArgs) -> (r: Result<
    bool,
    String,
>)
    requires
        old(session).running.wf(),
    ensures
        r == Ok::<bool, String>(false),
        final(session).candidate.wf(),
        final(session).candidate.same_as(&old(session).running),
        final(session).running == old(session).running,
        final(session).mode == old(session).mode,
        final(session).hostname == old(session).hostname,
{
    session.candidate_discard();
    Ok(false)
}

/// The line that separates the batches of listed commands.
pub open spec fn batch_separator() -> Seq<char> {
    seq!['-', '-', '-']
}

/// Commands that "list" shows in the given mode.
pub open spec fn list_lines(commands: &Commands, mode: &CommandMode) -> Seq<Seq<char>> {
    match mode {
        CommandMode::Operational => root_command_lines(commands, commands.exec_root as int),
        CommandMode::Configure { .. } => root_command_lines(
            commands,
            commands.config_dflt_internal as int,
        ).push(batch_separator()).add(
            root_command_lines(commands, commands.config_root_internal as int),
        ).push(batch_separator()).add(
            root_command_lines(commands, mode.token_spec(commands) as int),
        ),
    }
}

fn push_separator(out: &mut Vec<String>)
    ensures
        views(final(out)@) == views(old(out)@).push(batch_separator()),
{
    let sep = "---".to_owned();
    proof {
        reveal_strlit("---");
    }
    assert(sep@ =~= batch_separator());
    out.push(sep);
    assert(views(out@) =~= views(old(out)@).push(batch_separator()));
}

fn append_lines(out: &mut Vec<String>, more: Vec<String>)
    ensures
        views(final(out)@) == views(old(out)@).add(views(more@)),
{
    let mut more = more;
    let ghost m = more@;
    out.append(&mut more);
    assert(views(out@) =~= views(old(out)@).add(views(m)));
}

/// "list": the commands available in the session's mode, one per line. In
/// configuration mode three batches, separated by "---".
pub fn cmd_list(commands: &Commands, session: &Session) -> (r: Vec<String>)
    requires
        commands.wf(),
        session.mode.tokens_valid(commands),
    ensures
        views(r@) == list_lines(commands, &session.mode),
{
    match session.mode() {
        CommandMode::Operational => cmd_list_root(commands, commands.exec_root),
        CommandMode::Configure { .. } => {
            let mut out = cmd_list_root(commands, commands.config_dflt_internal);
            push_separator(&mut out);
            append_lines(&mut out, cmd_list_root(commands, commands.config_root_internal));
            push_separator(&mut out);
            let top = session.mode().token(commands);
            append_lines(&mut out, cmd_list_root(commands, top));
            out
        },
    }
}

/// What `similar`'s unified diff of two texts, line by line, reads.
pub uninterp spec fn unified_diff_of(
    old_text: Seq<char>,
    new_text: Seq<char>,
    radius: usize,
    old_label: Seq<char>,
    new_label: Seq<char>,
) -> Seq<char>;

/// Relies on `similar::TextDiff::from_lines` and its unified diff with the
/// given context radius and header labels. The crate doubles the radius
/// when grouping changes, so a radius above half of `usize`'s range is
/// refused.
#[verifier::external_body]
fn unified_diff(old_text: &str, new_text: &str, radius: usize, old_label: &str, new_label: &str) -> (r:
    String)
    requires
        radius <= usize::MAX / 2,
    ensures
        r@ == unified_diff_of(old_text@, new_text@, radius, old_label@, new_label@),
{
    let diff = similar::TextDiff::from_lines(old_text, new_text);
    let text = format!(
        "{}",
        diff.unified_diff().context_radius(radius).header(old_label, new_label)
    );
    text
}

/// Lines of context around each change in a configuration diff.
pub const DIFF_CONTEXT: usize = 9;

/// "show configuration changes": unified diff from the running configuration
/// to the candidate, both flattened without default values.
pub fn cmd_show_config_changes(session: &Session) -> (r: String)
    requires
        session.running.wf(),
        session.candidate.wf(),
    ensures
        r@ == unified_diff_of(
            config_text(&session.running, false),
            config_text(&session.candidate, false),
            DIFF_CONTEXT,
            "running configuration"@,
            "candidate configuration"@,
        ),
{
    let running = cmd_show_config_cmds(session.get_configuration(ConfigurationType::Running), false);
    let candidate = cmd_show_config_cmds(
        session.get_configuration(ConfigurationType::Candidate),
        false,
    );
    unified_diff(
        running.as_str(),
        candidate.as_str(),
        DIFF_CONTEXT,
        "running configuration",
        "candidate configuration",
    )
}

} // verus!
