//! The command line: its commands, the `ssmux config` edits, and the
//! tables that `status` and `config list` print.
use vstd::prelude::*;
use vstd::string::*;
use crate::config::{
    connections_view, copy_opt, opt_view, parse_parameters, parse_params, texts_view, Config,
    ConfigError, ConfigFault, ConnectionConfig, ConnectionView,
};
use crate::ipc::{statuses_view, ConnectionState, ConnectionStatus, StatusView};
use crate::params::{ParamView, Parameters};
use crate::text::{decimal, decimal_text, pad_right, padded};

verus! {

/// The command line as parsed: global options and the command.
pub struct Cli {
    /// Path to the TOML configuration file.
    pub config: Option<String>,
    /// Path to the daemon Unix socket.
    pub socket: Option<String>,
    pub command: Option<Command>,
}

#[allow(inconsistent_fields)]
pub enum Command {
    /// Open the terminal user interface.
    Tui,
    /// Run the background connection manager in the foreground.
    Daemon,
    /// Start one configured connection.
    Start { name: String },
    /// Stop one active connection, or every one with `all`.
    Stop { name: Option<String>, all: bool },
    /// Show the state of all configured connections.
    Status { json: bool },
    /// Check local dependencies, configuration, and daemon availability.
    Doctor,
    /// Create an example configuration file.
    Init,
    /// Create, inspect, edit, or remove local connection definitions.
    Config { command: ConfigCommand },
}

#[allow(inconsistent_fields)]
pub enum ConfigCommand {
    /// List configured connections.
    List,
    /// Add a connection definition.
    Add {
        name: String,
        target: String,
        region: Option<String>,
        profile: Option<String>,
        document_name: Option<String>,
        keep_on_exit: bool,
        parameters: Vec<String>,
    },
    /// Replace editable fields on an existing connection.
    Edit {
        name: String,
        target: Option<String>,
        region: Option<String>,
        profile: Option<String>,
        document_name: Option<String>,
        keep_on_exit: bool,
        temporary: bool,
        parameters: Vec<String>,
        clear_parameters: bool,
    },
    /// Remove a connection definition.
    Remove { name: String },
}

/// Some connection is named `name`.
pub open spec fn has_name(conns: Seq<ConnectionView>, name: Seq<char>) -> bool {
    exists|i: int| 0 <= i < conns.len() && #[trigger] conns[i].name == name
}

/// The index of the first connection named `name`, if any.
pub open spec fn first_named(conns: Seq<ConnectionView>, name: Seq<char>) -> Option<int>
    decreases conns.len(),
{
    if conns.len() == 0 {
        None
    } else if conns[0].name == name {
        Some(0)
    } else {
        match first_named(conns.drop_first(), name) {
            Some(i) => Some(i + 1),
            None => None,
        }
    }
}

/// The connections without those named `name`, in order.
pub open spec fn without_name(conns: Seq<ConnectionView>, name: Seq<char>) -> Seq<ConnectionView>
    decreases conns.len(),
{
    if conns.len() == 0 {
        Seq::empty()
    } else if conns.last().name == name {
        without_name(conns.drop_last(), name)
    } else {
        without_name(conns.drop_last(), name).push(conns.last())
    }
}

/// The definition that `config add` makes.
pub open spec fn added_connection(
    name: Seq<char>,
    target: Seq<char>,
    region: Option<Seq<char>>,
    profile: Option<Seq<char>>,
    document_name: Option<Seq<char>>,
    keep_on_exit: bool,
    parameters: Seq<ParamView>,
) -> ConnectionView {
    ConnectionView {
        name,
        target,
        region,
        profile,
        document_name,
        keep_on_exit,
        parameters,
        extra_args: Seq::empty(),
    }
}

/// What `config edit` makes of a definition: the fields given replace
/// the old ones, `keep_on_exit` and `temporary` set the mode, and the
/// parameters are cleared or replaced when asked.
pub open spec fn edited_connection(
    c: ConnectionView,
    target: Option<Seq<char>>,
    region: Option<Seq<char>>,
    profile: Option<Seq<char>>,
    document_name: Option<Seq<char>>,
    keep_on_exit: bool,
    temporary: bool,
    parameters: Option<Seq<ParamView>>,
) -> ConnectionView {
    ConnectionView {
        name: c.name,
        target: match target {
            Some(t) => t,
            None => c.target,
        },
        region: if region is Some {
            region
        } else {
            c.region
        },
        profile: if profile is Some {
            profile
        } else {
            c.profile
        },
        document_name: if document_name is Some {
            document_name
        } else {
            c.document_name
        },
        keep_on_exit: if keep_on_exit {
            true
        } else if temporary {
            false
        } else {
            c.keep_on_exit
        },
        parameters: match parameters {
            Some(p) => p,
            None => c.parameters,
        },
        extra_args: c.extra_args,
    }
}

proof fn lemma_first_named_found(conns: Seq<ConnectionView>, name: Seq<char>, i: int)
    requires
        0 <= i < conns.len(),
        conns[i].name == name,
        forall|j: int| 0 <= j < i ==> conns[j].name != name,
    ensures
        first_named(conns, name) == Some(i),
    decreases i,
{
    if i > 0 {
        lemma_first_named_found(conns.drop_first(), name, i - 1);
    }
}

proof fn lemma_first_named_missing(conns: Seq<ConnectionView>, name: Seq<char>)
    requires
        forall|j: int| 0 <= j < conns.len() ==> conns[j].name != name,
    ensures
        first_named(conns, name) is None,
    decreases conns.len(),
{
    if conns.len() > 0 {
        lemma_first_named_missing(conns.drop_first(), name);
    }
}

pub fn find_named(config: &Config, name: &String) -> (r: Option<usize>)
    ensures
        r matches Some(i) ==> i < config.connections.len() && first_named(config@, name@) == Some(
            i as int,
        ) && config@[i as int].name == name@,
        r is None ==> first_named(config@, name@) is None && !has_name(config@, name@),
{
    let mut i: usize = 0;
    while i < config.connections.len()
        invariant
            i <= config.connections.len(),
            forall|j: int| 0 <= j < i ==> config@[j].name != name@,
        decreases config.connections.len() - i,
    {
        assert(config@[i as int] == config.connections@[i as int]@);
        if config.connections[i].name == *name {
            proof {
                lemma_first_named_found(config@, name@, i as int);
            }
            return Some(i);
        }
        i = i + 1;
    }
    proof {
        lemma_first_named_missing(config@, name@);
    }
    None
}

/// The parameters that a `config edit` asks for: `None` keeps the old
/// ones.
pub open spec fn edit_parameters(values: Seq<Seq<char>>, clear: bool) -> Result<
    Option<Seq<ParamView>>,
    ConfigFault<Seq<char>>,
> {
    if clear {
        Ok(Some(Seq::empty()))
    } else if values.len() == 0 {
        Ok(None)
    } else {
        match parse_params(values) {
            Ok(p) => Ok(Some(p)),
            Err(f) => Err(f),
        }
    }
}

/// Applies a `ssmux config` command to the configuration.  `list` changes
/// nothing; `add` appends a new definition unless its parameters are
/// malformed or its name is taken; `edit` changes the first definition
/// with the name; `remove` drops every definition with the name.  A
/// refused command leaves the configuration as it was.
pub fn config_command(config: &mut Config, command: &ConfigCommand) -> (r: Result<(), ConfigError>)
    ensures
        r is Err ==> final(config)@ == old(config)@,
        match command {
            ConfigCommand::List => r is Ok && final(config)@ == old(config)@,
            ConfigCommand::Add {
                name,
                target,
                region,
                profile,
                document_name,
                keep_on_exit,
                parameters,
            } => match parse_params(texts_view(parameters@)) {
                Err(f) => r matches Err(e) && e@ == f,
                Ok(p) => if has_name(old(config)@, name@) {
                    r matches Err(e) && e@ == ConfigFault::AlreadyExists(name@)
                } else {
                    r is Ok && final(config)@ == old(config)@.push(
                        added_connection(
                            name@,
                            target@,
                            opt_view(*region),
                            opt_view(*profile),
                            opt_view(*document_name),
                            *keep_on_exit,
                            p,
                        ),
                    )
                },
            },
            ConfigCommand::Edit {
                name,
                target,
                region,
                profile,
                document_name,
                keep_on_exit,
                temporary,
                parameters,
                clear_parameters,
            } => match first_named(old(config)@, name@) {
                None => r matches Err(e) && e@ == ConfigFault::UnknownConnection(name@),
                Some(i) => match edit_parameters(texts_view(parameters@), *clear_parameters) {
                    Err(f) => r matches Err(e) && e@ == f,
                    Ok(p) => r is Ok && final(config)@ == old(config)@.update(
                        i,
                        edited_connection(
                            old(config)@[i],
                            opt_view(*target),
                            opt_view(*region),
                            opt_view(*profile),
                            opt_view(*document_name),
                            *keep_on_exit,
                            *temporary,
                            p,
                        ),
                    ),
                },
            },
            ConfigCommand::Remove { name } => if has_name(old(config)@, name@) {
                r is Ok && final(config)@ == without_name(old(config)@, name@)
            } else {
                r matches Err(e) && e@ == ConfigFault::UnknownConnection(name@)
            },
        },
{
    match command {
        ConfigCommand::List => Ok(()),
        ConfigCommand::Add {
            name,
            target,
            region,
            profile,
            document_name,
            keep_on_exit,
            parameters,
        } => {
            let parsed = match parse_parameters(parameters) {
                Ok(p) => p,
                Err(e) => {
                    return Err(e);
                },
            };
            match find_named(config, name) {
                Some(i) => {
                    assert(config@[i as int].name == name@);
                    return Err(ConfigFault::AlreadyExists(name.clone()));
                },
                None => {},
            }
            let connection = ConnectionConfig {
                name: name.clone(),
                target: target.clone(),
                region: copy_opt(region),
                profile: copy_opt(profile),
                document_name: copy_opt(document_name),
                keep_on_exit: *keep_on_exit,
                parameters: parsed,
                extra_args: Vec::new(),
            };
            assert(texts_view(connection.extra_args@) =~= Seq::<Seq<char>>::empty());
            let ghost before = config.connections@;
            config.connections.push(connection);
            assert(config.connections@ == before.push(connection));
            assert(config@ =~= connections_view(before).push(connection@));
            Ok(())
        },
        ConfigCommand::Edit {
            name,
            target,
            region,
            profile,
            document_name,
            keep_on_exit,
            temporary,
            parameters,
            clear_parameters,
        } => {
            let i = match find_named(config, name) {
                Some(i) => i,
                None => {
                    return Err(ConfigFault::UnknownConnection(name.clone()));
                },
            };
            let new_parameters: Option<Parameters> = if *clear_parameters {
                let p = Parameters::new();
                Some(p)
            } else if parameters.len() == 0 {
                None
            } else {
                match parse_parameters(parameters) {
                    Ok(p) => Some(p),
                    Err(e) => {
                        return Err(e);
                    },
                }
            };
            let old_c = &config.connections[i];
            let edited = ConnectionConfig {
                name: old_c.name.clone(),
                target: match target {
                    Some(t) => t.clone(),
                    None => old_c.target.clone(),
                },
                region: if region.is_some() {
                    copy_opt(region)
                } else {
                    copy_opt(&old_c.region)
                },
                profile: if profile.is_some() {
                    copy_opt(profile)
                } else {
                    copy_opt(&old_c.profile)
                },
                document_name: if document_name.is_some() {
                    copy_opt(document_name)
                } else {
                    copy_opt(&old_c.document_name)
                },
                keep_on_exit: if *keep_on_exit {
                    true
                } else if *temporary {
                    false
                } else {
                    old_c.keep_on_exit
                },
                parameters: match new_parameters {
                    Some(p) => p,
                    None => old_c.parameters.copy(),
                },
                extra_args: crate::config::copy_texts(&old_c.extra_args),
            };
            let ghost before = config.connections@;
            config.connections.set(i, edited);
            assert(config@ =~= connections_view(before).update(i as int, edited@));
            Ok(())
        },
        ConfigCommand::Remove { name } => {
            let ghost before = config@;
            let mut kept: Vec<ConnectionConfig> = Vec::new();
            let mut removed = false;
            let mut i: usize = 0;
            assert(before.take(0) =~= Seq::<ConnectionView>::empty());
            while i < config.connections.len()
                invariant
                    before == config@,
                    i <= config.connections.len(),
                    connections_view(kept@) == without_name(before.take(i as int), name@),
                    removed == has_name(before.take(i as int), name@),
                decreases config.connections.len() - i,
            {
                let c = &config.connections[i];
                assert(before[i as int] == c@);
                let ghost pre = before.take(i + 1);
                assert(pre.drop_last() =~= before.take(i as int));
                assert(pre.last() == c@);
                if c.name == *name {
                    removed = true;
                    assert(pre[i as int].name == name@);
                } else {
                    let ghost kb = kept@;
                    let cc = c.copy();
                    kept.push(cc);
                    assert(kept@ == kb.push(cc));
                    assert(connections_view(kept@) =~= connections_view(kb).push(c@));
                    proof {
                        if has_name(pre, name@) {
                            let j = choose|j: int| 0 <= j < pre.len() && #[trigger] pre[j].name == name@;
                            assert(before.take(i as int)[j].name == name@);
                        }
                    }
                }
                proof {
                    if has_name(before.take(i as int), name@) {
                        let j = choose|j: int|
                            0 <= j < i && #[trigger] before.take(i as int)[j].name == name@;
                        assert(pre[j].name == name@);
                    }
                }
                i = i + 1;
            }
            assert(before.take(i as int) =~= before);
            if !removed {
                return Err(ConfigFault::UnknownConnection(name.clone()));
            }
            config.connections = kept;
            Ok(())
        },
    }
}

/// The state's name in the `status` table.
pub open spec fn state_text(state: ConnectionState) -> Seq<char> {
    match state {
        ConnectionState::Starting => "starting"@,
        ConnectionState::Running => "running"@,
        ConnectionState::Stopping => "stopping"@,
        ConnectionState::Stopped => "stopped"@,
        ConnectionState::Failed => "failed"@,
    }
}

pub fn state_label(state: ConnectionState) -> (r: &'static str)
    ensures
        r@ == state_text(state),
{
    match state {
        ConnectionState::Starting => "starting",
        ConnectionState::Running => "running",
        ConnectionState::Stopping => "stopping",
        ConnectionState::Stopped => "stopped",
        ConnectionState::Failed => "failed",
    }
}

/// The rule under a table's heading: 74 box-drawing dashes.
pub open spec fn table_rule() -> Seq<char> {
    Seq::new(74, |i: int| '─')
}

/// A connection's mode as the tables name it.
pub open spec fn mode_text(keep_on_exit: bool) -> Seq<char> {
    if keep_on_exit {
        "background"@
    } else {
        "temporary"@
    }
}

pub open spec fn status_row(s: StatusView) -> Seq<char> {
    pad_right(s.name, 18) + " "@ + pad_right(state_text(s.state), 10) + " "@ + pad_right(s.target, 24)
        + " "@ + pad_right(
        match s.pid {
            Some(p) => decimal(p as nat),
            None => "-"@,
        },
        8,
    ) + " "@ + pad_right(mode_text(s.keep_on_exit), 12)
}

/// The lines of a status's entry: its row, then its error if it has one.
pub open spec fn status_entry(s: StatusView) -> Seq<Seq<char>> {
    match s.last_error {
        Some(e) => seq![status_row(s), "  error: "@ + e],
        None => seq![status_row(s)],
    }
}

pub open spec fn status_entries(v: Seq<StatusView>) -> Seq<Seq<char>>
    decreases v.len(),
{
    if v.len() == 0 {
        Seq::empty()
    } else {
        status_entries(v.drop_last()) + status_entry(v.last())
    }
}

/// The lines that `print_statuses` prints.
pub open spec fn status_table_lines(v: Seq<StatusView>) -> Seq<Seq<char>> {
    if v.len() == 0 {
        seq!["no connections configured"@]
    } else {
        seq![
            pad_right("NAME"@, 18) + " "@ + pad_right("STATE"@, 10) + " "@ + pad_right("TARGET"@, 24)
                + " "@ + pad_right("PID"@, 8) + " "@ + pad_right("MODE"@, 6),
            table_rule(),
        ] + status_entries(v)
    }
}

fn rule() -> (r: String)
    ensures
        r@ == table_rule(),
{
    let mut v: Vec<char> = Vec::new();
    let mut i: usize = 0;
    while i < 74
        invariant
            i <= 74,
            v@ == Seq::new(i as nat, |j: int| '─'),
        decreases 74 - i,
    {
        v.push('─');
        assert(v@ =~= Seq::new((i + 1) as nat, |j: int| '─'));
        i = i + 1;
    }
    crate::text::string_of(&v)
}

/// Appends `cell` padded to `width`, then, unless it is the last, a space.
fn push_cell(line: &mut String, cell: &str, width: usize, last: bool)
    ensures
        final(line)@ == old(line)@ + pad_right(cell@, width as nat) + if last {
            Seq::<char>::empty()
        } else {
            " "@
        },
{
    let p = padded(cell, width);
    line.append(p.as_str());
    if !last {
        line.append(" ");
    } else {
        assert(final(line)@ =~= old(line)@ + pad_right(cell@, width as nat) + Seq::<char>::empty());
    }
}

fn status_line(s: &ConnectionStatus) -> (r: String)
    ensures
        r@ == status_row(s@),
{
    let mut line = String::new();
    push_cell(&mut line, s.name.as_str(), 18, false);
    push_cell(&mut line, state_label(s.state), 10, false);
    push_cell(&mut line, s.target.as_str(), 24, false);
    let pid = match s.pid {
        Some(p) => decimal_text(p as u64),
        None => String::from_str("-"),
    };
    push_cell(&mut line, pid.as_str(), 8, false);
    let mode = if s.keep_on_exit {
        "background"
    } else {
        "temporary"
    };
    push_cell(&mut line, mode, 12, true);
    assert(line@ =~= status_row(s@));
    line
}

/// The lines of the `status` table for the given states.
pub fn status_table(statuses: &Vec<ConnectionStatus>) -> (r: Vec<String>)
    ensures
        texts_view(r@) == status_table_lines(statuses_view(statuses@)),
{
    let ghost sv = statuses_view(statuses@);
    let mut lines: Vec<String> = Vec::new();
    if statuses.len() == 0 {
        lines.push(String::from_str("no connections configured"));
        assert(texts_view(lines@) =~= status_table_lines(sv));
        return lines;
    }
    let mut header = String::new();
    push_cell(&mut header, "NAME", 18, false);
    push_cell(&mut header, "STATE", 10, false);
    push_cell(&mut header, "TARGET", 24, false);
    push_cell(&mut header, "PID", 8, false);
    push_cell(&mut header, "MODE", 6, true);
    lines.push(header);
    lines.push(rule());
    let ghost head = texts_view(lines@);
    assert(sv.take(0) =~= Seq::<StatusView>::empty());
    let mut i: usize = 0;
    while i < statuses.len()
        invariant
            sv == statuses_view(statuses@),
            i <= statuses.len(),
            texts_view(lines@) == head + status_entries(sv.take(i as int)),
        decreases statuses.len() - i,
    {
        let s = &statuses[i];
        assert(sv.take(i + 1).drop_last() =~= sv.take(i as int));
        assert(sv.take(i + 1).last() == s@);
        let ghost lb = texts_view(lines@);
        lines.push(status_line(s));
        match &s.last_error {
            Some(e) => {
                lines.push(crate::config::joined("  error: ", e.as_str()));
            },
            None => {},
        }
        assert(texts_view(lines@) =~= lb + status_entry(s@));
        i = i + 1;
    }
    assert(sv.take(i as int) =~= sv);
    assert(texts_view(lines@) =~= status_table_lines(sv));
    lines
}

pub open spec fn config_row(c: ConnectionView) -> Seq<char> {
    pad_right(c.name, 18) + " "@ + pad_right(mode_text(c.keep_on_exit), 10) + " "@ + pad_right(
        c.target,
        24,
    ) + " "@ + pad_right(
        match c.region {
            Some(r) => r,
            None => "-"@,
        },
        18,
    )
}

/// The lines that `print_configurations` prints.
pub open spec fn config_table_lines(v: Seq<ConnectionView>) -> Seq<Seq<char>> {
    if v.len() == 0 {
        seq!["no connections configured"@]
    } else {
        seq![
            pad_right("NAME"@, 18) + " "@ + pad_right("MODE"@, 10) + " "@ + pad_right("TARGET"@, 24)
                + " "@ + pad_right("REGION"@, 18),
            table_rule(),
        ] + v.map_values(|c: ConnectionView| config_row(c))
    }
}

/// The lines of the `config list` table.
pub fn config_table(connections: &Vec<ConnectionConfig>) -> (r: Vec<String>)
    ensures
        texts_view(r@) == config_table_lines(connections_view(connections@)),
{
    let ghost cv = connections_view(connections@);
    let mut lines: Vec<String> = Vec::new();
    if connections.len() == 0 {
        lines.push(String::from_str("no connections configured"));
        assert(texts_view(lines@) =~= config_table_lines(cv));
        return lines;
    }
    let mut header = String::new();
    push_cell(&mut header, "NAME", 18, false);
    push_cell(&mut header, "MODE", 10, false);
    push_cell(&mut header, "TARGET", 24, false);
    push_cell(&mut header, "REGION", 18, true);
    lines.push(header);
    lines.push(rule());
    let ghost head = texts_view(lines@);
    let mut i: usize = 0;
    while i < connections.len()
        invariant
            cv == connections_view(connections@),
            i <= connections.len(),
            head.len() == 2,
            lines.len() == 2 + i,
            texts_view(lines@) == head + cv.map_values(|c: ConnectionView| config_row(c)).take(
                i as int,
            ),
        decreases connections.len() - i,
    {
        let c = &connections[i];
        assert(cv[i as int] == c@);
        let mut line = String::new();
        push_cell(&mut line, c.name.as_str(), 18, false);
        let mode = if c.keep_on_exit {
            "background"
        } else {
            "temporary"
        };
        push_cell(&mut line, mode, 10, false);
        push_cell(&mut line, c.target.as_str(), 24, false);
        let region = match &c.region {
            Some(r) => r.clone(),
            None => String::from_str("-"),
        };
        push_cell(&mut line, region.as_str(), 18, true);
        assert(line@ =~= config_row(c@));
        let ghost lb = lines@;
        lines.push(line);
        assert(lines@ == lb.push(line));
        assert(texts_view(lines@) =~= texts_view(lb).push(line@));
        assert(texts_view(lines@) =~= head + cv.map_values(|c: ConnectionView| config_row(c)).take(
            i + 1,
        ));
        i = i + 1;
    }
    assert(cv.map_values(|c: ConnectionView| config_row(c)).take(i as int) =~= cv.map_values(
        |c: ConnectionView| config_row(c),
    ));
    assert(texts_view(lines@) =~= config_table_lines(cv));
    lines
}

proof fn lemma_without_absent(conns: Seq<ConnectionView>, name: Seq<char>)
    requires
        !has_name(conns, name),
    ensures
        without_name(conns, name) == conns,
    decreases conns.len(),
{
    if conns.len() > 0 {
        let t = conns.drop_last();
        assert(!has_name(t, name)) by {
            if has_name(t, name) {
                let i = choose|i: int| 0 <= i < t.len() && #[trigger] t[i].name == name;
                assert(conns[i].name == name);
            }
        }
        lemma_without_absent(t, name);
        assert(conns[conns.len() - 1].name != name);
        assert(t.push(conns.last()) =~= conns);
    } else {
        assert(without_name(conns, name) =~= conns);
    }
}

/// `config remove` undoes `config add`: adding a connection under a new
/// name and then removing that name gives back the configuration.
pub proof fn lemma_remove_undoes_add(conns: Seq<ConnectionView>, c: ConnectionView)
    requires
        !has_name(conns, c.name),
    ensures
        has_name(conns.push(c), c.name),
        without_name(conns.push(c), c.name) == conns,
{
    let s = conns.push(c);
    assert(s[s.len() - 1].name == c.name);
    assert(s.drop_last() =~= conns);
    lemma_without_absent(conns, c.name);
}

/// `config edit` replaces exactly the fields it is given: a given target,
/// region, profile, document or parameter list replaces the old one and an
/// absent one keeps it; `--keep-on-exit` marks the connection background,
/// `--temporary` marks it temporary, and neither keeps its mode; the name
/// and extra arguments never change.
pub proof fn lemma_edit_sets_given_fields(
    c: ConnectionView,
    target: Option<Seq<char>>,
    region: Option<Seq<char>>,
    profile: Option<Seq<char>>,
    document_name: Option<Seq<char>>,
    keep_on_exit: bool,
    temporary: bool,
    parameters: Option<Seq<ParamView>>,
)
    ensures
        ({
            let r = edited_connection(
                c,
                target,
                region,
                profile,
                document_name,
                keep_on_exit,
                temporary,
                parameters,
            );
            &&& r.name == c.name
            &&& r.extra_args == c.extra_args
            &&& (target matches Some(t) ==> r.target == t)
            &&& (target is None ==> r.target == c.target)
            &&& (region matches Some(x) ==> r.region == Some(x))
            &&& (region is None ==> r.region == c.region)
            &&& (profile matches Some(x) ==> r.profile == Some(x))
            &&& (profile is None ==> r.profile == c.profile)
            &&& (document_name matches Some(x) ==> r.document_name == Some(x))
            &&& (document_name is None ==> r.document_name == c.document_name)
            &&& (keep_on_exit ==> r.keep_on_exit)
            &&& (!keep_on_exit && temporary ==> !r.keep_on_exit)
            &&& (!keep_on_exit && !temporary ==> r.keep_on_exit == c.keep_on_exit)
            &&& (parameters matches Some(p) ==> r.parameters == p)
            &&& (parameters is None ==> r.parameters == c.parameters)
        }),
{
}

} // verus!
