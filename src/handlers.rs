use crate::error::CliError;
use crate::registry::{
    file_name_of, files_view, load_spec, Config, DefinitionFile, EntryView,
};
use crate::shell::{unsupported_shell_message, Shell};
use vstd::prelude::*;

verus! {

/// What the init command goes on to do once its argument is understood.
#[derive(Debug, Clone, Copy)]
pub enum InitAction {
    /// Print the integration script of this shell.
    PrintScript(Shell),
    /// Seed the definition directory from the bundled definitions.
    Bootstrap,
}

/// The lines that a query for `command` prints against the registry `reg`:
/// its subcommands, or nothing where it is not defined.
pub open spec fn query_lines(reg: Map<Seq<char>, Seq<Seq<char>>>, command: Seq<char>) -> Seq<
    Seq<char>,
> {
    if reg.contains_key(command) {
        reg[command]
    } else {
        Seq::empty()
    }
}

/// The line that reports one created definition file.
pub open spec fn created_file_line(command: Seq<char>) -> Seq<char> {
    "  - "@ + file_name_of(command)
}

/// What the init command prints after seeding `dir` with the commands `names`.
pub open spec fn init_report_spec(dir: Seq<char>, names: Seq<Seq<char>>) -> Seq<Seq<char>> {
    seq!["Created config directory: "@ + dir, Seq::empty(), "Created default command files:"@]
        + names.map_values(|n: Seq<char>| created_file_line(n)) + seq![
        Seq::empty(),
        "To enable zsh integration, add the following to your .zshrc:"@,
        Seq::empty(),
        "  eval \"$(compack init zsh)\""@,
    ]
}

/// The query command: the lines to print for `command`, given whether the
/// definition directory was found and the files listed in it. A missing
/// directory and a failed load are errors; an undefined command is not, and
/// prints nothing.
pub fn handle_query(config_dir_found: bool, files: &Vec<DefinitionFile>, command: &str) -> (r:
    Result<Vec<String>, CliError>)
    ensures
        !config_dir_found ==> (r matches Err(e) && e == CliError::ConfigDirMissing
            && e.message_spec() == "Config directory not found. Run 'compack init' first."@),
        config_dir_found ==> match load_spec(files_view(files@)) {
            Err(e) => r matches Err(CliError::ConfigLoadFailed(m)) && m@ == e,
            Ok(reg) => r matches Ok(lines) && lines.deep_view() == query_lines(reg, command@),
        },
{
    if !config_dir_found {
        return Err(CliError::ConfigDirMissing);
    }
    match Config::load(files) {
        Err(e) => Err(CliError::ConfigLoadFailed(e)),
        Ok(config) => match config.get_subcommands(command) {
            Some(subcommands) => {
                let mut lines: Vec<String> = Vec::new();
                let mut i: usize = 0;
                while i < subcommands.len()
                    invariant
                        i <= subcommands@.len(),
                        lines@.len() == i,
                        forall|j: int| 0 <= j < i ==> #[trigger] lines@[j]@ == subcommands@[j]@,
                    decreases subcommands@.len() - i,
                {
                    lines.push(subcommands[i].clone());
                    i = i + 1;
                }
                assert(lines.deep_view() =~= subcommands.deep_view());
                Ok(lines)
            },
            None => {
                let lines: Vec<String> = Vec::new();
                assert(lines.deep_view() =~= Seq::<Seq<char>>::empty());
                Ok(lines)
            },
        },
    }
}

/// The init command: with a shell name, print that shell's integration
/// script, where one is known; without one, seed the definition directory
/// `config_dir`, unless it already exists: then nothing is copied and the
/// directory is left as it is. The directory's state matters only without a
/// shell name.
pub fn handle_init(shell: Option<&str>, config_dir: &str, config_dir_exists: bool) -> (r: Result<
    InitAction,
    CliError,
>)
    ensures
        shell is None && !config_dir_exists ==> r matches Ok(InitAction::Bootstrap),
        shell is None && config_dir_exists ==> (r matches Err(CliError::AlreadyInitialized(d))
            && d@ == config_dir@),
        shell is Some && shell->Some_0@ == "zsh"@ ==> r matches Ok(
            InitAction::PrintScript(Shell::Zsh),
        ),
        shell is Some && shell->Some_0@ != "zsh"@ ==> (r matches Err(e) && e
            is ShellNotSupported && e.message_spec() == unsupported_shell_message(shell->Some_0@)),
{
    match shell {
        None => {
            if config_dir_exists {
                Err(CliError::AlreadyInitialized(config_dir.to_owned()))
            } else {
                Ok(InitAction::Bootstrap)
            }
        },
        Some(name) => match Shell::from_str(name) {
            Ok(s) => Ok(InitAction::PrintScript(s)),
            Err(m) => Err(CliError::ShellNotSupported(m)),
        },
    }
}

/// The lines that the init command prints after seeding `config_dir`, which
/// now holds the registry `config`: the directory, one line per created
/// definition file, and how to enable the zsh integration.
pub fn init_report(config_dir: &str, config: &Config) -> (r: Vec<String>)
    requires
        config.wf(),
    ensures
        r.deep_view() == init_report_spec(
            config_dir@,
            config.entries().map_values(|e: EntryView| e.0),
        ),
{
    let names = config.command_names();
    let ghost name_views = names.deep_view();
    let mut r: Vec<String> = Vec::new();
    let mut first = "Created config directory: ".to_owned();
    first.append(config_dir);
    r.push(first);
    r.push(String::new());
    r.push("Created default command files:".to_owned());
    let ghost head = seq![
        "Created config directory: "@ + config_dir@,
        Seq::<char>::empty(),
        "Created default command files:"@,
    ];
    assert(r.deep_view() =~= head);
    let mut i: usize = 0;
    while i < names.len()
        invariant
            name_views == names.deep_view(),
            i <= names@.len(),
            r.deep_view() == head + name_views.take(i as int).map_values(
                |n: Seq<char>| created_file_line(n),
            ),
        decreases names@.len() - i,
    {
        let ghost before = r.deep_view();
        let mut line = "  - ".to_owned();
        line.append(names[i].as_str());
        line.append(".toml");
        proof {
            reveal_strlit(".toml");
            assert(line@ =~= created_file_line(name_views[i as int]));
        }
        r.push(line);
        assert(r.deep_view() =~= before.push(line@));
        assert(name_views.take(i + 1).map_values(|n: Seq<char>| created_file_line(n))
            =~= name_views.take(i as int).map_values(|n: Seq<char>| created_file_line(n)).push(
            line@,
        ));
        i = i + 1;
    }
    assert(name_views.take(names@.len() as int) =~= name_views);
    let ghost middle = r.deep_view();
    r.push(String::new());
    r.push("To enable zsh integration, add the following to your .zshrc:".to_owned());
    r.push(String::new());
    r.push("  eval \"$(compack init zsh)\"".to_owned());
    assert(r.deep_view() =~= middle + seq![
        Seq::<char>::empty(),
        "To enable zsh integration, add the following to your .zshrc:"@,
        Seq::<char>::empty(),
        "  eval \"$(compack init zsh)\""@,
    ]);
    r
}

} // verus!
