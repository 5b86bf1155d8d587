use compack::shell::ZSH_INTEGRATION;
use compack::{handle_init, handle_query, init_report, CliError, CommandConfig, Config, DefinitionFile, InitAction, Shell};

fn cargo_directory() -> Vec<DefinitionFile> {
    vec![DefinitionFile {
        name: "cargo.toml".to_string(),
        content: Ok(CommandConfig {
            subcommands: ["build", "run", "test", "check", "clean", "doc"]
                .iter()
                .map(|s| s.to_string())
                .collect(),
        }),
    }]
}

#[test]
fn query_prints_subcommands_in_order() {
    let lines = handle_query(true, &cargo_directory(), "cargo").unwrap();
    assert_eq!(lines, vec!["build", "run", "test", "check", "clean", "doc"]);
}

#[test]
fn query_of_undefined_command_prints_nothing() {
    let lines = handle_query(true, &cargo_directory(), "nonexistent").unwrap();
    assert!(lines.is_empty());
}

#[test]
fn query_without_directory_fails() {
    match handle_query(false, &Vec::new(), "cargo") {
        Err(e) => {
            assert!(matches!(e, CliError::ConfigDirMissing));
            assert_eq!(e.message(), "Config directory not found. Run 'compack init' first.");
        }
        Ok(_) => panic!("a missing directory must fail the query"),
    }
}

#[test]
fn query_with_broken_definition_fails() {
    let mut files = cargo_directory();
    files.push(DefinitionFile { name: "bad.toml".to_string(), content: Err("missing field `subcommands`".to_string()) });
    match handle_query(true, &files, "cargo") {
        Err(e) => assert_eq!(e.message(), "Failed to load config: missing field `subcommands`"),
        Ok(_) => panic!("a broken definition must fail the query"),
    }
}

#[test]
fn init_zsh_is_always_the_same_script() {
    let first = handle_init(Some("zsh"), "/home/u/commands", true).unwrap();
    let second = handle_init(Some("zsh"), "/home/u/commands", true).unwrap();
    let (a, b) = match (first, second) {
        (InitAction::PrintScript(a), InitAction::PrintScript(b)) => (a, b),
        _ => panic!("zsh must print its script"),
    };
    assert_eq!(a.integration_script(), b.integration_script());
    assert_eq!(a.integration_script(), ZSH_INTEGRATION);
    assert!(ZSH_INTEGRATION.starts_with("# compack zsh integration\n"));
    assert!(ZSH_INTEGRATION.contains("compack query \"$cmd\""));
}

#[test]
fn init_unknown_shell_names_it() {
    match handle_init(Some("unknown-shell"), "/home/u/commands", false) {
        Err(e) => {
            assert!(matches!(e, CliError::ShellNotSupported(_)));
            assert_eq!(
                e.message(),
                "Shell 'unknown-shell' is not supported yet. Currently supported: zsh"
            );
        }
        Ok(_) => panic!("an unknown shell must be refused"),
    }
}

#[test]
fn init_without_shell_bootstraps() {
    assert!(matches!(handle_init(None, "/home/u/commands", false), Ok(InitAction::Bootstrap)));
}

#[test]
fn init_into_existing_directory_is_refused() {
    match handle_init(None, "/home/u/commands", true) {
        Err(e) => assert_eq!(
            e.message(),
            "Config directory already exists at: /home/u/commands. \
             To reinitialize, please delete the directory first."
        ),
        Ok(_) => panic!("an existing directory must not be seeded"),
    }
}

#[test]
fn shell_from_str() {
    assert_eq!(Shell::from_str("zsh"), Ok(Shell::Zsh));
    assert_eq!(
        Shell::from_str("bash"),
        Err("Shell 'bash' is not supported yet. Currently supported: zsh".to_string())
    );
    assert!(Shell::from_str("ZSH").is_err());
}

#[test]
fn error_messages() {
    assert_eq!(CliError::ConfigDirNotFound("x".to_string()).message(), "Config directory error: x");
    assert_eq!(CliError::ConfigLoadFailed("x".to_string()).message(), "Failed to load config: x");
    assert_eq!(CliError::ConfigInitFailed("x".to_string()).message(), "Failed to initialize config: x");
    assert_eq!(CliError::UnsupportedShell("x".to_string()).message(), "Unsupported shell: x");
    assert_eq!(CliError::ShellNotSupported("x".to_string()).message(), "x");
    assert_eq!(
        CliError::ConfigDirMissing.message(),
        "Config directory not found. Run 'compack init' first."
    );
    assert_eq!(
        CliError::AlreadyInitialized("/d".to_string()).message(),
        "Config directory already exists at: /d. To reinitialize, please delete the directory first."
    );
}

#[test]
fn init_report_lists_created_files() {
    let config = Config::load(&cargo_directory()).unwrap();
    let lines = init_report("/home/u/commands", &config);
    assert_eq!(
        lines,
        vec![
            "Created config directory: /home/u/commands",
            "",
            "Created default command files:",
            "  - cargo.toml",
            "",
            "To enable zsh integration, add the following to your .zshrc:",
            "",
            "  eval \"$(compack init zsh)\"",
        ]
    );
}
