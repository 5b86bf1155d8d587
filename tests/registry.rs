use compack::registry::{definition_file_name, definition_name};
use compack::{CommandConfig, Config, DefinitionFile};

fn strings(items: &[&str]) -> Vec<String> {
    items.iter().map(|s| s.to_string()).collect()
}

fn parsed(name: &str, subcommands: &[&str]) -> DefinitionFile {
    DefinitionFile {
        name: name.to_string(),
        content: Ok(CommandConfig { subcommands: strings(subcommands) }),
    }
}

fn failed(name: &str, message: &str) -> DefinitionFile {
    DefinitionFile { name: name.to_string(), content: Err(message.to_string()) }
}

const CARGO: [&str; 6] = ["build", "run", "test", "check", "clean", "doc"];
const OPENCODE: [&str; 5] = ["run", "auth", "models", "serve", "acp"];
const RAILS: [&str; 5] = ["server", "console", "generate", "routes", "test"];

fn bundled_files() -> Vec<DefinitionFile> {
    vec![
        parsed("opencode.toml", &OPENCODE),
        parsed("cargo.toml", &CARGO),
        failed("README.md", "not a definition"),
        parsed("rails.toml", &RAILS),
    ]
}

#[test]
fn test_load_bundled_commands() {
    let config = Config::load(&bundled_files()).expect("Failed to load bundled commands");

    assert!(config.contains_command("opencode"));
    assert!(config.contains_command("cargo"));
    assert!(config.contains_command("rails"));
}

#[test]
fn test_get_subcommands() {
    let config = Config::load(&bundled_files()).expect("Failed to load bundled commands");

    let subcommands = config.get_subcommands("opencode");
    assert!(subcommands.is_some());
    assert!(subcommands.unwrap().contains(&"acp".to_string()));
}

#[test]
fn test_copy_bundled_commands() {
    let bundled = strings(&["opencode.toml", "README.md", "cargo.toml", ".toml", "rails.toml"]);
    let copied = Config::bootstrap_plan("compack_test", false, &bundled)
        .expect("Failed to copy bundled commands");

    assert!(copied.contains(&"opencode.toml".to_string()));
    assert!(copied.contains(&"cargo.toml".to_string()));
    assert!(copied.contains(&"rails.toml".to_string()));
    assert_eq!(copied, strings(&["opencode.toml", "cargo.toml", "rails.toml"]));
}

#[test]
fn definition_names_follow_the_extension() {
    assert_eq!(definition_name("cargo.toml"), Some("cargo".to_string()));
    assert_eq!(definition_name("a.b.toml"), Some("a.b".to_string()));
    assert_eq!(definition_name("..toml"), Some(".".to_string()));
    assert_eq!(definition_name(".toml"), None);
    assert_eq!(definition_name("toml"), None);
    assert_eq!(definition_name("cargo.yaml"), None);
    assert_eq!(definition_name("cargo.toml.bak"), None);
    assert_eq!(definition_name(""), None);
}

#[test]
fn definition_file_name_adds_the_extension() {
    assert_eq!(definition_file_name("cargo"), "cargo.toml");
    assert_eq!(definition_name(&definition_file_name("rails")), Some("rails".to_string()));
}

#[test]
fn load_keeps_subcommand_order() {
    let config = Config::load(&bundled_files()).unwrap();
    assert_eq!(config.get_subcommands("cargo"), Some(&strings(&CARGO)));
    assert_eq!(config.get_subcommands("rails"), Some(&strings(&RAILS)));
    assert_eq!(config.len(), 3);
    assert_eq!(config.command_names(), strings(&["opencode", "cargo", "rails"]));
}

#[test]
fn absent_command_is_not_found() {
    let config = Config::load(&bundled_files()).unwrap();
    assert_eq!(config.get_subcommands("nonexistent"), None);
    assert_eq!(config.get_subcommands("cargo.toml"), None);
    assert!(!config.contains_command("README"));
}

#[test]
fn load_of_empty_directory_is_empty() {
    let config = Config::load(&Vec::new()).unwrap();
    assert_eq!(config.len(), 0);
    assert_eq!(config.get_subcommands("cargo"), None);
}

#[test]
fn load_fails_on_first_bad_definition() {
    let files = vec![
        parsed("cargo.toml", &CARGO),
        failed("broken.toml", "expected an array"),
        failed("worse.toml", "unreadable"),
    ];
    assert_eq!(Config::load(&files).unwrap_err(), "expected an array");
}

#[test]
fn load_skips_bad_non_definition_files() {
    let files = vec![failed("notes.txt", "binary"), parsed("cargo.toml", &CARGO)];
    let config = Config::load(&files).unwrap();
    assert_eq!(config.len(), 1);
}

#[test]
fn insert_replaces_existing_command() {
    let mut config = Config::new();
    config.insert("cargo".to_string(), CommandConfig { subcommands: strings(&["build"]) });
    config.insert("rails".to_string(), CommandConfig { subcommands: strings(&["server"]) });
    config.insert("cargo".to_string(), CommandConfig { subcommands: strings(&["run", "doc"]) });
    assert_eq!(config.len(), 2);
    assert_eq!(config.get_subcommands("cargo"), Some(&strings(&["run", "doc"])));
    assert_eq!(config.get_subcommands("rails"), Some(&strings(&["server"])));
}

#[test]
fn save_then_load_gives_same_registry() {
    let config = Config::load(&bundled_files()).unwrap();
    let saved = config.save();
    let names: Vec<String> = saved.iter().map(|f| f.name.clone()).collect();
    assert_eq!(names, strings(&["opencode.toml", "cargo.toml", "rails.toml"]));

    let reloaded = Config::load(&saved).unwrap();
    assert_eq!(reloaded.command_names(), config.command_names());
    for name in ["opencode", "cargo", "rails"] {
        assert_eq!(reloaded.get_subcommands(name), config.get_subcommands(name));
    }
}

#[test]
fn bootstrap_into_existing_directory_is_refused() {
    let bundled = strings(&["cargo.toml"]);
    let result = Config::bootstrap_plan("/home/u/commands", true, &bundled);
    match result {
        Err(e) => assert_eq!(
            e.message(),
            "Config directory already exists at: /home/u/commands. \
             To reinitialize, please delete the directory first."
        ),
        Ok(_) => panic!("an existing directory must not be seeded"),
    }
}

#[test]
fn bootstrap_then_load_gives_bundled_set() {
    let bundled = bundled_files();
    let names: Vec<String> = bundled.iter().map(|f| f.name.clone()).collect();
    let copied = Config::bootstrap_plan("fresh", false, &names).unwrap();
    let target: Vec<DefinitionFile> = bundled
        .into_iter()
        .filter(|f| copied.contains(&f.name))
        .collect();
    let config = Config::load(&target).unwrap();
    assert_eq!(config.command_names(), strings(&["opencode", "cargo", "rails"]));
    assert_eq!(config.get_subcommands("opencode"), Some(&strings(&OPENCODE)));
}

#[test]
fn default_config_dir_prefers_override() {
    assert_eq!(Config::default_config_dir(Some("/etc/compack".to_string()), "/home/u"), "/etc/compack");
    assert_eq!(Config::default_config_dir(Some(String::new()), "/home/u"), "");
    assert_eq!(Config::default_config_dir(None, "/home/u"), "/home/u/commands");
    assert_eq!(Config::default_config_dir(None, "/"), "/commands");
    assert_eq!(Config::default_config_dir(None, ""), "commands");
}

#[test]
fn bundled_commands_dir_is_under_package_root() {
    assert_eq!(Config::bundled_commands_dir("/src/compack"), "/src/compack/commands");
    assert_eq!(Config::bundled_commands_dir("/src/compack/"), "/src/compack/commands");
}

#[test]
fn duplicate_keeps_subcommands() {
    let config = CommandConfig { subcommands: strings(&CARGO) };
    assert_eq!(config.duplicate().subcommands, strings(&CARGO));
}

#[test]
fn bootstrap_copy_in_other_order_loads_same_registry() {
    let bundled = Config::load(&bundled_files()).unwrap();
    let copied = vec![
        parsed("rails.toml", &RAILS),
        parsed("opencode.toml", &OPENCODE),
        parsed("cargo.toml", &CARGO),
    ];
    let config = Config::load(&copied).unwrap();
    assert_eq!(config.len(), bundled.len());
    for name in ["opencode", "cargo", "rails"] {
        assert_eq!(config.get_subcommands(name), bundled.get_subcommands(name));
    }
}

#[test]
fn save_into_loaded_directory_rewrites_the_same_files() {
    let directory = bundled_files();
    let config = Config::load(&directory).unwrap();
    for saved in config.save() {
        let original = directory.iter().find(|f| f.name == saved.name).expect("saved file was loaded");
        let (a, b) = (original.content.as_ref().unwrap(), saved.content.as_ref().unwrap());
        assert_eq!(a.subcommands, b.subcommands);
    }
}
