//! Static subcommand completion data for shell commands: a registry that maps
//! a command name to its list of subcommands, kept on disk as one definition
//! file per command.

pub mod cli;
pub mod error;
pub mod handlers;
pub mod location;
pub mod registry;
pub mod shell;

pub use cli::{Cli, Commands};
pub use error::CliError;
pub use handlers::{handle_init, handle_query, init_report, InitAction};
pub use registry::{CommandConfig, Config, DefinitionFile};
pub use shell::Shell;
