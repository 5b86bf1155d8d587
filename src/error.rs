use vstd::prelude::*;

verus! {

/// The failures that end a command-line operation.
#[derive(Debug, Clone)]
pub enum CliError {
    /// The definition directory could not be worked out.
    ConfigDirNotFound(String),
    /// The definition directory does not exist.
    ConfigDirMissing,
    /// A definition file or the directory could not be read or parsed.
    ConfigLoadFailed(String),
    /// Seeding the definition directory failed.
    ConfigInitFailed(String),
    /// The definition directory already exists; it holds the path.
    AlreadyInitialized(String),
    /// No integration script is known for the requested shell.
    UnsupportedShell(String),
    /// The init command was given a shell it has no script for; it holds the
    /// whole line to report.
    ShellNotSupported(String),
}

impl CliError {
    /// The one-line description of the failure.
    pub open spec fn message_spec(&self) -> Seq<char> {
        match self {
            CliError::ConfigDirNotFound(m) => "Config directory error: "@ + m@,
            CliError::ConfigDirMissing => "Config directory not found. Run 'compack init' first."@,
            CliError::ConfigLoadFailed(m) => "Failed to load config: "@ + m@,
            CliError::ConfigInitFailed(m) => "Failed to initialize config: "@ + m@,
            CliError::AlreadyInitialized(dir) => "Config directory already exists at: "@ + dir@
                + ". To reinitialize, please delete the directory first."@,
            CliError::UnsupportedShell(m) => "Unsupported shell: "@ + m@,
            CliError::ShellNotSupported(m) => m@,
        }
    }

    /// The one-line description of the failure.
    pub fn message(&self) -> (r: String)
        ensures
            r@ == self.message_spec(),
    {
        match self {
            CliError::ConfigDirNotFound(m) => {
                let mut r = "Config directory error: ".to_owned();
                r.append(m.as_str());
                r
            },
            CliError::ConfigDirMissing => "Config directory not found. Run 'compack init' first.".to_owned(),
            CliError::ConfigLoadFailed(m) => {
                let mut r = "Failed to load config: ".to_owned();
                r.append(m.as_str());
                r
            },
            CliError::ConfigInitFailed(m) => {
                let mut r = "Failed to initialize config: ".to_owned();
                r.append(m.as_str());
                r
            },
            CliError::AlreadyInitialized(dir) => {
                let mut r = "Config directory already exists at: ".to_owned();
                r.append(dir.as_str());
                r.append(". To reinitialize, please delete the directory first.");
                r
            },
            CliError::UnsupportedShell(m) => {
                let mut r = "Unsupported shell: ".to_owned();
                r.append(m.as_str());
                r
            },
            CliError::ShellNotSupported(m) => m.clone(),
        }
    }
}

} // verus!
