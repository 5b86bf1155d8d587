use crate::registry::Config;
use vstd::prelude::*;

verus! {

/// The path `base` followed by the relative component `name`, with a
/// separator between them unless `base` is empty or already ends in one.
pub open spec fn join_spec(base: Seq<char>, name: Seq<char>) -> Seq<char> {
    if base.len() == 0 || base.last() == '/' {
        base + name
    } else {
        base + seq!['/'] + name
    }
}

/// The name of the directory that holds definition files by default.
pub open spec fn commands_dir_name() -> Seq<char> {
    seq!['c', 'o', 'm', 'm', 'a', 'n', 'd', 's']
}

fn join_path(base: &str, name: &str) -> (r: String)
    ensures
        r@ == join_spec(base@, name@),
{
    let mut r = base.to_owned();
    let len = base.unicode_len();
    if len == 0 || base.get_char(len - 1) == '/' {
        r.append(name);
    } else {
        r.append("/");
        proof {
            reveal_strlit("/");
        }
        r.append(name);
        assert(r@ =~= base@ + seq!['/'] + name@);
    }
    r
}

fn commands_component() -> (r: &'static str)
    ensures
        r@ == commands_dir_name(),
{
    proof {
        reveal_strlit("commands");
    }
    let r = "commands";
    assert(r@ =~= commands_dir_name());
    r
}

impl Config {
    /// The definition directory: the override where one is set, otherwise
    /// the "commands" directory under `current_dir`.
    pub fn default_config_dir(env_override: Option<String>, current_dir: &str) -> (r: String)
        ensures
            match env_override {
                Some(p) => r@ == p@,
                None => r@ == join_spec(current_dir@, commands_dir_name()),
            },
    {
        match env_override {
            Some(p) => p,
            None => join_path(current_dir, commands_component()),
        }
    }

    /// Where the bundled definitions lie: the "commands" directory under the
    /// package's root directory `package_root`.
    pub fn bundled_commands_dir(package_root: &str) -> (r: String)
        ensures
            r@ == join_spec(package_root@, commands_dir_name()),
    {
        join_path(package_root, commands_component())
    }
}

} // verus!
