use crate::error::CliError;
use vstd::prelude::*;

verus! {

/// A command's name with its subcommand list, as plain sequences.
pub type EntryView = (Seq<char>, Seq<Seq<char>>);

/// A definition file as plain sequences: its file name, and either the
/// subcommands it holds or the message of the failure to read or parse it.
pub type FileView = (Seq<char>, Result<Seq<Seq<char>>, Seq<char>>);

/// The subcommands defined for one command, in the order they are offered.
#[derive(Debug)]
pub struct CommandConfig {
    pub subcommands: Vec<String>,
}

impl View for CommandConfig {
    type V = Seq<Seq<char>>;

    open spec fn view(&self) -> Seq<Seq<char>> {
        self.subcommands.deep_view()
    }
}

/// One file of a definition directory, with what was read from it.
#[derive(Debug)]
pub struct DefinitionFile {
    /// The file's name within the directory, extension included.
    pub name: String,
    /// The parsed definition, or the message of the read or parse failure.
    pub content: Result<CommandConfig, String>,
}

impl View for DefinitionFile {
    type V = FileView;

    open spec fn view(&self) -> FileView {
        (
            self.name@,
            match self.content {
                Ok(c) => Ok(c@),
                Err(e) => Err(e@),
            },
        )
    }
}

/// A named command of the registry.
#[derive(Debug)]
struct CommandEntry {
    name: String,
    config: CommandConfig,
}

impl View for CommandEntry {
    type V = EntryView;

    closed spec fn view(&self) -> EntryView {
        (self.name@, self.config@)
    }
}

/// The registry: a mapping from command name to its subcommand list.
#[derive(Debug)]
pub struct Config {
    commands: Vec<CommandEntry>,
}

/// The extension that marks a definition file.
pub open spec fn definition_suffix() -> Seq<char> {
    seq!['.', 't', 'o', 'm', 'l']
}

/// The command that a file of this name defines: the name without its
/// ".toml" extension, where what is left is not empty. Other files define none.
pub open spec fn command_name_of(file_name: Seq<char>) -> Option<Seq<char>> {
    if file_name.len() > 5 && file_name.subrange(file_name.len() - 5, file_name.len() as int)
        == definition_suffix() {
        Some(file_name.subrange(0, file_name.len() - 5))
    } else {
        None
    }
}

/// The name of the file that holds the definition of `command`.
pub open spec fn file_name_of(command: Seq<char>) -> Seq<char> {
    command + definition_suffix()
}

/// The mapping built from `entries` in order; a later entry replaces an
/// earlier one of the same name.
pub open spec fn entries_map(entries: Seq<EntryView>) -> Map<Seq<char>, Seq<Seq<char>>>
    decreases entries.len(),
{
    if entries.len() == 0 {
        Map::empty()
    } else {
        entries_map(entries.drop_last()).insert(entries.last().0, entries.last().1)
    }
}

/// No two entries carry the same name.
pub open spec fn names_unique(entries: Seq<EntryView>) -> bool {
    forall|i: int, j: int|
        0 <= i < entries.len() && 0 <= j < entries.len() && i != j ==> #[trigger] entries[i].0
            != #[trigger] entries[j].0
}

/// What loading the files `files`, in this order, gives: the registry of all
/// definition files, or the failure of the first definition file that could
/// not be read or parsed. Files that are no definition files are skipped.
pub open spec fn load_spec(files: Seq<FileView>) -> Result<Map<Seq<char>, Seq<Seq<char>>>, Seq<char>>
    decreases files.len(),
{
    if files.len() == 0 {
        Ok(Map::empty())
    } else {
        match load_spec(files.drop_last()) {
            Err(e) => Err(e),
            Ok(m) => match command_name_of(files.last().0) {
                None => Ok(m),
                Some(name) => match files.last().1 {
                    Err(e) => Err(e),
                    Ok(subs) => Ok(m.insert(name, subs)),
                },
            },
        }
    }
}

/// The files that saving the entries `entries` writes: one per entry, named
/// after the command and holding its subcommands.
pub open spec fn save_spec(entries: Seq<EntryView>) -> Seq<FileView> {
    entries.map_values(|e: EntryView| (file_name_of(e.0), Ok(e.1)))
}

/// Whether a file of this name is a definition file.
pub open spec fn is_definition_file(file_name: Seq<char>) -> bool {
    command_name_of(file_name) is Some
}

/// The views of a sequence of definition files.
pub open spec fn files_view(files: Seq<DefinitionFile>) -> Seq<FileView> {
    files.map_values(|f: DefinitionFile| f@)
}

/// The command that a file named `file_name` defines, if it is a definition
/// file: the name without its ".toml" extension, where that leaves a
/// non-empty name.
pub fn definition_name(file_name: &str) -> (r: Option<String>)
    ensures
        match r {
            Some(n) => command_name_of(file_name@) == Some(n@),
            None => command_name_of(file_name@) is None,
        },
{
    let len = file_name.unicode_len();
    if len <= 5 {
        return None;
    }
    let ghost s = file_name@;
    let ghost tail = s.subrange(len - 5, len as int);
    assert(tail[0] == s[len - 5] && tail[1] == s[len - 4] && tail[2] == s[len - 3] && tail[3]
        == s[len - 2] && tail[4] == s[len - 1]);
    if file_name.get_char(len - 5) == '.' && file_name.get_char(len - 4) == 't'
        && file_name.get_char(len - 3) == 'o' && file_name.get_char(len - 2) == 'm'
        && file_name.get_char(len - 1) == 'l' {
        assert(tail =~= definition_suffix());
        Some(file_name.substring_char(0, len - 5).to_owned())
    } else {
        None
    }
}

/// The name of the file that holds the definition of `command`.
pub fn definition_file_name(command: &str) -> (r: String)
    ensures
        r@ == file_name_of(command@),
{
    let mut r = command.to_owned();
    r.append(".toml");
    proof {
        reveal_strlit(".toml");
        assert(".toml"@ =~= definition_suffix());
    }
    r
}

/// A copy of a list of strings.
fn copy_strings(v: &Vec<String>) -> (r: Vec<String>)
    ensures
        r.deep_view() == v.deep_view(),
{
    let mut r: Vec<String> = Vec::new();
    let mut i: usize = 0;
    while i < v.len()
        invariant
            i <= v@.len(),
            r@.len() == i,
            forall|j: int| 0 <= j < i ==> #[trigger] r@[j]@ == v@[j]@,
        decreases v@.len() - i,
    {
        r.push(v[i].clone());
        i = i + 1;
    }
    assert(r.deep_view() =~= v.deep_view());
    r
}

impl CommandConfig {
    /// A copy of this definition.
    pub fn duplicate(&self) -> (r: CommandConfig)
        ensures
            r@ == self@,
    {
        CommandConfig { subcommands: copy_strings(&self.subcommands) }
    }
}

impl Config {
    /// The entries of the registry, in the order they were added.
    pub closed spec fn entries(&self) -> Seq<EntryView> {
        self.commands@.map_values(|e: CommandEntry| e@)
    }

    /// Command names are unique.
    pub closed spec fn wf(&self) -> bool {
        names_unique(self.entries())
    }

    /// The registry as a mapping from command name to subcommands.
    pub open spec fn view(&self) -> Map<Seq<char>, Seq<Seq<char>>> {
        entries_map(self.entries())
    }

    /// An empty registry.
    pub fn new() -> (r: Config)
        ensures
            r.wf(),
            r.entries() == Seq::<EntryView>::empty(),
            r@ == Map::<Seq<char>, Seq<Seq<char>>>::empty(),
    {
        let r = Config { commands: Vec::new() };
        assert(r.entries() =~= Seq::<EntryView>::empty());
        r
    }

    /// Builds the registry from the files of a definition directory, in the
    /// order they are listed. Each definition file adds its command under the
    /// file's name without extension; other files are skipped. The first
    /// definition file that could not be read or parsed fails the whole load.
    pub fn load(files: &Vec<DefinitionFile>) -> (r: Result<Config, String>)
        ensures
            match r {
                Ok(c) => c.wf() && load_spec(files_view(files@)) == Ok::<
                    Map<Seq<char>, Seq<Seq<char>>>,
                    Seq<char>,
                >(c@),
                Err(e) => load_spec(files_view(files@)) == Err::<
                    Map<Seq<char>, Seq<Seq<char>>>,
                    Seq<char>,
                >(e@),
            },
    {
        let ghost fv = files_view(files@);
        let mut config = Config::new();
        let mut i: usize = 0;
        assert(fv.take(0) =~= Seq::<FileView>::empty());
        while i < files.len()
            invariant
                fv == files_view(files@),
                i <= files@.len(),
                config.wf(),
                load_spec(fv.take(i as int)) == Ok::<Map<Seq<char>, Seq<Seq<char>>>, Seq<char>>(
                    config@,
                ),
            decreases files@.len() - i,
        {
            let file = &files[i];
            assert(fv.take(i + 1).drop_last() =~= fv.take(i as int));
            assert(fv.take(i + 1).last() == file@);
            match definition_name(file.name.as_str()) {
                None => {},
                Some(name) => match &file.content {
                    Err(e) => {
                        proof {
                            lemma_load_failed_prefix(fv, i + 1);
                        }
                        return Err(e.clone());
                    },
                    Ok(c) => {
                        config.insert(name, c.duplicate());
                    },
                },
            }
            i = i + 1;
        }
        assert(fv.take(files@.len() as int) =~= fv);
        Ok(config)
    }

    /// The files that saving the registry writes: one per command, named
    /// after it, in the order the commands were added.
    pub fn save(&self) -> (r: Vec<DefinitionFile>)
        ensures
            files_view(r@) == save_spec(self.entries()),
    {
        let mut r: Vec<DefinitionFile> = Vec::new();
        let mut i: usize = 0;
        while i < self.commands.len()
            invariant
                i <= self.commands@.len(),
                files_view(r@) == save_spec(self.entries().take(i as int)),
            decreases self.commands@.len() - i,
        {
            let entry = &self.commands[i];
            let file = DefinitionFile {
                name: definition_file_name(entry.name.as_str()),
                content: Ok(entry.config.duplicate()),
            };
            let ghost before = r@;
            r.push(file);
            proof {
                assert(self.entries()[i as int] == entry@);
                assert(self.entries().take(i + 1) =~= self.entries().take(i as int).push(entry@));
                assert(files_view(r@) =~= files_view(before).push(file@));
                assert(save_spec(self.entries().take(i + 1)) =~= save_spec(
                    self.entries().take(i as int),
                ).push(file@));
            }
            i = i + 1;
        }
        assert(self.entries().take(self.commands@.len() as int) =~= self.entries());
        r
    }

    /// Seeding the directory `target_dir` from the bundled definitions, of
    /// which `bundled` lists the file names: the names of the files to copy,
    /// which are the definition files among them, in order. A directory that
    /// already exists is refused, and then nothing is copied.
    pub fn bootstrap_plan(target_dir: &str, target_exists: bool, bundled: &Vec<String>) -> (r:
        Result<Vec<String>, CliError>)
        ensures
            target_exists ==> (r matches Err(CliError::AlreadyInitialized(d)) && d@
                == target_dir@),
            !target_exists ==> (r matches Ok(names) && names.deep_view() == definition_file_names(
                bundled.deep_view(),
            )),
    {
        if target_exists {
            return Err(CliError::AlreadyInitialized(target_dir.to_owned()));
        }
        let ghost all = bundled.deep_view();
        let mut names: Vec<String> = Vec::new();
        let mut i: usize = 0;
        proof {
            reveal(Seq::filter);
            assert(all.take(0) =~= Seq::<Seq<char>>::empty());
            assert(names.deep_view() =~= Seq::<Seq<char>>::empty());
        }
        while i < bundled.len()
            invariant
                all == bundled.deep_view(),
                i <= bundled@.len(),
                names.deep_view() == definition_file_names(all.take(i as int)),
            decreases bundled@.len() - i,
        {
            let ghost before = names.deep_view();
            let name = &bundled[i];
            proof {
                reveal(Seq::filter);
                assert(all.take(i + 1).drop_last() =~= all.take(i as int));
                assert(all.take(i + 1).last() == name@);
            }
            if definition_name(name.as_str()).is_some() {
                names.push(name.clone());
                assert(names.deep_view() =~= before.push(name@));
            }
            i = i + 1;
        }
        assert(all.take(bundled@.len() as int) =~= all);
        Ok(names)
    }

    /// The names of the registry's commands, each once, in the order they
    /// were added.
    pub fn command_names(&self) -> (r: Vec<String>)
        requires
            self.wf(),
        ensures
            r.deep_view() == self.entries().map_values(|e: EntryView| e.0),
            r.deep_view().no_duplicates(),
            forall|k: Seq<char>| self@.contains_key(k) <==> r.deep_view().contains(k),
    {
        let mut r: Vec<String> = Vec::new();
        let mut i: usize = 0;
        while i < self.commands.len()
            invariant
                i <= self.commands@.len(),
                r@.len() == i,
                forall|j: int| 0 <= j < i ==> #[trigger] r@[j]@ == self.entries()[j].0,
            decreases self.commands@.len() - i,
        {
            assert(self.entries()[i as int] == self.commands@[i as int]@);
            r.push(self.commands[i].name.clone());
            i = i + 1;
        }
        let ghost names = self.entries().map_values(|e: EntryView| e.0);
        assert(r.deep_view() =~= names);
        proof {
            lemma_entries_map_lookup(self.entries());
            assert forall|k: Seq<char>| self@.contains_key(k) <==> names.contains(k) by {
                if self@.contains_key(k) {
                    let i = choose|i: int| 0 <= i < self.entries().len() && self.entries()[i].0 == k;
                    assert(names[i] == k);
                }
                if names.contains(k) {
                    let i = choose|i: int| 0 <= i < names.len() && names[i] == k;
                    assert(entries_map(self.entries()).contains_key(self.entries()[i].0));
                }
            }
            assert forall|a: int, b: int| 0 <= a < names.len() && 0 <= b < names.len() && a != b
                implies names[a] != names[b] by {
                assert(self.entries()[a].0 != self.entries()[b].0);
            }
        }
        r
    }

    /// The number of commands in the registry.
    pub fn len(&self) -> (r: usize)
        requires
            self.wf(),
        ensures
            r == self@.len(),
    {
        let names = self.command_names();
        proof {
            let s = names.deep_view();
            assert(self@.dom() =~= s.to_set());
            s.unique_seq_to_set();
        }
        names.len()
    }

    /// Position of the entry named `name`, if there is one.
    fn position_of(&self, name: &String) -> (r: Option<usize>)
        ensures
            match r {
                Some(i) => i < self.entries().len() && self.entries()[i as int].0 == name@,
                None => forall|i: int|
                    0 <= i < self.entries().len() ==> #[trigger] self.entries()[i].0 != name@,
            },
    {
        let mut i: usize = 0;
        while i < self.commands.len()
            invariant
                i <= self.commands@.len(),
                forall|j: int| 0 <= j < i ==> #[trigger] self.entries()[j].0 != name@,
            decreases self.commands@.len() - i,
        {
            if self.commands[i].name == *name {
                return Some(i);
            }
            i = i + 1;
        }
        None
    }

    /// The subcommands of `command`, or `None` where the registry does not
    /// define it.
    pub fn get_subcommands(&self, command: &str) -> (r: Option<&Vec<String>>)
        requires
            self.wf(),
        ensures
            match r {
                Some(v) => self@.contains_key(command@) && v.deep_view() == self@[command@],
                None => !self@.contains_key(command@),
            },
    {
        let name = command.to_owned();
        proof {
            lemma_entries_map_lookup(self.entries());
        }
        match self.position_of(&name) {
            Some(i) => {
                assert(self.entries()[i as int] == self.commands@[i as int]@);
                assert(entries_map(self.entries()).contains_key(self.entries()[i as int].0));
                Some(&self.commands[i].config.subcommands)
            },
            None => None,
        }
    }

    /// Whether the registry defines `command`.
    pub fn contains_command(&self, command: &str) -> (r: bool)
        requires
            self.wf(),
        ensures
            r == self@.contains_key(command@),
    {
        self.get_subcommands(command).is_some()
    }

    /// Sets the subcommands of `name`, replacing what it had.
    pub fn insert(&mut self, name: String, config: CommandConfig)
        requires
            old(self).wf(),
        ensures
            final(self).wf(),
            final(self)@ == old(self)@.insert(name@, config@),
    {
        let ghost entry_view: EntryView = (name@, config@);
        match self.position_of(&name) {
            Some(i) => {
                let ghost before = self.entries();
                self.commands.set(i, CommandEntry { name, config });
                proof {
                    assert(self.entries() =~= before.update(i as int, entry_view));
                    lemma_entries_map_update(before, i as int, entry_view.1);
                }
            },
            None => {
                let ghost before = self.entries();
                self.commands.push(CommandEntry { name, config });
                proof {
                    assert(self.entries() =~= before.push(entry_view));
                    assert(self.entries().drop_last() =~= before);
                }
            },
        }
    }
}

/// File names are unique, as they are within one directory.
pub open spec fn file_names_unique(files: Seq<FileView>) -> bool {
    forall|i: int, j: int|
        0 <= i < files.len() && 0 <= j < files.len() && i != j ==> #[trigger] files[i].0
            != #[trigger] files[j].0
}

/// The definition files among `files`, in the same order.
pub open spec fn definition_files(files: Seq<FileView>) -> Seq<FileView> {
    files.filter(|f: FileView| is_definition_file(f.0))
}

/// The definition file names among `names`, in the same order.
pub open spec fn definition_file_names(names: Seq<Seq<char>>) -> Seq<Seq<char>> {
    names.filter(|n: Seq<char>| is_definition_file(n))
}

/// A file name that defines a command is that command followed by the
/// extension, so two files define the same command only if they are the
/// same file.
pub proof fn lemma_command_name_of(file_name: Seq<char>)
    ensures
        command_name_of(file_name) matches Some(c) ==> file_name == file_name_of(c),
        command_name_of(file_name) matches Some(c) ==> c.len() > 0,
{
    if command_name_of(file_name) is Some {
        let c = command_name_of(file_name)->Some_0;
        assert(file_name =~= file_name_of(c));
    }
}

/// The file named after a non-empty command defines exactly that command.
pub proof fn lemma_file_name_of(command: Seq<char>)
    requires
        command.len() > 0,
    ensures
        command_name_of(file_name_of(command)) == Some(command),
{
    let f = file_name_of(command);
    assert(f.subrange(f.len() - 5, f.len() as int) =~= definition_suffix());
    assert(f.subrange(0, f.len() - 5) =~= command);
}

/// Loading a directory in which every definition file parses gives each
/// command exactly the subcommands of its own file, in their order.
pub proof fn lemma_load_gives_file_contents(files: Seq<FileView>, i: int)
    requires
        file_names_unique(files),
        0 <= i < files.len(),
        load_spec(files) is Ok,
        command_name_of(files[i].0) is Some,
    ensures
        files[i].1 is Ok,
        load_spec(files)->Ok_0.contains_key(command_name_of(files[i].0)->Some_0),
        load_spec(files)->Ok_0[command_name_of(files[i].0)->Some_0] == files[i].1->Ok_0,
    decreases files.len(),
{
    let rest = files.drop_last();
    let last = files.len() - 1;
    if i < last {
        assert(file_names_unique(rest)) by {
            assert forall|a: int, b: int|
                0 <= a < rest.len() && 0 <= b < rest.len() && a != b implies #[trigger] rest[a].0
                != #[trigger] rest[b].0 by {
                assert(rest[a] == files[a] && rest[b] == files[b]);
            }
        }
        assert(rest[i] == files[i]);
        lemma_load_gives_file_contents(rest, i);
        lemma_command_name_of(files[i].0);
        lemma_command_name_of(files[last].0);
        assert(files[i].0 != files[last].0);
    }
}

/// Saving a registry into an empty directory and loading that directory
/// gives the same registry back (every command name being non-empty, so
/// that its file counts as a definition file).
pub proof fn lemma_save_then_load(c: Config)
    requires
        c.wf(),
        forall|k: Seq<char>| #[trigger] c@.contains_key(k) ==> k.len() > 0,
    ensures
        load_spec(save_spec(c.entries())) == Ok::<Map<Seq<char>, Seq<Seq<char>>>, Seq<char>>(c@),
{
    lemma_entries_map_lookup(c.entries());
    assert forall|i: int| 0 <= i < c.entries().len() implies #[trigger] c.entries()[i].0.len()
        > 0 by {
        assert(c@.contains_key(c.entries()[i].0));
    }
    lemma_save_then_load_entries(c.entries());
}

proof fn lemma_save_then_load_entries(entries: Seq<EntryView>)
    requires
        forall|i: int| 0 <= i < entries.len() ==> #[trigger] entries[i].0.len() > 0,
    ensures
        load_spec(save_spec(entries)) == Ok::<Map<Seq<char>, Seq<Seq<char>>>, Seq<char>>(
            entries_map(entries),
        ),
    decreases entries.len(),
{
    if entries.len() > 0 {
        let rest = entries.drop_last();
        assert forall|i: int| 0 <= i < rest.len() implies #[trigger] rest[i].0.len() > 0 by {
            assert(rest[i] == entries[i]);
        }
        lemma_save_then_load_entries(rest);
        assert(save_spec(entries).drop_last() =~= save_spec(rest));
        lemma_file_name_of(entries.last().0);
    } else {
        assert(save_spec(entries) =~= Seq::<FileView>::empty());
    }
}

/// Copying only the definition files of a directory and loading the copy
/// gives what loading the directory itself gives.
pub proof fn lemma_bootstrap_then_load(files: Seq<FileView>)
    ensures
        load_spec(definition_files(files)) == load_spec(files),
    decreases files.len(),
{
    reveal(Seq::filter);
    if files.len() > 0 {
        let rest = files.drop_last();
        lemma_bootstrap_then_load(rest);
        if is_definition_file(files.last().0) {
            let copied = definition_files(files);
            assert(copied =~= definition_files(rest).push(files.last()));
            assert(copied.drop_last() =~= definition_files(rest));
        } else {
            assert(definition_files(files) =~= definition_files(rest));
        }
    }
}

/// The directory `dir` after writing the file `file` into it: a file of the
/// same name is overwritten in place, otherwise the file is added.
pub open spec fn write_file(dir: Seq<FileView>, file: FileView) -> Seq<FileView> {
    if exists|i: int| 0 <= i < dir.len() && dir[i].0 == file.0 {
        let i = choose|i: int| 0 <= i < dir.len() && dir[i].0 == file.0;
        dir.update(i, file)
    } else {
        dir.push(file)
    }
}

/// The directory `dir` after writing the files `files` into it, in order.
pub open spec fn write_files(dir: Seq<FileView>, files: Seq<FileView>) -> Seq<FileView>
    decreases files.len(),
{
    if files.len() == 0 {
        dir
    } else {
        write_files(write_file(dir, files[0]), files.drop_first())
    }
}

/// Every command of a loaded registry comes from a definition file of the
/// directory.
pub proof fn lemma_loaded_command_has_file(files: Seq<FileView>, k: Seq<char>)
    requires
        load_spec(files) is Ok,
        load_spec(files)->Ok_0.contains_key(k),
    ensures
        exists|i: int| 0 <= i < files.len() && command_name_of(files[i].0) == Some(k),
    decreases files.len(),
{
    let rest = files.drop_last();
    let last = files.len() - 1;
    if command_name_of(files[last].0) != Some(k) {
        lemma_loaded_command_has_file(rest, k);
        let i = choose|i: int| 0 <= i < rest.len() && command_name_of(rest[i].0) == Some(k);
        assert(files[i] == rest[i]);
    }
}

/// A directory whose definition files all parse loads without failure.
proof fn lemma_load_succeeds(files: Seq<FileView>)
    requires
        forall|i: int| 0 <= i < files.len() && is_definition_file(#[trigger] files[i].0)
            ==> files[i].1 is Ok,
    ensures
        load_spec(files) is Ok,
    decreases files.len(),
{
    if files.len() > 0 {
        let rest = files.drop_last();
        assert forall|i: int| 0 <= i < rest.len() && is_definition_file(#[trigger] rest[i].0)
            implies rest[i].1 is Ok by {
            assert(rest[i] == files[i]);
        }
        lemma_load_succeeds(rest);
        assert(is_definition_file(files[files.len() - 1].0) ==> files[files.len() - 1].1 is Ok);
    }
}

/// Writing files that the directory already holds, each under its name with
/// the same content, leaves the directory as it was.
proof fn lemma_write_same_files(dir: Seq<FileView>, files: Seq<FileView>)
    requires
        file_names_unique(dir),
        forall|j: int| 0 <= j < files.len() ==> dir.contains(#[trigger] files[j]),
    ensures
        write_files(dir, files) == dir,
    decreases files.len(),
{
    if files.len() > 0 {
        let f = files[0];
        assert(dir.contains(f));
        let w = choose|i: int| 0 <= i < dir.len() && dir[i] == f;
        assert(dir[w].0 == f.0);
        let i = choose|i: int| 0 <= i < dir.len() && dir[i].0 == f.0;
        assert(i == w);
        assert(dir.update(i, f) =~= dir);
        assert forall|j: int| 0 <= j < files.drop_first().len() implies dir.contains(
            #[trigger] files.drop_first()[j],
        ) by {
            assert(files.drop_first()[j] == files[j + 1]);
        }
        lemma_write_same_files(dir, files.drop_first());
    }
}

/// Saving a registry back into the directory it was loaded from, and loading
/// that directory again, gives the same registry: each saved file overwrites
/// the file it was loaded from with the same subcommands.
pub proof fn lemma_save_into_loaded_directory(dir: Seq<FileView>, c: Config)
    requires
        file_names_unique(dir),
        c.wf(),
        load_spec(dir) == Ok::<Map<Seq<char>, Seq<Seq<char>>>, Seq<char>>(c@),
    ensures
        write_files(dir, save_spec(c.entries())) == dir,
        load_spec(write_files(dir, save_spec(c.entries()))) == Ok::<
            Map<Seq<char>, Seq<Seq<char>>>,
            Seq<char>,
        >(c@),
{
    let entries = c.entries();
    let saved = save_spec(entries);
    lemma_entries_map_lookup(entries);
    assert forall|j: int| 0 <= j < saved.len() implies dir.contains(#[trigger] saved[j]) by {
        let k = entries[j].0;
        assert(c@.contains_key(k));
        lemma_loaded_command_has_file(dir, k);
        let i = choose|i: int| 0 <= i < dir.len() && command_name_of(dir[i].0) == Some(k);
        lemma_load_gives_file_contents(dir, i);
        lemma_command_name_of(dir[i].0);
        assert(dir[i] == saved[j]);
    }
    lemma_write_same_files(dir, saved);
}

/// Seeding a fresh directory with the definition files of the bundled
/// directory, listed there in any order, and loading it gives the bundled
/// registry: the same commands, each with the same subcommands.
pub proof fn lemma_bootstrap_then_load_any_order(bundled: Seq<FileView>, copied: Seq<FileView>)
    requires
        file_names_unique(bundled),
        file_names_unique(copied),
        load_spec(bundled) is Ok,
        forall|f: FileView| #[trigger]
            copied.contains(f) <==> (bundled.contains(f) && is_definition_file(f.0)),
    ensures
        load_spec(copied) == load_spec(bundled),
{
    let mb = load_spec(bundled)->Ok_0;
    assert forall|i: int| 0 <= i < copied.len() && is_definition_file(#[trigger] copied[i].0)
        implies copied[i].1 is Ok by {
        assert(copied.contains(copied[i]));
        let j = choose|j: int| 0 <= j < bundled.len() && bundled[j] == copied[i];
        lemma_load_gives_file_contents(bundled, j);
    }
    lemma_load_succeeds(copied);
    let mc = load_spec(copied)->Ok_0;
    assert forall|k: Seq<char>| #[trigger] mc.contains_key(k) implies mb.contains_key(k) && mc[k]
        == mb[k] by {
        lemma_loaded_command_has_file(copied, k);
        let i = choose|i: int| 0 <= i < copied.len() && command_name_of(copied[i].0) == Some(k);
        lemma_load_gives_file_contents(copied, i);
        assert(copied.contains(copied[i]));
        let j = choose|j: int| 0 <= j < bundled.len() && bundled[j] == copied[i];
        lemma_load_gives_file_contents(bundled, j);
    }
    assert forall|k: Seq<char>| #[trigger] mb.contains_key(k) implies mc.contains_key(k) by {
        lemma_loaded_command_has_file(bundled, k);
        let j = choose|j: int| 0 <= j < bundled.len() && command_name_of(bundled[j].0) == Some(k);
        assert(bundled.contains(bundled[j]));
        assert(copied.contains(bundled[j]));
        let i = choose|i: int| 0 <= i < copied.len() && copied[i] == bundled[j];
        lemma_load_gives_file_contents(copied, i);
    }
    assert(mc.dom() =~= mb.dom());
    assert(mc =~= mb);
}

/// Once a prefix of the files fails to load, loading all of them fails the
/// same way.
proof fn lemma_load_failed_prefix(files: Seq<FileView>, n: int)
    requires
        0 <= n <= files.len(),
        load_spec(files.take(n)) is Err,
    ensures
        load_spec(files) == load_spec(files.take(n)),
    decreases files.len(),
{
    if n == files.len() {
        assert(files.take(n) =~= files);
    } else {
        assert(files.drop_last().take(n) =~= files.take(n));
        lemma_load_failed_prefix(files.drop_last(), n);
    }
}

/// With unique names, the mapping holds exactly the entries' names, each
/// with the subcommands of its entry.
proof fn lemma_entries_map_lookup(entries: Seq<EntryView>)
    requires
        names_unique(entries),
    ensures
        forall|i: int|
            0 <= i < entries.len() ==> #[trigger] entries_map(entries).contains_key(entries[i].0)
                && entries_map(entries)[entries[i].0] == entries[i].1,
        forall|k: Seq<char>|
            #[trigger] entries_map(entries).contains_key(k) ==> exists|i: int|
                0 <= i < entries.len() && entries[i].0 == k,
    decreases entries.len(),
{
    if entries.len() > 0 {
        let rest = entries.drop_last();
        assert(names_unique(rest)) by {
            assert forall|i: int, j: int|
                0 <= i < rest.len() && 0 <= j < rest.len() && i != j implies #[trigger] rest[i].0
                != #[trigger] rest[j].0 by {
                assert(rest[i] == entries[i] && rest[j] == entries[j]);
            }
        }
        lemma_entries_map_lookup(rest);
        assert forall|i: int| 0 <= i < entries.len() implies #[trigger] entries_map(
            entries,
        ).contains_key(entries[i].0) && entries_map(entries)[entries[i].0] == entries[i].1 by {
            if i < entries.len() - 1 {
                assert(rest[i] == entries[i]);
                assert(entries[i].0 != entries[entries.len() - 1].0);
                assert(entries_map(rest).contains_key(rest[i].0));
            }
            assert(entries_map(entries) == entries_map(rest).insert(
                entries.last().0,
                entries.last().1,
            ));
        }
        assert forall|k: Seq<char>| #[trigger]
            entries_map(entries).contains_key(k) implies exists|i: int|
            0 <= i < entries.len() && entries[i].0 == k by {
            if k != entries.last().0 {
                assert(entries_map(rest).contains_key(k));
                let i = choose|i: int| 0 <= i < rest.len() && rest[i].0 == k;
                assert(entries[i] == rest[i]);
            }
        }
    }
}

/// Replacing the subcommands of an entry changes the mapping at that name only.
proof fn lemma_entries_map_update(entries: Seq<EntryView>, i: int, subs: Seq<Seq<char>>)
    requires
        names_unique(entries),
        0 <= i < entries.len(),
    ensures
        names_unique(entries.update(i, (entries[i].0, subs))),
        entries_map(entries.update(i, (entries[i].0, subs))) == entries_map(entries).insert(
            entries[i].0,
            subs,
        ),
    decreases entries.len(),
{
    let updated = entries.update(i, (entries[i].0, subs));
    assert(names_unique(updated)) by {
        assert forall|a: int, b: int|
            0 <= a < updated.len() && 0 <= b < updated.len() && a != b implies #[trigger] updated[a].0
            != #[trigger] updated[b].0 by {
            assert(updated[a].0 == entries[a].0 && updated[b].0 == entries[b].0);
        }
    }
    let rest = entries.drop_last();
    let last = entries.len() - 1;
    if i == last {
        assert(updated.drop_last() =~= rest);
        assert(entries_map(updated) =~= entries_map(entries).insert(entries[i].0, subs));
    } else {
        assert(names_unique(rest)) by {
            assert forall|a: int, b: int|
                0 <= a < rest.len() && 0 <= b < rest.len() && a != b implies #[trigger] rest[a].0
                != #[trigger] rest[b].0 by {
                assert(rest[a] == entries[a] && rest[b] == entries[b]);
            }
        }
        lemma_entries_map_update(rest, i, subs);
        assert(updated.drop_last() =~= rest.update(i, (rest[i].0, subs)));
        assert(updated.last() == entries.last());
        assert(entries[i].0 != entries[last].0);
        assert(entries_map(updated) =~= entries_map(entries).insert(entries[i].0, subs));
    }
}

} // verus!
