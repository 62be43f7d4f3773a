//! Package manager descriptors.  A descriptor records a manager's name, the
//! directory its configuration file lives in, and the raw command templates
//! for the operations it supports.  Templates resolve into process
//! specifications: a leading `./` marks a script relative to the
//! configuration directory (the directory text and the template text are
//! concatenated verbatim, with no separator inserted), and the resolved text
//! is tokenized on whitespace into a program and its fixed arguments.

use vstd::prelude::*;
use vstd::string::StringExecFns;

use crate::text::{
    parent_dir_spec, parent_of_path, stem_of_path, stem_spec, str_eq, tokenize, tokens_spec,
};

verus! {

/// Ghost image of a descriptor: each command template as a character
/// sequence.
#[verifier::ext_equal]
pub struct PackageManagerView {
    pub name: Seq<char>,
    pub version: Seq<char>,
    pub config_dir: Seq<char>,
    pub install: Option<Seq<char>>,
    pub install_local: Option<Seq<char>>,
    pub remove: Option<Seq<char>>,
    pub remove_local: Option<Seq<char>>,
    pub search: Option<Seq<char>>,
}

/// The representation of a package manager: its name, the directory of its
/// configuration file (scripts are resolved against it), and its command
/// templates.  Only the `version` command is mandatory.
#[derive(Debug)]
pub struct PackageManager {
    pub name: String,
    pub version: String,
    pub config_dir: String,
    pub install: Option<String>,
    pub install_local: Option<String>,
    pub remove: Option<String>,
    pub remove_local: Option<String>,
    pub search: Option<String>,
}

impl View for PackageManager {
    type V = PackageManagerView;

    open spec fn view(&self) -> PackageManagerView {
        PackageManagerView {
            name: self.name@,
            version: self.version@,
            config_dir: self.config_dir@,
            install: self.install.deep_view(),
            install_local: self.install_local.deep_view(),
            remove: self.remove.deep_view(),
            remove_local: self.remove_local.deep_view(),
            search: self.search.deep_view(),
        }
    }
}

impl DeepView for PackageManager {
    type V = PackageManagerView;

    open spec fn deep_view(&self) -> PackageManagerView {
        self.view()
    }
}

pub open spec fn version_key() -> Seq<char> {
    seq!['v', 'e', 'r', 's', 'i', 'o', 'n']
}

pub open spec fn install_key() -> Seq<char> {
    seq!['i', 'n', 's', 't', 'a', 'l', 'l']
}

pub open spec fn install_local_key() -> Seq<char> {
    seq!['i', 'n', 's', 't', 'a', 'l', 'l', '_', 'l', 'o', 'c', 'a', 'l']
}

pub open spec fn remove_key() -> Seq<char> {
    seq!['r', 'e', 'm', 'o', 'v', 'e']
}

pub open spec fn remove_local_key() -> Seq<char> {
    seq!['r', 'e', 'm', 'o', 'v', 'e', '_', 'l', 'o', 'c', 'a', 'l']
}

pub open spec fn search_key() -> Seq<char> {
    seq!['s', 'e', 'a', 'r', 'c', 'h']
}

proof fn lemma_key_literals()
    ensures
        "version"@ == version_key(),
        "install"@ == install_key(),
        "install_local"@ == install_local_key(),
        "remove"@ == remove_key(),
        "remove_local"@ == remove_local_key(),
        "search"@ == search_key(),
{
    reveal_strlit("version");
    reveal_strlit("install");
    reveal_strlit("install_local");
    reveal_strlit("remove");
    reveal_strlit("remove_local");
    reveal_strlit("search");
    assert("version"@ =~= version_key());
    assert("install"@ =~= install_key());
    assert("install_local"@ =~= install_local_key());
    assert("remove"@ =~= remove_key());
    assert("remove_local"@ =~= remove_local_key());
    assert("search"@ =~= search_key());
}

/// The template stored in the slot `name`: `None` when the slot name is
/// unknown, `Some(None)` when the slot is known but not configured.
pub open spec fn slot_template(pm: PackageManagerView, name: Seq<char>) -> Option<
    Option<Seq<char>>,
> {
    if name == version_key() {
        Some(Some(pm.version))
    } else if name == install_key() {
        Some(pm.install)
    } else if name == install_local_key() {
        Some(pm.install_local)
    } else if name == remove_key() {
        Some(pm.remove)
    } else if name == remove_local_key() {
        Some(pm.remove_local)
    } else if name == search_key() {
        Some(pm.search)
    } else {
        None
    }
}

/// Whether the descriptor holds a template for the slot `name`.
pub open spec fn has_command_spec(pm: PackageManagerView, name: Seq<char>) -> bool {
    slot_template(pm, name) matches Some(Some(_))
}

/// A template that begins with `./` is glued onto the configuration
/// directory character for character; any other template stands as it is.
pub open spec fn fix_path_spec(dir: Seq<char>, cmd: Seq<char>) -> Seq<char> {
    if cmd.len() >= 2 && cmd[0] == '.' && cmd[1] == '/' {
        dir + cmd
    } else {
        cmd
    }
}

/// Ghost image of a resolved command.
#[verifier::ext_equal]
pub struct CommandSpecView {
    pub program: Seq<char>,
    pub args: Seq<Seq<char>>,
}

/// A command resolved from a template: the program to launch and its fixed
/// arguments.
#[derive(Debug)]
pub struct CommandSpec {
    pub program: String,
    pub args: Vec<String>,
}

impl View for CommandSpec {
    type V = CommandSpecView;

    open spec fn view(&self) -> CommandSpecView {
        CommandSpecView { program: self.program@, args: self.args.deep_view() }
    }
}

/// What a template resolves to: the first whitespace token names the
/// program, the rest are its arguments; a template without tokens resolves
/// to nothing.
pub open spec fn resolved_command(dir: Seq<char>, template: Seq<char>) -> Option<CommandSpecView> {
    let toks = tokens_spec(fix_path_spec(dir, template));
    if toks.len() == 0 {
        None
    } else {
        Some(CommandSpecView { program: toks[0], args: toks.drop_first() })
    }
}

/// The error for a command slot name outside the fixed set of slots: a usage
/// error, distinct from any failure to launch a process.
#[derive(Debug, PartialEq, Eq, Structural)]
pub enum CommandError {
    CommandNotFound,
}

/// What `make_command` returns for each slot name and descriptor.
pub open spec fn make_command_spec(pm: PackageManagerView, name: Seq<char>) -> Result<
    Option<CommandSpecView>,
    CommandError,
> {
    match slot_template(pm, name) {
        Option::None => Err(CommandError::CommandNotFound),
        Option::Some(Option::None) => Ok(Option::None),
        Option::Some(Option::Some(t)) => Ok(resolved_command(pm.config_dir, t)),
    }
}

/// Concatenates a configuration directory with a command that starts with
/// `./`; any other command is returned unchanged.
pub fn fix_relative_path(config_dir: &str, command: &str) -> (r: String)
    ensures
        r@ == fix_path_spec(config_dir@, command@),
{
    let n = command.unicode_len();
    if n >= 2 && command.get_char(0) == '.' && command.get_char(1) == '/' {
        config_dir.to_owned().concat(command)
    } else {
        command.to_owned()
    }
}

impl PackageManager {
    /// Create a blank descriptor with no commands and empty name and
    /// version.
    pub fn new() -> (r: PackageManager)
        ensures
            r@.name == Seq::<char>::empty(),
            r@.version == Seq::<char>::empty(),
            r@.config_dir == Seq::<char>::empty(),
            r@.install is None,
            r@.install_local is None,
            r@.remove is None,
            r@.remove_local is None,
            r@.search is None,
    {
        PackageManager {
            name: String::new(),
            version: String::new(),
            config_dir: String::new(),
            install: None,
            install_local: None,
            remove: None,
            remove_local: None,
            search: None,
        }
    }

    /// Get the name of the package manager.
    pub fn get_name(&self) -> (r: String)
        ensures
            r@ == self@.name,
    {
        self.name.clone()
    }

    /// Get the directory of the configuration file that describes this
    /// manager.
    pub fn get_config_dir(&self) -> (r: String)
        ensures
            r@ == self@.config_dir,
    {
        self.config_dir.clone()
    }

    /// Check if the descriptor holds a template for the command slot `name`.
    pub fn has_command(&self, name: &str) -> (r: bool)
        ensures
            r == has_command_spec(self@, name@),
    {
        proof {
            lemma_key_literals();
        }
        if str_eq(name, "version") {
            true
        } else if str_eq(name, "install") {
            self.install.is_some()
        } else if str_eq(name, "install_local") {
            self.install_local.is_some()
        } else if str_eq(name, "remove") {
            self.remove.is_some()
        } else if str_eq(name, "remove_local") {
            self.remove_local.is_some()
        } else if str_eq(name, "search") {
            self.search.is_some()
        } else {
            false
        }
    }

    /// Resolves one optional template against the configuration directory.
    fn resolve_slot(&self, template: &Option<String>) -> (r: Option<CommandSpec>)
        ensures
            ({
                match template.deep_view() {
                    Option::None => r is None,
                    Option::Some(t) => match resolved_command(self@.config_dir, t) {
                        Option::None => r is None,
                        Option::Some(v) => r matches Some(cs) && cs@ == v,
                    },
                }
            }),
    {
        match template {
            None => None,
            Some(t) => {
                let fixed = fix_relative_path(self.config_dir.as_str(), t.as_str());
                let mut toks = tokenize(fixed.as_str());
                if toks.len() == 0 {
                    return None;
                }
                let ghost all = toks.deep_view();
                let program = toks.remove(0);
                proof {
                    assert(toks.deep_view() =~= all.drop_first());
                }
                Some(CommandSpec { program, args: toks })
            },
        }
    }

    /// Turns the template of the command slot `name` into a resolved
    /// command.  An unknown slot name is an error; a known slot without a
    /// usable template yields `None`.
    pub fn make_command(&self, name: &str) -> (r: Result<Option<CommandSpec>, CommandError>)
        ensures
            ({
                let expected = make_command_spec(self@, name@);
                match r {
                    Ok(Option::None) => expected == Ok::<Option<CommandSpecView>, CommandError>(
                        Option::None,
                    ),
                    Ok(Option::Some(cs)) => expected == Ok::<Option<CommandSpecView>, CommandError>(
                        Option::Some(cs@),
                    ),
                    Err(e) => expected == Err::<Option<CommandSpecView>, CommandError>(e),
                }
            }),
    {
        proof {
            lemma_key_literals();
        }
        if str_eq(name, "version") {
            let version_slot: Option<String> = Some(self.version.clone());
            Ok(self.resolve_slot(&version_slot))
        } else if str_eq(name, "install") {
            Ok(self.resolve_slot(&self.install))
        } else if str_eq(name, "install_local") {
            Ok(self.resolve_slot(&self.install_local))
        } else if str_eq(name, "remove") {
            Ok(self.resolve_slot(&self.remove))
        } else if str_eq(name, "remove_local") {
            Ok(self.resolve_slot(&self.remove_local))
        } else if str_eq(name, "search") {
            Ok(self.resolve_slot(&self.search))
        } else {
            Err(CommandError::CommandNotFound)
        }
    }
}

/// The error for a configuration file from which no descriptor can be
/// built: the text is not a TOML document, or it lacks a usable `version`
/// command.
#[derive(Debug, PartialEq, Eq, Structural)]
pub struct ConfigError;

/// The string value at the top-level key `key` of the TOML document `doc`,
/// or nothing when the document does not parse, the key is absent, or its
/// value is not a string.
pub uninterp spec fn toml_string_key(doc: Seq<char>, key: Seq<char>) -> Option<Seq<char>>;

/// Relies on `toml::Table`'s `FromStr` impl (the TOML document parser), on
/// `toml::map::Map::get`, and on `toml::Value::as_str`: the string value at
/// a top-level key of a TOML document is a function of the document text and
/// the key alone.
#[verifier::external_body]
fn toml_string_value(content: &str, key: &str) -> (r: Option<String>)
    ensures
        r matches Some(s) ==> toml_string_key(content@, key@) == Some(s@),
        r is None ==> toml_string_key(content@, key@) is None,
{
    let table: toml::Table = match content.parse() {
        Ok(t) => t,
        Err(_) => return None,
    };
    match table.get(key) {
        Some(v) => v.as_str().map(str::to_owned),
        None => None,
    }
}

/// The descriptor that a configuration file with the given stem, directory
/// and text loads to, or nothing when the mandatory `version` key cannot be
/// read.
pub open spec fn load_result(stem: Seq<char>, dir: Seq<char>, content: Seq<char>) -> Option<
    PackageManagerView,
> {
    match toml_string_key(content, version_key()) {
        Option::Some(v) => Option::Some(
            PackageManagerView {
                name: stem,
                version: v,
                config_dir: dir,
                install: toml_string_key(content, install_key()),
                install_local: toml_string_key(content, install_local_key()),
                remove: toml_string_key(content, remove_key()),
                remove_local: toml_string_key(content, remove_local_key()),
                search: toml_string_key(content, search_key()),
            },
        ),
        Option::None => Option::None,
    }
}

/// Builds the descriptor for a manager named `name` whose configuration
/// file in `config_dir` holds `content`.
pub(crate) fn load_descriptor(name: String, config_dir: String, content: &str) -> (r: Result<
    PackageManager,
    ConfigError,
>)
    ensures
        ({
            let loaded = load_result(name@, config_dir@, content@);
            match r {
                Ok(pm) => loaded == Some(pm@),
                Err(_) => loaded is None,
            }
        }),
{
    proof {
        lemma_key_literals();
    }
    let version = match toml_string_value(content, "version") {
        Some(v) => v,
        None => {
            return Err(ConfigError);
        },
    };
    let install = toml_string_value(content, "install");
    let install_local = toml_string_value(content, "install_local");
    let remove = toml_string_value(content, "remove");
    let remove_local = toml_string_value(content, "remove_local");
    let search = toml_string_value(content, "search");
    Ok(
        PackageManager {
            name,
            version,
            config_dir,
            install,
            install_local,
            remove,
            remove_local,
            search,
        },
    )
}

impl PackageManager {
    /// Read a TOML configuration text describing a package manager and
    /// create a descriptor from it.  The manager's name is the stem of
    /// `path`, and its configuration directory is the parent of `path`.
    pub fn from_file(path: &str, content: &str) -> (r: Result<PackageManager, ConfigError>)
        ensures
            ({
                let loaded = load_result(stem_spec(path@), parent_dir_spec(path@), content@);
                match r {
                    Ok(pm) => loaded == Some(pm@),
                    Err(_) => loaded is None,
                }
            }),
    {
        let name = stem_of_path(path);
        let config_dir = parent_of_path(path);
        load_descriptor(name, config_dir, content)
    }
}

impl PartialEq for PackageManager {
    /// Descriptors are identified by name alone.
    fn eq(&self, other: &PackageManager) -> (r: bool) {
        self.name == other.name
    }
}

impl vstd::std_specs::cmp::PartialEqSpecImpl for PackageManager {
    open spec fn obeys_eq_spec() -> bool {
        true
    }

    open spec fn eq_spec(&self, other: &PackageManager) -> bool {
        self@.name == other@.name
    }
}

impl CommandSpec {
    /// Appends caller-supplied arguments, tokenized on whitespace, after the
    /// fixed arguments of the template.
    pub fn with_args(self, args: &str) -> (r: CommandSpec)
        ensures
            r@.program == self@.program,
            r@.args == self@.args + tokens_spec(args@),
    {
        let ghost fixed = self.args.deep_view();
        let mut extra = tokenize(args);
        let ghost extra_view = extra.deep_view();
        let mut all = self.args;
        all.append(&mut extra);
        proof {
            assert(all.deep_view() =~= fixed + extra_view);
        }
        CommandSpec { program: self.program, args: all }
    }
}

} // verus!
