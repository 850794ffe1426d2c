//! The line-oriented configuration format.
//!
//! Empty lines and lines starting with `#` are ignored. A line without `:`
//! names a process and takes defaults for everything else. A line with `:`
//! holds `name:executable:working_directory:arguments:max_restarts`, where
//! empty or missing trailing fields take the defaults. A later line for the
//! same name replaces an earlier one. Relative paths are kept relative to
//! the daemon's current directory.

use vstd::prelude::*;
use crate::path::{
    is_absolute, is_absolute_path, join_dir, join_dir_str, join_path, normalize_path,
    normalize_path_spec,
};
use crate::restart_policy::ProcessRestartPolicy;
use crate::text::{parse_u32, parse_u32_spec, split_on, split_str, split_words, trim, trim_str, views, words};

verus! {

/// What is known of a process configuration.
pub struct ProcessConfigView {
    pub name: Seq<char>,
    pub executable_path: Seq<char>,
    pub working_directory: Seq<char>,
    pub arguments: Seq<Seq<char>>,
    pub restart_policy: ProcessRestartPolicy,
    pub environment_vars: Seq<(Seq<char>, Seq<char>)>,
}

pub struct ProcessConfig {
    pub name: String,
    pub executable_path: String,
    pub working_directory: String,
    pub arguments: Vec<String>,
    pub restart_policy: ProcessRestartPolicy,
    pub environment_vars: Vec<(String, String)>,
}

pub open spec fn pair_views(v: Seq<(String, String)>) -> Seq<(Seq<char>, Seq<char>)> {
    v.map_values(|p: (String, String)| (p.0@, p.1@))
}

impl View for ProcessConfig {
    type V = ProcessConfigView;

    open spec fn view(&self) -> ProcessConfigView {
        ProcessConfigView {
            name: self.name@,
            executable_path: self.executable_path@,
            working_directory: self.working_directory@,
            arguments: views(self.arguments@),
            restart_policy: self.restart_policy,
            environment_vars: pair_views(self.environment_vars@),
        }
    }
}

/// The working directory of a process named `name` by default: `name`
/// under `parent_dir`, the parent of the daemon's current directory (the
/// current directory itself when it has no parent), so a sibling of it.
pub open spec fn default_working_directory(parent_dir: Seq<char>, name: Seq<char>) -> Seq<char> {
    join_dir(parent_dir, name)
}

/// The configuration of a process given by name alone.
pub open spec fn default_config(name: Seq<char>, parent_dir: Seq<char>, exe_suffix: Seq<char>) -> ProcessConfigView {
    ProcessConfigView {
        name,
        executable_path: name + exe_suffix,
        working_directory: default_working_directory(parent_dir, name),
        arguments: Seq::<Seq<char>>::empty(),
        restart_policy: ProcessRestartPolicy::spec_default(),
        environment_vars: Seq::<(Seq<char>, Seq<char>)>::empty(),
    }
}

/// `env` with `key` set to `value`: the first entry of that key is
/// replaced, or the pair is added at the end.
pub open spec fn env_set(env: Seq<(Seq<char>, Seq<char>)>, key: Seq<char>, value: Seq<char>) -> Seq<
    (Seq<char>, Seq<char>),
>
    decreases env.len(),
{
    if env.len() == 0 {
        seq![(key, value)]
    } else if env[0].0 == key {
        env.update(0, (key, value))
    } else {
        seq![env[0]] + env_set(env.drop_first(), key, value)
    }
}

proof fn lemma_env_set_at(env: Seq<(Seq<char>, Seq<char>)>, i: int, key: Seq<char>, value: Seq<char>)
    requires
        0 <= i < env.len(),
        env[i].0 == key,
        forall|j: int| 0 <= j < i ==> #[trigger] env[j].0 != key,
    ensures
        env_set(env, key, value) == env.update(i, (key, value)),
    decreases i,
{
    if i > 0 {
        let rest = env.drop_first();
        assert forall|j: int| 0 <= j < i - 1 implies #[trigger] rest[j].0 != key by {
            assert(rest[j] == env[j + 1]);
        }
        assert(env[0].0 != key);
        lemma_env_set_at(rest, i - 1, key, value);
        assert(seq![env[0]] + rest.update(i - 1, (key, value)) =~= env.update(i, (key, value)));
    }
}

proof fn lemma_env_set_absent(env: Seq<(Seq<char>, Seq<char>)>, key: Seq<char>, value: Seq<char>)
    requires
        forall|j: int| 0 <= j < env.len() ==> #[trigger] env[j].0 != key,
    ensures
        env_set(env, key, value) == env.push((key, value)),
    decreases env.len(),
{
    if env.len() > 0 {
        let rest = env.drop_first();
        assert forall|j: int| 0 <= j < rest.len() implies #[trigger] rest[j].0 != key by {
            assert(rest[j] == env[j + 1]);
        }
        assert(env[0].0 != key);
        lemma_env_set_absent(rest, key, value);
        assert(seq![env[0]] + rest.push((key, value)) =~= env.push((key, value)));
    } else {
        assert(seq![(key, value)] =~= env.push((key, value)));
    }
}

/// Index of the first pair whose key is `key`.
fn find_key(env: &Vec<(String, String)>, key: &String) -> (r: Option<usize>)
    ensures
        match r {
            Some(i) => i < env@.len() && pair_views(env@)[i as int].0 == key@ && forall|j: int|
                0 <= j < i ==> #[trigger] pair_views(env@)[j].0 != key@,
            None => forall|j: int|
                0 <= j < env@.len() ==> #[trigger] pair_views(env@)[j].0 != key@,
        },
{
    let mut i: usize = 0;
    while i < env.len()
        invariant
            i <= env@.len(),
            forall|j: int| 0 <= j < i ==> #[trigger] pair_views(env@)[j].0 != key@,
        decreases env@.len() - i,
    {
        if env[i].0 == *key {
            return Some(i);
        }
        i = i + 1;
    }
    None
}

impl ProcessConfig {
    /// A process named `name` with every other field defaulted; `parent_dir`
    /// is the parent of the daemon's current directory (the current directory
    /// itself when it has none), `exe_suffix` the host's suffix of
    /// executables (`.exe` on Windows, else empty).
    pub fn new(name: String, parent_dir: &str, exe_suffix: &str) -> (r: Self)
        ensures
            r@ == default_config(name@, parent_dir@, exe_suffix@),
    {
        let mut executable_path = name.clone();
        executable_path.append(exe_suffix);
        let working_directory = join_dir_str(parent_dir, name.as_str());
        let r = ProcessConfig {
            name,
            executable_path,
            working_directory,
            arguments: Vec::new(),
            restart_policy: ProcessRestartPolicy::default(),
            environment_vars: Vec::new(),
        };
        assert(r@.arguments =~= Seq::<Seq<char>>::empty());
        assert(r@.environment_vars =~= Seq::<(Seq<char>, Seq<char>)>::empty());
        assert(r@.working_directory == default_working_directory(parent_dir@, r@.name));
        r
    }

    pub fn with_executable_path(self, path: String) -> (r: Self)
        ensures
            r@ == (ProcessConfigView { executable_path: path@, ..self@ }),
    {
        ProcessConfig { executable_path: path, ..self }
    }

    pub fn with_working_directory(self, dir: String) -> (r: Self)
        ensures
            r@ == (ProcessConfigView { working_directory: dir@, ..self@ }),
    {
        ProcessConfig { working_directory: dir, ..self }
    }

    pub fn with_arguments(self, args: Vec<String>) -> (r: Self)
        ensures
            r@ == (ProcessConfigView { arguments: views(args@), ..self@ }),
    {
        ProcessConfig { arguments: args, ..self }
    }

    /// Sets environment variable `key` of the child to `value`, replacing an
    /// earlier value of the same key in place.
    pub fn with_environment_var(self, key: String, value: String) -> (r: Self)
        ensures
            r@ == (ProcessConfigView {
                environment_vars: env_set(self@.environment_vars, key@, value@),
                ..self@
            }),
    {
        let mut config = self;
        let ghost env = pair_views(config.environment_vars@);
        let ghost kv = (key@, value@);
        match find_key(&config.environment_vars, &key) {
            Some(i) => {
                proof {
                    lemma_env_set_at(env, i as int, key@, value@);
                }
                config.environment_vars.set(i, (key, value));
                assert(pair_views(config.environment_vars@) =~= env.update(i as int, kv));
            },
            None => {
                proof {
                    lemma_env_set_absent(env, key@, value@);
                }
                config.environment_vars.push((key, value));
                assert(pair_views(config.environment_vars@) =~= env.push(kv));
            },
        }
        config
    }

    /// Where the executable is: its path as given when absolute, else under
    /// the working directory, with `.` and `..` resolved.
    pub fn get_full_executable_path(&self) -> (r: String)
        ensures
            r@ == normalize_path_spec(
                if is_absolute_path(self@.executable_path) {
                    self@.executable_path
                } else {
                    join_path(self@.working_directory, self@.executable_path)
                },
            ),
    {
        if is_absolute(self.executable_path.as_str()) || self.working_directory.unicode_len() == 0 {
            normalize_path(self.executable_path.as_str())
        } else {
            let mut joined = self.working_directory.clone();
            joined.append("/");
            joined.append(self.executable_path.as_str());
            proof {
                reveal_strlit("/");
            }
            assert(joined@ =~= join_path(self@.working_directory, self@.executable_path));
            normalize_path(joined.as_str())
        }
    }

    pub fn with_restart_policy(self, policy: ProcessRestartPolicy) -> (r: Self)
        ensures
            r@ == (ProcessConfigView { restart_policy: policy, ..self@ }),
    {
        ProcessConfig { restart_policy: policy, ..self }
    }
}

/// Why a configuration line was refused; `line` counts from 1.
#[derive(Debug, Clone, Copy, PartialEq, Eq, Structural)]
pub enum ConfigError {
    /// An extended line whose name field is empty.
    MissingName { line: usize },
    /// A max-restarts field that is not an unsigned 32-bit number.
    InvalidMaxRestarts { line: usize },
}

/// Field `k` of an extended line, trimmed; empty when the line has fewer fields.
pub open spec fn field(parts: Seq<Seq<char>>, k: int) -> Seq<char> {
    if k < parts.len() {
        trim(parts[k])
    } else {
        Seq::<char>::empty()
    }
}

/// The meaning of an extended line `t` (already trimmed).
pub open spec fn parse_extended_spec(t: Seq<char>, parent_dir: Seq<char>, exe_suffix: Seq<char>, line: usize) -> Result<
    Option<ProcessConfigView>,
    ConfigError,
> {
    let parts = split_on(t, ':');
    let name = trim(parts[0]);
    let base = default_config(name, parent_dir, exe_suffix);
    let exe = field(parts, 1);
    let dir = field(parts, 2);
    let args = field(parts, 3);
    let max = field(parts, 4);
    if name.len() == 0 {
        Err(ConfigError::MissingName { line })
    } else if max.len() > 0 && parse_u32_spec(max) is None {
        Err(ConfigError::InvalidMaxRestarts { line })
    } else {
        Ok(
            Some(
                ProcessConfigView {
                    executable_path: if exe.len() > 0 {
                        exe
                    } else {
                        base.executable_path
                    },
                    working_directory: if dir.len() > 0 && dir != seq!['.'] {
                        dir
                    } else {
                        base.working_directory
                    },
                    arguments: words(args),
                    restart_policy: if max.len() > 0 {
                        ProcessRestartPolicy {
                            max_restarts: parse_u32_spec(max)->0,
                            ..ProcessRestartPolicy::spec_default()
                        }
                    } else {
                        base.restart_policy
                    },
                    ..base
                },
            ),
        )
    }
}

/// The meaning of configuration line number `line`.
pub open spec fn parse_line_spec(text: Seq<char>, parent_dir: Seq<char>, exe_suffix: Seq<char>, line: usize) -> Result<
    Option<ProcessConfigView>,
    ConfigError,
> {
    let t = trim(text);
    if t.len() == 0 || t[0] == '#' {
        Ok(None)
    } else if t.contains(':') {
        parse_extended_spec(t, parent_dir, exe_suffix, line)
    } else {
        Ok(Some(default_config(t, parent_dir, exe_suffix)))
    }
}

pub fn contains_char(s: &str, c: char) -> (r: bool)
    ensures
        r == s@.contains(c),
{
    let n = s.unicode_len();
    let mut i: usize = 0;
    while i < n
        invariant
            n == s@.len(),
            i <= n,
            forall|j: int| 0 <= j < i ==> s@[j] != c,
        decreases n - i,
    {
        if s.get_char(i) == c {
            return true;
        }
        i = i + 1;
    }
    false
}

pub open spec fn parsed_view(r: Result<Option<ProcessConfig>, ConfigError>) -> Result<
    Option<ProcessConfigView>,
    ConfigError,
> {
    match r {
        Ok(Some(c)) => Ok(Some(c@)),
        Ok(None) => Ok(None),
        Err(e) => Err(e),
    }
}

/// Field `k` of the split line, trimmed, or empty past the last field.
fn field_str(parts: &Vec<String>, k: usize) -> (r: String)
    ensures
        r@ == field(views(parts@), k as int),
{
    if k < parts.len() {
        trim_str(parts[k].as_str())
    } else {
        String::new()
    }
}

/// Index of the configuration named `name`, or -1.
pub open spec fn index_of_name(cs: Seq<ProcessConfigView>, name: Seq<char>) -> int
    decreases cs.len(),
{
    if cs.len() == 0 {
        -1
    } else if cs.last().name == name {
        cs.len() - 1
    } else {
        index_of_name(cs.drop_last(), name)
    }
}

proof fn lemma_index_of_name(cs: Seq<ProcessConfigView>, name: Seq<char>)
    ensures
        -1 <= index_of_name(cs, name) < cs.len(),
        index_of_name(cs, name) >= 0 ==> cs[index_of_name(cs, name)].name == name,
        index_of_name(cs, name) < 0 ==> forall|i: int|
            0 <= i < cs.len() ==> #[trigger] cs[i].name != name,
    decreases cs.len(),
{
    if cs.len() > 0 && cs.last().name != name {
        lemma_index_of_name(cs.drop_last(), name);
        if index_of_name(cs, name) < 0 {
            assert forall|i: int| 0 <= i < cs.len() implies #[trigger] cs[i].name != name by {
                if i < cs.len() - 1 {
                    assert(cs[i] == cs.drop_last()[i]);
                }
            }
        }
    }
}

/// `cs` with `c` added, replacing the configuration of the same name if any.
pub open spec fn upsert(cs: Seq<ProcessConfigView>, c: ProcessConfigView) -> Seq<ProcessConfigView> {
    let i = index_of_name(cs, c.name);
    if i >= 0 {
        cs.update(i, c)
    } else {
        cs.push(c)
    }
}

/// What a load of `lines` yields.
pub struct ParsedLines {
    /// Configurations in order of first appearance; a later line for a name
    /// replaces the earlier one in place.
    pub configs: Seq<ProcessConfigView>,
    /// Numbers of the lines that redefined a name already seen.
    pub duplicate_lines: Seq<usize>,
    /// Errors of the refused lines, in order; those lines are skipped.
    pub errors: Seq<ConfigError>,
}

/// The result of parsing `lines`, where line `k` is `lines[k - 1]`.
pub open spec fn parse_lines_spec(lines: Seq<Seq<char>>, parent_dir: Seq<char>, exe_suffix: Seq<char>) -> ParsedLines
    decreases lines.len(),
{
    if lines.len() == 0 {
        ParsedLines {
            configs: Seq::<ProcessConfigView>::empty(),
            duplicate_lines: Seq::<usize>::empty(),
            errors: Seq::<ConfigError>::empty(),
        }
    } else {
        let p = parse_lines_spec(lines.drop_last(), parent_dir, exe_suffix);
        match parse_line_spec(lines.last(), parent_dir, exe_suffix, lines.len() as usize) {
            Err(e) => ParsedLines { errors: p.errors.push(e), ..p },
            Ok(None) => p,
            Ok(Some(c)) => ParsedLines {
                configs: upsert(p.configs, c),
                duplicate_lines: if index_of_name(p.configs, c.name) >= 0 {
                    p.duplicate_lines.push(lines.len() as usize)
                } else {
                    p.duplicate_lines
                },
                ..p
            },
        }
    }
}

/// The configurations of one load: names are unique.
pub struct ProcessConfigs {
    configs: Vec<ProcessConfig>,
    duplicate_lines: Vec<usize>,
    errors: Vec<ConfigError>,
}

impl View for ProcessConfigs {
    type V = ParsedLines;

    closed spec fn view(&self) -> ParsedLines {
        ParsedLines {
            configs: self.configs@.map_values(|c: ProcessConfig| c@),
            duplicate_lines: self.duplicate_lines@,
            errors: self.errors@,
        }
    }
}

impl ProcessConfigs {
    pub fn len(&self) -> (r: usize)
        ensures
            r == self@.configs.len(),
    {
        self.configs.len()
    }

    fn find(&self, name: &String) -> (r: Option<usize>)
        ensures
            match r {
                Some(i) => i as int == index_of_name(self@.configs, name@) && i
                    < self@.configs.len(),
                None => index_of_name(self@.configs, name@) < 0,
            },
    {
        let ghost cs = self@.configs;
        proof {
            lemma_index_of_name(cs, name@);
        }
        let mut i: usize = self.configs.len();
        assert(cs.subrange(0, i as int) =~= cs);
        while i > 0
            invariant
                i <= cs.len(),
                cs == self@.configs,
                index_of_name(cs, name@) == index_of_name(cs.subrange(0, i as int), name@),
            decreases i,
        {
            let ghost prefix = cs.subrange(0, i as int);
            assert(prefix.drop_last() =~= cs.subrange(0, i - 1));
            assert(prefix.last() == self.configs@[i - 1]@);
            if self.configs[i - 1].name == *name {
                return Some(i - 1);
            }
            i = i - 1;
        }
        None
    }

    /// Whether a configuration is named `name`.
    pub fn contains_key(&self, name: &str) -> (r: bool)
        ensures
            r == (index_of_name(self@.configs, name@) >= 0),
    {
        let key = String::from_str(name);
        self.find(&key).is_some()
    }

    /// The configuration named `name`, if any.
    pub fn get(&self, name: &str) -> (r: Option<&ProcessConfig>)
        ensures
            r is Some == (index_of_name(self@.configs, name@) >= 0),
            r is Some ==> r->0@ == self@.configs[index_of_name(self@.configs, name@)],
    {
        let key = String::from_str(name);
        match self.find(&key) {
            Some(i) => Some(&self.configs[i]),
            None => None,
        }
    }

    /// The configurations, in order of first appearance.
    pub fn configs(&self) -> (r: &Vec<ProcessConfig>)
        ensures
            r@.map_values(|c: ProcessConfig| c@) == self@.configs,
    {
        &self.configs
    }

    /// The configurations, in order of first appearance, taken out.
    pub fn into_configs(self) -> (r: Vec<ProcessConfig>)
        ensures
            r@.map_values(|c: ProcessConfig| c@) == self@.configs,
    {
        self.configs
    }

    /// Numbers of the lines that redefined a name seen before.
    pub fn duplicate_lines(&self) -> (r: &Vec<usize>)
        ensures
            r@ == self@.duplicate_lines,
    {
        &self.duplicate_lines
    }

    /// Errors of the lines that were refused and skipped.
    pub fn errors(&self) -> (r: &Vec<ConfigError>)
        ensures
            r@ == self@.errors,
    {
        &self.errors
    }
}

impl ProcessConfigs {
    fn new() -> (r: Self)
        ensures
            r@ == parse_lines_spec(Seq::<Seq<char>>::empty(), Seq::<char>::empty(), Seq::<char>::empty()),
    {
        let r = ProcessConfigs { configs: Vec::new(), duplicate_lines: Vec::new(), errors: Vec::new() };
        assert(r@.configs =~= Seq::<ProcessConfigView>::empty());
        assert(r@.errors =~= Seq::<ConfigError>::empty());
        r
    }

    /// Adds `config`, replacing the one of the same name; a replacement
    /// records `line` as a duplicate.
    fn insert_config(&mut self, config: ProcessConfig, line: usize)
        ensures
            final(self)@.configs == upsert(old(self)@.configs, config@),
            final(self)@.duplicate_lines == if index_of_name(old(self)@.configs, config@.name)
                >= 0 {
                old(self)@.duplicate_lines.push(line)
            } else {
                old(self)@.duplicate_lines
            },
            final(self)@.errors == old(self)@.errors,
    {
        let ghost before = self@.configs;
        let ghost c = config@;
        match self.find(&config.name) {
            Some(i) => {
                self.configs.set(i, config);
                self.duplicate_lines.push(line);
                assert(self@.configs =~= before.update(i as int, c));
            },
            None => {
                self.configs.push(config);
                assert(self@.configs =~= before.push(c));
            },
        }
    }
}

/// Reads configuration text for one host.
pub struct ConfigParser {
    config_file_path: String,
    parent_dir: String,
    exe_suffix: String,
    last_modified: Option<u64>,
}

impl ConfigParser {
    pub closed spec fn spec_parent_dir(self) -> Seq<char> {
        self.parent_dir@
    }

    pub closed spec fn spec_exe_suffix(self) -> Seq<char> {
        self.exe_suffix@
    }

    pub closed spec fn spec_path(self) -> Seq<char> {
        self.config_file_path@
    }

    pub closed spec fn spec_last_modified(self) -> Option<u64> {
        self.last_modified
    }

    /// A parser for the file at `config_path`. Default working directories
    /// go under `parent_dir`, the parent of the daemon's current directory;
    /// executables on this host carry `exe_suffix`.
    pub fn new(config_path: String, parent_dir: String, exe_suffix: String) -> (r: Self)
        ensures
            r.spec_path() == config_path@,
            r.spec_parent_dir() == parent_dir@,
            r.spec_exe_suffix() == exe_suffix@,
            r.spec_last_modified() is None,
    {
        ConfigParser { config_file_path: config_path, parent_dir, exe_suffix, last_modified: None }
    }

    pub fn get_config_file_path(&self) -> (r: &str)
        ensures
            r@ == self.spec_path(),
    {
        self.config_file_path.as_str()
    }

    /// Whether the file, last modified at `current` (when that is known),
    /// may differ from what was loaded last. When either time is unknown it
    /// is taken to have changed.
    pub fn has_config_changed(&self, current: Option<u64>) -> (r: bool)
        ensures
            r == match (self.spec_last_modified(), current) {
                (Some(last), Some(now)) => now > last,
                _ => true,
            },
    {
        match (self.last_modified, current) {
            (Some(last), Some(now)) => now > last,
            _ => true,
        }
    }

    fn parse_simple_format(&self, name: &str) -> (r: ProcessConfig)
        ensures
            r@ == default_config(name@, self.spec_parent_dir(), self.spec_exe_suffix()),
    {
        ProcessConfig::new(String::from_str(name), self.parent_dir.as_str(), self.exe_suffix.as_str())
    }

    fn parse_extended_format(&self, line: &str, line_number: usize) -> (r: Result<
        Option<ProcessConfig>,
        ConfigError,
    >)
        ensures
            parsed_view(r) == parse_extended_spec(line@, self.spec_parent_dir(), self.spec_exe_suffix(), line_number),
    {
        let ghost spec_parts = split_on(line@, ':');
        let parts = split_str(line, ':');
        proof {
            crate::text::lemma_split_on_nonempty(line@, ':');
        }
        let name = trim_str(parts[0].as_str());
        if name.unicode_len() == 0 {
            return Err(ConfigError::MissingName { line: line_number });
        }
        let ghost base = default_config(name@, self.spec_parent_dir(), self.spec_exe_suffix());
        let mut config = ProcessConfig::new(name, self.parent_dir.as_str(), self.exe_suffix.as_str());
        let exe = field_str(&parts, 1);
        let dir = field_str(&parts, 2);
        let args = field_str(&parts, 3);
        let max = field_str(&parts, 4);
        if max.unicode_len() > 0 {
            match parse_u32(max.as_str()) {
                Some(m) => {
                    let d = ProcessRestartPolicy::default();
                    config = config.with_restart_policy(ProcessRestartPolicy { max_restarts: m, ..d });
                },
                None => {
                    return Err(ConfigError::InvalidMaxRestarts { line: line_number });
                },
            }
        }
        if exe.unicode_len() > 0 {
            config = config.with_executable_path(exe);
        }
        if dir.unicode_len() > 0 {
            let is_dot = dir.unicode_len() == 1 && dir.as_str().get_char(0) == '.';
            if is_dot {
                assert(dir@ =~= seq!['.']);
            } else {
                assert(dir@ != seq!['.']);
                config = config.with_working_directory(dir);
            }
        }
        config = config.with_arguments(split_words(args.as_str()));
        let r = Ok(Some(config));
        assert(parsed_view(r) == parse_extended_spec(line@, self.spec_parent_dir(), self.spec_exe_suffix(), line_number));
        r
    }

    /// Parses line number `line_number` of a configuration.
    pub fn parse_line(&self, line: &str, line_number: usize) -> (r: Result<
        Option<ProcessConfig>,
        ConfigError,
    >)
        ensures
            parsed_view(r) == parse_line_spec(line@, self.spec_parent_dir(), self.spec_exe_suffix(), line_number),
    {
        let t = trim_str(line);
        if t.unicode_len() == 0 || t.as_str().get_char(0) == '#' {
            return Ok(None);
        }
        if contains_char(t.as_str(), ':') {
            self.parse_extended_format(t.as_str(), line_number)
        } else {
            Ok(Some(self.parse_simple_format(t.as_str())))
        }
    }

    /// Parses the lines of the configuration file, last modified at
    /// `modified`. Refused lines are skipped and their errors kept. The load
    /// fails, with the first error, only when lines were refused and none
    /// yielded a configuration; on success the parser remembers `modified`.
    pub fn load_config(&mut self, lines: &Vec<String>, modified: Option<u64>) -> (r: Result<
        ProcessConfigs,
        ConfigError,
    >)
        ensures
            final(self).spec_exe_suffix() == old(self).spec_exe_suffix(),
            final(self).spec_parent_dir() == old(self).spec_parent_dir(),
            final(self).spec_path() == old(self).spec_path(),
            ({
                let p = parse_lines_spec(views(lines@), old(self).spec_parent_dir(), old(self).spec_exe_suffix());
                if p.configs.len() == 0 && p.errors.len() > 0 {
                    r == Err::<ProcessConfigs, ConfigError>(p.errors[0])
                        && final(self).spec_last_modified() == old(self).spec_last_modified()
                } else {
                    match r {
                        Ok(c) => c@ == p && final(self).spec_last_modified() == modified,
                        Err(_) => false,
                    }
                }
            }),
    {
        let ghost all = views(lines@);
        let mut configs = ProcessConfigs::new();
        let mut k: usize = 0;
        assert(all.subrange(0, 0) =~= Seq::<Seq<char>>::empty());
        while k < lines.len()
            invariant
                k <= lines@.len(),
                all == views(lines@),
                configs@ == parse_lines_spec(all.subrange(0, k as int), self.spec_parent_dir(), self.spec_exe_suffix()),
            decreases lines@.len() - k,
        {
            let ghost prefix = all.subrange(0, (k + 1) as int);
            assert(prefix.drop_last() =~= all.subrange(0, k as int));
            assert(prefix.last() == lines@[k as int]@);
            match self.parse_line(lines[k].as_str(), k + 1) {
                Err(e) => {
                    configs.errors.push(e);
                },
                Ok(None) => {},
                Ok(Some(c)) => {
                    configs.insert_config(c, k + 1);
                },
            }
            assert(configs@ =~= parse_lines_spec(prefix, self.spec_parent_dir(), self.spec_exe_suffix()));
            k = k + 1;
        }
        assert(all.subrange(0, k as int) =~= all);
        if configs.configs.len() == 0 && configs.errors.len() > 0 {
            return Err(configs.errors[0]);
        }
        self.last_modified = modified;
        Ok(configs)
    }
}

pub open spec fn names_distinct_nonempty(cs: Seq<ProcessConfigView>) -> bool {
    &&& forall|i: int| 0 <= i < cs.len() ==> (#[trigger] cs[i]).name.len() > 0
    &&& forall|i: int, j: int| 0 <= i < j < cs.len() ==> #[trigger] cs[i].name != #[trigger] cs[j].name
}

proof fn lemma_upsert_keeps_names_distinct(cs: Seq<ProcessConfigView>, c: ProcessConfigView)
    requires
        names_distinct_nonempty(cs),
        c.name.len() > 0,
    ensures
        names_distinct_nonempty(upsert(cs, c)),
{
    lemma_index_of_name(cs, c.name);
    let u = upsert(cs, c);
    let k = index_of_name(cs, c.name);
    assert forall|i: int, j: int| 0 <= i < j < u.len() implies #[trigger] u[i].name
        != #[trigger] u[j].name by {
        if k >= 0 {
            assert(u[i].name == cs[i].name && u[j].name == cs[j].name);
        } else if j == cs.len() {
            assert(u[i] == cs[i]);
        } else {
            assert(u[i] == cs[i] && u[j] == cs[j]);
        }
    }
    assert forall|i: int| 0 <= i < u.len() implies (#[trigger] u[i]).name.len() > 0 by {
        if k < 0 && i < cs.len() {
            assert(u[i] == cs[i]);
        }
    }
}

/// Every configuration that a load yields has a non-empty name, and no two
/// share a name.
pub proof fn lemma_loaded_names_distinct(lines: Seq<Seq<char>>, parent_dir: Seq<char>, exe_suffix: Seq<char>)
    ensures
        names_distinct_nonempty(parse_lines_spec(lines, parent_dir, exe_suffix).configs),
    decreases lines.len(),
{
    if lines.len() > 0 {
        lemma_loaded_names_distinct(lines.drop_last(), parent_dir, exe_suffix);
        let p = parse_lines_spec(lines.drop_last(), parent_dir, exe_suffix);
        match parse_line_spec(lines.last(), parent_dir, exe_suffix, lines.len() as usize) {
            Ok(Some(c)) => {
                lemma_upsert_keeps_names_distinct(p.configs, c);
            },
            _ => {},
        }
    } else {
        assert(parse_lines_spec(lines, parent_dir, exe_suffix).configs =~= Seq::<ProcessConfigView>::empty());
    }
}

/// `k` separators in a row.
pub open spec fn colons(k: nat) -> Seq<char>
    decreases k,
{
    if k == 0 {
        Seq::<char>::empty()
    } else {
        colons((k - 1) as nat).push(':')
    }
}

proof fn lemma_split_without_separator(s: Seq<char>)
    requires
        !s.contains(':'),
    ensures
        split_on(s, ':') == seq![s],
    decreases s.len(),
{
    if s.len() == 0 {
        assert(split_on(s, ':') =~~= seq![s]);
    } else {
        let p = s.drop_last();
        assert(!p.contains(':')) by {
            if p.contains(':') {
                let i = choose|i: int| 0 <= i < p.len() && p[i] == ':';
                assert(s[i] == ':');
            }
        }
        lemma_split_without_separator(p);
        assert(s.last() != ':') by {
            if s.last() == ':' {
                assert(s[s.len() - 1] == ':');
            }
        }
        assert(p.push(s.last()) =~= s);
        assert(split_on(s, ':') =~~= seq![s]);
    }
}

proof fn lemma_split_trailing_colons(name: Seq<char>, k: nat)
    requires
        !name.contains(':'),
    ensures
        split_on(name + colons(k), ':') =~~= seq![name] + Seq::new(k, |i: int| Seq::<char>::empty()),
    decreases k,
{
    if k == 0 {
        assert(name + colons(0) =~= name);
        lemma_split_without_separator(name);
    } else {
        lemma_split_trailing_colons(name, (k - 1) as nat);
        let s = name + colons(k);
        assert(s.drop_last() =~= name + colons((k - 1) as nat));
        assert(s.last() == ':');
    }
}

proof fn lemma_trim_start_shorter(s: Seq<char>)
    ensures
        crate::text::trim_start(s).len() <= s.len(),
    decreases s.len(),
{
    if s.len() > 0 && crate::text::is_space(s[0]) {
        lemma_trim_start_shorter(s.drop_first());
    }
}

proof fn lemma_trim_end_shorter(s: Seq<char>)
    ensures
        crate::text::trim_end(s).len() <= s.len(),
    decreases s.len(),
{
    if s.len() > 0 && crate::text::is_space(s.last()) {
        lemma_trim_end_shorter(s.drop_last());
    }
}

/// A name written in the extended form with every other field left empty
/// (`name:`, `name::`, ...) means the same as the name alone.
pub proof fn lemma_extended_defaults_match_simple(
    name: Seq<char>,
    k: nat,
    parent_dir: Seq<char>, exe_suffix: Seq<char>,
    line: usize,
)
    requires
        name.len() > 0,
        trim(name) == name,
        !name.contains(':'),
        name[0] != '#',
        k >= 1,
    ensures
        parse_line_spec(name, parent_dir, exe_suffix, line) == Ok::<Option<ProcessConfigView>, ConfigError>(
            Some(default_config(name, parent_dir, exe_suffix)),
        ),
        parse_line_spec(name + colons(k), parent_dir, exe_suffix, line) == parse_line_spec(
            name,
            parent_dir,
            exe_suffix,
            line,
        ),
{
    lemma_trim_start_shorter(name);
    lemma_trim_end_shorter(crate::text::trim_start(name));
    if crate::text::is_space(name[0]) {
        lemma_trim_start_shorter(name.drop_first());
        assert(false);
    }
    let t = name + colons(k);
    assert(t[0] == name[0]);
    assert(crate::text::trim_start(t) == t);
    assert(colons(k).last() == ':');
    assert(t.last() == ':');
    assert(trim(t) == t);
    assert(t[t.len() - 1] == ':');
    assert(t.contains(':'));
    lemma_split_trailing_colons(name, k);
    let parts = split_on(t, ':');
    assert(parts[0] == name);
    assert forall|j: int| 1 <= j < parts.len() implies #[trigger] parts[j] == Seq::<char>::empty() by {
    }
    assert(trim(Seq::<char>::empty()) == Seq::<char>::empty());
    assert(words(Seq::<char>::empty()) == Seq::<Seq<char>>::empty());
    let base = default_config(name, parent_dir, exe_suffix);
    assert(parse_extended_spec(t, parent_dir, exe_suffix, line) == Ok::<
        Option<ProcessConfigView>,
        ConfigError,
    >(Some(base)));
}

} // verus!
