//! Project configuration: the project name, the sync targets to choose
//! from, the input globs that find assets, and the codegen outputs.

use vstd::prelude::*;

use crate::codegen::CodegenFormat;
use crate::strutil::{find_last_char, lemma_find_last_props, push_char, spec_find_last, str_eq};

verus! {

/// The sync target types a target config can name.
#[derive(Clone, Copy, Debug, PartialEq, Eq, Structural)]
pub enum TargetType {
    Local,
    Roblox,
}

/// The default state-file key of a target type.
pub open spec fn spec_target_type_key(t: TargetType) -> Seq<char> {
    match t {
        TargetType::Local => "local"@,
        TargetType::Roblox => "roblox"@,
    }
}

impl TargetType {
    /// The default key of this target type, used in the CLI and in state
    /// files when a target does not set its own.
    pub fn to_key(&self) -> (r: String)
        ensures
            r@ == spec_target_type_key(*self),
    {
        match self {
            TargetType::Local => "local".to_owned(),
            TargetType::Roblox => "roblox".to_owned(),
        }
    }
}

/// One sync target: a unique key plus the target type that picks the sync
/// strategy.
#[derive(Clone, Debug)]
pub struct TargetConfig {
    /// Unique identifier for this target in the CLI and state files.
    pub key: String,
    /// The sync target type.
    pub target_type: TargetType,
}

/// The mathematical value of a `TargetConfig`.
pub struct TargetConfigView {
    pub key: Seq<char>,
    pub target_type: TargetType,
}

impl View for TargetConfig {
    type V = TargetConfigView;

    open spec fn view(&self) -> TargetConfigView {
        TargetConfigView { key: self.key@, target_type: self.target_type }
    }
}

impl TargetConfig {
    /// Builds a target config, defaulting an omitted key to the target
    /// type's own key.
    pub fn new(key: Option<String>, target_type: TargetType) -> (r: TargetConfig)
        ensures
            r@.target_type == target_type,
            r@.key == match key {
                Some(k) => k@,
                None => spec_target_type_key(target_type),
            },
    {
        let key = match key {
            Some(k) => k,
            None => target_type.to_key(),
        };
        TargetConfig { key, target_type }
    }

    /// A copy of this target config.
    pub fn duplicate(&self) -> (r: TargetConfig)
        ensures
            r@ == self@,
    {
        TargetConfig { key: self.key.clone(), target_type: self.target_type }
    }
}

/// One input: a glob matching files that hold assets to sync.
#[derive(Clone, Debug)]
pub struct InputConfig {
    pub glob: String,
}

/// One codegen output: where to write it, its format, and how idents are
/// transformed into keys.
#[derive(Clone, Debug)]
pub struct CodegenConfig {
    /// The path this output is written to, relative to the config file.
    pub path: String,
    /// The format to generate.
    pub format: CodegenFormat,
    /// A leading ident path to remove from the output keys.
    pub strip_prefix: Option<String>,
    /// Removes file extensions from the output keys.
    pub strip_extension: bool,
    /// Emits one flat key per asset instead of a nested tree.
    pub flatten: bool,
}

/// The mathematical value of a `CodegenConfig`.
pub struct CodegenConfigView {
    pub path: Seq<char>,
    pub format: CodegenFormat,
    pub strip_prefix: Option<Seq<char>>,
    pub strip_extension: bool,
    pub flatten: bool,
}

impl View for CodegenConfig {
    type V = CodegenConfigView;

    open spec fn view(&self) -> CodegenConfigView {
        CodegenConfigView {
            path: self.path@,
            format: self.format,
            strip_prefix: match self.strip_prefix {
                Some(ref p) => Some(p@),
                None => None,
            },
            strip_extension: self.strip_extension,
            flatten: self.flatten,
        }
    }
}

/// The default for `CodegenConfig::strip_extension`.
pub fn default_strip_extension() -> (r: bool)
    ensures
        r == true,
{
    true
}

/// The project configuration, as read from the project's config file.
#[derive(Clone, Debug)]
pub struct Config {
    /// A name for this project, used as a prefix during local syncs.
    pub name: String,
    /// The targets to choose from when syncing.
    pub targets: Vec<TargetConfig>,
    /// The searches that find assets to sync.
    pub inputs: Vec<InputConfig>,
    /// The codegen outputs to generate.
    pub codegens: Vec<CodegenConfig>,
    /// The path the config came from; other paths are relative to its
    /// folder.
    pub file_path: String,
}

/// Errors in the project configuration; both abort before any sync work
/// starts.
#[derive(Clone, Copy, Debug, PartialEq, Eq, Structural)]
pub enum ConfigError {
    /// Two targets use the same key.
    DuplicateKeys,
    /// No target has the requested key.
    UnknownTarget,
}

/// The keys of a target list.
pub open spec fn spec_target_keys(ts: Seq<TargetConfig>) -> Seq<Seq<char>> {
    ts.map_values(|t: TargetConfig| t@.key)
}

/// True iff no two targets share a key.
pub open spec fn spec_unique_target_keys(ts: Seq<TargetConfig>) -> bool {
    forall|i: int, j: int| 0 <= i < j < ts.len() ==> ts[i]@.key != ts[j]@.key
}

/// The first target with the given key.
pub open spec fn spec_find_target(ts: Seq<TargetConfig>, key: Seq<char>) -> Option<TargetConfigView>
    decreases ts.len(),
{
    if ts.len() == 0 {
        None
    } else if ts[0]@.key == key {
        Some(ts[0]@)
    } else {
        spec_find_target(ts.skip(1), key)
    }
}

impl Config {
    /// Rejects a configuration whose targets share a key; such a
    /// configuration is fatal before any sync work starts.
    pub fn validate(&self) -> (r: Result<(), ConfigError>)
        ensures
            match r {
                Ok(()) => spec_unique_target_keys(self.targets@),
                Err(e) => e == ConfigError::DuplicateKeys && !spec_unique_target_keys(
                    self.targets@,
                ),
            },
    {
        let n = self.targets.len();
        for i in 0..n
            invariant
                n == self.targets.len(),
                forall|a: int, b: int| 0 <= a < b < n && a < i ==> self.targets@[a]@.key
                    != self.targets@[b]@.key,
        {
            for j in (i + 1)..n
                invariant
                    n == self.targets.len(),
                    i < n,
                    forall|a: int, b: int| 0 <= a < b < n && a < i ==> self.targets@[a]@.key
                        != self.targets@[b]@.key,
                    forall|b: int| i < b < j ==> self.targets@[i as int]@.key
                        != self.targets@[b]@.key,
            {
                if str_eq(self.targets[i].key.as_str(), self.targets[j].key.as_str()) {
                    return Err(ConfigError::DuplicateKeys);
                }
            }
        }
        Ok(())
    }

    /// The first target with the given key, or `UnknownTarget`.
    pub fn find_target(&self, key: &str) -> (r: Result<&TargetConfig, ConfigError>)
        ensures
            match r {
                Ok(t) => spec_find_target(self.targets@, key@) == Some(t@),
                Err(e) => e == ConfigError::UnknownTarget && spec_find_target(
                    self.targets@,
                    key@,
                ) is None,
            },
    {
        let n = self.targets.len();
        proof {
            assert(self.targets@.skip(0) =~= self.targets@);
        }
        for i in 0..n
            invariant
                n == self.targets.len(),
                spec_find_target(self.targets@, key@) == spec_find_target(
                    self.targets@.skip(i as int),
                    key@,
                ),
        {
            proof {
                assert(self.targets@.skip(i as int)[0] == self.targets@[i as int]);
                assert(self.targets@.skip(i as int).skip(1) =~= self.targets@.skip(i + 1));
            }
            if str_eq(self.targets[i].key.as_str(), key) {
                return Ok(&self.targets[i]);
            }
        }
        proof {
            assert(self.targets@.skip(n as int).len() == 0);
        }
        Err(ConfigError::UnknownTarget)
    }

    /// The folder holding the config file; other project paths are
    /// resolved against it.
    pub fn root_path(&self) -> (r: String)
        ensures
            r@ == spec_parent_dir(self.file_path@),
    {
        parent_dir(self.file_path.as_str())
    }
}

/// The parent directory of a path: everything before its last `/`; `/` for
/// an entry directly under the root, empty for a bare file name.
pub open spec fn spec_parent_dir(s: Seq<char>) -> Seq<char> {
    match spec_find_last(s, '/') {
        Some(i) => if i > 0 {
            s.take(i)
        } else {
            s.take(1)
        },
        None => Seq::empty(),
    }
}

/// Computes the parent directory of a path.
pub fn parent_dir(s: &str) -> (r: String)
    ensures
        r@ == spec_parent_dir(s@),
{
    match find_last_char(s, '/') {
        Some(i) => {
            proof {
                lemma_find_last_props(s@, '/');
            }
            if i > 0 {
                let p = s.substring_char(0, i);
                proof {
                    assert(p@ =~= s@.take(i as int));
                }
                p.to_owned()
            } else {
                let p = s.substring_char(0, 1);
                proof {
                    assert(p@ =~= s@.take(1));
                }
                p.to_owned()
            }
        },
        None => String::new(),
    }
}

/// Joining `path` to `base`: `path` unchanged when absolute, otherwise
/// `base` and `path` with exactly one `/` between them.
pub open spec fn spec_joined(base: Seq<char>, path: Seq<char>) -> Seq<char> {
    if path.len() > 0 && path[0] == '/' {
        path
    } else if base.len() > 0 && base.last() == '/' {
        base + path
    } else {
        base + seq!['/'] + path
    }
}

/// Makes a relative path absolute by joining it to `base`.
pub fn make_absolute(path: &mut String, base: &str)
    ensures
        final(path)@ == spec_joined(base@, old(path)@),
{
    let n = path.as_str().unicode_len();
    let is_absolute = if n > 0 {
        path.as_str().get_char(0) == '/'
    } else {
        false
    };
    if !is_absolute {
        let bn = base.unicode_len();
        let mut joined = base.to_owned();
        let ends_with_sep = if bn > 0 {
            base.get_char(bn - 1) == '/'
        } else {
            false
        };
        if !ends_with_sep {
            push_char(&mut joined, '/');
        }
        joined.append(path.as_str());
        proof {
            assert(joined@ =~= spec_joined(base@, path@));
        }
        *path = joined;
    }
}

/// The path of the config file inside a project folder.
pub fn config_file_in_folder(folder: &str) -> (r: String)
    ensures
        r@ == spec_joined(folder@, "runway.toml"@),
{
    let mut name = "runway.toml".to_owned();
    make_absolute(&mut name, folder);
    name
}

} // verus!
