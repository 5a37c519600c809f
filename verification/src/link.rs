//! Links from a path to a source: how they are made, where each entry of
//! the source goes, and which paths removing one leaves behind.

use vstd::prelude::*;

use crate::env::Env;
use crate::path::{spec_join, spec_untildefy, ComponentView, FilePath};
use crate::source::SourcePath;
use crate::state::State;

verus! {

/// How a link is made.
#[derive(Clone, Copy, Debug, PartialEq, Eq, Structural)]
pub enum LinkMethod {
    /// Copy the source.
    Copy,
    /// Make a symlink to the source (the default).
    SoftLink,
    /// Make a hard link to the source.
    HardLink,
}

impl Default for LinkMethod {
    fn default() -> (r: LinkMethod)
        ensures
            r == LinkMethod::SoftLink,
    {
        LinkMethod::SoftLink
    }
}

impl LinkMethod {
    /// How the method is shown.
    pub fn label(&self) -> (r: &'static str)
        ensures
            r@ == match *self {
                LinkMethod::Copy => "(copy)"@,
                LinkMethod::HardLink => "(hard link)"@,
                LinkMethod::SoftLink => "(soft link)"@,
            },
    {
        match self {
            LinkMethod::Copy => "(copy)",
            LinkMethod::HardLink => "(hard link)",
            LinkMethod::SoftLink => "(soft link)",
        }
    }
}

/// What to do with an entry of a link's source.
#[derive(Debug, PartialEq, Eq)]
pub enum LinkAction {
    /// Leave it: the module named here owns the path it goes to.
    Owned(String),
    /// Leave it: a module owns the path it goes to.
    InUse,
    /// Create the directory at this path.
    Directory(FilePath),
    /// Create a file at this path by the link's method.
    File(FilePath),
}

/// A link of a module: the path it is created at, its source, and how it
/// is made.
#[derive(Debug, PartialEq, Eq)]
pub struct Link {
    pub module: String,
    pub path: FilePath,
    pub source: SourcePath,
    pub method: LinkMethod,
}

/// Where the entry `rel` of a source linked at `base` goes: `base` itself
/// for the source's top, else `base` joined with `rel`.
pub open spec fn entry_target(base: Seq<ComponentView>, rel: Seq<ComponentView>) -> Seq<ComponentView> {
    if rel.len() == 0 {
        base
    } else {
        spec_join(base, rel)
    }
}

/// Where an entry of a source goes.
fn target_of(base: &FilePath, rel: &FilePath) -> (r: FilePath)
    ensures
        r@ == entry_target(base@, rel@),
{
    if rel.len() == 0 {
        base.clone()
    } else {
        base.join(rel)
    }
}

impl Link {
    /// The link of `module` at `path` to `source`, made by `method`.
    pub fn new(module: &str, path: FilePath, source: SourcePath, method: LinkMethod) -> (r: Link)
        ensures
            r.module@ == module@,
            r.path@ == path@,
            r.source == source,
            r.method == method,
    {
        Link { module: module.to_owned(), path, source, method }
    }

    /// The name of the source.
    pub fn source_name(&self) -> (r: &str)
        ensures
            r@ == self.source.name@,
    {
        self.source.name.as_str()
    }

    /// What to do with the entry `rel` of the source: nothing if a module
    /// owns the path it goes to, else create a directory or a file there.
    pub fn entry_action(&self, state: &State, rel: &FilePath, is_dir: bool) -> (r: LinkAction)
        requires
            state.wf(),
        ensures
            match r {
                LinkAction::Owned(m) => state@.owners.contains_key(entry_target(self.path@, rel@))
                    && state@.owners[entry_target(self.path@, rel@)].0 == m@,
                LinkAction::Directory(p) => p@ == entry_target(self.path@, rel@) && is_dir,
                LinkAction::File(p) => p@ == entry_target(self.path@, rel@) && !is_dir,
                LinkAction::InUse => false,
            },
            !(r is Owned) ==> !state@.owners.contains_key(entry_target(self.path@, rel@)),
    {
        let target = target_of(&self.path, rel);
        match state.owner(&target) {
            Some(module) => LinkAction::Owned(module),
            None => if is_dir {
                LinkAction::Directory(target)
            } else {
                LinkAction::File(target)
            },
        }
    }

    /// The paths to try to remove, in order, once the link's own path is
    /// gone: the path and then each of its parents, for as long as they
    /// can be removed.
    pub fn disable(&self) -> (r: Vec<FilePath>)
        ensures
            r@.len() == self.path@.len(),
            forall|i: int|
                0 <= i < r@.len() ==> (#[trigger] r@[i])@ == self.path@.subrange(
                    0,
                    self.path@.len() - i,
                ),
    {
        let prefixes = self.path.ancestors();
        let mut r: Vec<FilePath> = Vec::new();
        let n = self.path.len();
        if n == 0 {
            return r;
        }
        r.push(self.path.clone());
        let mut k: usize = prefixes.len();
        while k > 0
            invariant
                n == self.path@.len(),
                n > 0,
                prefixes@.len() == n - 1,
                forall|i: int| 0 <= i < prefixes@.len() ==> (#[trigger] prefixes@[i])@ == self.path@.subrange(0, i + 1),
                k <= prefixes@.len(),
                r@.len() == n - k,
                forall|i: int|
                    0 <= i < r@.len() ==> (#[trigger] r@[i])@ == self.path@.subrange(
                        0,
                        self.path@.len() - i,
                    ),
            decreases k,
        {
            k = k - 1;
            r.push(prefixes[k].clone());
        }
        r
    }
}

/// A file entry of a module: a path and its source.
#[derive(Debug, PartialEq, Eq)]
pub struct ModuleFile {
    pub path: FilePath,
    pub source: SourcePath,
}

impl ModuleFile {
    /// The entry at `path` with the source `source`.
    pub fn new(path: FilePath, source: SourcePath) -> (r: ModuleFile)
        ensures
            r.path@ == path@,
            r.source == source,
    {
        ModuleFile { path, source }
    }

    /// What to do with the entry `rel` of the source: nothing if a module
    /// owns the path it goes to (below the entry's path with `~` standing
    /// for the home directory), else create a directory or a file there.
    pub fn entry_action(&self, env: &Env, state: &State, rel: &FilePath, is_dir: bool) -> (r: LinkAction)
        requires
            state.wf(),
        ensures
            match r {
                LinkAction::InUse => state@.paths.contains(
                    entry_target(spec_untildefy(self.path@, env@.home), rel@),
                ),
                LinkAction::Owned(_) => false,
                LinkAction::Directory(p) => p@ == entry_target(spec_untildefy(self.path@, env@.home), rel@)
                    && is_dir && !state@.paths.contains(p@),
                LinkAction::File(p) => p@ == entry_target(spec_untildefy(self.path@, env@.home), rel@)
                    && !is_dir && !state@.paths.contains(p@),
            },
    {
        let base = env.untildefy(&self.path);
        let target = target_of(&base, rel);
        if state.is_path_owned(&target) {
            LinkAction::InUse
        } else if is_dir {
            LinkAction::Directory(target)
        } else {
            LinkAction::File(target)
        }
    }
}

/// Which modules a listing shows.
#[derive(Clone, Copy, Debug, PartialEq, Eq)]
pub enum ModuleFilter {
    All,
    Enabled,
    Disabled,
}

} // verus!
