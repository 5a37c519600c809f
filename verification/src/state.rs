//! The persistent state: which modules are enabled, the paths each of them
//! created and the packages each of them wants, and which sources have been
//! fetched.

use vstd::prelude::*;

use crate::config::strings_view;
use crate::globs::{globs_match, Globs};
use crate::order::SortKey;
use crate::packages::PackageManager;
use crate::path::{ComponentView, FilePath};
use crate::sha256::Sha256Hash;
use crate::sorted_map::{SortedMap, SortedSet};
use crate::source::{HashableSource, HashableSourceView, SourceIdent, SourceIdentView, SourceCheckError};

verus! {

/// What a module created at a path, and how to tell that it is still as
/// created.
#[derive(Debug, PartialEq, Eq)]
pub enum PathInfo {
    Directory,
    File { size: u64, hash: Sha256Hash },
    HardLink { size: u64, hash: Sha256Hash },
    Symlink { original: FilePath },
}

/// What a path's record says.
pub enum PathInfoView {
    Directory,
    File(u64, Seq<u8>),
    HardLink(u64, Seq<u8>),
    Symlink(Seq<ComponentView>),
}

impl View for PathInfo {
    type V = PathInfoView;

    open spec fn view(&self) -> PathInfoView {
        match self {
            PathInfo::Directory => PathInfoView::Directory,
            PathInfo::File { size, hash } => PathInfoView::File(*size, hash@),
            PathInfo::HardLink { size, hash } => PathInfoView::HardLink(*size, hash@),
            PathInfo::Symlink { original } => PathInfoView::Symlink(original@),
        }
    }
}

/// The kind of thing at a path.
#[derive(Clone, Copy, Debug, PartialEq, Eq)]
pub enum PathKind {
    Directory,
    File,
    HardLink,
    Symlink,
}

/// Whether a path is still as its module created it.
#[derive(Clone, Copy, Debug, PartialEq, Eq, Structural)]
pub enum PathState {
    /// It is as created.
    Owned,
    /// Something else is there now.
    Changed,
    /// Nothing is there.
    Missing,
}

/// What the filesystem shows at a path.
#[derive(Debug, PartialEq, Eq)]
pub enum PathObservation {
    /// The path's metadata can't be read: nothing is there.
    Missing,
    /// Something is there.
    Present {
        /// Whether the path, following symlinks, is a directory.
        is_dir: bool,
        /// The size in the metadata of the path itself.
        size: u64,
        /// The SHA-256 hash of the contents, if they could be read.
        hash: Option<Sha256Hash>,
        /// Where the path links to, if it is a symlink.
        link: Option<FilePath>,
    },
}

/// What is to be done with a path of a module being disabled.
#[derive(Clone, Copy, Debug, PartialEq, Eq)]
pub enum Removal {
    /// Remove the directory; failing to is no error.
    RemoveDir,
    /// Remove the file or link.
    RemoveFile,
    /// Leave it, because it changed.
    SkipChanged,
    /// Leave it, because it is missing.
    SkipMissing,
}

/// The state of a path with the record `info`, given what the filesystem
/// shows there.
pub open spec fn spec_path_state(info: PathInfoView, obs: PathObservation) -> PathState {
    match obs {
        PathObservation::Missing => PathState::Missing,
        PathObservation::Present { is_dir, size, hash, link } => {
            let owned = match info {
                PathInfoView::Directory => is_dir,
                PathInfoView::File(s, h) => size == s && (hash matches Some(x) && x@ == h),
                PathInfoView::HardLink(s, h) => size == s && (hash matches Some(x) && x@ == h),
                PathInfoView::Symlink(o) => link matches Some(l) && l@ == o,
            };
            if owned {
                PathState::Owned
            } else {
                PathState::Changed
            }
        },
    }
}

/// What is to be done with a path with the record `info` when its module
/// is disabled, given what the filesystem shows there.
pub open spec fn spec_removal(info: PathInfoView, obs: PathObservation) -> Removal {
    match spec_path_state(info, obs) {
        PathState::Owned => if info is Directory {
            Removal::RemoveDir
        } else {
            Removal::RemoveFile
        },
        PathState::Changed => Removal::SkipChanged,
        PathState::Missing => Removal::SkipMissing,
    }
}

/// Disabling a module removes a path only when it is still as the module
/// created it: a directory that is still a directory, a file or hard link
/// of the recorded size whose contents have the recorded hash, a symlink
/// that still points where it pointed. In particular a symlink pointing
/// elsewhere, or one whose target can't be read, is left alone as changed,
/// and so is a file whose size or contents differ.
pub proof fn law_removal_only_if_unchanged(info: PathInfoView, obs: PathObservation)
    ensures
        (spec_removal(info, obs) is RemoveDir || spec_removal(info, obs) is RemoveFile) ==> (
        obs matches PathObservation::Present { is_dir, size, hash, link } && match info {
            PathInfoView::Directory => is_dir,
            PathInfoView::File(s, h) => size == s && hash is Some && hash->Some_0@ == h,
            PathInfoView::HardLink(s, h) => size == s && hash is Some && hash->Some_0@ == h,
            PathInfoView::Symlink(o) => link is Some && link->Some_0@ == o,
        }),
        spec_removal(info, obs) is RemoveDir ==> info is Directory,
        spec_removal(info, obs) is RemoveFile ==> !(info is Directory),
        (obs matches PathObservation::Present { is_dir, size, hash, link } && match info {
            PathInfoView::Directory => is_dir,
            PathInfoView::File(s, h) => size == s && hash is Some && hash->Some_0@ == h,
            PathInfoView::HardLink(s, h) => size == s && hash is Some && hash->Some_0@ == h,
            PathInfoView::Symlink(o) => link is Some && link->Some_0@ == o,
        }) ==> (spec_removal(info, obs) is RemoveDir || spec_removal(info, obs) is RemoveFile),
        obs is Missing ==> spec_removal(info, obs) == Removal::SkipMissing,
        forall|o: Seq<ComponentView>, is_dir: bool, size: u64, hash: Option<Sha256Hash>, l: FilePath|
            #![trigger spec_path_state(PathInfoView::Symlink(o), PathObservation::Present { is_dir, size, hash, link: Some(l) })]
            l@ != o ==> spec_path_state(
                PathInfoView::Symlink(o),
                PathObservation::Present { is_dir, size, hash, link: Some(l) },
            ) == PathState::Changed && spec_removal(
                PathInfoView::Symlink(o),
                PathObservation::Present { is_dir, size, hash, link: Some(l) },
            ) == Removal::SkipChanged,
        forall|o: Seq<ComponentView>, is_dir: bool, size: u64, hash: Option<Sha256Hash>|
            #![trigger spec_path_state(PathInfoView::Symlink(o), PathObservation::Present { is_dir, size, hash, link: None })]
            spec_path_state(
                PathInfoView::Symlink(o),
                PathObservation::Present { is_dir, size, hash, link: None },
            ) == PathState::Changed,
{
}

impl PathInfo {
    /// The kind of thing the record is about.
    pub fn kind(&self) -> (r: PathKind)
        ensures
            r == match self@ {
                PathInfoView::Directory => PathKind::Directory,
                PathInfoView::File(..) => PathKind::File,
                PathInfoView::HardLink(..) => PathKind::HardLink,
                PathInfoView::Symlink(..) => PathKind::Symlink,
            },
    {
        match self {
            PathInfo::Directory => PathKind::Directory,
            PathInfo::File { .. } => PathKind::File,
            PathInfo::HardLink { .. } => PathKind::HardLink,
            PathInfo::Symlink { .. } => PathKind::Symlink,
        }
    }

    /// Whether the path is as recorded: a directory is owned if it is still
    /// a directory, a file or hard link if its size and hash are unchanged,
    /// a symlink if it still links to the same place.
    pub fn state(&self, obs: &PathObservation) -> (r: PathState)
        ensures
            r == spec_path_state(self@, *obs),
    {
        match obs {
            PathObservation::Missing => PathState::Missing,
            PathObservation::Present { is_dir, size, hash, link } => {
                let owned = match self {
                    PathInfo::Directory => *is_dir,
                    PathInfo::File { size: s, hash: h } => *size == *s && match hash {
                        Some(x) => x.hash_eq(h),
                        None => false,
                    },
                    PathInfo::HardLink { size: s, hash: h } => *size == *s && match hash {
                        Some(x) => x.hash_eq(h),
                        None => false,
                    },
                    PathInfo::Symlink { original } => match link {
                        Some(l) => l.path_eq(original),
                        None => false,
                    },
                };
                if owned {
                    PathState::Owned
                } else {
                    PathState::Changed
                }
            },
        }
    }

    /// What to do with the path when its module is disabled: remove it
    /// only if it is as recorded.
    pub fn removal(&self, obs: &PathObservation) -> (r: Removal)
        ensures
            r == spec_removal(self@, *obs),
    {
        match self.state(obs) {
            PathState::Owned => match self.kind() {
                PathKind::Directory => Removal::RemoveDir,
                _ => Removal::RemoveFile,
            },
            PathState::Changed => Removal::SkipChanged,
            PathState::Missing => Removal::SkipMissing,
        }
    }

    /// A copy of the record.
    pub fn duplicate(&self) -> (r: PathInfo)
        ensures
            r@ == self@,
    {
        match self {
            PathInfo::Directory => PathInfo::Directory,
            PathInfo::File { size, hash } => PathInfo::File { size: *size, hash: *hash },
            PathInfo::HardLink { size, hash } => PathInfo::HardLink { size: *size, hash: *hash },
            PathInfo::Symlink { original } => PathInfo::Symlink { original: original.clone() },
        }
    }
}

/// The packages wanted, by package manager.
pub type Packages = SortedMap<PackageManager, SortedSet<String>>;

/// The packages wanted, as sets of names by package manager.
pub open spec fn packages_view(p: Packages) -> Map<PackageManager, Set<Seq<char>>> {
    p@.map_values(|s: SortedSet<String>| s@)
}

/// A map of package sets that is well formed throughout.
pub open spec fn packages_wf(p: Packages) -> bool {
    p.wf() && forall|m: PackageManager| #[trigger] p@.contains_key(m) ==> p@[m].wf()
}

/// The packages of `a` and `b` together.
pub open spec fn merge_packages(
    a: Map<PackageManager, Set<Seq<char>>>,
    b: Map<PackageManager, Set<Seq<char>>>,
) -> Map<PackageManager, Set<Seq<char>>> {
    Map::new(
        |m: PackageManager| a.contains_key(m) || b.contains_key(m),
        |m: PackageManager|
            if a.contains_key(m) && b.contains_key(m) {
                a[m].union(b[m])
            } else if a.contains_key(m) {
                a[m]
            } else {
                b[m]
            },
    )
}

/// The state of an enabled module.
pub struct ModuleState {
    paths: Vec<(FilePath, PathInfo)>,
    packages: Packages,
}

/// What an enabled module's state holds.
#[verifier::ext_equal]
pub struct ModuleStateView {
    /// The paths it created, in the order created.
    pub paths: Seq<(Seq<ComponentView>, PathInfoView)>,
    /// The packages it wants.
    pub packages: Map<PackageManager, Set<Seq<char>>>,
}

impl View for ModuleState {
    type V = ModuleStateView;

    closed spec fn view(&self) -> ModuleStateView {
        ModuleStateView {
            paths: self.paths@.map_values(|e: (FilePath, PathInfo)| (e.0@, e.1@)),
            packages: packages_view(self.packages),
        }
    }
}

impl ModuleState {
    /// The module state's well-formedness.
    pub closed spec fn wf(&self) -> bool {
        packages_wf(self.packages)
    }

    /// The package map, for those who iterate over it.
    pub closed spec fn package_map(&self) -> Packages {
        self.packages
    }

    /// A module state with no paths yet and the given packages.
    pub fn with_packages(packages: Packages) -> (r: ModuleState)
        requires
            packages_wf(packages),
        ensures
            r.wf(),
            r@.paths == Seq::<(Seq<ComponentView>, PathInfoView)>::empty(),
            r@.packages == packages_view(packages),
    {
        let r = ModuleState { paths: Vec::new(), packages };
        assert(r@.paths =~= Seq::<(Seq<ComponentView>, PathInfoView)>::empty());
        r
    }

    /// The packages, by package manager in ascending order, each set in
    /// ascending order.
    pub fn packages(&self) -> (r: Vec<(PackageManager, Vec<String>)>)
        requires
            self.wf(),
        ensures
            r@.len() == self.package_map().keys().len(),
            forall|i: int|
                #![trigger r@[i]]
                0 <= i < r@.len() ==> r@[i].0 == self.package_map().keys()[i] && self@.packages.contains_key(
                    r@[i].0,
                ) && strings_view(r@[i].1@) == self.package_map()@[r@[i].0].elements(),
    {
        let mut r: Vec<(PackageManager, Vec<String>)> = Vec::new();
        let n = self.packages.len();
        let mut i: usize = 0;
        proof {
            self.packages.lemma_dom();
        }
        while i < n
            invariant
                self.wf(),
                n == self.packages.keys().len(),
                i <= n,
                r@.len() == i,
                forall|k: PackageManager| #[trigger]
                    self.packages@.contains_key(k) <==> self.packages.keys().contains(k),
                forall|j: int|
                    0 <= j < self.packages.keys().len() ==> #[trigger] self.packages@[self.packages.keys()[j]]
                        == self.packages.values()[j],
                forall|j: int|
                    #![trigger r@[j]]
                    0 <= j < i ==> r@[j].0 == self.packages.keys()[j] && self@.packages.contains_key(
                        r@[j].0,
                    ) && strings_view(r@[j].1@) == self.packages@[r@[j].0].elements(),
            decreases n - i,
        {
            let m = *self.packages.key_at(i);
            let set = self.packages.value_at(i);
            assert(self.packages.keys().contains(m));
            let names = set_to_vec(set);
            r.push((m, names));
            i = i + 1;
        }
        r
    }

    /// The paths created, in the order created.
    pub fn paths(&self) -> (r: &Vec<(FilePath, PathInfo)>)
        ensures
            r@.map_values(|e: (FilePath, PathInfo)| (e.0@, e.1@)) == self@.paths,
    {
        &self.paths
    }

    /// Records one more created path.
    pub fn push_path(&mut self, path: FilePath, info: PathInfo)
        ensures
            final(self)@.paths == old(self)@.paths.push((path@, info@)),
            final(self)@.packages == old(self)@.packages,
            final(self).package_map() == old(self).package_map(),
    {
        self.paths.push((path, info));
        assert(self@.paths =~= old(self)@.paths.push((path@, info@)));
    }

    /// Forgets the path created last.
    pub fn pop_path(&mut self) -> (r: Option<(FilePath, PathInfo)>)
        ensures
            old(self)@.paths.len() == 0 ==> r is None && final(self)@.paths == old(self)@.paths,
            old(self)@.paths.len() > 0 ==> (r matches Some(e) && (e.0@, e.1@)
                == old(self)@.paths.last() && final(self)@.paths == old(self)@.paths.drop_last()),
            final(self)@.packages == old(self)@.packages,
            final(self).package_map() == old(self).package_map(),
    {
        let r = self.paths.pop();
        assert(self@.paths =~= if old(self)@.paths.len() > 0 {
            old(self)@.paths.drop_last()
        } else {
            old(self)@.paths
        });
        r
    }

    /// Forgets the packages.
    pub fn clear_packages(&mut self)
        ensures
            final(self).wf(),
            final(self)@.paths == old(self)@.paths,
            final(self)@.packages == Map::<PackageManager, Set<Seq<char>>>::empty(),
    {
        self.packages = SortedMap::new();
        assert(self@.packages =~= Map::<PackageManager, Set<Seq<char>>>::empty());
    }
}

/// The elements of a set of names, in ascending order.
fn set_to_vec(set: &SortedSet<String>) -> (r: Vec<String>)
    ensures
        strings_view(r@) == set.elements(),
{
    let mut r: Vec<String> = Vec::new();
    let n = set.len();
    let mut i: usize = 0;
    while i < n
        invariant
            n == set.elements().len(),
            i <= n,
            strings_view(r@) == set.elements().subrange(0, i as int),
        decreases n - i,
    {
        let word = set.element_at(i).clone();
        let ghost before = r@;
        r.push(word);
        proof {
            crate::config::lemma_strings_view_push(before, word);
        }
        assert(strings_view(r@) =~= set.elements().subrange(0, i + 1));
        i = i + 1;
    }
    assert(set.elements().subrange(0, n as int) =~= set.elements());
    r
}

/// Adds the elements of `other` to `acc`.
fn union_into(acc: &mut SortedSet<String>, other: &SortedSet<String>)
    requires
        old(acc).wf(),
        other.wf(),
    ensures
        final(acc).wf(),
        final(acc)@ == old(acc)@.union(other@),
{
    let n = other.len();
    let mut i: usize = 0;
    proof {
        other.lemma_elements();
    }
    while i < n
        invariant
            acc.wf(),
            other.wf(),
            n == other.elements().len(),
            i <= n,
            forall|k: Seq<char>| #[trigger] other@.contains(k) <==> other.elements().contains(k),
            acc@ == old(acc)@.union(other.elements().subrange(0, i as int).to_set()),
        decreases n - i,
    {
        let x = other.element_at(i).clone();
        acc.insert(x);
        assert(acc@ =~= old(acc)@.union(other.elements().subrange(0, i + 1).to_set())) by {
            assert(other.elements().subrange(0, i + 1) =~= other.elements().subrange(
                0,
                i as int,
            ).push(x@));
            other.elements().subrange(0, i as int).lemma_push_to_set_commute(x@);
        }
        i = i + 1;
    }
    assert(other.elements().subrange(0, n as int) =~= other.elements());
    assert(acc@ =~= old(acc)@.union(other@));
}

/// A copy of a set of names.
fn duplicate_set(s: &SortedSet<String>) -> (r: SortedSet<String>)
    requires
        s.wf(),
    ensures
        r.wf(),
        r@ == s@,
{
    s.duplicate()
}

/// Adds the packages of `other` to `acc`.
pub(crate) fn merge_into(acc: &mut Packages, other: &Packages)
    requires
        packages_wf(*old(acc)),
        packages_wf(*other),
    ensures
        packages_wf(*final(acc)),
        packages_view(*final(acc)) == merge_packages(packages_view(*old(acc)), packages_view(*other)),
{
    let n = other.len();
    let mut i: usize = 0;
    proof {
        other.lemma_dom();
    }
    let ghost init = packages_view(*acc);
    let ghost ov = packages_view(*other);
    let ghost okeys = other.keys();
    assert(merge_packages(init, Map::empty().restrict(Set::empty())) =~= init);
    while i < n
        invariant
            packages_wf(*acc),
            packages_wf(*other),
            n == okeys.len(),
            okeys == other.keys(),
            ov == packages_view(*other),
            i <= n,
            forall|k: PackageManager| #[trigger] other@.contains_key(k) <==> okeys.contains(k),
            forall|j: int| 0 <= j < okeys.len() ==> #[trigger] other@[okeys[j]] == other.values()[j],
            forall|j: int, l: int|
                0 <= j < l < okeys.len() ==> PackageManager::key_lt(
                    #[trigger] okeys[j],
                    #[trigger] okeys[l],
                ),
            packages_view(*acc) == merge_packages(
                init,
                ov.restrict(okeys.subrange(0, i as int).to_set()),
            ),
        decreases n - i,
    {
        let m = *other.key_at(i);
        let set = other.value_at(i);
        assert(okeys[i as int] == m);
        assert(okeys.contains(m));
        assert(other@[okeys[i as int]] == other.values()[i as int]);
        assert(other@.contains_key(m));
        assert(set.wf());
        let ghost pre_acc = *acc;
        let ghost pre = packages_view(*acc);
        let ghost nv = if pre.contains_key(m) {
            pre[m].union(set@)
        } else {
            set@
        };
        match acc.remove(&m) {
            Some(mut existing) => {
                assert(pre_acc@.contains_key(m));
                assert(existing.wf());
                union_into(&mut existing, set);
                acc.insert(m, existing);
            },
            None => {
                acc.insert(m, duplicate_set(set));
            },
        }
        proof {
            assert(acc@.contains_key(m) && acc@[m].wf() && acc@[m]@ == nv);
            assert forall|k: PackageManager| #[trigger] acc@.contains_key(k) implies acc@[k].wf() by {
                if k != m {
                    assert(pre_acc@.contains_key(k));
                }
            }
            assert(packages_view(*acc) =~= pre.insert(m, nv));
            assert(okeys.subrange(0, i + 1) =~= okeys.subrange(0, i as int).push(m));
            okeys.subrange(0, i as int).lemma_push_to_set_commute(m);
            let done = okeys.subrange(0, i as int).to_set();
            assert(!done.contains(m)) by {
                if okeys.subrange(0, i as int).contains(m) {
                    let j = choose|j: int| 0 <= j < i && #[trigger] okeys.subrange(0, i as int)[j] == m;
                    assert(PackageManager::key_lt(okeys[j], okeys[i as int]));
                }
            }
            assert(ov[m] == set@);
            let lhs = pre.insert(m, nv);
            let rhs = merge_packages(init, ov.restrict(done.insert(m)));
            assert(pre == merge_packages(init, ov.restrict(done)));
            assert forall|k: PackageManager| lhs.contains_key(k) <==> rhs.contains_key(k) by {}
            assert forall|k: PackageManager| #[trigger] lhs.contains_key(k) implies lhs[k] == rhs[k] by {
                if k == m {
                    if init.contains_key(m) {
                        assert(pre[m] == init[m]);
                    }
                }
            }
            assert(lhs =~= rhs);
        }
        i = i + 1;
    }
    proof {
        assert(okeys.subrange(0, n as int) =~= okeys);
        assert(ov.restrict(okeys.to_set()) =~= ov) by {
            assert forall|k: PackageManager| ov.contains_key(k) <==> okeys.to_set().contains(k) by {}
        }
    }
}

/// Why a change to the state was refused.
#[derive(Clone, Copy, Debug, PartialEq, Eq)]
pub enum StateError {
    /// The module isn't enabled.
    NotEnabled,
}

/// The persistent state.
pub struct State {
    sources: SortedMap<SourceIdent, HashableSource>,
    modules: SortedMap<String, ModuleState>,
    paths: SortedSet<FilePath>,
    owners: SortedMap<FilePath, (String, PathInfo)>,
}

/// What the state holds.
#[verifier::ext_equal]
pub struct StateView {
    /// The fetched sources, by identifier.
    pub sources: Map<SourceIdentView, HashableSourceView>,
    /// The enabled modules, by name.
    pub modules: Map<Seq<char>, ModuleStateView>,
    /// The paths owned by some module.
    pub paths: Set<Seq<ComponentView>>,
    /// The module that last recorded each owned path, with that record.
    pub owners: Map<Seq<ComponentView>, (Seq<char>, PathInfoView)>,
}

impl View for State {
    type V = StateView;

    closed spec fn view(&self) -> StateView {
        StateView {
            sources: self.sources@.map_values(|s: HashableSource| s@),
            modules: self.modules@.map_values(|m: ModuleState| m@),
            paths: self.paths@,
            owners: self.owners@.map_values(|e: (String, PathInfo)| (e.0@, e.1@)),
        }
    }
}

/// The packages of all modules, merged in the order of `names`.
pub open spec fn spec_all_packages(
    names: Seq<Seq<char>>,
    modules: Map<Seq<char>, ModuleStateView>,
) -> Map<PackageManager, Set<Seq<char>>>
    decreases names.len(),
{
    if names.len() == 0 {
        Map::empty()
    } else {
        merge_packages(
            spec_all_packages(names.drop_last(), modules),
            modules[names.last()].packages,
        )
    }
}

/// Whether the enabled module `name` recorded creating `path`.
pub open spec fn module_records(s: StateView, name: Seq<char>, path: Seq<ComponentView>) -> bool {
    s.modules.contains_key(name) && exists|j: int|
        0 <= j < s.modules[name].paths.len() && #[trigger] s.modules[name].paths[j].0 == path
}

/// The state after enabling `name` with `packages`: nothing changes if it
/// is enabled already.
pub open spec fn spec_add_module(
    s: StateView,
    name: Seq<char>,
    packages: Map<PackageManager, Set<Seq<char>>>,
) -> StateView {
    if s.modules.contains_key(name) {
        s
    } else {
        StateView {
            sources: s.sources,
            modules: s.modules.insert(name, ModuleStateView { paths: Seq::empty(), packages }),
            paths: s.paths,
            owners: s.owners,
        }
    }
}

/// The state after recording that `source` was fetched for `ident`.
pub open spec fn spec_add_source(
    s: StateView,
    ident: SourceIdentView,
    source: HashableSourceView,
) -> StateView {
    StateView {
        sources: s.sources.insert(ident, source),
        modules: s.modules,
        paths: s.paths,
        owners: s.owners,
    }
}

/// Which module owns which path after entries naming a path and its owner
/// are taken in order, a later one for the same path winning.
pub open spec fn owners_of(entries: Seq<(Seq<ComponentView>, (Seq<char>, PathInfoView))>) -> Map<
    Seq<ComponentView>,
    (Seq<char>, PathInfoView),
>
    decreases entries.len(),
{
    if entries.len() == 0 {
        Map::empty()
    } else {
        owners_of(entries.drop_last()).insert(entries.last().0, entries.last().1)
    }
}

/// The state after recording that `module` created `path`.
pub open spec fn spec_add_path(
    s: StateView,
    module: Seq<char>,
    path: Seq<ComponentView>,
    info: PathInfoView,
) -> StateView {
    StateView {
        sources: s.sources,
        modules: s.modules.insert(
            module,
            if s.modules.contains_key(module) {
                ModuleStateView {
                    paths: s.modules[module].paths.push((path, info)),
                    packages: s.modules[module].packages,
                }
            } else {
                ModuleStateView { paths: seq![(path, info)], packages: Map::empty() }
            },
        ),
        paths: s.paths.insert(path),
        owners: s.owners.insert(path, (module, info)),
    }
}

/// The paths of a list of path records.
pub open spec fn record_paths(records: Seq<(Seq<ComponentView>, PathInfoView)>) -> Set<
    Seq<ComponentView>,
> {
    records.map_values(|e: (Seq<ComponentView>, PathInfoView)| e.0).to_set()
}

/// The state after disabling `name` once its last `removed` paths are gone
/// from the filesystem.
pub open spec fn spec_disable(s: StateView, name: Seq<char>, removed: nat) -> StateView {
    let paths = s.modules[name].paths;
    let kept = paths.subrange(0, paths.len() - removed);
    let gone = paths.subrange(paths.len() - removed, paths.len() as int);
    StateView {
        sources: s.sources,
        modules: if removed == paths.len() {
            s.modules.remove(name)
        } else {
            s.modules.insert(name, ModuleStateView { paths: kept, packages: Map::empty() })
        },
        paths: s.paths.difference(record_paths(gone)),
        owners: s.owners.remove_keys(record_paths(gone)),
    }
}

impl State {
    /// The state's well-formedness.
    pub closed spec fn wf(&self) -> bool {
        &&& self.sources.wf()
        &&& self.modules.wf()
        &&& self.paths.wf()
        &&& self.owners.wf()
        &&& self.paths@ == self.owners@.dom()
        &&& forall|name: Seq<char>| #[trigger]
            self.modules@.contains_key(name) ==> self.modules@[name].wf()
    }

    /// The names of the enabled modules, in ascending order.
    pub closed spec fn module_name_seq(&self) -> Seq<Seq<char>> {
        self.modules.keys()
    }

    /// The identifiers of the fetched sources, in ascending order.
    pub closed spec fn source_seq(&self) -> Seq<SourceIdentView> {
        self.sources.keys()
    }

    /// The names in `module_name_seq` are exactly the enabled modules, and
    /// the identifiers in `source_seq` exactly the fetched sources, each in
    /// strictly ascending order and so none twice.
    pub proof fn lemma_sequences(&self)
        requires
            self.wf(),
        ensures
            forall|n: Seq<char>| #[trigger]
                self@.modules.contains_key(n) <==> self.module_name_seq().contains(n),
            forall|s: SourceIdentView| #[trigger]
                self@.sources.contains_key(s) <==> self.source_seq().contains(s),
            forall|i: int, j: int|
                0 <= i < j < self.source_seq().len() ==> crate::source::ident_lt(
                    #[trigger] self.source_seq()[i],
                    #[trigger] self.source_seq()[j],
                ),
            self.source_seq().no_duplicates(),
            self.source_seq().len() == self@.sources.dom().len(),
            forall|i: int, j: int|
                0 <= i < j < self.module_name_seq().len() ==> crate::order::str_lt(
                    #[trigger] self.module_name_seq()[i],
                    #[trigger] self.module_name_seq()[j],
                ),
            self.module_name_seq().no_duplicates(),
            self.module_name_seq().len() == self@.modules.dom().len(),
    {
        self.modules.lemma_dom();
        self.sources.lemma_dom();
        String::lemma_key_order();
        let names = self.module_name_seq();
        assert forall|i: int, j: int| 0 <= i < names.len() && 0 <= j < names.len() && i != j implies names[i]
            != names[j] by {
            if i < j {
                assert(crate::order::str_lt(names[i], names[j]));
            } else {
                assert(crate::order::str_lt(names[j], names[i]));
            }
        }
        names.unique_seq_to_set();
        assert(names.to_set() =~= self@.modules.dom());
        SourceIdent::lemma_key_order();
        let q = self.source_seq();
        assert(q.no_duplicates()) by {
            assert forall|i: int, j: int| 0 <= i < q.len() && 0 <= j < q.len() && i != j implies q[i]
                != q[j] by {
                if i < j {
                    assert(crate::source::ident_lt(q[i], q[j]));
                } else {
                    assert(crate::source::ident_lt(q[j], q[i]));
                }
            }
        }
        q.unique_seq_to_set();
        assert(q.to_set() =~= self@.sources.dom());
    }

    /// An empty state: nothing enabled, owned or fetched.
    pub fn new() -> (r: State)
        ensures
            r.wf(),
            r@.sources == Map::<SourceIdentView, HashableSourceView>::empty(),
            r@.modules == Map::<Seq<char>, ModuleStateView>::empty(),
            r@.paths == Set::<Seq<ComponentView>>::empty(),
            r@.owners == Map::<Seq<ComponentView>, (Seq<char>, PathInfoView)>::empty(),
    {
        let r = State {
            sources: SortedMap::new(),
            modules: SortedMap::new(),
            paths: SortedSet::new(),
            owners: SortedMap::new(),
        };
        assert(r@.owners =~= Map::<Seq<ComponentView>, (Seq<char>, PathInfoView)>::empty());
        assert(r@.sources =~= Map::<SourceIdentView, HashableSourceView>::empty());
        assert(r@.modules =~= Map::<Seq<char>, ModuleStateView>::empty());
        r
    }

    /// The identifiers of the fetched sources, in ascending order.
    pub fn sources(&self) -> (r: Vec<SourceIdent>)
        requires
            self.wf(),
        ensures
            r@.map_values(|s: SourceIdent| s@) == self.source_seq(),
    {
        let mut r: Vec<SourceIdent> = Vec::new();
        let n = self.sources.len();
        let mut i: usize = 0;
        while i < n
            invariant
                n == self.source_seq().len(),
                i <= n,
                r@.map_values(|s: SourceIdent| s@) == self.source_seq().subrange(0, i as int),
                self.source_seq() == self.sources.keys(),
            decreases n - i,
        {
            let d = self.sources.key_at(i).duplicate();
            let ghost before = r@;
            r.push(d);
            assert(r@.map_values(|s: SourceIdent| s@) =~= before.map_values(|s: SourceIdent| s@).push(
                d@,
            ));
            assert(r@.map_values(|s: SourceIdent| s@) =~= self.source_seq().subrange(0, i + 1));
            i = i + 1;
        }
        assert(self.source_seq().subrange(0, n as int) =~= self.source_seq());
        r
    }

    /// The named fetched sources whose names `globs` matches, in ascending
    /// order.
    pub fn sources_matching_globs(&self, globs: &Globs) -> (r: Vec<SourceIdent>)
        requires
            self.wf(),
        ensures
            r@.map_values(|s: SourceIdent| s@) == self.source_seq().filter(
                |s: SourceIdentView| s matches SourceIdentView::Named(name) && globs_match(globs@, name),
            ),
    {
        let ghost pred = |s: SourceIdentView|
            s matches SourceIdentView::Named(name) && globs_match(globs@, name);
        let mut r: Vec<SourceIdent> = Vec::new();
        let n = self.sources.len();
        let mut i: usize = 0;
        assert(self.source_seq().subrange(0, 0).filter(pred) =~= Seq::<SourceIdentView>::empty());
        while i < n
            invariant
                n == self.source_seq().len(),
                i <= n,
                self.source_seq() == self.sources.keys(),
                pred == (|s: SourceIdentView|
                    s matches SourceIdentView::Named(name) && globs_match(globs@, name)),
                r@.map_values(|s: SourceIdent| s@) == self.source_seq().subrange(0, i as int).filter(
                    pred,
                ),
            decreases n - i,
        {
            let ident = self.sources.key_at(i);
            let ghost prefix = self.source_seq().subrange(0, i as int);
            assert(self.source_seq().subrange(0, i + 1) =~= prefix.push(ident@));
            proof {
                prefix.lemma_filter_push(ident@, pred);
            }
            let selected = match ident {
                SourceIdent::Named(name) => globs.is_match(name.as_str()),
                SourceIdent::Unnamed { .. } => false,
            };
            if selected {
                let ghost before = r@;
                let copy = ident.duplicate();
                r.push(copy);
                assert(r@.map_values(|s: SourceIdent| s@) =~= before.map_values(
                    |s: SourceIdent| s@,
                ).push(copy@));
            }
            i = i + 1;
        }
        assert(self.source_seq().subrange(0, n as int) =~= self.source_seq());
        r
    }

    /// Whether `source` was fetched for `ident` as it is now defined.
    pub fn is_source_recorded(&self, ident: &SourceIdent, source: &HashableSource) -> (r: bool)
        requires
            self.wf(),
        ensures
            r == (self@.sources.contains_key(ident@) && self@.sources[ident@] == source@),
    {
        match self.sources.get(ident) {
            Some(s) => s.source_eq(source),
            None => false,
        }
    }

    /// The source recorded as fetched for `ident`, if any.
    pub fn source(&self, ident: &SourceIdent) -> (r: Option<&HashableSource>)
        requires
            self.wf(),
        ensures
            match r {
                Some(s) => self@.sources.contains_key(ident@) && s@ == self@.sources[ident@],
                None => !self@.sources.contains_key(ident@),
            },
    {
        self.sources.get(ident)
    }

    /// Whether `source` was fetched for `ident` as it is now defined and
    /// the fetched files, whose hash is `actual`, pass its check.
    pub fn is_source_fetched(
        &self,
        ident: &SourceIdent,
        source: &HashableSource,
        actual: &Result<Sha256Hash, String>,
    ) -> (r: bool)
        requires
            self.wf(),
        ensures
            r == (self@.sources.contains_key(ident@) && self@.sources[ident@] == source@ && match source@.hash {
                None => true,
                Some(expected) => actual matches Ok(h) && h@ == expected,
            }),
    {
        self.is_source_recorded(ident, source) && source.check(actual).is_ok()
    }

    /// Whether the module `module` is enabled.
    pub fn is_module_enabled(&self, module: &str) -> (r: bool)
        requires
            self.wf(),
        ensures
            r == self@.modules.contains_key(module@),
    {
        self.modules.contains_key(&module.to_owned())
    }

    /// Whether some module owns `path`.
    pub fn is_path_owned(&self, path: &FilePath) -> (r: bool)
        requires
            self.wf(),
        ensures
            r == self@.paths.contains(path@),
    {
        self.paths.contains(path)
    }

    /// Enables `name` with the given packages, unless it is enabled
    /// already.
    pub fn add_module(&mut self, name: &str, packages: Packages)
        requires
            old(self).wf(),
            packages_wf(packages),
        ensures
            final(self).wf(),
            final(self)@ == spec_add_module(old(self)@, name@, packages_view(packages)),
    {
        let key = name.to_owned();
        if !self.modules.contains_key(&key) {
            let state = ModuleState::with_packages(packages);
            let ghost sv = state@;
            self.modules.insert(key, state);
            proof {
                assert(sv == ModuleStateView { paths: Seq::empty(), packages: packages_view(packages) });
                assert(self@.modules =~= old(self)@.modules.insert(name@, sv));
            }
        }
        assert(self@ =~= spec_add_module(old(self)@, name@, packages_view(packages)));
    }

    /// Records that `source` was fetched for `ident`.
    pub fn add_source(&mut self, ident: &SourceIdent, source: &HashableSource)
        requires
            old(self).wf(),
        ensures
            final(self).wf(),
            final(self)@ == spec_add_source(old(self)@, ident@, source@),
    {
        self.sources.insert(ident.duplicate(), source.duplicate());
        assert(self@.sources =~= old(self)@.sources.insert(ident@, source@));
        assert(self@ =~= spec_add_source(old(self)@, ident@, source@));
    }

    /// Records that the module `module` created `path`, beginning a record
    /// for the module if it has none; `module` is then the path's owner.
    pub fn add_path(&mut self, module: &str, path: &FilePath, info: PathInfo)
        requires
            old(self).wf(),
        ensures
            final(self).wf(),
            final(self)@ == spec_add_path(old(self)@, module@, path@, info@),
    {
        let ghost info_view = info@;
        let ghost old_state = old(self)@;
        self.paths.insert(path.clone());
        self.owners.insert(path.clone(), (module.to_owned(), info.duplicate()));
        let key = module.to_owned();
        let mut state = match self.modules.remove(&key) {
            Some(state) => state,
            None => ModuleState::with_packages(SortedMap::new()),
        };
        proof {
            if !old_state.modules.contains_key(module@) {
                assert(state@.paths =~= Seq::<(Seq<ComponentView>, PathInfoView)>::empty());
                assert(state@.packages =~= Map::<PackageManager, Set<Seq<char>>>::empty());
            }
        }
        state.push_path(path.clone(), info);
        self.modules.insert(key, state);
        proof {
            assert(self@.modules =~= old_state.modules.insert(
                module@,
                if old_state.modules.contains_key(module@) {
                    ModuleStateView {
                        paths: old_state.modules[module@].paths.push((path@, info_view)),
                        packages: old_state.modules[module@].packages,
                    }
                } else {
                    ModuleStateView { paths: seq![(path@, info_view)], packages: Map::empty() }
                },
            ));
            assert(self@.owners =~= old_state.owners.insert(path@, (module@, info_view)));
            assert(self.paths@ =~= self.owners@.dom());
            assert(self@ =~= spec_add_path(old_state, module@, path@, info_view));
        }
    }

    /// Records that the module `module` created the directory
    /// `path`.
    pub fn add_dir(&mut self, module: &str, path: &FilePath)
        requires
            old(self).wf(),
        ensures
            final(self).wf(),
            final(self)@ == spec_add_path(old(self)@, module@, path@, PathInfoView::Directory),
    {
        self.add_path(module, path, PathInfo::Directory)
    }

    /// The packages of all enabled modules together, by package manager.
    pub fn packages(&self) -> (r: Packages)
        requires
            self.wf(),
        ensures
            packages_wf(r),
            packages_view(r) == spec_all_packages(self.module_name_seq(), self@.modules),
    {
        let mut acc: Packages = SortedMap::new();
        let n = self.modules.len();
        let mut i: usize = 0;
        proof {
            self.modules.lemma_dom();
            assert(packages_view(acc) =~= Map::<PackageManager, Set<Seq<char>>>::empty());
            assert(self.module_name_seq().subrange(0, 0) =~= Seq::<Seq<char>>::empty());
        }
        while i < n
            invariant
                self.wf(),
                packages_wf(acc),
                n == self.module_name_seq().len(),
                i <= n,
                forall|j: int|
                    0 <= j < self.modules.keys().len() ==> #[trigger] self.modules@[self.modules.keys()[j]]
                        == self.modules.values()[j],
                forall|k: Seq<char>| #[trigger]
                    self.modules@.contains_key(k) <==> self.modules.keys().contains(k),
                packages_view(acc) == spec_all_packages(
                    self.module_name_seq().subrange(0, i as int),
                    self@.modules,
                ),
            decreases n - i,
        {
            let state = self.modules.value_at(i);
            let ghost name = self.module_name_seq()[i as int];
            assert(self.modules.keys()[i as int] == name);
            assert(self.modules.keys().contains(name));
            assert(self.modules@[self.modules.keys()[i as int]] == self.modules.values()[i as int]);
            assert(self.modules@.contains_key(name));
            assert(state.wf());
            merge_into(&mut acc, &state.packages);
            proof {
                let prefix = self.module_name_seq().subrange(0, i + 1);
                assert(prefix.drop_last() =~= self.module_name_seq().subrange(0, i as int));
                assert(prefix.last() == name);
            }
            i = i + 1;
        }
        assert(self.module_name_seq().subrange(0, n as int) =~= self.module_name_seq());
        acc
    }

    /// The number of enabled modules.
    pub fn module_count(&self) -> (r: usize)
        ensures
            r == self.module_name_seq().len(),
    {
        self.modules.len()
    }

    /// The `i`-th enabled module in ascending order of names, with its state.
    pub fn module_at(&self, i: usize) -> (r: (&String, &ModuleState))
        requires
            self.wf(),
            i < self.module_name_seq().len(),
        ensures
            r.0@ == self.module_name_seq()[i as int],
            self@.modules.contains_key(r.0@),
            r.1@ == self@.modules[r.0@],
            r.1.wf(),
    {
        proof {
            self.modules.lemma_entry(i as int);
        }
        (self.modules.key_at(i), self.modules.value_at(i))
    }

    /// The state of the enabled module `name`.
    pub fn module(&self, name: &str) -> (r: Option<&ModuleState>)
        requires
            self.wf(),
        ensures
            match r {
                Some(m) => self@.modules.contains_key(name@) && m@ == self@.modules[name@] && m.wf(),
                None => !self@.modules.contains_key(name@),
            },
    {
        self.modules.get(&name.to_owned())
    }

    /// The names of the enabled modules, in ascending order.
    pub fn module_names(&self) -> (r: Vec<String>)
        requires
            self.wf(),
        ensures
            strings_view(r@) == self.module_name_seq(),
            forall|n: Seq<char>| #[trigger] strings_view(r@).contains(n) <==> self@.modules.contains_key(n),
            forall|i: int, j: int|
                0 <= i < j < r@.len() ==> crate::order::str_lt(
                    #[trigger] strings_view(r@)[i],
                    #[trigger] strings_view(r@)[j],
                ),
            strings_view(r@).no_duplicates(),
            r@.len() == self@.modules.dom().len(),
    {
        proof {
            self.lemma_sequences();
        }
        let mut r: Vec<String> = Vec::new();
        let n = self.modules.len();
        let mut i: usize = 0;
        while i < n
            invariant
                n == self.module_name_seq().len(),
                i <= n,
                strings_view(r@) == self.module_name_seq().subrange(0, i as int),
            decreases n - i,
        {
            let word = self.modules.key_at(i).clone();
            let ghost before = r@;
            r.push(word);
            proof {
                crate::config::lemma_strings_view_push(before, word);
            }
            assert(strings_view(r@) =~= self.module_name_seq().subrange(0, i + 1));
            i = i + 1;
        }
        assert(self.module_name_seq().subrange(0, n as int) =~= self.module_name_seq());
        r
    }

    /// The names of the enabled modules that `globs` matches, in ascending
    /// order.
    pub fn module_names_matching_globs(&self, globs: &Globs) -> (r: Vec<String>)
        ensures
            strings_view(r@) == self.module_name_seq().filter(
                |name: Seq<char>| globs_match(globs@, name),
            ),
    {
        let ghost pred = |name: Seq<char>| globs_match(globs@, name);
        let mut r: Vec<String> = Vec::new();
        let n = self.modules.len();
        let mut i: usize = 0;
        assert(self.module_name_seq().subrange(0, 0).filter(pred) =~= Seq::<Seq<char>>::empty());
        while i < n
            invariant
                n == self.module_name_seq().len(),
                i <= n,
                pred == (|name: Seq<char>| globs_match(globs@, name)),
                strings_view(r@) == self.module_name_seq().subrange(0, i as int).filter(pred),
            decreases n - i,
        {
            let name = self.modules.key_at(i);
            let ghost prefix = self.module_name_seq().subrange(0, i as int);
            assert(self.module_name_seq().subrange(0, i + 1) =~= prefix.push(name@));
            proof {
                prefix.lemma_filter_push(name@, pred);
            }
            if globs.is_match(name.as_str()) {
                let word = name.clone();
                let ghost before = r@;
                r.push(word);
                proof {
                    crate::config::lemma_strings_view_push(before, word);
                }
            }
            i = i + 1;
        }
        assert(self.module_name_seq().subrange(0, n as int) =~= self.module_name_seq());
        r
    }

    /// Disables the module `name` after the last `removed` of its paths
    /// have been removed from the filesystem, newest first: its packages
    /// are cleared, those paths are forgotten and no longer owned, and once
    /// all of its paths are gone the module itself is.
    pub fn disable_module(&mut self, name: &str, removed: usize)
        requires
            old(self).wf(),
            old(self)@.modules.contains_key(name@),
            removed <= old(self)@.modules[name@].paths.len(),
        ensures
            final(self).wf(),
            final(self)@ == spec_disable(old(self)@, name@, removed as nat),
    {
        let key = name.to_owned();
        let mut state = self.modules.remove(&key).unwrap();
        let ghost after_remove = self.modules;
        assert(after_remove@ == old(self).modules@.remove(name@));
        assert(state.wf());
        assert forall|nm: Seq<char>| #[trigger] after_remove@.contains_key(nm) implies after_remove@[nm].wf() by {
            assert(old(self).modules@.contains_key(nm));
        }
        let ghost all = state@.paths;
        let ghost n = all.len();
        let ghost first = |e: (Seq<ComponentView>, PathInfoView)| e.0;
        state.clear_packages();
        let mut k: usize = 0;
        assert(all.subrange(n as int, n as int).map_values(first).to_set() =~= Set::<
            Seq<ComponentView>,
        >::empty());
        assert(all.subrange(0, n as int) =~= all);
        while k < removed
            invariant
                self.paths.wf(),
                self.modules == after_remove,
                self.sources == old(self).sources,
                after_remove.wf(),
                after_remove@ == old(self).modules@.remove(name@),
                forall|nm: Seq<char>| #[trigger]
                    after_remove@.contains_key(nm) ==> after_remove@[nm].wf(),
                state.wf(),
                k <= removed <= n,
                all == old(self)@.modules[name@].paths,
                n == all.len(),
                state@.paths == all.subrange(0, n - k),
                state@.packages == Map::<PackageManager, Set<Seq<char>>>::empty(),
                first == (|e: (Seq<ComponentView>, PathInfoView)| e.0),
                self.paths@ == old(self)@.paths.difference(
                    all.subrange(n - k, n as int).map_values(first).to_set(),
                ),
                self.owners.wf(),
                self@.owners == old(self)@.owners.remove_keys(
                    all.subrange(n - k, n as int).map_values(first).to_set(),
                ),
                self.paths@ == self.owners@.dom(),
            decreases removed - k,
        {
            let (path, _) = state.pop_path().unwrap();
            self.paths.remove(&path);
            let ghost before_owners = self.owners@;
            self.owners.remove(&path);
            proof {
                let gone = all.subrange(n - k, n as int).map_values(first);
                let gone2 = all.subrange(n - k - 1, n as int).map_values(first);
                assert(all[n - k - 1].0 == path@);
                assert(gone2 =~= seq![path@] + gone);
                assert(gone2.to_set() =~= gone.to_set().insert(path@)) by {
                    assert forall|x: Seq<ComponentView>|
                        gone2.contains(x) <==> (gone.contains(x) || x == path@) by {
                        if gone2.contains(x) && x != path@ {
                            let j = choose|j: int| 0 <= j < gone2.len() && gone2[j] == x;
                            assert(gone[j - 1] == x);
                        }
                        if gone.contains(x) {
                            let j = choose|j: int| 0 <= j < gone.len() && gone[j] == x;
                            assert(gone2[j + 1] == x);
                        }
                        if x == path@ {
                            assert(gone2[0] == x);
                        }
                    }
                }
                assert(self.paths@ =~= old(self)@.paths.difference(gone2.to_set()));
                assert(self.owners@ == before_owners.remove(path@));
                assert(self@.owners =~= old(self)@.owners.remove_keys(gone.to_set()).remove(path@));
                assert(self@.owners =~= old(self)@.owners.remove_keys(gone2.to_set()));
                assert(self.paths@ =~= self.owners@.dom());
                assert(state@.paths =~= all.subrange(0, n - k - 1));
            }
            k = k + 1;
        }
        let ghost mid = self.modules@;
        if state.paths.len() > 0 {
            let ghost sv = state@;
            self.modules.insert(key, state);
            proof {
                assert(self@.modules =~= old(self)@.modules.insert(
                    name@,
                    ModuleStateView {
                        paths: all.subrange(0, n - removed),
                        packages: Map::empty(),
                    },
                ));
            }
        } else {
            proof {
                assert(self@.modules =~= old(self)@.modules.remove(name@));
            }
        }
        assert(self@ =~= spec_disable(old(self)@, name@, removed as nat));
    }

    /// The latest record of `path`: the one its owner made when it last
    /// recorded the path, if it is owned.
    pub fn record(&self, path: &FilePath) -> (r: Option<PathInfo>)
        requires
            self.wf(),
        ensures
            match r {
                Some(info) => self@.owners.contains_key(path@) && self@.owners[path@].1 == info@,
                None => !self@.owners.contains_key(path@),
            },
    {
        match self.owners.get(path) {
            Some(entry) => Some(entry.1.duplicate()),
            None => None,
        }
    }

    /// Whether a module may write to `path`: when nothing is there, when an
    /// empty directory is there, or when the path's latest record still
    /// matches what is there. `present`, `empty_dir` and `obs` are what the
    /// filesystem shows at `path`.
    pub fn is_writable(&self, path: &FilePath, present: bool, empty_dir: bool, obs: &PathObservation) -> (r:
        bool)
        requires
            self.wf(),
        ensures
            r == (!present || empty_dir || (self@.owners.contains_key(path@) && spec_path_state(
                self@.owners[path@].1,
                *obs,
            ) == PathState::Owned)),
    {
        if !present || empty_dir {
            return true;
        }
        match self.owners.get(path) {
            Some(entry) => entry.1.state(obs) == PathState::Owned,
            None => false,
        }
    }

    /// Records a file copied by the enabled module `module`.
    pub fn add_file(&mut self, module: &str, path: &FilePath, size: u64, hash: Sha256Hash)
        requires
            old(self).wf(),
        ensures
            final(self).wf(),
            final(self)@ == spec_add_path(old(self)@, module@, path@, PathInfoView::File(size, hash@)),
    {
        self.add_path(module, path, PathInfo::File { size, hash })
    }

    /// Records a hard link made by the enabled module `module`.
    pub fn add_hard_link(&mut self, module: &str, path: &FilePath, size: u64, hash: Sha256Hash)
        requires
            old(self).wf(),
        ensures
            final(self).wf(),
            final(self)@ == spec_add_path(
                old(self)@,
                module@,
                path@,
                PathInfoView::HardLink(size, hash@),
            ),
    {
        self.add_path(module, path, PathInfo::HardLink { size, hash })
    }

    /// Records a symlink at `link` to `original` made by the enabled module
    /// `module`.
    pub fn add_link(&mut self, module: &str, original: &FilePath, link: &FilePath)
        requires
            old(self).wf(),
        ensures
            final(self).wf(),
            final(self)@ == spec_add_path(old(self)@, module@, link@, PathInfoView::Symlink(original@)),
    {
        self.add_path(module, link, PathInfo::Symlink { original: original.clone() })
    }

    /// Disables the module `name` at once: returns its path records newest
    /// first, which are then to be removed from the filesystem in that
    /// order, and forgets the module and the paths. An error if it isn't
    /// enabled.
    pub fn remove_module(&mut self, name: &str) -> (r: Result<Vec<(FilePath, PathInfo)>, StateError>)
        requires
            old(self).wf(),
        ensures
            final(self).wf(),
            !old(self)@.modules.contains_key(name@) ==> r == Err::<Vec<(FilePath, PathInfo)>, StateError>(
                StateError::NotEnabled,
            ) && final(self)@ == old(self)@,
            old(self)@.modules.contains_key(name@) ==> (r matches Ok(records) && records@.map_values(
                |e: (FilePath, PathInfo)| (e.0@, e.1@),
            ) == old(self)@.modules[name@].paths.reverse() && final(self)@ == spec_disable(
                old(self)@,
                name@,
                old(self)@.modules[name@].paths.len(),
            )),
    {
        let records = match self.module(name) {
            Some(state) => {
                let all = state.paths();
                let n = all.len();
                let mut out: Vec<(FilePath, PathInfo)> = Vec::new();
                let mut k: usize = n;
                let ghost target = state@.paths;
                while k > 0
                    invariant
                        k <= n,
                        n == all@.len(),
                        all@.map_values(|e: (FilePath, PathInfo)| (e.0@, e.1@)) == target,
                        out@.map_values(|e: (FilePath, PathInfo)| (e.0@, e.1@)) == target.reverse().subrange(
                            0,
                            n - k,
                        ),
                    decreases k,
                {
                    k = k - 1;
                    let entry = (all[k].0.clone(), all[k].1.duplicate());
                    let ghost before = out@;
                    out.push(entry);
                    assert(target[k as int] == (all@[k as int].0@, all@[k as int].1@));
                    assert(out@.map_values(|e: (FilePath, PathInfo)| (e.0@, e.1@)) =~= before.map_values(
                        |e: (FilePath, PathInfo)| (e.0@, e.1@),
                    ).push((entry.0@, entry.1@)));
                    assert(out@.map_values(|e: (FilePath, PathInfo)| (e.0@, e.1@)) =~= target.reverse().subrange(
                        0,
                        n - k,
                    ));
                }
                assert(target.reverse().subrange(0, n as int) =~= target.reverse());
                out
            },
            None => {
                return Err(StateError::NotEnabled);
            },
        };
        let len = records.len();
        self.disable_module(name, len);
        Ok(records)
    }

    /// Sets which module owns which path, and with which record, as saved
    /// with the state: each entry names a path, its owner and the owner's
    /// record, a later entry for the same path winning. The modules' records
    /// and the sources stay as they are.
    pub fn restore_owners(&mut self, entries: Vec<(FilePath, String, PathInfo)>)
        requires
            old(self).wf(),
        ensures
            final(self).wf(),
            final(self)@.sources == old(self)@.sources,
            final(self)@.modules == old(self)@.modules,
            final(self)@.owners == owners_of(
                entries@.map_values(|e: (FilePath, String, PathInfo)| (e.0@, (e.1@, e.2@))),
            ),
            final(self)@.paths == final(self)@.owners.dom(),
    {
        let ghost view = entries@.map_values(|e: (FilePath, String, PathInfo)| (e.0@, (e.1@, e.2@)));
        self.paths = SortedSet::new();
        self.owners = SortedMap::new();
        assert(self@.owners =~= owners_of(view.subrange(0, 0)));
        assert(self.paths@ =~= self.owners@.dom());
        let mut i: usize = 0;
        while i < entries.len()
            invariant
                i <= entries@.len(),
                view == entries@.map_values(|e: (FilePath, String, PathInfo)| (e.0@, (e.1@, e.2@))),
                self.sources == old(self).sources,
                self.modules == old(self).modules,
                self.sources.wf(),
                self.modules.wf(),
                forall|name: Seq<char>| #[trigger]
                    self.modules@.contains_key(name) ==> self.modules@[name].wf(),
                self.paths.wf(),
                self.owners.wf(),
                self.paths@ == self.owners@.dom(),
                self@.owners == owners_of(view.subrange(0, i as int)),
            decreases entries@.len() - i,
        {
            let path = entries[i].0.clone();
            let name = entries[i].1.clone();
            let info = entries[i].2.duplicate();
            let ghost before = self@.owners;
            self.paths.insert(path.clone());
            self.owners.insert(path, (name, info));
            proof {
                let front = view.subrange(0, i + 1);
                assert(front.drop_last() =~= view.subrange(0, i as int));
                assert(front.last() == view[i as int]);
                assert(view[i as int] == (path@, (name@, info@)));
                assert(self@.owners =~= before.insert(path@, (name@, info@)));
                assert(self@.owners =~= owners_of(front));
                assert(self.paths@ =~= self.owners@.dom());
            }
            i = i + 1;
        }
        assert(view.subrange(0, entries@.len() as int) =~= view);
        assert(self@.paths =~= self@.owners.dom());
    }

    /// Which module owns which path, with its record, in ascending order of
    /// paths.
    pub fn owner_entries(&self) -> (r: Vec<(FilePath, String, PathInfo)>)
        requires
            self.wf(),
        ensures
            owners_of(r@.map_values(|e: (FilePath, String, PathInfo)| (e.0@, (e.1@, e.2@)))) == self@.owners,
            forall|i: int, j: int| 0 <= i < j < r@.len() ==> r@[i].0@ != r@[j].0@,
    {
        let mut r: Vec<(FilePath, String, PathInfo)> = Vec::new();
        let n = self.owners.len();
        let mut i: usize = 0;
        proof {
            self.owners.lemma_dom();
            FilePath::lemma_key_order();
        }
        assert(self.owners.keys().subrange(0, 0).to_set() =~= Set::<Seq<ComponentView>>::empty());
        while i < n
            invariant
                self.wf(),
                n == self.owners.keys().len(),
                i <= n,
                r@.len() == i,
                forall|j: int| 0 <= j < i ==> (#[trigger] r@[j]).0@ == self.owners.keys()[j],
                forall|a: int, b: int|
                    0 <= a < b < n ==> <FilePath as SortKey>::key_lt(
                        #[trigger] self.owners.keys()[a],
                        #[trigger] self.owners.keys()[b],
                    ),
                forall|k: Seq<ComponentView>| #[trigger]
                    self.owners@.contains_key(k) <==> self.owners.keys().contains(k),
                forall|j: int|
                    0 <= j < n ==> #[trigger] self.owners@[self.owners.keys()[j]] == self.owners.values()[j],
                owners_of(r@.map_values(|e: (FilePath, String, PathInfo)| (e.0@, (e.1@, e.2@))))
                    == self@.owners.restrict(self.owners.keys().subrange(0, i as int).to_set()),
            decreases n - i,
        {
            let key = self.owners.key_at(i).clone();
            let entry = self.owners.value_at(i);
            let name = entry.0.clone();
            let info = entry.1.duplicate();
            let ghost before = r@;
            r.push((key, name, info));
            proof {
                let rv = r@.map_values(|e: (FilePath, String, PathInfo)| (e.0@, (e.1@, e.2@)));
                assert(rv.drop_last() =~= before.map_values(
                    |e: (FilePath, String, PathInfo)| (e.0@, (e.1@, e.2@)),
                ));
                assert(rv.last() == (key@, (name@, info@)));
                let ks = self.owners.keys();
                assert(ks.subrange(0, i + 1) =~= ks.subrange(0, i as int).push(ks[i as int]));
                ks.subrange(0, i as int).lemma_push_to_set_commute(ks[i as int]);
                assert(self@.owners[ks[i as int]] == (name@, info@));
                assert(owners_of(rv) =~= self@.owners.restrict(ks.subrange(0, i + 1).to_set()));
            }
            i = i + 1;
        }
        proof {
            let ks = self.owners.keys();
            assert(ks.subrange(0, n as int) =~= ks);
            assert(self@.owners.restrict(ks.to_set()) =~= self@.owners);
            assert forall|a: int, b: int| 0 <= a < b < r@.len() implies r@[a].0@ != r@[b].0@ by {
                assert(<FilePath as SortKey>::key_lt(ks[a], ks[b]));
            }
        }
        r
    }

    /// The module that owns `path`: the last one that recorded it, if it is
    /// owned.
    pub fn owner(&self, path: &FilePath) -> (r: Option<String>)
        requires
            self.wf(),
        ensures
            match r {
                Some(name) => self@.owners.contains_key(path@) && self@.owners[path@].0 == name@,
                None => !self@.owners.contains_key(path@),
            },
    {
        match self.owners.get(path) {
            Some(entry) => Some(entry.0.clone()),
            None => None,
        }
    }
}

/// Enabling a module makes it enabled and leaves the owned paths and the
/// fetched sources as they were.
pub proof fn law_add_module_enables(
    s: StateView,
    name: Seq<char>,
    packages: Map<PackageManager, Set<Seq<char>>>,
)
    ensures
        spec_add_module(s, name, packages).modules.contains_key(name),
        spec_add_module(s, name, packages).paths == s.paths,
        spec_add_module(s, name, packages).sources == s.sources,
{
}

/// Enabling a module that is enabled already changes nothing.
pub proof fn law_add_module_idempotent(
    s: StateView,
    name: Seq<char>,
    packages: Map<PackageManager, Set<Seq<char>>>,
    again: Map<PackageManager, Set<Seq<char>>>,
)
    ensures
        spec_add_module(spec_add_module(s, name, packages), name, again) == spec_add_module(
            s,
            name,
            packages,
        ),
{
}

/// A path recorded for a module is owned afterwards by that module with that
/// record, and is the module's newest record; the module is enabled.
pub proof fn law_add_path_owned(
    s: StateView,
    module: Seq<char>,
    path: Seq<ComponentView>,
    info: PathInfoView,
)
    ensures
        spec_add_path(s, module, path, info).paths.contains(path),
        spec_add_path(s, module, path, info).owners[path] == (module, info),
        spec_add_path(s, module, path, info).modules[module].paths.last() == (path, info),
        spec_add_path(s, module, path, info).modules.dom() == s.modules.dom().insert(module),
{
    assert(spec_add_path(s, module, path, info).modules.dom() =~= s.modules.dom().insert(module));
}

/// A recorded source reads back as it was recorded.
pub proof fn law_add_source_recorded(s: StateView, ident: SourceIdentView, source: HashableSourceView)
    ensures
        spec_add_source(s, ident, source).sources.contains_key(ident),
        spec_add_source(s, ident, source).sources[ident] == source,
        spec_add_source(s, ident, source).modules == s.modules,
        spec_add_source(s, ident, source).paths == s.paths,
        spec_add_source(s, ident, source).owners == s.owners,
{
}

/// Once all its paths are removed, disabling a module forgets it, no
/// longer owns any path it created, and leaves the other modules alone.
pub proof fn law_disable_forgets(s: StateView, name: Seq<char>)
    requires
        s.modules.contains_key(name),
    ensures
        !spec_disable(s, name, s.modules[name].paths.len()).modules.contains_key(name),
        forall|i: int|
            0 <= i < s.modules[name].paths.len() ==> !spec_disable(
                s,
                name,
                s.modules[name].paths.len(),
            ).paths.contains(#[trigger] s.modules[name].paths[i].0),
        forall|i: int|
            0 <= i < s.modules[name].paths.len() ==> !spec_disable(
                s,
                name,
                s.modules[name].paths.len(),
            ).owners.contains_key(#[trigger] s.modules[name].paths[i].0),
        forall|other: Seq<char>|
            other != name ==> (#[trigger] spec_disable(
                s,
                name,
                s.modules[name].paths.len(),
            ).modules.contains_key(other) <==> s.modules.contains_key(other)),
        forall|other: Seq<char>|
            other != name && s.modules.contains_key(other) ==> #[trigger] spec_disable(
                s,
                name,
                s.modules[name].paths.len(),
            ).modules[other] == s.modules[other],
{
    let paths = s.modules[name].paths;
    let n = paths.len();
    assert(paths.subrange(0, n as int) =~= paths);
    assert forall|i: int| 0 <= i < n implies !spec_disable(s, name, n).paths.contains(
        #[trigger] paths[i].0,
    ) && !spec_disable(s, name, n).owners.contains_key(paths[i].0) by {
        let firsts = paths.map_values(|e: (Seq<ComponentView>, PathInfoView)| e.0);
        assert(firsts[i] == paths[i].0);
        assert(firsts.contains(paths[i].0));
    }
}

/// Enabling a module and disabling it again before it created anything
/// gives back the state as it was.
pub proof fn law_enable_disable_roundtrip(
    s: StateView,
    name: Seq<char>,
    packages: Map<PackageManager, Set<Seq<char>>>,
)
    requires
        !s.modules.contains_key(name),
    ensures
        spec_disable(spec_add_module(s, name, packages), name, 0) == s,
{
    let t = spec_add_module(s, name, packages);
    let u = spec_disable(t, name, 0);
    let paths = t.modules[name].paths;
    assert(paths.len() == 0);
    assert(record_paths(paths.subrange(0, 0)) =~= Set::<Seq<ComponentView>>::empty()) by {
        assert(paths.subrange(0, 0).map_values(|e: (Seq<ComponentView>, PathInfoView)| e.0)
            =~= Seq::<Seq<ComponentView>>::empty());
    }
    assert(u.modules =~= s.modules);
    assert(u.paths =~= s.paths);
    assert(u =~= s);
}

/// A package is among the packages of all modules in `names` for a manager
/// exactly when one of those modules wants it from that manager.
pub proof fn law_all_packages(
    names: Seq<Seq<char>>,
    modules: Map<Seq<char>, ModuleStateView>,
    manager: PackageManager,
    package: Seq<char>,
)
    ensures
        (spec_all_packages(names, modules).contains_key(manager) && spec_all_packages(
            names,
            modules,
        )[manager].contains(package)) <==> exists|i: int|
            0 <= i < names.len() && (#[trigger] modules[names[i]]).packages.contains_key(manager)
                && modules[names[i]].packages[manager].contains(package),
    decreases names.len(),
{
    if names.len() > 0 {
        let front = names.drop_last();
        law_all_packages(front, modules, manager, package);
        let last = names.len() - 1;
        if exists|i: int|
            0 <= i < front.len() && (#[trigger] modules[front[i]]).packages.contains_key(manager)
                && modules[front[i]].packages[manager].contains(package) {
            let i = choose|i: int|
                0 <= i < front.len() && (#[trigger] modules[front[i]]).packages.contains_key(manager)
                    && modules[front[i]].packages[manager].contains(package);
            assert(names[i] == front[i]);
        }
        if exists|i: int|
            0 <= i < names.len() && (#[trigger] modules[names[i]]).packages.contains_key(manager)
                && modules[names[i]].packages[manager].contains(package) {
            let i = choose|i: int|
                0 <= i < names.len() && (#[trigger] modules[names[i]]).packages.contains_key(manager)
                    && modules[names[i]].packages[manager].contains(package);
            if i < last {
                assert(front[i] == names[i]);
            }
        }
    }
}

/// One call that changes the state, by what it is given.
pub enum StateStep {
    /// `add_module`.
    AddModule { name: Seq<char>, packages: Map<PackageManager, Set<Seq<char>>> },
    /// `add_source`.
    AddSource { ident: SourceIdentView, source: HashableSourceView },
    /// `add_path` and the calls built on it.
    AddPath { module: Seq<char>, path: Seq<ComponentView>, info: PathInfoView },
    /// `disable_module`, once its last `removed` paths are gone.
    Disable { name: Seq<char>, removed: nat },
}

/// Whether `disable_module` may be called as `step` says in `s`.
pub open spec fn disable_allowed(s: StateView, name: Seq<char>, removed: nat) -> bool {
    s.modules.contains_key(name) && removed <= s.modules[name].paths.len()
}

/// The state after one call; a disabling that isn't allowed isn't made.
pub open spec fn spec_step(s: StateView, step: StateStep) -> StateView {
    match step {
        StateStep::AddModule { name, packages } => spec_add_module(s, name, packages),
        StateStep::AddSource { ident, source } => spec_add_source(s, ident, source),
        StateStep::AddPath { module, path, info } => spec_add_path(s, module, path, info),
        StateStep::Disable { name, removed } => if disable_allowed(s, name, removed) {
            spec_disable(s, name, removed)
        } else {
            s
        },
    }
}

/// The state after the calls `steps`, in order.
pub open spec fn spec_run(s: StateView, steps: Seq<StateStep>) -> StateView
    decreases steps.len(),
{
    if steps.len() == 0 {
        s
    } else {
        spec_step(spec_run(s, steps.drop_last()), steps.last())
    }
}

/// Whether a call in state `s` may change who owns `path`: it records the
/// path again, or it disables a module and forgets the path with the
/// records it removes.
pub open spec fn step_touches_path(s: StateView, step: StateStep, path: Seq<ComponentView>) -> bool {
    match step {
        StateStep::AddPath { path: p, .. } => p == path,
        StateStep::Disable { name, removed } => disable_allowed(s, name, removed) && record_paths(
            s.modules[name].paths.subrange(
                s.modules[name].paths.len() - removed,
                s.modules[name].paths.len() as int,
            ),
        ).contains(path),
        _ => false,
    }
}

/// Whether a call names the module `name`.
pub open spec fn step_names_module(step: StateStep, name: Seq<char>) -> bool {
    match step {
        StateStep::AddModule { name: n, .. } => n == name,
        StateStep::AddPath { module, .. } => module == name,
        StateStep::Disable { name: n, .. } => n == name,
        StateStep::AddSource { .. } => false,
    }
}

/// After the `k`th call records `path` for module `m`, `m` owns the path
/// with that record for as long as no later call records the path again
/// or forgets it by removing the records of a module.
pub proof fn law_owner_is_latest(s: StateView, steps: Seq<StateStep>, k: int)
    requires
        0 <= k < steps.len(),
        steps[k] is AddPath,
        forall|j: int|
            k < j < steps.len() ==> !step_touches_path(
                spec_run(s, steps.take(j)),
                #[trigger] steps[j],
                steps[k]->AddPath_path,
            ),
    ensures
        spec_run(s, steps).owners.contains_key(steps[k]->AddPath_path),
        spec_run(s, steps).owners[steps[k]->AddPath_path] == (
            steps[k]->AddPath_module,
            steps[k]->AddPath_info,
        ),
    decreases steps.len(),
{
    let p = steps[k]->AddPath_path;
    let front = steps.drop_last();
    let u = spec_run(s, front);
    assert(front =~= steps.take(steps.len() - 1));
    if k == steps.len() - 1 {
        assert(steps.last() == steps[k]);
    } else {
        assert forall|j: int| k < j < front.len() implies !step_touches_path(
            spec_run(s, front.take(j)),
            #[trigger] front[j],
            front[k]->AddPath_path,
        ) by {
            assert(front.take(j) =~= steps.take(j));
            assert(front[j] == steps[j]);
            assert(!step_touches_path(spec_run(s, steps.take(j)), steps[j], p));
        }
        assert(front[k] == steps[k]);
        law_owner_is_latest(s, front, k);
        let last = steps.last();
        assert(!step_touches_path(spec_run(s, steps.take(steps.len() - 1)), steps[steps.len() - 1], p));
        match last {
            StateStep::Disable { name, removed } => {
                if disable_allowed(u, name, removed) {
                    let paths = u.modules[name].paths;
                    let gone = paths.subrange(paths.len() - removed, paths.len() as int);
                    assert(!record_paths(gone).contains(p));
                }
            },
            _ => {},
        }
    }
}

/// Only calls that name a module change whether it is enabled: adding it
/// or a path for it enables it, disabling it with all its paths gone
/// forgets it, and other calls leave it as it was.
pub proof fn law_enabled_by_own_calls(s: StateView, steps: Seq<StateStep>, name: Seq<char>)
    ensures
        (forall|j: int| 0 <= j < steps.len() ==> !step_names_module(#[trigger] steps[j], name))
            ==> (spec_run(s, steps).modules.contains_key(name) == s.modules.contains_key(name)),
        steps.len() > 0 && (steps.last() matches StateStep::AddModule { name: n, .. } && n == name)
            ==> spec_run(s, steps).modules.contains_key(name),
        steps.len() > 0 && (steps.last() matches StateStep::AddPath { module, .. } && module == name)
            ==> spec_run(s, steps).modules.contains_key(name),
        steps.len() > 0 && (steps.last() matches StateStep::Disable { name: n, removed } && n == name
            && disable_allowed(spec_run(s, steps.drop_last()), name, removed) && removed == spec_run(
            s,
            steps.drop_last(),
        ).modules[name].paths.len()) ==> !spec_run(s, steps).modules.contains_key(name),
    decreases steps.len(),
{
    if steps.len() > 0 {
        let front = steps.drop_last();
        law_enabled_by_own_calls(s, front, name);
        if forall|j: int| 0 <= j < steps.len() ==> !step_names_module(#[trigger] steps[j], name) {
            assert forall|j: int| 0 <= j < front.len() implies !step_names_module(#[trigger] front[j], name) by {
                assert(front[j] == steps[j]);
            }
            assert(!step_names_module(steps[steps.len() - 1], name));
        }
    }
}

/// A path that no call records stays without an owner: recording other
/// paths, enabling modules and fetching sources never give it one, and
/// disabling only takes owners away.
pub proof fn law_owner_never_added(s: StateView, steps: Seq<StateStep>, path: Seq<ComponentView>)
    requires
        !s.owners.contains_key(path),
        forall|j: int| 0 <= j < steps.len() ==> !(#[trigger] steps[j] matches StateStep::AddPath {
            path: p,
            ..
        } && p == path),
    ensures
        !spec_run(s, steps).owners.contains_key(path),
    decreases steps.len(),
{
    if steps.len() > 0 {
        let front = steps.drop_last();
        assert forall|j: int| 0 <= j < front.len() implies !(#[trigger] front[j] matches StateStep::AddPath {
            path: p,
            ..
        } && p == path) by {
            assert(front[j] == steps[j]);
        }
        law_owner_never_added(s, front, path);
        assert(!(steps[steps.len() - 1] matches StateStep::AddPath { path: p, .. } && p == path));
    }
}

} // verus!
