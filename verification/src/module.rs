//! Module definitions: the files, hard links, symlinks and templates a
//! module creates, where their contents come from, and the modules it
//! imports.

use vstd::prelude::*;

use crate::config::{contains_string, lemma_strings_view_push, modules_matching_globs, strings_view, Config};
use crate::globs::{globs_match, Globs, GlobsView};
use crate::mode::Mode;
use crate::owner::{
    ids_from_users, lemma_ids_from_users_extend, lemma_owner_cached_extend, lemma_owner_error_extend,
    lemma_users_extend_trans, owner_cached, owner_error, users_extend, Owner, OwnerError, OwnerIds,
    OwnerIdsView, Users, UsersView,
};
use crate::path::{ComponentView, FilePath};
use crate::source::{
    spec_ident_path, HashableSource, HashableSourceView, SourceIdent, SourceIdentView, SourceName,
    SourcePath,
};
use crate::env::{spec_child, Env, EnvView};
use crate::path::{spec_join, spec_untildefy};
use crate::sha256::Sha256Hash;
use crate::state::{
    merge_into, merge_packages, packages_view, packages_wf, spec_add_path, PathInfo, PathInfoView, Packages, State,
    StateView,
};
use crate::packages::PackageManager;
use crate::sha256::sha256_digest;
use crate::sorted_map::{SortedMap, SortedSet};
use crate::order::SortKey;
use crate::path::path_lt;

verus! {

#[verifier::external_type_specification]
#[verifier::external_body]
pub struct ExTomlValue(toml::Value);

/// Where a link of a module gets its contents.
#[derive(Debug, PartialEq, Eq)]
pub enum ModuleSource {
    /// A source defined by name, with an optional path inside it.
    Named(SourcePath),
    /// A source written in the module itself, for the link path `link` as
    /// the module writes it.
    Unnamed { source: HashableSource, link: String },
}

/// Where a link gets its contents, as plain values.
pub enum ModuleSourceView {
    Named(Seq<char>, Option<Seq<ComponentView>>),
    Unnamed(HashableSourceView, Seq<char>),
}

impl View for ModuleSource {
    type V = ModuleSourceView;

    open spec fn view(&self) -> ModuleSourceView {
        match self {
            ModuleSource::Named(p) => ModuleSourceView::Named(
                p.name@,
                match p.path {
                    Some(path) => Some(path@),
                    None => None,
                },
            ),
            ModuleSource::Unnamed { source, link } => ModuleSourceView::Unnamed(source@, link@),
        }
    }
}

impl ModuleSource {
    /// A copy of the source.
    pub fn duplicate(&self) -> (r: ModuleSource)
        ensures
            r@ == self@,
    {
        match self {
            ModuleSource::Named(p) => ModuleSource::Named(
                SourcePath {
                    name: SourceName::from_file_name(p.name.as_str().to_owned()),
                    path: match &p.path {
                        Some(path) => Some(path.clone()),
                        None => None,
                    },
                },
            ),
            ModuleSource::Unnamed { source, link } => ModuleSource::Unnamed {
                source: source.duplicate(),
                link: link.clone(),
            },
        }
    }
}

/// The kinds of links a module creates.
#[derive(Clone, Copy, Debug, PartialEq, Eq, Structural)]
pub enum LinkKind {
    /// A copy of the source.
    File,
    /// A hard link to the source.
    HardLink,
    /// A symlink to the source.
    Symlink,
    /// The source rendered as a template.
    Template,
}

/// The entries of a list of links, as plain values.
pub open spec fn entries_view(v: Seq<(FilePath, ModuleSource)>) -> Seq<
    (Seq<ComponentView>, ModuleSourceView),
> {
    v.map_values(|e: (FilePath, ModuleSource)| (e.0@, e.1@))
}

/// Whether `m` maps each path of `entries` to the last source given for it,
/// and nothing else.
pub open spec fn map_of_entries(
    m: Map<Seq<ComponentView>, ModuleSourceView>,
    entries: Seq<(Seq<ComponentView>, ModuleSourceView)>,
) -> bool {
    &&& forall|p: Seq<ComponentView>| #[trigger]
        m.contains_key(p) <==> exists|i: int| 0 <= i < entries.len() && entries[i].0 == p
    &&& forall|i: int|
        #![trigger entries[i]]
        0 <= i < entries.len() && (forall|j: int| i < j < entries.len() ==> entries[j].0 != entries[i].0)
            ==> m[entries[i].0] == entries[i].1
}

/// A module definition.
pub struct Module {
    imports: Globs,
    owner: Option<Owner>,
    mode: Option<Mode>,
    files: SortedMap<FilePath, ModuleSource>,
    hard_links: SortedMap<FilePath, ModuleSource>,
    symlinks: SortedMap<FilePath, ModuleSource>,
    templates: SortedMap<FilePath, ModuleSource>,
    context: Vec<(String, toml::Value)>,
    packages: Packages,
}

/// Builds the map of one kind of links.
fn link_map(entries: Vec<(FilePath, ModuleSource)>) -> (r: SortedMap<FilePath, ModuleSource>)
    ensures
        r.wf(),
        map_of_entries(r@.map_values(|s: ModuleSource| s@), entries_view(entries@)),
{
    let ghost ev = entries_view(entries@);
    let ghost orig = entries@;
    let r = SortedMap::from_entries(entries);
    proof {
        let m = r@.map_values(|s: ModuleSource| s@);
        assert forall|p: Seq<ComponentView>| #[trigger]
            m.contains_key(p) <==> exists|i: int| 0 <= i < ev.len() && ev[i].0 == p by {
            if m.contains_key(p) {
                let i = choose|i: int| 0 <= i < orig.len() && orig[i].0@ == p;
                assert(ev[i].0 == p);
            }
            if exists|i: int| 0 <= i < ev.len() && ev[i].0 == p {
                let i = choose|i: int| 0 <= i < ev.len() && ev[i].0 == p;
                assert(orig[i].0@ == p);
            }
        }
        assert forall|i: int|
            #![trigger ev[i]]
            0 <= i < ev.len() && (forall|j: int| i < j < ev.len() ==> ev[j].0 != ev[i].0) implies m[ev[i].0]
                == ev[i].1 by {
            assert forall|j: int| i < j < orig.len() implies orig[j].0@ != orig[i].0@ by {
                assert(ev[j].0 != ev[i].0);
            }
        }
    }
    r
}

impl Module {
    /// The globs of the modules it imports.
    pub closed spec fn imports_view(&self) -> GlobsView {
        self.imports@
    }

    /// The links of one kind, by path.
    pub closed spec fn links_view(&self, kind: LinkKind) -> Map<Seq<ComponentView>, ModuleSourceView> {
        match kind {
            LinkKind::File => self.files@.map_values(|s: ModuleSource| s@),
            LinkKind::HardLink => self.hard_links@.map_values(|s: ModuleSource| s@),
            LinkKind::Symlink => self.symlinks@.map_values(|s: ModuleSource| s@),
            LinkKind::Template => self.templates@.map_values(|s: ModuleSource| s@),
        }
    }

    /// The paths of the links of one kind, in ascending order.
    pub closed spec fn link_paths(&self, kind: LinkKind) -> Seq<Seq<ComponentView>> {
        match kind {
            LinkKind::File => self.files.keys(),
            LinkKind::HardLink => self.hard_links.keys(),
            LinkKind::Symlink => self.symlinks.keys(),
            LinkKind::Template => self.templates.keys(),
        }
    }

    /// The names of the template variables it defines, in order.
    pub closed spec fn context_names(&self) -> Seq<Seq<char>> {
        self.context@.map_values(|e: (String, toml::Value)| e.0@)
    }

    /// The template variables it defines, by name and value, in order.
    pub closed spec fn context_entries(&self) -> Seq<(Seq<char>, toml::Value)> {
        self.context@.map_values(|e: (String, toml::Value)| (e.0@, e.1))
    }

    /// The owner of the paths it creates, if given.
    pub closed spec fn owner_spec(&self) -> Option<Owner> {
        self.owner
    }

    /// The mode of the paths it creates, if given.
    pub closed spec fn mode_spec(&self) -> Option<Mode> {
        self.mode
    }

    /// The packages it wants, by package manager.
    pub closed spec fn packages_spec(&self) -> Packages {
        self.packages
    }

    /// Whether the link maps are well formed.
    pub closed spec fn wf(&self) -> bool {
        &&& packages_wf(self.packages)
        &&& self.files.wf()
        &&& self.hard_links.wf()
        &&& self.symlinks.wf()
        &&& self.templates.wf()
    }

    /// A module that imports the modules `imports` matches, gives created
    /// paths the owner `owner` and the mode `mode`, creates the given links
    /// (for a path given twice, the last entry counts) and defines the
    /// template variables `context`; it wants the packages `packages`.
    pub fn new(
        imports: Globs,
        owner: Option<Owner>,
        mode: Option<Mode>,
        files: Vec<(FilePath, ModuleSource)>,
        hard_links: Vec<(FilePath, ModuleSource)>,
        symlinks: Vec<(FilePath, ModuleSource)>,
        templates: Vec<(FilePath, ModuleSource)>,
        context: Vec<(String, toml::Value)>,
        packages: Packages,
    ) -> (r: Module)
        requires
            packages_wf(packages),
        ensures
            r.wf(),
            r.imports_view() == imports@,
            r.owner_spec() == owner,
            r.mode_spec() == mode,
            map_of_entries(r.links_view(LinkKind::File), entries_view(files@)),
            map_of_entries(r.links_view(LinkKind::HardLink), entries_view(hard_links@)),
            map_of_entries(r.links_view(LinkKind::Symlink), entries_view(symlinks@)),
            map_of_entries(r.links_view(LinkKind::Template), entries_view(templates@)),
            r.context_names() == context@.map_values(|e: (String, toml::Value)| e.0@),
            r.context_entries() == context@.map_values(|e: (String, toml::Value)| (e.0@, e.1)),
            r.packages_spec() == packages,
    {
        Module {
            imports,
            owner,
            mode,
            files: link_map(files),
            hard_links: link_map(hard_links),
            symlinks: link_map(symlinks),
            templates: link_map(templates),
            context,
            packages,
        }
    }

    /// The globs of the modules it imports.
    pub fn imports(&self) -> (r: &Globs)
        ensures
            r@ == self.imports_view(),
    {
        &self.imports
    }

    /// The owner of the paths it creates, if given.
    pub fn owner(&self) -> (r: &Option<Owner>)
        ensures
            *r == self.owner_spec(),
    {
        &self.owner
    }

    /// The mode of the paths it creates, if given.
    pub fn mode(&self) -> (r: Option<Mode>)
        ensures
            r == self.mode_spec(),
    {
        self.mode
    }

    /// The links of one kind.
    pub fn links(&self, kind: LinkKind) -> (r: &SortedMap<FilePath, ModuleSource>)
        ensures
            self.wf() ==> r.wf(),
            r@.map_values(|s: ModuleSource| s@) == self.links_view(kind),
            r.keys() == self.link_paths(kind),
    {
        match kind {
            LinkKind::File => &self.files,
            LinkKind::HardLink => &self.hard_links,
            LinkKind::Symlink => &self.symlinks,
            LinkKind::Template => &self.templates,
        }
    }

    /// The packages it wants.
    pub fn packages(&self) -> (r: &Packages)
        ensures
            *r == self.packages_spec(),
            self.wf() ==> packages_wf(*r),
    {
        &self.packages
    }

    /// The template variables it defines.
    pub fn context(&self) -> (r: &Vec<(String, toml::Value)>)
        ensures
            r@.map_values(|e: (String, toml::Value)| e.0@) == self.context_names(),
            r@.map_values(|e: (String, toml::Value)| (e.0@, e.1)) == self.context_entries(),
    {
        &self.context
    }
}

/// Whether the module `a` imports the defined module `b`.
pub open spec fn imported_by(modules: Map<Seq<char>, Module>, a: Seq<char>, b: Seq<char>) -> bool {
    modules.contains_key(b) && globs_match(modules[a].imports_view(), b)
}

/// A well-formed list of imported modules: distinct defined modules, each
/// after the first imported by one before it.
pub open spec fn import_list_wf(modules: Map<Seq<char>, Module>, names: Seq<Seq<char>>) -> bool {
    &&& names.no_duplicates()
    &&& forall|i: int| 0 <= i < names.len() ==> modules.contains_key(#[trigger] names[i])
    &&& forall|i: int|
        0 < i < names.len() ==> exists|j: int|
            0 <= j < i && imported_by(modules, names[j], #[trigger] names[i])
}

/// Whether every module that a module of `names` imports is in `names`.
pub open spec fn import_list_closed(modules: Map<Seq<char>, Module>, names: Seq<Seq<char>>) -> bool {
    forall|i: int, b: Seq<char>|
        0 <= i < names.len() && #[trigger] imported_by(modules, names[i], b) ==> names.contains(b)
}

/// A module together with the modules it imports, directly or not: the
/// first name is the module's own.
pub struct ModuleSet {
    names: Vec<String>,
}

impl View for ModuleSet {
    type V = Seq<Seq<char>>;

    closed spec fn view(&self) -> Seq<Seq<char>> {
        strings_view(self.names@)
    }
}

/// A list of distinct defined modules is no longer than the list of all
/// defined modules.
proof fn lemma_import_list_len(config: Config, names: Seq<Seq<char>>)
    requires
        config.wf(),
        names.no_duplicates(),
        forall|i: int| 0 <= i < names.len() ==> config.module_map().contains_key(#[trigger] names[i]),
    ensures
        names.len() <= config.module_name_seq().len(),
{
    config.lemma_names();
    names.unique_seq_to_set();
    config.module_name_seq().lemma_cardinality_of_set();
    assert forall|x: Seq<char>| names.to_set().contains(x) implies config.module_name_seq().to_set().contains(
        x,
    ) by {
        let i = choose|i: int| 0 <= i < names.len() && names[i] == x;
        assert(config.module_map().contains_key(names[i]));
    }
    vstd::set_lib::lemma_len_subset(names.to_set(), config.module_name_seq().to_set());
}

/// The modules that `source` imports, in the order `order` of all modules.
pub open spec fn import_candidates(
    modules: Map<Seq<char>, Module>,
    order: Seq<Seq<char>>,
    source: Seq<char>,
) -> Seq<Seq<char>> {
    order.filter(|n: Seq<char>| globs_match(modules[source].imports_view(), n))
}

/// The modules found depth first from `source`, after those in `visited`:
/// each module it imports that isn't there yet is added, followed by what
/// is found from it, before the next one. `fuel` bounds the depth; the
/// number of modules is always enough.
pub open spec fn import_from(
    modules: Map<Seq<char>, Module>,
    order: Seq<Seq<char>>,
    fuel: nat,
    visited: Seq<Seq<char>>,
    source: Seq<char>,
) -> Seq<Seq<char>>
    decreases fuel, 1int, 0int,
{
    import_each(modules, order, fuel, visited, import_candidates(modules, order, source))
}

/// The modules found depth first from each of `candidates` in turn, after
/// those in `visited`.
pub open spec fn import_each(
    modules: Map<Seq<char>, Module>,
    order: Seq<Seq<char>>,
    fuel: nat,
    visited: Seq<Seq<char>>,
    candidates: Seq<Seq<char>>,
) -> Seq<Seq<char>>
    decreases fuel, 0int, candidates.len(),
{
    if candidates.len() == 0 {
        visited
    } else {
        let c = candidates[0];
        let next = if visited.contains(c) || fuel == 0 {
            visited
        } else {
            import_from(modules, order, (fuel - 1) as nat, visited.push(c), c)
        };
        import_each(modules, order, fuel, next, candidates.drop_first())
    }
}

/// Adds the modules that the module at `from` imports, and the ones they
/// import in turn, depth first, in ascending order of names at each step.
fn import_inner(config: &Config, names: &mut Vec<String>, from: usize, Ghost(fuel): Ghost<nat>)
    requires
        config.wf(),
        import_list_wf(config.module_map(), strings_view(old(names)@)),
        from < old(names)@.len(),
        fuel + old(names)@.len() >= config.module_name_seq().len(),
    ensures
        strings_view(final(names)@) == import_from(
            config.module_map(),
            config.module_name_seq(),
            fuel,
            strings_view(old(names)@),
            strings_view(old(names)@)[from as int],
        ),
        import_list_wf(config.module_map(), strings_view(final(names)@)),
        strings_view(old(names)@).len() <= strings_view(final(names)@).len(),
        strings_view(final(names)@).subrange(0, old(names)@.len() as int) == strings_view(
            old(names)@,
        ),
        forall|b: Seq<char>|
            #[trigger] imported_by(config.module_map(), strings_view(old(names)@)[from as int], b)
                ==> strings_view(final(names)@).contains(b),
        forall|i: int, b: Seq<char>|
            old(names)@.len() <= i < final(names)@.len() && #[trigger] imported_by(
                config.module_map(),
                strings_view(final(names)@)[i],
                b,
            ) ==> strings_view(final(names)@).contains(b),
    decreases config.module_name_seq().len() - old(names)@.len(),
{
    let ghost modules = config.module_map();
    let ghost start = strings_view(names@);
    let ghost source = start[from as int];
    proof {
        config.lemma_names();
        lemma_import_list_len(*config, start);
    }
    let candidates = match crate::config::module(config, names[from].as_str()) {
        Some((_, m)) => modules_matching_globs(config, m.imports()),
        None => Vec::new(),
    };
    assert(names@[from as int]@ == source);
    assert(modules.contains_key(source));
    let ghost pred = |n: Seq<char>| globs_match(modules[source].imports_view(), n);
    assert(strings_view(candidates@) == config.module_name_seq().filter(pred));
    let ghost order = config.module_name_seq();
    let ghost cands = strings_view(candidates@);
    assert(cands == import_candidates(modules, order, source));
    assert(cands.subrange(0, cands.len() as int) =~= cands);
    let mut k: usize = 0;
    while k < candidates.len()
        invariant
            config.wf(),
            order == config.module_name_seq(),
            cands == strings_view(candidates@),
            fuel + start.len() >= order.len(),
            import_each(modules, order, fuel, start, cands) == import_each(
                modules,
                order,
                fuel,
                strings_view(names@),
                cands.subrange(k as int, cands.len() as int),
            ),
            modules == config.module_map(),
            start == strings_view(old(names)@),
            from < start.len(),
            source == start[from as int],
            modules.contains_key(source),
            strings_view(candidates@) == config.module_name_seq().filter(pred),
            pred == (|n: Seq<char>| globs_match(modules[source].imports_view(), n)),
            k <= candidates@.len(),
            import_list_wf(modules, strings_view(names@)),
            start.len() <= strings_view(names@).len(),
            strings_view(names@).subrange(0, start.len() as int) == start,
            forall|c: int| 0 <= c < k ==> strings_view(names@).contains(#[trigger] strings_view(candidates@)[c]),
            forall|i: int, b: Seq<char>|
                start.len() <= i < names@.len() && #[trigger] imported_by(
                    modules,
                    strings_view(names@)[i],
                    b,
                ) ==> strings_view(names@).contains(b),
        decreases candidates@.len() - k,
    {
        let c = &candidates[k];
        let ghost cv = c@;
        let ghost iter_start = strings_view(names@);
        assert(strings_view(candidates@)[k as int] == cv);
        let ghost rest = cands.subrange(k as int, cands.len() as int);
        assert(rest[0] == cv);
        assert(rest.drop_first() =~= cands.subrange(k + 1, cands.len() as int));
        proof {
            assert(config.module_name_seq().filter(pred).contains(cv)) by {
                assert(config.module_name_seq().filter(pred)[k as int] == cv);
            }
            config.module_name_seq().lemma_filter_pred(pred, k as int);
            config.module_name_seq().lemma_filter_contains_rev(pred, cv);
            config.lemma_names();
            assert(modules.contains_key(cv));
        }
        if !contains_string(names, c) {
            let ghost before = strings_view(names@);
            let ghost before_names = names@;
            let idx = names.len();
            let copy = c.clone();
            names.push(copy);
            proof {
                lemma_strings_view_push(before_names, copy);
                let after = strings_view(names@);
                assert(after =~= before.push(cv));
                assert(after.subrange(0, start.len() as int) =~= start) by {
                    assert(before.subrange(0, start.len() as int) == start);
                }
                assert(imported_by(modules, source, cv));
                assert(before[from as int] == source);
                assert forall|i: int| 0 < i < after.len() implies exists|j: int|
                    0 <= j < i && imported_by(modules, after[j], #[trigger] after[i]) by {
                    if i == before.len() {
                        assert(after[from as int] == source);
                    } else {
                        let j = choose|j: int| 0 <= j < i && imported_by(modules, before[j], before[i]);
                        assert(after[j] == before[j]);
                    }
                }
                assert(after.no_duplicates());
                lemma_import_list_len(*config, after);
                assert(names@.len() > start.len());
                assert(names@.len() <= config.module_name_seq().len());
            }
            let ghost pushed = strings_view(names@);
            proof {
                assert(!iter_start.contains(cv));
                assert(fuel > 0);
                assert(pushed == iter_start.push(cv));
                assert(pushed[idx as int] == cv);
            }
            import_inner(config, names, idx, Ghost((fuel - 1) as nat));
            proof {
                let fin = strings_view(names@);
                assert(fin.subrange(0, pushed.len() as int)[idx as int] == cv);
                assert(fin.contains(cv));
                assert(fin.subrange(0, iter_start.len() as int) =~= iter_start) by {
                    assert forall|j: int| 0 <= j < iter_start.len() implies fin[j] == iter_start[j] by {
                        assert(fin.subrange(0, pushed.len() as int)[j] == pushed[j]);
                    }
                }
                assert forall|i: int, b: Seq<char>|
                    start.len() <= i < names@.len() && #[trigger] imported_by(
                        modules,
                        strings_view(names@)[i],
                        b,
                    ) implies strings_view(names@).contains(b) by {
                    if i < iter_start.len() {
                        assert(fin[i] == fin.subrange(0, iter_start.len() as int)[i]);
                        assert(iter_start.contains(b));
                        let j = choose|j: int| 0 <= j < iter_start.len() && iter_start[j] == b;
                        assert(fin.subrange(0, iter_start.len() as int)[j] == b);
                    } else if i == idx {
                        assert(fin[i] == fin.subrange(0, pushed.len() as int)[i]);
                        assert(pushed[idx as int] == fin[i]);
                    }
                }
            }
        } else {
            assert(strings_view(names@).subrange(0, iter_start.len() as int) =~= iter_start);
        }
        proof {
            let fin = strings_view(names@);
            assert(fin.subrange(0, iter_start.len() as int) == iter_start);
            assert(fin.contains(cv));
            assert forall|c: int| 0 <= c < k + 1 implies fin.contains(
                #[trigger] strings_view(candidates@)[c],
            ) by {
                if c < k {
                    let x = strings_view(candidates@)[c];
                    let j = choose|j: int| 0 <= j < iter_start.len() && iter_start[j] == x;
                    assert(fin.subrange(0, iter_start.len() as int)[j] == x);
                }
            }
            assert(fin.subrange(0, start.len() as int) =~= start) by {
                assert forall|j: int| 0 <= j < start.len() implies fin[j] == start[j] by {
                    assert(fin.subrange(0, iter_start.len() as int)[j] == iter_start[j]);
                    assert(iter_start.subrange(0, start.len() as int)[j] == start[j]);
                }
            }
        }
        k = k + 1;
    }
    proof {
        let fin = strings_view(names@);
        assert forall|b: Seq<char>| #[trigger] imported_by(modules, source, b) implies fin.contains(b) by {
            config.lemma_names();
            assert(config.module_name_seq().contains(b));
            let i = choose|i: int| 0 <= i < config.module_name_seq().len() && config.module_name_seq()[i] == b;
            config.module_name_seq().lemma_filter_contains(pred, i);
            let c = choose|c: int|
                0 <= c < strings_view(candidates@).len() && strings_view(candidates@)[c] == b;
            assert(fin.contains(strings_view(candidates@)[c]));
        }
    }
}

impl ModuleSet {
    /// The defined module `name` with all the modules it imports, directly
    /// or not.
    pub fn import(config: &Config, name: &str) -> (r: ModuleSet)
        requires
            config.wf(),
            config.module_map().contains_key(name@),
        ensures
            r@ == import_from(
                config.module_map(),
                config.module_name_seq(),
                config.module_name_seq().len(),
                seq![name@],
                name@,
            ),
            r@.len() >= 1,
            r@[0] == name@,
            import_list_wf(config.module_map(), r@),
            import_list_closed(config.module_map(), r@),
    {
        let mut names: Vec<String> = Vec::new();
        names.push(name.to_owned());
        assert(strings_view(names@) =~= seq![name@]);
        import_inner(config, &mut names, 0, Ghost(config.module_name_seq().len()));
        let r = ModuleSet { names };
        proof {
            let v = strings_view(r.names@);
            assert(v.subrange(0, 1) == seq![name@]);
            assert(v[0] == v.subrange(0, 1)[0]);
        }
        r
    }

    /// The names of the modules, the imported one first.
    pub fn names(&self) -> (r: &Vec<String>)
        ensures
            strings_view(r@) == self@,
    {
        &self.names
    }
}

/// The rank of a kind of link in the order links are created in.
pub open spec fn kind_rank(k: LinkKind) -> int {
    match k {
        LinkKind::File => 0,
        LinkKind::HardLink => 1,
        LinkKind::Symlink => 2,
        LinkKind::Template => 3,
    }
}


/// A link to create: its kind, path and source, and the owner and mode to
/// give what it creates.
#[derive(Debug, PartialEq, Eq)]
pub struct ModuleLink {
    kind: LinkKind,
    path: FilePath,
    source: ModuleSource,
    owner: Option<OwnerIds>,
    mode: Option<Mode>,
}

/// A link as plain values.
pub struct ModuleLinkView {
    pub kind: LinkKind,
    pub path: Seq<ComponentView>,
    pub source: ModuleSourceView,
    pub owner: Option<OwnerIdsView>,
    pub mode: Option<Mode>,
}

/// The view of an optional owner.
pub open spec fn owner_view(o: Option<OwnerIds>) -> Option<OwnerIdsView> {
    match o {
        Some(ids) => Some(ids@),
        None => None,
    }
}

impl View for ModuleLink {
    type V = ModuleLinkView;

    closed spec fn view(&self) -> ModuleLinkView {
        ModuleLinkView {
            kind: self.kind,
            path: self.path@,
            source: self.source@,
            owner: owner_view(self.owner),
            mode: self.mode,
        }
    }
}

impl ModuleLink {
    /// The kind of link.
    pub fn kind(&self) -> (r: LinkKind)
        ensures
            r == self@.kind,
    {
        self.kind
    }

    /// Where the link is created.
    pub fn path(&self) -> (r: &FilePath)
        ensures
            r@ == self@.path,
    {
        &self.path
    }

    /// Where its contents come from.
    pub fn source(&self) -> (r: &ModuleSource)
        ensures
            r@ == self@.source,
    {
        &self.source
    }

    /// The owner to give what it creates.
    pub fn owner(&self) -> (r: Option<OwnerIds>)
        ensures
            owner_view(r) == self@.owner,
    {
        self.owner
    }

    /// The mode to give what it creates.
    pub fn mode(&self) -> (r: Option<Mode>)
        ensures
            r == self@.mode,
    {
        self.mode
    }
}

/// The paths of all links of a module.
pub open spec fn module_paths(m: Module) -> Set<Seq<ComponentView>> {
    m.links_view(LinkKind::File).dom() + m.links_view(LinkKind::HardLink).dom() + m.links_view(
        LinkKind::Symlink,
    ).dom() + m.links_view(LinkKind::Template).dom()
}

/// Whether no path is given to two kinds of links of a module.
pub open spec fn module_paths_distinct(m: Module) -> bool {
    forall|a: LinkKind, b: LinkKind, p: Seq<ComponentView>|
        #![trigger m.links_view(a).contains_key(p), m.links_view(b).contains_key(p)]
        m.links_view(a).contains_key(p) && m.links_view(b).contains_key(p) ==> a == b
}

/// Whether no path is used twice by the links of the first `n` modules of
/// `names`.
pub open spec fn links_distinct_upto(
    modules: Map<Seq<char>, Module>,
    names: Seq<Seq<char>>,
    n: int,
) -> bool {
    &&& forall|i: int| 0 <= i < n ==> module_paths_distinct(#[trigger] modules[names[i]])
    &&& forall|i: int, j: int, p: Seq<ComponentView>|
        #![trigger module_paths(modules[names[i]]).contains(p), module_paths(modules[names[j]]).contains(p)]
        0 <= i < j < n && module_paths(modules[names[i]]).contains(p) ==> !module_paths(
            modules[names[j]],
        ).contains(p)
}

/// Whether no path is used twice by the links of the modules `names`.
pub open spec fn links_distinct(modules: Map<Seq<char>, Module>, names: Seq<Seq<char>>) -> bool {
    links_distinct_upto(modules, names, names.len() as int)
}

/// The paths of the links of the first `n` modules of `names`.
pub open spec fn paths_upto(modules: Map<Seq<char>, Module>, names: Seq<Seq<char>>, n: int) -> Set<
    Seq<ComponentView>,
> {
    Set::new(
        |p: Seq<ComponentView>| exists|i: int| 0 <= i < n && #[trigger] module_paths(modules[names[i]]).contains(p),
    )
}

/// Adds the paths of `entries` to `used`, failing with the first one that
/// is there already.
fn check_paths(used: &mut SortedSet<FilePath>, entries: &SortedMap<FilePath, ModuleSource>) -> (r:
    Result<(), FilePath>)
    requires
        old(used).wf(),
        entries.wf(),
    ensures
        final(used).wf(),
        r is Ok ==> final(used)@ == old(used)@ + entries@.dom() && old(used)@.disjoint(entries@.dom()),
        r matches Err(p) ==> old(used)@.contains(p@) && entries@.contains_key(p@),
{
    let n = entries.len();
    let mut j: usize = 0;
    proof {
        entries.lemma_dom();
    }
    while j < n
        invariant
            used.wf(),
            entries.wf(),
            n == entries.keys().len(),
            j <= n,
            forall|k: Seq<ComponentView>| #[trigger] entries@.contains_key(k) <==> entries.keys().contains(k),
            forall|a: int, b: int|
                0 <= a < b < entries.keys().len() ==> path_lt(
                    #[trigger] entries.keys()[a],
                    #[trigger] entries.keys()[b],
                ),
            used@ == old(used)@ + entries.keys().subrange(0, j as int).to_set(),
            old(used)@.disjoint(entries.keys().subrange(0, j as int).to_set()),
        decreases n - j,
    {
        let k = entries.key_at(j);
        let ghost kv = k@;
        proof {
            entries.keys().subrange(0, j as int).lemma_push_to_set_commute(kv);
            assert(entries.keys().subrange(0, j + 1) =~= entries.keys().subrange(0, j as int).push(kv));
            assert(entries.keys().contains(kv));
        }
        if used.contains(k) {
            proof {
                if entries.keys().subrange(0, j as int).contains(kv) {
                    crate::path::lemma_path_order();
                    let a = choose|a: int| 0 <= a < j && entries.keys().subrange(0, j as int)[a] == kv;
                    assert(path_lt(entries.keys()[a], entries.keys()[j as int]));
                }
            }
            return Err(k.clone());
        }
        used.insert(k.clone());
        proof {
            assert(used@ =~= old(used)@ + entries.keys().subrange(0, j + 1).to_set());
        }
        j = j + 1;
    }
    proof {
        assert(entries.keys().subrange(0, n as int) =~= entries.keys());
        assert(entries.keys().to_set() =~= entries@.dom());
    }
    Ok(())
}

/// Adds the paths of all links of `m` to `used`; fails with a path that is
/// there already or that two kinds of links of `m` use.
fn check_module(used: &mut SortedSet<FilePath>, m: &Module) -> (r: Result<(), FilePath>)
    requires
        old(used).wf(),
        m.wf(),
    ensures
        final(used).wf(),
        r is Ok ==> final(used)@ == old(used)@ + module_paths(*m) && old(used)@.disjoint(
            module_paths(*m),
        ) && module_paths_distinct(*m),
        r is Err ==> !(old(used)@.disjoint(module_paths(*m)) && module_paths_distinct(*m)),
        r matches Err(p) ==> module_paths(*m).contains(p@),
        r matches Err(p) ==> old(used)@.contains(p@) || exists|a: LinkKind, b: LinkKind|
            a != b && #[trigger] m.links_view(a).contains_key(p@) && #[trigger] m.links_view(
                b,
            ).contains_key(p@),
{
    let ghost u0 = used@;
    let ghost f = m.links_view(LinkKind::File).dom();
    let ghost h = m.links_view(LinkKind::HardLink).dom();
    let ghost y = m.links_view(LinkKind::Symlink).dom();
    let ghost t = m.links_view(LinkKind::Template).dom();
    proof {
        assert(module_paths(*m) == f + h + y + t);
    }
    match check_paths(used, m.links(LinkKind::File)) {
        Ok(()) => {},
        Err(p) => {
            assert(u0.disjoint(module_paths(*m)) ==> !u0.contains(p@));
            return Err(p);
        },
    }
    let ghost u1 = used@;
    match check_paths(used, m.links(LinkKind::HardLink)) {
        Ok(()) => {},
        Err(p) => {
            proof {
                if u1.contains(p@) && !u0.contains(p@) {
                    assert(f.contains(p@) && h.contains(p@));
                    assert(m.links_view(LinkKind::File).contains_key(p@) && m.links_view(
                        LinkKind::HardLink,
                    ).contains_key(p@));
                }
            }
            return Err(p);
        },
    }
    let ghost u2 = used@;
    match check_paths(used, m.links(LinkKind::Symlink)) {
        Ok(()) => {},
        Err(p) => {
            proof {
                if u2.contains(p@) && !u0.contains(p@) {
                    if f.contains(p@) {
                        assert(m.links_view(LinkKind::File).contains_key(p@) && m.links_view(
                            LinkKind::Symlink,
                        ).contains_key(p@));
                    } else {
                        assert(m.links_view(LinkKind::HardLink).contains_key(p@) && m.links_view(
                            LinkKind::Symlink,
                        ).contains_key(p@));
                    }
                }
            }
            return Err(p);
        },
    }
    let ghost u3 = used@;
    match check_paths(used, m.links(LinkKind::Template)) {
        Ok(()) => {},
        Err(p) => {
            proof {
                if u3.contains(p@) && !u0.contains(p@) {
                    if f.contains(p@) {
                        assert(m.links_view(LinkKind::File).contains_key(p@) && m.links_view(
                            LinkKind::Template,
                        ).contains_key(p@));
                    } else if h.contains(p@) {
                        assert(m.links_view(LinkKind::HardLink).contains_key(p@) && m.links_view(
                            LinkKind::Template,
                        ).contains_key(p@));
                    } else {
                        assert(m.links_view(LinkKind::Symlink).contains_key(p@) && m.links_view(
                            LinkKind::Template,
                        ).contains_key(p@));
                    }
                }
            }
            return Err(p);
        },
    }
    proof {
        assert(used@ =~= u0 + module_paths(*m));
        assert(u0.disjoint(module_paths(*m)));
        assert forall|a: LinkKind, b: LinkKind, p: Seq<ComponentView>|
            m.links_view(a).contains_key(p) && m.links_view(b).contains_key(p) implies a == b by {
            if a != b {
                assert(u1.disjoint(h) && u2.disjoint(y) && u3.disjoint(t));
            }
        }
    }
    Ok(())
}

impl ModuleSet {
    /// Checks that no path is used by two links of the modules; fails with
    /// one that is.
    pub fn check_links(&self, config: &Config) -> (r: Result<(), FilePath>)
        requires
            config.wf(),
            forall|i: int| 0 <= i < self@.len() ==> config.module_map().contains_key(#[trigger] self@[i]),
        ensures
            r is Ok <==> links_distinct(config.module_map(), self@),
            r matches Err(p) ==> paths_upto(config.module_map(), self@, self@.len() as int).contains(p@),
            r matches Err(p) ==> path_used_twice(config.module_map(), self@, p@),
    {
        let ghost modules = config.module_map();
        let ghost names = self@;
        let mut used: SortedSet<FilePath> = SortedSet::new();
        let mut i: usize = 0;
        proof {
            config.lemma_names();
            assert(used@ =~= paths_upto(modules, names, 0));
        }
        while i < self.names.len()
            invariant
                config.wf(),
                modules == config.module_map(),
                names == self@,
                names.len() == self.names@.len(),
                forall|j: int| 0 <= j < names.len() ==> modules.contains_key(#[trigger] names[j]),
                forall|n: Seq<char>| #[trigger] modules.contains_key(n) ==> modules[n].wf(),
                i <= names.len(),
                used.wf(),
                used@ == paths_upto(modules, names, i as int),
                links_distinct_upto(modules, names, i as int),
            decreases names.len() - i,
        {
            let m = match crate::config::module(config, self.names[i].as_str()) {
                Some((_, m)) => m,
                None => {
                    proof {
                        assert(modules.contains_key(names[i as int]));
                    }
                    return Ok(());
                },
            };
            assert(self.names@[i as int]@ == names[i as int]);
            assert(*m == modules[names[i as int]]);
            let ghost before = used@;
            match check_module(&mut used, m) {
                Ok(()) => {
                    proof {
                        assert(used@ =~= paths_upto(modules, names, i + 1)) by {
                            assert forall|p: Seq<ComponentView>| used@.contains(p) <==> paths_upto(
                                modules,
                                names,
                                i + 1,
                            ).contains(p) by {
                                if module_paths(modules[names[i as int]]).contains(p) {
                                    assert(module_paths(modules[names[i as int]]).contains(p));
                                }
                                if paths_upto(modules, names, i + 1).contains(p) {
                                    let j = choose|j: int|
                                        0 <= j < i + 1 && #[trigger] module_paths(
                                            modules[names[j]],
                                        ).contains(p);
                                    if j < i {
                                        assert(paths_upto(modules, names, i as int).contains(p));
                                    }
                                }
                            }
                        }
                        assert forall|a: int, b: int, p: Seq<ComponentView>|
                            0 <= a < b < i + 1 && #[trigger] module_paths(modules[names[a]]).contains(p)
                                implies !#[trigger] module_paths(modules[names[b]]).contains(p) by {
                            if b == i {
                                assert(before.contains(p));
                            }
                        }
                    }
                },
                Err(p) => {
                    proof {
                        if !module_paths_distinct(modules[names[i as int]]) {
                        } else {
                            let w = choose|w: Seq<ComponentView>|
                                before.contains(w) && module_paths(modules[names[i as int]]).contains(w);
                            let j = choose|j: int|
                                0 <= j < i && #[trigger] module_paths(modules[names[j]]).contains(w);
                            assert(module_paths(modules[names[j]]).contains(w) && module_paths(
                                modules[names[i as int]],
                            ).contains(w));
                        }
                        assert(module_paths(modules[names[i as int]]).contains(p@));
                        assert(paths_upto(modules, names, names.len() as int).contains(p@));
                        if before.contains(p@) {
                            let j = choose|j: int|
                                0 <= j < i && #[trigger] module_paths(modules[names[j]]).contains(p@);
                            assert(module_paths(modules[names[j]]).contains(p@) && module_paths(
                                modules[names[i as int]],
                            ).contains(p@));
                        } else {
                            let (a, b) = choose|a: LinkKind, b: LinkKind|
                                a != b && #[trigger] modules[names[i as int]].links_view(a).contains_key(p@)
                                    && #[trigger] modules[names[i as int]].links_view(b).contains_key(p@);
                            assert(modules[names[i as int]].links_view(a).contains_key(p@));
                        }
                        assert(path_used_twice(modules, names, p@));
                    }
                    return Err(p);
                },
            }
            i = i + 1;
        }
        Ok(())
    }
}

/// What a link of kind `kind` at `path` from `source` with `owner` and
/// `mode` is.
pub open spec fn link_view(
    kind: LinkKind,
    path: Seq<ComponentView>,
    source: ModuleSourceView,
    owner: Option<OwnerIds>,
    mode: Option<Mode>,
) -> ModuleLinkView {
    ModuleLinkView { kind, path, source, owner: owner_view(owner), mode }
}

/// Adds a link of kind `kind` for each entry of `entries` to `out`.
fn add_links(
    out: &mut SortedMap<FilePath, ModuleLink>,
    entries: &SortedMap<FilePath, ModuleSource>,
    kind: LinkKind,
    owner: Option<OwnerIds>,
    mode: Option<Mode>,
)
    requires
        old(out).wf(),
        entries.wf(),
    ensures
        final(out).wf(),
        forall|p: Seq<ComponentView>| #[trigger]
            final(out)@.contains_key(p) <==> old(out)@.contains_key(p) || entries@.contains_key(p),
        forall|p: Seq<ComponentView>| #[trigger]
            entries@.contains_key(p) ==> final(out)@[p]@ == link_view(kind, p, entries@[p]@, owner, mode),
        forall|p: Seq<ComponentView>|
            !entries@.contains_key(p) && old(out)@.contains_key(p) ==> #[trigger] final(out)@[p] == old(
                out,
            )@[p],
{
    let n = entries.len();
    let mut j: usize = 0;
    proof {
        entries.lemma_dom();
        entries.lemma_lengths();
    }
    while j < n
        invariant
            out.wf(),
            entries.wf(),
            n == entries.keys().len(),
            entries.keys().len() == entries.values().len(),
            forall|a: int, b: int|
                0 <= a < b < entries.keys().len() ==> path_lt(
                    #[trigger] entries.keys()[a],
                    #[trigger] entries.keys()[b],
                ),
            j <= n,
            forall|k: Seq<ComponentView>| #[trigger] entries@.contains_key(k) <==> entries.keys().contains(k),
            forall|a: int| 0 <= a < entries.keys().len() ==> #[trigger] entries@[entries.keys()[a]] == entries.values()[a],
            forall|p: Seq<ComponentView>| #[trigger]
                out@.contains_key(p) <==> old(out)@.contains_key(p) || entries.keys().subrange(0, j as int).contains(p),
            forall|a: int|
                0 <= a < j ==> #[trigger] out@[entries.keys()[a]]@ == link_view(
                    kind,
                    entries.keys()[a],
                    entries@[entries.keys()[a]]@,
                    owner,
                    mode,
                ),
            forall|p: Seq<ComponentView>|
                !entries.keys().subrange(0, j as int).contains(p) && old(out)@.contains_key(p) ==> #[trigger] out@[p]
                    == old(out)@[p],
        decreases n - j,
    {
        let path = entries.key_at(j).clone();
        let source = entries.value_at(j).duplicate();
        let ghost pv = path@;
        assert(entries@[entries.keys()[j as int]] == entries.values()[j as int]);
        let link = ModuleLink { kind, path: path.clone(), source, owner, mode };
        out.insert(path, link);
        proof {
            assert(entries.keys().subrange(0, j + 1) =~= entries.keys().subrange(0, j as int).push(pv));
            assert forall|p: Seq<ComponentView>| #[trigger]
                out@.contains_key(p) <==> old(out)@.contains_key(p) || entries.keys().subrange(
                    0,
                    j + 1,
                ).contains(p) by {
                if p == pv {
                    assert(entries.keys().subrange(0, j + 1)[j as int] == pv);
                }
            }
            assert forall|p: Seq<ComponentView>|
                !entries.keys().subrange(0, j + 1).contains(p) && old(out)@.contains_key(p) implies #[trigger] out@[p]
                    == old(out)@[p] by {
                if p == pv {
                    assert(entries.keys().subrange(0, j + 1)[j as int] == pv);
                }
                if entries.keys().subrange(0, j as int).contains(p) {
                    let a = choose|a: int| 0 <= a < j && entries.keys().subrange(0, j as int)[a] == p;
                    assert(entries.keys().subrange(0, j + 1)[a] == p);
                }
            }
            crate::path::lemma_path_order();
            assert forall|a: int|
                0 <= a < j + 1 implies #[trigger] out@[entries.keys()[a]]@ == link_view(
                kind,
                entries.keys()[a],
                entries@[entries.keys()[a]]@,
                owner,
                mode,
            ) by {
                if a < j {
                    assert(path_lt(entries.keys()[a], entries.keys()[j as int]));
                }
            }
        }
        j = j + 1;
    }
    proof {
        assert(entries.keys().subrange(0, n as int) =~= entries.keys());
        assert forall|p: Seq<ComponentView>| #[trigger]
            entries@.contains_key(p) implies out@[p]@ == link_view(kind, p, entries@[p]@, owner, mode) by {
            let a = choose|a: int| 0 <= a < entries.keys().len() && entries.keys()[a] == p;
            assert(out@[entries.keys()[a]]@ == link_view(
                kind,
                entries.keys()[a],
                entries@[entries.keys()[a]]@,
                owner,
                mode,
            ));
        }
    }
}

/// Whether `l` is the link that the module at `i` of `names` gives for its
/// path.
pub open spec fn link_from(
    modules: Map<Seq<char>, Module>,
    names: Seq<Seq<char>>,
    owners: Seq<Option<OwnerIds>>,
    i: int,
    l: ModuleLinkView,
) -> bool {
    &&& 0 <= i < names.len()
    &&& modules[names[i]].links_view(l.kind).contains_key(l.path)
    &&& l == link_view(
        l.kind,
        l.path,
        modules[names[i]].links_view(l.kind)[l.path],
        owners[i],
        modules[names[i]].mode_spec(),
    )
}

/// The views of a list of links.
pub open spec fn link_views(v: Seq<ModuleLink>) -> Seq<ModuleLinkView> {
    v.map_values(|l: ModuleLink| l@)
}

/// Whether `l` is the link that some module of `names` gives for its path.
pub open spec fn link_in_set(
    modules: Map<Seq<char>, Module>,
    names: Seq<Seq<char>>,
    owners: Seq<Option<OwnerIds>>,
    l: ModuleLinkView,
) -> bool {
    exists|i: int| link_from(modules, names, owners, i, l)
}

/// Whether the links `v` are those of the modules `names`, each module's
/// links with its owner in `owners`, ordered by kind and then by path.
pub open spec fn links_of_set(
    modules: Map<Seq<char>, Module>,
    names: Seq<Seq<char>>,
    owners: Seq<Option<OwnerIds>>,
    v: Seq<ModuleLinkView>,
) -> bool {
    &&& forall|j: int| 0 <= j < v.len() ==> link_in_set(modules, names, owners, #[trigger] v[j])
    &&& forall|i: int, k: LinkKind, p: Seq<ComponentView>|
        0 <= i < names.len() && #[trigger] modules[names[i]].links_view(k).contains_key(p) ==> exists|j: int|
            0 <= j < v.len() && (#[trigger] v[j]).kind == k && v[j].path == p
    &&& forall|a: int, b: int|
        0 <= a < b < v.len() ==> kind_rank((#[trigger] v[a]).kind) < kind_rank((#[trigger] v[b]).kind) || (
        v[a].kind == v[b].kind && path_lt(v[a].path, v[b].path))
}

/// The kind of link with rank `r`.
fn kind_at(r: usize) -> (k: LinkKind)
    requires
        r < 4,
    ensures
        kind_rank(k) == r,
{
    if r == 0 {
        LinkKind::File
    } else if r == 1 {
        LinkKind::HardLink
    } else if r == 2 {
        LinkKind::Symlink
    } else {
        LinkKind::Template
    }
}

impl ModuleSet {
    /// The links of one kind of all the modules, by path; of modules that
    /// give the same path, the last one counts.
    fn collect_kind(&self, config: &Config, owners: &Vec<Option<OwnerIds>>, kind: LinkKind) -> (r:
        SortedMap<FilePath, ModuleLink>)
        requires
            config.wf(),
            forall|i: int| 0 <= i < self@.len() ==> config.module_map().contains_key(#[trigger] self@[i]),
            owners@.len() == self@.len(),
        ensures
            r.wf(),
            forall|p: Seq<ComponentView>| #[trigger]
                r@.contains_key(p) <==> exists|i: int|
                    0 <= i < self@.len() && config.module_map()[self@[i]].links_view(kind).contains_key(p),
            forall|p: Seq<ComponentView>| #[trigger]
                r@.contains_key(p) ==> r@[p]@.kind == kind && r@[p]@.path == p && exists|i: int|
                    link_from(config.module_map(), self@, owners@, i, r@[p]@),
    {
        let ghost modules = config.module_map();
        let ghost names = self@;
        let mut out: SortedMap<FilePath, ModuleLink> = SortedMap::new();
        let mut i: usize = 0;
        proof {
            config.lemma_names();
        }
        while i < self.names.len()
            invariant
                config.wf(),
                modules == config.module_map(),
                names == self@,
                names.len() == self.names@.len(),
                owners@.len() == names.len(),
                forall|j: int| 0 <= j < names.len() ==> modules.contains_key(#[trigger] names[j]),
                forall|n: Seq<char>| #[trigger] modules.contains_key(n) ==> modules[n].wf(),
                i <= names.len(),
                out.wf(),
                forall|p: Seq<ComponentView>| #[trigger]
                    out@.contains_key(p) <==> exists|j: int|
                        0 <= j < i && modules[names[j]].links_view(kind).contains_key(p),
                forall|p: Seq<ComponentView>| #[trigger]
                    out@.contains_key(p) ==> out@[p]@.kind == kind && out@[p]@.path == p && exists|j: int|
                        link_from(modules, names, owners@, j, out@[p]@),
            decreases names.len() - i,
        {
            let m = match crate::config::module(config, self.names[i].as_str()) {
                Some((_, m)) => m,
                None => {
                    proof {
                        assert(modules.contains_key(names[i as int]));
                    }
                    return out;
                },
            };
            assert(self.names@[i as int]@ == names[i as int]);
            assert(*m == modules[names[i as int]]);
            let ghost before = out@;
            let entries = m.links(kind);
            add_links(&mut out, entries, kind, owners[i], m.mode());
            proof {
                assert forall|p: Seq<ComponentView>| #[trigger]
                    out@.contains_key(p) <==> exists|j: int|
                        0 <= j < i + 1 && modules[names[j]].links_view(kind).contains_key(p) by {
                    if out@.contains_key(p) && !before.contains_key(p) {
                        assert(modules[names[i as int]].links_view(kind).contains_key(p));
                    }
                    if exists|j: int| 0 <= j < i + 1 && modules[names[j]].links_view(kind).contains_key(p) {
                        let j = choose|j: int|
                            0 <= j < i + 1 && modules[names[j]].links_view(kind).contains_key(p);
                        if j < i {
                            assert(before.contains_key(p));
                        }
                    }
                }
                assert forall|p: Seq<ComponentView>| #[trigger]
                    out@.contains_key(p) implies out@[p]@.kind == kind && out@[p]@.path == p && exists|j: int|
                        link_from(modules, names, owners@, j, out@[p]@) by {
                    if entries@.contains_key(p) {
                        assert(link_from(modules, names, owners@, i as int, out@[p]@));
                    } else {
                        assert(out@[p] == before[p]);
                    }
                }
            }
            i = i + 1;
        }
        out
    }

    /// The links of all the modules, ordered by kind (files, hard links,
    /// symlinks, templates) and then by path, each with the owner of its
    /// module in `owners`; fails with a path that two links use.
    pub fn links_with(&self, config: &Config, owners: &Vec<Option<OwnerIds>>) -> (r: Result<
        Vec<ModuleLink>,
        FilePath,
    >)
        requires
            config.wf(),
            forall|i: int| 0 <= i < self@.len() ==> config.module_map().contains_key(#[trigger] self@[i]),
            owners@.len() == self@.len(),
        ensures
            r is Ok <==> links_distinct(config.module_map(), self@),
            r matches Err(p) ==> paths_upto(config.module_map(), self@, self@.len() as int).contains(p@),
            r matches Err(p) ==> path_used_twice(config.module_map(), self@, p@),
            r matches Ok(v) ==> links_of_set(config.module_map(), self@, owners@, link_views(v@)),
    {
        match self.check_links(config) {
            Ok(()) => {},
            Err(p) => {
                return Err(p);
            },
        }
        let ghost modules = config.module_map();
        let ghost names = self@;
        let mut v: Vec<ModuleLink> = Vec::new();
        let mut r: usize = 0;
        while r < 4
            invariant
                config.wf(),
                modules == config.module_map(),
                names == self@,
                owners@.len() == names.len(),
                forall|j: int| 0 <= j < names.len() ==> modules.contains_key(#[trigger] names[j]),
                r <= 4,
                forall|j: int|
                    0 <= j < v@.len() ==> kind_rank((#[trigger] v@[j])@.kind) < r && exists|i: int|
                        link_from(modules, names, owners@, i, v@[j]@),
                forall|i: int, k: LinkKind, p: Seq<ComponentView>|
                    0 <= i < names.len() && kind_rank(k) < r && #[trigger] modules[names[i]].links_view(
                        k,
                    ).contains_key(p) ==> exists|j: int|
                        0 <= j < v@.len() && (#[trigger] v@[j])@.kind == k && v@[j]@.path == p,
                forall|a: int, b: int|
                    0 <= a < b < v@.len() ==> kind_rank((#[trigger] v@[a])@.kind) < kind_rank(
                        (#[trigger] v@[b])@.kind,
                    ) || (v@[a]@.kind == v@[b]@.kind && path_lt(v@[a]@.path, v@[b]@.path)),
            decreases 4 - r,
        {
            let kind = kind_at(r);
            let map = self.collect_kind(config, owners, kind);
            proof {
                map.lemma_dom();
                map.lemma_lengths();
            }
            let ghost keys = map.keys();
            let ghost mv = map@;
            let ghost vals = map.values();
            let mut values = map.into_values();
            let total = values.len();
            let ghost start = v@.len();
            let ghost vstart = v@;
            let mut j: usize = 0;
            while values.len() > 0
                invariant
                    vals.len() == total,
                    j <= vals.len(),
                    values@ == vals.subrange(j as int, vals.len() as int),
                    keys.len() == vals.len(),
                    kind_rank(kind) == r,
                    r < 4,
                    forall|p: Seq<ComponentView>| #[trigger] mv.contains_key(p) <==> keys.contains(p),
                    forall|a: int| 0 <= a < keys.len() ==> #[trigger] mv[keys[a]] == vals[a],
                    forall|p: Seq<ComponentView>| #[trigger]
                        mv.contains_key(p) ==> mv[p]@.kind == kind && mv[p]@.path == p && exists|i: int|
                            link_from(modules, names, owners@, i, mv[p]@),
                    v@.len() == start + j,
                    vstart.len() == start,
                    forall|a: int| 0 <= a < start ==> #[trigger] v@[a] == vstart[a],
                    forall|a: int| 0 <= a < j ==> #[trigger] v@[start + a] == vals[a],
                decreases values@.len(),
            {
                let x = values.remove(0);
                assert(x == vals[j as int]);
                assert(values@ =~= vals.subrange(j + 1, vals.len() as int));
                v.push(x);
                j = j + 1;
            }
            proof {
                let n = v@.len();
                assert(j == vals.len());
                assert forall|a: int| start <= a < n implies #[trigger] v@[a]@.kind == kind && v@[a]@.path
                    == keys[a - start] && exists|i: int| link_from(modules, names, owners@, i, v@[a]@) by {
                    let c = a - start;
                    assert(0 <= c < j);
                    assert(v@[start + c] == vals[c]);
                    assert(start + c == a);
                    assert(mv[keys[c]] == vals[c]);
                    assert(keys.contains(keys[c]));
                    let p = keys[c];
                    assert(mv.contains_key(p));
                    let i = choose|i: int| link_from(modules, names, owners@, i, mv[p]@);
                    assert(link_from(modules, names, owners@, i, v@[a]@));
                }
                assert forall|a: int| 0 <= a < n implies kind_rank((#[trigger] v@[a])@.kind) < r + 1
                    && exists|i: int| link_from(modules, names, owners@, i, v@[a]@) by {
                    if a < start {
                        assert(v@[a] == vstart[a]);
                    }
                }
                assert forall|a: int, b: int|
                    0 <= a < b < n implies kind_rank((#[trigger] v@[a])@.kind) < kind_rank(
                        (#[trigger] v@[b])@.kind,
                    ) || (v@[a]@.kind == v@[b]@.kind && path_lt(v@[a]@.path, v@[b]@.path)) by {
                    if a >= start {
                        assert(v@[a]@.path == keys[a - start]);
                        assert(v@[b]@.path == keys[b - start]);
                    } else if b < start {
                        assert(v@[a] == vstart[a]);
                        assert(v@[b] == vstart[b]);
                    } else {
                        assert(v@[a] == vstart[a]);
                    }
                }
                assert forall|i: int, k: LinkKind, p: Seq<ComponentView>|
                    0 <= i < names.len() && kind_rank(k) < r + 1 && #[trigger] modules[names[i]].links_view(
                        k,
                    ).contains_key(p) implies exists|a: int|
                        0 <= a < n && (#[trigger] v@[a])@.kind == k && v@[a]@.path == p by {
                    if kind_rank(k) == r {
                        assert(k == kind);
                        assert(mv.contains_key(p));
                        let c = choose|c: int| 0 <= c < keys.len() && keys[c] == p;
                        assert(v@[start + c]@.path == keys[c]);
                    } else {
                        let a = choose|a: int|
                            0 <= a < vstart.len() && (#[trigger] vstart[a])@.kind == k && vstart[a]@.path == p;
                        assert(v@[a] == vstart[a]);
                    }
                }
            }
            r = r + 1;
        }
        proof {
            let vv = link_views(v@);
            assert forall|j: int| 0 <= j < vv.len() implies link_in_set(modules, names, owners@, #[trigger] vv[j]) by {
                assert(vv[j] == v@[j]@);
            }
            assert forall|i: int, k: LinkKind, p: Seq<ComponentView>|
                0 <= i < names.len() && #[trigger] modules[names[i]].links_view(k).contains_key(p) implies exists|j: int|
                    0 <= j < vv.len() && (#[trigger] vv[j]).kind == k && vv[j].path == p by {
                assert(kind_rank(k) < 4);
                let j = choose|j: int| 0 <= j < v@.len() && (#[trigger] v@[j])@.kind == k && v@[j]@.path == p;
                assert(vv[j] == v@[j]@);
            }
            assert forall|a: int, b: int|
                0 <= a < b < vv.len() implies kind_rank((#[trigger] vv[a]).kind) < kind_rank((#[trigger] vv[b]).kind)
                    || (vv[a].kind == vv[b].kind && path_lt(vv[a].path, vv[b].path)) by {
                assert(vv[a] == v@[a]@);
                assert(vv[b] == v@[b]@);
            }
            assert(forall|i: int, k: LinkKind, p: Seq<ComponentView>|
                0 <= i < names.len() && #[trigger] modules[names[i]].links_view(k).contains_key(p) ==> exists|j: int|
                    0 <= j < vv.len() && (#[trigger] vv[j]).kind == k && vv[j].path == p);
            assert(forall|a: int, b: int|
                0 <= a < b < vv.len() ==> kind_rank((#[trigger] vv[a]).kind) < kind_rank((#[trigger] vv[b]).kind) || (
                vv[a].kind == vv[b].kind && path_lt(vv[a].path, vv[b].path)));
            assert(links_of_set(modules, names, owners@, vv));
        }
        Ok(v)
    }
}

/// Whether `owners` are the ids of the owners of the modules `names`, as
/// the cache `users` gives them: none for a module without an owner.
pub open spec fn owners_resolved(
    modules: Map<Seq<char>, Module>,
    names: Seq<Seq<char>>,
    users: UsersView,
    owners: Seq<Option<OwnerIds>>,
) -> bool {
    &&& owners.len() == names.len()
    &&& forall|i: int|
        0 <= i < names.len() ==> match modules[names[i]].owner_spec() {
            None => (#[trigger] owners[i]) is None,
            Some(o) => owners[i] matches Some(x) && ids_from_users(o@, users, x@),
        }
}

/// Whether `v` are the links of the modules `names`, each with the ids of
/// its module's owner as the cache `users` gives them.
pub open spec fn links_with_owners(
    modules: Map<Seq<char>, Module>,
    names: Seq<Seq<char>>,
    users: UsersView,
    v: Seq<ModuleLinkView>,
) -> bool {
    exists|owners: Seq<Option<OwnerIds>>|
        owners_resolved(modules, names, users, owners) && #[trigger] links_of_set(
            modules,
            names,
            owners,
            v,
        )
}

/// Whether the path `p` is used by two links of the modules `names`: by
/// two modules, or by two kinds of links of one.
pub open spec fn path_used_twice(
    modules: Map<Seq<char>, Module>,
    names: Seq<Seq<char>>,
    p: Seq<ComponentView>,
) -> bool {
    ||| exists|i: int, j: int|
        0 <= i < j < names.len() && #[trigger] module_paths(modules[names[i]]).contains(p)
            && #[trigger] module_paths(modules[names[j]]).contains(p)
    ||| exists|i: int, a: LinkKind, b: LinkKind|
        0 <= i < names.len() && a != b && #[trigger] modules[names[i]].links_view(a).contains_key(p)
            && #[trigger] modules[names[i]].links_view(b).contains_key(p)
}

/// Whether a module of `names` has an owner whose ids need a lookup that
/// the cache `users` can't answer.
pub open spec fn owners_cached(modules: Map<Seq<char>, Module>, names: Seq<Seq<char>>, users: UsersView) -> bool {
    forall|i: int|
        0 <= i < names.len() ==> match #[trigger] modules[names[i]].owner_spec() {
            None => true,
            Some(o) => owner_cached(o@, users),
        }
}

/// Why the links of a set of modules couldn't be gathered.
#[derive(Debug, PartialEq, Eq)]
pub enum LinkError {
    /// The owner of a module's paths couldn't be found.
    Owner(OwnerError),
    /// Two links use this path.
    DuplicatePath(FilePath),
}

impl ModuleSet {
    /// The links of all the modules, ordered by kind and then by path, each
    /// with the ids of its module's owner, looked up through `users`.
    /// Fails when an owner can't be found, and then when a path is used
    /// twice; succeeds when neither happens, which is sure when no path is
    /// used twice and every owner is in the cache already.
    pub fn links(&self, config: &Config, users: &mut Users) -> (r: Result<Vec<ModuleLink>, LinkError>)
        requires
            config.wf(),
            old(users).wf(),
            forall|i: int| 0 <= i < self@.len() ==> config.module_map().contains_key(#[trigger] self@[i]),
        ensures
            final(users).wf(),
            users_extend(old(users)@, final(users)@),
            r is Ok ==> links_distinct(config.module_map(), self@),
            r matches Ok(v) ==> links_with_owners(config.module_map(), self@, final(users)@, link_views(v@)),
            r matches Err(LinkError::DuplicatePath(p)) ==> !links_distinct(config.module_map(), self@)
                && path_used_twice(config.module_map(), self@, p@),
            r matches Err(LinkError::Owner(e)) ==> exists|i: int|
                0 <= i < self@.len() && (#[trigger] config.module_map()[self@[i]].owner_spec() matches Some(
                    o,
                ) && owner_error(o@, old(users)@, final(users)@, e)),
            links_distinct(config.module_map(), self@) && owners_cached(
                config.module_map(),
                self@,
                old(users)@,
            ) ==> r is Ok,
    {
        let ghost modules = config.module_map();
        let ghost start = users@;
        assert(start == old(users)@);
        let mut owners: Vec<Option<OwnerIds>> = Vec::new();
        let mut i: usize = 0;
        while i < self.names.len()
            invariant
                config.wf(),
                modules == config.module_map(),
                forall|j: int| 0 <= j < self@.len() ==> modules.contains_key(#[trigger] self@[j]),
                self@.len() == self.names@.len(),
                i <= self.names@.len(),
                owners@.len() == i,
                users.wf(),
                start == old(users)@,
                users_extend(start, users@),
                forall|j: int|
                    0 <= j < i ==> match modules[self@[j]].owner_spec() {
                        None => (#[trigger] owners@[j]) is None,
                        Some(o) => owners@[j] matches Some(x) && ids_from_users(o@, users@, x@),
                    },
            decreases self.names@.len() - i,
        {
            let ghost before = users@;
            let ghost name = self@[i as int];
            assert(self.names@[i as int]@ == name);
            let ids = match crate::config::module(config, self.names[i].as_str()) {
                Some((_, m)) => match m.owner() {
                    Some(owner) => {
                        proof {
                            assert(modules[self@[i as int]].owner_spec() == Some(*owner));
                            if owners_cached(modules, self@, start) {
                                assert(owner_cached(owner@, start));
                                lemma_owner_cached_extend(owner@, start, before);
                            }
                        }
                        match owner.ids(users) {
                            Ok(ids) => Some(ids),
                            Err(e) => {
                                proof {
                                    lemma_owner_error_extend(owner@, start, before, users@, e);
                                    lemma_users_extend_trans(start, before, users@);
                                    let k = i as int;
                                    assert(0 <= k < self@.len() && (config.module_map()[self@[k]].owner_spec() matches Some(
                                        o,
                                    ) && owner_error(o@, start, users@, e)));
                                }
                                return Err(LinkError::Owner(e));
                            },
                        }
                    },
                    None => None,
                },
                None => {
                    proof {
                        assert(modules.contains_key(name));
                    }
                    None
                },
            };
            proof {
                lemma_users_extend_trans(start, before, users@);
                assert forall|j: int| 0 <= j < i implies match modules[self@[j]].owner_spec() {
                    None => (#[trigger] owners@[j]) is None,
                    Some(o) => owners@[j] matches Some(x) && ids_from_users(o@, users@, x@),
                } by {
                    match modules[self@[j]].owner_spec() {
                        None => {},
                        Some(o) => {
                            let x = owners@[j]->Some_0;
                            lemma_ids_from_users_extend(o@, before, users@, x@);
                        },
                    }
                }
            }
            owners.push(ids);
            i = i + 1;
        }
        assert(owners@.len() == self@.len());
        assert(users_extend(old(users)@, users@));
        proof {
            assert(owners_resolved(modules, self@, users@, owners@));
        }
        match self.links_with(config, &owners) {
            Ok(v) => {
                assert(links_of_set(config.module_map(), self@, owners@, link_views(v@)));
                assert(links_with_owners(config.module_map(), self@, users@, link_views(v@)));
                Ok(v)
            },
            Err(p) => Err(LinkError::DuplicatePath(p)),
        }
    }
}

/// Why a source couldn't be found.
#[derive(Clone, Debug, PartialEq, Eq)]
pub enum SourceError {
    /// No static or dynamic source has this name.
    NotDefined(String),
}

/// Where the contents of a link are, and the dynamic source to fetch there
/// with its identifier, if it is one: a named source is looked up among the
/// dynamic sources first and then among the static ones; an inline source
/// of a link of `module` is fetched to a path of its own, named after the
/// module and the link path as written.
pub open spec fn spec_locate(
    source: ModuleSourceView,
    dynamic: Map<Seq<char>, HashableSourceView>,
    statics: Seq<Seq<char>>,
    env: EnvView,
    module: Seq<char>,
) -> Option<(Seq<ComponentView>, Option<(SourceIdentView, HashableSourceView)>)> {
    match source {
        ModuleSourceView::Named(name, sub) => {
            if dynamic.contains_key(name) {
                let base = spec_child(env.named_sources, name);
                Some(
                    (
                        match sub {
                            Some(p) => spec_join(base, p),
                            None => base,
                        },
                        Some((SourceIdentView::Named(name), dynamic[name])),
                    ),
                )
            } else if statics.contains(name) {
                let base = spec_child(env.static_sources, name);
                Some(
                    (
                        match sub {
                            Some(p) => spec_join(base, p),
                            None => base,
                        },
                        None,
                    ),
                )
            } else {
                None
            }
        },
        ModuleSourceView::Unnamed(hs, link) => {
            let ident = SourceIdentView::Unnamed(module, link);
            Some((spec_ident_path(ident, env), Some((ident, hs))))
        },
    }
}

/// The view of what `locate` gives.
pub open spec fn located_view(r: (FilePath, Option<(SourceIdent, HashableSource)>)) -> (
    Seq<ComponentView>,
    Option<(SourceIdentView, HashableSourceView)>,
) {
    (
        r.0@,
        match r.1 {
            Some((i, s)) => Some((i@, s@)),
            None => None,
        },
    )
}

impl ModuleSource {
    /// Where the contents of this source of a link of `module` are, and the
    /// dynamic source to fetch there, if any.
    pub fn locate(&self, config: &Config, env: &Env, module: &str) -> (r: Result<
        (FilePath, Option<(SourceIdent, HashableSource)>),
        SourceError,
    >)
        requires
            config.wf(),
        ensures
            match spec_locate(
                self@,
                config.dynamic_source_map(),
                config.static_source_seq(),
                env@,
                module@,
            ) {
                Some(l) => r matches Ok(x) && located_view(x) == l,
                None => r is Err,
            },
    {
        match self {
            ModuleSource::Named(sp) => {
                match crate::config::dynamic_source(config, &sp.name) {
                    Some(source) => {
                        let ident = SourceIdent::named(SourceName::from_file_name(sp.name.as_str().to_owned()));
                        Ok((sp.named_path(env), Some((ident, source.duplicate()))))
                    },
                    None => {
                        if crate::config::has_static_source(config, &sp.name) {
                            Ok((sp.config_path(env), None))
                        } else {
                            Err(SourceError::NotDefined(sp.name.as_str().to_owned()))
                        }
                    },
                }
            },
            ModuleSource::Unnamed { source, link } => {
                let ident = SourceIdent::unnamed(module, link.as_str());
                let at = ident.path(env);
                Ok((at, Some((ident, source.duplicate()))))
            },
        }
    }

    /// What to do for this source of a link of `module`: where its contents are,
    /// and the dynamic source to fetch there first, if it has to be fetched
    /// (re-fetching is on, or what was fetched isn't recorded as it is now
    /// defined or doesn't have its hash). `actual` is the hash of what is at
    /// the located path now.
    pub fn fetch(
        &self,
        config: &Config,
        env: &Env,
        state: &State,
        module: &str,
        actual: &Result<Sha256Hash, String>,
    ) -> (r: Result<(FilePath, Option<(SourceIdent, HashableSource)>), SourceError>)
        requires
            config.wf(),
            state.wf(),
        ensures
            match spec_locate(
                self@,
                config.dynamic_source_map(),
                config.static_source_seq(),
                env@,
                module@,
            ) {
                None => r is Err,
                Some((at, None)) => r matches Ok(x) && located_view(x) == (at, None::<
                    (SourceIdentView, HashableSourceView),
                >),
                Some((at, Some((ident, hs)))) => r matches Ok(x) && x.0@ == at && {
                    let fetched = state@.sources.contains_key(ident) && state@.sources[ident] == hs
                        && match hs.hash {
                        None => true,
                        Some(expected) => actual matches Ok(h) && h@ == expected,
                    };
                    if config.spec_fetch() || !fetched {
                        x.1 matches Some((i, s)) && i@ == ident && s@ == hs
                    } else {
                        x.1 is None
                    }
                },
            },
    {
        match self.locate(config, env, module) {
            Err(e) => Err(e),
            Ok((at, None)) => Ok((at, None)),
            Ok((at, Some((ident, source)))) => {
                if crate::config::fetch(config) || !state.is_source_fetched(&ident, &source, actual) {
                    Ok((at, Some((ident, source))))
                } else {
                    Ok((at, None))
                }
            },
        }
    }
}

/// What to do with an entry of a link's source.
#[derive(Clone, Copy, Debug, PartialEq, Eq, Structural)]
pub enum EntryAction {
    /// Stop: another module owns the path the entry goes to.
    Refuse,
    /// Make sure a directory is there.
    Directory,
    /// Create a link of this kind.
    Create(LinkKind),
}

impl ModuleLink {
    /// Where the link goes, with `~` standing for the home directory.
    pub fn link_path(&self, env: &Env) -> (r: FilePath)
        ensures
            r@ == spec_untildefy(self@.path, env@.home),
    {
        env.untildefy(&self.path)
    }

    /// Where the entry `rel` of the source goes: the link path itself for
    /// the source's top, else that path joined with `rel`.
    pub fn target(link_path: &FilePath, rel: &FilePath) -> (r: FilePath)
        ensures
            r@ == if rel@.len() == 0 {
                link_path@
            } else {
                spec_join(link_path@, rel@)
            },
    {
        if rel.len() == 0 {
            link_path.clone()
        } else {
            link_path.join(rel)
        }
    }

    /// What to do with an entry of the source that goes to `target`: refuse
    /// a path that a module owns, make sure a directory is there for a
    /// directory, else create a link of the link's kind.
    pub fn entry_action(&self, state: &State, target: &FilePath, is_dir: bool) -> (r: EntryAction)
        requires
            state.wf(),
        ensures
            r == if state@.paths.contains(target@) {
                EntryAction::Refuse
            } else if is_dir {
                EntryAction::Directory
            } else {
                EntryAction::Create(self@.kind)
            },
    {
        if state.is_path_owned(target) {
            EntryAction::Refuse
        } else if is_dir {
            EntryAction::Directory
        } else {
            EntryAction::Create(self.kind)
        }
    }

    /// The record of a link this link created from a source file of size
    /// `size` and hash `hash`, or of a symlink to `original`. A template is
    /// recorded by what it rendered to (see `template_info`).
    pub fn created_info(&self, size: u64, hash: Sha256Hash, original: &FilePath) -> (r: PathInfo)
        ensures
            r@ == match self@.kind {
                LinkKind::HardLink => PathInfoView::HardLink(size, hash@),
                LinkKind::Symlink => PathInfoView::Symlink(original@),
                _ => PathInfoView::File(size, hash@),
            },
    {
        match self.kind {
            LinkKind::HardLink => PathInfo::HardLink { size, hash },
            LinkKind::Symlink => PathInfo::Symlink { original: original.clone() },
            _ => PathInfo::File { size, hash },
        }
    }
}

/// The state after recording what was made for an entry whose action was
/// `action`: a directory when it wasn't there yet (`made_dir`), or the
/// created link with the record `info`; nothing when it was refused.
pub open spec fn spec_record_entry(
    s: StateView,
    module: Seq<char>,
    target: Seq<ComponentView>,
    action: EntryAction,
    made_dir: bool,
    info: PathInfoView,
) -> StateView {
    match action {
        EntryAction::Refuse => s,
        EntryAction::Directory => if made_dir {
            spec_add_path(s, module, target, PathInfoView::Directory)
        } else {
            s
        },
        EntryAction::Create(_) => spec_add_path(s, module, target, info),
    }
}

/// Whether an entry made something on the filesystem.
pub open spec fn entry_made(action: EntryAction, made_dir: bool) -> bool {
    action is Create || (action is Directory && made_dir)
}

/// The record of what an entry made.
pub open spec fn entry_record(action: EntryAction, info: PathInfoView) -> PathInfoView {
    if action is Directory {
        PathInfoView::Directory
    } else {
        info
    }
}

/// The state after recording the entries of a walk in order, each given by
/// its target, action, whether a directory was made, and record.
pub open spec fn spec_walk(
    s: StateView,
    module: Seq<char>,
    steps: Seq<(Seq<ComponentView>, EntryAction, bool, PathInfoView)>,
) -> StateView
    decreases steps.len(),
{
    if steps.len() == 0 {
        s
    } else {
        let last = steps.last();
        spec_record_entry(spec_walk(s, module, steps.drop_last()), module, last.0, last.1, last.2, last.3)
    }
}

/// Every entry of a walk that made something is recorded: its path is
/// owned by the module, which keeps the path's record.
pub proof fn law_walk_records(
    s: StateView,
    module: Seq<char>,
    steps: Seq<(Seq<ComponentView>, EntryAction, bool, PathInfoView)>,
)
    ensures
        forall|i: int|
            0 <= i < steps.len() && entry_made(steps[i].1, steps[i].2) ==> {
                let t = spec_walk(s, module, steps);
                &&& t.paths.contains(#[trigger] steps[i].0)
                &&& t.owners.contains_key(steps[i].0)
                &&& t.owners[steps[i].0].0 == module
                &&& t.modules.contains_key(module)
                &&& t.modules[module].paths.contains((steps[i].0, entry_record(steps[i].1, steps[i].3)))
            },
    decreases steps.len(),
{
    if steps.len() > 0 {
        let front = steps.drop_last();
        law_walk_records(s, module, front);
        let u = spec_walk(s, module, front);
        let t = spec_walk(s, module, steps);
        let last = steps.last();
        assert forall|i: int|
            0 <= i < steps.len() && entry_made(steps[i].1, steps[i].2) implies {
                &&& t.paths.contains(#[trigger] steps[i].0)
                &&& t.owners.contains_key(steps[i].0)
                &&& t.owners[steps[i].0].0 == module
                &&& t.modules.contains_key(module)
                &&& t.modules[module].paths.contains((steps[i].0, entry_record(steps[i].1, steps[i].3)))
            } by {
            let e = (steps[i].0, entry_record(steps[i].1, steps[i].3));
            if i < steps.len() - 1 {
                assert(front[i] == steps[i]);
                assert(u.modules[module].paths.contains(e));
                if entry_made(last.1, last.2) {
                    let info = entry_record(last.1, last.3);
                    assert(t == spec_add_path(u, module, last.0, info));
                    let ps = u.modules[module].paths;
                    let j = choose|j: int| 0 <= j < ps.len() && ps[j] == e;
                    assert(t.modules[module].paths == ps.push((last.0, info)));
                    assert(t.modules[module].paths[j] == e);
                }
            } else {
                let info = entry_record(last.1, last.3);
                assert(t == spec_add_path(u, module, last.0, info));
                let ps = t.modules[module].paths;
                assert(ps[ps.len() - 1] == e);
            }
        }
    }
}

impl ModuleLink {
    /// Records in `state` what was made for an entry that goes to `target`
    /// and whose action was `action`: a directory when `made_dir` says one
    /// was made, or the created link with the record `info`.
    pub fn record_entry(
        &self,
        state: &mut State,
        module: &str,
        target: &FilePath,
        action: &EntryAction,
        made_dir: bool,
        info: &PathInfo,
    )
        requires
            old(state).wf(),
        ensures
            final(state).wf(),
            final(state)@ == spec_record_entry(old(state)@, module@, target@, *action, made_dir, info@),
    {
        match action {
            EntryAction::Refuse => {},
            EntryAction::Directory => {
                if made_dir {
                    state.add_dir(module, target);
                }
            },
            EntryAction::Create(_) => {
                state.add_path(module, target, info.duplicate());
            },
        }
    }
}

/// The record of a file a template rendered to `rendered`: its size and
/// the hash of its contents.
pub fn template_info(rendered: &[u8]) -> (r: PathInfo)
    ensures
        r@ == PathInfoView::File(rendered@.len() as u64, sha256_digest(rendered@)),
{
    PathInfo::File { size: rendered.len() as u64, hash: Sha256Hash::from_bytes(rendered) }
}

/// The names of the template variables of the modules `names`, module by
/// module.
pub open spec fn context_names_of(modules: Map<Seq<char>, Module>, names: Seq<Seq<char>>) -> Seq<
    Seq<char>,
>
    decreases names.len(),
{
    if names.len() == 0 {
        Seq::empty()
    } else {
        context_names_of(modules, names.drop_last()) + modules[names.last()].context_names()
    }
}

/// The template variables of the modules `names`, by name and value,
/// module by module.
pub open spec fn context_of(modules: Map<Seq<char>, Module>, names: Seq<Seq<char>>) -> Seq<
    (Seq<char>, toml::Value),
>
    decreases names.len(),
{
    if names.len() == 0 {
        Seq::empty()
    } else {
        context_of(modules, names.drop_last()) + modules[names.last()].context_entries()
    }
}

/// The packages the modules `names` want together.
pub open spec fn packages_of(modules: Map<Seq<char>, Module>, names: Seq<Seq<char>>) -> Map<
    PackageManager,
    Set<Seq<char>>,
>
    decreases names.len(),
{
    if names.len() == 0 {
        Map::empty()
    } else {
        merge_packages(
            packages_of(modules, names.drop_last()),
            packages_view(modules[names.last()].packages_spec()),
        )
    }
}

/// The template variables of the first `k` modules come first among those
/// of all of them.
proof fn lemma_context_prefix(modules: Map<Seq<char>, Module>, names: Seq<Seq<char>>, k: int)
    requires
        0 <= k <= names.len(),
    ensures
        context_names_of(modules, names.subrange(0, k)).len() <= context_names_of(modules, names).len(),
        context_names_of(modules, names).subrange(
            0,
            context_names_of(modules, names.subrange(0, k)).len() as int,
        ) == context_names_of(modules, names.subrange(0, k)),
    decreases names.len(),
{
    if k == names.len() {
        assert(names.subrange(0, k) =~= names);
    } else {
        let front = names.drop_last();
        assert(front.subrange(0, k) =~= names.subrange(0, k));
        lemma_context_prefix(modules, front, k);
        let whole = context_names_of(modules, names);
        let part = context_names_of(modules, names.subrange(0, k));
        let mid = context_names_of(modules, front);
        assert(whole == mid + modules[names.last()].context_names());
        assert(whole.subrange(0, part.len() as int) =~= mid.subrange(0, part.len() as int));
    }
}

impl ModuleSet {
    /// The template variables of all the modules, module by module; fails
    /// with the name of a variable that is defined twice.
    pub fn context<'a>(&self, config: &'a Config) -> (r: Result<Vec<(&'a String, &'a toml::Value)>, String>)
        requires
            config.wf(),
            forall|i: int| 0 <= i < self@.len() ==> config.module_map().contains_key(#[trigger] self@[i]),
        ensures
            r is Ok <==> context_names_of(config.module_map(), self@).no_duplicates(),
            r matches Ok(v) ==> v@.map_values(|e: (&String, &toml::Value)| e.0@) == context_names_of(
                config.module_map(),
                self@,
            ),
            r matches Ok(v) ==> context_view(v@) == context_of(config.module_map(), self@),
            r matches Err(n) ==> context_names_of(config.module_map(), self@).contains(n@),
            r matches Err(n) ==> exists|a: int, b: int|
                0 <= a < b < context_names_of(config.module_map(), self@).len() && #[trigger] context_names_of(
                    config.module_map(),
                    self@,
                )[a] == n@ && #[trigger] context_names_of(config.module_map(), self@)[b] == n@,
    {
        let ghost modules = config.module_map();
        let ghost names = self@;
        let mut out: Vec<(&'a String, &'a toml::Value)> = Vec::new();
        let mut seen: Vec<String> = Vec::new();
        let mut i: usize = 0;
        assert(names.subrange(0, 0) =~= Seq::<Seq<char>>::empty());
        while i < self.names.len()
            invariant
                config.wf(),
                modules == config.module_map(),
                names == self@,
                names.len() == self.names@.len(),
                forall|j: int| 0 <= j < names.len() ==> modules.contains_key(#[trigger] names[j]),
                i <= names.len(),
                strings_view(seen@) == context_names_of(modules, names.subrange(0, i as int)),
                out@.map_values(|e: (&String, &toml::Value)| e.0@) == strings_view(seen@),
                context_view(out@) == context_of(modules, names.subrange(0, i as int)),
                strings_view(seen@).no_duplicates(),
            decreases names.len() - i,
        {
            let m = match crate::config::module(config, self.names[i].as_str()) {
                Some((_, m)) => m,
                None => {
                    proof {
                        assert(modules.contains_key(names[i as int]));
                    }
                    return Ok(out);
                },
            };
            assert(self.names@[i as int]@ == names[i as int]);
            assert(*m == modules[names[i as int]]);
            let ctx = m.context();
            let ghost cn = m.context_names();
            let ghost base = strings_view(seen@);
            let ghost ce = m.context_entries();
            let ghost base_e = context_view(out@);
            let mut j: usize = 0;
            while j < ctx.len()
                invariant
                    modules == config.module_map(),
                    names == self@,
                    i < names.len(),
                    base == context_names_of(modules, names.subrange(0, i as int)),
                    cn == modules[names[i as int]].context_names(),
                    cn == ctx@.map_values(|e: (String, toml::Value)| e.0@),
                    base_e == context_of(modules, names.subrange(0, i as int)),
                    ce == modules[names[i as int]].context_entries(),
                    ce == ctx@.map_values(|e: (String, toml::Value)| (e.0@, e.1)),
                    context_view(out@) == base_e + ce.subrange(0, j as int),
                    j <= ctx@.len(),
                    strings_view(seen@) == base + cn.subrange(0, j as int),
                    out@.map_values(|e: (&String, &toml::Value)| e.0@) == strings_view(seen@),
                    strings_view(seen@).no_duplicates(),
                decreases ctx@.len() - j,
            {
                let name = &ctx[j].0;
                assert(cn[j as int] == name@);
                if contains_string(&seen, name) {
                    proof {
                        let all = context_names_of(modules, names);
                        let upto = context_names_of(modules, names.subrange(0, i + 1));
                        let next = names.subrange(0, i + 1);
                        assert(next.drop_last() =~= names.subrange(0, i as int));
                        assert(next.last() == names[i as int]);
                        assert(upto == base + cn);
                        lemma_context_prefix(modules, names, i + 1);
                        let sv = strings_view(seen@);
                        let q = choose|q: int| 0 <= q < sv.len() && sv[q] == name@;
                        let at = base.len() + j;
                        assert(sv[q] == upto[q]);
                        assert(upto[at] == name@);
                        assert(all.subrange(0, upto.len() as int) == upto);
                        assert(all[q] == upto[q]);
                        assert(all[at] == upto[at]);
                        assert(q != at);
                        assert(q < at);
                        assert(all.contains(name@));
                        assert(0 <= q < at < all.len() && all[q] == name@ && all[at] == name@);
                    }
                    return Err(name.clone());
                }
                let ghost before_seen = seen@;
                let copy = name.clone();
                seen.push(copy);
                proof {
                    lemma_strings_view_push(before_seen, copy);
                }
                let ghost before_out = out@;
                out.push((name, &ctx[j].1));
                proof {
                    assert(out@.map_values(|e: (&String, &toml::Value)| e.0@) =~= before_out.map_values(
                        |e: (&String, &toml::Value)| e.0@,
                    ).push(name@));
                    assert(cn.subrange(0, j + 1) =~= cn.subrange(0, j as int).push(name@));
                    assert(strings_view(seen@) =~= base + cn.subrange(0, j + 1));
                    assert(ce[j as int] == (name@, ctx@[j as int].1));
                    assert(context_view(out@) =~= context_view(before_out).push(ce[j as int]));
                    assert(ce.subrange(0, j + 1) =~= ce.subrange(0, j as int).push(ce[j as int]));
                    assert(context_view(out@) =~= base_e + ce.subrange(0, j + 1));
                }
                j = j + 1;
            }
            proof {
                assert(cn.subrange(0, ctx@.len() as int) =~= cn);
                assert(ce.subrange(0, ctx@.len() as int) =~= ce);
                let next = names.subrange(0, i + 1);
                assert(next.drop_last() =~= names.subrange(0, i as int));
                assert(next.last() == names[i as int]);
            }
            i = i + 1;
        }
        assert(names.subrange(0, names.len() as int) =~= names);
        Ok(out)
    }
}

impl ModuleSet {
    /// The packages all the modules want together, by package manager.
    pub fn packages(&self, config: &Config) -> (r: Packages)
        requires
            config.wf(),
            forall|i: int| 0 <= i < self@.len() ==> config.module_map().contains_key(#[trigger] self@[i]),
        ensures
            packages_wf(r),
            packages_view(r) == packages_of(config.module_map(), self@),
    {
        let ghost modules = config.module_map();
        let ghost names = self@;
        let mut acc: Packages = SortedMap::new();
        let mut i: usize = 0;
        proof {
            config.lemma_names();
            assert(names.subrange(0, 0) =~= Seq::<Seq<char>>::empty());
            assert(packages_view(acc) =~= Map::<PackageManager, Set<Seq<char>>>::empty());
        }
        while i < self.names.len()
            invariant
                config.wf(),
                modules == config.module_map(),
                names == self@,
                names.len() == self.names@.len(),
                forall|j: int| 0 <= j < names.len() ==> modules.contains_key(#[trigger] names[j]),
                forall|n: Seq<char>| #[trigger] modules.contains_key(n) ==> modules[n].wf(),
                i <= names.len(),
                packages_wf(acc),
                packages_view(acc) == packages_of(modules, names.subrange(0, i as int)),
            decreases names.len() - i,
        {
            let m = match crate::config::module(config, self.names[i].as_str()) {
                Some((_, m)) => m,
                None => {
                    proof {
                        assert(modules.contains_key(names[i as int]));
                    }
                    return acc;
                },
            };
            assert(self.names@[i as int]@ == names[i as int]);
            assert(*m == modules[names[i as int]]);
            merge_into(&mut acc, m.packages());
            proof {
                let next = names.subrange(0, i + 1);
                assert(next.drop_last() =~= names.subrange(0, i as int));
                assert(next.last() == names[i as int]);
            }
            i = i + 1;
        }
        assert(names.subrange(0, names.len() as int) =~= names);
        acc
    }
}

/// The text that upon gives for `template` rendered with the variables
/// `context` (a later variable of the same name wins), or `None` when the
/// template doesn't compile or render.
pub uninterp spec fn rendered(template: Seq<char>, context: Seq<(Seq<char>, toml::Value)>) -> Option<
    Seq<char>,
>;

/// The variables handed to the template engine, by name and value.
pub open spec fn context_view(context: Seq<(&String, &toml::Value)>) -> Seq<(Seq<char>, toml::Value)> {
    context.map_values(|e: (&String, &toml::Value)| (e.0@, *e.1))
}

/// Compiles `template` with a fresh `upon::Engine` and renders it with the
/// variables `context`, by `upon::Engine::compile`,
/// `upon::Template::render` and `upon::Renderer::to_string`. Claims: it
/// succeeds exactly when `rendered` gives a text, and then gives that text;
/// the error message says why it couldn't be compiled or rendered, and
/// nothing is claimed of its words.
#[verifier::external_body]
fn compile_and_render(template: &str, context: &Vec<(&String, &toml::Value)>) -> (r: Result<String, String>)
    ensures
        r is Ok <==> rendered(template@, context_view(context@)) is Some,
        r matches Ok(t) ==> t@ == rendered(template@, context_view(context@))->Some_0,
{
    let engine = upon::Engine::new();
    let vars: std::collections::HashMap<&str, &toml::Value> =
        context.iter().map(|(name, value)| (name.as_str(), *value)).collect();
    match engine.compile(template) {
        Ok(compiled) => match compiled.render(&engine, &vars).to_string() {
            Ok(text) => Ok(text),
            Err(error) => Err(format!("Couldn't render template: {error:#}")),
        },
        Err(error) => Err(format!("Couldn't compile template: {error:#}")),
    }
}

/// Renders a template with the module set's variables, and gives the text
/// together with the record of the file it is written to.
pub fn render(template: &str, context: &Vec<(&String, &toml::Value)>) -> (r: Result<(String, PathInfo), String>)
    ensures
        r is Ok <==> rendered(template@, context_view(context@)) is Some,
        r matches Ok((text, info)) ==> text@ == rendered(template@, context_view(context@))->Some_0
            && info@ == PathInfoView::File(
            vstd::utf8::encode_utf8(text@).len() as u64,
            sha256_digest(vstd::utf8::encode_utf8(text@)),
        ),
{
    match compile_and_render(template, context) {
        Ok(text) => {
            let info = template_info(text.as_str().as_bytes());
            Ok((text, info))
        },
        Err(e) => Err(e),
    }
}

} // verus!
