//! The command line: its commands and switches, and what each command works
//! on once its arguments are read.

use vstd::prelude::*;

use crate::config::{
    alias_outcome, clone_strings, lemma_strings_view_push, modules_matching_globs,
    static_sources, static_sources_matching_globs, strings_view, AliasError, AliasOutcome, Config,
};
use crate::env::Env;
use crate::globs::{globs_build_ok, globs_match, GlobError, Globs, GlobsView};
use crate::path::{render_components, spec_tildefy, ComponentView, FilePath};
use crate::source::{SourceIdent, SourceIdentView, SourceName};
use crate::state::{PathInfoView, PathKind, State, ModuleState};
use crate::packages::PackageManager;

verus! {

/// Switches that change how commands behave.
#[derive(Clone, Copy, Debug, Default, PartialEq, Eq)]
pub struct Behavior {
    /// Re-fetch sources.
    pub fetch: bool,
    /// Overwrite existing files.
    pub overwrite: bool,
    /// Only show what would be done.
    pub dry_run: bool,
    /// Print less.
    pub quiet: bool,
}

/// The arguments of `sync`.
#[derive(Clone, Copy, Debug, PartialEq, Eq)]
pub struct SyncArgs {
    /// Install without uninstalling.
    install: bool,
    /// Uninstall without installing.
    uninstall: bool,
}

impl SyncArgs {
    /// Whether `--install` was given.
    pub closed spec fn install_flag(&self) -> bool {
        self.install
    }

    /// Whether `--uninstall` was given.
    pub closed spec fn uninstall_flag(&self) -> bool {
        self.uninstall
    }

    /// The arguments as given.
    pub fn new(install: bool, uninstall: bool) -> (r: SyncArgs)
        ensures
            r.install_flag() == install,
            r.uninstall_flag() == uninstall,
    {
        SyncArgs { install, uninstall }
    }

    /// Whether to install and whether to uninstall: both when neither
    /// switch is given, else just what the switches ask.
    pub fn should_install_and_uninstall(&self) -> (r: (bool, bool))
        ensures
            !self.install_flag() && !self.uninstall_flag() ==> r == (true, true),
            self.install_flag() || self.uninstall_flag() ==> r == (
                self.install_flag(),
                self.uninstall_flag(),
            ),
    {
        match (self.install, self.uninstall) {
            (false, false) => (true, true),
            (install, uninstall) => (install, uninstall),
        }
    }
}

/// A command.
#[derive(Debug, PartialEq, Eq)]
pub enum CliCommand {
    /// Enable modules.
    Enable { modules: Vec<String> },
    /// Disable modules.
    Disable { modules: Vec<String> },
    /// Disable and re-enable modules.
    Update { modules: Vec<String> },
    /// Show module definitions.
    List,
    /// Show owned paths.
    Paths,
    /// Show hashes of fetched sources.
    Hash { sources: Vec<String> },
    /// Update system packages to match enabled modules.
    Sync(SyncArgs),
    /// Run Git commands in the config directory.
    Git { args: Vec<String> },
    /// Show the current state.
    Show { queries: Vec<String> },
}

/// A parsed command line.
#[derive(Debug, PartialEq, Eq)]
pub struct Cli {
    /// The config directory, if given.
    pub config: Option<FilePath>,
    /// The switches.
    pub behavior: Behavior,
    /// The command.
    pub command: CliCommand,
}

/// Why a command couldn't run.
#[derive(Clone, Debug, PartialEq, Eq)]
pub enum CliError {
    /// A glob pattern is invalid.
    InvalidGlobs(GlobError),
    /// The patterns didn't match any enabled module.
    NoMatchingEnabled(Vec<String>),
    /// The patterns didn't match any disabled module.
    NoMatchingDisabled(Vec<String>),
    /// The patterns didn't match any fetched source.
    NoMatchingSources(Vec<String>),
    /// There are no fetched sources.
    NoSources,
    /// There are no enabled modules.
    NoEnabledModules,
    /// An alias has the name of a command.
    AliasShadowsCommand(String),
}

/// A set of the patterns `patterns` that matches nothing (`strict`) or
/// everything (else) when there are none.
pub open spec fn globs_of(patterns: Seq<Seq<char>>, strict: bool) -> GlobsView {
    GlobsView { patterns, match_if_empty: !strict }
}

/// The names of `names` that the patterns match.
pub open spec fn matching(names: Seq<Seq<char>>, patterns: Seq<Seq<char>>, strict: bool) -> Seq<
    Seq<char>,
> {
    names.filter(|n: Seq<char>| globs_match(globs_of(patterns, strict), n))
}

/// The copies of a list of strings.
fn copy_strings(v: &Vec<String>) -> (r: Vec<String>)
    ensures
        strings_view(r@) == strings_view(v@),
{
    clone_strings(v)
}

/// The `disable` command.
pub struct DisableCli {
    modules: Vec<String>,
}

impl DisableCli {
    /// The patterns of the modules to disable.
    pub closed spec fn patterns(&self) -> Seq<Seq<char>> {
        strings_view(self.modules@)
    }

    /// The command with the patterns given.
    pub fn new(modules: Vec<String>) -> (r: DisableCli)
        ensures
            r.patterns() == strings_view(modules@),
    {
        DisableCli { modules }
    }

    /// The enabled modules to disable: those the patterns match, none
    /// matching being an error.
    pub fn run(&self, state: &State) -> (r: Result<Vec<String>, CliError>)
        requires
            state.wf(),
        ensures
            !globs_build_ok(self.patterns()) ==> r matches Err(CliError::InvalidGlobs(_)),
            globs_build_ok(self.patterns()) ==> ({
                let m = matching(state.module_name_seq(), self.patterns(), true);
                if m.len() == 0 {
                    r matches Err(CliError::NoMatchingEnabled(p)) && strings_view(p@) == self.patterns()
                } else {
                    r matches Ok(v) && strings_view(v@) == m
                }
            }),
    {
        let globs = match Globs::strict(&self.modules) {
            Ok(g) => g,
            Err(e) => {
                return Err(CliError::InvalidGlobs(e));
            },
        };
        let matches = state.module_names_matching_globs(&globs);
        assert(globs@ == globs_of(self.patterns(), true));
        if matches.len() == 0 {
            return Err(CliError::NoMatchingEnabled(copy_strings(&self.modules)));
        }
        Ok(matches)
    }
}

/// The `hash` command.
pub struct HashCli {
    sources: Vec<String>,
}

impl HashCli {
    /// The patterns of the sources to show.
    pub closed spec fn patterns(&self) -> Seq<Seq<char>> {
        strings_view(self.sources@)
    }

    /// The command with the patterns given.
    pub fn new(sources: Vec<String>) -> (r: HashCli)
        ensures
            r.patterns() == strings_view(sources@),
    {
        HashCli { sources }
    }

    /// The static and the fetched dynamic sources to show the hashes of:
    /// all of them without patterns, else the ones the patterns match (a
    /// dynamic source by its name; unnamed ones never match); an error if
    /// there are none.
    pub fn run(&self, config: &Config, state: &State) -> (r: Result<(Vec<SourceName>, Vec<SourceIdent>), CliError>)
        requires
            config.wf(),
            state.wf(),
        ensures
            self.patterns().len() == 0 ==> if config.static_source_seq().len() == 0
                && state.source_seq().len() == 0 {
                r == Err::<(Vec<SourceName>, Vec<SourceIdent>), CliError>(CliError::NoSources)
            } else {
                r matches Ok((s, d)) && s@.map_values(|n: SourceName| n@) == config.static_source_seq()
                    && d@.map_values(|i: SourceIdent| i@) == state.source_seq()
            },
            self.patterns().len() > 0 && !globs_build_ok(self.patterns()) ==> r matches Err(
                CliError::InvalidGlobs(_),
            ),
            self.patterns().len() > 0 && globs_build_ok(self.patterns()) ==> ({
                let g = globs_of(self.patterns(), false);
                let s = config.static_source_seq().filter(|n: Seq<char>| globs_match(g, n));
                let d = state.source_seq().filter(
                    |i: SourceIdentView| i matches SourceIdentView::Named(name) && globs_match(g, name),
                );
                if s.len() == 0 && d.len() == 0 {
                    r matches Err(CliError::NoMatchingSources(p)) && strings_view(p@) == self.patterns()
                } else {
                    r matches Ok((sv, dv)) && sv@.map_values(|n: SourceName| n@) == s && dv@.map_values(
                        |i: SourceIdent| i@,
                    ) == d
                }
            }),
    {
        if self.sources.len() == 0 {
            let s = static_sources(config);
            let d = state.sources();
            if s.len() == 0 && d.len() == 0 {
                return Err(CliError::NoSources);
            }
            return Ok((s, d));
        }
        let globs = match Globs::permissive(&self.sources) {
            Ok(g) => g,
            Err(e) => {
                return Err(CliError::InvalidGlobs(e));
            },
        };
        assert(globs@ == globs_of(self.patterns(), false));
        let s = static_sources_matching_globs(config, &globs);
        let d = state.sources_matching_globs(&globs);
        if s.len() == 0 && d.len() == 0 {
            return Err(CliError::NoMatchingSources(copy_strings(&self.sources)));
        }
        Ok((s, d))
    }
}

/// The `list` command.
pub struct ListCli;

impl ListCli {
    /// The defined modules in ascending order, each with whether it is
    /// enabled.
    pub fn run(&self, config: &Config, state: &State) -> (r: Vec<(String, bool)>)
        requires
            state.wf(),
        ensures
            r@.len() == config.module_name_seq().len(),
            forall|i: int|
                0 <= i < r@.len() ==> (#[trigger] r@[i]).0@ == config.module_name_seq()[i] && r@[i].1
                    == state@.modules.contains_key(r@[i].0@),
    {
        let names = modules_matching_all(config);
        let mut r: Vec<(String, bool)> = Vec::new();
        let mut i: usize = 0;
        while i < names.len()
            invariant
                state.wf(),
                strings_view(names@) == config.module_name_seq(),
                i <= names@.len(),
                r@.len() == i,
                forall|k: int|
                    0 <= k < i ==> (#[trigger] r@[k]).0@ == config.module_name_seq()[k] && r@[k].1
                        == state@.modules.contains_key(r@[k].0@),
            decreases names@.len() - i,
        {
            let name = names[i].clone();
            assert(strings_view(names@)[i as int] == names@[i as int]@);
            let enabled = state.is_module_enabled(name.as_str());
            r.push((name, enabled));
            i = i + 1;
        }
        r
    }
}

/// The names of all defined modules, in ascending order.
fn modules_matching_all(config: &Config) -> (r: Vec<String>)
    ensures
        strings_view(r@) == config.module_name_seq(),
{
    crate::config::modules(config)
}

/// The `paths` command.
pub struct PathsCli;

/// What the record of a path says it is.
pub open spec fn kind_of(info: PathInfoView) -> PathKind {
    match info {
        PathInfoView::Directory => PathKind::Directory,
        PathInfoView::File(..) => PathKind::File,
        PathInfoView::HardLink(..) => PathKind::HardLink,
        PathInfoView::Symlink(..) => PathKind::Symlink,
    }
}

impl PathsCli {
    /// The enabled modules in ascending order, each with the paths it
    /// created in the order created, written with `~` for the home
    /// directory, and what each is.
    pub fn run(&self, state: &State, env: &Env) -> (r: Vec<(String, Vec<(FilePath, PathKind)>)>)
        requires
            state.wf(),
        ensures
            r@.len() == state.module_name_seq().len(),
            forall|i: int|
                0 <= i < r@.len() ==> {
                    let name = (#[trigger] r@[i]).0@;
                    let paths = state@.modules[name].paths;
                    &&& name == state.module_name_seq()[i]
                    &&& state@.modules.contains_key(name)
                    &&& r@[i].1@.len() == paths.len()
                    &&& forall|j: int|
                        0 <= j < paths.len() ==> (#[trigger] r@[i].1@[j]).0@ == spec_tildefy(
                            paths[j].0,
                            env@.home,
                        ) && r@[i].1@[j].1 == kind_of(paths[j].1)
                },
    {
        let n = state.module_count();
        let mut r: Vec<(String, Vec<(FilePath, PathKind)>)> = Vec::new();
        let mut i: usize = 0;
        while i < n
            invariant
                state.wf(),
                n == state.module_name_seq().len(),
                i <= n,
                r@.len() == i,
                forall|k: int|
                    0 <= k < i ==> {
                        let name = (#[trigger] r@[k]).0@;
                        let paths = state@.modules[name].paths;
                        &&& name == state.module_name_seq()[k]
                        &&& state@.modules.contains_key(name)
                        &&& r@[k].1@.len() == paths.len()
                        &&& forall|j: int|
                            0 <= j < paths.len() ==> (#[trigger] r@[k].1@[j]).0@ == spec_tildefy(
                                paths[j].0,
                                env@.home,
                            ) && r@[k].1@[j].1 == kind_of(paths[j].1)
                    },
            decreases n - i,
        {
            let (name, module) = state.module_at(i);
            let records = module.paths();
            let mut rows: Vec<(FilePath, PathKind)> = Vec::new();
            let mut j: usize = 0;
            while j < records.len()
                invariant
                    records@.map_values(|e: (FilePath, crate::state::PathInfo)| (e.0@, e.1@)) == module@.paths,
                    j <= records@.len(),
                    rows@.len() == j,
                    forall|k: int|
                        0 <= k < j ==> (#[trigger] rows@[k]).0@ == spec_tildefy(
                            module@.paths[k].0,
                            env@.home,
                        ) && rows@[k].1 == kind_of(module@.paths[k].1),
                decreases records@.len() - j,
            {
                assert(module@.paths[j as int] == (records@[j as int].0@, records@[j as int].1@));
                let path = env.tildefy(&records[j].0);
                let kind = records[j].1.kind();
                rows.push((path, kind));
                j = j + 1;
            }
            r.push((name.clone(), rows));
            i = i + 1;
        }
        r
    }
}

/// The enabled modules to update: all of them without patterns (an error
/// if there are none), else the ones the patterns match (an error if they
/// match none).
pub fn update_targets(modules: &Vec<String>, state: &State) -> (r: Result<Vec<String>, CliError>)
    requires
        state.wf(),
    ensures
        modules@.len() == 0 ==> if state.module_name_seq().len() == 0 {
            r == Err::<Vec<String>, CliError>(CliError::NoEnabledModules)
        } else {
            r matches Ok(v) && strings_view(v@) == state.module_name_seq()
        },
        modules@.len() > 0 && !globs_build_ok(strings_view(modules@)) ==> r matches Err(
            CliError::InvalidGlobs(_),
        ),
        modules@.len() > 0 && globs_build_ok(strings_view(modules@)) ==> ({
            let m = matching(state.module_name_seq(), strings_view(modules@), false);
            if m.len() == 0 {
                r matches Err(CliError::NoMatchingEnabled(p)) && strings_view(p@) == strings_view(
                    modules@,
                )
            } else {
                r matches Ok(v) && strings_view(v@) == m
            }
        }),
{
    if modules.len() == 0 {
        let names = state.module_names();
        if names.len() == 0 {
            return Err(CliError::NoEnabledModules);
        }
        return Ok(names);
    }
    let globs = match Globs::permissive(modules) {
        Ok(g) => g,
        Err(e) => {
            return Err(CliError::InvalidGlobs(e));
        },
    };
    assert(globs@ == globs_of(strings_view(modules@), false));
    let matches = state.module_names_matching_globs(&globs);
    if matches.len() == 0 {
        return Err(CliError::NoMatchingEnabled(copy_strings(modules)));
    }
    Ok(matches)
}

/// The defined modules to enable: the ones the patterns match that aren't
/// enabled yet; an error if there are none.
pub fn enable_targets(modules: &Vec<String>, config: &Config, state: &State) -> (r: Result<
    Vec<String>,
    CliError,
>)
    requires
        state.wf(),
    ensures
        !globs_build_ok(strings_view(modules@)) ==> r matches Err(CliError::InvalidGlobs(_)),
        globs_build_ok(strings_view(modules@)) ==> ({
            let m = matching(config.module_name_seq(), strings_view(modules@), true).filter(
                |n: Seq<char>| !state@.modules.contains_key(n),
            );
            if m.len() == 0 {
                r matches Err(CliError::NoMatchingDisabled(p)) && strings_view(p@) == strings_view(
                    modules@,
                )
            } else {
                r matches Ok(v) && strings_view(v@) == m
            }
        }),
{
    let globs = match Globs::strict(modules) {
        Ok(g) => g,
        Err(e) => {
            return Err(CliError::InvalidGlobs(e));
        },
    };
    assert(globs@ == globs_of(strings_view(modules@), true));
    let candidates = modules_matching_globs(config, &globs);
    let ghost all = strings_view(candidates@);
    let ghost pred = |n: Seq<char>| !state@.modules.contains_key(n);
    let mut r: Vec<String> = Vec::new();
    let mut i: usize = 0;
    assert(all.subrange(0, 0).filter(pred) =~= Seq::<Seq<char>>::empty());
    while i < candidates.len()
        invariant
            state.wf(),
            all == strings_view(candidates@),
            pred == (|n: Seq<char>| !state@.modules.contains_key(n)),
            i <= candidates@.len(),
            strings_view(r@) == all.subrange(0, i as int).filter(pred),
        decreases candidates@.len() - i,
    {
        let name = &candidates[i];
        assert(all[i as int] == name@);
        let ghost prefix = all.subrange(0, i as int);
        assert(all.subrange(0, i + 1) =~= prefix.push(name@));
        proof {
            prefix.lemma_filter_push(name@, pred);
        }
        if !state.is_module_enabled(name.as_str()) {
            let copy = name.clone();
            let ghost before = r@;
            r.push(copy);
            proof {
                lemma_strings_view_push(before, copy);
            }
        }
        i = i + 1;
    }
    assert(all.subrange(0, candidates@.len() as int) =~= all);
    if r.len() == 0 {
        return Err(CliError::NoMatchingDisabled(copy_strings(modules)));
    }
    Ok(r)
}

/// The first alias, in ascending order, that has the name of one of the
/// commands `commands`; aliases can't replace commands.
pub fn alias_conflict(config: &Config, commands: &Vec<String>) -> (r: Option<String>)
    requires
        config.wf(),
    ensures
        match r {
            Some(name) => config.alias_map().contains_key(name@) && strings_view(commands@).contains(
                name@,
            ),
            None => forall|n: Seq<char>|
                #[trigger] config.alias_map().contains_key(n) ==> !strings_view(commands@).contains(n),
        },
{
    let aliases = crate::config::aliases(config);
    let mut i: usize = 0;
    proof {
        config.lemma_alias_names();
    }
    while i < aliases.len()
        invariant
            config.wf(),
            aliases@.len() == config.alias_names().len(),
            forall|k: int|
                #![trigger aliases@[k]]
                0 <= k < aliases@.len() ==> aliases@[k].0@ == config.alias_names()[k],
            forall|n: Seq<char>| #[trigger]
                config.alias_map().contains_key(n) <==> config.alias_names().contains(n),
            i <= aliases@.len(),
            forall|k: int| 0 <= k < i ==> !strings_view(commands@).contains(#[trigger] config.alias_names()[k]),
        decreases aliases@.len() - i,
    {
        let name = &aliases[i].0;
        assert(aliases@[i as int].0@ == config.alias_names()[i as int]);
        if crate::config::contains_string(commands, name) {
            assert(config.alias_names().contains(name@));
            return Some(name.clone());
        }
        i = i + 1;
    }
    assert forall|n: Seq<char>| #[trigger]
        config.alias_map().contains_key(n) implies !strings_view(commands@).contains(n) by {
        let k = choose|k: int| 0 <= k < config.alias_names().len() && config.alias_names()[k] == n;
        assert(aliases@[k].0@ == n);
    }
    None
}

/// The arguments an alias stands for: its expansion followed by the
/// arguments given after it.
pub fn expand_alias(config: &Config, name: &str, args: &Vec<String>) -> (r: Result<Vec<String>, AliasError>)
    requires
        config.wf(),
        config.alias_map().contains_key(name@),
        alias_outcome(config.alias_map(), name@, config.alias_count()) != Some(AliasOutcome::Empty),
    ensures
        match alias_outcome(config.alias_map(), name@, config.alias_count()) {
            Some(AliasOutcome::Done(command)) => r matches Ok(v) && strings_view(v@) == command
                + strings_view(args@),
            _ => r == Err::<Vec<String>, AliasError>(AliasError::InfiniteLoop),
        },
{
    let mut expansion = match crate::config::alias(config, name) {
        Ok(v) => v,
        Err(e) => {
            return Err(e);
        },
    };
    let ghost head = strings_view(expansion@);
    let mut i: usize = 0;
    while i < args.len()
        invariant
            i <= args@.len(),
            strings_view(expansion@) == head + strings_view(args@).subrange(0, i as int),
        decreases args@.len() - i,
    {
        let word = args[i].clone();
        let ghost before = expansion@;
        expansion.push(word);
        proof {
            lemma_strings_view_push(before, word);
        }
        assert(strings_view(args@).subrange(0, i + 1) =~= strings_view(args@).subrange(0, i as int).push(
            args@[i as int]@,
        ));
        i = i + 1;
    }
    assert(strings_view(args@).subrange(0, args@.len() as int) =~= strings_view(args@));
    Ok(expansion)
}

/// Whether `globs` selects a source identifier: a named source by its
/// name, an unnamed one by its module or its path.
pub open spec fn ident_selected(globs: GlobsView, ident: SourceIdentView) -> bool {
    match ident {
        SourceIdentView::Named(name) => globs_match(globs, name),
        SourceIdentView::Unnamed(module, path) => globs_match(globs, module) || globs_match(
            globs,
            path,
        ),
    }
}

/// The sources that `show` lists for the queries `globs`: the static
/// sources whose names match, and the fetched sources that match.
pub fn show_sources(config: &Config, state: &State, globs: &Globs) -> (r: (Vec<SourceName>, Vec<SourceIdent>))
    requires
        state.wf(),
    ensures
        r.0@.map_values(|n: SourceName| n@) == config.static_source_seq().filter(
            |n: Seq<char>| globs_match(globs@, n),
        ),
        r.1@.map_values(|i: SourceIdent| i@) == state.source_seq().filter(
            |i: SourceIdentView| ident_selected(globs@, i),
        ),
{
    let statics = static_sources_matching_globs(config, globs);
    let all = state.sources();
    let ghost pred = |i: SourceIdentView| ident_selected(globs@, i);
    let ghost seq = state.source_seq();
    let mut r: Vec<SourceIdent> = Vec::new();
    let mut k: usize = 0;
    assert(seq.subrange(0, 0).filter(pred) =~= Seq::<SourceIdentView>::empty());
    while k < all.len()
        invariant
            all@.map_values(|i: SourceIdent| i@) == seq,
            pred == (|i: SourceIdentView| ident_selected(globs@, i)),
            k <= all@.len(),
            r@.map_values(|i: SourceIdent| i@) == seq.subrange(0, k as int).filter(pred),
        decreases all@.len() - k,
    {
        let ident = &all[k];
        assert(seq[k as int] == ident@);
        let ghost prefix = seq.subrange(0, k as int);
        assert(seq.subrange(0, k + 1) =~= prefix.push(ident@));
        proof {
            prefix.lemma_filter_push(ident@, pred);
        }
        if ident.matches_globs(globs) {
            let copy = ident.duplicate();
            let ghost before = r@;
            r.push(copy);
            assert(r@.map_values(|i: SourceIdent| i@) =~= before.map_values(|i: SourceIdent| i@).push(copy@));
        }
        k = k + 1;
    }
    assert(seq.subrange(0, all@.len() as int) =~= seq);
    (statics, r)
}

/// What `show` lists of an enabled module for the queries `globs`: its
/// paths whose written form matches, in the order created, with what each
/// is; and for each package manager, the matching packages.
pub fn show_module(state: &ModuleState, globs: &Globs) -> (r: (Vec<(FilePath, PathKind)>, Vec<(PackageManager, Vec<String>)>))
    requires
        state.wf(),
    ensures
        r.0@.map_values(|e: (FilePath, PathKind)| (e.0@, e.1)) == state@.paths.filter(
            |e: (Seq<ComponentView>, PathInfoView)| globs_match(globs@, render_components(e.0)),
        ).map_values(|e: (Seq<ComponentView>, PathInfoView)| (e.0, kind_of(e.1))),
        r.1@.len() == state.package_map().keys().len(),
        forall|i: int|
            #![trigger r.1@[i]]
            0 <= i < r.1@.len() ==> r.1@[i].0 == state.package_map().keys()[i] && strings_view(r.1@[i].1@)
                == state.package_map()@[r.1@[i].0].elements().filter(
                |n: Seq<char>| globs_match(globs@, n),
            ),
{
    let records = state.paths();
    let ghost pred = |e: (Seq<ComponentView>, PathInfoView)| globs_match(globs@, render_components(e.0));
    let ghost f = |e: (Seq<ComponentView>, PathInfoView)| (e.0, kind_of(e.1));
    let ghost all = state@.paths;
    let mut paths: Vec<(FilePath, PathKind)> = Vec::new();
    let mut k: usize = 0;
    assert(all.subrange(0, 0).filter(pred) =~= Seq::<(Seq<ComponentView>, PathInfoView)>::empty());
    while k < records.len()
        invariant
            records@.map_values(|e: (FilePath, crate::state::PathInfo)| (e.0@, e.1@)) == all,
            pred == (|e: (Seq<ComponentView>, PathInfoView)| globs_match(globs@, render_components(e.0))),
            f == (|e: (Seq<ComponentView>, PathInfoView)| (e.0, kind_of(e.1))),
            k <= records@.len(),
            paths@.map_values(|e: (FilePath, PathKind)| (e.0@, e.1)) == all.subrange(0, k as int).filter(
                pred,
            ).map_values(f),
        decreases records@.len() - k,
    {
        let entry = &records[k];
        assert(all[k as int] == (entry.0@, entry.1@));
        let ghost prefix = all.subrange(0, k as int);
        assert(all.subrange(0, k + 1) =~= prefix.push(all[k as int]));
        proof {
            prefix.lemma_filter_push(all[k as int], pred);
        }
        let text = entry.0.to_path_string();
        if globs.is_match(text.as_str()) {
            let item = (entry.0.clone(), entry.1.kind());
            let ghost before = paths@;
            paths.push(item);
            assert(paths@.map_values(|e: (FilePath, PathKind)| (e.0@, e.1)) =~= before.map_values(
                |e: (FilePath, PathKind)| (e.0@, e.1),
            ).push(f(all[k as int])));
            assert(prefix.filter(pred).push(all[k as int]).map_values(f) =~= prefix.filter(pred).map_values(f).push(
                f(all[k as int]),
            ));
        }
        k = k + 1;
    }
    assert(all.subrange(0, records@.len() as int) =~= all);
    let groups = state.packages();
    let ghost gpred = |n: Seq<char>| globs_match(globs@, n);
    let mut out: Vec<(PackageManager, Vec<String>)> = Vec::new();
    let mut g: usize = 0;
    while g < groups.len()
        invariant
            state.wf(),
            gpred == (|n: Seq<char>| globs_match(globs@, n)),
            groups@.len() == state.package_map().keys().len(),
            forall|i: int|
                #![trigger groups@[i]]
                0 <= i < groups@.len() ==> groups@[i].0 == state.package_map().keys()[i]
                    && strings_view(groups@[i].1@) == state.package_map()@[groups@[i].0].elements(),
            g <= groups@.len(),
            out@.len() == g,
            forall|i: int|
                #![trigger out@[i]]
                0 <= i < g ==> out@[i].0 == state.package_map().keys()[i] && strings_view(out@[i].1@)
                    == state.package_map()@[out@[i].0].elements().filter(gpred),
        decreases groups@.len() - g,
    {
        let (manager, names) = (&groups[g].0, &groups[g].1);
        let ghost all_names = strings_view(names@);
        let mut kept: Vec<String> = Vec::new();
        let mut j: usize = 0;
        assert(all_names.subrange(0, 0).filter(gpred) =~= Seq::<Seq<char>>::empty());
        while j < names.len()
            invariant
                all_names == strings_view(names@),
                gpred == (|n: Seq<char>| globs_match(globs@, n)),
                j <= names@.len(),
                strings_view(kept@) == all_names.subrange(0, j as int).filter(gpred),
            decreases names@.len() - j,
        {
            let name = &names[j];
            assert(all_names[j as int] == name@);
            let ghost prefix = all_names.subrange(0, j as int);
            assert(all_names.subrange(0, j + 1) =~= prefix.push(name@));
            proof {
                prefix.lemma_filter_push(name@, gpred);
            }
            if globs.is_match(name.as_str()) {
                let copy = name.clone();
                let ghost before = kept@;
                kept.push(copy);
                proof {
                    lemma_strings_view_push(before, copy);
                }
            }
            j = j + 1;
        }
        assert(all_names.subrange(0, names@.len() as int) =~= all_names);
        assert(groups@[g as int].0 == state.package_map().keys()[g as int]);
        out.push((*manager, kept));
        g = g + 1;
    }
    (paths, out)
}

} // verus!
