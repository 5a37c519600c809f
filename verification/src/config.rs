//! The user's configuration: behaviour switches, the command used to gain
//! root rights, command aliases and the sources that modules can use.

use vstd::prelude::*;

use crate::cli::Behavior;
use crate::order::SortKey;
use crate::globs::{globs_match, Globs};
use crate::module::Module;
use crate::source::{HashableSource, HashableSourceView, SourceName};
use crate::sorted_map::{SortedMap, SortedSet};
use vstd::string::StrSliceExecFns;

verus! {

/// Why an alias couldn't be resolved.
#[derive(Clone, Copy, Debug, PartialEq, Eq)]
pub enum AliasError {
    /// Expanding the alias leads back to an alias already expanded.
    InfiniteLoop,
}

/// What expanding an alias comes to.
pub enum AliasOutcome {
    /// The command that the alias stands for, whose first word is no alias.
    Done(Seq<Seq<char>>),
    /// The expansion runs in a circle.
    Loop,
    /// The expansion reaches an empty command.
    Empty,
}

/// The views of a list of strings.
pub open spec fn strings_view(v: Seq<String>) -> Seq<Seq<char>> {
    v.map_values(|s: String| s@)
}

/// Expands `command` for at most `fuel` steps: while its first word is an
/// alias, that word is replaced by the alias's command, unless the alias's
/// command starts with a word that an earlier step started with already.
/// `None` means that `fuel` steps weren't enough.
pub open spec fn alias_steps(
    aliases: Map<Seq<char>, Seq<Seq<char>>>,
    command: Seq<Seq<char>>,
    visited: Set<Seq<char>>,
    fuel: nat,
) -> Option<AliasOutcome>
    decreases fuel,
{
    if fuel == 0 {
        None
    } else if command.len() == 0 {
        Some(AliasOutcome::Empty)
    } else if !aliases.contains_key(command[0]) {
        Some(AliasOutcome::Done(command))
    } else {
        let cmd = aliases[command[0]];
        if cmd.len() == 0 {
            Some(AliasOutcome::Empty)
        } else if visited.contains(cmd[0]) {
            Some(AliasOutcome::Loop)
        } else {
            alias_steps(aliases, cmd + command.drop_first(), visited.insert(cmd[0]), (fuel - 1) as nat)
        }
    }
}

/// What the alias `name` expands to, given `count` aliases in all; `count + 1`
/// steps are always enough.
pub open spec fn alias_outcome(
    aliases: Map<Seq<char>, Seq<Seq<char>>>,
    name: Seq<char>,
    count: nat,
) -> Option<AliasOutcome> {
    alias_steps(aliases, aliases[name], Set::empty(), count + 1)
}

/// The configuration.
pub struct Config {
    fetch: bool,
    root_command: Vec<String>,
    aliases: SortedMap<String, Vec<String>>,
    behavior: Behavior,
    modules: SortedMap<String, Module>,
    static_sources: SortedSet<SourceName>,
    dynamic_sources: SortedMap<SourceName, HashableSource>,
}

impl Config {
    /// The aliases, each with the command it stands for.
    pub closed spec fn alias_map(&self) -> Map<Seq<char>, Seq<Seq<char>>> {
        self.aliases@.map_values(|v: Vec<String>| strings_view(v@))
    }

    /// The number of aliases.
    pub closed spec fn alias_count(&self) -> nat {
        self.aliases.keys().len()
    }

    /// The names of the aliases, in ascending order.
    pub closed spec fn alias_names(&self) -> Seq<Seq<char>> {
        self.aliases.keys()
    }

    /// Whether re-fetching sources is on: the configuration file's `fetch`.
    pub closed spec fn spec_fetch(&self) -> bool {
        self.fetch
    }

    /// Whether the configuration file turns re-fetching on.
    pub closed spec fn fetch_setting(&self) -> bool {
        self.fetch
    }

    /// The command line switches.
    pub closed spec fn behavior_spec(&self) -> Behavior {
        self.behavior
    }

    /// The defined modules, by name.
    pub closed spec fn module_map(&self) -> Map<Seq<char>, Module> {
        self.modules@
    }

    /// The names of the defined modules, in ascending order.
    pub closed spec fn module_name_seq(&self) -> Seq<Seq<char>> {
        self.modules.keys()
    }

    /// The names of the static sources, in ascending order.
    pub closed spec fn static_source_seq(&self) -> Seq<Seq<char>> {
        self.static_sources.elements()
    }

    /// The dynamic sources, by name.
    pub closed spec fn dynamic_source_map(&self) -> Map<Seq<char>, HashableSourceView> {
        self.dynamic_sources@.map_values(|s: HashableSource| s@)
    }

    /// The command that gains root rights.
    pub closed spec fn spec_root_command(&self) -> Seq<Seq<char>> {
        strings_view(self.root_command@)
    }

    /// The internal consistency of a configuration.
    pub closed spec fn wf(&self) -> bool {
        &&& self.aliases.wf()
        &&& self.modules.wf()
        &&& self.static_sources.wf()
        &&& self.dynamic_sources.wf()
        &&& forall|name: Seq<char>| #[trigger] self.modules@.contains_key(name) ==> self.modules@[name].wf()
    }

    /// The names in `alias_names` are exactly the aliases.
    pub proof fn lemma_alias_names(&self)
        requires
            self.wf(),
        ensures
            forall|n: Seq<char>| #[trigger]
                self.alias_map().contains_key(n) <==> self.alias_names().contains(n),
    {
        self.aliases.lemma_dom();
    }

    /// The names in `module_name_seq` are exactly the defined modules, and
    /// those in `static_source_seq` the static sources, in strictly
    /// ascending order and so none twice.
    pub proof fn lemma_names(&self)
        requires
            self.wf(),
        ensures
            forall|n: Seq<char>| #[trigger]
                self.module_map().contains_key(n) <==> self.module_name_seq().contains(n),
            forall|i: int, j: int|
                0 <= i < j < self.module_name_seq().len() ==> crate::order::str_lt(
                    #[trigger] self.module_name_seq()[i],
                    #[trigger] self.module_name_seq()[j],
                ),
            forall|n: Seq<char>| #[trigger]
                self.module_map().contains_key(n) ==> self.module_map()[n].wf(),
            forall|i: int, j: int|
                0 <= i < j < self.static_source_seq().len() ==> crate::order::str_lt(
                    #[trigger] self.static_source_seq()[i],
                    #[trigger] self.static_source_seq()[j],
                ),
            self.static_source_seq().no_duplicates(),
    {
        self.modules.lemma_dom();
        self.static_sources.lemma_elements();
        SourceName::lemma_key_order();
        let q = self.static_source_seq();
        assert forall|i: int, j: int| 0 <= i < q.len() && 0 <= j < q.len() && i != j implies q[i] != q[j] by {
            if i < j {
                assert(crate::order::str_lt(q[i], q[j]));
            } else {
                assert(crate::order::str_lt(q[j], q[i]));
            }
        }
    }

    /// The command used to gain root rights when none is configured.
    pub fn default_root_command() -> (r: Vec<String>)
        ensures
            strings_view(r@) == seq![seq!['s', 'u', 'd', 'o']],
    {
        let mut r = Vec::new();
        proof {
            reveal_strlit("sudo");
        }
        let sudo = "sudo".to_owned();
        assert(sudo@ =~= seq!['s', 'u', 'd', 'o']);
        r.push(sudo);
        assert(strings_view(r@) =~= seq![seq!['s', 'u', 'd', 'o']]);
        r
    }

    /// A configuration with the given settings and aliases; a later alias
    /// of the same name replaces an earlier one.
    pub fn new(fetch: bool, root_command: Vec<String>, aliases: Vec<(String, Vec<String>)>) -> (r:
        Config)
        ensures
            r.wf(),
            r.spec_fetch() == fetch,
            r.spec_root_command() == strings_view(root_command@),
            r.module_map() == Map::<Seq<char>, Module>::empty(),
            r.static_source_seq() == Seq::<Seq<char>>::empty(),
            r.dynamic_source_map() == Map::<Seq<char>, HashableSourceView>::empty(),
            !r.behavior_spec().overwrite && !r.behavior_spec().dry_run && !r.behavior_spec().quiet,
            forall|name: Seq<char>|
                #[trigger] r.alias_map().contains_key(name) <==> exists|i: int|
                    0 <= i < aliases@.len() && aliases@[i].0@ == name,
            forall|i: int|
                #![trigger aliases@[i]]
                0 <= i < aliases@.len() && (forall|j: int|
                    i < j < aliases@.len() ==> aliases@[j].0@ != aliases@[i].0@) ==> r.alias_map()[aliases@[i].0@]
                    == strings_view(aliases@[i].1@),
    {
        let mut map: SortedMap<String, Vec<String>> = SortedMap::new();
        let ghost all = aliases@;
        let mut k: usize = 0;
        // Each entry replaces an earlier one of the same name, so the last
        // one of each name stays.
        while k < aliases.len()
            invariant
                map.wf(),
                all == aliases@,
                k <= all.len(),
                forall|name: Seq<char>|
                    #[trigger] map@.contains_key(name) <==> exists|i: int|
                        0 <= i < k && all[i].0@ == name,
                forall|i: int|
                    #![trigger all[i]]
                    0 <= i < k && (forall|j: int| i < j < k ==> all[j].0@ != all[i].0@)
                        ==> map@[all[i].0@]@ == all[i].1@,
            decreases aliases.len() - k,
        {
            let name = aliases[k].0.clone();
            let command = aliases[k].1.clone();
            assert(name@ == all[k as int].0@);
            assert(command@ == all[k as int].1@);
            map.insert(name, command);
            proof {
                assert forall|i: int|
                    #![trigger all[i]]
                    0 <= i < k + 1 && (forall|j: int| i < j < k + 1 ==> all[j].0@ != all[i].0@)
                        implies map@[all[i].0@]@ == all[i].1@ by {
                    if i < k {
                        assert(all[k as int].0@ != all[i].0@);
                    }
                }
                assert forall|n: Seq<char>|
                    #[trigger] map@.contains_key(n) <==> exists|i: int|
                        0 <= i < k + 1 && all[i].0@ == n by {
                    if n == all[k as int].0@ {
                        assert(all[k as int].0@ == n);
                    }
                }
            }
            k = k + 1;
        }
        let r = Config {
            fetch,
            root_command,
            aliases: map,
            behavior: Behavior { fetch: false, overwrite: false, dry_run: false, quiet: false },
            modules: SortedMap::new(),
            static_sources: SortedSet::new(),
            dynamic_sources: SortedMap::new(),
        };
        r
    }

    /// Sets the command line switches.
    pub fn set_behavior(&mut self, behavior: Behavior)
        requires
            old(self).wf(),
        ensures
            final(self).wf(),
            final(self).behavior_spec() == behavior,
            final(self).spec_fetch() == old(self).fetch_setting(),
            final(self).spec_root_command() == old(self).spec_root_command(),
            final(self).module_map() == old(self).module_map(),
            final(self).static_source_seq() == old(self).static_source_seq(),
            final(self).dynamic_source_map() == old(self).dynamic_source_map(),
            final(self).alias_map() == old(self).alias_map(),
    {
        self.behavior = behavior;
    }

    /// Takes the modules read from the module directory, each with its
    /// name; of two with the same name, the later one stays.
    pub fn load_modules(&mut self, modules: Vec<(String, Module)>)
        requires
            old(self).wf(),
            forall|i: int| 0 <= i < modules@.len() ==> (#[trigger] modules@[i]).1.wf(),
        ensures
            final(self).wf(),
            forall|n: Seq<char>| #[trigger]
                final(self).module_map().contains_key(n) <==> exists|i: int|
                    0 <= i < modules@.len() && modules@[i].0@ == n,
            forall|i: int|
                #![trigger modules@[i]]
                0 <= i < modules@.len() && (forall|j: int|
                    i < j < modules@.len() ==> modules@[j].0@ != modules@[i].0@) ==> final(self).module_map()[modules@[i].0@] == modules@[i].1,
            final(self).static_source_seq() == old(self).static_source_seq(),
            final(self).dynamic_source_map() == old(self).dynamic_source_map(),
            final(self).alias_map() == old(self).alias_map(),
            final(self).spec_fetch() == old(self).spec_fetch(),
            final(self).behavior_spec() == old(self).behavior_spec(),
            final(self).spec_root_command() == old(self).spec_root_command(),
    {
        let ghost all = modules@;
        let map = SortedMap::from_entries(modules);
        assert forall|n: Seq<char>| #[trigger] map@.contains_key(n) implies map@[n].wf() by {
            crate::sorted_map::lemma_last_with_key(all, n);
            let i = choose|i: int|
                0 <= i < all.len() && all[i].0@ == n && (forall|j: int|
                    i < j < all.len() ==> all[j].0@ != n);
            assert(all[i].1.wf());
        }
        self.modules = map;
    }

    /// Takes the names of the entries of the static source directory.
    pub fn load_static_sources(&mut self, names: Vec<SourceName>)
        requires
            old(self).wf(),
        ensures
            final(self).wf(),
            forall|n: Seq<char>|
                #[trigger] final(self).static_source_seq().contains(n) <==> exists|i: int|
                    0 <= i < names@.len() && names@[i]@ == n,
            final(self).module_map() == old(self).module_map(),
            final(self).dynamic_source_map() == old(self).dynamic_source_map(),
            final(self).alias_map() == old(self).alias_map(),
            final(self).spec_fetch() == old(self).spec_fetch(),
            final(self).behavior_spec() == old(self).behavior_spec(),
            final(self).spec_root_command() == old(self).spec_root_command(),
    {
        let mut set: SortedSet<SourceName> = SortedSet::new();
        let mut i: usize = 0;
        while i < names.len()
            invariant
                set.wf(),
                i <= names@.len(),
                forall|n: Seq<char>| #[trigger]
                    set@.contains(n) <==> exists|k: int| 0 <= k < i && names@[k]@ == n,
            decreases names.len() - i,
        {
            let name = names[i].key_clone();
            let ghost v = name@;
            set.insert(name);
            assert forall|n: Seq<char>| #[trigger]
                set@.contains(n) <==> exists|k: int| 0 <= k < i + 1 && names@[k]@ == n by {
                if n == v {
                    assert(names@[i as int]@ == n);
                }
            }
            i = i + 1;
        }
        proof {
            set.lemma_elements();
            assert forall|n: Seq<char>|
                #[trigger] set.elements().contains(n) <==> exists|k: int|
                    0 <= k < names@.len() && names@[k]@ == n by {
                assert(set@.contains(n) <==> set.elements().contains(n));
            }
        }
        self.static_sources = set;
    }

    /// Takes the dynamic sources read from their file; of two with the same
    /// name, the later one stays.
    pub fn load_dynamic_sources(&mut self, sources: Vec<(SourceName, HashableSource)>)
        requires
            old(self).wf(),
        ensures
            final(self).wf(),
            forall|n: Seq<char>| #[trigger]
                final(self).dynamic_source_map().contains_key(n) <==> exists|i: int|
                    0 <= i < sources@.len() && sources@[i].0@ == n,
            forall|i: int|
                #![trigger sources@[i]]
                0 <= i < sources@.len() && (forall|j: int|
                    i < j < sources@.len() ==> sources@[j].0@ != sources@[i].0@) ==> final(self).dynamic_source_map()[sources@[i].0@] == sources@[i].1@,
            final(self).module_map() == old(self).module_map(),
            final(self).static_source_seq() == old(self).static_source_seq(),
            final(self).alias_map() == old(self).alias_map(),
            final(self).spec_fetch() == old(self).spec_fetch(),
            final(self).behavior_spec() == old(self).behavior_spec(),
            final(self).spec_root_command() == old(self).spec_root_command(),
    {
        self.dynamic_sources = SortedMap::from_entries(sources);
    }

    /// The configuration as loaded: the file's settings and aliases, the
    /// command line switches, the modules of the module directory, the
    /// names in the static source directory and the dynamic sources of
    /// their file. Re-fetching follows the file's `fetch`; each static
    /// source is there once, in strictly ascending order; a dynamic source
    /// is found by its name exactly when it was defined, with its (last)
    /// definition.
    pub fn load(
        fetch: bool,
        root_command: Vec<String>,
        aliases: Vec<(String, Vec<String>)>,
        behavior: Behavior,
        modules: Vec<(String, Module)>,
        static_names: Vec<SourceName>,
        dynamic: Vec<(SourceName, HashableSource)>,
    ) -> (r: Config)
        requires
            forall|i: int| 0 <= i < modules@.len() ==> (#[trigger] modules@[i]).1.wf(),
        ensures
            r.wf(),
            r.spec_fetch() == fetch,
            r.behavior_spec() == behavior,
            r.spec_root_command() == strings_view(root_command@),
            forall|name: Seq<char>|
                #[trigger] r.alias_map().contains_key(name) <==> exists|i: int|
                    0 <= i < aliases@.len() && aliases@[i].0@ == name,
            forall|i: int|
                #![trigger aliases@[i]]
                0 <= i < aliases@.len() && (forall|j: int|
                    i < j < aliases@.len() ==> aliases@[j].0@ != aliases@[i].0@) ==> r.alias_map()[aliases@[i].0@]
                    == strings_view(aliases@[i].1@),
            forall|n: Seq<char>| #[trigger]
                r.module_map().contains_key(n) <==> exists|i: int|
                    0 <= i < modules@.len() && modules@[i].0@ == n,
            forall|i: int|
                #![trigger modules@[i]]
                0 <= i < modules@.len() && (forall|j: int|
                    i < j < modules@.len() ==> modules@[j].0@ != modules@[i].0@) ==> r.module_map()[modules@[i].0@] == modules@[i].1,
            r.static_source_seq().to_set() == static_names@.map_values(|n: SourceName| n@).to_set(),
            r.static_source_seq().no_duplicates(),
            r.static_source_seq().len() == static_names@.map_values(|n: SourceName| n@).to_set().len(),
            forall|i: int, j: int|
                0 <= i < j < r.static_source_seq().len() ==> crate::order::str_lt(
                    #[trigger] r.static_source_seq()[i],
                    #[trigger] r.static_source_seq()[j],
                ),
            forall|n: Seq<char>| #[trigger]
                r.dynamic_source_map().contains_key(n) <==> exists|i: int|
                    0 <= i < dynamic@.len() && dynamic@[i].0@ == n,
            forall|i: int|
                #![trigger dynamic@[i]]
                0 <= i < dynamic@.len() && (forall|j: int|
                    i < j < dynamic@.len() ==> dynamic@[j].0@ != dynamic@[i].0@) ==> r.dynamic_source_map()[dynamic@[i].0@] == dynamic@[i].1@,
    {
        let ghost names = static_names@;
        let ghost all_aliases = aliases@;
        let mut config = Config::new(fetch, root_command, aliases);
        config.set_behavior(behavior);
        config.load_modules(modules);
        config.load_static_sources(static_names);
        config.load_dynamic_sources(dynamic);
        proof {
            config.lemma_names();
            let q = config.static_source_seq();
            let nv = names.map_values(|n: SourceName| n@);
            assert(q.to_set() =~= nv.to_set()) by {
                assert forall|x: Seq<char>| q.contains(x) <==> nv.contains(x) by {
                    if q.contains(x) {
                        let i = choose|i: int| 0 <= i < names.len() && names[i]@ == x;
                        assert(nv[i] == x);
                    }
                    if nv.contains(x) {
                        let i = choose|i: int| 0 <= i < nv.len() && nv[i] == x;
                        assert(names[i]@ == x);
                    }
                }
            }
            q.unique_seq_to_set();
        }
        config
    }

    /// Whether the alias `name` exists and expands without reaching an
    /// empty command, which `alias` needs.
    pub fn alias_resolves(&self, name: &str) -> (r: bool)
        requires
            self.wf(),
        ensures
            r == (self.alias_map().contains_key(name@) && alias_outcome(
                self.alias_map(),
                name@,
                self.alias_count(),
            ) != Some(AliasOutcome::Empty)),
    {
        match self.alias_run(name) {
            Some(Ok(_)) => true,
            Some(Err(_)) => true,
            None => false,
        }
    }

    /// Expands the alias `name`: while the command's first word is an
    /// alias, that word is replaced by the alias's command. Fails if an
    /// alias's command starts with a word that an earlier expansion step
    /// started with.
    pub fn alias(&self, name: &str) -> (r: Result<Vec<String>, AliasError>)
        requires
            self.wf(),
            self.alias_map().contains_key(name@),
            alias_outcome(self.alias_map(), name@, self.alias_count()) != Some(
                AliasOutcome::Empty,
            ),
        ensures
            alias_outcome(self.alias_map(), name@, self.alias_count()) is Some,
            match alias_outcome(self.alias_map(), name@, self.alias_count()) {
                Some(AliasOutcome::Done(command)) => r matches Ok(c) && strings_view(c@)
                    == command,
                _ => r == Err::<Vec<String>, AliasError>(AliasError::InfiniteLoop),
            },
    {
        match self.alias_run(name) {
            Some(r) => r,
            None => Err(AliasError::InfiniteLoop),
        }
    }

    /// Expands the alias `name`, or gives `None` where the expansion
    /// reaches an empty command or `name` is no alias.
    fn alias_run(&self, name: &str) -> (r: Option<Result<Vec<String>, AliasError>>)
        requires
            self.wf(),
        ensures
            self.alias_map().contains_key(name@) ==> alias_outcome(
                self.alias_map(),
                name@,
                self.alias_count(),
            ) is Some,
            !self.alias_map().contains_key(name@) ==> r is None,
            self.alias_map().contains_key(name@) ==> match alias_outcome(
                self.alias_map(),
                name@,
                self.alias_count(),
            ) {
                Some(AliasOutcome::Done(command)) => r matches Some(Ok(c)) && strings_view(c@)
                    == command,
                Some(AliasOutcome::Loop) => r == Some(
                    Err::<Vec<String>, AliasError>(AliasError::InfiniteLoop),
                ),
                _ => r is None,
            },
    {
        let ghost amap = self.alias_map();
        let ghost keys = self.aliases.keys();
        let ghost heads = keys.map_values(|k: Seq<char>| amap[k][0]).to_set();
        let ghost count = self.alias_count();
        let key = name.to_owned();
        let first = match self.aliases.get(&key) {
            Some(c) => c,
            None => {
                return None;
            },
        };
        let mut command = clone_strings(first);
        let mut visited: Vec<String> = Vec::new();
        let ghost outcome = alias_outcome(amap, name@, count);
        proof {
            self.aliases.lemma_dom();
            lemma_heads(self);
            lemma_alias_fuel(amap, strings_view(command@), Set::empty(), count + 1, heads);
            assert(strings_view(visited@).to_set() =~= Set::<Seq<char>>::empty());
        }
        loop
            invariant
                self.wf(),
                amap == self.alias_map(),
                amap.contains_key(name@),
                outcome == alias_outcome(amap, name@, count),
                count == self.alias_count(),
                heads == keys.map_values(|k: Seq<char>| amap[k][0]).to_set(),
                keys == self.aliases.keys(),
                count == keys.len(),
                heads.finite(),
                heads.len() <= count,
                forall|k: Seq<char>| #[trigger]
                    amap.contains_key(k) && amap[k].len() > 0 ==> heads.contains(amap[k][0]),
                strings_view(visited@).to_set().subset_of(heads),
                strings_view(visited@).to_set().len() == visited@.len(),
                visited@.len() <= count,
                outcome == alias_steps(
                    amap,
                    strings_view(command@),
                    strings_view(visited@).to_set(),
                    (count + 1 - visited@.len()) as nat,
                ),
                outcome is Some,
            decreases count - visited@.len(),
        {
            let ghost cview = strings_view(command@);
            let ghost vset = strings_view(visited@).to_set();
            if command.len() == 0 {
                return None;
            }
            assert(cview[0] == command@[0]@);
            let next = match self.aliases.get(&command[0]) {
                None => {
                    return Some(Ok(command));
                },
                Some(c) => c,
            };
            assert(amap[cview[0]] == strings_view(next@));
            if next.len() == 0 {
                return None;
            }
            let head = &next[0];
            assert(strings_view(next@)[0] == head@);
            if contains_string(&visited, head) {
                return Some(Err(AliasError::InfiniteLoop));
            }
            let ghost old_visited = visited@;
            let mut expanded = clone_strings(next);
            let mut i: usize = 1;
            while i < command.len()
                invariant
                    1 <= i <= command.len(),
                    strings_view(expanded@) == strings_view(next@) + cview.subrange(1, i as int),
                    cview == strings_view(command@),
                decreases command.len() - i,
            {
                let word = command[i].clone();
                assert(word@ == command@[i as int]@);
                let ghost before = expanded@;
                expanded.push(word);
                proof {
                    lemma_strings_view_push(before, word);
                }
                assert(cview.subrange(1, i + 1) =~= cview.subrange(1, i as int).push(
                    command@[i as int]@,
                ));
                assert(strings_view(expanded@) =~= strings_view(next@) + cview.subrange(
                    1,
                    i + 1,
                ));
                i = i + 1;
            }
            assert(cview.subrange(1, command.len() as int) =~= cview.drop_first());
            visited.push(head.clone());
            proof {
                assert(strings_view(visited@) =~= strings_view(old_visited).push(head@));
                assert(strings_view(old_visited).push(head@) =~= strings_view(old_visited) + seq![head@]);
                Seq::lemma_to_set_insert_commutes(strings_view(old_visited), head@);
                assert(strings_view(visited@).to_set() =~= vset.insert(head@));
                assert(heads.contains(head@));
                vstd::set_lib::lemma_len_subset(strings_view(visited@).to_set(), heads);
            }
            command = expanded;
        }
    }
}

/// The views of a list with one more string.
pub proof fn lemma_strings_view_push(v: Seq<String>, s: String)
    ensures
        strings_view(v.push(s)) == strings_view(v).push(s@),
{
    assert(strings_view(v.push(s)) =~= strings_view(v).push(s@));
}

/// Whether `v` holds the string `s`.
pub(crate) fn contains_string(v: &Vec<String>, s: &String) -> (r: bool)
    ensures
        r == strings_view(v@).contains(s@),
{
    let mut i: usize = 0;
    while i < v.len()
        invariant
            i <= v.len(),
            forall|j: int| 0 <= j < i ==> v@[j]@ != s@,
        decreases v.len() - i,
    {
        if v[i] == *s {
            assert(strings_view(v@)[i as int] == s@);
            return true;
        }
        i = i + 1;
    }
    assert(!strings_view(v@).contains(s@)) by {
        if strings_view(v@).contains(s@) {
            let j = choose|j: int| 0 <= j < v@.len() && strings_view(v@)[j] == s@;
            assert(v@[j]@ == s@);
        }
    }
    false
}

/// A copy of a list of strings.
pub fn clone_strings(v: &Vec<String>) -> (r: Vec<String>)
    ensures
        strings_view(r@) == strings_view(v@),
{
    let mut r: Vec<String> = Vec::new();
    let mut i: usize = 0;
    while i < v.len()
        invariant
            i <= v.len(),
            strings_view(r@) == strings_view(v@).subrange(0, i as int),
        decreases v.len() - i,
    {
        let s = v[i].clone();
        assert(s@ == v@[i as int]@);
        let ghost before = r@;
        r.push(s);
        proof {
            lemma_strings_view_push(before, s);
        }
        assert(strings_view(r@) =~= strings_view(v@).subrange(0, i + 1));
        i = i + 1;
    }
    assert(strings_view(v@).subrange(0, v@.len() as int) =~= strings_view(v@));
    r
}

/// The first words of the aliases' commands are finitely many, at most one
/// for each alias.
proof fn lemma_heads(config: &Config)
    requires
        config.wf(),
    ensures
        ({
            let amap = config.alias_map();
            let keys = config.aliases.keys();
            let heads = keys.map_values(|k: Seq<char>| amap[k][0]).to_set();
            &&& heads.finite()
            &&& heads.len() <= keys.len()
            &&& forall|k: Seq<char>| #[trigger]
                amap.contains_key(k) && amap[k].len() > 0 ==> heads.contains(amap[k][0])
        }),
{
    let amap = config.alias_map();
    let keys = config.aliases.keys();
    let firsts = keys.map_values(|k: Seq<char>| amap[k][0]);
    let heads = firsts.to_set();
    firsts.lemma_cardinality_of_set();
    config.aliases.lemma_dom();
    assert forall|k: Seq<char>| #[trigger]
        amap.contains_key(k) && amap[k].len() > 0 implies heads.contains(amap[k][0]) by {
        let i = choose|i: int| 0 <= i < keys.len() && keys[i] == k;
        assert(firsts[i] == amap[k][0]);
    }
}

/// `fuel` steps are enough to expand a command when they outnumber the
/// first words not visited yet.
proof fn lemma_alias_fuel(
    aliases: Map<Seq<char>, Seq<Seq<char>>>,
    command: Seq<Seq<char>>,
    visited: Set<Seq<char>>,
    fuel: nat,
    heads: Set<Seq<char>>,
)
    requires
        heads.finite(),
        visited.subset_of(heads),
        fuel > heads.len() - visited.len(),
        forall|k: Seq<char>| #[trigger]
            aliases.contains_key(k) && aliases[k].len() > 0 ==> heads.contains(aliases[k][0]),
    ensures
        alias_steps(aliases, command, visited, fuel) is Some,
    decreases fuel,
{
    vstd::set_lib::lemma_len_subset(visited, heads);
    if command.len() > 0 && aliases.contains_key(command[0]) {
        let cmd = aliases[command[0]];
        if cmd.len() > 0 && !visited.contains(cmd[0]) {
            let v2 = visited.insert(cmd[0]);
            assert(heads.contains(cmd[0]));
            lemma_alias_fuel(aliases, cmd + command.drop_first(), v2, (fuel - 1) as nat, heads);
        }
    }
}

/// Whether re-fetching sources is on.
pub fn fetch(config: &Config) -> (r: bool)
    ensures
        r == config.spec_fetch(),
{
    config.fetch
}

/// Whether existing files are to be overwritten.
pub fn overwrite(config: &Config) -> (r: bool)
    ensures
        r == config.behavior_spec().overwrite,
{
    config.behavior.overwrite
}

/// Whether to only show what would be done.
pub fn dry_run(config: &Config) -> (r: bool)
    ensures
        r == config.behavior_spec().dry_run,
{
    config.behavior.dry_run
}

/// Whether to print less.
pub fn quiet(config: &Config) -> (r: bool)
    ensures
        r == config.behavior_spec().quiet,
{
    config.behavior.quiet
}

/// Whether `name` is a static source.
pub fn has_static_source(config: &Config, name: &SourceName) -> (r: bool)
    requires
        config.wf(),
    ensures
        r == config.static_source_seq().contains(name@),
{
    proof {
        config.static_sources.lemma_elements();
    }
    config.static_sources.contains(name)
}

/// Whether `name` is a static source.
pub fn has_source(config: &Config, name: &SourceName) -> (r: bool)
    requires
        config.wf(),
    ensures
        r == config.static_source_seq().contains(name@),
{
    has_static_source(config, name)
}

/// The dynamic source named `name`, if there is one.
pub fn dynamic_source<'a>(config: &'a Config, name: &SourceName) -> (r: Option<&'a HashableSource>)
    requires
        config.wf(),
    ensures
        match r {
            Some(s) => config.dynamic_source_map().contains_key(name@) && s@
                == config.dynamic_source_map()[name@],
            None => !config.dynamic_source_map().contains_key(name@),
        },
{
    config.dynamic_sources.get(name)
}

/// The names of the static sources, in ascending order.
pub fn static_sources(config: &Config) -> (r: Vec<SourceName>)
    ensures
        r@.map_values(|n: SourceName| n@) == config.static_source_seq(),
{
    let mut r: Vec<SourceName> = Vec::new();
    let n = config.static_sources.len();
    let mut i: usize = 0;
    while i < n
        invariant
            n == config.static_source_seq().len(),
            i <= n,
            r@.map_values(|n: SourceName| n@) == config.static_source_seq().subrange(0, i as int),
        decreases n - i,
    {
        let name = config.static_sources.element_at(i).key_clone();
        let ghost before = r@;
        r.push(name);
        assert(r@.map_values(|n: SourceName| n@) =~= before.map_values(|n: SourceName| n@).push(name@));
        assert(r@.map_values(|n: SourceName| n@) =~= config.static_source_seq().subrange(0, i + 1));
        i = i + 1;
    }
    assert(config.static_source_seq().subrange(0, n as int) =~= config.static_source_seq());
    r
}

/// The names of the static sources that `globs` matches, in ascending
/// order.
pub fn static_sources_matching_globs(config: &Config, globs: &Globs) -> (r: Vec<SourceName>)
    ensures
        r@.map_values(|n: SourceName| n@) == config.static_source_seq().filter(
            |n: Seq<char>| globs_match(globs@, n),
        ),
{
    let ghost pred = |n: Seq<char>| globs_match(globs@, n);
    let mut r: Vec<SourceName> = Vec::new();
    let n = config.static_sources.len();
    let mut i: usize = 0;
    assert(config.static_source_seq().subrange(0, 0).filter(pred) =~= Seq::<Seq<char>>::empty());
    while i < n
        invariant
            n == config.static_source_seq().len(),
            i <= n,
            pred == (|n: Seq<char>| globs_match(globs@, n)),
            r@.map_values(|n: SourceName| n@) == config.static_source_seq().subrange(0, i as int).filter(
                pred,
            ),
        decreases n - i,
    {
        let name = config.static_sources.element_at(i);
        let ghost prefix = config.static_source_seq().subrange(0, i as int);
        assert(config.static_source_seq().subrange(0, i + 1) =~= prefix.push(name@));
        proof {
            prefix.lemma_filter_push(name@, pred);
        }
        if globs.is_match(name.as_str()) {
            let copy = name.key_clone();
            let ghost before = r@;
            r.push(copy);
            assert(r@.map_values(|n: SourceName| n@) =~= before.map_values(|n: SourceName| n@).push(copy@));
        }
        i = i + 1;
    }
    assert(config.static_source_seq().subrange(0, n as int) =~= config.static_source_seq());
    r
}

/// The defined module `name` with its name, if there is one.
pub fn module<'a>(config: &'a Config, name: &str) -> (r: Option<(String, &'a Module)>)
    requires
        config.wf(),
    ensures
        match r {
            Some((n, m)) => n@ == name@ && config.module_map().contains_key(name@) && *m
                == config.module_map()[name@],
            None => !config.module_map().contains_key(name@),
        },
{
    let key = name.to_owned();
    match config.modules.get(&key) {
        Some(m) => Some((key, m)),
        None => None,
    }
}

/// The names of the defined modules, in ascending order.
pub fn modules(config: &Config) -> (r: Vec<String>)
    ensures
        strings_view(r@) == config.module_name_seq(),
{
    let mut r: Vec<String> = Vec::new();
    let n = config.modules.len();
    let mut i: usize = 0;
    while i < n
        invariant
            n == config.module_name_seq().len(),
            i <= n,
            strings_view(r@) == config.module_name_seq().subrange(0, i as int),
        decreases n - i,
    {
        let name = config.modules.key_at(i).clone();
        let ghost before = r@;
        r.push(name);
        proof {
            lemma_strings_view_push(before, name);
        }
        assert(strings_view(r@) =~= config.module_name_seq().subrange(0, i + 1));
        i = i + 1;
    }
    assert(config.module_name_seq().subrange(0, n as int) =~= config.module_name_seq());
    r
}

/// The names of the defined modules that `globs` matches, in ascending
/// order.
pub fn modules_matching_globs(config: &Config, globs: &Globs) -> (r: Vec<String>)
    ensures
        strings_view(r@) == config.module_name_seq().filter(|n: Seq<char>| globs_match(globs@, n)),
{
    let ghost pred = |n: Seq<char>| globs_match(globs@, n);
    let mut r: Vec<String> = Vec::new();
    let n = config.modules.len();
    let mut i: usize = 0;
    assert(config.module_name_seq().subrange(0, 0).filter(pred) =~= Seq::<Seq<char>>::empty());
    while i < n
        invariant
            n == config.module_name_seq().len(),
            i <= n,
            pred == (|n: Seq<char>| globs_match(globs@, n)),
            strings_view(r@) == config.module_name_seq().subrange(0, i as int).filter(pred),
        decreases n - i,
    {
        let name = config.modules.key_at(i);
        let ghost prefix = config.module_name_seq().subrange(0, i as int);
        assert(config.module_name_seq().subrange(0, i + 1) =~= prefix.push(name@));
        proof {
            prefix.lemma_filter_push(name@, pred);
        }
        if globs.is_match(name.as_str()) {
            let copy = name.clone();
            let ghost before = r@;
            r.push(copy);
            proof {
                lemma_strings_view_push(before, copy);
            }
        }
        i = i + 1;
    }
    assert(config.module_name_seq().subrange(0, n as int) =~= config.module_name_seq());
    r
}

/// The name of the module defined in the file at `rel_path` below the
/// module directory: the path without its `.toml` ending, or `None` for a
/// file without it.
pub fn module_name_of(rel_path: &str) -> (r: Option<String>)
    ensures
        match r {
            Some(name) => rel_path@.len() >= 5 && rel_path@ == name@ + seq!['.', 't', 'o', 'm', 'l'],
            None => !(rel_path@.len() >= 5 && rel_path@.subrange(
                rel_path@.len() - 5,
                rel_path@.len() as int,
            ) == seq!['.', 't', 'o', 'm', 'l']),
        },
{
    let n = rel_path.unicode_len();
    if n < 5 {
        return None;
    }
    let ghost suffix = seq!['.', 't', 'o', 'm', 'l'];
    if rel_path.get_char(n - 5) == '.' && rel_path.get_char(n - 4) == 't' && rel_path.get_char(n - 3)
        == 'o' && rel_path.get_char(n - 2) == 'm' && rel_path.get_char(n - 1) == 'l' {
        let name = rel_path.substring_char(0, n - 5);
        assert(rel_path@.subrange(n - 5, n as int) =~= suffix);
        assert(rel_path@ =~= name@ + suffix);
        Some(name.to_owned())
    } else {
        assert(rel_path@.subrange(n - 5, n as int) != suffix) by {
            if rel_path@.subrange(n - 5, n as int) == suffix {
                assert(rel_path@.subrange(n - 5, n as int)[0] == rel_path@[n - 5]);
                assert(rel_path@.subrange(n - 5, n as int)[1] == rel_path@[n - 4]);
                assert(rel_path@.subrange(n - 5, n as int)[2] == rel_path@[n - 3]);
                assert(rel_path@.subrange(n - 5, n as int)[3] == rel_path@[n - 2]);
                assert(rel_path@.subrange(n - 5, n as int)[4] == rel_path@[n - 1]);
            }
        }
        None
    }
}

/// Expands the alias `name` with the aliases of `config`.
pub fn alias(config: &Config, name: &str) -> (r: Result<Vec<String>, AliasError>)
    requires
        config.wf(),
        config.alias_map().contains_key(name@),
        alias_outcome(config.alias_map(), name@, config.alias_count()) != Some(
            AliasOutcome::Empty,
        ),
    ensures
        match alias_outcome(config.alias_map(), name@, config.alias_count()) {
            Some(AliasOutcome::Done(command)) => r matches Ok(c) && strings_view(c@) == command,
            _ => r == Err::<Vec<String>, AliasError>(AliasError::InfiniteLoop),
        },
{
    config.alias(name)
}

/// The aliases of `config` with their commands, by ascending name.
pub fn aliases(config: &Config) -> (r: Vec<(String, Vec<String>)>)
    requires
        config.wf(),
    ensures
        r@.len() == config.alias_names().len(),
        forall|i: int|
            #![trigger r@[i]]
            0 <= i < r@.len() ==> r@[i].0@ == config.alias_names()[i] && strings_view(r@[i].1@)
                == config.alias_map()[r@[i].0@],
{
    let mut r: Vec<(String, Vec<String>)> = Vec::new();
    let n = config.aliases.len();
    let mut i: usize = 0;
    while i < n
        invariant
            config.wf(),
            n == config.alias_names().len(),
            i <= n,
            r@.len() == i,
            forall|j: int|
                #![trigger r@[j]]
                0 <= j < i ==> r@[j].0@ == config.alias_names()[j] && strings_view(r@[j].1@)
                    == config.alias_map()[r@[j].0@],
        decreases n - i,
    {
        let name = config.aliases.key_at(i);
        let command = config.aliases.value_at(i);
        proof {
            config.aliases.lemma_entry(i as int);
        }
        r.push((name.clone(), clone_strings(command)));
        i = i + 1;
    }
    r
}

/// The command used to gain root rights, if one is configured: its
/// program and its arguments.
pub fn root_command(config: &Config) -> (r: Option<(String, Vec<String>)>)
    ensures
        config.spec_root_command().len() == 0 <==> r is None,
        r matches Some((program, args)) ==> program@ == config.spec_root_command()[0]
            && strings_view(args@) == config.spec_root_command().drop_first(),
{
    if config.root_command.len() == 0 {
        return None;
    }
    let mut args: Vec<String> = Vec::new();
    let mut i: usize = 1;
    while i < config.root_command.len()
        invariant
            1 <= i <= config.root_command.len(),
            strings_view(args@) == strings_view(config.root_command@).subrange(1, i as int),
        decreases config.root_command.len() - i,
    {
        let word = config.root_command[i].clone();
        assert(word@ == config.root_command@[i as int]@);
        let ghost before = args@;
        args.push(word);
        proof {
            lemma_strings_view_push(before, word);
        }
        assert(strings_view(args@) =~= strings_view(config.root_command@).subrange(1, i + 1));
        i = i + 1;
    }
    assert(strings_view(config.root_command@).subrange(1, config.root_command.len() as int)
        =~= config.spec_root_command().drop_first());
    Some((config.root_command[0].clone(), args))
}

/// What expanding an alias gives starts with a word that is no alias.
proof fn lemma_alias_steps_done(
    aliases: Map<Seq<char>, Seq<Seq<char>>>,
    command: Seq<Seq<char>>,
    visited: Set<Seq<char>>,
    fuel: nat,
)
    ensures
        alias_steps(aliases, command, visited, fuel) matches Some(AliasOutcome::Done(c)) ==> c.len() > 0
            && !aliases.contains_key(c[0]),
    decreases fuel,
{
    if fuel > 0 && command.len() > 0 && aliases.contains_key(command[0]) {
        let cmd = aliases[command[0]];
        if cmd.len() > 0 && !visited.contains(cmd[0]) {
            lemma_alias_steps_done(aliases, cmd + command.drop_first(), visited.insert(cmd[0]), (fuel - 1) as nat);
        }
    }
}

/// A resolved alias stands for a command that isn't empty and whose first
/// word is no alias, so expanding it once more changes nothing.
pub proof fn law_alias_resolved(aliases: Map<Seq<char>, Seq<Seq<char>>>, name: Seq<char>, count: nat)
    ensures
        alias_outcome(aliases, name, count) matches Some(AliasOutcome::Done(c)) ==> c.len() > 0
            && !aliases.contains_key(c[0]),
{
    lemma_alias_steps_done(aliases, aliases[name], Set::empty(), count + 1);
}

/// An alias whose command starts with a word that is no alias stands for
/// that command as it is.
pub proof fn law_alias_direct(aliases: Map<Seq<char>, Seq<Seq<char>>>, name: Seq<char>, count: nat)
    requires
        aliases.contains_key(name),
        aliases[name].len() > 0,
        !aliases.contains_key(aliases[name][0]),
    ensures
        alias_outcome(aliases, name, count) == Some(AliasOutcome::Done(aliases[name])),
{
}

} // verus!
