use decster::config::Config;
use decster::env::Env;
use decster::globs::Globs;
use decster::module::{
    render, template_info, EntryAction, LinkError, LinkKind, Module, ModuleSet, ModuleSource, SourceError,
};
use decster::owner::{OwnerIds, Users};
use decster::packages::PackageManager;
use decster::path::FilePath;
use decster::sha256::Sha256Hash;
use decster::sorted_map::{SortedMap, SortedSet};
use decster::source::{HashableSource, Source, SourceIdent, SourceName, SourcePath};
use decster::state::{PathInfo, State};

fn p(s: &str) -> FilePath {
    FilePath::new(s)
}

fn named(s: &str) -> ModuleSource {
    ModuleSource::Named(SourcePath::from_str(s).unwrap())
}

fn module(imports: &[&str], files: &[(&str, &str)], symlinks: &[(&str, &str)], context: &[&str]) -> Module {
    let imports: Vec<String> = imports.iter().map(|s| s.to_string()).collect();
    Module::new(
        Globs::strict(&imports).unwrap(),
        None,
        None,
        files.iter().map(|(path, src)| (p(path), named(src))).collect(),
        vec![],
        symlinks.iter().map(|(path, src)| (p(path), named(src))).collect(),
        vec![],
        context.iter().map(|n| (n.to_string(), toml::Value::Integer(1))).collect(),
        SortedMap::new(),
    )
}

fn config(modules: Vec<(&str, Module)>) -> Config {
    let mut config = Config::new(false, vec![], vec![]);
    config.load_modules(modules.into_iter().map(|(n, m)| (n.to_string(), m)).collect());
    config
}

fn env() -> Env {
    Env::load(1, 1, Some(p("/home/u")), Some(p("/cfg")), None, Some(p("/data"))).unwrap()
}

#[test]
fn import_closure_depth_first() {
    let config = config(vec![
        ("a", module(&["b*"], &[], &[], &[])),
        ("b1", module(&["c"], &[], &[], &[])),
        ("b2", module(&["a"], &[], &[], &[])),
        ("c", module(&[], &[], &[], &[])),
        ("d", module(&[], &[], &[], &[])),
    ]);
    let set = ModuleSet::import(&config, "a");
    assert_eq!(set.names(), &vec!["a", "b1", "c", "b2"]);
    let alone = ModuleSet::import(&config, "d");
    assert_eq!(alone.names(), &vec!["d"]);
}

#[test]
fn links_sorted_by_kind_then_path() {
    let config = config(vec![
        ("a", module(&["b"], &[("~/z", "s"), ("~/a", "s")], &[("~/link", "s")], &[])),
        ("b", module(&[], &[("~/m", "s")], &[], &[])),
    ]);
    let set = ModuleSet::import(&config, "a");
    assert!(set.check_links(&config).is_ok());
    let links = set.links_with(&config, &vec![None, Some(OwnerIds::from_metadata(5, 6))]).unwrap();
    let shown: Vec<(LinkKind, String)> =
        links.iter().map(|l| (l.kind(), l.path().to_path_string())).collect();
    assert_eq!(
        shown,
        vec![
            (LinkKind::File, "~/a".to_string()),
            (LinkKind::File, "~/m".to_string()),
            (LinkKind::File, "~/z".to_string()),
            (LinkKind::Symlink, "~/link".to_string()),
        ]
    );
    assert_eq!(links[1].owner(), Some(OwnerIds::from_metadata(5, 6)));
    assert_eq!(links[0].owner(), None);
    assert_eq!(set.links(&config, &mut Users::new()).unwrap().len(), 4);
}

#[test]
fn duplicate_link_paths() {
    let config = config(vec![
        ("a", module(&["b"], &[("~/x", "s")], &[], &[])),
        ("b", module(&[], &[], &[("~/x", "t")], &[])),
    ]);
    let set = ModuleSet::import(&config, "a");
    assert_eq!(set.check_links(&config), Err(p("~/x")));
    match set.links(&config, &mut Users::new()) {
        Err(LinkError::DuplicatePath(path)) => assert_eq!(path, p("~/x")),
        _ => panic!("expected a duplicate path"),
    }
}

#[test]
fn context_merging() {
    let config = config(vec![
        ("a", module(&["b"], &[], &[], &["x", "y"])),
        ("b", module(&[], &[], &[], &["z"])),
        ("c", module(&["b"], &[], &[], &["z"])),
    ]);
    let set = ModuleSet::import(&config, "a");
    let names: Vec<String> = set.context(&config).unwrap().iter().map(|(n, _)| n.to_string()).collect();
    assert_eq!(names, vec!["x", "y", "z"]);
    let clash = ModuleSet::import(&config, "c");
    assert_eq!(clash.context(&config).unwrap_err(), "z");
}

#[test]
fn packages_of_a_set() {
    let mut wanted = SortedMap::new();
    let mut set = SortedSet::new();
    set.insert("git".to_string());
    wanted.insert(PackageManager::Pacman, set);
    let with_packages = Module::new(
        Globs::strict(&vec![]).unwrap(),
        None,
        None,
        vec![],
        vec![],
        vec![],
        vec![],
        vec![],
        wanted,
    );
    let config = config(vec![("a", with_packages)]);
    let all = ModuleSet::import(&config, "a").packages(&config);
    assert_eq!(all.len(), 1);
    assert_eq!(all.value_at(0).element_at(0), "git");
}

#[test]
fn locate_sources() {
    let env = env();
    let mut config = config(vec![]);
    config.load_static_sources(vec![SourceName::from_str("static").unwrap()]);
    config.load_dynamic_sources(vec![(
        SourceName::from_str("dyn").unwrap(),
        HashableSource { source: Source::Text("t".to_string()), hash: None },
    )]);
    let (at, fetch) = named("dyn/sub").locate(&config, &env, "m").unwrap();
    assert_eq!(at.to_path_string(), "/data/decster/named-sources/dyn/sub");
    assert!(fetch.is_some());
    let (at, fetch) = named("static").locate(&config, &env, "m").unwrap();
    assert_eq!(at.to_path_string(), "/cfg/sources/static");
    assert!(fetch.is_none());
    assert_eq!(
        named("missing").locate(&config, &env, "m").unwrap_err(),
        SourceError::NotDefined("missing".to_string())
    );
    let inline = ModuleSource::Unnamed {
        source: HashableSource { source: Source::Text("t".to_string()), hash: None },
        link: "~//x/".to_string(),
    };
    let (at, fetch) = inline.locate(&config, &env, "m").unwrap();
    assert!(at.to_path_string().starts_with("/data/decster/unnamed-sources/"));
    assert_eq!(at, SourceIdent::unnamed("m", "~//x/").path(&env));
    assert_ne!(at, SourceIdent::unnamed("m", "~/x").path(&env));
    assert_eq!(fetch.unwrap().0, SourceIdent::unnamed("m", "~//x/"));
}

#[test]
fn fetch_only_when_needed() {
    let env = env();
    let mut config = config(vec![]);
    let source = HashableSource { source: Source::Text("t".to_string()), hash: None };
    config.load_dynamic_sources(vec![(SourceName::from_str("dyn").unwrap(), source)]);
    let mut state = State::new();
    let (_, first) = named("dyn").fetch(&config, &env, &state, "m", &Err("none".to_string())).unwrap();
    let (ident, fetched) = first.unwrap();
    state.add_source(&ident, &fetched);
    let (_, again) = named("dyn").fetch(&config, &env, &state, "m", &Err("none".to_string())).unwrap();
    assert!(again.is_none());
}

#[test]
fn link_entries() {
    let env = env();
    let config = config(vec![("a", module(&[], &[("~/conf", "s")], &[], &[]))]);
    let set = ModuleSet::import(&config, "a");
    let links = set.links_with(&config, &vec![None]).unwrap();
    let link = &links[0];
    let base = link.link_path(&env);
    assert_eq!(base.to_path_string(), "/home/u/conf");
    assert_eq!(decster::module::ModuleLink::target(&base, &p("")), base);
    let inner = decster::module::ModuleLink::target(&base, &p("d/f"));
    assert_eq!(inner.to_path_string(), "/home/u/conf/d/f");
    let mut state = State::new();
    assert_eq!(link.entry_action(&state, &inner, false), EntryAction::Create(LinkKind::File));
    assert_eq!(link.entry_action(&state, &inner, true), EntryAction::Directory);
    state.add_module("other", SortedMap::new());
    state.add_dir("other", &inner);
    assert_eq!(link.entry_action(&state, &inner, false), EntryAction::Refuse);
    let hash = Sha256Hash::from_bytes(b"x");
    assert_eq!(link.created_info(1, hash, &p("/o")), PathInfo::File { size: 1, hash });
    assert_eq!(template_info(b"hello"), PathInfo::File { size: 5, hash: Sha256Hash::from_bytes(b"hello") });
}

#[test]
fn render_template_with_context() {
    let name = "user".to_string();
    let value = toml::Value::String("ada".to_string());
    let context = vec![(&name, &value)];
    let (text, info) = render("hi {{ user }}!", &context).unwrap();
    assert_eq!(text, "hi ada!");
    assert_eq!(info, PathInfo::File { size: 7, hash: Sha256Hash::from_bytes(b"hi ada!") });
    assert!(render("{{ missing }}", &context).is_err());
    assert!(render("{{ unclosed", &context).is_err());
}

#[test]
fn record_entry_records_what_was_made() {
    let env = Env::load(1, 1, Some(p("/home/u")), Some(p("/c")), None, Some(p("/d"))).unwrap();
    let _ = env;
    let mut config = Config::new(false, vec![], vec![]);
    config.load_modules(vec![("m".to_string(), module(&[], &[("~/f", "src")], &[], &[]))]);
    let set = ModuleSet::import(&config, "m");
    let mut users = Users::new();
    let links = set.links(&config, &mut users).unwrap();
    let link = &links[0];
    let mut state = State::new();
    let dir = p("/home/u/d");
    link.record_entry(&mut state, "m", &dir, &EntryAction::Directory, false, &PathInfo::Directory);
    assert!(!state.is_path_owned(&dir));
    link.record_entry(&mut state, "m", &dir, &EntryAction::Directory, true, &PathInfo::Directory);
    assert_eq!(state.owner(&dir), Some("m".to_string()));
    let file = p("/home/u/d/f");
    let info = PathInfo::File { size: 1, hash: Sha256Hash::from_bytes(b"x") };
    link.record_entry(&mut state, "m", &file, &EntryAction::Refuse, false, &info);
    assert!(!state.is_path_owned(&file));
    link.record_entry(&mut state, "m", &file, &EntryAction::Create(LinkKind::File), false, &info);
    assert_eq!(state.record(&file), Some(PathInfo::File { size: 1, hash: Sha256Hash::from_bytes(b"x") }));
    assert_eq!(state.module("m").unwrap().paths().len(), 2);
}
