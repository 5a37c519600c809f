use decster::cli::{enable_targets, show_module, show_sources, update_targets, CliError, DisableCli, HashCli, ListCli, PathsCli, SyncArgs};
use decster::config::Config;
use decster::env::Env;
use decster::globs::Globs;
use decster::module::Module;
use decster::packages::PackageManager;
use decster::path::FilePath;
use decster::sorted_map::SortedSet;
use decster::sorted_map::SortedMap;
use decster::source::{HashableSource, Source, SourceIdent, SourceName};
use decster::state::{PathKind, State};

fn words(v: &[&str]) -> Vec<String> {
    v.iter().map(|s| s.to_string()).collect()
}

fn empty_module() -> Module {
    Module::new(Globs::strict(&vec![]).unwrap(), None, None, vec![], vec![], vec![], vec![], vec![], SortedMap::new())
}

#[test]
fn sync_switches() {
    assert_eq!(SyncArgs::new(false, false).should_install_and_uninstall(), (true, true));
    assert_eq!(SyncArgs::new(true, false).should_install_and_uninstall(), (true, false));
    assert_eq!(SyncArgs::new(false, true).should_install_and_uninstall(), (false, true));
}

#[test]
fn disable_targets() {
    let mut state = State::new();
    state.add_module("vim", SortedMap::new());
    state.add_module("zsh", SortedMap::new());
    assert_eq!(DisableCli::new(words(&["v*"])).run(&state), Ok(words(&["vim"])));
    assert_eq!(
        DisableCli::new(words(&["x*"])).run(&state),
        Err(CliError::NoMatchingEnabled(words(&["x*"])))
    );
    assert!(matches!(DisableCli::new(words(&["["])).run(&state), Err(CliError::InvalidGlobs(_))));
}

#[test]
fn update_and_enable_targets() {
    let mut state = State::new();
    assert_eq!(update_targets(&vec![], &state), Err(CliError::NoEnabledModules));
    state.add_module("vim", SortedMap::new());
    assert_eq!(update_targets(&vec![], &state), Ok(words(&["vim"])));
    assert_eq!(update_targets(&words(&["z"]), &state), Err(CliError::NoMatchingEnabled(words(&["z"]))));
    let mut config = Config::new(false, vec![], vec![]);
    config.load_modules(vec![("vim".to_string(), empty_module()), ("vimx".to_string(), empty_module())]);
    assert_eq!(enable_targets(&words(&["vim*"]), &config, &state), Ok(words(&["vimx"])));
    assert_eq!(
        enable_targets(&words(&["vim"]), &config, &state),
        Err(CliError::NoMatchingDisabled(words(&["vim"])))
    );
}

#[test]
fn list_modules() {
    let mut config = Config::new(false, vec![], vec![]);
    config.load_modules(vec![("b".to_string(), empty_module()), ("a".to_string(), empty_module())]);
    let mut state = State::new();
    state.add_module("b", SortedMap::new());
    assert_eq!(ListCli.run(&config, &state), vec![("a".to_string(), false), ("b".to_string(), true)]);
}

#[test]
fn owned_paths() {
    let env = Env::load(1, 1, Some(FilePath::new("/home/u")), Some(FilePath::new("/c")), None, Some(FilePath::new("/d")))
        .unwrap();
    let mut state = State::new();
    state.add_module("m", SortedMap::new());
    state.add_dir("m", &FilePath::new("/home/u/.config/m"));
    let rows = PathsCli.run(&state, &env);
    assert_eq!(rows.len(), 1);
    assert_eq!(rows[0].0, "m");
    assert_eq!(rows[0].1, vec![(FilePath::new("~/.config/m"), PathKind::Directory)]);
}

#[test]
fn hash_targets() {
    let mut config = Config::new(false, vec![], vec![]);
    let state = State::new();
    assert_eq!(HashCli::new(vec![]).run(&config, &state), Err(CliError::NoSources));
    config.load_static_sources(vec![SourceName::from_str("fonts").unwrap()]);
    let mut state = State::new();
    state.add_source(
        &SourceIdent::named(SourceName::from_str("dots").unwrap()),
        &HashableSource { source: Source::Text("t".to_string()), hash: None },
    );
    let (s, d) = HashCli::new(vec![]).run(&config, &state).unwrap();
    assert_eq!((s.len(), d.len()), (1, 1));
    let (s, d) = HashCli::new(words(&["d*"])).run(&config, &state).unwrap();
    assert_eq!((s.len(), d.len()), (0, 1));
    assert_eq!(
        HashCli::new(words(&["q"])).run(&config, &state),
        Err(CliError::NoMatchingSources(words(&["q"])))
    );
}

#[test]
fn show_selects_by_queries() {
    let mut config = Config::new(false, vec![], vec![]);
    config.load_static_sources(vec![SourceName::from_str("fonts").unwrap(), SourceName::from_str("vimrc").unwrap()]);
    let mut packages = SortedMap::new();
    let mut names = SortedSet::new();
    names.insert("vim".to_string());
    names.insert("git".to_string());
    packages.insert(PackageManager::Pacman, names);
    let mut state = State::new();
    state.add_module("vim", packages);
    state.add_dir("vim", &FilePath::new("/home/u/vim"));
    state.add_dir("vim", &FilePath::new("/home/u/other"));
    state.add_source(
        &SourceIdent::named(SourceName::from_str("vundle").unwrap()),
        &HashableSource { source: Source::Text("t".to_string()), hash: None },
    );
    let globs = Globs::permissive(&words(&["v*", "/home/u/v*"])).unwrap();
    let (statics, dynamics) = show_sources(&config, &state, &globs);
    assert_eq!(statics, vec![SourceName::from_str("vimrc").unwrap()]);
    assert_eq!(dynamics, vec![SourceIdent::named(SourceName::from_str("vundle").unwrap())]);
    let (paths, packages) = show_module(state.module("vim").unwrap(), &globs);
    assert_eq!(paths, vec![(FilePath::new("/home/u/vim"), PathKind::Directory)]);
    assert_eq!(packages, vec![(PackageManager::Pacman, words(&["vim"]))]);
    let everything = Globs::permissive(&vec![]).unwrap();
    let (statics, dynamics) = show_sources(&config, &state, &everything);
    assert_eq!((statics.len(), dynamics.len()), (2, 1));
    let (paths, packages) = show_module(state.module("vim").unwrap(), &everything);
    assert_eq!(paths.len(), 2);
    assert_eq!(packages, vec![(PackageManager::Pacman, words(&["git", "vim"]))]);
}

#[test]
fn fetch_reads_the_file_setting() {
    let mut config = Config::new(true, vec![], vec![]);
    assert!(decster::config::fetch(&config));
    config.set_behavior(decster::cli::Behavior { fetch: false, overwrite: false, dry_run: false, quiet: false });
    assert!(decster::config::fetch(&config));
    let mut config = Config::new(false, vec![], vec![]);
    config.set_behavior(decster::cli::Behavior { fetch: true, overwrite: false, dry_run: false, quiet: false });
    assert!(!decster::config::fetch(&config));
}

#[test]
fn config_load_gathers_everything() {
    let behavior = decster::cli::Behavior { fetch: true, overwrite: false, dry_run: true, quiet: false };
    let name = |s: &str| SourceName::from_str(s).unwrap();
    let text = |t: &str| HashableSource { source: Source::Text(t.to_string()), hash: None };
    let config = Config::load(
        false,
        vec![],
        vec![],
        behavior,
        vec![("vim".to_string(), empty_module())],
        vec![name("b"), name("a"), name("b")],
        vec![(name("d"), text("1")), (name("d"), text("2"))],
    );
    assert!(!decster::config::fetch(&config));
    assert!(decster::config::dry_run(&config));
    assert_eq!(decster::config::static_sources(&config), vec![name("a"), name("b")]);
    assert!(decster::config::has_static_source(&config, &name("a")));
    assert!(!decster::config::has_static_source(&config, &name("c")));
    assert_eq!(decster::config::dynamic_source(&config, &name("d")), Some(&text("2")));
    assert_eq!(decster::config::dynamic_source(&config, &name("e")), None);
    assert!(decster::config::module(&config, "vim").is_some());
}
