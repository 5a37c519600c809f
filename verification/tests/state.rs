use decster::packages::PackageManager;
use decster::path::FilePath;
use decster::sha256::Sha256Hash;
use decster::sorted_map::{SortedMap, SortedSet};
use decster::source::{HashableSource, Source, SourceIdent, SourceName};
use decster::state::{PathInfo, PathKind, PathObservation, PathState, Removal, State, StateError};

fn packages(entries: &[(PackageManager, &[&str])]) -> SortedMap<PackageManager, SortedSet<String>> {
    let mut map = SortedMap::new();
    for (manager, names) in entries {
        let mut set = SortedSet::new();
        for n in names.iter() {
            set.insert(n.to_string());
        }
        map.insert(*manager, set);
    }
    map
}

fn set_items(set: &SortedSet<String>) -> Vec<String> {
    (0..set.len()).map(|i| set.element_at(i).clone()).collect()
}

#[test]
fn add_module_enables_once() {
    let mut state = State::new();
    assert!(!state.is_module_enabled("m"));
    state.add_module("m", packages(&[(PackageManager::Pacman, &["vim"])]));
    assert!(state.is_module_enabled("m"));
    state.add_module("m", packages(&[(PackageManager::Pacman, &["emacs"])]));
    let all = state.packages();
    assert_eq!(all.len(), 1);
    assert_eq!(set_items(all.value_at(0)), vec!["vim".to_string()]);
    assert_eq!(state.module_names(), vec!["m".to_string()]);
}

#[test]
fn add_path_owns_and_records() {
    let mut state = State::new();
    state.add_module("m", SortedMap::new());
    let p = FilePath::new("/home/u/.vimrc");
    state.add_dir("m", &FilePath::new("/home/u/.vim"));
    state.add_file("m", &p, 3, Sha256Hash::from_bytes(b"abc"));
    assert!(state.is_path_owned(&p));
    assert_eq!(state.owner(&p), Some("m".to_string()));
    assert!(state.record(&p).is_some());
    assert_eq!(state.owner(&FilePath::new("/elsewhere")), None);
    let module = state.module("m").unwrap();
    assert_eq!(module.paths().len(), 2);
}

#[test]
fn disable_module_forgets_paths() {
    let mut state = State::new();
    state.add_module("m", SortedMap::new());
    let a = FilePath::new("/a");
    let b = FilePath::new("/a/b");
    state.add_dir("m", &a);
    state.add_file("m", &b, 1, Sha256Hash::from_bytes(b"x"));
    state.disable_module("m", 1);
    assert!(state.is_module_enabled("m"));
    assert!(!state.is_path_owned(&b));
    assert!(state.is_path_owned(&a));
    state.disable_module("m", 1);
    assert!(!state.is_module_enabled("m"));
    assert!(!state.is_path_owned(&a));
}

#[test]
fn enable_disable_roundtrip() {
    let mut state = State::new();
    state.add_module("keep", SortedMap::new());
    state.add_module("m", packages(&[(PackageManager::Paru, &["yay"])]));
    state.disable_module("m", 0);
    assert_eq!(state.module_names(), vec!["keep".to_string()]);
}

#[test]
fn remove_module_newest_first() {
    let mut state = State::new();
    state.add_module("m", SortedMap::new());
    state.add_dir("m", &FilePath::new("/d"));
    state.add_link("m", &FilePath::new("/src"), &FilePath::new("/d/l"));
    let records = state.remove_module("m").unwrap();
    let paths: Vec<String> = records.iter().map(|(p, _)| p.to_path_string()).collect();
    assert_eq!(paths, vec!["/d/l".to_string(), "/d".to_string()]);
    assert_eq!(records[0].1.kind(), PathKind::Symlink);
    assert!(!state.is_module_enabled("m"));
    assert_eq!(state.remove_module("m").unwrap_err(), StateError::NotEnabled);
}

#[test]
fn packages_of_all_modules_merge() {
    let mut state = State::new();
    state.add_module("a", packages(&[(PackageManager::Pacman, &["git", "vim"])]));
    state.add_module(
        "b",
        packages(&[(PackageManager::Pacman, &["vim", "zsh"]), (PackageManager::Paru, &["yay"])]),
    );
    let all = state.packages();
    assert_eq!(all.len(), 2);
    assert_eq!(*all.key_at(0), PackageManager::Pacman);
    assert_eq!(set_items(all.value_at(0)), vec!["git", "vim", "zsh"]);
    assert_eq!(set_items(all.value_at(1)), vec!["yay"]);
}

#[test]
fn sources_are_recorded() {
    let mut state = State::new();
    let ident = SourceIdent::named(SourceName::from_str("dots").unwrap());
    let source = HashableSource { source: Source::Text("hi".to_string()), hash: None };
    assert!(!state.is_source_recorded(&ident, &source));
    state.add_source(&ident, &source);
    assert!(state.is_source_recorded(&ident, &source));
    assert!(state.is_source_fetched(&ident, &source, &Err("no hash".to_string())));
    let pinned = HashableSource {
        source: Source::Text("hi".to_string()),
        hash: Some(Sha256Hash::from_bytes(b"hi")),
    };
    state.add_source(&ident, &pinned);
    assert!(state.is_source_fetched(&ident, &pinned, &Ok(Sha256Hash::from_bytes(b"hi"))));
    assert!(!state.is_source_fetched(&ident, &pinned, &Ok(Sha256Hash::from_bytes(b"ho"))));
    assert_eq!(state.sources().len(), 1);
}

#[test]
fn path_states_and_removals() {
    let hash = Sha256Hash::from_bytes(b"data");
    let file = PathInfo::File { size: 4, hash };
    let same = PathObservation::Present { is_dir: false, size: 4, hash: Some(hash), link: None };
    let changed = PathObservation::Present {
        is_dir: false,
        size: 4,
        hash: Some(Sha256Hash::from_bytes(b"other")),
        link: None,
    };
    assert_eq!(file.state(&same), PathState::Owned);
    assert_eq!(file.removal(&same), Removal::RemoveFile);
    assert_eq!(file.state(&changed), PathState::Changed);
    assert_eq!(file.removal(&changed), Removal::SkipChanged);
    assert_eq!(file.state(&PathObservation::Missing), PathState::Missing);
    assert_eq!(file.removal(&PathObservation::Missing), Removal::SkipMissing);
    let dir_obs = PathObservation::Present { is_dir: true, size: 0, hash: None, link: None };
    assert_eq!(PathInfo::Directory.removal(&dir_obs), Removal::RemoveDir);
    let link = PathInfo::Symlink { original: FilePath::new("/x") };
    let link_obs = PathObservation::Present {
        is_dir: false,
        size: 2,
        hash: None,
        link: Some(FilePath::new("/x")),
    };
    assert_eq!(link.state(&link_obs), PathState::Owned);
}

#[test]
fn writable_paths() {
    let mut state = State::new();
    state.add_module("m", SortedMap::new());
    let p = FilePath::new("/f");
    let hash = Sha256Hash::from_bytes(b"f");
    state.add_file("m", &p, 1, hash);
    let same = PathObservation::Present { is_dir: false, size: 1, hash: Some(hash), link: None };
    let other = PathObservation::Present { is_dir: false, size: 2, hash: Some(hash), link: None };
    assert!(state.is_writable(&p, false, false, &PathObservation::Missing));
    assert!(state.is_writable(&p, true, true, &other));
    assert!(state.is_writable(&p, true, false, &same));
    assert!(!state.is_writable(&p, true, false, &other));
    assert!(!state.is_writable(&FilePath::new("/g"), true, false, &same));
}

#[test]
fn module_names_matching() {
    let mut state = State::new();
    for name in ["vim", "zsh", "vimrc"] {
        state.add_module(name, SortedMap::new());
    }
    let globs = decster::globs::Globs::strict(&vec!["vim*".to_string()]).unwrap();
    assert_eq!(state.module_names_matching_globs(&globs), vec!["vim", "vimrc"]);
}

#[test]
fn owner_is_last_adder_and_removal_unowns() {
    let mut state = State::new();
    let d = FilePath::new("/nonexistent/d");
    state.add_dir("m", &d);
    assert!(state.is_module_enabled("m"));
    assert_eq!(state.owner(&d), Some("m".to_string()));
    state.add_dir("n", &d);
    assert_eq!(state.owner(&d), Some("n".to_string()));
    state.add_dir("m", &d);
    assert_eq!(state.owner(&d), Some("m".to_string()));
    let records = state.remove_module("m").unwrap();
    assert_eq!(records.len(), 2);
    assert_eq!(state.owner(&d), None);
    assert!(!state.is_path_owned(&d));
    assert_eq!(state.remove_module("m"), Err(StateError::NotEnabled));
    assert_eq!(State::new().owner(&FilePath::new("/x")), None);
}

#[test]
fn owners_survive_saving() {
    let mut state = State::new();
    let d = FilePath::new("/d");
    state.add_dir("m", &d);
    state.add_dir("n", &d);
    state.add_dir("n", &FilePath::new("/e"));
    let saved = state.owner_entries();
    assert_eq!(
        saved,
        vec![
            (FilePath::new("/d"), "n".to_string(), PathInfo::Directory),
            (FilePath::new("/e"), "n".to_string(), PathInfo::Directory),
        ]
    );
    let mut copy = State::new();
    copy.add_dir("m", &d);
    copy.add_dir("n", &d);
    copy.add_dir("n", &FilePath::new("/e"));
    copy.remove_module("m").unwrap();
    assert_eq!(copy.owner(&d), None);
    copy.restore_owners(saved);
    assert_eq!(copy.owner(&d), Some("n".to_string()));
    copy.restore_owners(vec![]);
    assert!(!copy.is_path_owned(&d));
}

#[test]
fn writable_looks_at_the_latest_record_only() {
    let mut state = State::new();
    let x = FilePath::new("/x");
    let old_hash = Sha256Hash::from_bytes(b"old");
    let new_hash = Sha256Hash::from_bytes(b"new");
    state.add_file("a", &x, 3, old_hash);
    state.add_file("b", &x, 3, new_hash);
    let matches_a = PathObservation::Present { is_dir: false, size: 3, hash: Some(old_hash), link: None };
    let matches_b = PathObservation::Present { is_dir: false, size: 3, hash: Some(new_hash), link: None };
    assert!(!state.is_writable(&x, true, false, &matches_a));
    assert!(state.is_writable(&x, true, false, &matches_b));
    assert_eq!(state.record(&x), Some(PathInfo::File { size: 3, hash: new_hash }));
    assert_eq!(state.owner(&x), Some("b".to_string()));
}
