use decster::compare::{all_match, dirs_match, walks_match, CompareError, files_match, hard_links_match, soft_links_match, PathFacts};
use decster::env::Env;
use decster::link::{Link, LinkAction, LinkMethod, ModuleFile};
use decster::path::FilePath;
use decster::sorted_map::SortedMap;
use decster::source::SourcePath;
use decster::state::State;

fn p(s: &str) -> FilePath {
    FilePath::new(s)
}

#[test]
fn methods() {
    assert_eq!(LinkMethod::default(), LinkMethod::SoftLink);
    assert_eq!(LinkMethod::Copy.label(), "(copy)");
    assert_eq!(LinkMethod::HardLink.label(), "(hard link)");
}

#[test]
fn link_entries_and_disable() {
    let link = Link::new("m", p("/home/u/x"), SourcePath::from_str("src/a").unwrap(), LinkMethod::Copy);
    assert_eq!(link.source_name(), "src");
    let mut state = State::new();
    assert_eq!(link.entry_action(&state, &p(""), false), LinkAction::File(p("/home/u/x")));
    assert_eq!(link.entry_action(&state, &p("d"), true), LinkAction::Directory(p("/home/u/x/d")));
    state.add_module("other", SortedMap::new());
    state.add_dir("other", &p("/home/u/x/d"));
    assert_eq!(link.entry_action(&state, &p("d"), true), LinkAction::Owned("other".to_string()));
    let rendered: Vec<String> = link.disable().iter().map(|x| x.to_path_string()).collect();
    assert_eq!(rendered, vec!["/home/u/x", "/home/u", "/home", "/"]);
}

#[test]
fn module_file_entries() {
    let env = Env::load(1, 1, Some(p("/home/u")), Some(p("/c")), None, Some(p("/d"))).unwrap();
    let file = ModuleFile::new(p("~/f"), SourcePath::from_str("s").unwrap());
    let mut state = State::new();
    assert_eq!(file.entry_action(&env, &state, &p(""), false), LinkAction::File(p("/home/u/f")));
    state.add_module("m", SortedMap::new());
    state.add_dir("m", &p("/home/u/f"));
    assert_eq!(file.entry_action(&env, &state, &p(""), false), LinkAction::InUse);
}

#[test]
fn comparisons() {
    assert!(dirs_match(true, true));
    assert!(!dirs_match(true, false));
    assert!(files_match(3, 3, false));
    assert!(files_match(3, 4, true));
    assert!(!files_match(3, 4, false));
    assert!(hard_links_match(9, 9));
    let link = |to: &str| PathFacts { is_dir: false, is_symlink: true, size: Some(1), inode: Some(2), link: Some(p(to)) };
    assert_eq!(soft_links_match(&link("/a"), &link("/a")), Ok(true));
    assert_eq!(soft_links_match(&link("/a"), &link("/b")), Ok(false));
    let unreadable = PathFacts { is_dir: false, is_symlink: true, size: Some(1), inode: Some(3), link: None };
    assert_eq!(soft_links_match(&link("/a"), &unreadable), Err(CompareError::Link));
    let file = PathFacts { is_dir: false, is_symlink: false, size: Some(1), inode: Some(4), link: None };
    assert_eq!(soft_links_match(&file, &unreadable), Ok(false));
    assert_eq!(all_match(None, None), Ok(true));
    assert_eq!(all_match(Some((&link("/a"), &link("/a"))), Some(false)), Ok(true));
    let other = |to: &str| PathFacts { is_dir: false, is_symlink: true, size: Some(7), inode: Some(5), link: Some(p(to)) };
    assert_eq!(all_match(Some((&link("/a"), &other("/a"))), Some(false)), Ok(true));
    assert_eq!(all_match(Some((&link("/a"), &other("/b"))), Some(false)), Ok(false));
    assert_eq!(all_match(Some((&link("/a"), &other("/b"))), Some(true)), Ok(true));
    assert_eq!(all_match(Some((&link("/a"), &other("/b"))), None), Err(CompareError::Contents));
    let missing = PathFacts { is_dir: false, is_symlink: true, size: None, inode: None, link: Some(p("/b")) };
    assert_eq!(all_match(Some((&link("/a"), &missing)), Some(false)), Err(CompareError::Metadata));
    let unreadable7 = PathFacts { is_dir: false, is_symlink: true, size: Some(7), inode: Some(6), link: None };
    assert_eq!(all_match(Some((&link("/a"), &unreadable7)), Some(false)), Err(CompareError::Link));
    let dir = PathFacts { is_dir: true, is_symlink: false, size: None, inode: None, link: None };
    assert_eq!(all_match(Some((&dir, &dir)), None), Ok(true));
}

#[test]
fn whole_walks_compared() {
    let file = |size: u64, inode: u64| PathFacts { is_dir: false, is_symlink: false, size: Some(size), inode: Some(inode), link: None };
    let dir = PathFacts { is_dir: true, is_symlink: false, size: Some(0), inode: Some(1), link: None };
    let dir2 = PathFacts { is_dir: true, is_symlink: false, size: Some(0), inode: Some(2), link: None };
    assert_eq!(walks_match(&vec![], &vec![], &vec![]), Ok(true));
    assert_eq!(walks_match(&vec![dir.clone(), file(3, 5)], &vec![dir2.clone(), file(3, 6)], &vec![None, Some(false)]), Ok(true));
    assert_eq!(walks_match(&vec![dir.clone(), file(3, 5)], &vec![dir2.clone(), file(4, 6)], &vec![None, Some(false)]), Ok(false));
    assert_eq!(walks_match(&vec![dir.clone(), file(3, 5)], &vec![dir2.clone(), file(4, 6)], &vec![None, None]), Err(CompareError::Contents));
    assert_eq!(walks_match(&vec![dir.clone()], &vec![dir2.clone(), file(4, 6)], &vec![]), Ok(false));
}
