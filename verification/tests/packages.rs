use decster::packages::PackageManager;
use decster::sorted_map::SortedSet;

fn set(v: &[&str]) -> SortedSet<String> {
    let mut s = SortedSet::new();
    for x in v {
        s.insert(x.to_string());
    }
    s
}

#[test]
fn diff_and_plan() {
    let installed = set(&["a", "b", "c"]);
    let wanted = set(&["b", "c", "d"]);
    let (old, new) = PackageManager::diff(&installed, &wanted);
    assert_eq!((old, new), (vec!["a".to_string()], vec!["d".to_string()]));
    let plan = PackageManager::plan_sync(true, true, &installed, &wanted);
    assert_eq!(plan, (Some(vec!["d".to_string()]), Some(vec!["a".to_string()])));
    let plan = PackageManager::plan_sync(true, false, &installed, &wanted);
    assert_eq!(plan, (Some(vec!["d".to_string()]), None));
    let plan = PackageManager::plan_sync(true, true, &wanted, &wanted);
    assert_eq!(plan, (None, None));
}

#[test]
fn commands() {
    assert!(PackageManager::Pacman.needs_root());
    assert!(!PackageManager::Paru.needs_root());
    let install = PackageManager::Pacman.install_command();
    assert_eq!(install, vec!["pacman", "-S", "-"]);
    assert_eq!(PackageManager::Paru.list_command(), vec!["paru", "-Qqem"]);
    let (program, args) = PackageManager::Pacman.update_command(&install);
    assert_eq!((program.as_str(), args), ("sudo", vec!["pacman".to_string(), "-S".to_string(), "-".to_string()]));
    let paru = PackageManager::Paru.uninstall_command();
    let (program, args) = PackageManager::Paru.update_command(&paru);
    assert_eq!((program.as_str(), args), ("paru", vec!["-Rnsu".to_string(), "-".to_string()]));
}

fn elements(s: &SortedSet<String>) -> Vec<String> {
    (0..s.len()).map(|i| s.element_at(i).clone()).collect()
}

#[test]
fn installed_from_output_lines() {
    let installed = PackageManager::installed_from_output("vim\ngit\r\n\nzsh");
    assert_eq!(elements(&installed), vec!["".to_string(), "git".to_string(), "vim".to_string(), "zsh".to_string()]);
    let installed = PackageManager::installed_from_output("b\na\n");
    assert_eq!(elements(&installed), vec!["a".to_string(), "b".to_string()]);
    assert_eq!(PackageManager::installed_from_output("").len(), 0);
    let installed = PackageManager::installed_from_output("tail\r");
    assert_eq!(elements(&installed), vec!["tail\r".to_string()]);
}
