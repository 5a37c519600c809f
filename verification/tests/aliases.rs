use decster::cli::{alias_conflict, expand_alias};
use decster::config::{aliases, root_command, AliasError, Config};

fn words(v: &[&str]) -> Vec<String> {
    v.iter().map(|s| s.to_string()).collect()
}

fn config() -> Config {
    Config::new(
        false,
        Config::default_root_command(),
        vec![
            ("git".to_string(), words(&["run", "git"])),
            ("g".to_string(), words(&["git"])),
            ("gc".to_string(), words(&["g", "commit"])),
            ("ga".to_string(), words(&["g", "commit", "--amend"])),
            ("a".to_string(), words(&["b"])),
            ("b".to_string(), words(&["a"])),
        ],
    )
}

#[test]
fn resolve_aliases() {
    let config = config();
    let aliases = [
        ("git", Ok(vec!["run", "git"])),
        ("g", Ok(vec!["run", "git"])),
        ("gc", Ok(vec!["run", "git", "commit"])),
        ("ga", Ok(vec!["run", "git", "commit", "--amend"])),
        ("a", Err(())),
        ("b", Err(())),
    ];
    for (alias, command) in aliases {
        let result = config.alias(alias);
        match command {
            Ok(command) => assert_eq!(command, result.unwrap()),
            Err(()) => assert!(result.is_err()),
        }
    }
}

#[test]
fn alias_resolves_cases() {
    let config = config();
    assert!(config.alias_resolves("gc"));
    assert!(config.alias_resolves("a"));
    assert!(!config.alias_resolves("missing"));
    let empty = Config::new(false, vec![], vec![("e".to_string(), vec![])]);
    assert!(!empty.alias_resolves("e"));
}

#[test]
fn alias_loop_error() {
    assert_eq!(config().alias("a"), Err(AliasError::InfiniteLoop));
}

#[test]
fn later_alias_replaces_earlier() {
    let config = Config::new(
        false,
        vec![],
        vec![("x".to_string(), words(&["one"])), ("x".to_string(), words(&["two"]))],
    );
    assert_eq!(config.alias("x").unwrap(), words(&["two"]));
    let all = aliases(&config);
    assert_eq!(all, vec![("x".to_string(), words(&["two"]))]);
}

#[test]
fn aliases_in_order() {
    let names: Vec<String> = aliases(&config()).into_iter().map(|(n, _)| n).collect();
    assert_eq!(names, words(&["a", "b", "g", "ga", "gc", "git"]));
}

#[test]
fn expand_alias_with_arguments() {
    let config = config();
    assert_eq!(
        expand_alias(&config, "gc", &words(&["-m", "msg"])).unwrap(),
        words(&["run", "git", "commit", "-m", "msg"])
    );
    assert_eq!(expand_alias(&config, "b", &vec![]), Err(AliasError::InfiniteLoop));
}

#[test]
fn alias_conflicts_with_command() {
    let config = config();
    assert_eq!(alias_conflict(&config, &words(&["enable", "git"])), Some("git".to_string()));
    assert_eq!(alias_conflict(&config, &words(&["enable", "disable"])), None);
}

#[test]
fn root_command_split() {
    let config = Config::new(false, words(&["doas", "-u", "root"]), vec![]);
    assert_eq!(root_command(&config), Some(("doas".to_string(), words(&["-u", "root"]))));
    let config = Config::new(false, vec![], vec![]);
    assert_eq!(root_command(&config), None);
    assert_eq!(Config::default_root_command(), words(&["sudo"]));
}
