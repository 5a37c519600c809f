use decster::env::Env;
use decster::path::{tildefy_with, untildefy_with, FilePath};

fn home() -> FilePath {
    let home = dirs::home_dir().unwrap();
    FilePath::new(&home.to_string_lossy())
}

fn paths(home: &FilePath) -> Vec<(FilePath, FilePath)> {
    let home = home.to_path_string();
    [
        ("~", format!("{home}")),
        ("~/", format!("{home}/")),
        ("~/foo", format!("{home}/foo")),
        (" ~/foo", " ~/foo".to_string()),
        ("~ /foo", "~ /foo".to_string()),
        ("~bar/foo", "~bar/foo".to_string()),
    ]
    .into_iter()
    .map(|(tilde, no_tilde)| (FilePath::new(tilde), FilePath::new(&no_tilde)))
    .collect()
}

#[test]
fn env_tildefy() {
    let home = home();
    for (tilde, untilde) in paths(&home) {
        assert_eq!(tildefy_with(&untilde, &home), tilde);
    }
}

#[test]
fn env_untildefy() {
    let home = home();
    for (tilde, no_tilde) in paths(&home) {
        assert_eq!(untildefy_with(&tilde, &home), no_tilde);
    }
}

#[test]
fn mod_tildefy() {
    let home = home();
    for (tilde, untilde) in paths(&home) {
        assert_eq!(Env::tildefy_with(&untilde, &home), tilde);
    }
}

#[test]
fn mod_untildefy() {
    let home = home();
    for (tilde, no_tilde) in paths(&home) {
        assert_eq!(Env::untildefy_with(&tilde, &home), no_tilde);
    }
}

#[test]
fn paths_tildefy() {
    let home = home();
    for (tilde, untilde) in paths(&home) {
        assert_eq!(decster::env::tildefy_with(&untilde, &home), tilde);
    }
}

#[test]
fn paths_untildefy() {
    let home = home();
    for (tilde, no_tilde) in paths(&home) {
        assert_eq!(decster::env::untildefy_with(&tilde, &home), no_tilde);
    }
}

#[test]
fn tildefy_fixed_home() {
    let home = FilePath::new("/home/user");
    assert_eq!(tildefy_with(&FilePath::new("/home/user/a/b"), &home), FilePath::new("~/a/b"));
    assert_eq!(tildefy_with(&FilePath::new("/home/user"), &home), FilePath::new("~"));
    assert_eq!(tildefy_with(&FilePath::new("/home/other"), &home), FilePath::new("/home/other"));
    assert_eq!(untildefy_with(&FilePath::new("~/x"), &home), FilePath::new("/home/user/x"));
    assert_eq!(untildefy_with(&FilePath::new("/x/~"), &home), FilePath::new("/x/~"));
}

#[test]
fn tildefy_roundtrip() {
    let home = FilePath::new("/home/user");
    for p in ["/home/user/.config/x", "/etc/hosts", "/home/user", "relative/path"] {
        let p = FilePath::new(p);
        assert_eq!(untildefy_with(&tildefy_with(&p, &home), &home), p);
    }
}
