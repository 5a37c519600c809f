use decster::env::{Dirs, Env, EnvError, Paths};
use decster::path::FilePath;

fn p(s: &str) -> FilePath {
    FilePath::new(s)
}

fn env() -> Env {
    Env::load(
        1000,
        100,
        Some(p("/home/u")),
        None,
        Some(p("/home/u/.config")),
        Some(p("/home/u/.local/share")),
    )
    .unwrap()
}

#[test]
fn env_layout() {
    let env = env();
    assert_eq!(env.uid(), 1000);
    assert_eq!(env.gid(), 100);
    assert_eq!(env.home().to_path_string(), "/home/u");
    assert_eq!(env.config().to_path_string(), "/home/u/.config/decster/config.toml");
    assert_eq!(env.modules().to_path_string(), "/home/u/.config/decster/modules");
    assert_eq!(env.static_sources().to_path_string(), "/home/u/.config/decster/sources");
    assert_eq!(env.dynamic_sources().to_path_string(), "/home/u/.config/decster/sources.toml");
    assert_eq!(env.named_sources().to_path_string(), "/home/u/.local/share/decster/named-sources");
    assert_eq!(
        env.unnamed_sources().to_path_string(),
        "/home/u/.local/share/decster/unnamed-sources"
    );
    assert_eq!(env.state().to_path_string(), "/home/u/.local/share/decster/state");
}

#[test]
fn env_config_dir_given() {
    let env = Env::load(0, 0, Some(p("/root")), Some(p("/etc/dots")), None, Some(p("/var"))).unwrap();
    assert_eq!(env.config().to_path_string(), "/etc/dots/config.toml");
}

#[test]
fn env_errors() {
    assert_eq!(Env::load(0, 0, None, None, Some(p("/c")), Some(p("/d"))).err(), Some(EnvError::NoHomeDir));
    assert_eq!(Env::load(0, 0, Some(p("/h")), None, None, Some(p("/d"))).err(), Some(EnvError::NoConfigDir));
    assert_eq!(Env::load(0, 0, Some(p("/h")), None, Some(p("/c")), None).err(), Some(EnvError::NoDataDir));
}

#[test]
fn dirs_and_paths_layout() {
    let dirs = Dirs::load(Some(p("/h")), Some(p("/cfg")), None, Some(p("/data"))).unwrap();
    assert_eq!(dirs.state().to_path_string(), "/data/decster/state");
    let paths = Paths::load(Some(p("/h")), Some(p("/cfg")), None, Some(p("/data"))).unwrap();
    assert_eq!(paths.config_file().to_path_string(), "/cfg/config.toml");
    assert_eq!(paths.module_dir().to_path_string(), "/cfg/modules");
}

#[test]
fn env_tildefy_methods() {
    let env = env();
    assert_eq!(env.tildefy(&p("/home/u/x")).to_path_string(), "~/x");
    assert_eq!(env.untildefy(&p("~/x")).to_path_string(), "/home/u/x");
}

#[test]
fn layout_paths_differ() {
    let env = Env::load(0, 0, Some(p("/root")), Some(p("/etc/dots")), None, Some(p("/var"))).unwrap();
    let all = [
        env.config(),
        env.modules(),
        env.static_sources(),
        env.dynamic_sources(),
        env.named_sources(),
        env.unnamed_sources(),
        env.state(),
    ];
    for i in 0..all.len() {
        for j in (i + 1)..all.len() {
            assert_ne!(all[i], all[j]);
        }
    }
    assert_eq!(env.named_sources(), &p("/var/decster/named-sources"));
    assert_eq!(env.unnamed_sources(), &p("/var/decster/unnamed-sources"));
    assert_eq!(env.state(), &p("/var/decster/state"));
    assert_eq!(env.static_sources(), &p("/etc/dots/sources"));
}
