use decster::env::Env;
use decster::path::FilePath;
use decster::sha256::Sha256Hash;
use decster::source::{
    FetchAction, HashableSource, ParseSourceNameError, Source, SourceCheckError, SourceIdent, SourceName,
    SourcePath,
};
use sha2::Digest;

fn env() -> Env {
    Env::load(
        1,
        1,
        Some(FilePath::new("/home/u")),
        Some(FilePath::new("/cfg")),
        None,
        Some(FilePath::new("/data")),
    )
    .unwrap()
}

#[test]
fn source_names() {
    assert_eq!(SourceName::from_str("dots").unwrap().as_str(), "dots");
    assert_eq!(SourceName::from_str("a/b"), Err(ParseSourceNameError::ContainsSlash));
}

#[test]
fn source_paths() {
    let sp = SourcePath::from_str("dots/nvim/init.lua").unwrap();
    assert_eq!(sp.name.as_str(), "dots");
    assert_eq!(sp.path, Some(FilePath::new("nvim/init.lua")));
    let env = env();
    assert_eq!(sp.named_path(&env).to_path_string(), "/data/decster/named-sources/dots/nvim/init.lua");
    assert_eq!(sp.config_path(&env).to_path_string(), "/cfg/sources/dots/nvim/init.lua");
    let plain = SourcePath::from_str("x").unwrap();
    assert_eq!(plain.path, None);
}

#[test]
fn unnamed_source_path_is_hashed() {
    let env = env();
    let ident = SourceIdent::unnamed("shell", "~/.zshrc");
    let digest = sha2::Sha256::digest(b"shell~/.zshrc");
    let hex: String = digest.iter().map(|b| format!("{b:02x}")).collect();
    assert_eq!(
        ident.path(&env).to_path_string(),
        format!("/data/decster/unnamed-sources/{hex}")
    );
    let named = SourceIdent::named(SourceName::from_str("n").unwrap());
    assert_eq!(named.path(&env).to_path_string(), "/data/decster/named-sources/n");
}

#[test]
fn check_hashes() {
    let hash = Sha256Hash::from_bytes(b"contents");
    let pinned = HashableSource { source: Source::Text("contents".to_string()), hash: Some(hash) };
    assert_eq!(pinned.check(&Ok(hash)), Ok(()));
    assert_eq!(
        pinned.check(&Ok(Sha256Hash::from_bytes(b"x"))),
        Err(SourceCheckError::HashMismatch)
    );
    assert_eq!(
        pinned.check(&Err("io".to_string())),
        Err(SourceCheckError::HashUnavailable("io".to_string()))
    );
    let free = HashableSource { source: Source::Text("t".to_string()), hash: None };
    assert_eq!(free.check(&Err("io".to_string())), Ok(()));
}

#[test]
fn fetch_actions() {
    let env = env();
    assert_eq!(
        Source::Path(FilePath::new("~/dots")).fetch(&env),
        FetchAction::Copy(FilePath::new("/home/u/dots"))
    );
    assert_eq!(
        Source::Text("t".to_string()).fetch(&env),
        FetchAction::WriteText("t".to_string())
    );
    assert_eq!(
        Source::Symlink(FilePath::new("~/x")).fetch(&env),
        FetchAction::Symlink(FilePath::new("~/x"))
    );
}

#[test]
fn ident_globs() {
    let globs = decster::globs::Globs::strict(&vec!["sh*".to_string()]).unwrap();
    assert!(SourceIdent::unnamed("shell", "/x").matches_globs(&globs));
    assert!(!SourceIdent::named(SourceName::from_str("zsh").unwrap()).matches_globs(&globs));
}
