//! Sources: the files that modules link to. Static sources sit in the
//! configuration directory; dynamic ones are fetched, from text, a path or a
//! symlink, into the data directory, and may be pinned to a hash.

use vstd::prelude::*;
use vstd::string::StrSliceExecFns;

use crate::env::{spec_child, Env};
use crate::path::spec_untildefy;
use crate::globs::{globs_match, Globs};
use crate::order::{lemma_str_order, str_lt, Order3, SortKey};
use crate::path::{parse_components, spec_join, ComponentView, FilePath};
use crate::sha256::{hex_string, sha256_digest, Sha256Hash};

verus! {

/// The name of a source.
#[derive(Clone, Debug, PartialEq, Eq, Hash, PartialOrd, Ord)]
pub struct SourceName(String);

/// Why a source name couldn't be read.
#[derive(Clone, Copy, Debug, PartialEq, Eq)]
pub enum ParseSourceNameError {
    /// Source names can't contain slashes.
    ContainsSlash,
}

impl View for SourceName {
    type V = Seq<char>;

    closed spec fn view(&self) -> Seq<char> {
        self.0@
    }
}

impl SourceName {
    /// Reads a source name, which can't contain `/`.
    pub fn from_str(s: &str) -> (r: Result<SourceName, ParseSourceNameError>)
        ensures
            !s@.contains('/') ==> (r matches Ok(name) && name@ == s@),
            s@.contains('/') ==> r == Err::<SourceName, ParseSourceNameError>(
                ParseSourceNameError::ContainsSlash,
            ),
    {
        let n = s.unicode_len();
        let mut i: usize = 0;
        while i < n
            invariant
                n == s@.len(),
                i <= n,
                forall|k: int| 0 <= k < i ==> s@[k] != '/',
            decreases n - i,
        {
            if s.get_char(i) == '/' {
                return Err(ParseSourceNameError::ContainsSlash);
            }
            i = i + 1;
        }
        Ok(SourceName(s.to_owned()))
    }

    /// The source name of a directory entry, taken as it is.
    pub fn from_file_name(name: String) -> (r: SourceName)
        ensures
            r@ == name@,
    {
        SourceName(name)
    }

    /// The name as a string.
    pub fn as_str(&self) -> (r: &str)
        ensures
            r@ == self@,
    {
        self.0.as_str()
    }

    /// Where a static source of this name is kept.
    pub fn static_path(&self, env: &Env) -> (r: FilePath)
        ensures
            r@ == spec_child(env@.static_sources, self@),
    {
        env.static_sources().join_str(self.0.as_str())
    }

    /// Where a named dynamic source of this name is fetched to.
    pub fn named_path(&self, env: &Env) -> (r: FilePath)
        ensures
            r@ == spec_child(env@.named_sources, self@),
    {
        env.named_sources().join_str(self.0.as_str())
    }
}

impl SortKey for SourceName {
    open spec fn key_lt(a: Seq<char>, b: Seq<char>) -> bool {
        str_lt(a, b)
    }

    proof fn lemma_key_order() {
        <String as SortKey>::lemma_key_order();
        assert forall|a: Seq<char>| !#[trigger] str_lt(a, a) by {
            assert(!<String as SortKey>::key_lt(a, a));
        }
        assert forall|a: Seq<char>, b: Seq<char>, c: Seq<char>|
            #[trigger] str_lt(a, b) && #[trigger] str_lt(b, c) implies str_lt(a, c) by {
            assert(<String as SortKey>::key_lt(a, b) && <String as SortKey>::key_lt(b, c)
                ==> <String as SortKey>::key_lt(a, c));
        }
        assert forall|a: Seq<char>, b: Seq<char>|
            a == b || #[trigger] str_lt(a, b) || #[trigger] str_lt(b, a) by {
            assert(a == b || <String as SortKey>::key_lt(a, b) || <String as SortKey>::key_lt(b, a));
        }
    }

    fn key_order(&self, other: &Self) -> (r: Order3) {
        self.0.key_order(&other.0)
    }

    fn key_clone(&self) -> (r: Self) {
        SourceName(self.0.clone())
    }
}

/// The index of the first `/` in `s`, if it holds one.
pub open spec fn first_slash(s: Seq<char>) -> Option<int> {
    if s.contains('/') {
        Some(choose|i: int| 0 <= i < s.len() && s[i] == '/' && forall|j: int| 0 <= j < i ==> s[j] != '/')
    } else {
        None
    }
}

/// A source name, optionally followed by a path inside the source.
#[derive(Debug, PartialEq, Eq)]
pub struct SourcePath {
    pub name: SourceName,
    pub path: Option<FilePath>,
}

/// Why a source path couldn't be read.
#[derive(Clone, Copy, Debug, PartialEq, Eq)]
pub enum ParseSourcePathError {
    InvalidSourceName(ParseSourceNameError),
}

impl SourcePath {
    /// Reads `name` or `name/path`: the name ends at the first `/`.
    pub fn from_str(s: &str) -> (r: Result<SourcePath, ParseSourcePathError>)
        ensures
            r is Ok,
            r matches Ok(sp) ==> match first_slash(s@) {
                None => sp.name@ == s@ && sp.path is None,
                Some(i) => sp.name@ == s@.subrange(0, i) && (sp.path matches Some(p) && p@
                    == parse_components(s@.subrange(i + 1, s@.len() as int))),
            },
    {
        let n = s.unicode_len();
        let mut i: usize = 0;
        while i < n
            invariant
                n == s@.len(),
                i <= n,
                forall|k: int| 0 <= k < i ==> s@[k] != '/',
            decreases n - i,
        {
            if s.get_char(i) == '/' {
                let name = s.substring_char(0, i);
                let rest = s.substring_char(i + 1, n);
                assert(s@.contains('/'));
                let ghost j = choose|j: int|
                    0 <= j < s@.len() && s@[j] == '/' && forall|k: int| 0 <= k < j ==> s@[k] != '/';
                assert(j == i as int) by {
                    if j < i {
                        assert(s@[j] != '/');
                    }
                    if i < j {
                        assert(s@[i as int] != '/');
                    }
                }
                return Ok(
                    SourcePath {
                        name: SourceName(name.to_owned()),
                        path: Some(FilePath::new(rest)),
                    },
                );
            }
            i = i + 1;
        }
        assert(!s@.contains('/'));
        Ok(SourcePath { name: SourceName(s.to_owned()), path: None })
    }

    /// Where the source's file is once fetched as a named source.
    pub fn named_path(&self, env: &Env) -> (r: FilePath)
        ensures
            r@ == match self.path {
                Some(p) => spec_join(spec_child(env@.named_sources, self.name@), p@),
                None => spec_child(env@.named_sources, self.name@),
            },
    {
        let full = self.name.named_path(env);
        match &self.path {
            Some(p) => full.join(p),
            None => full,
        }
    }

    /// Where the source's file is as a static source in the configuration
    /// directory.
    pub fn config_path(&self, env: &Env) -> (r: FilePath)
        ensures
            r@ == match self.path {
                Some(p) => spec_join(spec_child(env@.static_sources, self.name@), p@),
                None => spec_child(env@.static_sources, self.name@),
            },
    {
        let full = self.name.static_path(env);
        match &self.path {
            Some(p) => full.join(p),
            None => full,
        }
    }

    /// Where the source's file is below the directory `sources`.
    pub fn path(&self, sources: &FilePath) -> (r: FilePath)
        ensures
            r@ == match self.path {
                Some(p) => spec_join(spec_child(sources@, self.name@), p@),
                None => spec_child(sources@, self.name@),
            },
    {
        let full = sources.join_str(self.name.as_str());
        match &self.path {
            Some(p) => full.join(p),
            None => full,
        }
    }
}

/// Where a dynamic source comes from.
#[derive(Debug, PartialEq, Eq)]
pub enum Source {
    /// A file with this text.
    Text(String),
    /// A symlink to this path.
    Symlink(FilePath),
    /// A copy of this path.
    Path(FilePath),
}

/// What a source is.
pub enum SourceView {
    Text(Seq<char>),
    Symlink(Seq<ComponentView>),
    Path(Seq<ComponentView>),
}

impl View for Source {
    type V = SourceView;

    open spec fn view(&self) -> SourceView {
        match self {
            Source::Text(t) => SourceView::Text(t@),
            Source::Symlink(p) => SourceView::Symlink(p@),
            Source::Path(p) => SourceView::Path(p@),
        }
    }
}

impl Source {
    /// Whether two sources are the same.
    pub fn source_eq(&self, other: &Source) -> (r: bool)
        ensures
            r == (self@ == other@),
    {
        match (self, other) {
            (Source::Text(a), Source::Text(b)) => *a == *b,
            (Source::Symlink(a), Source::Symlink(b)) => a.path_eq(b),
            (Source::Path(a), Source::Path(b)) => a.path_eq(b),
            _ => false,
        }
    }

    /// A copy of the source.
    pub fn duplicate(&self) -> (r: Source)
        ensures
            r@ == self@,
    {
        match self {
            Source::Text(t) => Source::Text(t.clone()),
            Source::Symlink(p) => Source::Symlink(p.clone()),
            Source::Path(p) => Source::Path(p.clone()),
        }
    }
}

/// Why a fetched source doesn't pass its check.
#[derive(Clone, Debug, PartialEq, Eq)]
pub enum SourceCheckError {
    /// The hash of the fetched files couldn't be calculated.
    HashUnavailable(String),
    /// The fetched files don't have the expected hash.
    HashMismatch,
}

/// A dynamic source, optionally pinned to the hash of its contents.
#[derive(Debug, PartialEq, Eq)]
pub struct HashableSource {
    pub source: Source,
    pub hash: Option<Sha256Hash>,
}

/// What a dynamic source is.
pub struct HashableSourceView {
    pub source: SourceView,
    pub hash: Option<Seq<u8>>,
}

impl View for HashableSource {
    type V = HashableSourceView;

    open spec fn view(&self) -> HashableSourceView {
        HashableSourceView {
            source: self.source@,
            hash: match self.hash {
                Some(h) => Some(h@),
                None => None,
            },
        }
    }
}

impl HashableSource {
    /// Checks fetched contents against the pinned hash, given the hash of
    /// the fetched files (or why it couldn't be calculated): a source with no
    /// pinned hash always passes.
    pub fn check(&self, actual: &Result<Sha256Hash, String>) -> (r: Result<(), SourceCheckError>)
        ensures
            match self@.hash {
                None => r is Ok,
                Some(expected) => match actual {
                    Err(msg) => r == Err::<(), SourceCheckError>(
                        SourceCheckError::HashUnavailable(*msg),
                    ),
                    Ok(h) => if h@ == expected {
                        r is Ok
                    } else {
                        r == Err::<(), SourceCheckError>(SourceCheckError::HashMismatch)
                    },
                },
            },
    {
        match &self.hash {
            None => Ok(()),
            Some(expected) => match actual {
                Err(msg) => Err(SourceCheckError::HashUnavailable(msg.clone())),
                Ok(h) => if h.hash_eq(expected) {
                    Ok(())
                } else {
                    Err(SourceCheckError::HashMismatch)
                },
            },
        }
    }

    /// Whether checking needs the hash of the fetched files.
    pub fn has_hash(&self) -> (r: bool)
        ensures
            r == self@.hash is Some,
    {
        self.hash.is_some()
    }

    /// Whether two dynamic sources are the same.
    pub fn source_eq(&self, other: &HashableSource) -> (r: bool)
        ensures
            r == (self@ == other@),
    {
        let same_hash = match (&self.hash, &other.hash) {
            (None, None) => true,
            (Some(a), Some(b)) => a.hash_eq(b),
            _ => false,
        };
        self.source.source_eq(&other.source) && same_hash
    }

    /// A copy of the dynamic source.
    pub fn duplicate(&self) -> (r: HashableSource)
        ensures
            r@ == self@,
    {
        HashableSource { source: self.source.duplicate(), hash: self.hash }
    }
}

/// How a source used by a module is identified: by its name, or by the
/// module and the link path, as written, of a source written inline in the
/// module.
#[derive(Debug, PartialEq, Eq)]
pub enum SourceIdent {
    Named(SourceName),
    Unnamed { module: String, path: String },
}

/// What a source identifier is.
pub enum SourceIdentView {
    Named(Seq<char>),
    Unnamed(Seq<char>, Seq<char>),
}

impl View for SourceIdent {
    type V = SourceIdentView;

    open spec fn view(&self) -> SourceIdentView {
        match self {
            SourceIdent::Named(name) => SourceIdentView::Named(name@),
            SourceIdent::Unnamed { module, path } => SourceIdentView::Unnamed(module@, path@),
        }
    }
}

/// The order of source identifiers: named ones first, by name; then unnamed
/// ones by module, then path.
pub open spec fn ident_lt(a: SourceIdentView, b: SourceIdentView) -> bool {
    match (a, b) {
        (SourceIdentView::Named(x), SourceIdentView::Named(y)) => str_lt(x, y),
        (SourceIdentView::Named(_), SourceIdentView::Unnamed(_, _)) => true,
        (SourceIdentView::Unnamed(_, _), SourceIdentView::Named(_)) => false,
        (SourceIdentView::Unnamed(m1, p1), SourceIdentView::Unnamed(m2, p2)) => str_lt(m1, m2) || (
        m1 == m2 && str_lt(p1, p2)),
    }
}

/// The bytes that the directory of an unnamed source is named after: the
/// module's name followed by the link path as written.
pub open spec fn unnamed_key(module: Seq<char>, path: Seq<char>) -> Seq<u8> {
    vstd::utf8::encode_utf8(module) + vstd::utf8::encode_utf8(path)
}

/// Where a source is fetched to.
pub open spec fn spec_ident_path(ident: SourceIdentView, env: crate::env::EnvView) -> Seq<
    ComponentView,
> {
    match ident {
        SourceIdentView::Named(name) => spec_child(env.named_sources, name),
        SourceIdentView::Unnamed(module, path) => spec_child(
            env.unnamed_sources,
            hex_string(sha256_digest(unnamed_key(module, path))),
        ),
    }
}

/// The bytes of `a` followed by those of `b`.
fn concat_bytes(a: &[u8], b: &[u8]) -> (r: Vec<u8>)
    ensures
        r@ == a@ + b@,
{
    let mut r: Vec<u8> = Vec::new();
    let mut i: usize = 0;
    while i < a.len()
        invariant
            i <= a@.len(),
            r@ == a@.subrange(0, i as int),
        decreases a.len() - i,
    {
        r.push(a[i]);
        assert(r@ =~= a@.subrange(0, i + 1));
        i = i + 1;
    }
    let mut j: usize = 0;
    while j < b.len()
        invariant
            j <= b@.len(),
            r@ == a@ + b@.subrange(0, j as int),
        decreases b.len() - j,
    {
        r.push(b[j]);
        assert(r@ =~= a@ + b@.subrange(0, j + 1));
        j = j + 1;
    }
    assert(a@.subrange(0, a@.len() as int) =~= a@);
    assert(b@.subrange(0, b@.len() as int) =~= b@);
    r
}

impl SourceIdent {
    /// The identifier of a named source.
    pub fn named(name: SourceName) -> (r: SourceIdent)
        ensures
            r@ == SourceIdentView::Named(name@),
    {
        SourceIdent::Named(name)
    }

    /// The identifier of the source written inline for the link `path` of
    /// `module`, the path as written in the module.
    pub fn unnamed(module: &str, path: &str) -> (r: SourceIdent)
        ensures
            r@ == SourceIdentView::Unnamed(module@, path@),
    {
        SourceIdent::Unnamed { module: module.to_owned(), path: path.to_owned() }
    }

    /// Whether the source is selected by `globs`: a named one by its name,
    /// an unnamed one by its module or its path.
    pub fn matches_globs(&self, globs: &Globs) -> (r: bool)
        ensures
            r == match self@ {
                SourceIdentView::Named(name) => globs_match(globs@, name),
                SourceIdentView::Unnamed(module, path) => globs_match(globs@, module) || globs_match(
                    globs@,
                    path,
                ),
            },
    {
        match self {
            SourceIdent::Named(name) => globs.is_match(name.as_str()),
            SourceIdent::Unnamed { module, path } => globs.is_match(module.as_str()) || globs.is_match(
                path.as_str(),
            ),
        }
    }

    /// Where the source is fetched to: a named source under its name, an
    /// unnamed one under the hexadecimal SHA-256 hash of its module's name
    /// followed by its path.
    pub fn path(&self, env: &Env) -> (r: FilePath)
        ensures
            r@ == spec_ident_path(self@, env@),
    {
        match self {
            SourceIdent::Named(name) => name.named_path(env),
            SourceIdent::Unnamed { module, path } => {
                let key = concat_bytes(module.as_str().as_bytes(), path.as_str().as_bytes());
                let hash = Sha256Hash::from_bytes(key.as_slice());
                env.unnamed_sources().join_str(hash.to_hex().as_str())
            },
        }
    }

    /// A copy of the identifier.
    pub fn duplicate(&self) -> (r: SourceIdent)
        ensures
            r@ == self@,
    {
        match self {
            SourceIdent::Named(name) => SourceIdent::Named(name.key_clone()),
            SourceIdent::Unnamed { module, path } => SourceIdent::Unnamed {
                module: module.clone(),
                path: path.clone(),
            },
        }
    }
}

impl SortKey for SourceIdent {
    open spec fn key_lt(a: SourceIdentView, b: SourceIdentView) -> bool {
        ident_lt(a, b)
    }

    proof fn lemma_key_order() {
        lemma_str_order();
        let s = |a: Seq<char>, b: Seq<char>| str_lt(a, b);
        assert forall|a: SourceIdentView| !#[trigger] ident_lt(a, a) by {
            match a {
                SourceIdentView::Named(x) => {
                    assert(!s(x, x));
                },
                SourceIdentView::Unnamed(m, p) => {
                    assert(!s(m, m));
                    assert(!s(p, p));
                },
            }
        }
        assert forall|a: SourceIdentView, b: SourceIdentView, c: SourceIdentView|
            #[trigger] ident_lt(a, b) && #[trigger] ident_lt(b, c) implies ident_lt(a, c) by {
            match (a, b, c) {
                (
                    SourceIdentView::Named(x),
                    SourceIdentView::Named(y),
                    SourceIdentView::Named(z),
                ) => {
                    assert(s(x, y) && s(y, z) ==> s(x, z));
                },
                (
                    SourceIdentView::Unnamed(x, p),
                    SourceIdentView::Unnamed(y, q),
                    SourceIdentView::Unnamed(z, t),
                ) => {
                    assert(s(x, y) && s(y, z) ==> s(x, z));
                    assert(s(p, q) && s(q, t) ==> s(p, t));
                },
                _ => {},
            }
        }
        assert forall|a: SourceIdentView, b: SourceIdentView|
            a == b || #[trigger] ident_lt(a, b) || #[trigger] ident_lt(b, a) by {
            match (a, b) {
                (SourceIdentView::Named(x), SourceIdentView::Named(y)) => {
                    assert(x == y || s(x, y) || s(y, x));
                },
                (SourceIdentView::Unnamed(x, p), SourceIdentView::Unnamed(y, q)) => {
                    assert(x == y || s(x, y) || s(y, x));
                    assert(p == q || s(p, q) || s(q, p));
                },
                _ => {},
            }
        }
    }

    fn key_order(&self, other: &Self) -> (r: Order3) {
        proof {
            <Self as SortKey>::lemma_key_order();
        }
        match (self, other) {
            (SourceIdent::Named(x), SourceIdent::Named(y)) => x.key_order(y),
            (SourceIdent::Named(_), SourceIdent::Unnamed { .. }) => Order3::Less,
            (SourceIdent::Unnamed { .. }, SourceIdent::Named(_)) => Order3::Greater,
            (
                SourceIdent::Unnamed { module: m1, path: p1 },
                SourceIdent::Unnamed { module: m2, path: p2 },
            ) => {
                proof {
                    lemma_str_order();
                    let s = |a: Seq<char>, b: Seq<char>| str_lt(a, b);
                    assert(!(s(m1@, m2@) && s(m2@, m1@))) by {
                        assert(s(m1@, m2@) && s(m2@, m1@) ==> s(m1@, m1@));
                    }
                    assert(!s(m1@, m1@));
                    assert(!(s(p1@, p2@) && s(p2@, p1@))) by {
                        assert(s(p1@, p2@) && s(p2@, p1@) ==> s(p1@, p1@));
                    }
                }
                match m1.key_order(m2) {
                    Order3::Equal => p1.key_order(p2),
                    o => o,
                }
            },
        }
    }

    fn key_clone(&self) -> (r: Self) {
        self.duplicate()
    }
}

/// Where a source definition lives: in the configuration directory, or
/// fetched from somewhere.
#[derive(Debug, PartialEq, Eq)]
pub enum SourceDefinition {
    Static,
    Dynamic { source: Source, hash: Option<Sha256Hash> },
}

impl SourceDefinition {
    /// Where the source of this definition named `name` is kept.
    pub fn path(&self, env: &Env, name: &SourceName) -> (r: FilePath)
        ensures
            r@ == match self {
                SourceDefinition::Static => spec_child(env@.static_sources, name@),
                SourceDefinition::Dynamic { .. } => spec_child(env@.named_sources, name@),
            },
    {
        match self {
            SourceDefinition::Static => name.static_path(env),
            SourceDefinition::Dynamic { .. } => name.named_path(env),
        }
    }
}

/// How a dynamic source is fetched to its place, once whatever was there
/// is removed.
#[derive(Debug, PartialEq, Eq)]
pub enum FetchAction {
    /// Write a file with this text.
    WriteText(String),
    /// Make a symlink to this path.
    Symlink(FilePath),
    /// Copy this path, recursively.
    Copy(FilePath),
}

/// A fetch action as plain values.
pub enum FetchActionView {
    WriteText(Seq<char>),
    Symlink(Seq<ComponentView>),
    Copy(Seq<ComponentView>),
}

impl View for FetchAction {
    type V = FetchActionView;

    open spec fn view(&self) -> FetchActionView {
        match self {
            FetchAction::WriteText(t) => FetchActionView::WriteText(t@),
            FetchAction::Symlink(p) => FetchActionView::Symlink(p@),
            FetchAction::Copy(p) => FetchActionView::Copy(p@),
        }
    }
}

/// How a source is fetched: text is written, a symlink points where the
/// source says, and a path (with `~` for the home directory) is copied.
pub open spec fn spec_fetch_action(source: SourceView, home: Seq<ComponentView>) -> FetchActionView {
    match source {
        SourceView::Text(t) => FetchActionView::WriteText(t),
        SourceView::Symlink(p) => FetchActionView::Symlink(p),
        SourceView::Path(p) => FetchActionView::Copy(spec_untildefy(p, home)),
    }
}

impl Source {
    /// How the source is fetched.
    pub fn fetch(&self, env: &Env) -> (r: FetchAction)
        ensures
            r@ == spec_fetch_action(self@, env@.home),
    {
        match self {
            Source::Text(t) => FetchAction::WriteText(t.clone()),
            Source::Symlink(p) => FetchAction::Symlink(p.clone()),
            Source::Path(p) => FetchAction::Copy(env.untildefy(p)),
        }
    }
}

impl HashableSource {
    /// How the source is fetched; what is fetched is then checked with
    /// `check`.
    pub fn fetch(&self, env: &Env) -> (r: FetchAction)
        ensures
            r@ == spec_fetch_action(self@.source, env@.home),
    {
        self.source.fetch(env)
    }
}

/// What to do about a source definition.
#[derive(Debug, PartialEq, Eq)]
pub enum SourceStep {
    /// Nothing: a static source is in the configuration directory.
    Static,
    /// Nothing: it was fetched as it is now defined.
    UpToDate,
    /// Fetch this source, check it and record it.
    Fetch(HashableSource),
}

impl SourceDefinition {
    /// What to do about the definition of the source `name`: a dynamic one
    /// is fetched when re-fetching is on or when it wasn't recorded as
    /// fetched with this definition.
    pub fn fetch_and_verify(&self, config: &crate::config::Config, state: &crate::state::State, name: &SourceName) -> (r: SourceStep)
        requires
            state.wf(),
        ensures
            match self {
                SourceDefinition::Static => r is Static,
                SourceDefinition::Dynamic { source, hash } => {
                    let hs = HashableSourceView {
                        source: source@,
                        hash: match hash {
                            Some(h) => Some(h@),
                            None => None,
                        },
                    };
                    let recorded = state@.sources.contains_key(SourceIdentView::Named(name@))
                        && state@.sources[SourceIdentView::Named(name@)] == hs;
                    if !config.spec_fetch() && recorded {
                        r is UpToDate
                    } else {
                        r matches SourceStep::Fetch(s) && s@ == hs
                    }
                },
            },
    {
        match self {
            SourceDefinition::Static => SourceStep::Static,
            SourceDefinition::Dynamic { source, hash } => {
                let hs = HashableSource { source: source.duplicate(), hash: *hash };
                let ident = SourceIdent::named(SourceName(name.0.clone()));
                if !crate::config::fetch(config) && state.is_source_recorded(&ident, &hs) {
                    SourceStep::UpToDate
                } else {
                    SourceStep::Fetch(hs)
                }
            },
        }
    }
}

} // verus!
