//! Filesystem paths as sequences of components, compared and combined the
//! way Unix paths are: `a//b`, `a/./b` and `a/b/` all name the path `a/b`.

use vstd::prelude::*;
use vstd::string::StrSliceExecFns;
use vstd::string::StringExecFns;

use crate::order::{
    char_lt, lemma_lex_order, lemma_lex_skip, lemma_str_order, lex_lt, str_lt, strict_total_order,
    compare_str, Order3, SortKey,
};

verus! {

/// One component of a path.
#[derive(Debug, PartialEq, Eq)]
pub enum Component {
    /// The leading `/` of an absolute path.
    RootDir,
    /// A leading `.` of a relative path.
    CurDir,
    /// `..`
    ParentDir,
    /// Any other name.
    Normal(String),
}

/// What a component stands for.
pub enum ComponentView {
    RootDir,
    CurDir,
    ParentDir,
    Normal(Seq<char>),
}

impl View for Component {
    type V = ComponentView;

    open spec fn view(&self) -> ComponentView {
        match self {
            Component::RootDir => ComponentView::RootDir,
            Component::CurDir => ComponentView::CurDir,
            Component::ParentDir => ComponentView::ParentDir,
            Component::Normal(name) => ComponentView::Normal(name@),
        }
    }
}

impl Clone for Component {
    fn clone(&self) -> (r: Self)
        ensures
            r@ == self@,
    {
        match self {
            Component::RootDir => Component::RootDir,
            Component::CurDir => Component::CurDir,
            Component::ParentDir => Component::ParentDir,
            Component::Normal(name) => Component::Normal(name.clone()),
        }
    }
}

/// A path, held as its components.
#[derive(Debug, PartialEq, Eq)]
pub struct FilePath {
    comps: Vec<Component>,
}

impl View for FilePath {
    type V = Seq<ComponentView>;

    closed spec fn view(&self) -> Seq<ComponentView> {
        self.comps@.map_values(|c: Component| c@)
    }
}

/// The components of a path that may be missing.
pub open spec fn opt_path_view(p: Option<FilePath>) -> Option<Seq<ComponentView>> {
    match p {
        Some(p) => Some(p@),
        None => None,
    }
}

/// The name `~` that stands for a home directory.
pub open spec fn tilde_name() -> Seq<char> {
    seq!['~']
}

/// The path `~`.
pub open spec fn tilde_path() -> Seq<ComponentView> {
    seq![ComponentView::Normal(tilde_name())]
}

/// A name that can be a `Normal` component: not empty, no `/`, and neither
/// `.` nor `..`.
pub open spec fn valid_name(name: Seq<char>) -> bool {
    &&& name.len() > 0
    &&& !name.contains('/')
    &&& name != seq!['.']
    &&& name != seq!['.', '.']
}

/// The shape that every parsed path has: a root or a current directory
/// marker only at the front, and valid names.
pub open spec fn wf_components(cs: Seq<ComponentView>) -> bool {
    forall|i: int|
        0 <= i < cs.len() ==> match #[trigger] cs[i] {
            ComponentView::RootDir => i == 0,
            ComponentView::CurDir => i == 0,
            ComponentView::ParentDir => true,
            ComponentView::Normal(name) => valid_name(name),
        }
}

/// Splits `s` at every `/`; the pieces can be empty.
pub open spec fn split_slash(s: Seq<char>) -> Seq<Seq<char>>
    decreases s.len(),
{
    if s.len() == 0 {
        seq![Seq::<char>::empty()]
    } else {
        let prev = split_slash(s.drop_last());
        if s.last() == '/' {
            prev.push(Seq::<char>::empty())
        } else {
            prev.update(prev.len() - 1, prev.last().push(s.last()))
        }
    }
}

/// The component that a piece between slashes stands for, if any: empty
/// pieces and `.` stand for none.
pub open spec fn segment_component(seg: Seq<char>) -> Option<ComponentView> {
    if seg.len() == 0 || seg == seq!['.'] {
        None
    } else if seg == seq!['.', '.'] {
        Some(ComponentView::ParentDir)
    } else {
        Some(ComponentView::Normal(seg))
    }
}

/// The components that a list of pieces stands for.
pub open spec fn segments_components(segs: Seq<Seq<char>>) -> Seq<ComponentView>
    decreases segs.len(),
{
    if segs.len() == 0 {
        Seq::empty()
    } else {
        let prev = segments_components(segs.drop_last());
        match segment_component(segs.last()) {
            Some(c) => prev.push(c),
            None => prev,
        }
    }
}

/// Whether the string `s` starts with a `.` component.
pub open spec fn starts_with_cur_dir(s: Seq<char>) -> bool {
    s.len() > 0 && s[0] == '.' && (s.len() == 1 || s[1] == '/')
}

/// The components of the path written as `s`.
pub open spec fn parse_components(s: Seq<char>) -> Seq<ComponentView> {
    if s.len() > 0 && s[0] == '/' {
        seq![ComponentView::RootDir] + segments_components(split_slash(s.drop_first()))
    } else if starts_with_cur_dir(s) {
        seq![ComponentView::CurDir] + segments_components(split_slash(s))
    } else {
        segments_components(split_slash(s))
    }
}

/// A string without `/` is one piece.
proof fn lemma_split_no_slash(s: Seq<char>)
    requires
        !s.contains('/'),
    ensures
        split_slash(s) == seq![s],
    decreases s.len(),
{
    if s.len() > 0 {
        assert(!s.drop_last().contains('/')) by {
            if s.drop_last().contains('/') {
                let i = choose|i: int| 0 <= i < s.drop_last().len() && s.drop_last()[i] == '/';
                assert(s[i] == '/');
            }
        }
        lemma_split_no_slash(s.drop_last());
        assert(s[s.len() - 1] != '/');
        assert(s.drop_last().push(s.last()) =~= s);
        assert(seq![s.drop_last()].update(0, s.drop_last().push(s.last())) =~= seq![s]);
    } else {
        assert(s =~= Seq::<char>::empty());
    }
}

/// A plain file name, with no `/` and not starting with `.`, is one
/// component.
pub proof fn lemma_plain_name(name: Seq<char>)
    requires
        name.len() > 0,
        name[0] != '.',
        !name.contains('/'),
    ensures
        parse_components(name) == seq![ComponentView::Normal(name)],
{
    lemma_split_no_slash(name);
    assert(name[0] != '/') by {
        if name[0] == '/' {
            assert(name.contains('/'));
        }
    }
    assert(name != seq!['.'] && name != seq!['.', '.']) by {
        if name == seq!['.'] || name == seq!['.', '.'] {
            assert(name[0] == '.');
        }
    }
    let segs = seq![name];
    assert(segs.drop_last() =~= Seq::<Seq<char>>::empty());
    assert(segments_components(segs.drop_last()) == Seq::<ComponentView>::empty());
    assert(segs.last() == name);
    assert(segment_component(name) == Some(ComponentView::Normal(name)));
    assert(segments_components(segs) == Seq::<ComponentView>::empty().push(ComponentView::Normal(name)));
    assert(segments_components(segs) =~= seq![ComponentView::Normal(name)]);
}

/// A path joined with a plain name ends in that name.
pub proof fn lemma_join_plain_name(dir: Seq<ComponentView>, name: Seq<char>)
    requires
        name.len() > 0,
        name[0] != '.',
        !name.contains('/'),
    ensures
        spec_join(dir, parse_components(name)).len() > 0,
        spec_join(dir, parse_components(name)).last() == ComponentView::Normal(name),
{
    lemma_plain_name(name);
}

/// How a component is written.
pub open spec fn component_text(c: ComponentView) -> Seq<char> {
    match c {
        ComponentView::RootDir => seq!['/'],
        ComponentView::CurDir => seq!['.'],
        ComponentView::ParentDir => seq!['.', '.'],
        ComponentView::Normal(name) => name,
    }
}

/// How a path is written: its components with a `/` between them, and no
/// second `/` after the root.
pub open spec fn render_components(cs: Seq<ComponentView>) -> Seq<char>
    decreases cs.len(),
{
    if cs.len() == 0 {
        Seq::empty()
    } else {
        let prev = cs.drop_last();
        render_components(prev) + (if prev.len() > 0 && prev.last() != ComponentView::RootDir {
            seq!['/']
        } else {
            Seq::empty()
        }) + component_text(cs.last())
    }
}

/// Whether a path starts at the root.
pub open spec fn spec_has_root(p: Seq<ComponentView>) -> bool {
    p.len() > 0 && p[0] == ComponentView::RootDir
}

/// `p` with the leading components `base` taken off, if `p` starts with them.
pub open spec fn spec_strip_prefix(p: Seq<ComponentView>, base: Seq<ComponentView>) -> Option<
    Seq<ComponentView>,
> {
    if base.len() <= p.len() && p.subrange(0, base.len() as int) == base {
        Some(p.subrange(base.len() as int, p.len() as int))
    } else {
        None
    }
}

/// The path without its last component, unless it is empty or the root.
pub open spec fn spec_parent(p: Seq<ComponentView>) -> Option<Seq<ComponentView>> {
    if p.len() > 0 && p.last() != ComponentView::RootDir {
        Some(p.drop_last())
    } else {
        None
    }
}

/// `a` followed by `b`: an absolute `b` replaces `a`, and a leading `.` of
/// `b` disappears behind a non-empty `a`.
pub open spec fn spec_join(a: Seq<ComponentView>, b: Seq<ComponentView>) -> Seq<ComponentView> {
    if spec_has_root(b) || a.len() == 0 {
        b
    } else if b.len() > 0 && b[0] == ComponentView::CurDir {
        a + b.drop_first()
    } else {
        a + b
    }
}

/// The home directory `home` at the start of `p` written as `~`.
pub open spec fn spec_tildefy(p: Seq<ComponentView>, home: Seq<ComponentView>) -> Seq<
    ComponentView,
> {
    match spec_strip_prefix(p, home) {
        Some(rest) => match spec_parent(rest) {
            None => tilde_path(),
            Some(_) => spec_join(tilde_path(), rest),
        },
        None => p,
    }
}

/// A leading `~` of `p` written as the home directory `home`.
pub open spec fn spec_untildefy(p: Seq<ComponentView>, home: Seq<ComponentView>) -> Seq<
    ComponentView,
> {
    match spec_strip_prefix(p, tilde_path()) {
        Some(rest) => spec_join(home, rest),
        None => p,
    }
}

/// Every piece of a split holds no `/`, and there is at least one.
proof fn lemma_split_slash(s: Seq<char>)
    ensures
        split_slash(s).len() >= 1,
        forall|i: int| 0 <= i < split_slash(s).len() ==> !(#[trigger] split_slash(s)[i]).contains('/'),
    decreases s.len(),
{
    if s.len() > 0 {
        lemma_split_slash(s.drop_last());
        let prev = split_slash(s.drop_last());
        if s.last() != '/' {
            let last = prev.last().push(s.last());
            assert forall|j: int| 0 <= j < last.len() implies last[j] != '/' by {
                if j < prev.last().len() {
                    assert(!prev[prev.len() - 1].contains('/'));
                    assert(last[j] == prev.last()[j]);
                }
            }
        }
    }
}

/// The components of any list of pieces without `/` are well formed and
/// never a root or a current directory marker.
proof fn lemma_segments_components(segs: Seq<Seq<char>>)
    requires
        forall|i: int| 0 <= i < segs.len() ==> !(#[trigger] segs[i]).contains('/'),
    ensures
        forall|i: int|
            0 <= i < segments_components(segs).len() ==> match #[trigger] segments_components(
                segs,
            )[i] {
                ComponentView::RootDir => false,
                ComponentView::CurDir => false,
                ComponentView::ParentDir => true,
                ComponentView::Normal(name) => valid_name(name),
            },
    decreases segs.len(),
{
    if segs.len() > 0 {
        assert forall|i: int| 0 <= i < segs.drop_last().len() implies !(
        #[trigger] segs.drop_last()[i]).contains('/') by {
            assert(segs.drop_last()[i] == segs[i]);
        }
        lemma_segments_components(segs.drop_last());
        assert(!segs[segs.len() - 1].contains('/'));
    }
}

/// Parsed paths are well formed.
pub proof fn lemma_parse_wf(s: Seq<char>)
    ensures
        wf_components(parse_components(s)),
{
    if s.len() > 0 && s[0] == '/' {
        lemma_split_slash(s.drop_first());
        lemma_segments_components(split_slash(s.drop_first()));
    } else {
        lemma_split_slash(s);
        lemma_segments_components(split_slash(s));
    }
    let segs = if s.len() > 0 && s[0] == '/' {
        split_slash(s.drop_first())
    } else {
        split_slash(s)
    };
    let cs = parse_components(s);
    let tail = segments_components(segs);
    assert forall|i: int| 0 <= i < cs.len() implies match #[trigger] cs[i] {
        ComponentView::RootDir => i == 0,
        ComponentView::CurDir => i == 0,
        ComponentView::ParentDir => true,
        ComponentView::Normal(name) => valid_name(name),
    } by {
        if cs.len() == tail.len() {
            assert(cs[i] == tail[i]);
        } else if i > 0 {
            assert(cs[i] == tail[i - 1]);
        }
    }
}

/// In a well-formed path, nothing after the first component is a root or a
/// current directory marker.
proof fn lemma_wf_tail(p: Seq<ComponentView>, k: int)
    requires
        wf_components(p),
        1 <= k <= p.len(),
    ensures
        !spec_has_root(p.subrange(k, p.len() as int)),
        p.subrange(k, p.len() as int).len() > 0 ==> p.subrange(k, p.len() as int)[0]
            != ComponentView::CurDir,
        p.subrange(k, p.len() as int).len() > 0 ==> p.subrange(k, p.len() as int).last()
            != ComponentView::RootDir,
{
    let r = p.subrange(k, p.len() as int);
    if r.len() > 0 {
        assert(r[0] == p[k]);
        assert(r.last() == p[p.len() - 1]);
        let c = p[k];
        let d = p[p.len() - 1];
    }
}

/// Writing the home directory as `~` and then `~` as the home directory
/// gives the path back, when the path either starts with the home directory
/// or doesn't start with `~`; with an empty home directory, for every path
/// but `/` and those starting with `.`.
pub proof fn law_untildefy_tildefy(p: Seq<ComponentView>, home: Seq<ComponentView>)
    requires
        wf_components(p),
        wf_components(home),
        home.len() > 0 || p.len() == 0 || (p.last() != ComponentView::RootDir && p[0]
            != ComponentView::CurDir),
        spec_strip_prefix(p, home) is Some || spec_strip_prefix(p, tilde_path()) is None,
    ensures
        spec_untildefy(spec_tildefy(p, home), home) == p,
{
    if home.len() == 0 {
        assert(p.subrange(0, 0) =~= home);
        assert(p.subrange(0, p.len() as int) =~= p);
        assert(spec_strip_prefix(p, home) == Some(p));
        let t = spec_tildefy(p, home);
        if p.len() == 0 {
            assert(t == tilde_path());
            assert(t.subrange(0, 1) =~= tilde_path());
            assert(t.subrange(1, 1) =~= Seq::<ComponentView>::empty());
            assert(spec_untildefy(t, home) =~= p);
        } else if spec_has_root(p) {
            assert(t == p);
            assert(p.subrange(0, 1) != tilde_path()) by {
                assert(p.subrange(0, 1)[0] == ComponentView::RootDir);
            }
        } else {
            assert(t == tilde_path() + p);
            assert(t.subrange(0, 1) =~= tilde_path());
            assert(t.subrange(1, t.len() as int) =~= p);
        }
    } else {
        lemma_untildefy_tildefy_nonempty(p, home);
    }
}

/// The round trip for a home directory that isn't empty.
proof fn lemma_untildefy_tildefy_nonempty(p: Seq<ComponentView>, home: Seq<ComponentView>)
    requires
        wf_components(p),
        wf_components(home),
        home.len() > 0,
        spec_strip_prefix(p, home) is Some || spec_strip_prefix(p, tilde_path()) is None,
    ensures
        spec_untildefy(spec_tildefy(p, home), home) == p,
{
    match spec_strip_prefix(p, home) {
        Some(rest) => {
            lemma_wf_tail(p, home.len() as int);
            let t = spec_tildefy(p, home);
            match spec_parent(rest) {
                None => {
                    assert(rest.len() == 0);
                    assert(t == tilde_path());
                    assert(spec_strip_prefix(t, tilde_path()) == Some(Seq::<ComponentView>::empty()))
                        by {
                        assert(t.subrange(1, 1) =~= Seq::<ComponentView>::empty());
                        assert(t.subrange(0, 1) =~= tilde_path());
                    }
                    assert(p =~= home + rest);
                    assert(home + Seq::<ComponentView>::empty() =~= home);
                },
                Some(_) => {
                    assert(t == tilde_path() + rest);
                    assert(t.subrange(0, 1) =~= tilde_path());
                    assert(t.subrange(1, t.len() as int) =~= rest);
                    assert(p =~= home + rest);
                },
            }
        },
        None => {},
    }
}

/// Writing `~` as the home directory and then the home directory as `~`
/// gives the path back, when the home directory isn't empty and the path
/// either starts with `~` or doesn't start with the home directory.
pub proof fn law_tildefy_untildefy(p: Seq<ComponentView>, home: Seq<ComponentView>)
    requires
        wf_components(p),
        wf_components(home),
        home.len() > 0,
        spec_strip_prefix(p, tilde_path()) is Some || spec_strip_prefix(p, home) is None,
    ensures
        spec_tildefy(spec_untildefy(p, home), home) == p,
{
    match spec_strip_prefix(p, tilde_path()) {
        Some(rest) => {
            lemma_wf_tail(p, 1);
            let u = spec_untildefy(p, home);
            assert(u == home + rest);
            assert(u.subrange(0, home.len() as int) =~= home);
            assert(u.subrange(home.len() as int, u.len() as int) =~= rest);
            assert(spec_strip_prefix(u, home) == Some(rest));
            if rest.len() == 0 {
                assert(p =~= tilde_path());
            } else {
                assert(p =~= tilde_path() + rest);
            }
        },
        None => {},
    }
}

/// Whether two components are the same.
fn component_eq(a: &Component, b: &Component) -> (r: bool)
    ensures
        r == (a@ == b@),
{
    match (a, b) {
        (Component::RootDir, Component::RootDir) => true,
        (Component::CurDir, Component::CurDir) => true,
        (Component::ParentDir, Component::ParentDir) => true,
        (Component::Normal(x), Component::Normal(y)) => *x == *y,
        _ => false,
    }
}

/// The component that `s@.subrange(start, end)` stands for, if any.
fn segment_to_component(s: &str, start: usize, end: usize) -> (r: Option<Component>)
    requires
        start <= end <= s@.len(),
    ensures
        match r {
            Some(c) => segment_component(s@.subrange(start as int, end as int)) == Some(c@),
            None => segment_component(s@.subrange(start as int, end as int)) is None,
        },
{
    let seg = Ghost(s@.subrange(start as int, end as int));
    let len = end - start;
    if len == 0 {
        return None;
    }
    let c0 = s.get_char(start);
    assert(seg@[0] == c0);
    let c1 = if len >= 2 { s.get_char(start + 1) } else { ' ' };
    assert(len >= 2 ==> seg@[1] == c1);
    if c0 == '.' && len == 1 {
        assert(seg@ =~= seq!['.']);
        return None;
    }
    if c0 == '.' && len == 2 && c1 == '.' {
        assert(seg@ =~= seq!['.', '.']);
        return Some(Component::ParentDir);
    }
    assert(seg@ != seq!['.', '.'] && seg@ != seq!['.']) by {
        if seg@ =~= seq!['.', '.'] {
            assert(seg@[0] == '.' && seg@[1] == '.' && len == 2);
        }
        if seg@ =~= seq!['.'] {
            assert(seg@[0] == '.' && len == 1);
        }
    }
    let name = s.substring_char(start, end).to_owned();
    Some(Component::Normal(name))
}

impl FilePath {
    /// The well-formedness that every path keeps.
    pub closed spec fn wf(&self) -> bool {
        wf_components(self@)
    }

    /// A well-formed path's components are well-formed, as the laws on
    /// paths ask.
    pub proof fn lemma_wf(&self)
        ensures
            self.wf() <==> wf_components(self@),
    {
    }

    /// Parses a path written as a string.
    pub fn new(s: &str) -> (r: FilePath)
        ensures
            r@ == parse_components(s@),
            r.wf(),
    {
        let n = s.unicode_len();
        let mut comps: Vec<Component> = Vec::new();
        let mut from: usize = 0;
        if n > 0 && s.get_char(0) == '/' {
            comps.push(Component::RootDir);
            from = 1;
        } else if n > 0 && s.get_char(0) == '.' && (n == 1 || s.get_char(1) == '/') {
            comps.push(Component::CurDir);
        }
        let ghost init = comps@.map_values(|c: Component| c@);
        assert(s@.subrange(from as int, from as int) =~= Seq::<char>::empty());
        assert(split_slash(Seq::<char>::empty()).drop_last() =~= Seq::<Seq<char>>::empty());
        let mut start: usize = from;
        let mut i: usize = from;
        while i < n
            invariant
                n == s@.len(),
                from <= start <= i <= n,
                split_slash(s@.subrange(from as int, i as int)).len() >= 1,
                comps@.map_values(|c: Component| c@) == init + segments_components(
                    split_slash(s@.subrange(from as int, i as int)).drop_last(),
                ),
                split_slash(s@.subrange(from as int, i as int)).last() == s@.subrange(
                    start as int,
                    i as int,
                ),
            decreases n - i,
        {
            let ghost t = s@.subrange(from as int, i as int);
            let ghost t1 = s@.subrange(from as int, i as int + 1);
            assert(t1.drop_last() =~= t);
            let c = s.get_char(i);
            proof {
                lemma_split_slash(t);
                lemma_split_slash(t1);
            }
            if c == '/' {
                let ghost before = comps@.map_values(|c: Component| c@);
                match segment_to_component(s, start, i) {
                    Some(comp) => {
                        comps.push(comp);
                        assert(comps@.map_values(|c: Component| c@) =~= before.push(comp@));
                    },
                    None => {},
                }
                assert(split_slash(t1) == split_slash(t).push(Seq::<char>::empty()));
                assert(split_slash(t1).drop_last() =~= split_slash(t));
                assert(split_slash(t).drop_last() =~= split_slash(t).drop_last());
                assert(segments_components(split_slash(t)) == {
                    let prev = segments_components(split_slash(t).drop_last());
                    match segment_component(split_slash(t).last()) {
                        Some(c) => prev.push(c),
                        None => prev,
                    }
                });
                assert(s@.subrange(i as int + 1, i as int + 1) =~= Seq::<char>::empty());
                start = i + 1;
            } else {
                assert(split_slash(t1).drop_last() =~= split_slash(t).drop_last());
                assert(s@.subrange(start as int, i as int + 1) =~= s@.subrange(
                    start as int,
                    i as int,
                ).push(c));
            }
            i = i + 1;
        }
        let ghost t = s@.subrange(from as int, n as int);
        proof {
            lemma_split_slash(t);
        }
        let ghost before = comps@.map_values(|c: Component| c@);
        match segment_to_component(s, start, n) {
            Some(comp) => {
                comps.push(comp);
                assert(comps@.map_values(|c: Component| c@) =~= before.push(comp@));
            },
            None => {},
        }
        assert(segments_components(split_slash(t)) == {
            let prev = segments_components(split_slash(t).drop_last());
            match segment_component(split_slash(t).last()) {
                Some(c) => prev.push(c),
                None => prev,
            }
        });
        if from == 1 {
            assert(t =~= s@.drop_first());
        } else {
            assert(t =~= s@);
        }
        let r = FilePath { comps };
        assert(r@ == parse_components(s@));
        proof {
            lemma_parse_wf(s@);
        }
        r
    }

    /// Whether the path is absolute.
    pub fn has_root(&self) -> (r: bool)
        ensures
            r == spec_has_root(self@),
    {
        if self.comps.len() > 0 {
            match &self.comps[0] {
                Component::RootDir => true,
                _ => false,
            }
        } else {
            false
        }
    }

    /// Whether two paths have the same components.
    pub fn path_eq(&self, other: &FilePath) -> (r: bool)
        ensures
            r == (self@ == other@),
    {
        if self.comps.len() != other.comps.len() {
            assert(self@.len() != other@.len());
            return false;
        }
        let n = self.comps.len();
        let mut i: usize = 0;
        while i < n
            invariant
                n == self.comps.len() == other.comps.len(),
                i <= n,
                forall|k: int| 0 <= k < i ==> self@[k] == other@[k],
            decreases n - i,
        {
            if !component_eq(&self.comps[i], &other.comps[i]) {
                assert(self@[i as int] != other@[i as int]);
                return false;
            }
            i = i + 1;
        }
        assert(self@ =~= other@);
        true
    }

    /// The leading paths of this path's parent, shortest first: for `a/b/c`,
    /// `a` and then `a/b`. These are the directories that have to exist
    /// before the path can be created.
    pub fn ancestors(&self) -> (r: Vec<FilePath>)
        ensures
            self@.len() == 0 ==> r@.len() == 0,
            self@.len() > 0 ==> r@.len() == self@.len() - 1,
            forall|i: int| 0 <= i < r@.len() ==> (#[trigger] r@[i])@ == self@.subrange(0, i + 1),
    {
        let mut r: Vec<FilePath> = Vec::new();
        let n = self.comps.len();
        if n == 0 {
            return r;
        }
        let mut i: usize = 1;
        while i < n
            invariant
                n == self@.len(),
                1 <= i <= n,
                r@.len() == i - 1,
                forall|k: int| 0 <= k < r@.len() ==> (#[trigger] r@[k])@ == self@.subrange(0, k + 1),
            decreases n - i,
        {
            r.push(self.slice(0, i));
            i = i + 1;
        }
        r
    }

    /// The components `start..end` of this path.
    fn slice(&self, start: usize, end: usize) -> (r: FilePath)
        requires
            start <= end <= self@.len(),
        ensures
            r@ == self@.subrange(start as int, end as int),
    {
        let mut comps: Vec<Component> = Vec::new();
        let mut i = start;
        while i < end
            invariant
                start <= i <= end <= self.comps.len(),
                comps@.map_values(|c: Component| c@) == self@.subrange(start as int, i as int),
            decreases end - i,
        {
            let ghost before = comps@.map_values(|c: Component| c@);
            comps.push(self.comps[i].clone());
            assert(comps@.map_values(|c: Component| c@) =~= before.push(self@[i as int]));
            assert(self@.subrange(start as int, i + 1) =~= self@.subrange(
                start as int,
                i as int,
            ).push(self@[i as int]));
            i = i + 1;
        }
        FilePath { comps }
    }

    /// The path with the leading components `base` taken off, if it starts
    /// with them.
    pub fn strip_prefix(&self, base: &FilePath) -> (r: Option<FilePath>)
        ensures
            match r {
                Some(rest) => spec_strip_prefix(self@, base@) == Some(rest@),
                None => spec_strip_prefix(self@, base@) is None,
            },
    {
        let n = base.comps.len();
        if n > self.comps.len() {
            return None;
        }
        let mut i: usize = 0;
        while i < n
            invariant
                n == base.comps.len() <= self.comps.len(),
                i <= n,
                forall|k: int| 0 <= k < i ==> self@[k] == base@[k],
            decreases n - i,
        {
            if !component_eq(&self.comps[i], &base.comps[i]) {
                assert(self@.subrange(0, n as int)[i as int] != base@[i as int]);
                return None;
            }
            i = i + 1;
        }
        assert(self@.subrange(0, n as int) =~= base@);
        Some(self.slice(n, self.comps.len()))
    }

    /// The path without its last component, unless it is empty or the root.
    pub fn parent(&self) -> (r: Option<FilePath>)
        ensures
            match r {
                Some(p) => spec_parent(self@) == Some(p@),
                None => spec_parent(self@) is None,
            },
    {
        let n = self.comps.len();
        if n == 0 {
            return None;
        }
        match &self.comps[n - 1] {
            Component::RootDir => None,
            _ => {
                assert(self@.drop_last() =~= self@.subrange(0, n - 1));
                Some(self.slice(0, n - 1))
            },
        }
    }

    /// This path followed by `other`, as pushing `other` onto it would
    /// give: an absolute `other` replaces it.
    pub fn join(&self, other: &FilePath) -> (r: FilePath)
        ensures
            r@ == spec_join(self@, other@),
    {
        if other.has_root() || self.comps.len() == 0 {
            return other.clone();
        }
        let mut comps: Vec<Component> = Vec::new();
        let mut i: usize = 0;
        while i < self.comps.len()
            invariant
                i <= self.comps.len(),
                comps@.map_values(|c: Component| c@) == self@.subrange(0, i as int),
            decreases self.comps.len() - i,
        {
            let ghost before = comps@.map_values(|c: Component| c@);
            comps.push(self.comps[i].clone());
            assert(comps@.map_values(|c: Component| c@) =~= before.push(self@[i as int]));
            assert(self@.subrange(0, i + 1) =~= self@.subrange(0, i as int).push(
                self@[i as int],
            ));
            i = i + 1;
        }
        let skip: usize = if other.comps.len() > 0 {
            match &other.comps[0] {
                Component::CurDir => 1,
                _ => 0,
            }
        } else {
            0
        };
        let mut j: usize = skip;
        while j < other.comps.len()
            invariant
                skip <= j <= other.comps.len(),
                skip <= 1,
                comps@.map_values(|c: Component| c@) == self@ + other@.subrange(
                    skip as int,
                    j as int,
                ),
            decreases other.comps.len() - j,
        {
            let ghost before = comps@.map_values(|c: Component| c@);
            comps.push(other.comps[j].clone());
            assert(comps@.map_values(|c: Component| c@) =~= before.push(other@[j as int]));
            assert(other@.subrange(skip as int, j + 1) =~= other@.subrange(
                skip as int,
                j as int,
            ).push(other@[j as int]));
            j = j + 1;
        }
        if skip == 1 {
            assert(other@.subrange(1, other@.len() as int) =~= other@.drop_first());
        } else {
            assert(other@.subrange(0, other@.len() as int) =~= other@);
        }
        FilePath { comps }
    }

    /// The path written as a string, one `/` between components.
    pub fn to_path_string(&self) -> (r: String)
        ensures
            r@ == render_components(self@),
    {
        let mut r = String::new();
        let mut i: usize = 0;
        proof {
            reveal_strlit("/");
            reveal_strlit(".");
            reveal_strlit("..");
        }
        assert(self@.subrange(0, 0) =~= Seq::<ComponentView>::empty());
        while i < self.comps.len()
            invariant
                i <= self.comps.len(),
                r@ == render_components(self@.subrange(0, i as int)),
                "/"@ == seq!['/'],
                "."@ == seq!['.'],
                ".."@ == seq!['.', '.'],
            decreases self.comps.len() - i,
        {
            let ghost prev = self@.subrange(0, i as int);
            assert(self@.subrange(0, i + 1).drop_last() =~= prev);
            if i > 0 {
                let is_root = match &self.comps[i - 1] {
                    Component::RootDir => true,
                    _ => false,
                };
                assert(prev.last() == self@[i - 1]);
                if !is_root {
                    r.append("/");
                }
            }
            match &self.comps[i] {
                Component::RootDir => r.append("/"),
                Component::CurDir => r.append("."),
                Component::ParentDir => r.append(".."),
                Component::Normal(name) => r.append(name.as_str()),
            }
            assert(self@.subrange(0, i + 1).last() == self@[i as int]);
            i = i + 1;
        }
        assert(self@.subrange(0, self@.len() as int) =~= self@);
        r
    }

    /// This path followed by the path written as `name`.
    pub fn join_str(&self, name: &str) -> (r: FilePath)
        ensures
            r@ == spec_join(self@, parse_components(name@)),
    {
        self.join(&FilePath::new(name))
    }

    /// The number of components.
    pub fn len(&self) -> (r: usize)
        ensures
            r == self@.len(),
    {
        self.comps.len()
    }

    /// The path `~`.
    pub fn tilde() -> (r: FilePath)
        ensures
            r@ == tilde_path(),
    {
        let mut comps: Vec<Component> = Vec::new();
        proof {
            reveal_strlit("~");
        }
        let name = "~".to_owned();
        assert(name@ =~= tilde_name());
        comps.push(Component::Normal(name));
        assert(comps@.map_values(|c: Component| c@) =~= tilde_path());
        FilePath { comps }
    }
}

impl Clone for FilePath {
    fn clone(&self) -> (r: Self)
        ensures
            r@ == self@,
    {
        self.slice(0, self.comps.len())
    }
}

/// The rank of a component's kind in the order of components.
pub open spec fn component_rank(c: ComponentView) -> int {
    match c {
        ComponentView::RootDir => 0,
        ComponentView::CurDir => 1,
        ComponentView::ParentDir => 2,
        ComponentView::Normal(_) => 3,
    }
}

/// The order of components: roots, then `.`, then `..`, then names in
/// string order.
pub open spec fn component_lt(a: ComponentView, b: ComponentView) -> bool {
    match (a, b) {
        (ComponentView::Normal(x), ComponentView::Normal(y)) => str_lt(x, y),
        _ => component_rank(a) < component_rank(b),
    }
}

/// The order of paths: lexicographic by components.
pub open spec fn path_lt(a: Seq<ComponentView>, b: Seq<ComponentView>) -> bool {
    lex_lt(a, b, |x: ComponentView, y: ComponentView| component_lt(x, y))
}

/// The component order is a strict total order.
proof fn lemma_component_order()
    ensures
        strict_total_order(|x: ComponentView, y: ComponentView| component_lt(x, y)),
{
    lemma_str_order();
    let s = |a: Seq<char>, b: Seq<char>| str_lt(a, b);
    assert forall|a: ComponentView| !#[trigger] component_lt(a, a) by {
        if let ComponentView::Normal(x) = a {
            assert(!s(x, x));
        }
    }
    assert forall|a: ComponentView, b: ComponentView, c: ComponentView|
        #[trigger] component_lt(a, b) && #[trigger] component_lt(b, c) implies component_lt(a, c) by {
        if let (ComponentView::Normal(x), ComponentView::Normal(y), ComponentView::Normal(z)) = (
            a,
            b,
            c,
        ) {
            assert(s(x, y) && s(y, z) ==> s(x, z));
        }
    }
    assert forall|a: ComponentView, b: ComponentView|
        a == b || #[trigger] component_lt(a, b) || #[trigger] component_lt(b, a) by {
        if let (ComponentView::Normal(x), ComponentView::Normal(y)) = (a, b) {
            assert(x == y || s(x, y) || s(y, x));
        }
    }
}

/// The path order is a strict total order.
pub proof fn lemma_path_order()
    ensures
        forall|a: Seq<ComponentView>| !#[trigger] path_lt(a, a),
        forall|a: Seq<ComponentView>, b: Seq<ComponentView>, c: Seq<ComponentView>|
            #[trigger] path_lt(a, b) && #[trigger] path_lt(b, c) ==> path_lt(a, c),
        forall|a: Seq<ComponentView>, b: Seq<ComponentView>|
            a == b || #[trigger] path_lt(a, b) || #[trigger] path_lt(b, a),
{
    lemma_component_order();
    let ghost lt = |x: ComponentView, y: ComponentView| component_lt(x, y);
    lemma_lex_order(lt);
    let f = |a: Seq<ComponentView>, b: Seq<ComponentView>| lex_lt(a, b, lt);
    assert forall|a: Seq<ComponentView>| !#[trigger] path_lt(a, a) by {
        assert(!f(a, a));
    }
    assert forall|a: Seq<ComponentView>, b: Seq<ComponentView>, c: Seq<ComponentView>|
        #[trigger] path_lt(a, b) && #[trigger] path_lt(b, c) implies path_lt(a, c) by {
        assert(f(a, b) && f(b, c) ==> f(a, c));
    }
    assert forall|a: Seq<ComponentView>, b: Seq<ComponentView>|
        a == b || #[trigger] path_lt(a, b) || #[trigger] path_lt(b, a) by {
        assert(a == b || f(a, b) || f(b, a));
    }
}

/// Compares two components.
fn compare_component(a: &Component, b: &Component) -> (r: Order3)
    ensures
        r == Order3::Less <==> component_lt(a@, b@),
        r == Order3::Equal <==> a@ == b@,
        r == Order3::Greater <==> component_lt(b@, a@),
{
    proof {
        lemma_str_order();
        let s = |x: Seq<char>, y: Seq<char>| str_lt(x, y);
        if let (ComponentView::Normal(x), ComponentView::Normal(y)) = (a@, b@) {
            assert(!s(x, x));
            assert(x == y || s(x, y) || s(y, x));
            assert(!(s(x, y) && s(y, x))) by {
                assert(s(x, y) && s(y, x) ==> s(x, x));
            }
        }
    }
    let ra: u8 = match a {
        Component::RootDir => 0,
        Component::CurDir => 1,
        Component::ParentDir => 2,
        Component::Normal(_) => 3,
    };
    let rb: u8 = match b {
        Component::RootDir => 0,
        Component::CurDir => 1,
        Component::ParentDir => 2,
        Component::Normal(_) => 3,
    };
    match (a, b) {
        (Component::Normal(x), Component::Normal(y)) => compare_str(x.as_str(), y.as_str()),
        _ => {
            if ra < rb {
                Order3::Less
            } else if ra > rb {
                Order3::Greater
            } else {
                Order3::Equal
            }
        },
    }
}

impl SortKey for FilePath {
    open spec fn key_lt(a: Seq<ComponentView>, b: Seq<ComponentView>) -> bool {
        path_lt(a, b)
    }

    proof fn lemma_key_order() {
        lemma_path_order();
    }

    fn key_order(&self, other: &Self) -> (r: Order3) {
        proof {
            lemma_component_order();
            lemma_path_order();
        }
        let ghost lt = |x: ComponentView, y: ComponentView| component_lt(x, y);
        let n = self.comps.len();
        let m = other.comps.len();
        let mut i: usize = 0;
        while i < n && i < m
            invariant
                n == self@.len(),
                m == other@.len(),
                i <= n,
                i <= m,
                self@.subrange(0, i as int) == other@.subrange(0, i as int),
                lt == (|x: ComponentView, y: ComponentView| component_lt(x, y)),
            decreases n - i,
        {
            match compare_component(&self.comps[i], &other.comps[i]) {
                Order3::Equal => {},
                o => {
                    proof {
                        lemma_component_order();
                        lemma_lex_skip(self@, other@, i as int, lt);
                        lemma_lex_skip(other@, self@, i as int, lt);
                        let ra = self@.subrange(i as int, n as int);
                        let rb = other@.subrange(i as int, m as int);
                        assert(ra[0] == self@[i as int] && rb[0] == other@[i as int]);
                        lemma_path_order();
                    }
                    return o;
                },
            }
            assert(self@.subrange(0, i + 1) =~= self@.subrange(0, i as int).push(self@[i as int]));
            assert(other@.subrange(0, i + 1) =~= other@.subrange(0, i as int).push(
                other@[i as int],
            ));
            i = i + 1;
        }
        proof {
            lemma_component_order();
            lemma_lex_skip(self@, other@, i as int, lt);
            lemma_lex_skip(other@, self@, i as int, lt);
        }
        if n == m {
            assert(self@ =~= self@.subrange(0, i as int));
            assert(other@ =~= other@.subrange(0, i as int));
            Order3::Equal
        } else if n < m {
            assert(self@ != other@);
            Order3::Less
        } else {
            assert(self@ != other@);
            Order3::Greater
        }
    }

    fn key_clone(&self) -> (r: Self) {
        self.clone()
    }
}

/// Writes the home directory `home` at the start of `path` as `~`.
pub fn tildefy_with(path: &FilePath, home: &FilePath) -> (r: FilePath)
    ensures
        r@ == spec_tildefy(path@, home@),
{
    match path.strip_prefix(home) {
        Some(rest) => match rest.parent() {
            None => FilePath::tilde(),
            Some(_) => FilePath::tilde().join(&rest),
        },
        None => path.clone(),
    }
}

/// Writes a leading `~` of `path` as the home directory `home`.
pub fn untildefy_with(path: &FilePath, home: &FilePath) -> (r: FilePath)
    ensures
        r@ == spec_untildefy(path@, home@),
{
    match path.strip_prefix(&FilePath::tilde()) {
        Some(rest) => home.join(&rest),
        None => path.clone(),
    }
}

} // verus!
