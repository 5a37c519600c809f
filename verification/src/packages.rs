//! System package managers, and what bringing the installed packages in line
//! with the enabled modules takes.

use vstd::prelude::*;

use crate::config::strings_view;
use crate::order::{Order3, SortKey};
use crate::sorted_map::SortedSet;

verus! {

/// A supported package manager.
#[derive(Clone, Copy, Debug, PartialEq, Eq, PartialOrd, Ord, Hash)]
pub enum PackageManager {
    Pacman,
    Paru,
}

impl View for PackageManager {
    type V = PackageManager;

    open spec fn view(&self) -> PackageManager {
        *self
    }
}

/// The position of a package manager in the order of managers.
pub open spec fn manager_rank(m: PackageManager) -> int {
    match m {
        PackageManager::Pacman => 0,
        PackageManager::Paru => 1,
    }
}

impl SortKey for PackageManager {
    open spec fn key_lt(a: PackageManager, b: PackageManager) -> bool {
        manager_rank(a) < manager_rank(b)
    }

    proof fn lemma_key_order() {
    }

    fn key_order(&self, other: &Self) -> (r: Order3) {
        match (self, other) {
            (PackageManager::Pacman, PackageManager::Paru) => Order3::Less,
            (PackageManager::Paru, PackageManager::Pacman) => Order3::Greater,
            _ => Order3::Equal,
        }
    }

    fn key_clone(&self) -> (r: Self) {
        *self
    }
}

/// The commands of a package manager.
pub trait Manager {
    /// Whether the package manager needs to be run as root.
    spec fn root_required() -> bool;

    /// Whether the package manager needs to be run as root.
    fn needs_root() -> (r: bool)
        ensures
            r == Self::root_required(),
    ;

    /// The words of the command that lists the explicitly installed packages.
    spec fn list_words() -> Seq<Seq<char>>;

    /// The words of the command that installs packages.
    spec fn install_words() -> Seq<Seq<char>>;

    /// The words of the command that uninstalls packages.
    spec fn uninstall_words() -> Seq<Seq<char>>;

    /// The command that lists the explicitly installed packages.
    fn list() -> (r: Vec<String>)
        ensures
            strings_view(r@) == Self::list_words(),
    ;

    /// The command that installs the packages read from standard input.
    fn install() -> (r: Vec<String>)
        ensures
            strings_view(r@) == Self::install_words(),
    ;

    /// The command that uninstalls the packages read from standard input.
    fn uninstall() -> (r: Vec<String>)
        ensures
            strings_view(r@) == Self::uninstall_words(),
    ;
}

/// The words of a command of two words.
fn two_words(a: &str, b: &str) -> (r: Vec<String>)
    ensures
        strings_view(r@) == seq![a@, b@],
{
    let mut r = Vec::new();
    r.push(a.to_owned());
    r.push(b.to_owned());
    assert(strings_view(r@) =~= seq![a@, b@]);
    r
}

/// The words of a command.
fn words(a: &str, b: &str, c: &str) -> (r: Vec<String>)
    ensures
        strings_view(r@) == seq![a@, b@, c@],
{
    let mut r = Vec::new();
    r.push(a.to_owned());
    r.push(b.to_owned());
    r.push(c.to_owned());
    assert(strings_view(r@) =~= seq![a@, b@, c@]);
    r
}

/// Pacman, the package manager of Arch Linux.
pub struct Pacman;

impl Manager for Pacman {
    open spec fn root_required() -> bool {
        true
    }

    fn needs_root() -> (r: bool) {
        true
    }

    open spec fn list_words() -> Seq<Seq<char>> {
        seq!["pacman"@, "-Qqen"@]
    }

    open spec fn install_words() -> Seq<Seq<char>> {
        seq!["pacman"@, "-S"@, "-"@]
    }

    open spec fn uninstall_words() -> Seq<Seq<char>> {
        seq!["pacman"@, "-Rnsu"@, "-"@]
    }

    fn list() -> (r: Vec<String>) {
        two_words("pacman", "-Qqen")
    }

    fn install() -> (r: Vec<String>) {
        words("pacman", "-S", "-")
    }

    fn uninstall() -> (r: Vec<String>) {
        words("pacman", "-Rnsu", "-")
    }
}

/// Paru, a package manager that also builds packages of the AUR.
pub struct Paru;

impl Manager for Paru {
    open spec fn root_required() -> bool {
        false
    }

    fn needs_root() -> (r: bool) {
        false
    }

    open spec fn list_words() -> Seq<Seq<char>> {
        seq!["paru"@, "-Qqem"@]
    }

    open spec fn install_words() -> Seq<Seq<char>> {
        seq!["paru"@, "-S"@, "-"@]
    }

    open spec fn uninstall_words() -> Seq<Seq<char>> {
        seq!["paru"@, "-Rnsu"@, "-"@]
    }

    fn list() -> (r: Vec<String>) {
        two_words("paru", "-Qqem")
    }

    fn install() -> (r: Vec<String>) {
        words("paru", "-S", "-")
    }

    fn uninstall() -> (r: Vec<String>) {
        words("paru", "-Rnsu", "-")
    }
}

/// The elements of `a` that `b` doesn't hold, in the order of `a`.
pub open spec fn seq_minus(a: Seq<Seq<char>>, b: Set<Seq<char>>) -> Seq<Seq<char>> {
    a.filter(|x: Seq<char>| !b.contains(x))
}

/// What to do to bring the installed packages in line: the packages to
/// install, if any and installing is wanted, and the packages to uninstall,
/// if any and uninstalling is wanted.
pub open spec fn spec_sync_plan(
    install: bool,
    uninstall: bool,
    installed: Seq<Seq<char>>,
    installed_set: Set<Seq<char>>,
    wanted: Seq<Seq<char>>,
    wanted_set: Set<Seq<char>>,
) -> (Option<Seq<Seq<char>>>, Option<Seq<Seq<char>>>) {
    let old = seq_minus(installed, wanted_set);
    let new = seq_minus(wanted, installed_set);
    (
        if install && new.len() > 0 {
            Some(new)
        } else {
            None
        },
        if uninstall && old.len() > 0 {
            Some(old)
        } else {
            None
        },
    )
}

/// Syncing installs only when installing is asked for, and uninstalls only
/// when uninstalling is: what it installs are exactly the wanted packages
/// that aren't installed, and what it uninstalls exactly the installed
/// packages that aren't wanted; it does each when there is something to
/// do and it is asked for.
pub proof fn law_sync_plan(
    install: bool,
    uninstall: bool,
    installed: Seq<Seq<char>>,
    installed_set: Set<Seq<char>>,
    wanted: Seq<Seq<char>>,
    wanted_set: Set<Seq<char>>,
)
    requires
        installed.to_set() == installed_set,
        wanted.to_set() == wanted_set,
    ensures
        ({
            let plan = spec_sync_plan(install, uninstall, installed, installed_set, wanted, wanted_set);
            &&& !install ==> plan.0 is None
            &&& !uninstall ==> plan.1 is None
            &&& plan.0 matches Some(v) ==> forall|x: Seq<char>|
                #[trigger] v.contains(x) <==> (wanted_set.contains(x) && !installed_set.contains(x))
            &&& plan.1 matches Some(v) ==> forall|x: Seq<char>|
                #[trigger] v.contains(x) <==> (installed_set.contains(x) && !wanted_set.contains(x))
            &&& (install && exists|x: Seq<char>| wanted_set.contains(x) && !installed_set.contains(x))
                ==> plan.0 is Some
            &&& (uninstall && exists|x: Seq<char>| installed_set.contains(x) && !wanted_set.contains(x))
                ==> plan.1 is Some
        }),
{
    let plan = spec_sync_plan(install, uninstall, installed, installed_set, wanted, wanted_set);
    let new = seq_minus(wanted, installed_set);
    let old = seq_minus(installed, wanted_set);
    let pn = |x: Seq<char>| !installed_set.contains(x);
    let po = |x: Seq<char>| !wanted_set.contains(x);
    assert forall|x: Seq<char>| #[trigger] new.contains(x) <==> (wanted_set.contains(x) && !installed_set.contains(x)) by {
        if wanted_set.contains(x) && !installed_set.contains(x) {
            assert(wanted.to_set().contains(x));
            let i = choose|i: int| 0 <= i < wanted.len() && wanted[i] == x;
            wanted.lemma_filter_contains(pn, i);
        }
        if new.contains(x) {
            wanted.lemma_filter_contains_rev(pn, x);
            assert(wanted.contains(x));
            assert(wanted.to_set().contains(x));
        }
    }
    assert forall|x: Seq<char>| #[trigger] old.contains(x) <==> (installed_set.contains(x) && !wanted_set.contains(x)) by {
        if installed_set.contains(x) && !wanted_set.contains(x) {
            assert(installed.to_set().contains(x));
            let i = choose|i: int| 0 <= i < installed.len() && installed[i] == x;
            installed.lemma_filter_contains(po, i);
        }
        if old.contains(x) {
            installed.lemma_filter_contains_rev(po, x);
            assert(installed.contains(x));
            assert(installed.to_set().contains(x));
        }
    }
    if exists|x: Seq<char>| wanted_set.contains(x) && !installed_set.contains(x) {
        let x = choose|x: Seq<char>| wanted_set.contains(x) && !installed_set.contains(x);
        assert(new.contains(x));
    }
    if exists|x: Seq<char>| installed_set.contains(x) && !wanted_set.contains(x) {
        let x = choose|x: Seq<char>| installed_set.contains(x) && !wanted_set.contains(x);
        assert(old.contains(x));
    }
}

impl PackageManager {
    /// Whether the package manager needs to be run as root.
    pub fn needs_root(&self) -> (r: bool)
        ensures
            r == (*self == PackageManager::Pacman),
    {
        match self {
            PackageManager::Pacman => Pacman::needs_root(),
            PackageManager::Paru => Paru::needs_root(),
        }
    }

    /// The command that lists the explicitly installed packages.
    pub fn list_command(&self) -> (r: Vec<String>)
        ensures
            strings_view(r@) == match self {
                PackageManager::Pacman => Pacman::list_words(),
                PackageManager::Paru => Paru::list_words(),
            },
    {
        match self {
            PackageManager::Pacman => Pacman::list(),
            PackageManager::Paru => Paru::list(),
        }
    }

    /// The command that installs packages.
    pub fn install_command(&self) -> (r: Vec<String>)
        ensures
            strings_view(r@) == match self {
                PackageManager::Pacman => Pacman::install_words(),
                PackageManager::Paru => Paru::install_words(),
            },
    {
        match self {
            PackageManager::Pacman => Pacman::install(),
            PackageManager::Paru => Paru::install(),
        }
    }

    /// The command that uninstalls packages.
    pub fn uninstall_command(&self) -> (r: Vec<String>)
        ensures
            strings_view(r@) == match self {
                PackageManager::Pacman => Pacman::uninstall_words(),
                PackageManager::Paru => Paru::uninstall_words(),
            },
    {
        match self {
            PackageManager::Pacman => Pacman::uninstall(),
            PackageManager::Paru => Paru::uninstall(),
        }
    }

    /// The program and arguments that run `args`: through `sudo` when the
    /// manager needs root, else as they are.
    pub fn update_command(&self, args: &Vec<String>) -> (r: (String, Vec<String>))
        requires
            args@.len() > 0,
        ensures
            self.needs_root_spec() ==> r.0@ == seq!['s', 'u', 'd', 'o'] && strings_view(r.1@)
                == strings_view(args@),
            !self.needs_root_spec() ==> r.0@ == args@[0]@ && strings_view(r.1@) == strings_view(
                args@,
            ).drop_first(),
    {
        let mut rest: Vec<String> = Vec::new();
        let start: usize = if self.needs_root() {
            0
        } else {
            1
        };
        let mut i = start;
        while i < args.len()
            invariant
                start <= i <= args.len(),
                strings_view(rest@) == strings_view(args@).subrange(start as int, i as int),
            decreases args.len() - i,
        {
            let word = args[i].clone();
            let ghost before = rest@;
            rest.push(word);
            proof {
                crate::config::lemma_strings_view_push(before, word);
            }
            assert(strings_view(rest@) =~= strings_view(args@).subrange(start as int, i + 1));
            i = i + 1;
        }
        if start == 0 {
            assert(strings_view(args@).subrange(0, args@.len() as int) =~= strings_view(args@));
            proof {
                reveal_strlit("sudo");
            }
            let sudo = "sudo".to_owned();
            assert(sudo@ =~= seq!['s', 'u', 'd', 'o']);
            (sudo, rest)
        } else {
            assert(strings_view(args@).subrange(1, args@.len() as int) =~= strings_view(
                args@,
            ).drop_first());
            (args[0].clone(), rest)
        }
    }

    /// Whether the package manager needs root, as a spec.
    pub open spec fn needs_root_spec(&self) -> bool {
        *self == PackageManager::Pacman
    }

    /// The installed packages that aren't wanted, and the wanted packages
    /// that aren't installed, each in ascending order.
    pub fn diff(installed: &SortedSet<String>, wanted: &SortedSet<String>) -> (r: (
        Vec<String>,
        Vec<String>,
    ))
        requires
            installed.wf(),
            wanted.wf(),
        ensures
            strings_view(r.0@) == seq_minus(installed.elements(), wanted@),
            strings_view(r.1@) == seq_minus(wanted.elements(), installed@),
    {
        (minus(installed, wanted), minus(wanted, installed))
    }

    /// What syncing takes: the packages to install (first, so that
    /// dependencies aren't reinstalled after being uninstalled) and to
    /// uninstall, each only if wanted and not empty.
    pub fn plan_sync(
        install: bool,
        uninstall: bool,
        installed: &SortedSet<String>,
        wanted: &SortedSet<String>,
    ) -> (r: (Option<Vec<String>>, Option<Vec<String>>))
        requires
            installed.wf(),
            wanted.wf(),
        ensures
            ({
                let plan = spec_sync_plan(
                    install,
                    uninstall,
                    installed.elements(),
                    installed@,
                    wanted.elements(),
                    wanted@,
                );
                &&& (r.0 is Some <==> plan.0 is Some)
                &&& (r.0 matches Some(v) ==> strings_view(v@) == plan.0->Some_0)
                &&& (r.1 is Some <==> plan.1 is Some)
                &&& (r.1 matches Some(v) ==> strings_view(v@) == plan.1->Some_0)
            }),
    {
        let (old, new) = Self::diff(installed, wanted);
        let to_install = if install && new.len() > 0 {
            Some(new)
        } else {
            None
        };
        let to_uninstall = if uninstall && old.len() > 0 {
            Some(old)
        } else {
            None
        };
        (to_install, to_uninstall)
    }
}

/// Splits `s` at every newline; the pieces can be empty.
pub open spec fn split_newlines(s: Seq<char>) -> Seq<Seq<char>>
    decreases s.len(),
{
    if s.len() == 0 {
        seq![Seq::<char>::empty()]
    } else {
        let prev = split_newlines(s.drop_last());
        if s.last() == '\n' {
            prev.push(Seq::<char>::empty())
        } else {
            prev.update(prev.len() - 1, prev.last().push(s.last()))
        }
    }
}

/// A line without the carriage return that ended it, if one did.
pub open spec fn strip_cr(line: Seq<char>) -> Seq<char> {
    if line.len() > 0 && line.last() == '\r' {
        line.drop_last()
    } else {
        line
    }
}

/// The lines of a command's output: every piece that a newline ends, without
/// a carriage return before that newline, then the rest if it isn't empty.
pub open spec fn output_lines(s: Seq<char>) -> Seq<Seq<char>> {
    let pieces = split_newlines(s);
    let ended = pieces.drop_last().map_values(|l: Seq<char>| strip_cr(l));
    if pieces.last().len() == 0 {
        ended
    } else {
        ended.push(pieces.last())
    }
}

/// There is always at least one piece.
proof fn lemma_split_newlines(s: Seq<char>)
    ensures
        split_newlines(s).len() >= 1,
    decreases s.len(),
{
    if s.len() > 0 {
        lemma_split_newlines(s.drop_last());
    }
}

/// A line of `s` from `start` to `end`, without a carriage return at its end
/// when `strip` says so.
fn line_text(s: &str, start: usize, end: usize, strip: bool) -> (r: String)
    requires
        start <= end <= s@.len(),
    ensures
        strip ==> r@ == strip_cr(s@.subrange(start as int, end as int)),
        !strip ==> r@ == s@.subrange(start as int, end as int),
{
    let ghost line = s@.subrange(start as int, end as int);
    if strip && end > start && s.get_char(end - 1) == '\r' {
        assert(line.drop_last() =~= s@.subrange(start as int, end - 1));
        s.substring_char(start, end - 1).to_owned()
    } else {
        s.substring_char(start, end).to_owned()
    }
}

impl PackageManager {
    /// The installed packages that the list command printed: one on each
    /// line.
    pub fn installed_from_output(output: &str) -> (r: SortedSet<String>)
        ensures
            r.wf(),
            r@ == output_lines(output@).to_set(),
    {
        let n = output.unicode_len();
        let mut r: SortedSet<String> = SortedSet::new();
        let mut start: usize = 0;
        let mut i: usize = 0;
        assert(output@.subrange(0, 0) =~= Seq::<char>::empty());
        assert(split_newlines(Seq::<char>::empty()).drop_last().map_values(
            |l: Seq<char>| strip_cr(l),
        ).to_set() =~= Set::<Seq<char>>::empty());
        while i < n
            invariant
                n == output@.len(),
                start <= i <= n,
                r.wf(),
                split_newlines(output@.subrange(0, i as int)).len() >= 1,
                r@ == split_newlines(output@.subrange(0, i as int)).drop_last().map_values(
                    |l: Seq<char>| strip_cr(l),
                ).to_set(),
                split_newlines(output@.subrange(0, i as int)).last() == output@.subrange(
                    start as int,
                    i as int,
                ),
            decreases n - i,
        {
            let ghost t = output@.subrange(0, i as int);
            let ghost t1 = output@.subrange(0, i as int + 1);
            assert(t1.drop_last() =~= t);
            let c = output.get_char(i);
            proof {
                lemma_split_newlines(t);
            }
            if c == '\n' {
                let line = line_text(output, start, i, true);
                let ghost done = split_newlines(t).drop_last().map_values(
                    |l: Seq<char>| strip_cr(l),
                );
                let ghost done1 = split_newlines(t1).drop_last().map_values(
                    |l: Seq<char>| strip_cr(l),
                );
                assert(split_newlines(t1).drop_last() =~= split_newlines(t));
                assert(split_newlines(t) =~= split_newlines(t).drop_last().push(
                    split_newlines(t).last(),
                ));
                assert(done1 =~= done.push(line@));
                assert(done1.to_set() =~= done.to_set().insert(line@)) by {
                    assert forall|x: Seq<char>| done1.to_set().contains(x) implies done.to_set().insert(line@).contains(x) by {
                        let j = choose|j: int| 0 <= j < done1.len() && done1[j] == x;
                        if j < done.len() {
                            assert(done[j] == x);
                        }
                    }
                    assert forall|x: Seq<char>| done.to_set().insert(line@).contains(x) implies done1.to_set().contains(x) by {
                        if x == line@ {
                            assert(done1[done.len() as int] == x);
                        } else {
                            let j = choose|j: int| 0 <= j < done.len() && done[j] == x;
                            assert(done1[j] == x);
                        }
                    }
                }
                r.insert(line);
                assert(output@.subrange(i as int + 1, i as int + 1) =~= Seq::<char>::empty());
                start = i + 1;
            } else {
                assert(split_newlines(t1).drop_last() =~= split_newlines(t).drop_last());
                assert(output@.subrange(start as int, i as int + 1) =~= output@.subrange(
                    start as int,
                    i as int,
                ).push(c));
            }
            i = i + 1;
        }
        let ghost t = output@.subrange(0, n as int);
        assert(t =~= output@);
        let ghost done = split_newlines(t).drop_last().map_values(|l: Seq<char>| strip_cr(l));
        if start < n {
            let line = line_text(output, start, n, false);
            assert(done.push(line@).to_set() =~= done.to_set().insert(line@)) by {
                let done1 = done.push(line@);
                assert forall|x: Seq<char>| done1.to_set().contains(x) implies done.to_set().insert(line@).contains(x) by {
                    let j = choose|j: int| 0 <= j < done1.len() && done1[j] == x;
                    if j < done.len() {
                        assert(done[j] == x);
                    }
                }
                assert forall|x: Seq<char>| done.to_set().insert(line@).contains(x) implies done1.to_set().contains(x) by {
                    if x == line@ {
                        assert(done1[done.len() as int] == x);
                    } else {
                        let j = choose|j: int| 0 <= j < done.len() && done[j] == x;
                        assert(done1[j] == x);
                    }
                }
            }
            r.insert(line);
        }
        r
    }
}

/// The elements of `a` that `b` doesn't hold, in ascending order.
fn minus(a: &SortedSet<String>, b: &SortedSet<String>) -> (r: Vec<String>)
    requires
        a.wf(),
        b.wf(),
    ensures
        strings_view(r@) == seq_minus(a.elements(), b@),
{
    let mut r: Vec<String> = Vec::new();
    let n = a.len();
    let mut i: usize = 0;
    let ghost pred = |x: Seq<char>| !b@.contains(x);
    assert(a.elements().subrange(0, 0).filter(pred) =~= Seq::<Seq<char>>::empty());
    while i < n
        invariant
            a.wf(),
            b.wf(),
            n == a.elements().len(),
            i <= n,
            pred == (|x: Seq<char>| !b@.contains(x)),
            strings_view(r@) == a.elements().subrange(0, i as int).filter(pred),
        decreases n - i,
    {
        let x = a.element_at(i);
        let ghost prefix = a.elements().subrange(0, i as int);
        assert(a.elements().subrange(0, i + 1) =~= prefix.push(x@));
        proof {
            prefix.lemma_filter_push(x@, pred);
        }
        if !b.contains(x) {
            let word = x.clone();
            let ghost before = r@;
            r.push(word);
            proof {
                crate::config::lemma_strings_view_push(before, word);
            }
        }
        i = i + 1;
    }
    assert(a.elements().subrange(0, n as int) =~= a.elements());
    r
}

} // verus!
