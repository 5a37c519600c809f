//! Owners of created files, written as `user`, `user:`, `user:group`,
//! `:group` or `:`, where a user or group is a name or a numeric id.

use vstd::prelude::*;
use vstd::string::StrSliceExecFns;

use crate::sorted_map::SortedMap;

verus! {

/// A user or group, by numeric id or by name.
#[derive(Debug, PartialEq, Eq)]
pub enum OwnerIdent {
    Id(u32),
    Name(String),
}

/// The group part of an owner.
#[derive(Debug, PartialEq, Eq)]
pub enum OwnerGroup {
    /// A group given by id or name.
    Ident(OwnerIdent),
    /// The login group of the owner's user (written `user:`).
    LoginGroup,
}

/// The user and group that created files should belong to; either may be
/// left as it is.
#[derive(Debug, PartialEq, Eq)]
pub struct Owner {
    user: Option<OwnerIdent>,
    group: Option<OwnerGroup>,
}

/// The owner string is empty.
#[derive(Clone, Copy, Debug, PartialEq, Eq)]
pub struct ParseOwnerError;

/// A user or group identifier as a plain value.
pub enum OwnerIdentView {
    Id(u32),
    Name(Seq<char>),
}

/// A group part as a plain value.
pub enum OwnerGroupView {
    Ident(OwnerIdentView),
    LoginGroup,
}

/// An owner as a plain value.
pub struct OwnerView {
    pub user: Option<OwnerIdentView>,
    pub group: Option<OwnerGroupView>,
}

impl View for OwnerIdent {
    type V = OwnerIdentView;

    open spec fn view(&self) -> OwnerIdentView {
        match self {
            OwnerIdent::Id(id) => OwnerIdentView::Id(*id),
            OwnerIdent::Name(name) => OwnerIdentView::Name(name@),
        }
    }
}

impl View for OwnerGroup {
    type V = OwnerGroupView;

    open spec fn view(&self) -> OwnerGroupView {
        match self {
            OwnerGroup::Ident(ident) => OwnerGroupView::Ident(ident@),
            OwnerGroup::LoginGroup => OwnerGroupView::LoginGroup,
        }
    }
}

impl View for Owner {
    type V = OwnerView;

    closed spec fn view(&self) -> OwnerView {
        OwnerView {
            user: match self.user {
                Some(u) => Some(u@),
                None => None,
            },
            group: match self.group {
                Some(g) => Some(g@),
                None => None,
            },
        }
    }
}

/// Whether `c` is an ASCII decimal digit.
pub open spec fn is_digit(c: char) -> bool {
    '0' <= c <= '9'
}

/// The number that the decimal digits `d` write, most significant first.
pub open spec fn digits_value(d: Seq<char>) -> nat
    decreases d.len(),
{
    if d.len() == 0 {
        0
    } else {
        digits_value(d.drop_last()) * 10 + ((d.last() as nat) - ('0' as nat)) as nat
    }
}

/// The digits of an unsigned number, after an optional leading `+`.
pub open spec fn unsigned_digits(s: Seq<char>) -> Seq<char> {
    if s.len() > 0 && s[0] == '+' {
        s.drop_first()
    } else {
        s
    }
}

/// What reading `s` as a `u32` gives, as the standard library reads
/// integers: an optional `+`, then one or more decimal digits whose value
/// fits.
pub open spec fn spec_parse_u32(s: Seq<char>) -> Option<u32> {
    let d = unsigned_digits(s);
    if d.len() > 0 && (forall|i: int| 0 <= i < d.len() ==> is_digit(#[trigger] d[i])) && digits_value(d)
        <= u32::MAX {
        Some(digits_value(d) as u32)
    } else {
        None
    }
}

/// The identifier that `s` names: an id if it reads as one, else a name.
pub open spec fn spec_ident(s: Seq<char>) -> OwnerIdentView {
    match spec_parse_u32(s) {
        Some(id) => OwnerIdentView::Id(id),
        None => OwnerIdentView::Name(s),
    }
}

/// The index of the first `:` in `s`, if it holds one.
pub open spec fn first_colon(s: Seq<char>) -> Option<int> {
    if s.contains(':') {
        Some(choose|i: int| 0 <= i < s.len() && s[i] == ':' && forall|j: int| 0 <= j < i ==> s[j] != ':')
    } else {
        None
    }
}

/// What an owner string means, or `None` for the empty string.
pub open spec fn spec_parse_owner(s: Seq<char>) -> Option<OwnerView> {
    match first_colon(s) {
        None => if s.len() == 0 {
            None
        } else {
            Some(OwnerView { user: Some(spec_ident(s)), group: None })
        },
        Some(i) => {
            let user = s.subrange(0, i);
            let group = s.subrange(i + 1, s.len() as int);
            Some(
                OwnerView {
                    user: if user.len() == 0 {
                        None
                    } else {
                        Some(spec_ident(user))
                    },
                    group: if user.len() == 0 && group.len() == 0 {
                        None
                    } else if group.len() == 0 {
                        Some(OwnerGroupView::LoginGroup)
                    } else {
                        Some(OwnerGroupView::Ident(spec_ident(group)))
                    },
                },
            )
        },
    }
}

/// The smaller of `v` and the first value past `u32::MAX`.
spec fn capped(v: nat) -> nat {
    if v <= u32::MAX {
        v
    } else {
        u32::MAX as nat + 1
    }
}

proof fn lemma_capped_step(v: nat, c: nat, digit: nat)
    requires
        c == capped(v),
        digit < 10,
    ensures
        capped(v * 10 + digit) == capped(c * 10 + digit),
{
    if v > u32::MAX {
        assert(v * 10 + digit > u32::MAX) by (nonlinear_arith)
            requires
                v > u32::MAX,
        ;
        assert(c * 10 + digit > u32::MAX) by (nonlinear_arith)
            requires
                c == u32::MAX as nat + 1,
        ;
    }
}

/// Reads `s` as a `u32` the way the standard library does.
pub fn parse_u32(s: &str) -> (r: Option<u32>)
    ensures
        r == spec_parse_u32(s@),
{
    let n = s.unicode_len();
    let mut start: usize = 0;
    if n > 0 && s.get_char(0) == '+' {
        start = 1;
    }
    let ghost d = unsigned_digits(s@);
    assert(d == s@.subrange(start as int, n as int));
    if start == n {
        return None;
    }
    let mut acc: u64 = 0;
    let mut i: usize = start;
    while i < n
        invariant
            n == s@.len(),
            start <= i <= n,
            d == unsigned_digits(s@),
            d == s@.subrange(start as int, n as int),
            forall|k: int| start <= k < i ==> is_digit(#[trigger] s@[k]),
            acc == capped(digits_value(s@.subrange(start as int, i as int))),
        decreases n - i,
    {
        let c = s.get_char(i);
        if c < '0' || c > '9' {
            assert(d[i - start] == c);
            assert(!is_digit(d[i - start]));
            return None;
        }
        let digit: u64 = (c as u64) - ('0' as u64);
        let ghost prefix = s@.subrange(start as int, i as int);
        assert(s@.subrange(start as int, i + 1).drop_last() == prefix);
        proof {
            lemma_capped_step(digits_value(prefix), acc as nat, digit as nat);
        }
        let next = acc * 10 + digit;
        acc = if next > 4294967295 {
            4294967296
        } else {
            next
        };
        i = i + 1;
    }
    assert(s@.subrange(start as int, n as int) == d);
    assert forall|k: int| 0 <= k < d.len() implies is_digit(#[trigger] d[k]) by {
        assert(d[k] == s@[start + k]);
    }
    if acc > 4294967295 {
        None
    } else {
        Some(acc as u32)
    }
}

impl OwnerIdent {
    /// An id if `s` reads as one, else a name.
    pub fn from(s: &str) -> (r: OwnerIdent)
        ensures
            r@ == spec_ident(s@),
    {
        match parse_u32(s) {
            Some(id) => OwnerIdent::Id(id),
            None => OwnerIdent::Name(s.to_owned()),
        }
    }
}

impl Default for Owner {
    fn default() -> (r: Owner)
        ensures
            r@ == (OwnerView { user: None, group: None }),
    {
        Owner { user: None, group: None }
    }
}

impl Owner {
    /// An owner with the given user and group parts.
    pub fn new(user: Option<OwnerIdent>, group: Option<OwnerGroup>) -> (r: Owner)
        ensures
            r@.user == (match user {
                Some(u) => Some(u@),
                None => None::<OwnerIdentView>,
            }),
            r@.group == (match group {
                Some(g) => Some(g@),
                None => None::<OwnerGroupView>,
            }),
    {
        Owner { user, group }
    }

    /// The user `user`, with the group left as it is.
    pub fn user(user: &str) -> (r: Owner)
        ensures
            r@ == (OwnerView { user: Some(spec_ident(user@)), group: None }),
    {
        Owner::new(Some(OwnerIdent::from(user)), None)
    }

    /// The user `user` with its login group.
    pub fn user_with_login_group(user: &str) -> (r: Owner)
        ensures
            r@ == (OwnerView {
                user: Some(spec_ident(user@)),
                group: Some(OwnerGroupView::LoginGroup),
            }),
    {
        Owner::new(Some(OwnerIdent::from(user)), Some(OwnerGroup::LoginGroup))
    }

    /// The user `user` with the group `group`.
    pub fn user_with_group(user: &str, group: &str) -> (r: Owner)
        ensures
            r@ == (OwnerView {
                user: Some(spec_ident(user@)),
                group: Some(OwnerGroupView::Ident(spec_ident(group@))),
            }),
    {
        Owner::new(Some(OwnerIdent::from(user)), Some(OwnerGroup::Ident(OwnerIdent::from(group))))
    }

    /// The group `group`, with the user left as it is.
    pub fn group(group: &str) -> (r: Owner)
        ensures
            r@ == (OwnerView { user: None, group: Some(OwnerGroupView::Ident(spec_ident(group@))) }),
    {
        Owner::new(None, Some(OwnerGroup::Ident(OwnerIdent::from(group))))
    }

    /// Reads an owner string: `user`, `user:` (with the login group),
    /// `user:group`, `:group` or `:` (nothing changed). The part before the
    /// first `:` is the user.
    pub fn from_str(s: &str) -> (r: Result<Owner, ParseOwnerError>)
        ensures
            match spec_parse_owner(s@) {
                Some(o) => r matches Ok(owner) && owner@ == o,
                None => r == Err::<Owner, ParseOwnerError>(ParseOwnerError),
            },
    {
        let n = s.unicode_len();
        let mut i: usize = 0;
        while i < n
            invariant
                n == s@.len(),
                i <= n,
                forall|k: int| 0 <= k < i ==> s@[k] != ':',
            decreases n - i,
        {
            if s.get_char(i) == ':' {
                assert(s@.contains(':'));
                let ghost j = choose|j: int|
                    0 <= j < s@.len() && s@[j] == ':' && forall|k: int| 0 <= k < j ==> s@[k] != ':';
                assert(j == i as int) by {
                    if j < i {
                        assert(s@[j] != ':');
                    }
                    if i < j {
                        assert(s@[i as int] != ':');
                    }
                }
                let user = s.substring_char(0, i);
                let group = s.substring_char(i + 1, n);
                let user_empty = i == 0;
                let group_empty = i + 1 == n;
                let r = if user_empty && group_empty {
                    Owner::default()
                } else if group_empty {
                    Owner::user_with_login_group(user)
                } else if user_empty {
                    Owner::group(group)
                } else {
                    Owner::user_with_group(user, group)
                };
                return Ok(r);
            }
            i = i + 1;
        }
        assert(!s@.contains(':'));
        if n == 0 {
            Err(ParseOwnerError)
        } else {
            Ok(Owner::user(s))
        }
    }
}


/// The ids of a user, as the user database gives them.
#[derive(Clone, Copy, Debug, PartialEq, Eq)]
pub struct UserIds {
    pub uid: u32,
    pub gid: u32,
}

/// The user and group ids to give a created path; `None` leaves that part
/// as it is.
#[derive(Clone, Copy, Debug, PartialEq, Eq, PartialOrd, Ord)]
pub struct OwnerIds {
    uid: Option<u32>,
    gid: Option<u32>,
}

/// Owner ids as plain values.
pub struct OwnerIdsView {
    pub uid: Option<u32>,
    pub gid: Option<u32>,
}

impl View for OwnerIds {
    type V = OwnerIdsView;

    closed spec fn view(&self) -> OwnerIdsView {
        OwnerIdsView { uid: self.uid, gid: self.gid }
    }
}

/// Why an owner's ids couldn't be found.
#[derive(Clone, Debug, PartialEq, Eq)]
pub enum OwnerError {
    /// No user has this id.
    NoSuchUid(u32),
    /// No user has this name.
    NoSuchUser(String),
    /// No group has this name.
    NoSuchGroup(String),
    /// The user or group database couldn't be read.
    Lookup(String),
}

/// The user `user`, unless it is the current user.
pub open spec fn other_user(user: Option<UserIds>, current: UserIds) -> Option<UserIds> {
    match user {
        Some(u) => if u.uid == current.uid {
            None
        } else {
            Some(u)
        },
        None => None,
    }
}

/// The ids an owner stands for, given the database record of its user
/// (`user`, when it names one) and the gid of its group (`group_gid`, when
/// it names one by name): the current user's ids are left as they are.
pub open spec fn spec_owner_ids(
    owner: OwnerView,
    current: UserIds,
    user: Option<UserIds>,
    group_gid: Option<u32>,
) -> OwnerIdsView {
    let other = other_user(user, current);
    OwnerIdsView {
        uid: match other {
            Some(u) => Some(u.uid),
            None => None,
        },
        gid: match owner.group {
            Some(OwnerGroupView::LoginGroup) => match other {
                Some(u) => Some(u.gid),
                None => None,
            },
            Some(OwnerGroupView::Ident(OwnerIdentView::Id(gid))) => Some(gid),
            Some(OwnerGroupView::Ident(OwnerIdentView::Name(_))) => match group_gid {
                Some(g) => if g == current.gid {
                    None
                } else {
                    Some(g)
                },
                None => None,
            },
            None => None,
        },
    }
}

/// Whether an owner names its group by name.
pub open spec fn group_by_name(owner: OwnerView) -> bool {
    owner.group matches Some(OwnerGroupView::Ident(OwnerIdentView::Name(_)))
}

/// Looks a user up by id in the user database, with
/// `nix::unistd::User::from_uid`. Whether it finds one, and the user's
/// group, depend on the machine; a user found has the id asked for.
#[verifier::external_body]
fn lookup_user_by_uid(uid: u32) -> (r: Result<Option<UserIds>, String>)
    ensures
        r matches Ok(Some(user)) ==> user.uid == uid,
{
    match nix::unistd::User::from_uid(nix::unistd::Uid::from_raw(uid)) {
        Ok(Some(user)) => Ok(Some(UserIds { uid: user.uid.as_raw(), gid: user.gid.as_raw() })),
        Ok(None) => Ok(None),
        Err(error) => Err(error.to_string()),
    }
}

/// Looks a user up by name in the user database, with
/// `nix::unistd::User::from_name`. What it finds depends on the machine, so
/// nothing is stated of the result.
#[verifier::external_body]
fn lookup_user_by_name(name: &str) -> (r: Result<Option<UserIds>, String>) {
    match nix::unistd::User::from_name(name) {
        Ok(Some(user)) => Ok(Some(UserIds { uid: user.uid.as_raw(), gid: user.gid.as_raw() })),
        Ok(None) => Ok(None),
        Err(error) => Err(error.to_string()),
    }
}

/// Looks a group's id up by name in the group database, with
/// `nix::unistd::Group::from_name`. What it finds depends on the machine,
/// so nothing is stated of the result.
#[verifier::external_body]
fn lookup_group_gid(name: &str) -> (r: Result<Option<u32>, String>) {
    match nix::unistd::Group::from_name(name) {
        Ok(Some(group)) => Ok(Some(group.gid.as_raw())),
        Ok(None) => Ok(None),
        Err(error) => Err(error.to_string()),
    }
}

impl OwnerIds {
    /// The ids a path has now.
    pub fn from_metadata(uid: u32, gid: u32) -> (r: OwnerIds)
        ensures
            r@ == (OwnerIdsView { uid: Some(uid), gid: Some(gid) }),
    {
        OwnerIds { uid: Some(uid), gid: Some(gid) }
    }

    /// The user id to set, if any.
    pub fn uid(&self) -> (r: Option<u32>)
        ensures
            r == self@.uid,
    {
        self.uid
    }

    /// The group id to set, if any.
    pub fn gid(&self) -> (r: Option<u32>)
        ensures
            r == self@.gid,
    {
        self.gid
    }

    /// Whether setting these ids changes anything at all; when neither is
    /// given, the path is left alone.
    pub fn changes_owner(&self) -> (r: bool)
        ensures
            r == (self@.uid is Some || self@.gid is Some),
    {
        self.uid.is_some() || self.gid.is_some()
    }
}

impl Owner {
    /// The ids the owner stands for, given what the databases gave for its
    /// user and its named group.
    pub fn resolve_ids(&self, current: UserIds, user: Option<UserIds>, group_gid: Option<u32>) -> (r:
        OwnerIds)
        ensures
            r@ == spec_owner_ids(self@, current, user, group_gid),
    {
        let other = match user {
            Some(u) => if u.uid == current.uid {
                None
            } else {
                Some(u)
            },
            None => None,
        };
        let uid = match other {
            Some(u) => Some(u.uid),
            None => None,
        };
        let gid = match &self.group {
            Some(OwnerGroup::LoginGroup) => match other {
                Some(u) => Some(u.gid),
                None => None,
            },
            Some(OwnerGroup::Ident(OwnerIdent::Id(gid))) => Some(*gid),
            Some(OwnerGroup::Ident(OwnerIdent::Name(_))) => match group_gid {
                Some(g) => if g == current.gid {
                    None
                } else {
                    Some(g)
                },
                None => None,
            },
            None => None,
        };
        OwnerIds { uid, gid }
    }

    /// The ids the owner stands for, for the current user as `users` knows
    /// it: the user and a group given by name are looked up through
    /// `users`, and an error is returned when one doesn't exist or the
    /// database can't be read.
    pub fn ids(&self, users: &mut Users) -> (r: Result<OwnerIds, OwnerError>)
        requires
            old(users).wf(),
        ensures
            final(users).wf(),
            users_extend(old(users)@, final(users)@),
            r matches Ok(ids) ==> ids_from_users(self@, final(users)@, ids@),
            r matches Err(e) ==> owner_error(self@, old(users)@, final(users)@, e),
            owner_cached(self@, old(users)@) ==> r is Ok,
    {
        let current = UserIds { uid: users.uid(), gid: users.gid() };
        let ghost after_current = users@;
        let user = match &self.user {
            Some(OwnerIdent::Id(uid)) => match users.user_by_uid(*uid) {
                Ok(u) => Some(u),
                Err(e) => {
                    return Err(e);
                },
            },
            Some(OwnerIdent::Name(name)) => match users.user_by_name(name.as_str()) {
                Ok(u) => Some(u),
                Err(e) => {
                    return Err(e);
                },
            },
            None => None,
        };
        let ghost after_user = users@;
        let group_gid = match &self.group {
            Some(OwnerGroup::Ident(OwnerIdent::Name(name))) => match users.group_gid(name.as_str()) {
                Ok(g) => Some(g),
                Err(e) => {
                    return Err(e);
                },
            },
            _ => None,
        };
        let r = self.resolve_ids(current, user, group_gid);
        proof {
            let fin = users@;
            assert(fin.uid == Some(current.uid) && fin.gid == Some(current.gid));
            assert(current_user(fin) == current);
            assert(user_matches(self@, fin, user));
            assert(group_matches(self@, fin, group_gid));
            assert(spec_owner_ids(self@, current_user(fin), user, group_gid) == r@);
        }
        Ok(r)
    }
}

/// The current user as the cache `users` holds it.
pub open spec fn current_user(users: UsersView) -> UserIds {
    UserIds { uid: users.uid->Some_0, gid: users.gid->Some_0 }
}

/// Whether `user` is what the cache holds for the owner's user.
pub open spec fn user_matches(owner: OwnerView, users: UsersView, user: Option<UserIds>) -> bool {
    match owner.user {
        None => user is None,
        Some(OwnerIdentView::Id(uid)) => users.by_uid.contains_key(uid) && user is Some
            && users.by_uid[uid] == user,
        Some(OwnerIdentView::Name(name)) => users.by_name.contains_key(name) && user is Some
            && users.by_name[name] == user,
    }
}

/// Whether `group_gid` is what the cache holds for the owner's group name.
pub open spec fn group_matches(owner: OwnerView, users: UsersView, group_gid: Option<u32>) -> bool {
    match owner.group {
        Some(OwnerGroupView::Ident(OwnerIdentView::Name(name))) => users.groups.contains_key(name)
            && group_gid is Some && users.groups[name] == group_gid,
        _ => group_gid is None,
    }
}

/// Whether `ids` are the owner's ids for the records of the cache `users`.
pub open spec fn ids_from_users(owner: OwnerView, users: UsersView, ids: OwnerIdsView) -> bool {
    &&& users.uid is Some
    &&& users.gid is Some
    &&& exists|user: Option<UserIds>, group_gid: Option<u32>|
        user_matches(owner, users, user) && group_matches(owner, users, group_gid)
            && #[trigger] spec_owner_ids(owner, current_user(users), user, group_gid) == ids
}

/// How an owner's ids follow from what the databases gave: the user id is
/// the named user's, unless that is the current user; a group given by
/// name gives that group's id, unless it is the current group, whatever
/// the user is; a group given by id gives that id; the login group gives
/// the named user's group, unless that user is the current one; and no
/// group leaves the group alone. So two lookups of the user that differ
/// change nothing about a group given by name or id.
pub proof fn law_owner_ids(
    owner: OwnerView,
    current: UserIds,
    user: Option<UserIds>,
    other: Option<UserIds>,
    group_gid: Option<u32>,
)
    ensures
        ({
            let ids = spec_owner_ids(owner, current, user, group_gid);
            &&& ids.uid == match user {
                Some(u) => if u.uid == current.uid {
                    None
                } else {
                    Some(u.uid)
                },
                None => None,
            }
            &&& owner.group matches Some(OwnerGroupView::Ident(OwnerIdentView::Name(_))) ==> ids.gid
                == match group_gid {
                Some(g) => if g == current.gid {
                    None
                } else {
                    Some(g)
                },
                None => None,
            }
            &&& owner.group matches Some(OwnerGroupView::Ident(OwnerIdentView::Id(g))) ==> ids.gid == Some(g)
            &&& owner.group is None ==> ids.gid is None
            &&& owner.group == Some(OwnerGroupView::LoginGroup) ==> ids.gid == match user {
                Some(u) => if u.uid == current.uid {
                    None
                } else {
                    Some(u.gid)
                },
                None => None,
            }
            &&& owner.group matches Some(OwnerGroupView::Ident(_)) ==> ids.gid == spec_owner_ids(
                owner,
                current,
                other,
                group_gid,
            ).gid
        }),
{
}

/// Whether the cache `new` keeps everything `old` holds: the current
/// user's ids once known, and every user and group looked up.
pub open spec fn users_extend(old: UsersView, new: UsersView) -> bool {
    &&& (old.uid matches Some(u) ==> new.uid == Some(u))
    &&& (old.gid matches Some(g) ==> new.gid == Some(g))
    &&& forall|k: Seq<char>| #[trigger]
        old.by_name.contains_key(k) ==> new.by_name.contains_key(k) && new.by_name[k] == old.by_name[k]
    &&& forall|k: u32| #[trigger]
        old.by_uid.contains_key(k) ==> new.by_uid.contains_key(k) && new.by_uid[k] == old.by_uid[k]
    &&& forall|k: Seq<char>| #[trigger]
        old.groups.contains_key(k) ==> new.groups.contains_key(k) && new.groups[k] == old.groups[k]
}

/// Whether the cache already holds an existing user for the owner's user,
/// and an existing group for its group given by name, so that finding its
/// ids needs no lookup that can fail.
pub open spec fn owner_cached(owner: OwnerView, users: UsersView) -> bool {
    &&& match owner.user {
        None => true,
        Some(OwnerIdentView::Id(u)) => users.by_uid.contains_key(u) && users.by_uid[u] is Some,
        Some(OwnerIdentView::Name(n)) => users.by_name.contains_key(n) && users.by_name[n] is Some,
    }
    &&& match owner.group {
        Some(OwnerGroupView::Ident(OwnerIdentView::Name(n))) => users.groups.contains_key(n)
            && users.groups[n] is Some,
        _ => true,
    }
}

/// Whether `e` is an error that finding the owner's ids can give, with the
/// cache `old` before and `new` after: no user or group for the owner's own
/// id or name, which the cache then remembers, or a database that couldn't
/// be read for one that wasn't cached.
pub open spec fn owner_error(owner: OwnerView, old: UsersView, new: UsersView, e: OwnerError) -> bool {
    match e {
        OwnerError::NoSuchUid(u) => owner.user == Some(OwnerIdentView::Id(u))
            && new.by_uid.contains_key(u) && new.by_uid[u] is None,
        OwnerError::NoSuchUser(n) => owner.user == Some(OwnerIdentView::Name(n@))
            && new.by_name.contains_key(n@) && new.by_name[n@] is None,
        OwnerError::NoSuchGroup(n) => owner.group == Some(
            OwnerGroupView::Ident(OwnerIdentView::Name(n@)),
        ) && new.groups.contains_key(n@) && new.groups[n@] is None,
        OwnerError::Lookup(_) => (match owner.user {
            Some(OwnerIdentView::Id(u)) => !old.by_uid.contains_key(u),
            Some(OwnerIdentView::Name(n)) => !old.by_name.contains_key(n),
            None => false,
        }) || (match owner.group {
            Some(OwnerGroupView::Ident(OwnerIdentView::Name(n))) => !old.groups.contains_key(n),
            _ => false,
        }),
    }
}

/// A cache that keeps one that keeps `a` keeps `a`.
pub proof fn lemma_users_extend_trans(a: UsersView, b: UsersView, c: UsersView)
    requires
        users_extend(a, b),
        users_extend(b, c),
    ensures
        users_extend(a, c),
{
    assert forall|k: Seq<char>| #[trigger] a.by_name.contains_key(k) implies c.by_name.contains_key(k)
        && c.by_name[k] == a.by_name[k] by {
        assert(b.by_name.contains_key(k));
    }
    assert forall|k: u32| #[trigger] a.by_uid.contains_key(k) implies c.by_uid.contains_key(k)
        && c.by_uid[k] == a.by_uid[k] by {
        assert(b.by_uid.contains_key(k));
    }
    assert forall|k: Seq<char>| #[trigger] a.groups.contains_key(k) implies c.groups.contains_key(k)
        && c.groups[k] == a.groups[k] by {
        assert(b.groups.contains_key(k));
    }
}

/// An error found after a cache that keeps `a` is an error found after `a`.
pub proof fn lemma_owner_error_extend(owner: OwnerView, a: UsersView, b: UsersView, c: UsersView, e: OwnerError)
    requires
        users_extend(a, b),
        owner_error(owner, b, c, e),
    ensures
        owner_error(owner, a, c, e),
{
    match e {
        OwnerError::Lookup(_) => {
            match owner.user {
                Some(OwnerIdentView::Id(u)) => {
                    if a.by_uid.contains_key(u) {
                        assert(b.by_uid.contains_key(u));
                    }
                },
                Some(OwnerIdentView::Name(n)) => {
                    if a.by_name.contains_key(n) {
                        assert(b.by_name.contains_key(n));
                    }
                },
                None => {},
            }
            match owner.group {
                Some(OwnerGroupView::Ident(OwnerIdentView::Name(n))) => {
                    if a.groups.contains_key(n) {
                        assert(b.groups.contains_key(n));
                    }
                },
                _ => {},
            }
        },
        _ => {},
    }
}

/// An owner the cache `a` can answer for, any cache that keeps `a` can.
pub proof fn lemma_owner_cached_extend(owner: OwnerView, a: UsersView, b: UsersView)
    requires
        users_extend(a, b),
        owner_cached(owner, a),
    ensures
        owner_cached(owner, b),
{
    match owner.user {
        Some(OwnerIdentView::Id(u)) => {
            assert(a.by_uid.contains_key(u));
        },
        Some(OwnerIdentView::Name(n)) => {
            assert(a.by_name.contains_key(n));
        },
        None => {},
    }
    match owner.group {
        Some(OwnerGroupView::Ident(OwnerIdentView::Name(n))) => {
            assert(a.groups.contains_key(n));
        },
        _ => {},
    }
}

/// Ids found from a cache stay the ids found from any cache that keeps it.
pub proof fn lemma_ids_from_users_extend(
    owner: OwnerView,
    c: UsersView,
    d: UsersView,
    ids: OwnerIdsView,
)
    requires
        ids_from_users(owner, c, ids),
        users_extend(c, d),
    ensures
        ids_from_users(owner, d, ids),
{
    let (user, group_gid) = choose|user: Option<UserIds>, group_gid: Option<u32>|
        user_matches(owner, c, user) && group_matches(owner, c, group_gid)
            && #[trigger] spec_owner_ids(owner, current_user(c), user, group_gid) == ids;
    assert(current_user(d) == current_user(c));
    assert(user_matches(owner, d, user));
    assert(group_matches(owner, d, group_gid));
    assert(spec_owner_ids(owner, current_user(d), user, group_gid) == ids);
}

/// The current user's id, by `nix::unistd::getuid`; it depends on the
/// process, so nothing is stated of it.
#[verifier::external_body]
fn current_uid() -> (r: u32) {
    nix::unistd::getuid().as_raw()
}

/// The current user's group id, by `nix::unistd::getgid`; it depends on
/// the process, so nothing is stated of it.
#[verifier::external_body]
fn current_gid() -> (r: u32) {
    nix::unistd::getgid().as_raw()
}

/// The users and groups looked up so far, so that each is looked up once;
/// a name or id that doesn't exist is remembered as `None`.
pub struct Users {
    uid: Option<u32>,
    gid: Option<u32>,
    by_name: SortedMap<String, Option<UserIds>>,
    by_uid: SortedMap<u32, Option<UserIds>>,
    groups: SortedMap<String, Option<u32>>,
}

/// What the cache holds.
#[verifier::ext_equal]
pub struct UsersView {
    pub uid: Option<u32>,
    pub gid: Option<u32>,
    pub by_name: Map<Seq<char>, Option<UserIds>>,
    pub by_uid: Map<u32, Option<UserIds>>,
    pub groups: Map<Seq<char>, Option<u32>>,
}

impl View for Users {
    type V = UsersView;

    closed spec fn view(&self) -> UsersView {
        UsersView {
            uid: self.uid,
            gid: self.gid,
            by_name: self.by_name@,
            by_uid: self.by_uid@,
            groups: self.groups@,
        }
    }
}

impl Users {
    /// The cache's well-formedness.
    pub closed spec fn wf(&self) -> bool {
        self.by_name.wf() && self.by_uid.wf() && self.groups.wf()
    }

    /// An empty cache.
    pub fn new() -> (r: Users)
        ensures
            r.wf(),
            r@ == (UsersView {
                uid: None,
                gid: None,
                by_name: Map::empty(),
                by_uid: Map::empty(),
                groups: Map::empty(),
            }),
    {
        let r = Users {
            uid: None,
            gid: None,
            by_name: SortedMap::new(),
            by_uid: SortedMap::new(),
            groups: SortedMap::new(),
        };
        assert(r@ =~= UsersView {
            uid: None,
            gid: None,
            by_name: Map::empty(),
            by_uid: Map::empty(),
            groups: Map::empty(),
        });
        r
    }

    /// The current user's id, asked for once.
    pub fn uid(&mut self) -> (r: u32)
        requires
            old(self).wf(),
        ensures
            final(self).wf(),
            old(self)@.uid matches Some(u) ==> r == u,
            final(self)@ == (UsersView { uid: Some(r), ..old(self)@ }),
            users_extend(old(self)@, final(self)@),
    {
        let r = match self.uid {
            Some(u) => u,
            None => current_uid(),
        };
        self.uid = Some(r);
        assert(self@ =~= UsersView { uid: Some(r), ..old(self)@ });
        r
    }

    /// The current user's group id, asked for once.
    pub fn gid(&mut self) -> (r: u32)
        requires
            old(self).wf(),
        ensures
            final(self).wf(),
            old(self)@.gid matches Some(g) ==> r == g,
            final(self)@ == (UsersView { gid: Some(r), ..old(self)@ }),
            users_extend(old(self)@, final(self)@),
    {
        let r = match self.gid {
            Some(g) => g,
            None => current_gid(),
        };
        self.gid = Some(r);
        assert(self@ =~= UsersView { gid: Some(r), ..old(self)@ });
        r
    }

    /// The user named `name`, looked up once: an error if there is none or
    /// the database can't be read (which isn't remembered). A user found is
    /// remembered by its id too, unless that id was looked up already.
    pub fn user_by_name(&mut self, name: &str) -> (r: Result<UserIds, OwnerError>)
        requires
            old(self).wf(),
        ensures
            final(self).wf(),
            old(self)@.by_name.contains_key(name@) ==> final(self)@ == old(self)@,
            users_extend(old(self)@, final(self)@),
            final(self)@.uid == old(self)@.uid && final(self)@.gid == old(self)@.gid,
            final(self)@.groups == old(self)@.groups,
            match r {
                Ok(u) => final(self)@.by_name.contains_key(name@) && final(self)@.by_name[name@]
                    == Some(u),
                Err(OwnerError::NoSuchUser(n)) => n@ == name@ && final(self)@.by_name.contains_key(
                    name@,
                ) && final(self)@.by_name[name@] is None,
                Err(OwnerError::Lookup(_)) => !old(self)@.by_name.contains_key(name@) && final(self)@ == old(self)@,
                Err(_) => false,
            },
    {
        let key = name.to_owned();
        if !self.by_name.contains_key(&key) {
            match lookup_user_by_name(name) {
                Ok(Some(user)) => {
                    self.by_name.insert(key.clone(), Some(user));
                    if !self.by_uid.contains_key(&user.uid) {
                        self.by_uid.insert(user.uid, Some(user));
                    }
                },
                Ok(None) => {
                    self.by_name.insert(key.clone(), None);
                },
                Err(e) => {
                    return Err(OwnerError::Lookup(e));
                },
            }
        }
        match self.by_name.get(&key) {
            Some(Some(user)) => Ok(*user),
            _ => Err(OwnerError::NoSuchUser(key)),
        }
    }

    /// The user with the id `uid`, looked up once: an error if there is none
    /// or the database can't be read (which isn't remembered).
    pub fn user_by_uid(&mut self, uid: u32) -> (r: Result<UserIds, OwnerError>)
        requires
            old(self).wf(),
        ensures
            final(self).wf(),
            old(self)@.by_uid.contains_key(uid) ==> final(self)@ == old(self)@,
            users_extend(old(self)@, final(self)@),
            final(self)@.uid == old(self)@.uid && final(self)@.gid == old(self)@.gid,
            final(self)@.groups == old(self)@.groups,
            match r {
                Ok(u) => final(self)@.by_uid.contains_key(uid) && final(self)@.by_uid[uid] == Some(u),
                Err(OwnerError::NoSuchUid(id)) => id == uid && final(self)@.by_uid.contains_key(uid)
                    && final(self)@.by_uid[uid] is None,
                Err(OwnerError::Lookup(_)) => !old(self)@.by_uid.contains_key(uid) && final(self)@
                    == old(self)@,
                Err(_) => false,
            },
    {
        if !self.by_uid.contains_key(&uid) {
            match lookup_user_by_uid(uid) {
                Ok(Some(user)) => {
                    self.by_uid.insert(uid, Some(user));
                },
                Ok(None) => {
                    self.by_uid.insert(uid, None);
                },
                Err(e) => {
                    return Err(OwnerError::Lookup(e));
                },
            }
        }
        match self.by_uid.get(&uid) {
            Some(Some(user)) => Ok(*user),
            _ => Err(OwnerError::NoSuchUid(uid)),
        }
    }

    /// The id of the group named `name`, looked up once: an error if there
    /// is none or the database can't be read (which isn't remembered).
    pub fn group_gid(&mut self, name: &str) -> (r: Result<u32, OwnerError>)
        requires
            old(self).wf(),
        ensures
            final(self).wf(),
            old(self)@.groups.contains_key(name@) ==> final(self)@ == old(self)@,
            users_extend(old(self)@, final(self)@),
            final(self)@.uid == old(self)@.uid && final(self)@.gid == old(self)@.gid,
            final(self)@.by_name == old(self)@.by_name && final(self)@.by_uid == old(self)@.by_uid,
            match r {
                Ok(g) => final(self)@.groups.contains_key(name@) && final(self)@.groups[name@] == Some(g),
                Err(OwnerError::NoSuchGroup(n)) => n@ == name@ && final(self)@.groups.contains_key(
                    name@,
                ) && final(self)@.groups[name@] is None,
                Err(OwnerError::Lookup(_)) => !old(self)@.groups.contains_key(name@) && final(self)@
                    == old(self)@,
                Err(_) => false,
            },
    {
        let key = name.to_owned();
        if !self.groups.contains_key(&key) {
            match lookup_group_gid(name) {
                Ok(found) => {
                    self.groups.insert(key.clone(), found);
                },
                Err(e) => {
                    return Err(OwnerError::Lookup(e));
                },
            }
        }
        match self.groups.get(&key) {
            Some(Some(gid)) => Ok(*gid),
            _ => Err(OwnerError::NoSuchGroup(key)),
        }
    }
}

} // verus!
