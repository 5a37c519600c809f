use decster::owner::{parse_u32, Owner, OwnerError, OwnerIdent, OwnerIds, ParseOwnerError, UserIds, Users};

#[test]
fn owner_parse() {
    assert_eq!(Owner::from_str(":"), Ok(Owner::default()));
    assert_eq!(Owner::from_str("user:"), Ok(Owner::user_with_login_group("user")));
    assert_eq!(Owner::from_str("user:group"), Ok(Owner::user_with_group("user", "group")));
    assert_eq!(Owner::from_str(":group"), Ok(Owner::group("group")));
    assert_eq!(Owner::from_str(""), Err(ParseOwnerError));
}

#[test]
fn owner_parse_user_only_and_ids() {
    assert_eq!(Owner::from_str("user"), Ok(Owner::user("user")));
    assert_eq!(Owner::from_str("1000:100"), Ok(Owner::user_with_group("1000", "100")));
    assert_eq!(OwnerIdent::from("1000"), OwnerIdent::Id(1000));
    assert_eq!(OwnerIdent::from("+7"), OwnerIdent::Id(7));
    assert_eq!(OwnerIdent::from("-7"), OwnerIdent::Name("-7".to_string()));
    assert_eq!(OwnerIdent::from("a:b"), OwnerIdent::Name("a:b".to_string()));
}

#[test]
fn parse_u32_like_std() {
    for s in ["0", "42", "+42", "4294967295", "4294967296", "", "+", "-1", "1a", "007", " 1"] {
        assert_eq!(parse_u32(s), s.parse::<u32>().ok(), "{s}");
    }
}

#[test]
fn owner_resolve_ids() {
    let me = UserIds { uid: 1000, gid: 100 };
    let other = UserIds { uid: 1001, gid: 101 };
    let owner = Owner::user_with_login_group("bob");
    let ids = owner.resolve_ids(me, Some(other), None);
    assert_eq!((ids.uid(), ids.gid()), (Some(1001), Some(101)));
    let ids = owner.resolve_ids(me, Some(me), None);
    assert_eq!((ids.uid(), ids.gid()), (None, None));
    assert!(!ids.changes_owner());
    let owner = Owner::group("5");
    let ids = owner.resolve_ids(me, None, None);
    assert_eq!((ids.uid(), ids.gid()), (None, Some(5)));
    let owner = Owner::group("wheel");
    let ids = owner.resolve_ids(me, None, Some(10));
    assert_eq!((ids.uid(), ids.gid()), (None, Some(10)));
    let ids = owner.resolve_ids(me, None, Some(100));
    assert_eq!((ids.uid(), ids.gid()), (None, None));
}

#[test]
fn owner_ids_without_lookups() {
    let mut users = Users::new();
    let ids = Owner::default().ids(&mut users).unwrap();
    assert_eq!((ids.uid(), ids.gid()), (None, None));
    let uid = users.uid();
    let gid = users.gid();
    assert_eq!(uid, users.uid());
    let other_gid = if gid == 20 { 21 } else { 20 };
    let ids = Owner::group(&other_gid.to_string()).ids(&mut users).unwrap();
    assert_eq!(ids.gid(), Some(other_gid));
    let meta = OwnerIds::from_metadata(3, 4);
    assert_eq!((meta.uid(), meta.gid()), (Some(3), Some(4)));
    assert!(meta.changes_owner());
}

#[test]
fn owner_ids_unknown_user() {
    let mut users = Users::new();
    let name = "no-such-user-for-decster-tests";
    match Owner::user(name).ids(&mut users) {
        Err(OwnerError::NoSuchUser(n)) => {
            assert_eq!(n, name);
            assert_eq!(users.user_by_name(name), Err(OwnerError::NoSuchUser(name.to_string())));
        }
        Err(OwnerError::Lookup(_)) => {}
        other => panic!("unexpected {other:?}"),
    }
    match users.group_gid("no-such-group-for-decster-tests") {
        Err(OwnerError::NoSuchGroup(_)) | Err(OwnerError::Lookup(_)) => {}
        other => panic!("unexpected {other:?}"),
    }
}

#[test]
fn current_user_lookup_is_cached() {
    let mut users = Users::new();
    let uid = users.uid();
    if let Ok(first) = users.user_by_uid(uid) {
        assert_eq!(users.user_by_uid(uid), Ok(first));
        assert_eq!(first.uid, uid);
        let ids = Owner::user(&uid.to_string()).ids(&mut users).unwrap();
        assert_eq!(ids.uid(), None);
    }
}
