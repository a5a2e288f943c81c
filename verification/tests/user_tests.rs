use scrum_poker::user::{Role, User};

#[test]
fn new_user_keeps_its_fields() {
    let u = User::new(Role::Voter, "ana", Some(5), "room-1");
    assert_eq!(u.role(), Role::Voter);
    assert_eq!(u.name(), "ana");
    assert_eq!(u.value(), Some(5));
    assert_eq!(u.room(), "room-1");
}

#[test]
fn setters_change_one_field_each() {
    let mut u = User::new(Role::Voter, "ana", None, "");
    u.set_role(Role::Master);
    assert_eq!(u.role(), Role::Master);
    u.set_name(String::from("bea"));
    assert_eq!(u.name(), "bea");
    u.set_value(Some(13));
    assert_eq!(u.value(), Some(13));
    u.set_room(String::from("r"));
    assert_eq!(u.room(), "r");
    assert_eq!(u.role(), Role::Master);
    assert_eq!(u.value(), Some(13));
}

#[test]
fn users_are_equal_when_names_are() {
    let a = User::new(Role::Voter, "ana", Some(1), "x");
    let b = User::new(Role::Master, "ana", None, "y");
    let c = User::new(Role::Voter, "bea", Some(1), "x");
    assert!(a == b);
    assert!(a != c);
}

#[test]
fn default_user_is_an_unnamed_voter() {
    let u = User::default();
    assert_eq!(u.role(), Role::Voter);
    assert_eq!(u.name(), "");
    assert_eq!(u.room(), "");
    assert_eq!(u.value(), None);
    assert_eq!(Role::default(), Role::Voter);
}

#[test]
fn clone_copies_every_field() {
    let u = User::new(Role::Master, "ana", Some(8), "r");
    let c = u.clone();
    assert_eq!(c.role(), Role::Master);
    assert_eq!(c.name(), "ana");
    assert_eq!(c.value(), Some(8));
    assert_eq!(c.room(), "r");
}

#[test]
fn role_text() {
    assert_eq!(Role::Master.to_string(), "Master");
    assert_eq!(Role::Voter.to_string(), "Voter");
}

#[test]
fn role_from_text() {
    assert_eq!(Role::try_from(String::from("Master")), Ok(Role::Master));
    assert_eq!(Role::try_from(String::from("Voter")), Ok(Role::Voter));
    assert_eq!(Role::try_from(String::from("voter")), Err("Invalid input for Role"));
    assert_eq!(Role::try_from(String::new()), Err("Invalid input for Role"));
}

#[test]
fn role_text_reads_back() {
    for r in [Role::Master, Role::Voter] {
        assert_eq!(Role::try_from(r.to_string()), Ok(r));
    }
}

#[test]
fn fields_survive_the_other_setters() {
    let mut u = User::new(Role::Voter, "ana", Some(2), "r1");
    u.set_role(Role::Master);
    u.set_value(Some(8));
    u.set_name(String::from("bea"));
    u.set_room(String::from("r2"));
    u.set_value(None);
    assert_eq!(u.role(), Role::Master);
    let mut w = User::new(Role::Voter, "cid", None, "r9");
    w.set_role(Role::Master);
    w.set_value(Some(5));
    assert_eq!(w.name(), "cid");
    assert_eq!(w.room(), "r9");
    w.set_name(String::from("dan"));
    assert_eq!(w.value(), Some(5));
}
