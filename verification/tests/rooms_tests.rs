use scrum_poker::message::{EventType, MessageText};
use scrum_poker::rooms::AppState;
use scrum_poker::user::{Role, User};

fn names(users: &[User]) -> Vec<String> {
    users.iter().map(|u| u.name().to_string()).collect()
}

fn is_uuid_text(s: &str) -> bool {
    let cs: Vec<char> = s.chars().collect();
    cs.len() == 36
        && cs.iter().enumerate().all(|(i, c)| {
            if i == 8 || i == 13 || i == 18 || i == 23 {
                *c == '-'
            } else {
                c.is_ascii_digit() || ('a'..='f').contains(c)
            }
        })
        && cs[14] == '4'
        && "89ab".contains(cs[19])
}

#[test]
fn join_creates_the_room() {
    let mut s = AppState::new();
    assert!(s.find_room("r1").is_none());
    s.join(User::new(Role::Voter, "ana", None, "r1"));
    assert_eq!(s.find_room("r1"), Some(0));
    assert_eq!(names(&s.room_users("r1").unwrap()), vec!["ana"]);
}

#[test]
fn join_replaces_the_user_of_the_same_name() {
    let mut s = AppState::new();
    s.join(User::new(Role::Voter, "ana", None, "r1"));
    s.join(User::new(Role::Voter, "bea", None, "r1"));
    s.join(User::new(Role::Voter, "ana", Some(8), "r1"));
    let users = s.room_users("r1").unwrap();
    assert_eq!(names(&users), vec!["ana", "bea"]);
    assert_eq!(users[0].value(), Some(8));
}

#[test]
fn join_keeps_other_rooms() {
    let mut s = AppState::new();
    s.join(User::new(Role::Voter, "ana", None, "r1"));
    s.join(User::new(Role::Voter, "bea", None, "r2"));
    assert_eq!(names(&s.room_users("r1").unwrap()), vec!["ana"]);
    assert_eq!(names(&s.room_users("r2").unwrap()), vec!["bea"]);
    assert_eq!(s.find_room("r2"), Some(1));
}

#[test]
fn leave_removes_the_user_and_keeps_the_room() {
    let mut s = AppState::new();
    s.join(User::new(Role::Voter, "ana", None, "r1"));
    s.join(User::new(Role::Voter, "bea", None, "r1"));
    let left = s.leave(&User::new(Role::Voter, "ana", Some(3), "r1")).unwrap();
    assert_eq!(names(&left), vec!["bea"]);
    let left = s.leave(&User::new(Role::Voter, "bea", None, "r1")).unwrap();
    assert!(left.is_empty());
    assert_eq!(s.find_room("r1"), Some(0));
    assert!(s.leave(&User::new(Role::Voter, "bea", None, "nowhere")).is_none());
}

#[test]
fn leave_after_join_restores_the_room() {
    let mut s = AppState::new();
    s.join(User::new(Role::Voter, "ana", None, "r1"));
    let cid = User::new(Role::Voter, "cid", Some(2), "r1");
    s.join(cid.clone());
    s.leave(&cid);
    assert_eq!(names(&s.room_users("r1").unwrap()), vec!["ana"]);
}

#[test]
fn login_gives_a_master_the_fresh_room() {
    let mut s = AppState::new();
    let m = s.login(User::new(Role::Master, "sam", None, "old"), String::from("fresh"));
    assert_eq!(m.room(), "fresh");
    assert_eq!(names(&s.room_users("fresh").unwrap()), vec!["sam"]);
    let v = s.login(User::new(Role::Voter, "ana", None, "fresh"), String::from("other"));
    assert_eq!(v.room(), "fresh");
    assert_eq!(names(&s.room_users("fresh").unwrap()), vec!["sam", "ana"]);
}

#[test]
fn take_in_gives_a_master_a_random_room_code() {
    let mut s = AppState::new();
    let m = s.take_in(User::new(Role::Master, "sam", None, ""));
    assert!(is_uuid_text(m.room()));
    assert_eq!(m.name(), "sam");
    assert_eq!(m.role(), Role::Master);
    let m2 = s.take_in(User::new(Role::Master, "sue", None, ""));
    assert_ne!(m.room(), m2.room());
    let v = s.take_in(User::new(Role::Voter, "ana", Some(1), m.room()));
    assert_eq!(v.room(), m.room());
    assert_eq!(names(&s.room_users(m.room()).unwrap()), vec!["sam", "ana"]);
}

#[test]
fn receive_makes_the_message_user_the_session_user() {
    let mut s = AppState::new();
    let mut session: Option<User> = None;
    assert_eq!(s.receive(&mut session, None), None);
    assert!(session.is_none());
    let msg = MessageText { message_type: EventType::Login, user: User::new(Role::Voter, "ana", None, "r1") };
    let notify = s.receive(&mut session, Some(msg));
    assert_eq!(notify.as_deref(), Some("r1"));
    assert_eq!(session.as_ref().unwrap().name(), "ana");
    let notify = s.receive(&mut session, None);
    assert_eq!(notify.as_deref(), Some("r1"));
}

#[test]
fn snapshot_lists_the_session_room() {
    let mut s = AppState::new();
    let mut session: Option<User> = None;
    assert!(s.snapshot(&session).is_none());
    let msg = MessageText { message_type: EventType::Select, user: User::new(Role::Voter, "ana", Some(5), "r1") };
    s.receive(&mut session, Some(msg));
    let back = s.snapshot(&session).unwrap();
    assert_eq!(back.room, "r1");
    assert!(!back.show);
    assert_eq!(names(&back.users), vec!["ana"]);
    assert_eq!(back.users[0].value(), Some(5));
}

#[test]
fn disconnect_removes_the_session_user() {
    let mut s = AppState::new();
    let mut a: Option<User> = None;
    let mut b: Option<User> = None;
    s.receive(&mut a, Some(MessageText { message_type: EventType::Login, user: User::new(Role::Voter, "ana", None, "r1") }));
    s.receive(&mut b, Some(MessageText { message_type: EventType::Login, user: User::new(Role::Voter, "bea", None, "r1") }));
    let (room, users) = s.disconnect(&a).unwrap();
    assert_eq!(room, "r1");
    assert_eq!(names(&users), vec!["bea"]);
    assert!(s.disconnect(&None).is_none());
}
