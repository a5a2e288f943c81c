use scrum_poker::board::{disabled_fields, login_form, master_event, Board, Side, State};
use scrum_poker::message::{EventType, MessageBack};
use scrum_poker::rooms::AppState;
use scrum_poker::user::{Role, User};

const CODE: &str = "123e4567-e89b-42d3-a456-426614174000";

#[test]
fn login_with_nothing_filled() {
    assert_eq!(
        login_form("", "", "").unwrap_err(),
        "It is required to select either a Scrum Master name or a Developer name"
    );
}

#[test]
fn login_developer_without_code() {
    assert_eq!(
        login_form("", "dev", "").unwrap_err(),
        "If you are a Developer, ask the Scrum Master for the room code"
    );
}

#[test]
fn login_code_without_name() {
    assert_eq!(login_form("", "", CODE).unwrap_err(), "Name input is required");
}

#[test]
fn login_developer_with_code() {
    let u = login_form("", "dev", CODE).unwrap();
    assert_eq!(u.role(), Role::Voter);
    assert_eq!(u.name(), "dev");
    assert_eq!(u.room(), CODE);
    assert_eq!(u.value(), None);
}

#[test]
fn login_developer_with_short_code() {
    assert_eq!(login_form("", "dev", "short").unwrap_err(), "Unexpected Error");
    // 35 bytes is one too few.
    assert_eq!(login_form("", "dev", &CODE[..35]).unwrap_err(), "Unexpected Error");
}

#[test]
fn login_code_length_counts_bytes() {
    // 18 two-byte characters are 36 bytes.
    let code = "é".repeat(18);
    assert!(login_form("", "dev", &code).is_ok());
}

#[test]
fn login_master() {
    let u = login_form("sam", "", "").unwrap();
    assert_eq!(u.role(), Role::Master);
    assert_eq!(u.name(), "sam");
    assert_eq!(u.room(), "");
}

#[test]
fn login_both_names() {
    assert_eq!(login_form("sam", "dev", "").unwrap_err(), "Unexpected Error");
}

#[test]
fn master_code_lets_a_developer_in() {
    let mut s = AppState::new();
    let m = s.take_in(User::new(Role::Master, "sam", None, ""));
    let v = login_form("", "dev", m.room()).unwrap();
    assert_eq!(v.room(), m.room());
    assert_eq!(v.role(), Role::Voter);
}

#[test]
fn receive_moves_the_user_to_the_room() {
    let mut b = Board::new(Some(User::new(Role::Voter, "ana", None, "")));
    assert_eq!(b.state, State::NotLogged);
    let msg = MessageBack {
        room: String::from("r1"),
        show: true,
        users: vec![User::new(Role::Voter, "ana", None, "r1")],
    };
    let saved = b.receive(msg).unwrap();
    assert_eq!(saved.room(), "r1");
    assert_eq!(b.this_user.as_ref().unwrap().room(), "r1");
    assert_eq!(b.state, State::Logged);
    assert!(b.show);
    assert_eq!(b.room, "r1");
    assert_eq!(b.users.len(), 1);
}

#[test]
fn receive_of_an_empty_room_logs_out() {
    let mut b = Board::new(None);
    let msg = MessageBack { room: String::from("r1"), show: true, users: vec![] };
    assert!(b.receive(msg).is_none());
    assert_eq!(b.state, State::NotLogged);
    assert!(!b.show);
    assert_eq!(b.room, "");
    assert!(b.this_user.is_none());
}

#[test]
fn defaults() {
    assert_eq!(State::default(), State::NotLogged);
    assert_eq!(Side::default(), Side::Left);
    let m = MessageBack::default();
    assert_eq!(m.room, "");
    assert!(!m.show);
    assert!(m.users.is_empty());
}

#[test]
fn disabled_fields_follow_what_is_typed() {
    assert_eq!(disabled_fields("", "", ""), (false, false));
    assert_eq!(disabled_fields("sam", "", ""), (false, true));
    assert_eq!(disabled_fields("", "dev", ""), (true, false));
    assert_eq!(disabled_fields("", "", "code"), (true, false));
}

#[test]
fn master_button_event() {
    assert_eq!(master_event(true), EventType::Restart);
    assert_eq!(master_event(false), EventType::Show);
}

#[test]
fn every_reached_board_is_settled() {
    let mut b = Board::new(Some(User::new(Role::Voter, "ana", None, "")));
    let msgs = vec![
        (String::from("r1"), true, vec![User::new(Role::Voter, "ana", None, "r1")]),
        (String::from("r2"), true, vec![]),
        (String::from("r3"), false, vec![User::new(Role::Master, "sam", None, "r3")]),
        (String::from(""), true, vec![]),
    ];
    for (room, show, users) in msgs {
        b.receive(MessageBack { room, show, users });
        assert_eq!(b.users.is_empty(), b.state == State::NotLogged);
        if b.users.is_empty() {
            assert!(!b.show);
            assert_eq!(b.room, "");
        }
    }
}
