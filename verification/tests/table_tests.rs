use scrum_poker::board::Side;
use scrum_poker::cards::{card_state_of, card_text_of, sort_users_by_name, user_card, user_cards};
use scrum_poker::table::{master_index, most_voted, plain_card_text, split_voters, table_view, voters};
use scrum_poker::user::{Role, User};

fn voter(name: &str, value: Option<u8>) -> User {
    User::new(Role::Voter, name, value, "r")
}

fn names(users: &[User]) -> Vec<String> {
    users.iter().map(|u| u.name().to_string()).collect()
}

#[test]
fn voters_leave_out_the_master() {
    let users = vec![User::new(Role::Master, "sam", None, "r"), voter("ana", None), voter("bea", Some(3))];
    assert_eq!(names(&voters(&users)), vec!["ana", "bea"]);
}

#[test]
fn columns_split_the_voters_in_halves() {
    let users = vec![
        voter("a", None),
        User::new(Role::Master, "sam", None, "r"),
        voter("b", None),
        voter("c", None),
        voter("d", None),
        voter("e", None),
    ];
    let (left, right) = split_voters(&users);
    assert_eq!(names(&left), vec!["a", "b"]);
    assert_eq!(names(&right), vec!["c", "d", "e"]);
    let (left, right) = split_voters(&vec![voter("a", None)]);
    assert!(left.is_empty());
    assert_eq!(names(&right), vec!["a"]);
}

#[test]
fn most_voted_counts_votes() {
    let users = vec![voter("a", Some(5)), voter("b", Some(3)), voter("c", Some(5)), voter("d", None)];
    assert_eq!(most_voted(&users), 5);
}

#[test]
fn most_voted_breaks_ties_toward_the_smaller() {
    let users = vec![voter("a", Some(8)), voter("b", Some(3)), voter("c", Some(8)), voter("d", Some(3))];
    assert_eq!(most_voted(&users), 3);
}

#[test]
fn most_voted_without_votes_is_zero() {
    assert_eq!(most_voted(&vec![voter("a", None)]), 0);
    assert_eq!(most_voted(&vec![]), 0);
    assert_eq!(most_voted(&vec![voter("a", Some(255))]), 255);
}

#[test]
fn master_is_the_first_master() {
    let users = vec![voter("a", None), User::new(Role::Master, "sam", None, "r"), User::new(Role::Master, "sue", None, "q")];
    assert_eq!(master_index(&users), Some(1));
    assert_eq!(master_index(&vec![voter("a", None)]), None);
}

#[test]
fn table_for_the_master() {
    let me = User::new(Role::Master, "sam", None, "code-1");
    let users = vec![me.clone(), voter("ana", Some(2)), voter("bea", Some(2)), voter("cid", Some(1))];
    let t = table_view(&me, &users, false);
    assert!(t.is_master);
    assert_eq!(t.code, "code-1");
    assert_eq!(t.master_name, "sam");
    assert_eq!(names(&t.left), vec!["ana"]);
    assert_eq!(names(&t.right), vec!["bea", "cid"]);
    assert!(!t.empty_room);
    assert_eq!(t.center, "");
    let t = table_view(&me, &users, true);
    assert_eq!(t.center, "2");
}

#[test]
fn table_without_voters_or_master() {
    let me = voter("ana", None);
    let t = table_view(&me, &vec![], true);
    assert!(!t.is_master);
    assert!(t.empty_room);
    assert_eq!(t.code, "");
    assert_eq!(t.master_name, "");
    assert_eq!(t.center, "0");
}

#[test]
fn plain_card_texts() {
    assert_eq!(plain_card_text(&User::new(Role::Master, "sam", Some(3), "r")), "");
    assert_eq!(plain_card_text(&voter("a", Some(21))), "21");
    assert_eq!(plain_card_text(&voter("a", None)), "0");
}

#[test]
fn sort_orders_by_name_and_keeps_equal_names_in_order() {
    let users = vec![voter("cid", Some(1)), voter("ana", Some(1)), voter("bea", Some(1)), voter("ana", Some(2)), voter("Zed", None)];
    let sorted = sort_users_by_name(users);
    assert_eq!(names(&sorted), vec!["Zed", "ana", "ana", "bea", "cid"]);
    assert_eq!(sorted[1].value(), Some(1));
    assert_eq!(sorted[2].value(), Some(2));
}

#[test]
fn sort_matches_str_order() {
    let words = ["b", "ab", "a", "", "é", "z", "aa", "ä"];
    let users: Vec<User> = words.iter().map(|w| voter(w, None)).collect();
    let mut expected: Vec<String> = words.iter().map(|w| w.to_string()).collect();
    expected.sort();
    assert_eq!(names(&sort_users_by_name(users)), expected);
}

#[test]
fn card_states() {
    assert_eq!(card_state_of(true, None), "show");
    assert_eq!(card_state_of(false, Some(3)), "voted");
    assert_eq!(card_state_of(false, None), "voting");
}

#[test]
fn card_texts() {
    assert_eq!(card_text_of(true, false, Some(5)), "5");
    assert_eq!(card_text_of(false, false, Some(5)), "");
    assert_eq!(card_text_of(false, true, Some(5)), "5");
    assert_eq!(card_text_of(false, true, None), "");
}

#[test]
fn cards_for_a_column() {
    let me = voter("bea", Some(3));
    let users = vec![voter("cid", Some(8)), User::new(Role::Master, "sam", None, "r"), me.clone()];
    let cards = user_cards(users, &me, false, Side::Right);
    assert_eq!(cards.len(), 3);
    assert_eq!(cards[0].name, "bea");
    assert_eq!(cards[0].class, "Voter");
    assert_eq!(cards[0].vote, Some((String::from("voted"), String::from("3"))));
    assert_eq!(cards[1].name, "cid");
    assert_eq!(cards[1].vote, Some((String::from("voted"), String::new())));
    assert_eq!(cards[2].class, "Master");
    assert_eq!(cards[2].vote, None);
    assert_eq!(cards[2].side, Side::Right);
    let c = user_card(&voter("cid", None), "bea", true, Side::Left);
    assert_eq!(c.vote, Some((String::from("show"), String::new())));
}
