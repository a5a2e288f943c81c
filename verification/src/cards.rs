use vstd::prelude::*;
use crate::board::Side;
use crate::text::{decimal, lemma_lex_total, lemma_lex_trans, lex_le, name_le, str_equals, u8_to_string};
use crate::user::{Role, User, UserView, role_text, views};

verus! {

// ---------------------------------------------------------------------------
// Ordering users by name, stably.
// ---------------------------------------------------------------------------

/// `u` put into `s` after the last user whose name is not greater.
pub open spec fn insert_by_name(s: Seq<UserView>, u: UserView) -> Seq<UserView>
    decreases s.len(),
{
    if s.len() == 0 {
        seq![u]
    } else if lex_le(s.last().name, u.name) {
        s.push(u)
    } else {
        insert_by_name(s.drop_last(), u).push(s.last())
    }
}

/// The users ordered by name; users of equal names keep their order, as a
/// stable sort leaves them.
pub open spec fn sort_by_name(s: Seq<UserView>) -> Seq<UserView>
    decreases s.len(),
{
    if s.len() == 0 {
        s
    } else {
        insert_by_name(sort_by_name(s.drop_last()), s.last())
    }
}

/// The names are in order.
pub open spec fn sorted_by_name(s: Seq<UserView>) -> bool {
    forall|i: int, j: int| 0 <= i < j < s.len() ==> lex_le(#[trigger] s[i].name, #[trigger] s[j].name)
}

/// Where `insert_by_name` puts `u`.
pub open spec fn insert_pos(s: Seq<UserView>, u: UserView) -> int
    decreases s.len(),
{
    if s.len() == 0 {
        0
    } else if lex_le(s.last().name, u.name) {
        s.len() as int
    } else {
        insert_pos(s.drop_last(), u)
    }
}

proof fn lemma_insert_pos(s: Seq<UserView>, u: UserView)
    ensures
        0 <= insert_pos(s, u) <= s.len(),
        insert_by_name(s, u) == s.take(insert_pos(s, u)).push(u) + s.skip(insert_pos(s, u)),
    decreases s.len(),
{
    if s.len() == 0 {
        assert(insert_by_name(s, u) =~= s.take(0).push(u) + s.skip(0));
    } else if lex_le(s.last().name, u.name) {
        assert(insert_by_name(s, u) =~= s.take(s.len() as int).push(u) + s.skip(s.len() as int));
    } else {
        let t = s.drop_last();
        lemma_insert_pos(t, u);
        let p = insert_pos(t, u);
        assert(insert_by_name(s, u) =~= s.take(p).push(u) + s.skip(p));
    }
}

proof fn lemma_insert_sorted(s: Seq<UserView>, u: UserView)
    requires
        sorted_by_name(s),
    ensures
        sorted_by_name(insert_by_name(s, u)),
        insert_by_name(s, u).to_multiset() == s.to_multiset().insert(u),
    decreases s.len(),
{
    broadcast use vstd::seq_lib::group_to_multiset_ensures;

    let r = insert_by_name(s, u);
    if s.len() == 0 {
        assert(r =~= seq![u]);
        assert(Seq::<UserView>::empty().push(u) =~= seq![u]);
        assert(s =~= Seq::<UserView>::empty());
    } else if lex_le(s.last().name, u.name) {
        assert forall|i: int, j: int| 0 <= i < j < r.len() implies lex_le(#[trigger] r[i].name, #[trigger] r[j].name) by {
            if j == s.len() {
                if i < s.len() - 1 {
                    lemma_lex_trans(s[i].name, s.last().name, u.name);
                }
            }
        }
    } else {
        let t = s.drop_last();
        assert(sorted_by_name(t));
        lemma_insert_sorted(t, u);
        let q = insert_by_name(t, u);
        assert(r == q.push(s.last()));
        lemma_lex_total(s.last().name, u.name);
        assert(q.to_multiset() == t.to_multiset().insert(u));
        assert(s =~= t.push(s.last()));
        lemma_insert_pos(t, u);
        let p = insert_pos(t, u);
        assert forall|i: int, j: int| 0 <= i < j < r.len() implies lex_le(#[trigger] r[i].name, #[trigger] r[j].name) by {
            if j == r.len() - 1 {
                // r[j] is the last of s; every other entry is u or an entry of t.
                if i == p {
                    assert(r[i] == u);
                } else if i < p {
                    assert(r[i] == t[i]);
                    assert(lex_le(s[i].name, s.last().name));
                } else {
                    assert(r[i] == t[i - 1]);
                    assert(lex_le(s[i - 1].name, s.last().name));
                }
            }
        }
    }
}

/// Ordering by name keeps every user, and puts the names in order.
pub proof fn law_sort_by_name(s: Seq<UserView>)
    ensures
        sorted_by_name(sort_by_name(s)),
        sort_by_name(s).to_multiset() == s.to_multiset(),
        sort_by_name(s).len() == s.len(),
    decreases s.len(),
{
    broadcast use vstd::seq_lib::group_to_multiset_ensures;

    if s.len() > 0 {
        let t = s.drop_last();
        law_sort_by_name(t);
        lemma_insert_sorted(sort_by_name(t), s.last());
        lemma_insert_pos(sort_by_name(t), s.last());
        assert(s =~= t.push(s.last()));
    }
}

/// Inserts `u` into the ordered list as `insert_by_name` does.
fn insert_user(r: &mut Vec<User>, u: User)
    ensures
        views(final(r)@) == insert_by_name(views(old(r)@), u@),
{
    let ghost s = views(r@);
    let mut p: usize = r.len();
    proof {
        assert(s.take(p as int) =~= s);
    }
    while p > 0 && !name_le(r[p - 1].name(), u.name())
        invariant
            p <= r@.len(),
            s == views(r@),
            s.len() == r@.len(),
            insert_pos(s, u@) == insert_pos(s.take(p as int), u@),
        decreases p,
    {
        proof {
            assert(s.take(p as int).drop_last() =~= s.take(p - 1));
            assert(s.take(p as int).last() == r@[p - 1]@);
        }
        p = p - 1;
    }
    proof {
        lemma_insert_pos(s, u@);
        if p > 0 {
            assert(s.take(p as int).last() == r@[p - 1]@);
        }
        assert(insert_pos(s.take(p as int), u@) == p);
    }
    let ghost uv = u@;
    r.insert(p, u);
    proof {
        assert(views(r@) =~= s.take(p as int).push(uv) + s.skip(p as int));
    }
}

/// The users ordered by name, as `sort_by` on the names orders them.
pub fn sort_users_by_name(users: Vec<User>) -> (r: Vec<User>)
    ensures
        views(r@) == sort_by_name(views(users@)),
{
    let ghost s = views(users@);
    let mut r: Vec<User> = Vec::new();
    let mut i: usize = 0;
    while i < users.len()
        invariant
            i <= users@.len(),
            s == views(users@),
            s.len() == users@.len(),
            views(r@) == sort_by_name(s.take(i as int)),
        decreases users.len() - i,
    {
        let u = users[i].clone();
        proof {
            assert(u@ == s[i as int]);
            assert(s.take(i + 1).drop_last() =~= s.take(i as int));
            assert(s.take(i + 1).last() == s[i as int]);
        }
        insert_user(&mut r, u);
        i = i + 1;
    }
    proof {
        assert(s.take(i as int) =~= s);
    }
    r
}

// ---------------------------------------------------------------------------
// The cards of the users.
// ---------------------------------------------------------------------------

/// The state a voter's card is drawn in.
pub open spec fn card_state(show: bool, value: Option<u8>) -> Seq<char> {
    if show {
        "show"@
    } else if value is Some {
        "voted"@
    } else {
        "voting"@
    }
}

/// The text of an optional vote: its decimal writing, or nothing.
pub open spec fn vote_text(value: Option<u8>) -> Seq<char> {
    match value {
        Some(v) => decimal(v as nat),
        None => Seq::empty(),
    }
}

/// The text on a voter's card: the client always sees its own vote, and
/// sees the others' once the cards are shown.
pub open spec fn card_text(is_current: bool, show: bool, value: Option<u8>) -> Seq<char> {
    if is_current || show {
        vote_text(value)
    } else {
        Seq::empty()
    }
}

/// The client always sees the vote on its own card; once the cards are
/// shown it sees every vote; before that, others' cards are blank.
pub proof fn law_card_text_visibility(is_current: bool, show: bool, value: Option<u8>)
    ensures
        is_current ==> card_text(is_current, show, value) == match value {
            Some(v) => decimal(v as nat),
            None => Seq::<char>::empty(),
        },
        show ==> card_text(is_current, show, value) == match value {
            Some(v) => decimal(v as nat),
            None => Seq::<char>::empty(),
        },
        !is_current && !show ==> card_text(is_current, show, value).len() == 0,
{
}

/// The state a voter's card is drawn in.
pub fn card_state_of(show: bool, value: Option<u8>) -> (s: String)
    ensures
        s@ == card_state(show, value),
{
    if show {
        String::from_str("show")
    } else {
        match value {
            Some(_) => String::from_str("voted"),
            None => String::from_str("voting"),
        }
    }
}

/// The text on a voter's card.
pub fn card_text_of(is_current: bool, show: bool, value: Option<u8>) -> (s: String)
    ensures
        s@ == card_text(is_current, show, value),
        is_current || show ==> s@ == match value {
            Some(v) => decimal(v as nat),
            None => Seq::<char>::empty(),
        },
        !is_current && !show ==> s@.len() == 0,
{
    if is_current || show {
        match value {
            Some(v) => u8_to_string(v),
            None => String::new(),
        }
    } else {
        String::new()
    }
}

/// What is drawn for one user: the role (the article's class), the name and
/// the side it is written on, and for a voter the card's state and text.
pub struct Card {
    pub class: String,
    pub name: String,
    pub side: Side,
    pub vote: Option<(String, String)>,
}

/// What a card holds, as mathematical values.
pub struct CardView {
    pub class: Seq<char>,
    pub name: Seq<char>,
    pub side: Side,
    pub vote: Option<(Seq<char>, Seq<char>)>,
}

impl View for Card {
    type V = CardView;

    open spec fn view(&self) -> CardView {
        CardView {
            class: self.class@,
            name: self.name@,
            side: self.side,
            vote: match self.vote {
                Some((a, b)) => Some((a@, b@)),
                None => None,
            },
        }
    }
}

/// The card of `u`, seen by the client named `current`.
pub open spec fn card_of(u: UserView, current: Seq<char>, show: bool, side: Side) -> CardView {
    CardView {
        class: role_text(u.role),
        name: u.name,
        side,
        vote: match u.role {
            Role::Master => None,
            Role::Voter => Some((card_state(show, u.value), card_text(current == u.name, show, u.value))),
        },
    }
}

/// The card of one user, seen by the client named `current`.
pub fn user_card(user: &User, current: &str, show: bool, side: Side) -> (c: Card)
    ensures
        c@ == card_of(user@, current@, show, side),
{
    let vote = match user.role() {
        Role::Master => None,
        Role::Voter => {
            let is_current = str_equals(current, user.name());
            Some((card_state_of(show, user.value()), card_text_of(is_current, show, user.value())))
        },
    };
    Card { class: user.role().to_string(), name: String::from_str(user.name()), side, vote }
}

/// The cards of a column: the users ordered by name, each seen by the
/// client `this_user`.
pub fn user_cards(users: Vec<User>, this_user: &User, show: bool, side: Side) -> (cards: Vec<Card>)
    ensures
        cards@.len() == users@.len(),
        forall|i: int|
            0 <= i < cards@.len() ==> (#[trigger] cards@[i])@ == card_of(
                sort_by_name(views(users@))[i],
                this_user@.name,
                show,
                side,
            ),
{
    let sorted = sort_users_by_name(users);
    let ghost s = sort_by_name(views(users@));
    proof {
        law_sort_by_name(views(users@));
        assert(views(users@).len() == users@.len());
        assert(views(sorted@).len() == sorted@.len());
    }
    let mut cards: Vec<Card> = Vec::new();
    let mut i: usize = 0;
    while i < sorted.len()
        invariant
            i <= sorted@.len(),
            s == views(sorted@),
            s.len() == sorted@.len(),
            cards@.len() == i,
            forall|k: int| 0 <= k < i ==> (#[trigger] cards@[k])@ == card_of(s[k], this_user@.name, show, side),
        decreases sorted.len() - i,
    {
        let c = user_card(&sorted[i], this_user.name(), show, side);
        proof {
            assert(s[i as int] == sorted@[i as int]@);
        }
        cards.push(c);
        i = i + 1;
    }
    cards
}

} // verus!
