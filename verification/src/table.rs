use vstd::prelude::*;
use crate::text::{decimal, u8_to_string};
use crate::user::{Role, User, UserView, views};

verus! {

// ---------------------------------------------------------------------------
// Voters and the two columns.
// ---------------------------------------------------------------------------

/// The voters among the users, in their order.
pub open spec fn voters_of(s: Seq<UserView>) -> Seq<UserView>
    decreases s.len(),
{
    if s.len() == 0 {
        s
    } else if s.last().role == Role::Voter {
        voters_of(s.drop_last()).push(s.last())
    } else {
        voters_of(s.drop_last())
    }
}

/// The voters among the users, in their order.
pub fn voters(users: &Vec<User>) -> (r: Vec<User>)
    ensures
        views(r@) == voters_of(views(users@)),
        views(r@) == views(users@).filter(|u: UserView| u.role == Role::Voter),
{
    proof {
        law_voters_are_the_voters(views(users@));
    }
    let ghost s = views(users@);
    let mut r: Vec<User> = Vec::new();
    let mut i: usize = 0;
    while i < users.len()
        invariant
            i <= users@.len(),
            s == views(users@),
            s.len() == users@.len(),
            views(r@) == voters_of(s.take(i as int)),
        decreases users.len() - i,
    {
        proof {
            assert(s.take(i + 1).drop_last() =~= s.take(i as int));
            assert(s.take(i + 1).last() == s[i as int]);
            assert(s[i as int] == users@[i as int]@);
        }
        if users[i].role() == Role::Voter {
            let ghost before = r@;
            let u = users[i].clone();
            r.push(u);
            proof {
                assert(r@ == before.push(u));
                assert(views(r@) =~= views(before).push(u@));
            }
        }
        i = i + 1;
    }
    proof {
        assert(s.take(i as int) =~= s);
    }
    r
}

/// The left column: the first half of the voters, rounded down.
pub open spec fn left_column(s: Seq<UserView>) -> Seq<UserView> {
    voters_of(s).take((voters_of(s).len() / 2) as int)
}

/// The right column: the rest of the voters.
pub open spec fn right_column(s: Seq<UserView>) -> Seq<UserView> {
    voters_of(s).skip((voters_of(s).len() / 2) as int)
}

/// Only voters are among `voters_of`, and every voter is counted.
proof fn lemma_voters_of(s: Seq<UserView>)
    ensures
        forall|i: int| 0 <= i < voters_of(s).len() ==> (#[trigger] voters_of(s)[i]).role == Role::Voter,
        voters_of(s).len() <= s.len(),
    decreases s.len(),
{
    if s.len() > 0 {
        lemma_voters_of(s.drop_last());
    }
}

/// The two columns hold the voters, in order, each exactly once: the left
/// one the first half (rounded down), the right one the rest; every entry
/// is a voter.
pub proof fn law_columns_split_voters(s: Seq<UserView>)
    ensures
        left_column(s) + right_column(s) == voters_of(s),
        left_column(s).len() == voters_of(s).len() / 2,
        right_column(s).len() == voters_of(s).len() - voters_of(s).len() / 2,
        forall|i: int| 0 <= i < left_column(s).len() ==> (#[trigger] left_column(s)[i]).role == Role::Voter,
        forall|i: int| 0 <= i < right_column(s).len() ==> (#[trigger] right_column(s)[i]).role == Role::Voter,
{
    lemma_voters_of(s);
    let v = voters_of(s);
    let h = (v.len() / 2) as int;
    assert(v.take(h) + v.skip(h) =~= v);
    assert forall|i: int| 0 <= i < left_column(s).len() implies (#[trigger] left_column(s)[i]).role == Role::Voter by {
        assert(left_column(s)[i] == v[i]);
    }
    assert forall|i: int| 0 <= i < right_column(s).len() implies (#[trigger] right_column(s)[i]).role == Role::Voter by {
        assert(right_column(s)[i] == v[i + h]);
    }
}

/// The first `n` users of a list, and the rest.
fn split_users(users: Vec<User>, n: usize) -> (r: (Vec<User>, Vec<User>))
    requires
        n <= users@.len(),
    ensures
        views(r.0@) == views(users@).take(n as int),
        views(r.1@) == views(users@).skip(n as int),
{
    let mut left = users;
    let ghost s = left@;
    let right = left.split_off(n);
    proof {
        assert(left@ =~= s.take(n as int));
        assert(right@ =~= s.skip(n as int));
        assert(views(left@) =~= views(s).take(n as int));
        assert(views(right@) =~= views(s).skip(n as int));
    }
    (left, right)
}

/// The voters, split in two columns: the first half (rounded down) on the
/// left, the rest on the right.
pub fn split_voters(users: &Vec<User>) -> (r: (Vec<User>, Vec<User>))
    ensures
        views(r.0@) == left_column(views(users@)),
        views(r.1@) == right_column(views(users@)),
        views(r.0@) + views(r.1@) == views(users@).filter(|u: UserView| u.role == Role::Voter),
{
    proof {
        law_columns_hold_every_voter(views(users@));
    }
    let vs = voters(users);
    let half = vs.len() / 2;
    proof {
        assert(views(vs@).len() == vs@.len());
    }
    split_users(vs, half)
}

// ---------------------------------------------------------------------------
// The most common vote.
// ---------------------------------------------------------------------------

/// How many of the users voted `k`.
pub open spec fn votes_for(s: Seq<UserView>, k: u8) -> nat
    decreases s.len(),
{
    if s.len() == 0 {
        0
    } else {
        votes_for(s.drop_last(), k) + if s.last().value == Some(k) {
            1nat
        } else {
            0nat
        }
    }
}

proof fn lemma_votes_bounded(s: Seq<UserView>, k: u8)
    ensures
        votes_for(s, k) <= s.len(),
    decreases s.len(),
{
    if s.len() > 0 {
        lemma_votes_bounded(s.drop_last(), k);
    }
}

/// `k` is a most common vote, and the smallest of them; with no votes at
/// all this is 0.
pub open spec fn is_most_voted(s: Seq<UserView>, k: u8) -> bool {
    &&& forall|j: u8| votes_for(s, j) <= votes_for(s, k)
    &&& forall|j: u8| j < k ==> votes_for(s, j) < votes_for(s, k)
}

/// The vote that `is_most_voted` picks out.
pub open spec fn top_vote(s: Seq<UserView>) -> u8 {
    choose|k: u8| is_most_voted(s, k)
}

/// At most one vote is the most voted.
pub proof fn lemma_most_voted_unique(s: Seq<UserView>, a: u8, b: u8)
    requires
        is_most_voted(s, a),
        is_most_voted(s, b),
    ensures
        a == b,
{
    if a < b {
        assert(votes_for(s, a) < votes_for(s, b));
        assert(votes_for(s, b) <= votes_for(s, a));
    } else if b < a {
        assert(votes_for(s, b) < votes_for(s, a));
        assert(votes_for(s, a) <= votes_for(s, b));
    }
}

/// The vote that most users gave; among votes given equally often, the
/// smallest; 0 when nobody voted.
pub fn most_voted(users: &Vec<User>) -> (r: u8)
    ensures
        is_most_voted(views(users@), r),
        r == top_vote(views(users@)),
        (exists|i: int| 0 <= i < users@.len() && (#[trigger] users@[i]@.value) is Some) ==> exists|i: int|
            0 <= i < users@.len() && #[trigger] users@[i]@.value == Some(r),
        (forall|i: int| 0 <= i < users@.len() ==> (#[trigger] users@[i]@.value) is None) ==> r == 0,
{
    let ghost s = views(users@);
    let mut counts: Vec<usize> = Vec::new();
    let mut k: usize = 0;
    while k < 256
        invariant
            k <= 256,
            counts@.len() == k,
            forall|j: int| 0 <= j < k ==> counts@[j] == 0,
        decreases 256 - k,
    {
        counts.push(0);
        k = k + 1;
    }
    let mut i: usize = 0;
    while i < users.len()
        invariant
            i <= users@.len(),
            s == views(users@),
            s.len() == users@.len(),
            counts@.len() == 256,
            forall|j: u8| #[trigger] counts@[j as int] == votes_for(s.take(i as int), j),
        decreases users.len() - i,
    {
        proof {
            assert(s.take(i + 1).drop_last() =~= s.take(i as int));
            assert(s.take(i + 1).last() == s[i as int]);
            assert(s[i as int] == users@[i as int]@);
        }
        match users[i].value() {
            Some(v) => {
                let idx = v as usize;
                proof {
                    lemma_votes_bounded(s.take(i as int), v);
                    assert(counts@[v as int] == votes_for(s.take(i as int), v));
                }
                let c = counts[idx];
                counts.set(idx, c + 1);
                proof {
                    assert forall|j: u8| #[trigger] counts@[j as int] == votes_for(s.take(i + 1), j) by {
                        if j != v {
                            assert(counts@[j as int] == votes_for(s.take(i as int), j));
                        }
                    }
                }
            },
            None => {
                proof {
                    assert forall|j: u8| #[trigger] counts@[j as int] == votes_for(s.take(i + 1), j) by {
                        assert(counts@[j as int] == votes_for(s.take(i as int), j));
                    }
                }
            },
        }
        i = i + 1;
    }
    proof {
        assert(s.take(i as int) =~= s);
    }
    let mut max_k: u8 = 0;
    let mut max_v: usize = counts[0];
    proof {
        assert(counts@[0u8 as int] == votes_for(s, 0u8));
    }
    let mut k: usize = 1;
    while k < 256
        invariant
            1 <= k <= 256,
            counts@.len() == 256,
            forall|j: u8| #[trigger] counts@[j as int] == votes_for(s, j),
            max_v == votes_for(s, max_k),
            (max_k as int) < k,
            forall|j: u8| (j as int) < k ==> votes_for(s, j) <= max_v,
            forall|j: u8| j < max_k ==> votes_for(s, j) < max_v,
        decreases 256 - k,
    {
        let c = counts[k];
        proof {
            let kk = k as u8;
            assert(counts@[kk as int] == votes_for(s, kk));
        }
        if c > max_v {
            max_v = c;
            max_k = k as u8;
        }
        k = k + 1;
    }
    proof {
        assert forall|j: u8| votes_for(s, j) <= votes_for(s, max_k) by {
            assert((j as int) < 256);
        }
        assert(is_most_voted(s, max_k));
        lemma_most_voted_unique(s, max_k, top_vote(s));
        law_most_voted_is_a_vote(s, max_k);
        assert forall|i: int| 0 <= i < users@.len() implies #[trigger] users@[i]@ == s[i] by {}
    }
    max_k
}

// ---------------------------------------------------------------------------
// Laws of the table.
// ---------------------------------------------------------------------------

/// `voters_of` keeps exactly the users whose role is `Voter`, in order:
/// every voter is there and nobody else.
pub proof fn law_voters_are_the_voters(s: Seq<UserView>)
    ensures
        voters_of(s) == s.filter(|u: UserView| u.role == Role::Voter),
    decreases s.len(),
{
    let p = |u: UserView| u.role == Role::Voter;
    if s.len() > 0 {
        law_voters_are_the_voters(s.drop_last());
        reveal(Seq::filter);
        assert(s.drop_last().filter(p) == voters_of(s.drop_last()));
        assert(s.filter(p) == (if p(s.last()) {
            s.drop_last().filter(p).push(s.last())
        } else {
            s.drop_last().filter(p)
        }));
    } else {
        reveal(Seq::filter);
        assert(s.filter(p) == s);
    }
}

/// The two columns together hold every voter of the room, in order, and
/// nobody else; the left one holds the first half, rounded down.
pub proof fn law_columns_hold_every_voter(s: Seq<UserView>)
    ensures
        left_column(s) + right_column(s) == s.filter(|u: UserView| u.role == Role::Voter),
        left_column(s).len() == s.filter(|u: UserView| u.role == Role::Voter).len() / 2,
{
    law_voters_are_the_voters(s);
    law_columns_split_voters(s);
}

/// A count of votes for `k` is the number of users whose vote is `k`; a user
/// who has not voted counts toward no value.
pub proof fn law_votes_count_users_who_voted(s: Seq<UserView>, k: u8)
    ensures
        votes_for(s, k) == s.filter(|u: UserView| u.value == Some(k)).len(),
    decreases s.len(),
{
    let p = |u: UserView| u.value == Some(k);
    if s.len() > 0 {
        law_votes_count_users_who_voted(s.drop_last(), k);
        reveal(Seq::filter);
        assert(s.drop_last().filter(p).len() == votes_for(s.drop_last(), k));
        assert(s.filter(p) == (if p(s.last()) {
            s.drop_last().filter(p).push(s.last())
        } else {
            s.drop_last().filter(p)
        }));
    } else {
        reveal(Seq::filter);
        assert(s.filter(p) == s);
    }
}

proof fn lemma_votes_positive(s: Seq<UserView>, k: u8)
    ensures
        votes_for(s, k) > 0 <==> exists|i: int| 0 <= i < s.len() && #[trigger] s[i].value == Some(k),
    decreases s.len(),
{
    if s.len() > 0 {
        let t = s.drop_last();
        lemma_votes_positive(t, k);
        if exists|i: int| 0 <= i < t.len() && #[trigger] t[i].value == Some(k) {
            let i = choose|i: int| 0 <= i < t.len() && #[trigger] t[i].value == Some(k);
            assert(s[i] == t[i]);
        }
        if exists|i: int| 0 <= i < s.len() && #[trigger] s[i].value == Some(k) {
            let i = choose|i: int| 0 <= i < s.len() && #[trigger] s[i].value == Some(k);
            if i < t.len() {
                assert(t[i] == s[i]);
            }
        }
    }
}

/// The most voted value is a vote that some user gave, whenever anybody
/// voted; when nobody voted it is 0.
pub proof fn law_most_voted_is_a_vote(s: Seq<UserView>, k: u8)
    requires
        is_most_voted(s, k),
    ensures
        (exists|i: int| 0 <= i < s.len() && (#[trigger] s[i].value) is Some) ==> exists|i: int|
            0 <= i < s.len() && #[trigger] s[i].value == Some(k),
        (forall|i: int| 0 <= i < s.len() ==> (#[trigger] s[i].value) is None) ==> k == 0,
{
    if exists|i: int| 0 <= i < s.len() && (#[trigger] s[i].value) is Some {
        let i = choose|i: int| 0 <= i < s.len() && (#[trigger] s[i].value) is Some;
        let v = s[i].value.unwrap();
        lemma_votes_positive(s, v);
        assert(votes_for(s, v) <= votes_for(s, k));
        lemma_votes_positive(s, k);
    }
    if forall|i: int| 0 <= i < s.len() ==> (#[trigger] s[i].value) is None {
        if k > 0 {
            lemma_votes_positive(s, 0);
            lemma_votes_positive(s, k);
            if votes_for(s, k) > 0 {
                let i = choose|i: int| 0 <= i < s.len() && #[trigger] s[i].value == Some(k);
                assert(s[i].value is None);
            }
            assert(votes_for(s, 0u8) < votes_for(s, k));
        }
    }
}

/// The center card is blank while the cards are hidden, whatever the votes;
/// once they are shown it holds the vote's decimal writing.
pub proof fn law_center_blank_until_shown(show: bool, value: u8)
    ensures
        !show ==> center_text(show, value).len() == 0,
        show ==> center_text(show, value) == decimal(value as nat),
{
}

// ---------------------------------------------------------------------------
// The scrum master and the table.
// ---------------------------------------------------------------------------

/// The position of the first scrum master among the users, if any.
pub fn master_index(users: &Vec<User>) -> (r: Option<usize>)
    ensures
        match r {
            Some(i) => i < users@.len() && users@[i as int]@.role == Role::Master && forall|j: int|
                0 <= j < i ==> users@[j]@.role != Role::Master,
            None => forall|j: int| 0 <= j < users@.len() ==> users@[j]@.role != Role::Master,
        },
{
    let mut i: usize = 0;
    while i < users.len()
        invariant
            i <= users@.len(),
            forall|j: int| 0 <= j < i ==> users@[j]@.role != Role::Master,
        decreases users.len() - i,
    {
        if users[i].role() == Role::Master {
            return Some(i);
        }
        i = i + 1;
    }
    None
}

/// The text of the center card: the most common vote once the cards are
/// shown, nothing before.
pub open spec fn center_text(show: bool, value: u8) -> Seq<char> {
    if show {
        decimal(value as nat)
    } else {
        Seq::empty()
    }
}

/// What the table shows to a client: whether the client is the scrum
/// master, the scrum master's room code and name, the voters in two columns,
/// whether there are no voters, and the text of the center card.
pub struct TableView {
    pub is_master: bool,
    pub code: String,
    pub master_name: String,
    pub left: Vec<User>,
    pub right: Vec<User>,
    pub empty_room: bool,
    pub center: String,
}

/// Lays the table out for `user` from the users of its room.
pub fn table_view(user: &User, users: &Vec<User>, show: bool) -> (t: TableView)
    ensures
        t.is_master == (user@.role == Role::Master),
        match master_index_spec(views(users@)) {
            Some(i) => t.code@ == views(users@)[i].room && t.master_name@ == views(users@)[i].name,
            None => t.code@ == Seq::<char>::empty() && t.master_name@ == Seq::<char>::empty(),
        },
        views(t.left@) == left_column(views(users@)),
        views(t.right@) == right_column(views(users@)),
        t.empty_room == (voters_of(views(users@)).len() == 0),
        t.center@ == center_text(show, top_vote(views(users@))),
        !show ==> t.center@.len() == 0,
        show ==> t.center@ == decimal(top_vote(views(users@)) as nat),
{
    let (left, right) = split_voters(users);
    let empty_room = left.len() == 0 && right.len() == 0;
    proof {
        assert(views(left@).len() == left@.len());
        assert(views(right@).len() == right@.len());
    }
    let (code, master_name) = match master_index(users) {
        Some(i) => {
            proof {
                lemma_master_index(views(users@), i as int);
            }
            (String::from_str(users[i].room()), String::from_str(users[i].name()))
        },
        None => {
            proof {
                lemma_no_master(views(users@));
            }
            (String::new(), String::new())
        },
    };
    let value = most_voted(users);
    let center = if show {
        u8_to_string(value)
    } else {
        String::new()
    };
    TableView {
        is_master: user.role() == Role::Master,
        code,
        master_name,
        left,
        right,
        empty_room,
        center,
    }
}

/// The position of the first scrum master, as a function of the users.
pub open spec fn master_index_spec(s: Seq<UserView>) -> Option<int> {
    if exists|i: int| 0 <= i < s.len() && #[trigger] s[i].role == Role::Master {
        Some(
            choose|i: int|
                0 <= i < s.len() && #[trigger] s[i].role == Role::Master && forall|j: int|
                    0 <= j < i ==> s[j].role != Role::Master,
        )
    } else {
        None
    }
}

proof fn lemma_master_index(s: Seq<UserView>, i: int)
    requires
        0 <= i < s.len(),
        s[i].role == Role::Master,
        forall|j: int| 0 <= j < i ==> s[j].role != Role::Master,
    ensures
        master_index_spec(s) == Some(i),
{
    assert(exists|i: int| 0 <= i < s.len() && #[trigger] s[i].role == Role::Master);
    let k = choose|k: int|
        0 <= k < s.len() && #[trigger] s[k].role == Role::Master && forall|j: int|
            0 <= j < k ==> s[j].role != Role::Master;
    if k < i {
        assert(s[k].role != Role::Master);
    }
    if i < k {
        assert(s[i].role != Role::Master);
    }
}

proof fn lemma_no_master(s: Seq<UserView>)
    requires
        forall|j: int| 0 <= j < s.len() ==> s[j].role != Role::Master,
    ensures
        master_index_spec(s) is None,
{
}

/// The text of a card in the simple table: nothing for the scrum master, the
/// vote (0 before voting) for a voter.
pub fn plain_card_text(user: &User) -> (s: String)
    ensures
        s@ == match user@.role {
            Role::Master => Seq::<char>::empty(),
            Role::Voter => decimal(
                match user@.value {
                    Some(v) => v as nat,
                    None => 0nat,
                },
            ),
        },
{
    match user.role() {
        Role::Master => String::new(),
        Role::Voter => u8_to_string(
            match user.value() {
                Some(v) => v,
                None => 0,
            },
        ),
    }
}

} // verus!
