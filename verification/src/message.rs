use vstd::prelude::*;
use crate::user::{User, UserView, views};

verus! {

/// What a message sent to the server asks for.
#[derive(Clone, Copy, Debug, PartialEq, Eq, Structural)]
pub enum EventType {
    Start,
    Login,
    Select,
    Show,
    Restart,
}

impl Default for EventType {
    fn default() -> (r: EventType)
        ensures
            r == EventType::Login,
    {
        EventType::Login
    }
}

/// A message from a client to the server: an event and the user it speaks for.
#[derive(Debug)]
pub struct MessageText {
    pub message_type: EventType,
    pub user: User,
}

impl Default for MessageText {
    fn default() -> (r: MessageText)
        ensures
            r.message_type == EventType::Login,
            r.user@ == (UserView { role: crate::user::Role::Voter, name: Seq::empty(), room: Seq::empty(), value: None }),
    {
        MessageText { message_type: EventType::Login, user: User::default() }
    }
}

impl Clone for MessageText {
    fn clone(&self) -> (r: MessageText)
        ensures
            r.message_type == self.message_type,
            r.user@ == self.user@,
    {
        MessageText { message_type: self.message_type, user: self.user.clone() }
    }
}

/// A message from the server to a client: the room, whether the cards are
/// shown, and the users in the room.
#[derive(Debug)]
pub struct MessageBack {
    pub room: String,
    pub show: bool,
    pub users: Vec<User>,
}

impl Default for MessageBack {
    fn default() -> (r: MessageBack)
        ensures
            r.room@ == Seq::<char>::empty(),
            !r.show,
            r.users@.len() == 0,
    {
        MessageBack { room: String::new(), show: false, users: Vec::new() }
    }
}

/// A copy of a list of users, user by user.
pub fn clone_users(users: &Vec<User>) -> (r: Vec<User>)
    ensures
        views(r@) == views(users@),
{
    let mut r: Vec<User> = Vec::new();
    let mut i: usize = 0;
    while i < users.len()
        invariant
            i <= users.len(),
            r@.len() == i,
            views(r@) == views(users@).take(i as int),
        decreases users.len() - i,
    {
        let ghost before = r@;
        let u = users[i].clone();
        r.push(u);
        proof {
            assert(r@ == before.push(u));
            assert forall|k: int| 0 <= k < i + 1 implies views(r@)[k] == views(users@)[k] by {
                if k < i {
                    assert(views(before)[k] == views(users@).take(i as int)[k]);
                }
            }
            assert(views(r@) =~= views(users@).take(i + 1));
        }
        i = i + 1;
    }
    proof {
        assert(views(users@).take(i as int) =~= views(users@));
    }
    r
}

impl Clone for MessageBack {
    fn clone(&self) -> (r: MessageBack)
        ensures
            r.room@ == self.room@,
            r.show == self.show,
            views(r.users@) == views(self.users@),
    {
        MessageBack { room: self.room.clone(), show: self.show, users: clone_users(&self.users) }
    }
}

} // verus!
