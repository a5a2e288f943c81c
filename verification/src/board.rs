use vstd::prelude::*;
use vstd::utf8::encode_utf8;
use crate::message::{EventType, MessageBack};
use crate::rooms::{is_hex_lower, is_uuid_text};
use crate::user::{Role, User, UserView, views};

verus! {

/// Whether the client has a room to show.
#[derive(Clone, Copy, Debug, PartialEq, Eq, Structural)]
pub enum State {
    NotLogged,
    Logged,
}

impl Default for State {
    fn default() -> (r: State)
        ensures
            r == State::NotLogged,
    {
        State::NotLogged
    }
}

/// The column a card stands in; the name is written on the outer side.
#[derive(Clone, Copy, Debug, PartialEq, Eq, Structural)]
pub enum Side {
    Left,
    Right,
}

impl Default for Side {
    fn default() -> (r: Side)
        ensures
            r == Side::Left,
    {
        Side::Left
    }
}

// ---------------------------------------------------------------------------
// The login form.
// ---------------------------------------------------------------------------

/// The length of a text in UTF-8 bytes, as `str::len` returns it (a text
/// in memory never holds more bytes than a `usize` counts).
pub open spec fn byte_len(s: Seq<char>) -> nat {
    (encode_utf8(s).len() as usize) as nat
}

/// What the login form makes of its three fields: the scrum master's name,
/// the developer's name and the room code.
pub open spec fn login_outcome(master: Seq<char>, dev: Seq<char>, room: Seq<char>) -> Result<
    UserView,
    Seq<char>,
> {
    if master.len() == 0 && dev.len() == 0 && room.len() == 0 {
        Err("It is required to select either a Scrum Master name or a Developer name"@)
    } else if master.len() == 0 && dev.len() > 0 && room.len() == 0 {
        Err("If you are a Developer, ask the Scrum Master for the room code"@)
    } else if master.len() == 0 && dev.len() == 0 && room.len() > 0 {
        Err("Name input is required"@)
    } else if master.len() == 0 && dev.len() > 0 && byte_len(room) > 35 {
        Ok(UserView { role: Role::Voter, name: dev, room, value: None })
    } else if master.len() > 0 && dev.len() == 0 {
        Ok(UserView { role: Role::Master, name: master, room, value: None })
    } else {
        Err("Unexpected Error"@)
    }
}

/// Whatever the login form makes has not voted and carries the room field;
/// it makes a scrum master exactly from a master's name alone, and a voter
/// exactly from a developer's name alone with a room code of more than 35
/// bytes.
pub proof fn law_login_makes_unvoted_users(master: Seq<char>, dev: Seq<char>, room: Seq<char>)
    ensures
        login_outcome(master, dev, room) is Ok <==> ((master.len() > 0 && dev.len() == 0) || (master.len()
            == 0 && dev.len() > 0 && byte_len(room) > 35)),
        login_outcome(master, dev, room) matches Ok(u) ==> {
            &&& u.value is None
            &&& u.room == room
            &&& u.role == Role::Master ==> u.name == master && master.len() > 0 && dev.len() == 0
            &&& u.role == Role::Voter ==> u.name == dev && master.len() == 0 && dev.len() > 0
                && byte_len(room) > 35
        },
{
    if master.len() == 0 && dev.len() > 0 && room.len() == 0 {
        assert(byte_len(room) == 0) by {
            assert(room =~= Seq::<char>::empty());
            vstd::utf8::is_ascii_chars_encode_utf8(room);
        }
    }
}

/// Checks the login form and makes the user it describes, or the message
/// to show.
pub fn login_form(master_name: &str, dev_name: &str, room_code: &str) -> (r: Result<User, String>)
    ensures
        match r {
            Ok(u) => login_outcome(master_name@, dev_name@, room_code@) == Ok::<UserView, Seq<char>>(u@),
            Err(e) => login_outcome(master_name@, dev_name@, room_code@) == Err::<UserView, Seq<char>>(e@),
        },
        r matches Ok(u) ==> u@.value is None && u@.room == room_code@,
{
    let m = master_name.is_empty();
    let d = dev_name.is_empty();
    let c = room_code.is_empty();
    if m && d && c {
        Err(String::from_str("It is required to select either a Scrum Master name or a Developer name"))
    } else if m && !d && c {
        Err(String::from_str("If you are a Developer, ask the Scrum Master for the room code"))
    } else if m && d && !c {
        Err(String::from_str("Name input is required"))
    } else if m && !d && room_code.len() > 35 {
        Ok(User::new(Role::Voter, dev_name, None, room_code))
    } else if !m && d {
        Ok(User::new(Role::Master, master_name, None, room_code))
    } else {
        Err(String::from_str("Unexpected Error"))
    }
}

/// The room code a scrum master is given lets any developer in: with a name
/// in the developer field and that code in the room field (the master field
/// empty), the login form makes a voter of that room.
pub proof fn law_master_code_admits_voters(dev: Seq<char>, code: Seq<char>)
    requires
        dev.len() > 0,
        is_uuid_text(code),
    ensures
        login_outcome(Seq::empty(), dev, code) == Ok::<UserView, Seq<char>>(
            UserView { role: Role::Voter, name: dev, room: code, value: None },
        ),
{
    assert forall|i: int| 0 <= i < code.len() implies '\0' <= #[trigger] code[i] <= '\u{7f}' by {
        if i == 8 || i == 13 || i == 18 || i == 23 {
            assert(code[i] == '-');
        } else {
            assert(is_hex_lower(code[i]));
        }
    }
    vstd::utf8::is_ascii_chars_encode_utf8(code);
    assert(encode_utf8(code).len() == 36);
}

/// Which login fields are disabled: the scrum master's name once a
/// developer's name or a room code is typed, and the developer's fields once
/// a scrum master's name is typed.
pub fn disabled_fields(master_name: &str, dev_name: &str, room_code: &str) -> (r: (bool, bool))
    ensures
        r.0 == (dev_name@.len() > 0 || room_code@.len() > 0),
        r.1 == (master_name@.len() > 0),
{
    (!dev_name.is_empty() || !room_code.is_empty(), !master_name.is_empty())
}

/// The event the scrum master's button sends: `Restart` while the cards are
/// shown, `Show` before.
pub fn master_event(show: bool) -> (e: EventType)
    ensures
        e == if show { EventType::Restart } else { EventType::Show },
{
    if show {
        EventType::Restart
    } else {
        EventType::Show
    }
}

// ---------------------------------------------------------------------------
// The client's state.
// ---------------------------------------------------------------------------

/// What the client knows: its own user, the users of its room, whether the
/// cards are shown, the room code, and whether there is a room to show.
pub struct Board {
    pub this_user: Option<User>,
    pub users: Vec<User>,
    pub show: bool,
    pub room: String,
    pub state: State,
}

/// What the board holds, as mathematical values.
pub struct BoardView {
    pub this_user: Option<UserView>,
    pub users: Seq<UserView>,
    pub show: bool,
    pub room: Seq<char>,
    pub state: State,
}

impl View for Board {
    type V = BoardView;

    open spec fn view(&self) -> BoardView {
        BoardView {
            this_user: opt_view(self.this_user),
            users: views(self.users@),
            show: self.show,
            room: self.room@,
            state: self.state,
        }
    }
}

/// The board before any message, with `this_user` read from the token.
pub open spec fn initial_board(this_user: Option<UserView>) -> BoardView {
    BoardView { this_user, users: Seq::empty(), show: false, room: Seq::empty(), state: State::NotLogged }
}

/// The board after a message from the server with the room, the shown flag
/// and the users: the client's user moves to the room; the board shows a room
/// exactly when there are users; with no users the shown flag and the room
/// are cleared.
pub open spec fn received(b: BoardView, room: Seq<char>, show: bool, users: Seq<UserView>) -> BoardView {
    BoardView {
        this_user: match b.this_user {
            Some(u) => Some(UserView { room, ..u }),
            None => None,
        },
        users,
        show: if users.len() == 0 { false } else { show },
        room: if users.len() == 0 { Seq::empty() } else { room },
        state: if users.len() == 0 { State::NotLogged } else { State::Logged },
    }
}

/// The board after the messages, one after the other.
pub open spec fn received_all(b: BoardView, msgs: Seq<(Seq<char>, bool, Seq<UserView>)>) -> BoardView
    decreases msgs.len(),
{
    if msgs.len() == 0 {
        b
    } else {
        received_all(received(b, msgs[0].0, msgs[0].1, msgs[0].2), msgs.drop_first())
    }
}

/// The board is consistent: it shows a room exactly when it has users, and
/// with no users nothing is shown and there is no room code.
pub open spec fn settled(b: BoardView) -> bool {
    &&& (b.users.len() == 0) == (b.state == State::NotLogged)
    &&& b.users.len() == 0 ==> !b.show && b.room.len() == 0
}

/// Every board the client reaches is consistent: from the initial board,
/// after any sequence of messages, no users means the login form (not
/// logged), nothing shown and no room code, and users mean the table.
pub proof fn law_board_settled(this_user: Option<UserView>, msgs: Seq<(Seq<char>, bool, Seq<UserView>)>)
    ensures
        settled(received_all(initial_board(this_user), msgs)),
{
    lemma_received_all_settled(initial_board(this_user), msgs);
}

proof fn lemma_received_all_settled(b: BoardView, msgs: Seq<(Seq<char>, bool, Seq<UserView>)>)
    requires
        settled(b),
    ensures
        settled(received_all(b, msgs)),
    decreases msgs.len(),
{
    if msgs.len() > 0 {
        lemma_received_all_settled(received(b, msgs[0].0, msgs[0].1, msgs[0].2), msgs.drop_first());
    }
}

/// The view of an optional user.
pub open spec fn opt_view(u: Option<User>) -> Option<UserView> {
    match u {
        Some(x) => Some(x@),
        None => None,
    }
}

/// A copy of an optional user.
pub fn clone_opt(u: &Option<User>) -> (r: Option<User>)
    ensures
        opt_view(r) == opt_view(*u),
{
    match u {
        Some(x) => Some(x.clone()),
        None => None,
    }
}

impl Board {
    /// The board before any message: the user read from the saved token, if
    /// any, and nothing else.
    pub fn new(this_user: Option<User>) -> (b: Board)
        ensures
            b@ == initial_board(opt_view(this_user)),
            opt_view(b.this_user) == opt_view(this_user),
            b.users@.len() == 0,
            !b.show,
            b.room@ == Seq::<char>::empty(),
            b.state == State::NotLogged,
    {
        let b = Board { this_user, users: Vec::new(), show: false, room: String::new(), state: State::NotLogged };
        proof {
            assert(views(b.users@) =~= Seq::<UserView>::empty());
            assert(b.room@ =~= Seq::<char>::empty());
            assert(b@ == initial_board(opt_view(b.this_user)));
        }
        b
    }

    /// Takes in a message from the server: the client's user moves to the
    /// message's room; the users, the room and the shown flag are the
    /// message's; the board shows a room exactly when the message has users,
    /// and an empty message clears the shown flag and the room. Returns the
    /// client's user as it is now, to be saved as the token.
    pub fn receive(&mut self, message: MessageBack) -> (saved: Option<User>)
        ensures
            final(self)@ == received(old(self)@, message.room@, message.show, views(message.users@)),
            opt_view(final(self).this_user) == match opt_view(old(self).this_user) {
                Some(u) => Some(UserView { room: message.room@, ..u }),
                None => None::<UserView>,
            },
            opt_view(saved) == opt_view(final(self).this_user),
            views(final(self).users@) == views(message.users@),
            message.users@.len() == 0 ==> {
                &&& !final(self).show
                &&& final(self).room@ == Seq::<char>::empty()
                &&& final(self).state == State::NotLogged
            },
            message.users@.len() > 0 ==> {
                &&& final(self).show == message.show
                &&& final(self).room@ == message.room@
                &&& final(self).state == State::Logged
            },
    {
        let room_id = message.room.clone();
        let mut current = clone_opt(&self.this_user);
        match current {
            Some(ref mut u) => {
                u.set_room(room_id);
            },
            None => {},
        }
        self.this_user = clone_opt(&current);
        let size = message.users.len();
        self.show = message.show;
        self.room = message.room;
        self.users = message.users;
        if size == 0 {
            self.show = false;
            self.room = String::new();
            self.state = State::NotLogged;
        } else {
            self.state = State::Logged;
        }
        current
    }
}

} // verus!
