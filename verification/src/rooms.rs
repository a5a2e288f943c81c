use vstd::prelude::*;
use crate::message::{MessageBack, MessageText, clone_users};
use crate::text::str_equals;
use crate::user::{Role, User, UserView, views};

verus! {

// ---------------------------------------------------------------------------
// The model: a room is an id and the users in it.
// ---------------------------------------------------------------------------

/// What a room holds, as mathematical values.
pub struct RoomView {
    pub id: Seq<char>,
    pub users: Seq<UserView>,
}

/// No two users of the sequence share a name.
pub open spec fn names_unique(s: Seq<UserView>) -> bool {
    forall|i: int, j: int|
        0 <= i < s.len() && 0 <= j < s.len() && i != j ==> #[trigger] s[i].name != #[trigger] s[j].name
}

/// Some user of the sequence has the name.
pub open spec fn has_name(s: Seq<UserView>, n: Seq<char>) -> bool {
    exists|j: int| 0 <= j < s.len() && #[trigger] s[j].name == n
}

/// The position of the user with the name (meaningful where `has_name`).
pub open spec fn name_at(s: Seq<UserView>, n: Seq<char>) -> int {
    choose|j: int| 0 <= j < s.len() && #[trigger] s[j].name == n
}

/// The users after `u` joins: `u` takes the place of the user with its name,
/// or comes last when there is none.
pub open spec fn upsert(s: Seq<UserView>, u: UserView) -> Seq<UserView> {
    if has_name(s, u.name) {
        s.update(name_at(s, u.name), u)
    } else {
        s.push(u)
    }
}

/// The users after the user with the name leaves.
pub open spec fn remove_name(s: Seq<UserView>, n: Seq<char>) -> Seq<UserView> {
    if has_name(s, n) {
        s.remove(name_at(s, n))
    } else {
        s
    }
}

/// No two rooms share an id.
pub open spec fn ids_unique(v: Seq<RoomView>) -> bool {
    forall|i: int, j: int|
        0 <= i < v.len() && 0 <= j < v.len() && i != j ==> #[trigger] v[i].id != #[trigger] v[j].id
}

/// The rooms are well formed: ids are unique, and names are unique in each room.
pub open spec fn rooms_ok(v: Seq<RoomView>) -> bool {
    &&& ids_unique(v)
    &&& forall|i: int| 0 <= i < v.len() ==> names_unique(#[trigger] v[i].users)
}

/// Some room has the id.
pub open spec fn has_room(v: Seq<RoomView>, id: Seq<char>) -> bool {
    exists|i: int| 0 <= i < v.len() && #[trigger] v[i].id == id
}

/// The position of the room with the id (meaningful where `has_room`).
pub open spec fn room_at(v: Seq<RoomView>, id: Seq<char>) -> int {
    choose|i: int| 0 <= i < v.len() && #[trigger] v[i].id == id
}

/// The rooms after `u` joins the room named by its room code: the room is
/// created with `u` alone when there is none.
pub open spec fn joined(v: Seq<RoomView>, u: UserView) -> Seq<RoomView> {
    if has_room(v, u.room) {
        let i = room_at(v, u.room);
        v.update(i, RoomView { id: v[i].id, users: upsert(v[i].users, u) })
    } else {
        v.push(RoomView { id: u.room, users: seq![u] })
    }
}

/// The rooms after `u` leaves the room named by its room code. The room
/// itself stays, empty or not.
pub open spec fn left(v: Seq<RoomView>, u: UserView) -> Seq<RoomView> {
    if has_room(v, u.room) {
        let i = room_at(v, u.room);
        v.update(i, RoomView { id: v[i].id, users: remove_name(v[i].users, u.name) })
    } else {
        v
    }
}

/// The users of the room with the id, where there is one.
pub open spec fn users_of(v: Seq<RoomView>, id: Seq<char>) -> Option<Seq<UserView>> {
    if has_room(v, id) {
        Some(v[room_at(v, id)].users)
    } else {
        None
    }
}

// ---------------------------------------------------------------------------
// Lemmas on the model.
// ---------------------------------------------------------------------------

proof fn lemma_name_at(s: Seq<UserView>, j: int)
    requires
        names_unique(s),
        0 <= j < s.len(),
    ensures
        has_name(s, s[j].name),
        name_at(s, s[j].name) == j,
{
    let k = name_at(s, s[j].name);
    assert(0 <= k < s.len() && s[k].name == s[j].name);
}

proof fn lemma_room_at(v: Seq<RoomView>, i: int)
    requires
        ids_unique(v),
        0 <= i < v.len(),
    ensures
        has_room(v, v[i].id),
        room_at(v, v[i].id) == i,
{
    let k = room_at(v, v[i].id);
    assert(0 <= k < v.len() && v[k].id == v[i].id);
}

proof fn lemma_upsert_unique(s: Seq<UserView>, u: UserView)
    requires
        names_unique(s),
    ensures
        names_unique(upsert(s, u)),
        has_name(upsert(s, u), u.name),
{
    let r = upsert(s, u);
    if has_name(s, u.name) {
        let j = name_at(s, u.name);
        assert(r[j].name == u.name);
    } else {
        assert(r[s.len() as int].name == u.name);
    }
}

proof fn lemma_remove_unique(s: Seq<UserView>, n: Seq<char>)
    requires
        names_unique(s),
    ensures
        names_unique(remove_name(s, n)),
        !has_name(remove_name(s, n), n),
{
    let r = remove_name(s, n);
    if has_name(s, n) {
        let j = name_at(s, n);
        assert forall|a: int, b: int|
            0 <= a < r.len() && 0 <= b < r.len() && a != b implies #[trigger] r[a].name != #[trigger] r[b].name by {
            let a2 = if a < j { a } else { a + 1 };
            let b2 = if b < j { b } else { b + 1 };
            assert(r[a] == s[a2] && r[b] == s[b2]);
        }
        if has_name(r, n) {
            let k = choose|k: int| 0 <= k < r.len() && #[trigger] r[k].name == n;
            let k2 = if k < j { k } else { k + 1 };
            assert(r[k] == s[k2]);
        }
    }
}

/// Joining keeps the rooms well formed, and the joined room exists after.
pub proof fn lemma_joined_ok(v: Seq<RoomView>, u: UserView)
    requires
        rooms_ok(v),
    ensures
        rooms_ok(joined(v, u)),
        has_room(joined(v, u), u.room),
{
    let w = joined(v, u);
    if has_room(v, u.room) {
        let i = room_at(v, u.room);
        lemma_upsert_unique(v[i].users, u);
        assert(w[i].id == u.room);
        assert forall|a: int| 0 <= a < w.len() implies names_unique(#[trigger] w[a].users) by {
            if a != i {
                assert(w[a] == v[a]);
            }
        }
    } else {
        assert(w[v.len() as int].id == u.room);
        assert forall|a: int, b: int|
            0 <= a < w.len() && 0 <= b < w.len() && a != b implies #[trigger] w[a].id != #[trigger] w[b].id by {
            if a < v.len() && b == v.len() {
                assert(v[a].id == w[a].id);
            }
            if b < v.len() && a == v.len() {
                assert(v[b].id == w[b].id);
            }
        }
        assert forall|a: int| 0 <= a < w.len() implies names_unique(#[trigger] w[a].users) by {
            if a < v.len() {
                assert(w[a] == v[a]);
            }
        }
    }
}

/// Leaving keeps the rooms well formed.
pub proof fn lemma_left_ok(v: Seq<RoomView>, u: UserView)
    requires
        rooms_ok(v),
    ensures
        rooms_ok(left(v, u)),
{
    let w = left(v, u);
    if has_room(v, u.room) {
        let i = room_at(v, u.room);
        lemma_remove_unique(v[i].users, u.name);
        assert forall|a: int| 0 <= a < w.len() implies names_unique(#[trigger] w[a].users) by {
            if a != i {
                assert(w[a] == v[a]);
            }
        }
    }
}

// ---------------------------------------------------------------------------
// Laws of the rooms.
// ---------------------------------------------------------------------------

/// After `u` joins, its room holds `u`, and no other user of its name.
pub proof fn law_join_then_present(v: Seq<RoomView>, u: UserView)
    requires
        rooms_ok(v),
    ensures
        users_of(joined(v, u), u.room) is Some,
        users_of(joined(v, u), u.room).unwrap().contains(u),
        forall|j: int|
            0 <= j < users_of(joined(v, u), u.room).unwrap().len() && (#[trigger] users_of(
                joined(v, u),
                u.room,
            ).unwrap()[j]).name == u.name ==> users_of(joined(v, u), u.room).unwrap()[j] == u,
{
    let w = joined(v, u);
    lemma_joined_ok(v, u);
    if has_room(v, u.room) {
        let i = room_at(v, u.room);
        assert(w[i].id == u.room);
        lemma_room_at(w, i);
        let us = upsert(v[i].users, u);
        lemma_upsert_unique(v[i].users, u);
        let k = if has_name(v[i].users, u.name) { name_at(v[i].users, u.name) } else { v[i].users.len() as int };
        assert(us[k] == u);
        assert forall|j: int| 0 <= j < us.len() && (#[trigger] us[j]).name == u.name implies us[j] == u by {
            if j != k {
                assert(us[j].name != us[k].name);
            }
        }
    } else {
        let i = v.len() as int;
        assert(w[i].id == u.room);
        lemma_room_at(w, i);
        assert(w[i].users[0] == u);
    }
}

/// Joining leaves every other room as it was.
pub proof fn law_join_keeps_other_rooms(v: Seq<RoomView>, u: UserView, id: Seq<char>)
    requires
        rooms_ok(v),
        id != u.room,
    ensures
        users_of(joined(v, u), id) == users_of(v, id),
{
    let w = joined(v, u);
    lemma_joined_ok(v, u);
    if has_room(v, id) {
        let i = room_at(v, id);
        assert(w[i] == v[i]);
        lemma_room_at(w, i);
    }
    if has_room(w, id) {
        let i = room_at(w, id);
        if i < v.len() {
            assert(w[i] == v[i]);
            lemma_room_at(v, i);
        }
    }
}

/// Leaving leaves every other room as it was.
pub proof fn law_leave_keeps_other_rooms(v: Seq<RoomView>, u: UserView, id: Seq<char>)
    requires
        rooms_ok(v),
        id != u.room,
    ensures
        users_of(left(v, u), id) == users_of(v, id),
{
    let w = left(v, u);
    lemma_left_ok(v, u);
    if has_room(v, id) {
        let i = room_at(v, id);
        assert(w[i] == v[i]);
        lemma_room_at(w, i);
    }
    if has_room(w, id) {
        let i = room_at(w, id);
        assert(w[i] == v[i]);
        lemma_room_at(v, i);
    }
}

/// After `u` leaves, no user of its name is left in its room.
pub proof fn law_leave_then_absent(v: Seq<RoomView>, u: UserView)
    requires
        rooms_ok(v),
    ensures
        users_of(left(v, u), u.room) matches Some(us) ==> !has_name(us, u.name),
{
    let w = left(v, u);
    lemma_left_ok(v, u);
    if has_room(v, u.room) {
        let i = room_at(v, u.room);
        lemma_remove_unique(v[i].users, u.name);
        assert(w[i].id == u.room);
        lemma_room_at(w, i);
    } else {
        assert(w == v);
    }
}

/// Rooms are never taken away: a room that exists still exists after any
/// user joins or leaves.
pub proof fn law_rooms_persist(v: Seq<RoomView>, u: UserView, id: Seq<char>)
    requires
        has_room(v, id),
    ensures
        has_room(joined(v, u), id),
        has_room(left(v, u), id),
{
    let i = choose|i: int| 0 <= i < v.len() && #[trigger] v[i].id == id;
    assert(joined(v, u)[i].id == id);
    assert(left(v, u)[i].id == id);
}

/// Leaving right after joining undoes the join, but for the room itself:
/// the rooms are as if `u` had left from the start, and a room that the join
/// created stays, empty.
pub proof fn law_leave_undoes_join(v: Seq<RoomView>, u: UserView)
    requires
        rooms_ok(v),
    ensures
        has_room(v, u.room) ==> left(joined(v, u), u) == left(v, u),
        !has_room(v, u.room) ==> left(joined(v, u), u) == v.push(
            RoomView { id: u.room, users: Seq::empty() },
        ),
{
    let w = joined(v, u);
    lemma_joined_ok(v, u);
    if has_room(v, u.room) {
        let i = room_at(v, u.room);
        assert(w[i].id == u.room);
        lemma_room_at(w, i);
        let s = v[i].users;
        let t = upsert(s, u);
        lemma_upsert_unique(s, u);
        if has_name(s, u.name) {
            let j = name_at(s, u.name);
            assert(t[j].name == u.name);
            lemma_name_at(t, j);
            assert(remove_name(t, u.name) =~= remove_name(s, u.name));
        } else {
            let j = s.len() as int;
            assert(t[j].name == u.name);
            lemma_name_at(t, j);
            assert(remove_name(t, u.name) =~= s);
        }
        assert(left(w, u) =~= left(v, u));
    } else {
        let i = v.len() as int;
        assert(w[i].id == u.room);
        lemma_room_at(w, i);
        let t = w[i].users;
        assert(t[0].name == u.name);
        lemma_name_at(t, 0);
        assert(remove_name(t, u.name) =~= Seq::<UserView>::empty());
        assert(left(w, u) =~= v.push(RoomView { id: u.room, users: Seq::empty() }));
    }
}

// ---------------------------------------------------------------------------
// Users of one room.
// ---------------------------------------------------------------------------

/// The position of the user named `name`, if any.
fn find_user(users: &Vec<User>, name: &str) -> (r: Option<usize>)
    requires
        names_unique(views(users@)),
    ensures
        match r {
            Some(j) => j < users@.len() && has_name(views(users@), name@) && j == name_at(
                views(users@),
                name@,
            ),
            None => !has_name(views(users@), name@),
        },
{
    let ghost s = views(users@);
    let mut j: usize = 0;
    while j < users.len()
        invariant
            j <= users@.len(),
            s == views(users@),
            s.len() == users@.len(),
            names_unique(s),
            forall|k: int| 0 <= k < j ==> #[trigger] s[k].name != name@,
        decreases users.len() - j,
    {
        if str_equals(users[j].name(), name) {
            proof {
                assert(s[j as int] == users@[j as int]@);
                lemma_name_at(s, j as int);
            }
            return Some(j);
        }
        proof {
            assert(s[j as int] == users@[j as int]@);
        }
        j = j + 1;
    }
    None
}

/// `u` joins the users: replaces the user of its name, or comes last.
fn upsert_user(users: &mut Vec<User>, u: User)
    requires
        names_unique(views(old(users)@)),
    ensures
        views(final(users)@) == upsert(views(old(users)@), u@),
{
    let ghost s = views(users@);
    match find_user(users, u.name()) {
        Some(j) => {
            let ghost uv = u@;
            users.set(j, u);
            proof {
                assert(views(users@) =~= s.update(j as int, uv));
            }
        },
        None => {
            let ghost uv = u@;
            users.push(u);
            proof {
                assert(views(users@) =~= s.push(uv));
            }
        },
    }
}

/// The user named `name` leaves the users, if there is one.
fn remove_user(users: &mut Vec<User>, name: &str)
    requires
        names_unique(views(old(users)@)),
    ensures
        views(final(users)@) == remove_name(views(old(users)@), name@),
{
    let ghost s = views(users@);
    match find_user(users, name) {
        Some(j) => {
            users.remove(j);
            proof {
                assert(views(users@) =~= s.remove(j as int));
            }
        },
        None => {},
    }
}

// ---------------------------------------------------------------------------
// The rooms of the server.
// ---------------------------------------------------------------------------

struct Room {
    id: String,
    users: Vec<User>,
}

impl Room {
    spec fn model(&self) -> RoomView {
        RoomView { id: self.id@, users: views(self.users@) }
    }
}

/// The rooms of the server, each with the users connected to it.
pub struct AppState {
    rooms: Vec<Room>,
}

impl View for AppState {
    type V = Seq<RoomView>;

    closed spec fn view(&self) -> Seq<RoomView> {
        self.rooms@.map_values(|r: Room| r.model())
    }
}

impl AppState {
    #[verifier::type_invariant]
    spec fn well_formed(&self) -> bool {
        rooms_ok(self@)
    }

    /// No rooms yet.
    pub fn new() -> (s: AppState)
        ensures
            s@ == Seq::<RoomView>::empty(),
    {
        let s = AppState { rooms: Vec::new() };
        proof {
            assert(s@ =~= Seq::<RoomView>::empty());
        }
        s
    }

    /// The position of the room with the id, if any.
    pub fn find_room(&self, id: &str) -> (r: Option<usize>)
        ensures
            rooms_ok(self@),
            match r {
                Some(i) => i < self@.len() && has_room(self@, id@) && i == room_at(self@, id@),
                None => !has_room(self@, id@),
            },
    {
        proof {
            use_type_invariant(self);
        }
        let ghost v = self@;
        let mut i: usize = 0;
        while i < self.rooms.len()
            invariant
                i <= self.rooms@.len(),
                v == self@,
                v.len() == self.rooms@.len(),
                rooms_ok(v),
                forall|k: int| 0 <= k < i ==> #[trigger] v[k].id != id@,
            decreases self.rooms.len() - i,
        {
            if str_equals(self.rooms[i].id.as_str(), id) {
                proof {
                    assert(v[i as int] == self.rooms@[i as int].model());
                    lemma_room_at(v, i as int);
                }
                return Some(i);
            }
            proof {
                assert(v[i as int] == self.rooms@[i as int].model());
            }
            i = i + 1;
        }
        None
    }

    /// The users of the room with the id, if there is one.
    pub fn room_users(&self, id: &str) -> (r: Option<Vec<User>>)
        ensures
            match r {
                Some(us) => users_of(self@, id@) == Some(views(us@)),
                None => users_of(self@, id@) is None,
            },
    {
        match self.find_room(id) {
            Some(i) => {
                proof {
                    assert(self@[i as int] == self.rooms@[i as int].model());
                }
                Some(clone_users(&self.rooms[i].users))
            },
            None => None,
        }
    }

    /// `user` joins the room named by its room code, which is created for it
    /// when there is none; in the room it replaces the user of the same name.
    pub fn join(&mut self, user: User)
        ensures
            rooms_ok(old(self)@),
            final(self)@ == joined(old(self)@, user@),
    {
        proof {
            use_type_invariant(&*self);
        }
        let ghost v = self@;
        let ghost uv = user@;
        let found = self.find_room(user.room());
        let mut rooms: Vec<Room> = Vec::new();
        std::mem::swap(&mut rooms, &mut self.rooms);
        assert(rooms@.map_values(|r: Room| r.model()) == v);
        match found {
            Some(i) => {
                let mut room = rooms.remove(i);
                proof {
                    assert(room.model() == v[i as int]);
                }
                upsert_user(&mut room.users, user);
                let ghost rm = room.model();
                rooms.insert(i, room);
                proof {
                    assert(rm == RoomView { id: v[i as int].id, users: upsert(v[i as int].users, uv) });
                    assert(rooms@.map_values(|r: Room| r.model()) =~= joined(v, uv));
                    lemma_joined_ok(v, uv);
                }
            },
            None => {
                let id = String::from_str(user.room());
                let mut users: Vec<User> = Vec::new();
                users.push(user);
                let room = Room { id, users };
                proof {
                    assert(views(room.users@) =~= seq![uv]);
                }
                rooms.push(room);
                proof {
                    assert(rooms@.map_values(|r: Room| r.model()) =~= joined(v, uv));
                    lemma_joined_ok(v, uv);
                }
            },
        }
        self.rooms = rooms;
    }

    /// `user` leaves the room named by its room code. Where the room exists,
    /// its remaining users are returned.
    pub fn leave(&mut self, user: &User) -> (r: Option<Vec<User>>)
        ensures
            rooms_ok(old(self)@),
            final(self)@ == left(old(self)@, user@),
            match r {
                Some(us) => has_room(old(self)@, user@.room) && users_of(final(self)@, user@.room)
                    == Some(views(us@)),
                None => !has_room(old(self)@, user@.room),
            },
    {
        proof {
            use_type_invariant(&*self);
        }
        let ghost v = self@;
        let ghost uv = user@;
        let found = self.find_room(user.room());
        match found {
            Some(i) => {
                let mut rooms: Vec<Room> = Vec::new();
                std::mem::swap(&mut rooms, &mut self.rooms);
                assert(rooms@.map_values(|r: Room| r.model()) == v);
                let mut room = rooms.remove(i);
                proof {
                    assert(room.model() == v[i as int]);
                }
                remove_user(&mut room.users, user.name());
                let remaining = clone_users(&room.users);
                let ghost rm = room.model();
                rooms.insert(i, room);
                proof {
                    assert(rm == RoomView { id: v[i as int].id, users: remove_name(v[i as int].users, uv.name) });
                    assert(rooms@.map_values(|r: Room| r.model()) =~= left(v, uv));
                    lemma_left_ok(v, uv);
                    let w = left(v, uv);
                    assert(w[i as int].id == uv.room);
                    lemma_room_at(w, i as int);
                }
                self.rooms = rooms;
                Some(remaining)
            },
            None => None,
        }
    }
}

// ---------------------------------------------------------------------------
// Room codes.
// ---------------------------------------------------------------------------

/// A lower-case hexadecimal digit.
pub open spec fn is_hex_lower(c: char) -> bool {
    ('0' <= c && c <= '9') || ('a' <= c && c <= 'f')
}

/// The hyphenated text of a random (version 4) UUID: 36 characters, hyphens
/// at 8, 13, 18 and 23, lower-case hexadecimal digits elsewhere, the version
/// digit `4` at 14 and one of `8`, `9`, `a`, `b` at 19.
pub open spec fn is_uuid_text(s: Seq<char>) -> bool {
    &&& s.len() == 36
    &&& forall|i: int|
        0 <= i < 36 ==> if i == 8 || i == 13 || i == 18 || i == 23 {
            #[trigger] s[i] == '-'
        } else {
            is_hex_lower(s[i])
        }
    &&& s[14] == '4'
    &&& (s[19] == '8' || s[19] == '9' || s[19] == 'a' || s[19] == 'b')
}

/// A fresh room code: calls `uuid::Uuid::new_v4` and writes the result with
/// `to_string`. The code is random; what is claimed is its shape, which the
/// crate's source fixes: `new_v4` sets the version and variant bits, and the
/// `Display` impl writes the lower-case hyphenated form.
#[verifier::external_body]
fn new_room_id() -> (id: String)
    ensures
        is_uuid_text(id@),
{
    uuid::Uuid::new_v4().to_string()
}

/// The user the server takes in for `u`: a scrum master is given `fresh` as
/// its room code, a voter keeps its own.
pub open spec fn admitted(u: UserView, fresh: Seq<char>) -> UserView {
    if u.role == Role::Master {
        UserView { room: fresh, ..u }
    } else {
        u
    }
}

impl AppState {
    /// Takes `user` in: a scrum master gets `fresh_room` as room code; the
    /// user then joins its room. Returns the user as taken in.
    pub fn login(&mut self, user: User, fresh_room: String) -> (r: User)
        ensures
            r@ == admitted(user@, fresh_room@),
            final(self)@ == joined(old(self)@, r@),
    {
        let mut user = user;
        if user.role() == Role::Master {
            user.set_room(fresh_room);
        }
        let r = user.clone();
        self.join(user);
        r
    }

    /// Takes `user` in as the server does on each message: a scrum master is
    /// given a fresh random room code, then the user joins its room.
    pub fn take_in(&mut self, user: User) -> (r: User)
        ensures
            user@.role == Role::Voter ==> r@ == user@,
            user@.role == Role::Master ==> r@ == (UserView { room: r@.room, ..user@ }) && is_uuid_text(
                r@.room,
            ),
            final(self)@ == joined(old(self)@, r@),
    {
        if user.role() == Role::Master {
            let fresh = new_room_id();
            self.login(user, fresh)
        } else {
            self.login(user, String::new())
        }
    }

    /// What a connection's reader does with one incoming text: a message that
    /// parsed (`Some`) makes its user the connection's user and takes it in;
    /// one that did not changes nothing. Either way the room of the
    /// connection's user, where it exists, is returned to be notified.
    pub fn receive(&mut self, session: &mut Option<User>, message: Option<MessageText>) -> (notify:
        Option<String>)
        ensures
            match message {
                Some(m) => match *final(session) {
                    Some(u) => {
                        &&& m.user@.role == Role::Voter ==> u@ == m.user@
                        &&& m.user@.role == Role::Master ==> u@ == (UserView {
                            room: u@.room,
                            ..m.user@
                        }) && is_uuid_text(u@.room)
                        &&& final(self)@ == joined(old(self)@, u@)
                    },
                    None => false,
                },
                None => {
                    &&& final(self)@ == old(self)@
                    &&& match (*old(session), *final(session)) {
                        (Some(a), Some(b)) => a@ == b@,
                        (None, None) => true,
                        _ => false,
                    }
                },
            },
            match *final(session) {
                Some(u) => match notify {
                    Some(id) => id@ == u@.room && has_room(final(self)@, u@.room),
                    None => !has_room(final(self)@, u@.room),
                },
                None => notify is None,
            },
    {
        match message {
            Some(m) => {
                let u = self.take_in(m.user);
                *session = Some(u);
            },
            None => {},
        }
        match session {
            Some(u) => match self.find_room(u.room()) {
                Some(_) => Some(String::from_str(u.room())),
                None => None,
            },
            None => None,
        }
    }

    /// What a connection's writer sends on each notification: the room of
    /// the connection's user with its users, cards hidden.
    pub fn snapshot(&self, session: &Option<User>) -> (r: Option<MessageBack>)
        ensures
            match *session {
                Some(u) => match r {
                    Some(m) => {
                        &&& m.room@ == u@.room
                        &&& !m.show
                        &&& users_of(self@, u@.room) == Some(views(m.users@))
                    },
                    None => users_of(self@, u@.room) is None,
                },
                None => r is None,
            },
    {
        match session {
            Some(u) => match self.room_users(u.room()) {
                Some(users) => Some(MessageBack { room: String::from_str(u.room()), show: false, users }),
                None => None,
            },
            None => None,
        }
    }

    /// What happens when a connection closes: its user leaves its room. Where
    /// the room exists, its id and remaining users are returned to be
    /// broadcast.
    pub fn disconnect(&mut self, session: &Option<User>) -> (r: Option<(String, Vec<User>)>)
        ensures
            match *session {
                Some(u) => {
                    &&& final(self)@ == left(old(self)@, u@)
                    &&& match r {
                        Some((id, us)) => {
                            &&& id@ == u@.room
                            &&& has_room(old(self)@, u@.room)
                            &&& users_of(final(self)@, u@.room) == Some(views(us@))
                        },
                        None => !has_room(old(self)@, u@.room),
                    }
                },
                None => final(self)@ == old(self)@ && r is None,
            },
    {
        match session {
            Some(u) => match self.leave(u) {
                Some(users) => Some((String::from_str(u.room()), users)),
                None => None,
            },
            None => None,
        }
    }
}

} // verus!
