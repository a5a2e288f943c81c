use vstd::prelude::*;
use crate::text::str_equals;

verus! {

/// The part a participant plays at the board.
#[derive(Clone, Copy, Debug, PartialEq, Eq, Structural, Hash)]
pub enum Role {
    Master,
    Voter,
}

impl Default for Role {
    fn default() -> (r: Role)
        ensures
            r == Role::Voter,
    {
        Role::Voter
    }
}

/// The text under which a role travels: "Master" or "Voter".
pub open spec fn role_text(r: Role) -> Seq<char> {
    match r {
        Role::Master => "Master"@,
        Role::Voter => "Voter"@,
    }
}

impl Role {
    /// The role's display text.
    pub fn to_string(&self) -> (s: String)
        ensures
            s@ == role_text(*self),
    {
        match self {
            Role::Master => String::from_str("Master"),
            Role::Voter => String::from_str("Voter"),
        }
    }
}

impl TryFrom<String> for Role {
    type Error = &'static str;

    fn try_from(val: String) -> (r: Result<Role, &'static str>) {
        if str_equals(val.as_str(), "Master") {
            Ok(Role::Master)
        } else if str_equals(val.as_str(), "Voter") {
            Ok(Role::Voter)
        } else {
            Err("Invalid input for Role")
        }
    }
}

impl vstd::std_specs::convert::TryFromSpecImpl<String> for Role {
    open spec fn obeys_try_from_spec() -> bool {
        true
    }

    open spec fn try_from_spec(val: String) -> Result<Role, &'static str> {
        if val@ == "Master"@ {
            Ok(Role::Master)
        } else if val@ == "Voter"@ {
            Ok(Role::Voter)
        } else {
            Err("Invalid input for Role")
        }
    }
}

/// A role's text reads back as that role.
pub proof fn law_role_text_round_trip(r: Role, s: String)
    requires
        s@ == role_text(r),
    ensures
        <Role as vstd::std_specs::convert::TryFromSpec<String>>::try_from_spec(s) == Ok::<Role, &'static str>(r),
{
    reveal_strlit("Master");
    reveal_strlit("Voter");
    assert("Master"@ != "Voter"@) by {
        assert("Master"@.len() != "Voter"@.len());
    }
}

/// What a `User` holds, as mathematical values.
pub struct UserView {
    pub role: Role,
    pub name: Seq<char>,
    pub room: Seq<char>,
    pub value: Option<u8>,
}

/// A participant: their role, name, room code and current vote.
#[derive(Debug)]
pub struct User {
    role: Role,
    name: String,
    room: String,
    value: Option<u8>,
}

impl View for User {
    type V = UserView;

    closed spec fn view(&self) -> UserView {
        UserView { role: self.role, name: self.name@, room: self.room@, value: self.value }
    }
}

/// One call of a setter on a user, with the value it sets.
pub enum UserEdit {
    SetRole(Role),
    SetName(Seq<char>),
    SetValue(Option<u8>),
    SetRoom(Seq<char>),
}

/// The user after one setter call.
pub open spec fn edited(u: UserView, e: UserEdit) -> UserView {
    match e {
        UserEdit::SetRole(role) => UserView { role, ..u },
        UserEdit::SetName(name) => UserView { name, ..u },
        UserEdit::SetValue(value) => UserView { value, ..u },
        UserEdit::SetRoom(room) => UserView { room, ..u },
    }
}

/// The user after the setter calls, one after the other.
pub open spec fn edited_all(u: UserView, es: Seq<UserEdit>) -> UserView
    decreases es.len(),
{
    if es.len() == 0 {
        u
    } else {
        edited_all(edited(u, es[0]), es.drop_first())
    }
}

proof fn lemma_edits_keep_fields(u: UserView, es: Seq<UserEdit>)
    ensures
        (forall|i: int| 0 <= i < es.len() ==> !(#[trigger] es[i] is SetRole)) ==> edited_all(u, es).role == u.role,
        (forall|i: int| 0 <= i < es.len() ==> !(#[trigger] es[i] is SetName)) ==> edited_all(u, es).name == u.name,
        (forall|i: int| 0 <= i < es.len() ==> !(#[trigger] es[i] is SetValue)) ==> edited_all(u, es).value == u.value,
        (forall|i: int| 0 <= i < es.len() ==> !(#[trigger] es[i] is SetRoom)) ==> edited_all(u, es).room == u.room,
    decreases es.len(),
{
    if es.len() > 0 {
        let t = es.drop_first();
        lemma_edits_keep_fields(edited(u, es[0]), t);
        assert forall|i: int| 0 <= i < t.len() implies t[i] == es[i + 1] by {}
    }
}

/// After `set_role(r)`, any calls of the other setters leave the role `r`.
pub proof fn law_role_survives_other_setters(u: UserView, r: Role, es: Seq<UserEdit>)
    requires
        forall|i: int| 0 <= i < es.len() ==> !(#[trigger] es[i] is SetRole),
    ensures
        edited_all(edited(u, UserEdit::SetRole(r)), es).role == r,
{
    lemma_edits_keep_fields(edited(u, UserEdit::SetRole(r)), es);
}

/// After `set_value(v)`, any calls of the other setters leave the value `v`.
pub proof fn law_value_survives_other_setters(u: UserView, v: Option<u8>, es: Seq<UserEdit>)
    requires
        forall|i: int| 0 <= i < es.len() ==> !(#[trigger] es[i] is SetValue),
    ensures
        edited_all(edited(u, UserEdit::SetValue(v)), es).value == v,
{
    lemma_edits_keep_fields(edited(u, UserEdit::SetValue(v)), es);
}

/// A user made by `new(role, name, value, room)` keeps its name through any
/// calls of the other setters.
pub proof fn law_name_survives_other_setters(
    role: Role,
    name: Seq<char>,
    value: Option<u8>,
    room: Seq<char>,
    es: Seq<UserEdit>,
)
    requires
        forall|i: int| 0 <= i < es.len() ==> !(#[trigger] es[i] is SetName),
    ensures
        edited_all(UserView { role, name, room, value }, es).name == name,
{
    lemma_edits_keep_fields(UserView { role, name, room, value }, es);
}

/// A user made by `new(role, name, value, room)` keeps its room through any
/// calls of the other setters.
pub proof fn law_room_survives_other_setters(
    role: Role,
    name: Seq<char>,
    value: Option<u8>,
    room: Seq<char>,
    es: Seq<UserEdit>,
)
    requires
        forall|i: int| 0 <= i < es.len() ==> !(#[trigger] es[i] is SetRoom),
    ensures
        edited_all(UserView { role, name, room, value }, es).room == room,
{
    lemma_edits_keep_fields(UserView { role, name, room, value }, es);
}

/// The views of a sequence of users.
pub open spec fn views(s: Seq<User>) -> Seq<UserView> {
    s.map_values(|u: User| u@)
}

impl Clone for User {
    fn clone(&self) -> (r: User)
        ensures
            r@ == self@,
    {
        User {
            role: self.role,
            name: self.name.clone(),
            room: self.room.clone(),
            value: self.value,
        }
    }
}

impl Default for User {
    fn default() -> (r: User)
        ensures
            r@ == (UserView { role: Role::Voter, name: Seq::empty(), room: Seq::empty(), value: None }),
    {
        User { role: Role::Voter, name: String::new(), room: String::new(), value: None }
    }
}

/// Two users are the same participant when their names agree.
impl PartialEq for User {
    fn eq(&self, other: &Self) -> (r: bool) {
        self.name == other.name
    }
}

impl vstd::std_specs::cmp::PartialEqSpecImpl for User {
    open spec fn obeys_eq_spec() -> bool {
        true
    }

    open spec fn eq_spec(&self, other: &User) -> bool {
        self@.name == other@.name
    }
}

impl Eq for User {

}

impl User {
    pub fn new(role: Role, name: &str, value: Option<u8>, room: &str) -> (u: User)
        ensures
            u@ == (UserView { role, name: name@, room: room@, value }),
    {
        User { role, name: String::from_str(name), value, room: String::from_str(room) }
    }

    pub fn role(&self) -> (r: Role)
        ensures
            r == self@.role,
    {
        self.role
    }

    pub fn name(&self) -> (r: &str)
        ensures
            r@ == self@.name,
    {
        self.name.as_str()
    }

    pub fn value(&self) -> (r: Option<u8>)
        ensures
            r == self@.value,
    {
        self.value
    }

    pub fn room(&self) -> (r: &str)
        ensures
            r@ == self@.room,
    {
        self.room.as_str()
    }

    pub fn set_role(&mut self, role: Role)
        ensures
            final(self)@ == (UserView { role, ..old(self)@ }),
            final(self)@ == edited(old(self)@, UserEdit::SetRole(role)),
    {
        self.role = role;
    }

    pub fn set_name(&mut self, name: String)
        ensures
            final(self)@ == (UserView { name: name@, ..old(self)@ }),
            final(self)@ == edited(old(self)@, UserEdit::SetName(name@)),
    {
        self.name = name;
    }

    pub fn set_value(&mut self, value: Option<u8>)
        ensures
            final(self)@ == (UserView { value, ..old(self)@ }),
            final(self)@ == edited(old(self)@, UserEdit::SetValue(value)),
    {
        self.value = value;
    }

    pub fn set_room(&mut self, room: String)
        ensures
            final(self)@ == (UserView { room: room@, ..old(self)@ }),
            final(self)@ == edited(old(self)@, UserEdit::SetRoom(room@)),
    {
        self.room = room;
    }
}

} // verus!
