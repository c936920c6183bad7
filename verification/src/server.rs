//! The relay node: the registry of rooms it hosts, and what it does with
//! each line a connection sends and with each connection that ends.
//!
//! A room is opened by the first client that joins it; that client's
//! credential becomes the room's credential, and later joins must present
//! the same one. Names of rooms and of users are compared lower-cased.
//! The node decides; the caller performs the actions it returns (writing to
//! the connection, and opening, listening on, sending to and closing the
//! broadcast channel of a room).
use vstd::prelude::*;
use crate::message::{ChatMessage, MessageView, message_view};
use crate::text::{
    lowercase, to_lowercase, join_seq, views, join, decimal, decimal_string, same_text, contains_text,
};

verus! {

/// One room of the registry.
pub struct Room {
    pub name: String,
    pub auth_hash: String,
    pub users: Vec<String>,
}

/// A room taken by its name, its credential and its members in join order.
pub struct RoomView {
    pub name: Seq<char>,
    pub auth: Seq<char>,
    pub users: Seq<Seq<char>>,
}

impl View for Room {
    type V = RoomView;

    open spec fn view(&self) -> RoomView {
        RoomView { name: self.name@, auth: self.auth_hash@, users: views(self.users@) }
    }
}

/// The rooms a node hosts, in the order they were opened.
pub struct Registry {
    rooms: Vec<Room>,
}

impl View for Registry {
    type V = Seq<RoomView>;

    closed spec fn view(&self) -> Seq<RoomView> {
        self.rooms@.map_values(|r: Room| r@)
    }
}

/// What a connection knows of itself: the room and (lower-cased) name it
/// joined with, and whether a join has succeeded.
pub struct Session {
    pub room: Option<String>,
    pub name: Option<String>,
    pub authenticated: bool,
}

/// A session taken by the views of its strings.
pub struct SessionView {
    pub room: Option<Seq<char>>,
    pub name: Option<Seq<char>>,
    pub authenticated: bool,
}

impl View for Session {
    type V = SessionView;

    open spec fn view(&self) -> SessionView {
        SessionView {
            room: match self.room {
                Some(r) => Some(r@),
                None => None,
            },
            name: match self.name {
                Some(n) => Some(n@),
                None => None,
            },
            authenticated: self.authenticated,
        }
    }
}

impl Session {
    /// The session of a connection that has not joined a room.
    pub fn new() -> (s: Self)
        ensures
            s@ == (SessionView { room: None, name: None, authenticated: false }),
    {
        Session { room: None, name: None, authenticated: false }
    }
}

/// What the node asks its caller to do.
pub enum ServerAction {
    /// Write this message to the connection that sent the line.
    Reply(ChatMessage),
    /// Create the broadcast channel of a new room and listen on it.
    OpenChannel(String),
    /// Listen on the broadcast channel of an existing room.
    Listen(String),
    /// Send this message to everyone listening on the room's channel.
    Broadcast(String, ChatMessage),
    /// Send this line, as received, to everyone listening on the room's channel.
    Relay(String, String),
    /// Drop the broadcast channel of a room that no longer exists.
    CloseChannel(String),
}

/// An action taken by the views of its strings and messages.
pub enum ActionView {
    Reply(MessageView),
    OpenChannel(Seq<char>),
    Listen(Seq<char>),
    Broadcast(Seq<char>, MessageView),
    Relay(Seq<char>, Seq<char>),
    CloseChannel(Seq<char>),
}

impl View for ServerAction {
    type V = ActionView;

    open spec fn view(&self) -> ActionView {
        match self {
            ServerAction::Reply(m) => ActionView::Reply(m@),
            ServerAction::OpenChannel(r) => ActionView::OpenChannel(r@),
            ServerAction::Listen(r) => ActionView::Listen(r@),
            ServerAction::Broadcast(r, m) => ActionView::Broadcast(r@, m@),
            ServerAction::Relay(r, l) => ActionView::Relay(r@, l@),
            ServerAction::CloseChannel(r) => ActionView::CloseChannel(r@),
        }
    }
}

/// The views of a sequence of actions.
pub open spec fn action_views(actions: Seq<ServerAction>) -> Seq<ActionView> {
    actions.map_values(|a: ServerAction| a@)
}

/// The position of the room called `name`, if there is one.
pub open spec fn room_pos(rooms: Seq<RoomView>, name: Seq<char>) -> Option<int> {
    if exists|i: int| 0 <= i < rooms.len() && #[trigger] rooms[i].name == name {
        Some(choose|i: int| 0 <= i < rooms.len() && #[trigger] rooms[i].name == name)
    } else {
        None
    }
}

/// No two of the names are the same.
pub open spec fn distinct_names(users: Seq<Seq<char>>) -> bool {
    forall|i: int, j: int| 0 <= i < users.len() && 0 <= j < users.len() && i != j ==> users[i] != users[j]
}

/// Room names are unique, and each room lists each member once.
pub open spec fn registry_wf(rooms: Seq<RoomView>) -> bool {
    &&& forall|i: int, j: int|
        0 <= i < rooms.len() && 0 <= j < rooms.len() && i != j ==> #[trigger] rooms[i].name
            != #[trigger] rooms[j].name
    &&& forall|i: int| 0 <= i < rooms.len() ==> distinct_names(#[trigger] rooms[i].users)
}

/// `users` without the member `name`.
pub open spec fn without(users: Seq<Seq<char>>, name: Seq<char>) -> Seq<Seq<char>> {
    if users.contains(name) {
        users.remove(users.index_of(name))
    } else {
        users
    }
}

/// The room with its member list replaced.
pub open spec fn with_users(room: RoomView, users: Seq<Seq<char>>) -> RoomView {
    RoomView { name: room.name, auth: room.auth, users }
}

/// A message that the node itself sends, with empty target and credential.
pub open spec fn node_message(action: Seq<char>, room: Seq<char>, name: Seq<char>, content: Seq<char>) -> MessageView {
    message_view(action, room, name, Seq::empty(), content, Seq::empty())
}

/// The content of a room list: the names of all rooms, or a notice that
/// there are none.
pub open spec fn room_list_content(rooms: Seq<RoomView>) -> Seq<char> {
    if rooms.len() == 0 {
        "Grid is empty. Initialize a new room."@
    } else {
        join_seq(rooms.map_values(|r: RoomView| r.name), ", "@)
    }
}

/// The answer to `list_rooms`.
pub open spec fn room_list_message(rooms: Seq<RoomView>) -> MessageView {
    node_message("room_list"@, "system"@, "Router"@, room_list_content(rooms))
}

/// The answer to `get_users` for a room.
pub open spec fn user_list_message(room: RoomView) -> MessageView {
    node_message("user_list"@, room.name, "System"@, join_seq(room.users, ", "@))
}

/// The copy of a join request that the node announces to the room.
pub open spec fn announcement(m: MessageView) -> MessageView {
    message_view("system"@, m.room, m.name, Seq::empty(), m.content, m.auth)
}

/// The refusal of a join with the wrong credential.
pub open spec fn wrong_password_message() -> MessageView {
    node_message("error"@, "system"@, "Router"@, "Incorrect password."@)
}

/// The refusal of a join with an alias that a member of the room already uses.
pub open spec fn alias_taken_message(alias: Seq<char>) -> MessageView {
    node_message("error"@, "system"@, "Router"@, "Alias '"@ + alias + "' is already taken."@)
}

/// The notice, to the sender only, that a whisper's recipient is not in the room.
pub open spec fn whisper_failed_message(room: Seq<char>, target: Seq<char>) -> MessageView {
    node_message(
        "system"@,
        room,
        "Router"@,
        "\u{26a0}\u{fe0f} Whisper failed: User '"@ + target + "' is not in the room."@,
    )
}

/// The notice to a room that a member's connection ended.
pub open spec fn disconnect_message(room: Seq<char>, name: Seq<char>) -> MessageView {
    node_message("system"@, room, "Router"@, "--- "@ + name + " disconnected ---"@)
}

/// The notice to a connection that `n` broadcast messages were lost.
pub open spec fn lag_message(n: nat) -> MessageView {
    node_message("system"@, "system"@, "Router"@, "\u{26a0}\u{fe0f} Dropped "@ + decimal(n) + " message(s)."@)
}

/// The registry once the session's member has left its room's list (the
/// room itself stays).
pub open spec fn after_leave(rooms: Seq<RoomView>, s: SessionView) -> Seq<RoomView> {
    match (s.room, s.name) {
        (Some(r), Some(n)) => match room_pos(rooms, r) {
            Some(i) => rooms.update(i, with_users(rooms[i], without(rooms[i].users, n))),
            None => rooms,
        },
        _ => rooms,
    }
}

/// Registry, session and actions after a `join_room` request.
pub open spec fn join_step(rooms: Seq<RoomView>, s: SessionView, m: MessageView) -> (
    Seq<RoomView>,
    SessionView,
    Seq<ActionView>,
) {
    let room = lowercase(m.room);
    let name = lowercase(m.name);
    let mid = after_leave(rooms, s);
    let joined = SessionView { room: Some(room), name: Some(name), authenticated: true };
    match room_pos(mid, room) {
        None => (
            mid.push(RoomView { name: room, auth: m.auth, users: seq![name] }),
            joined,
            seq![ActionView::OpenChannel(room), ActionView::Broadcast(room, announcement(m))],
        ),
        Some(i) => if mid[i].auth != m.auth {
            (mid, s, seq![ActionView::Reply(wrong_password_message())])
        } else if mid[i].users.contains(name) {
            (mid, s, seq![ActionView::Reply(alias_taken_message(m.name))])
        } else {
            (
                mid.update(i, with_users(mid[i], mid[i].users.push(name))),
                joined,
                seq![ActionView::Listen(room), ActionView::Broadcast(room, announcement(m))],
            )
        },
    }
}

/// Registry, session and actions after one message `m`, received as `line`.
pub open spec fn server_step(rooms: Seq<RoomView>, s: SessionView, m: MessageView, line: Seq<char>) -> (
    Seq<RoomView>,
    SessionView,
    Seq<ActionView>,
) {
    let room = lowercase(m.room);
    if m.action == "ping"@ {
        (rooms, s, seq![])
    } else if m.action == "list_rooms"@ {
        (rooms, s, seq![ActionView::Reply(room_list_message(rooms))])
    } else if m.action == "get_users"@ {
        match room_pos(rooms, room) {
            Some(i) => if s.authenticated {
                (rooms, s, seq![ActionView::Reply(user_list_message(rooms[i]))])
            } else {
                (rooms, s, seq![])
            },
            None => (rooms, s, seq![]),
        }
    } else if m.action == "join_room"@ {
        join_step(rooms, s, m)
    } else if m.action == "message"@ && s.authenticated {
        match room_pos(rooms, room) {
            Some(i) => if m.target.len() > 0 && !rooms[i].users.contains(lowercase(m.target)) {
                (rooms, s, seq![ActionView::Reply(whisper_failed_message(room, m.target))])
            } else {
                (rooms, s, seq![ActionView::Relay(room, line)])
            },
            None => (rooms, s, seq![]),
        }
    } else {
        (rooms, s, seq![])
    }
}

/// Registry and actions once the connection of session `s` has ended: the
/// member leaves, the room hears of it, and a room left empty is closed.
pub open spec fn disconnect_step(rooms: Seq<RoomView>, s: SessionView) -> (Seq<RoomView>, Seq<ActionView>) {
    match (s.room, s.name) {
        (Some(r), Some(n)) => match room_pos(rooms, r) {
            Some(i) => {
                let users = without(rooms[i].users, n);
                let notice = ActionView::Broadcast(r, disconnect_message(r, n));
                if users.len() == 0 {
                    (rooms.remove(i), seq![notice, ActionView::CloseChannel(r)])
                } else {
                    (rooms.update(i, with_users(rooms[i], users)), seq![notice])
                }
            },
            None => (rooms, seq![]),
        },
        _ => (rooms, seq![]),
    }
}

/// The views of a sequence of strings after a removal.
proof fn lemma_views_remove(v: Seq<String>, j: int)
    requires
        0 <= j < v.len(),
    ensures
        views(v.remove(j)) == views(v).remove(j),
{
    assert(views(v.remove(j)) =~= views(v).remove(j));
}

/// The views of a sequence of strings after a push.
proof fn lemma_views_push(v: Seq<String>, x: String)
    ensures
        views(v.push(x)) == views(v).push(x@),
{
    assert(views(v.push(x)) =~= views(v).push(x@));
}

/// In a list without repeats, the one position of a name is its `index_of`.
proof fn lemma_index_of_distinct(users: Seq<Seq<char>>, j: int)
    requires
        distinct_names(users),
        0 <= j < users.len(),
    ensures
        users.contains(users[j]),
        users.index_of(users[j]) == j,
{
    assert(users.contains(users[j]));
}

/// Removing one entry keeps a list free of repeats.
proof fn lemma_distinct_remove(users: Seq<Seq<char>>, j: int)
    requires
        distinct_names(users),
        0 <= j < users.len(),
    ensures
        distinct_names(users.remove(j)),
{
    let r = users.remove(j);
    assert forall|a: int, b: int| 0 <= a < r.len() && 0 <= b < r.len() && a != b implies r[a] != r[b] by {
        let a2 = if a < j { a } else { a + 1 };
        let b2 = if b < j { b } else { b + 1 };
        assert(r[a] == users[a2]);
        assert(r[b] == users[b2]);
    }
}

/// Appending a name that is not there keeps a list free of repeats.
proof fn lemma_distinct_push(users: Seq<Seq<char>>, name: Seq<char>)
    requires
        distinct_names(users),
        !users.contains(name),
    ensures
        distinct_names(users.push(name)),
{
    let r = users.push(name);
    assert forall|a: int, b: int| 0 <= a < r.len() && 0 <= b < r.len() && a != b implies r[a] != r[b] by {
        if a == users.len() {
            assert(users[b] == r[b]);
        } else if b == users.len() {
            assert(users[a] == r[a]);
        }
    }
}

/// `without` keeps a list free of repeats.
proof fn lemma_distinct_without(users: Seq<Seq<char>>, name: Seq<char>)
    requires
        distinct_names(users),
    ensures
        distinct_names(without(users, name)),
        !without(users, name).contains(name),
{
    if users.contains(name) {
        let j = users.index_of(name);
        lemma_distinct_remove(users, j);
        let r = users.remove(j);
        if r.contains(name) {
            let k = choose|k: int| 0 <= k < r.len() && r[k] == name;
            let k2 = if k < j { k } else { k + 1 };
            assert(users[k2] == name);
        }
    }
}


/// The registry view after one room of the vector is replaced.
proof fn lemma_rooms_update(rooms: Seq<Room>, i: int, r: Room)
    requires
        0 <= i < rooms.len(),
    ensures
        rooms.remove(i).insert(i, r).map_values(|x: Room| x@) == rooms.map_values(|x: Room| x@).update(i, r@),
{
    assert(rooms.remove(i).insert(i, r) =~= rooms.update(i, r));
    assert(rooms.update(i, r).map_values(|x: Room| x@) =~= rooms.map_values(|x: Room| x@).update(i, r@));
}

/// The registry view after a room is appended.
proof fn lemma_rooms_push(rooms: Seq<Room>, r: Room)
    ensures
        rooms.push(r).map_values(|x: Room| x@) == rooms.map_values(|x: Room| x@).push(r@),
{
    assert(rooms.push(r).map_values(|x: Room| x@) =~= rooms.map_values(|x: Room| x@).push(r@));
}

/// The registry view after a room is removed.
proof fn lemma_rooms_remove(rooms: Seq<Room>, i: int)
    requires
        0 <= i < rooms.len(),
    ensures
        rooms.remove(i).map_values(|x: Room| x@) == rooms.map_values(|x: Room| x@).remove(i),
{
    assert(rooms.remove(i).map_values(|x: Room| x@) =~= rooms.map_values(|x: Room| x@).remove(i));
}

/// Replacing a room's members by a list without repeats keeps the registry
/// well formed.
proof fn lemma_wf_update(rooms: Seq<RoomView>, i: int, users: Seq<Seq<char>>)
    requires
        registry_wf(rooms),
        0 <= i < rooms.len(),
        distinct_names(users),
    ensures
        registry_wf(rooms.update(i, with_users(rooms[i], users))),
{
    let r = rooms.update(i, with_users(rooms[i], users));
    assert forall|a: int, b: int| 0 <= a < r.len() && 0 <= b < r.len() && a != b implies #[trigger] r[a].name
        != #[trigger] r[b].name by {
        assert(r[a].name == rooms[a].name);
        assert(r[b].name == rooms[b].name);
    }
    assert forall|a: int| 0 <= a < r.len() implies distinct_names(#[trigger] r[a].users) by {
        if a != i {
            assert(r[a] == rooms[a]);
        }
    }
}

/// Appending a room whose name is new keeps the registry well formed.
proof fn lemma_wf_push(rooms: Seq<RoomView>, room: RoomView)
    requires
        registry_wf(rooms),
        room_pos(rooms, room.name) is None,
        distinct_names(room.users),
    ensures
        registry_wf(rooms.push(room)),
{
    let r = rooms.push(room);
    assert forall|a: int, b: int| 0 <= a < r.len() && 0 <= b < r.len() && a != b implies #[trigger] r[a].name
        != #[trigger] r[b].name by {
        if a == rooms.len() {
            assert(r[b] == rooms[b]);
        } else if b == rooms.len() {
            assert(r[a] == rooms[a]);
        } else {
            assert(r[a] == rooms[a]);
            assert(r[b] == rooms[b]);
        }
    }
    assert forall|a: int| 0 <= a < r.len() implies distinct_names(#[trigger] r[a].users) by {
        if a < rooms.len() {
            assert(r[a] == rooms[a]);
        }
    }
}

/// Removing a room keeps the registry well formed.
proof fn lemma_wf_remove(rooms: Seq<RoomView>, i: int)
    requires
        registry_wf(rooms),
        0 <= i < rooms.len(),
    ensures
        registry_wf(rooms.remove(i)),
{
    let r = rooms.remove(i);
    assert forall|a: int, b: int| 0 <= a < r.len() && 0 <= b < r.len() && a != b implies #[trigger] r[a].name
        != #[trigger] r[b].name by {
        let a2 = if a < i { a } else { a + 1 };
        let b2 = if b < i { b } else { b + 1 };
        assert(r[a] == rooms[a2]);
        assert(r[b] == rooms[b2]);
    }
    assert forall|a: int| 0 <= a < r.len() implies distinct_names(#[trigger] r[a].users) by {
        let a2 = if a < i { a } else { a + 1 };
        assert(r[a] == rooms[a2]);
    }
}


/// Where `room_pos` points, and that in a well-formed registry it points at
/// the one room with the name.
proof fn lemma_room_pos(rooms: Seq<RoomView>, name: Seq<char>)
    requires
        registry_wf(rooms),
    ensures
        room_pos(rooms, name) matches Some(i) ==> 0 <= i < rooms.len() && rooms[i].name == name,
        room_pos(rooms, name) is None ==> forall|i: int| 0 <= i < rooms.len() ==> rooms[i].name != name,
        forall|i: int| 0 <= i < rooms.len() && rooms[i].name == name ==> room_pos(rooms, name) == Some(i),
{
    if exists|i: int| 0 <= i < rooms.len() && #[trigger] rooms[i].name == name {
        let j = choose|i: int| 0 <= i < rooms.len() && #[trigger] rooms[i].name == name;
        assert forall|i: int| 0 <= i < rooms.len() && rooms[i].name == name implies room_pos(rooms, name) == Some(
            i,
        ) by {
            if i != j {
                assert(rooms[i].name != rooms[j].name);
            }
        }
    }
}

/// Taking a member off a list changes no room's name or credential.
proof fn lemma_after_leave_shape(rooms: Seq<RoomView>, s: SessionView)
    requires
        registry_wf(rooms),
    ensures
        after_leave(rooms, s).len() == rooms.len(),
        forall|k: int| 0 <= k < rooms.len() ==> #[trigger] after_leave(rooms, s)[k].name == rooms[k].name
            && after_leave(rooms, s)[k].auth == rooms[k].auth,
        registry_wf(after_leave(rooms, s)),
        forall|k: int| 0 <= k < rooms.len() && (s.room != Some(rooms[k].name) || s.name is None)
            ==> #[trigger] after_leave(rooms, s)[k] == rooms[k],
{
    match (s.room, s.name) {
        (Some(r), Some(n)) => {
            lemma_room_pos(rooms, r);
            match room_pos(rooms, r) {
                Some(i) => {
                    lemma_distinct_without(rooms[i].users, n);
                    lemma_wf_update(rooms, i, without(rooms[i].users, n));
                },
                None => {},
            }
        },
        _ => {},
    }
}

/// A room's credential never changes: whatever a connection sends, every
/// room that exists before and after keeps the credential it was opened with.
pub proof fn lemma_step_keeps_credentials(rooms: Seq<RoomView>, s: SessionView, m: MessageView, line: Seq<char>)
    requires
        registry_wf(rooms),
    ensures
        forall|i: int, j: int|
            #![trigger rooms[i], server_step(rooms, s, m, line).0[j]]
            0 <= i < rooms.len() && 0 <= j < server_step(rooms, s, m, line).0.len()
                && rooms[i].name == server_step(rooms, s, m, line).0[j].name
                ==> rooms[i].auth == server_step(rooms, s, m, line).0[j].auth,
{
    let after = server_step(rooms, s, m, line).0;
    lemma_after_leave_shape(rooms, s);
    let mid = after_leave(rooms, s);
    lemma_room_pos(mid, lowercase(m.room));
    assert forall|i: int, j: int|
        #![trigger rooms[i], after[j]]
        0 <= i < rooms.len() && 0 <= j < after.len() && rooms[i].name == after[j].name implies rooms[i].auth
        == after[j].auth by {
        if j < rooms.len() {
            assert(after[j].name == rooms[j].name && after[j].auth == rooms[j].auth);
            if i != j {
                assert(rooms[i].name != rooms[j].name);
            }
        } else {
            assert(mid[i].name == rooms[i].name);
        }
    }
}

/// A room's credential never changes when a connection ends.
pub proof fn lemma_disconnect_keeps_credentials(rooms: Seq<RoomView>, s: SessionView)
    requires
        registry_wf(rooms),
    ensures
        forall|i: int, j: int|
            #![trigger rooms[i], disconnect_step(rooms, s).0[j]]
            0 <= i < rooms.len() && 0 <= j < disconnect_step(rooms, s).0.len()
                && rooms[i].name == disconnect_step(rooms, s).0[j].name
                ==> rooms[i].auth == disconnect_step(rooms, s).0[j].auth,
{
    let after = disconnect_step(rooms, s).0;
    match (s.room, s.name) {
        (Some(r), Some(n)) => {
            lemma_room_pos(rooms, r);
            match room_pos(rooms, r) {
                Some(p) => {
                    assert forall|i: int, j: int|
                        #![trigger rooms[i], after[j]]
                        0 <= i < rooms.len() && 0 <= j < after.len() && rooms[i].name == after[j].name
                            implies rooms[i].auth == after[j].auth by {
                        let j2 = if without(rooms[p].users, n).len() == 0 && j >= p { j + 1 } else { j };
                        assert(after[j].name == rooms[j2].name && after[j].auth == rooms[j2].auth);
                        if i != j2 {
                            assert(rooms[i].name != rooms[j2].name);
                        }
                    }
                },
                None => {},
            }
        },
        _ => {},
    }
}

/// A join admits the client exactly when the room is new, or the
/// credential is the room's and the lower-cased alias is not in use there.
/// Once admitted, the session holds the lower-cased room and alias, and the
/// alias is a member of that room. A refused join leaves the session as it
/// was and adds nobody.
pub proof fn lemma_join_outcome(rooms: Seq<RoomView>, s: SessionView, m: MessageView)
    requires
        registry_wf(rooms),
    ensures
        ({
            let (after, s2, actions) = join_step(rooms, s, m);
            let room = lowercase(m.room);
            let name = lowercase(m.name);
            let mid = after_leave(rooms, s);
            let admitted = match room_pos(rooms, room) {
                None => true,
                Some(i) => rooms[i].auth == m.auth && !mid[i].users.contains(name),
            };
            &&& admitted ==> s2 == (SessionView { room: Some(room), name: Some(name), authenticated: true })
                && (exists|k: int| 0 <= k < after.len() && after[k].name == room && after[k].users.contains(name))
            &&& !admitted ==> s2 == s && after == mid && actions.len() == 1
        }),
{
    let room = lowercase(m.room);
    let name = lowercase(m.name);
    lemma_after_leave_shape(rooms, s);
    let mid = after_leave(rooms, s);
    lemma_room_pos(rooms, room);
    lemma_room_pos(mid, room);
    let after = join_step(rooms, s, m).0;
    match room_pos(rooms, room) {
        None => {
            assert(room_pos(mid, room) is None);
            assert(after[mid.len() as int].name == room);
            assert(after[mid.len() as int].users[0] == name);
            assert(after[mid.len() as int].users.contains(name));
        },
        Some(i) => {
            assert(mid[i].name == room);
            assert(room_pos(mid, room) == Some(i));
            if mid[i].auth == m.auth && !mid[i].users.contains(name) {
                assert(after[i].users.last() == name);
                assert(after[i].users.contains(name));
                assert(after[i].name == room);
            }
        },
    }
}

/// Nothing is relayed to a room but a `message` from a session that has
/// joined, naming a room that exists, and, for a whisper, a recipient who is
/// a member of that room.
pub proof fn lemma_relay_guard(rooms: Seq<RoomView>, s: SessionView, m: MessageView, line: Seq<char>)
    requires
        registry_wf(rooms),
    ensures
        forall|k: int|
            0 <= k < server_step(rooms, s, m, line).2.len() && #[trigger] server_step(rooms, s, m, line).2[k] is Relay
                ==> {
                &&& s.authenticated
                &&& m.action == "message"@
                &&& room_pos(rooms, lowercase(m.room)) matches Some(i)
                &&& (m.target.len() == 0 || rooms[i].users.contains(lowercase(m.target)))
            },
{
    let room = lowercase(m.room);
    lemma_room_pos(rooms, room);
    lemma_after_leave_shape(rooms, s);
    lemma_room_pos(after_leave(rooms, s), room);
}

/// A client that opens a new room and then disconnects leaves the registry
/// as it found it.
pub proof fn lemma_open_then_disconnect(rooms: Seq<RoomView>, m: MessageView)
    requires
        registry_wf(rooms),
        room_pos(rooms, lowercase(m.room)) is None,
    ensures
        ({
            let fresh = SessionView { room: None, name: None, authenticated: false };
            let (opened, s1, _) = join_step(rooms, fresh, m);
            disconnect_step(opened, s1).0 == rooms
        }),
{
    let fresh = SessionView { room: None, name: None, authenticated: false };
    let room = lowercase(m.room);
    let name = lowercase(m.name);
    let new_room = RoomView { name: room, auth: m.auth, users: seq![name] };
    assert(after_leave(rooms, fresh) == rooms);
    let opened = rooms.push(new_room);
    lemma_wf_push(rooms, new_room);
    lemma_room_pos(opened, room);
    assert(opened[rooms.len() as int].name == room);
    assert(room_pos(opened, room) == Some(rooms.len() as int));
    assert(seq![name].contains(name)) by {
        assert(seq![name][0] == name);
    }
    assert(seq![name].index_of(name) == 0);
    assert(without(seq![name], name) =~= Seq::<Seq<char>>::empty());
    assert(opened.remove(rooms.len() as int) =~= rooms);
}

/// When a connection ends, its member is on no list of its room, and a
/// room that the member's leaving empties is closed.
pub proof fn lemma_disconnect_leaves(rooms: Seq<RoomView>, s: SessionView)
    requires
        registry_wf(rooms),
        s.room is Some,
        s.name is Some,
    ensures
        ({
            let (after, actions) = disconnect_step(rooms, s);
            let r = s.room->0;
            let n = s.name->0;
            &&& registry_wf(after)
            &&& forall|k: int| 0 <= k < after.len() && after[k].name == r ==> !after[k].users.contains(n)
                && after[k].users.len() > 0
        }),
{
    let r = s.room->0;
    let n = s.name->0;
    lemma_room_pos(rooms, r);
    match room_pos(rooms, r) {
        Some(i) => {
            lemma_distinct_without(rooms[i].users, n);
            let users = without(rooms[i].users, n);
            let after = disconnect_step(rooms, s).0;
            if users.len() == 0 {
                lemma_wf_remove(rooms, i);
                assert forall|k: int| 0 <= k < after.len() implies after[k].name != r by {
                    let k2 = if k < i { k } else { k + 1 };
                    assert(after[k] == rooms[k2]);
                }
            } else {
                lemma_wf_update(rooms, i, users);
                assert forall|k: int| 0 <= k < after.len() && after[k].name == r implies k == i by {
                    if k != i {
                        assert(after[k] == rooms[k]);
                    }
                }
            }
        },
        None => {},
    }
}

/// Removes `name` from a list of members without repeats.
fn remove_member(users: &mut Vec<String>, name: &String)
    requires
        distinct_names(views(old(users)@)),
    ensures
        views(final(users)@) == without(views(old(users)@), name@),
        distinct_names(views(final(users)@)),
{
    let ghost before = views(users@);
    let mut i: usize = 0;
    while i < users.len()
        invariant
            i <= users@.len(),
            views(users@) == before,
            before == views(old(users)@),
            distinct_names(before),
            forall|k: int| 0 <= k < i ==> before[k] != name@,
        decreases users@.len() - i,
    {
        if users[i] == *name {
            proof {
                lemma_index_of_distinct(before, i as int);
                lemma_views_remove(users@, i as int);
                lemma_distinct_remove(before, i as int);
            }
            users.remove(i);
            return;
        }
        i = i + 1;
    }
    assert(!before.contains(name@));
}

/// A message that the node itself sends, with empty target and credential.
fn node_msg(action: &str, room: &str, name: &str, content: &str) -> (m: ChatMessage)
    ensures
        m@ == node_message(action@, room@, name@, content@),
{
    proof {
        reveal_strlit("");
    }
    assert(""@ =~= Seq::<char>::empty());
    ChatMessage::new(action, room, name, "", content, "")
}

/// The copy of a join request that the node announces to the room.
fn announce(m: &ChatMessage) -> (a: ChatMessage)
    ensures
        a@ == announcement(m@),
{
    proof {
        reveal_strlit("");
    }
    ChatMessage {
        action: String::from_str("system"),
        room: m.room.clone(),
        name: m.name.clone(),
        target: String::new(),
        content: m.content.clone(),
        auth: m.auth.clone(),
    }
}

/// The notice to a connection that `n` broadcast messages were lost.
pub fn lag_notice(n: u64) -> (m: ChatMessage)
    ensures
        m@ == lag_message(n as nat),
{
    let count = decimal_string(n);
    let mut content = String::from_str("\u{26a0}\u{fe0f} Dropped ");
    content.append(count.as_str());
    content.append(" message(s).");
    node_msg("system", "system", "Router", content.as_str())
}

/// A sequence of one action.
fn one_action(a: ServerAction) -> (v: Vec<ServerAction>)
    ensures
        action_views(v@) == seq![a@],
{
    let mut v = Vec::new();
    v.push(a);
    assert(action_views(v@) =~= seq![a@]);
    v
}

/// A sequence of two actions.
fn two_actions(a: ServerAction, b: ServerAction) -> (v: Vec<ServerAction>)
    ensures
        action_views(v@) == seq![a@, b@],
{
    let mut v = Vec::new();
    v.push(a);
    v.push(b);
    assert(action_views(v@) =~= seq![a@, b@]);
    v
}

/// No action.
fn no_action() -> (v: Vec<ServerAction>)
    ensures
        action_views(v@) == Seq::<ActionView>::empty(),
{
    let v = Vec::new();
    assert(action_views(v@) =~= Seq::<ActionView>::empty());
    v
}

impl Registry {
    /// Room names are unique, and each room lists each member once.
    pub closed spec fn wf(&self) -> bool {
        registry_wf(self@)
    }

    /// A registry with no rooms.
    pub fn new() -> (r: Self)
        ensures
            r.wf(),
            r@ == Seq::<RoomView>::empty(),
    {
        let r = Registry { rooms: Vec::new() };
        assert(r@ =~= Seq::<RoomView>::empty());
        r
    }

    /// The number of rooms.
    pub fn len(&self) -> (n: usize)
        ensures
            n == self@.len(),
    {
        self.rooms.len()
    }

    /// The position of the room called `name`.
    fn find_room(&self, name: &String) -> (res: Option<usize>)
        requires
            self.wf(),
        ensures
            res == (match room_pos(self@, name@) {
                Some(i) => Some(i as usize),
                None => None::<usize>,
            }),
            res matches Some(i) ==> i < self@.len() && self@[i as int].name == name@,
    {
        let mut i: usize = 0;
        while i < self.rooms.len()
            invariant
                i <= self@.len(),
                self@.len() == self.rooms@.len(),
                self.wf(),
                forall|k: int| 0 <= k < i ==> self@[k].name != name@,
            decreases self@.len() - i,
        {
            if self.rooms[i].name == *name {
                assert(self@[i as int].name == name@);
                let ghost j = choose|j: int| 0 <= j < self@.len() && #[trigger] self@[j].name == name@;
                assert(j == i);
                return Some(i);
            }
            i = i + 1;
        }
        None
    }


    /// Takes the session's member off its room's list (the room stays).
    fn leave_current(&mut self, session: &Session)
        requires
            old(self).wf(),
        ensures
            final(self).wf(),
            final(self)@ == after_leave(old(self)@, session@),
    {
        match &session.room {
            Some(r) => match &session.name {
                Some(n) => match self.find_room(r) {
                    Some(i) => {
                        let ghost old_rooms = self.rooms@;
                        let mut room = self.rooms.remove(i);
                        assert(views(room.users@) == old(self)@[i as int].users);
                        remove_member(&mut room.users, n);
                        self.rooms.insert(i, room);
                        proof {
                            lemma_rooms_update(old_rooms, i as int, room);
                            assert(room@ == with_users(old(self)@[i as int], without(old(self)@[i as int].users, n@)));
                            lemma_wf_update(old(self)@, i as int, views(room.users@));
                        }
                    },
                    None => {},
                },
                None => {},
            },
            None => {},
        }
    }

    /// Handles a `join_room` request.
    fn join_room(&mut self, session: &mut Session, msg: &ChatMessage) -> (actions: Vec<ServerAction>)
        requires
            old(self).wf(),
        ensures
            final(self).wf(),
            (final(self)@, final(session)@, action_views(actions@)) == join_step(old(self)@, old(session)@, msg@),
    {
        let room = to_lowercase(msg.room.as_str());
        let name = to_lowercase(msg.name.as_str());
        self.leave_current(session);
        let ghost mid = self@;
        match self.find_room(&room) {
            None => {
                let mut users: Vec<String> = Vec::new();
                users.push(name.clone());
                let new_room = Room { name: room.clone(), auth_hash: msg.auth.clone(), users };
                proof {
                    lemma_rooms_push(self.rooms@, new_room);
                    assert(views(new_room.users@) =~= seq![name@]);
                    lemma_wf_push(mid, new_room@);
                }
                self.rooms.push(new_room);
                *session = Session { room: Some(room.clone()), name: Some(name), authenticated: true };
                two_actions(ServerAction::OpenChannel(room.clone()), ServerAction::Broadcast(room, announce(msg)))
            },
            Some(i) => {
                if !(self.rooms[i].auth_hash == msg.auth) {
                    one_action(ServerAction::Reply(node_msg("error", "system", "Router", "Incorrect password.")))
                } else if contains_text(&self.rooms[i].users, &name) {
                    let mut content = String::from_str("Alias '");
                    content.append(msg.name.as_str());
                    content.append("' is already taken.");
                    one_action(ServerAction::Reply(node_msg("error", "system", "Router", content.as_str())))
                } else {
                    let ghost old_rooms = self.rooms@;
                    let mut r = self.rooms.remove(i);
                    proof {
                        lemma_views_push(r.users@, name);
                        lemma_distinct_push(mid[i as int].users, name@);
                    }
                    r.users.push(name.clone());
                    self.rooms.insert(i, r);
                    proof {
                        lemma_rooms_update(old_rooms, i as int, r);
                        lemma_wf_update(mid, i as int, views(r.users@));
                    }
                    *session = Session { room: Some(room.clone()), name: Some(name), authenticated: true };
                    two_actions(ServerAction::Listen(room.clone()), ServerAction::Broadcast(room, announce(msg)))
                }
            },
        }
    }


    /// The answer to `get_users` for the room at position `i`: its members,
    /// joined with `, `.
    fn user_list(&self, i: usize) -> (m: ChatMessage)
        requires
            i < self@.len(),
        ensures
            m@ == user_list_message(self@[i as int]),
    {
        let content = join(&self.rooms[i].users, ", ");
        node_msg("user_list", self.rooms[i].name.as_str(), "System", content.as_str())
    }

    /// Handles one message that a connection sent, received as `line`:
    /// updates the registry and the connection's session and returns what
    /// the caller must do, as `server_step` describes.
    pub fn handle_message(&mut self, session: &mut Session, msg: &ChatMessage, line: &str) -> (actions: Vec<ServerAction>)
        requires
            old(self).wf(),
        ensures
            final(self).wf(),
            (final(self)@, final(session)@, action_views(actions@)) == server_step(
                old(self)@,
                old(session)@,
                msg@,
                line@,
            ),
    {
        if same_text(msg.action.as_str(), "ping") {
            return no_action();
        }
        if same_text(msg.action.as_str(), "list_rooms") {
            return one_action(ServerAction::Reply(self.room_list()));
        }
        let room = to_lowercase(msg.room.as_str());
        if same_text(msg.action.as_str(), "get_users") {
            return match self.find_room(&room) {
                Some(i) => if session.authenticated {
                    one_action(ServerAction::Reply(self.user_list(i)))
                } else {
                    no_action()
                },
                None => no_action(),
            };
        }
        if same_text(msg.action.as_str(), "join_room") {
            return self.join_room(session, msg);
        }
        if same_text(msg.action.as_str(), "message") && session.authenticated {
            return match self.find_room(&room) {
                Some(i) => {
                    let target = to_lowercase(msg.target.as_str());
                    if msg.target.as_str().unicode_len() > 0 && !contains_text(&self.rooms[i].users, &target) {
                        let mut content = String::from_str("\u{26a0}\u{fe0f} Whisper failed: User '");
                        content.append(msg.target.as_str());
                        content.append("' is not in the room.");
                        one_action(ServerAction::Reply(node_msg("system", room.as_str(), "Router", content.as_str())))
                    } else {
                        one_action(ServerAction::Relay(room, String::from_str(line)))
                    }
                },
                None => no_action(),
            };
        }
        no_action()
    }

    /// Handles the end of a connection: its member leaves the room, the
    /// room hears of it, and a room left without members is closed.
    pub fn disconnect(&mut self, session: &Session) -> (actions: Vec<ServerAction>)
        requires
            old(self).wf(),
        ensures
            final(self).wf(),
            (final(self)@, action_views(actions@)) == disconnect_step(old(self)@, session@),
    {
        match &session.room {
            Some(r) => match &session.name {
                Some(n) => match self.find_room(r) {
                    Some(i) => {
                        let ghost old_rooms = self.rooms@;
                        let mut room = self.rooms.remove(i);
                        assert(views(room.users@) == old(self)@[i as int].users);
                        remove_member(&mut room.users, n);
                        let mut content = String::from_str("--- ");
                        content.append(n.as_str());
                        content.append(" disconnected ---");
                        let notice = ServerAction::Broadcast(
                            r.clone(),
                            node_msg("system", r.as_str(), "Router", content.as_str()),
                        );
                        if room.users.len() == 0 {
                            proof {
                                lemma_rooms_remove(old_rooms, i as int);
                                lemma_wf_remove(old(self)@, i as int);
                            }
                            two_actions(notice, ServerAction::CloseChannel(r.clone()))
                        } else {
                            self.rooms.insert(i, room);
                            proof {
                                lemma_rooms_update(old_rooms, i as int, room);
                                lemma_wf_update(old(self)@, i as int, views(room.users@));
                            }
                            one_action(notice)
                        }
                    },
                    None => no_action(),
                },
                None => no_action(),
            },
            None => no_action(),
        }
    }

    /// The answer to `list_rooms`: every room's name, joined with `, `, or
    /// a notice that the grid is empty.
    pub fn room_list(&self) -> (m: ChatMessage)
        ensures
            m@ == room_list_message(self@),
    {
        if self.rooms.len() == 0 {
            return node_msg("room_list", "system", "Router", "Grid is empty. Initialize a new room.");
        }
        let mut names: Vec<String> = Vec::new();
        let mut i: usize = 0;
        while i < self.rooms.len()
            invariant
                i <= self@.len(),
                self@.len() == self.rooms@.len(),
                views(names@) == self@.map_values(|r: RoomView| r.name).take(i as int),
            decreases self@.len() - i,
        {
            let n = self.rooms[i].name.clone();
            proof {
                lemma_views_push(names@, n);
                assert(self@.map_values(|r: RoomView| r.name).take(i + 1) =~= self@.map_values(
                    |r: RoomView| r.name,
                ).take(i as int).push(n@));
            }
            names.push(n);
            i = i + 1;
        }
        assert(self@.map_values(|r: RoomView| r.name).take(i as int) =~= self@.map_values(
            |r: RoomView| r.name,
        ));
        let content = join(&names, ", ");
        node_msg("room_list", "system", "Router", content.as_str())
    }
}

} // verus!
