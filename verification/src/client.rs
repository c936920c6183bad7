//! The chat client's decisions: the requests it sends, how it picks a room,
//! what it makes of a line its user typed, and what it shows of a message
//! that the relay forwards.
use vstd::prelude::*;
use crate::crypto::{
    AesKey, decrypt_with_key, derive_auth_hash, derive_key, derive_whisper_key, encrypt_with_nonce,
    random_nonce, decryption, encodable, lemma_encodable_subrange, auth_hash, room_key, whisper_key,
    fits_aes, sealed_payload, NONCE_LEN,
};
use crate::message::{ChatMessage, MessageView, message_view};
use crate::server::{RoomView, room_list_message, registry_wf, room_pos, server_step, ActionView, SessionView};
use crate::text::{
    lowercase, to_lowercase, trimmed, trim, contains, contains_seq, split, split_seq, views, same_text,
    starts_with, starts_with_seq, first_occurrence, find, occurs_at, contains_text, join_seq, lemma_join_avoids,
    lemma_split_join,
};

verus! {

/// An entry of the chat history that the client shows.
pub enum UiMsg {
    System(String),
    Public(String, String),
    Whisper { sender: String, recipient: String, text: String, is_outgoing: bool },
    Error(String),
}

/// A history entry taken by the views of its strings.
pub enum UiView {
    System(Seq<char>),
    Public(Seq<char>, Seq<char>),
    Whisper { sender: Seq<char>, recipient: Seq<char>, text: Seq<char>, is_outgoing: bool },
    Error(Seq<char>),
}

impl View for UiMsg {
    type V = UiView;

    open spec fn view(&self) -> UiView {
        match self {
            UiMsg::System(t) => UiView::System(t@),
            UiMsg::Public(s, t) => UiView::Public(s@, t@),
            UiMsg::Whisper { sender, recipient, text, is_outgoing } => UiView::Whisper {
                sender: sender@,
                recipient: recipient@,
                text: text@,
                is_outgoing: *is_outgoing,
            },
            UiMsg::Error(t) => UiView::Error(t@),
        }
    }
}

/// The empty text.
pub open spec fn empty_text() -> Seq<char> {
    Seq::empty()
}

/// The request that asks a relay for its rooms.
pub fn list_rooms_request() -> (m: ChatMessage)
    ensures
        m@ == message_view("list_rooms"@, empty_text(), empty_text(), empty_text(), empty_text(), empty_text()),
{
    proof {
        reveal_strlit("");
    }
    assert(""@ =~= empty_text());
    ChatMessage::new("list_rooms", "", "", "", "", "")
}

/// The keep-alive that a client sends on a timer.
pub fn ping_request(name: &str) -> (m: ChatMessage)
    ensures
        m@ == message_view("ping"@, empty_text(), name@, empty_text(), empty_text(), empty_text()),
{
    proof {
        reveal_strlit("");
    }
    assert(""@ =~= empty_text());
    ChatMessage::new("ping", "", name, "", "", "")
}

/// The relay's answer to `list_rooms`, read by a client.
pub enum RoomListing {
    /// The relay hosts no room; the text says so.
    Empty(String),
    /// The names of the rooms the relay hosts.
    Rooms(Vec<String>),
}

/// A room listing taken by the views of its strings.
pub enum ListingView {
    Empty(Seq<char>),
    Rooms(Seq<Seq<char>>),
}

impl View for RoomListing {
    type V = ListingView;

    open spec fn view(&self) -> ListingView {
        match self {
            RoomListing::Empty(t) => ListingView::Empty(t@),
            RoomListing::Rooms(v) => ListingView::Rooms(views(v@)),
        }
    }
}

/// What a client reads from the first message a relay sends back: nothing
/// unless it is a `room_list`; the notice when it says the grid is empty;
/// otherwise the room names, split at `, `.
pub open spec fn listing_of(m: MessageView) -> Option<ListingView> {
    if m.action != "room_list"@ {
        None
    } else if contains_seq(m.content, "Grid is empty"@) {
        Some(ListingView::Empty(m.content))
    } else {
        Some(ListingView::Rooms(split_seq(m.content, ", "@)))
    }
}

/// Reads the relay's answer to `list_rooms`.
pub fn parse_room_list(msg: &ChatMessage) -> (res: Option<RoomListing>)
    ensures
        (match res {
            Some(l) => Some(l@),
            None => None,
        }) == listing_of(msg@),
{
    if !same_text(msg.action.as_str(), "room_list") {
        return None;
    }
    if contains(msg.content.as_str(), "Grid is empty") {
        return Some(RoomListing::Empty(msg.content.clone()));
    }
    proof {
        reveal_strlit(", ");
    }
    Some(RoomListing::Rooms(split(msg.content.as_str(), ", ")))
}


/// What a relay lists is what a client reads: the notice for an empty grid,
/// and otherwise every room's name, in order, provided no room name holds
/// `, ` or the words of the empty-grid notice.
pub proof fn lemma_room_list_read_back(rooms: Seq<RoomView>)
    requires
        forall|i: int|
            0 <= i < rooms.len() ==> !contains_seq(#[trigger] rooms[i].name, ", "@) && !contains_seq(
                rooms[i].name,
                "Grid is empty"@,
            ),
    ensures
        listing_of(room_list_message(rooms)) == if rooms.len() == 0 {
            Some(ListingView::Empty("Grid is empty. Initialize a new room."@))
        } else {
            Some(ListingView::Rooms(rooms.map_values(|r: RoomView| r.name)))
        },
{
    reveal_strlit("Grid is empty");
    reveal_strlit("Grid is empty. Initialize a new room.");
    let pat = "Grid is empty"@;
    if rooms.len() == 0 {
        let notice = "Grid is empty. Initialize a new room."@;
        assert(notice.subrange(0, pat.len() as int) =~= pat);
        assert(occurs_at(notice, pat, 0));
    } else {
        let names = rooms.map_values(|r: RoomView| r.name);
        assert forall|i: int| 0 <= i < names.len() implies !contains_seq(#[trigger] names[i], ", "@)
            && !contains_seq(names[i], pat) by {
            assert(names[i] == rooms[i].name);
        }
        assert(!pat.contains(',')) by {
            assert forall|i: int| 0 <= i < pat.len() implies pat[i] != ',' by {
                assert(pat =~= seq!['G', 'r', 'i', 'd', ' ', 'i', 's', ' ', 'e', 'm', 'p', 't', 'y']);
            }
        }
        lemma_join_avoids(names, pat);
        lemma_split_join(names);
    }
}

/// The outcome of one round of the room menu.
pub enum RoomChoice {
    /// Use this (lower-cased) room.
    Enter(String),
    /// Option 1 named a room that the relay does not list.
    NotFound,
    /// Option 2 named a room that already exists.
    AlreadyExists,
    /// Option 2 named no room.
    EmptyName,
    /// The option was neither 1 nor 2.
    InvalidOption,
}

/// A menu outcome taken by the view of its room.
pub enum ChoiceView {
    Enter(Seq<char>),
    NotFound,
    AlreadyExists,
    EmptyName,
    InvalidOption,
}

impl View for RoomChoice {
    type V = ChoiceView;

    open spec fn view(&self) -> ChoiceView {
        match self {
            RoomChoice::Enter(r) => ChoiceView::Enter(r@),
            RoomChoice::NotFound => ChoiceView::NotFound,
            RoomChoice::AlreadyExists => ChoiceView::AlreadyExists,
            RoomChoice::EmptyName => ChoiceView::EmptyName,
            RoomChoice::InvalidOption => ChoiceView::InvalidOption,
        }
    }
}

/// The room menu: option 1 joins a listed room, option 2 creates a room
/// that is not listed; the room typed is trimmed and lower-cased.
pub open spec fn choice_of(option: Seq<char>, entered: Seq<char>, active: Seq<Seq<char>>) -> ChoiceView {
    let wanted = lowercase(trimmed(entered));
    if trimmed(option) == "1"@ {
        if active.contains(wanted) {
            ChoiceView::Enter(wanted)
        } else {
            ChoiceView::NotFound
        }
    } else if trimmed(option) == "2"@ {
        if active.contains(wanted) {
            ChoiceView::AlreadyExists
        } else if wanted.len() == 0 {
            ChoiceView::EmptyName
        } else {
            ChoiceView::Enter(wanted)
        }
    } else {
        ChoiceView::InvalidOption
    }
}

/// Which room prompt an option of the room menu calls for.
pub enum RoomOption {
    /// Option 1: ask for a listed room to join.
    Join,
    /// Option 2: ask for the name of a new room.
    Create,
    /// Anything else: ask for no room.
    Other,
}

/// Reads an option of the room menu, around blanks.
pub fn room_option(option: &str) -> (o: RoomOption)
    ensures
        trimmed(option@) == "1"@ ==> o is Join,
        trimmed(option@) == "2"@ ==> o is Create,
        trimmed(option@) != "1"@ && trimmed(option@) != "2"@ ==> o is Other,
{
    proof {
        reveal_strlit("1");
        reveal_strlit("2");
        assert("1"@ != "2"@) by {
            assert("1"@[0] != "2"@[0]);
        }
    }
    let t = trim(option);
    if same_text(t.as_str(), "1") {
        RoomOption::Join
    } else if same_text(t.as_str(), "2") {
        RoomOption::Create
    } else {
        RoomOption::Other
    }
}

/// Decides one round of the room menu.
pub fn choose_room(option: &str, entered: &str, active: &Vec<String>) -> (c: RoomChoice)
    ensures
        c@ == choice_of(option@, entered@, views(active@)),
{
    let opt = trim(option);
    let typed = trim(entered);
    let wanted = to_lowercase(typed.as_str());
    if same_text(opt.as_str(), "1") {
        if contains_text(active, &wanted) {
            RoomChoice::Enter(wanted)
        } else {
            RoomChoice::NotFound
        }
    } else if same_text(opt.as_str(), "2") {
        if contains_text(active, &wanted) {
            RoomChoice::AlreadyExists
        } else if wanted.as_str().unicode_len() == 0 {
            RoomChoice::EmptyName
        } else {
            RoomChoice::Enter(wanted)
        }
    } else {
        RoomChoice::InvalidOption
    }
}

/// The secrets a client derives once it knows its room, alias and password.
pub struct ClientKeys {
    pub room_key: AesKey,
    pub whisper_key: AesKey,
    pub auth: String,
}

/// Derives the room key, the key of whispers addressed to `name`, and the
/// join credential.
pub fn derive_client_keys(password: &str, room: &str, name: &str) -> (k: ClientKeys)
    ensures
        k.room_key@ == room_key(password@, room@),
        k.whisper_key@ == whisper_key(password@, room@, name@),
        k.auth@ == auth_hash(password@, room@),
{
    ClientKeys {
        room_key: derive_key(password, room),
        whisper_key: derive_whisper_key(password, room, name),
        auth: derive_auth_hash(password, room),
    }
}

/// The text a client announces when it joins.
pub open spec fn join_text(name: Seq<char>) -> Seq<char> {
    "--- "@ + name + " has joined the grid ---"@
}

/// The `join_room` request with the announcement sealed under the room key
/// with the given nonce.
pub fn join_request_with_nonce(name: &str, room: &str, keys: &ClientKeys, nonce: &[u8]) -> (m: ChatMessage)
    requires
        nonce@.len() == NONCE_LEN,
        fits_aes(join_text(name@)),
        encodable(join_text(name@)),
    ensures
        m@ == message_view(
            "join_room"@,
            room@,
            name@,
            empty_text(),
            sealed_payload(keys.room_key@, nonce@, join_text(name@)),
            keys.auth@,
        ),
{
    let mut text = String::from_str("--- ");
    text.append(name);
    text.append(" has joined the grid ---");
    let content = match encrypt_with_nonce(&keys.room_key, nonce, text.as_str()) {
        Ok(c) => c,
        Err(_) => {
            assert(false);
            String::new()
        },
    };
    ChatMessage {
        action: String::from_str("join_room"),
        room: String::from_str(room),
        name: String::from_str(name),
        target: String::new(),
        content,
        auth: keys.auth.clone(),
    }
}

/// The `join_room` request, with the announcement sealed under a fresh
/// random nonce; whichever nonce was drawn, the request is the one
/// `join_request_with_nonce` makes with it.
pub fn join_request(name: &str, room: &str, keys: &ClientKeys) -> (m: ChatMessage)
    requires
        fits_aes(join_text(name@)),
        encodable(join_text(name@)),
    ensures
        exists|nonce: Seq<u8>|
            nonce.len() == NONCE_LEN && m@ == #[trigger] message_view(
                "join_room"@,
                room@,
                name@,
                empty_text(),
                sealed_payload(keys.room_key@, nonce, join_text(name@)),
                keys.auth@,
            ),
{
    let nonce = random_nonce();
    join_request_with_nonce(name, room, keys, nonce.as_slice())
}

/// What a line typed by the user asks for.
pub enum CommandView {
    ListUsers,
    Whisper { target: Seq<char>, text: Seq<char> },
    Say(Seq<char>),
    Malformed,
}

/// `/u` lists the room's users; `/w <alias> <text>` whispers (the alias
/// ends at the first space after `/w `, the rest is the text); a `/w `
/// line without a second space is dropped; anything else is said to the
/// room.
pub open spec fn command_of(t: Seq<char>) -> CommandView {
    if t == "/u"@ {
        CommandView::ListUsers
    } else if starts_with_seq(t, "/w "@) {
        let rest = t.subrange(3, t.len() as int);
        match first_occurrence(rest, " "@, 0) {
            Some(i) => CommandView::Whisper {
                target: rest.subrange(0, i),
                text: rest.subrange(i + 1, rest.len() as int),
            },
            None => CommandView::Malformed,
        }
    } else {
        CommandView::Say(t)
    }
}

/// What the client sends for a line its user typed.
pub enum OutgoingPlan {
    /// Send this request.
    Send(ChatMessage),
    /// Send this whisper and show the user this echo of it.
    Whisper(ChatMessage, UiMsg),
    /// Send nothing.
    Nothing,
}

/// An outgoing plan taken by the views of its parts.
pub enum PlanView {
    Send(MessageView),
    Whisper(MessageView, UiView),
    Nothing,
}

impl View for OutgoingPlan {
    type V = PlanView;

    open spec fn view(&self) -> PlanView {
        match self {
            OutgoingPlan::Send(m) => PlanView::Send(m@),
            OutgoingPlan::Whisper(m, u) => PlanView::Whisper(m@, u@),
            OutgoingPlan::Nothing => PlanView::Nothing,
        }
    }
}

/// What a client sends for line `t`, typed by `name` in `room`: a user list
/// request; a whisper sealed under the recipient's whisper key, with an echo
/// for the sender; a message sealed under the room key; or nothing, for a
/// malformed whisper or a text too long to seal.
pub open spec fn outgoing_plan(
    t: Seq<char>,
    password: Seq<char>,
    room: Seq<char>,
    name: Seq<char>,
    key: Seq<u8>,
    nonce: Seq<u8>,
) -> PlanView {
    match command_of(t) {
        CommandView::ListUsers => PlanView::Send(
            message_view("get_users"@, room, name, empty_text(), empty_text(), empty_text()),
        ),
        CommandView::Whisper { target, text } => if fits_aes(text) {
            PlanView::Whisper(
                message_view(
                    "message"@,
                    room,
                    name,
                    target,
                    sealed_payload(whisper_key(password, room, target), nonce, text),
                    empty_text(),
                ),
                UiView::Whisper { sender: name, recipient: target, text, is_outgoing: true },
            )
        } else {
            PlanView::Nothing
        },
        CommandView::Say(text) => if fits_aes(text) {
            PlanView::Send(
                message_view("message"@, room, name, empty_text(), sealed_payload(key, nonce, text), empty_text()),
            )
        } else {
            PlanView::Nothing
        },
        CommandView::Malformed => PlanView::Nothing,
    }
}

/// Every request a client builds for a typed line carries the client's room
/// in its room field and the client's alias in its name field; a message or
/// whisper is a `message`, and only a whisper names a target.
pub proof fn lemma_plan_addresses(
    t: Seq<char>,
    password: Seq<char>,
    room: Seq<char>,
    name: Seq<char>,
    key: Seq<u8>,
    nonce: Seq<u8>,
)
    ensures
        ({
            let plan = outgoing_plan(t, password, room, name, key, nonce);
            &&& plan is Send ==> plan->Send_0.room == room && plan->Send_0.name == name
            &&& plan is Whisper ==> plan->Whisper_0.room == room && plan->Whisper_0.name == name
                && plan->Whisper_0.action == "message"@ && command_of(t) is Whisper
                && plan->Whisper_0.target == command_of(t)->target
            &&& command_of(t) is Say && fits_aes(t) ==> plan is Send && plan->Send_0.action == "message"@
                && plan->Send_0.target.len() == 0
        }),
{
}

/// A public line typed by a member of a room reaches the room: the relay,
/// given the message the client plans from a session that has joined, relays
/// the line to that room (lower-cased) and changes nothing else.
pub proof fn lemma_public_line_is_relayed(
    rooms: Seq<RoomView>,
    s: SessionView,
    t: Seq<char>,
    password: Seq<char>,
    room: Seq<char>,
    name: Seq<char>,
    key: Seq<u8>,
    nonce: Seq<u8>,
    line: Seq<char>,
)
    requires
        registry_wf(rooms),
        s.authenticated,
        room_pos(rooms, lowercase(room)) is Some,
        command_of(t) is Say,
        fits_aes(t),
    ensures
        outgoing_plan(t, password, room, name, key, nonce) is Send,
        server_step(rooms, s, outgoing_plan(t, password, room, name, key, nonce)->Send_0, line) == (
            rooms,
            s,
            seq![ActionView::Relay(lowercase(room), line)],
        ),
{
    reveal_strlit("message");
    reveal_strlit("ping");
    reveal_strlit("list_rooms");
    reveal_strlit("get_users");
    reveal_strlit("join_room");
    assert("message"@ != "ping"@) by {
        assert("message"@[0] != "ping"@[0]);
    }
    assert("message"@ != "list_rooms"@) by {
        assert("message"@[0] != "list_rooms"@[0]);
    }
    assert("message"@ != "get_users"@) by {
        assert("message"@[0] != "get_users"@[0]);
    }
    assert("message"@ != "join_room"@) by {
        assert("message"@[0] != "join_room"@[0]);
    }
}

/// Decides what to send for line `text`, sealing with the given nonce.
pub fn plan_outgoing_with_nonce(
    text: &str,
    password: &str,
    room: &str,
    name: &str,
    key: &AesKey,
    nonce: &[u8],
) -> (plan: OutgoingPlan)
    requires
        nonce@.len() == NONCE_LEN,
        encodable(text@),
    ensures
        plan@ == outgoing_plan(text@, password@, room@, name@, key@, nonce@),
        plan matches OutgoingPlan::Send(m) ==> m.room@ == room@ && m.name@ == name@,
        plan matches OutgoingPlan::Whisper(m, _) ==> m.room@ == room@ && m.name@ == name@ && m.action@
            == "message"@,
{
    proof {
        reveal_strlit("");
        reveal_strlit("/w ");
        reveal_strlit(" ");
    }
    assert(""@ =~= empty_text());
    if same_text(text, "/u") {
        return OutgoingPlan::Send(ChatMessage::new("get_users", room, name, "", "", ""));
    }
    if starts_with(text, "/w ") {
        let n = text.unicode_len();
        let rest = text.substring_char(3, n);
        let m = rest.unicode_len();
        proof {
            crate::text::lemma_first_occurrence(rest@, " "@, 0);
        }
        return match find(rest, " ") {
            Some(i) => {
                assert(first_occurrence(rest@, " "@, 0) == Some(i as int));
                let target = rest.substring_char(0, i);
                let body = rest.substring_char(i + 1, m);
                proof {
                    assert(body@ == text@.subrange(4 + i, n as int));
                    lemma_encodable_subrange(text@, 4 + i, n as int);
                }
                let wkey = derive_whisper_key(password, room, target);
                match encrypt_with_nonce(&wkey, nonce, body) {
                    Ok(c) => OutgoingPlan::Whisper(
                        ChatMessage::new("message", room, name, target, c.as_str(), ""),
                        UiMsg::Whisper {
                            sender: String::from_str(name),
                            recipient: String::from_str(target),
                            text: String::from_str(body),
                            is_outgoing: true,
                        },
                    ),
                    Err(_) => OutgoingPlan::Nothing,
                }
            },
            None => OutgoingPlan::Nothing,
        };
    }
    match encrypt_with_nonce(key, nonce, text) {
        Ok(c) => OutgoingPlan::Send(ChatMessage::new("message", room, name, "", c.as_str(), "")),
        Err(_) => OutgoingPlan::Nothing,
    }
}

/// Decides what to send for line `text`, sealing with a fresh random nonce;
/// whichever nonce was drawn, the plan is the one made with it.
pub fn plan_outgoing(text: &str, password: &str, room: &str, name: &str, key: &AesKey) -> (plan: OutgoingPlan)
    requires
        encodable(text@),
    ensures
        exists|nonce: Seq<u8>|
            nonce.len() == NONCE_LEN && plan@ == #[trigger] outgoing_plan(text@, password@, room@, name@, key@, nonce),
{
    let nonce = random_nonce();
    plan_outgoing_with_nonce(text, password, room, name, key, nonce.as_slice())
}

/// What the client does with a message the relay forwards.
pub enum Incoming {
    /// Show this entry and stop reading from the relay.
    Stop(UiMsg),
    /// Show this entry.
    Show(UiMsg),
    /// Show nothing.
    Ignore,
}

/// An incoming decision taken by the view of its entry.
pub enum IncomingView {
    Stop(UiView),
    Show(UiView),
    Ignore,
}

impl View for Incoming {
    type V = IncomingView;

    open spec fn view(&self) -> IncomingView {
        match self {
            Incoming::Stop(u) => IncomingView::Stop(u@),
            Incoming::Show(u) => IncomingView::Show(u@),
            Incoming::Ignore => IncomingView::Ignore,
        }
    }
}

/// The plaintext of a forwarded message, for the client called `my_name`:
/// a whisper is opened with the client's whisper key, and only if it is
/// addressed to the client (names compared lower-cased); anything else
/// with the room key. `None` where that fails.
pub open spec fn plaintext_for(m: MessageView, my_name: Seq<char>, room_key: Seq<u8>, whisper_key: Seq<u8>) -> Option<
    Seq<char>,
> {
    let d = if m.target.len() > 0 {
        if lowercase(m.target) == lowercase(my_name) {
            decryption(whisper_key, m.content)
        } else {
            Err(empty_text())
        }
    } else {
        decryption(room_key, m.content)
    };
    match d {
        Ok(p) => Some(p),
        Err(_) => None,
    }
}

/// What the client does with a forwarded message: an `error` is shown and
/// ends the session; a user list and a disconnect notice are shown as
/// system lines; anything else is decrypted and shown as a system line, a
/// whisper or a public message, or dropped if it does not decrypt.
pub open spec fn incoming_outcome(m: MessageView, my_name: Seq<char>, room_key: Seq<u8>, whisper_key: Seq<u8>) -> IncomingView {
    if m.action == "error"@ {
        IncomingView::Stop(UiView::Error(m.content + " Press Esc to quit."@))
    } else if m.action == "user_list"@ {
        IncomingView::Show(UiView::System("Active Users: "@ + m.content))
    } else if m.action == "system"@ && contains_seq(m.content, "disconnected"@) {
        IncomingView::Show(UiView::System(m.content))
    } else {
        match plaintext_for(m, my_name, room_key, whisper_key) {
            Some(p) => if m.action == "system"@ {
                IncomingView::Show(UiView::System(p))
            } else if m.target.len() > 0 {
                IncomingView::Show(
                    UiView::Whisper { sender: m.name, recipient: my_name, text: p, is_outgoing: false },
                )
            } else {
                IncomingView::Show(UiView::Public(m.name, p))
            },
            None => IncomingView::Ignore,
        }
    }
}

/// A whisper addressed to someone else is never decrypted or shown: the
/// client ignores it, whatever it holds.
pub proof fn lemma_foreign_whisper_ignored(m: MessageView, my_name: Seq<char>, room_key: Seq<u8>, whisper_key: Seq<u8>)
    requires
        m.action == "message"@,
        m.target.len() > 0,
        lowercase(m.target) != lowercase(my_name),
    ensures
        incoming_outcome(m, my_name, room_key, whisper_key) == IncomingView::Ignore,
{
    reveal_strlit("message");
    reveal_strlit("error");
    reveal_strlit("user_list");
    reveal_strlit("system");
    assert("error"@ != "message"@) by {
        assert("error"@.len() != "message"@.len());
    }
    assert("user_list"@ != "message"@) by {
        assert("user_list"@[0] != "message"@[0]);
    }
    assert("system"@ != "message"@) by {
        assert("system"@.len() != "message"@.len());
    }
}

/// Decides what to show of a message that the relay forwards.
pub fn handle_incoming(msg: &ChatMessage, my_name: &str, room_key: &AesKey, whisper_key: &AesKey) -> (res: Incoming)
    ensures
        res@ == incoming_outcome(msg@, my_name@, room_key@, whisper_key@),
        forall|nonce: Seq<u8>, t: Seq<char>|
            msg@.action == "message"@ && msg@.target.len() == 0 && nonce.len() == NONCE_LEN && fits_aes(t)
                && msg@.content.len() > 0 && msg@.content == #[trigger] sealed_payload(room_key@, nonce, t)
                ==> res@ == IncomingView::Show(UiView::Public(msg@.name, t)),
        forall|nonce: Seq<u8>, t: Seq<char>|
            msg@.action == "message"@ && msg@.target.len() > 0 && lowercase(msg@.target) == lowercase(my_name@)
                && nonce.len() == NONCE_LEN && fits_aes(t) && msg@.content.len() > 0 && msg@.content
                == #[trigger] sealed_payload(whisper_key@, nonce, t) ==> res@ == IncomingView::Show(
                UiView::Whisper { sender: msg@.name, recipient: my_name@, text: t, is_outgoing: false },
            ),
{
    proof {
        reveal_strlit("error");
        reveal_strlit("message");
        reveal_strlit("user_list");
        reveal_strlit("system");
        assert("error"@ != "message"@) by {
            assert("error"@.len() != "message"@.len());
        }
        assert("user_list"@ != "message"@) by {
            assert("user_list"@[0] != "message"@[0]);
        }
        assert("system"@ != "message"@) by {
            assert("system"@.len() != "message"@.len());
        }
    }
    if same_text(msg.action.as_str(), "error") {
        let mut t = msg.content.clone();
        t.append(" Press Esc to quit.");
        return Incoming::Stop(UiMsg::Error(t));
    }
    if same_text(msg.action.as_str(), "user_list") {
        let mut t = String::from_str("Active Users: ");
        t.append(msg.content.as_str());
        return Incoming::Show(UiMsg::System(t));
    }
    let is_system = same_text(msg.action.as_str(), "system");
    if is_system && contains(msg.content.as_str(), "disconnected") {
        return Incoming::Show(UiMsg::System(msg.content.clone()));
    }
    let whisper = msg.target.as_str().unicode_len() > 0;
    let decrypted: Option<String> = if whisper {
        let target = to_lowercase(msg.target.as_str());
        let me = to_lowercase(my_name);
        if target == me {
            match decrypt_with_key(whisper_key, msg.content.as_str()) {
                Ok(p) => Some(p),
                Err(_) => None,
            }
        } else {
            None
        }
    } else {
        match decrypt_with_key(room_key, msg.content.as_str()) {
            Ok(p) => Some(p),
            Err(_) => None,
        }
    };
    match decrypted {
        Some(p) => if is_system {
            Incoming::Show(UiMsg::System(p))
        } else if whisper {
            Incoming::Show(
                UiMsg::Whisper {
                    sender: msg.name.clone(),
                    recipient: String::from_str(my_name),
                    text: p,
                    is_outgoing: false,
                },
            )
        } else {
            Incoming::Show(UiMsg::Public(msg.name.clone(), p))
        },
        None => Incoming::Ignore,
    }
}

} // verus!
