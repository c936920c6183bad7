use airaa_chat::message::ChatMessage;
use airaa_chat::server::{lag_notice, Registry, ServerAction, Session};

fn msg(action: &str, room: &str, name: &str, target: &str, content: &str, auth: &str) -> ChatMessage {
    ChatMessage::new(action, room, name, target, content, auth)
}

fn describe(actions: &[ServerAction]) -> Vec<String> {
    actions
        .iter()
        .map(|a| match a {
            ServerAction::Reply(m) => format!("reply {} {} {} {} {}", m.action, m.room, m.name, m.target, m.content),
            ServerAction::OpenChannel(r) => format!("open {}", r),
            ServerAction::Listen(r) => format!("listen {}", r),
            ServerAction::Broadcast(r, m) => {
                format!("broadcast {} {} {} {} {} {} {}", r, m.action, m.room, m.name, m.target, m.content, m.auth)
            }
            ServerAction::Relay(r, l) => format!("relay {} {}", r, l),
            ServerAction::CloseChannel(r) => format!("close {}", r),
        })
        .collect()
}

#[test]
fn empty_grid_lists_no_room() {
    let mut reg = Registry::new();
    let mut s = Session::new();
    let out = reg.handle_message(&mut s, &msg("list_rooms", "", "", "", "", ""), "line\n");
    assert_eq!(describe(&out), vec!["reply room_list system Router  Grid is empty. Initialize a new room."]);
}

#[test]
fn first_join_opens_the_room() {
    let mut reg = Registry::new();
    let mut s = Session::new();
    let out = reg.handle_message(&mut s, &msg("join_room", "Lobby", "Alice", "x", "enc", "H1"), "l\n");
    assert_eq!(describe(&out), vec!["open lobby", "broadcast lobby system Lobby Alice  enc H1"]);
    assert_eq!(s.room.as_deref(), Some("lobby"));
    assert_eq!(s.name.as_deref(), Some("alice"));
    assert!(s.authenticated);
    assert_eq!(reg.len(), 1);
    let list = reg.handle_message(&mut s, &msg("list_rooms", "", "", "", "", ""), "l\n");
    assert_eq!(describe(&list), vec!["reply room_list system Router  lobby"]);
}

#[test]
fn join_with_wrong_password_is_refused() {
    let mut reg = Registry::new();
    let mut a = Session::new();
    reg.handle_message(&mut a, &msg("join_room", "lobby", "alice", "", "c", "H1"), "l\n");
    let mut b = Session::new();
    let out = reg.handle_message(&mut b, &msg("join_room", "LOBBY", "bob", "", "c", "H2"), "l\n");
    assert_eq!(describe(&out), vec!["reply error system Router  Incorrect password."]);
    assert!(!b.authenticated);
    assert_eq!(b.room, None);
    let users = reg.handle_message(&mut a, &msg("get_users", "lobby", "alice", "", "", ""), "l\n");
    assert_eq!(describe(&users), vec!["reply user_list lobby System  alice"]);
}

#[test]
fn alias_in_use_is_refused() {
    let mut reg = Registry::new();
    let mut a = Session::new();
    reg.handle_message(&mut a, &msg("join_room", "lobby", "alice", "", "c", "H"), "l\n");
    let mut b = Session::new();
    let out = reg.handle_message(&mut b, &msg("join_room", "lobby", "ALICE", "", "c", "H"), "l\n");
    assert_eq!(describe(&out), vec!["reply error system Router  Alias 'ALICE' is already taken."]);
    let ok = reg.handle_message(&mut b, &msg("join_room", "lobby", "Bob", "", "c", "H"), "l\n");
    assert_eq!(describe(&ok), vec!["listen lobby", "broadcast lobby system lobby Bob  c H"]);
    let users = reg.handle_message(&mut b, &msg("get_users", "Lobby", "bob", "", "", ""), "l\n");
    assert_eq!(describe(&users), vec!["reply user_list lobby System  alice, bob"]);
}

#[test]
fn messages_are_relayed_only_for_members_and_present_targets() {
    let mut reg = Registry::new();
    let mut a = Session::new();
    let mut stranger = Session::new();
    reg.handle_message(&mut a, &msg("join_room", "lobby", "alice", "", "c", "H"), "l\n");
    let out = reg.handle_message(&mut stranger, &msg("message", "lobby", "eve", "", "x", ""), "raw\n");
    assert!(out.is_empty());
    let users = reg.handle_message(&mut stranger, &msg("get_users", "lobby", "eve", "", "", ""), "l\n");
    assert!(users.is_empty());
    let out = reg.handle_message(&mut a, &msg("message", "Lobby", "alice", "", "x", ""), "raw line\n");
    assert_eq!(describe(&out), vec!["relay lobby raw line\n"]);
    let out = reg.handle_message(&mut a, &msg("message", "lobby", "alice", "Bob", "x", ""), "w\n");
    assert_eq!(
        describe(&out),
        vec!["reply system lobby Router  \u{26a0}\u{fe0f} Whisper failed: User 'Bob' is not in the room."]
    );
    let out = reg.handle_message(&mut a, &msg("message", "lobby", "alice", "ALICE", "x", ""), "w2\n");
    assert_eq!(describe(&out), vec!["relay lobby w2\n"]);
    let out = reg.handle_message(&mut a, &msg("message", "nowhere", "alice", "", "x", ""), "w3\n");
    assert!(out.is_empty());
    let out = reg.handle_message(&mut a, &msg("ping", "", "alice", "", "", ""), "p\n");
    assert!(out.is_empty());
    let out = reg.handle_message(&mut a, &msg("dance", "lobby", "alice", "", "", ""), "d\n");
    assert!(out.is_empty());
}

#[test]
fn disconnect_announces_and_closes_empty_rooms() {
    let mut reg = Registry::new();
    let mut a = Session::new();
    let mut b = Session::new();
    reg.handle_message(&mut a, &msg("join_room", "lobby", "alice", "", "c", "H"), "l\n");
    reg.handle_message(&mut b, &msg("join_room", "lobby", "bob", "", "c", "H"), "l\n");
    let out = reg.disconnect(&b);
    assert_eq!(describe(&out), vec!["broadcast lobby system lobby Router  --- bob disconnected --- "]);
    assert_eq!(reg.len(), 1);
    let out = reg.disconnect(&a);
    assert_eq!(
        describe(&out),
        vec!["broadcast lobby system lobby Router  --- alice disconnected --- ", "close lobby"]
    );
    assert_eq!(reg.len(), 0);
    assert!(reg.disconnect(&Session::new()).is_empty());
}

#[test]
fn switching_rooms_leaves_the_old_one() {
    let mut reg = Registry::new();
    let mut a = Session::new();
    let mut b = Session::new();
    reg.handle_message(&mut a, &msg("join_room", "one", "alice", "", "c", "H"), "l\n");
    reg.handle_message(&mut b, &msg("join_room", "one", "bob", "", "c", "H"), "l\n");
    reg.handle_message(&mut a, &msg("join_room", "two", "alice", "", "c", "K"), "l\n");
    let users = reg.handle_message(&mut b, &msg("get_users", "one", "bob", "", "", ""), "l\n");
    assert_eq!(describe(&users), vec!["reply user_list one System  bob"]);
    let list = reg.handle_message(&mut b, &msg("list_rooms", "", "", "", "", ""), "l\n");
    assert_eq!(describe(&list), vec!["reply room_list system Router  one, two"]);
}

#[test]
fn lag_notice_counts_dropped_messages() {
    let m = lag_notice(17);
    assert_eq!(m.action, "system");
    assert_eq!(m.room, "system");
    assert_eq!(m.name, "Router");
    assert_eq!(m.content, "\u{26a0}\u{fe0f} Dropped 17 message(s).");
    assert_eq!(m.target, "");
    assert_eq!(m.auth, "");
}

#[test]
fn opening_a_room_and_leaving_restores_the_grid() {
    let mut reg = Registry::new();
    let mut a = Session::new();
    reg.handle_message(&mut a, &msg("join_room", "lobby", "alice", "", "c", "H"), "l\n");
    let mut probe = Session::new();
    let before = describe(&reg.handle_message(&mut probe, &msg("list_rooms", "", "", "", "", ""), "l\n"));
    let mut b = Session::new();
    reg.handle_message(&mut b, &msg("join_room", "Attic", "bob", "", "c", "K"), "l\n");
    assert_eq!(reg.len(), 2);
    reg.disconnect(&b);
    let after = describe(&reg.handle_message(&mut probe, &msg("list_rooms", "", "", "", "", ""), "l\n"));
    assert_eq!(before, after);
    assert_eq!(reg.len(), 1);
}

#[test]
fn credential_survives_every_member_change() {
    let mut reg = Registry::new();
    let mut a = Session::new();
    let mut b = Session::new();
    reg.handle_message(&mut a, &msg("join_room", "lobby", "alice", "", "c", "H"), "l\n");
    reg.handle_message(&mut b, &msg("join_room", "lobby", "bob", "", "c", "H"), "l\n");
    reg.disconnect(&a);
    let mut c = Session::new();
    let out = reg.handle_message(&mut c, &msg("join_room", "lobby", "carol", "", "c", "OTHER"), "l\n");
    assert_eq!(describe(&out), vec!["reply error system Router  Incorrect password."]);
    let out = reg.handle_message(&mut c, &msg("join_room", "lobby", "carol", "", "c", "H"), "l\n");
    assert_eq!(describe(&out), vec!["listen lobby", "broadcast lobby system lobby carol  c H"]);
}
