use airaa_chat::client::{room_option, RoomOption};
use airaa_chat::client::{
    choose_room, derive_client_keys, handle_incoming, join_request_with_nonce, list_rooms_request,
    parse_room_list, ping_request, plan_outgoing, plan_outgoing_with_nonce, Incoming, OutgoingPlan, RoomChoice,
    RoomListing, UiMsg,
};
use airaa_chat::crypto::{decrypt_with_key, derive_key, derive_whisper_key, encrypt_with_key, encrypt_with_nonce};
use airaa_chat::message::ChatMessage;

fn msg(action: &str, room: &str, name: &str, target: &str, content: &str) -> ChatMessage {
    ChatMessage::new(action, room, name, target, content, "")
}

#[test]
fn requests_carry_their_action() {
    let l = list_rooms_request();
    assert_eq!((l.action.as_str(), l.room.as_str(), l.name.as_str()), ("list_rooms", "", ""));
    let p = ping_request("alice");
    assert_eq!((p.action.as_str(), p.name.as_str(), p.content.as_str()), ("ping", "alice", ""));
}

#[test]
fn room_list_is_read() {
    match parse_room_list(&msg("room_list", "system", "Router", "", "lobby, games")) {
        Some(RoomListing::Rooms(r)) => assert_eq!(r, vec!["lobby".to_string(), "games".to_string()]),
        _ => panic!("expected rooms"),
    }
    match parse_room_list(&msg("room_list", "system", "Router", "", "Grid is empty. Initialize a new room.")) {
        Some(RoomListing::Empty(t)) => assert_eq!(t, "Grid is empty. Initialize a new room."),
        _ => panic!("expected an empty grid"),
    }
    assert!(parse_room_list(&msg("error", "", "", "", "x")).is_none());
}

#[test]
fn room_menu() {
    let active = vec!["lobby".to_string(), "games".to_string()];
    assert!(matches!(choose_room(" 1 ", "  LOBBY ", &active), RoomChoice::Enter(r) if r == "lobby"));
    assert!(matches!(choose_room("1", "other", &active), RoomChoice::NotFound));
    assert!(matches!(choose_room("2", "Games", &active), RoomChoice::AlreadyExists));
    assert!(matches!(choose_room("2", "   ", &active), RoomChoice::EmptyName));
    assert!(matches!(choose_room("2", " New Room ", &active), RoomChoice::Enter(r) if r == "new room"));
    assert!(matches!(choose_room("3", "lobby", &active), RoomChoice::InvalidOption));
}

#[test]
fn join_request_announces_the_alias() {
    let keys = derive_client_keys("pw", "lobby", "alice");
    let nonce = [3u8; 12];
    let m = join_request_with_nonce("alice", "lobby", &keys, &nonce);
    assert_eq!(m.action, "join_room");
    assert_eq!(m.room, "lobby");
    assert_eq!(m.name, "alice");
    assert_eq!(m.target, "");
    assert_eq!(m.auth, keys.auth);
    assert_eq!(decrypt_with_key(&keys.room_key, &m.content).unwrap(), "--- alice has joined the grid ---");
    assert_eq!(keys.whisper_key.bytes, derive_whisper_key("pw", "lobby", "alice").bytes);
}

#[test]
fn typed_lines_become_requests() {
    let key = derive_key("pw", "lobby");
    let nonce = [5u8; 12];
    match plan_outgoing_with_nonce("/u", "pw", "lobby", "alice", &key, &nonce) {
        OutgoingPlan::Send(m) => assert_eq!((m.action.as_str(), m.room.as_str(), m.name.as_str()), ("get_users", "lobby", "alice")),
        _ => panic!("expected a user list request"),
    }
    match plan_outgoing_with_nonce("hello all", "pw", "lobby", "alice", &key, &nonce) {
        OutgoingPlan::Send(m) => {
            assert_eq!((m.action.as_str(), m.target.as_str()), ("message", ""));
            assert_eq!(m.content, encrypt_with_nonce(&key, &nonce, "hello all").unwrap());
        }
        _ => panic!("expected a message"),
    }
    match plan_outgoing_with_nonce("/w Bob hi there bob", "pw", "lobby", "alice", &key, &nonce) {
        OutgoingPlan::Whisper(m, echo) => {
            assert_eq!((m.action.as_str(), m.target.as_str()), ("message", "Bob"));
            let bob_key = derive_whisper_key("pw", "lobby", "bob");
            assert_eq!(decrypt_with_key(&bob_key, &m.content).unwrap(), "hi there bob");
            assert!(matches!(echo, UiMsg::Whisper { ref recipient, ref text, is_outgoing: true, .. }
                if recipient == "Bob" && text == "hi there bob"));
        }
        _ => panic!("expected a whisper"),
    }
    assert!(matches!(plan_outgoing_with_nonce("/w bob", "pw", "lobby", "alice", &key, &nonce), OutgoingPlan::Nothing));
    assert!(matches!(plan_outgoing("/w", "pw", "lobby", "alice", &key), OutgoingPlan::Send(_)));
}

#[test]
fn public_message_round_trip() {
    let key = derive_key("pw", "lobby");
    let wkey = derive_whisper_key("pw", "lobby", "carol");
    let content = encrypt_with_key(&key, "good morning").unwrap();
    match handle_incoming(&msg("message", "lobby", "bob", "", &content), "carol", &key, &wkey) {
        Incoming::Show(UiMsg::Public(sender, text)) => {
            assert_eq!(sender, "bob");
            assert_eq!(text, "good morning");
        }
        _ => panic!("expected a public message"),
    }
    let wrong = derive_key("other", "lobby");
    assert!(matches!(handle_incoming(&msg("message", "lobby", "bob", "", &content), "carol", &wrong, &wkey), Incoming::Ignore));
}

#[test]
fn whispers_reach_only_their_recipient() {
    let room_key = derive_key("pw", "lobby");
    let sealed = encrypt_with_key(&derive_whisper_key("pw", "lobby", "Carol"), "psst").unwrap();
    let carol = derive_whisper_key("pw", "lobby", "carol");
    match handle_incoming(&msg("message", "lobby", "bob", "CAROL", &sealed), "Carol", &room_key, &carol) {
        Incoming::Show(UiMsg::Whisper { sender, recipient, text, is_outgoing }) => {
            assert_eq!((sender.as_str(), recipient.as_str(), text.as_str(), is_outgoing), ("bob", "Carol", "psst", false));
        }
        _ => panic!("expected a whisper"),
    }
    let dave = derive_whisper_key("pw", "lobby", "dave");
    assert!(matches!(handle_incoming(&msg("message", "lobby", "bob", "CAROL", &sealed), "dave", &room_key, &dave), Incoming::Ignore));
}

#[test]
fn relay_notices_are_shown() {
    let k = derive_key("pw", "lobby");
    match handle_incoming(&msg("error", "system", "Router", "", "Incorrect password."), "a", &k, &k) {
        Incoming::Stop(UiMsg::Error(t)) => assert_eq!(t, "Incorrect password. Press Esc to quit."),
        _ => panic!("expected an error"),
    }
    match handle_incoming(&msg("user_list", "lobby", "System", "", "alice, bob"), "a", &k, &k) {
        Incoming::Show(UiMsg::System(t)) => assert_eq!(t, "Active Users: alice, bob"),
        _ => panic!("expected a user list"),
    }
    match handle_incoming(&msg("system", "lobby", "Router", "", "--- bob disconnected ---"), "a", &k, &k) {
        Incoming::Show(UiMsg::System(t)) => assert_eq!(t, "--- bob disconnected ---"),
        _ => panic!("expected a notice"),
    }
    let joined = encrypt_with_key(&k, "--- bob has joined the grid ---").unwrap();
    match handle_incoming(&msg("system", "lobby", "bob", "", &joined), "a", &k, &k) {
        Incoming::Show(UiMsg::System(t)) => assert_eq!(t, "--- bob has joined the grid ---"),
        _ => panic!("expected the join announcement"),
    }
}

#[test]
fn room_menu_options_pick_the_prompt() {
    assert!(matches!(room_option(" 1\n"), RoomOption::Join));
    assert!(matches!(room_option("2"), RoomOption::Create));
    assert!(matches!(room_option("12"), RoomOption::Other));
}
