use airaa_chat::client::UiMsg;
use airaa_chat::host::{
    confirms_install, hidden_service_config, local_address, onion_hostname, parse_operation, parse_route,
    path_from_lookup, public_uplink, resolve_port, Operation, Route,
};
use airaa_chat::ui::{
    first_visible, header_text, input_line, input_title, next_wait, on_enter, onion_address, prune_history,
    render_line, server_address, EnterAction, Tone, Wait,
};

#[test]
fn launcher_menus() {
    assert!(matches!(parse_operation(" 1\n"), Operation::Host));
    assert!(matches!(parse_operation("2"), Operation::Join));
    assert!(matches!(parse_operation("x"), Operation::Invalid));
    assert!(matches!(parse_route("2\n"), Route::Ngrok));
    assert!(matches!(parse_route("3"), Route::Tor));
    assert!(matches!(parse_route("1"), Route::Local));
    assert!(matches!(parse_route(""), Route::Local));
    assert!(confirms_install(" Y \n"));
    assert!(!confirms_install("yes"));
}

#[test]
fn ports_and_addresses() {
    assert_eq!(resolve_port("\n"), "3000");
    assert_eq!(resolve_port(" 4000 \n"), "4000");
    assert_eq!(local_address("4000"), "127.0.0.1:4000");
    assert_eq!(public_uplink("tcp://0.tcp.ngrok.io:12345"), "0.tcp.ngrok.io:12345");
    assert_eq!(server_address("  \n"), "127.0.0.1:3000");
    assert_eq!(server_address(" 192.168.1.50:3000\n"), "192.168.1.50:3000");
    assert_eq!(onion_address("abc.onion"), Some("abc.onion:80".to_string()));
    assert_eq!(onion_address("abc.onion:80"), None);
    assert_eq!(onion_address("127.0.0.1:3000"), None);
}

#[test]
fn executable_lookup_and_hidden_service() {
    assert_eq!(path_from_lookup("C:\\bin\\ngrok.exe\r\nC:\\x\\ngrok.exe\r\n"), Some("C:\\bin\\ngrok.exe".to_string()));
    assert_eq!(path_from_lookup(" \n"), None);
    assert_eq!(
        hidden_service_config("/tmp/hs", "3000"),
        "SocksPort 9050\nHiddenServiceDir /tmp/hs\nHiddenServicePort 80 127.0.0.1:3000\n"
    );
    assert_eq!(onion_hostname("abcdef.onion\n"), Some("abcdef.onion".to_string()));
    assert_eq!(onion_hostname("\n"), None);
}

#[test]
fn enter_key() {
    assert!(matches!(on_enter(" /!exit! "), EnterAction::Quit));
    assert!(matches!(on_enter("/h"), EnterAction::Show(UiMsg::System(t))
        if t == "Commands: /u (List Users) | /w [Alias] [Message] (Whisper) | /!exit! (Quit)"));
    assert!(matches!(on_enter("  hi  "), EnterAction::Send(t) if t == "hi"));
    assert!(matches!(on_enter("   "), EnterAction::Nothing));
}

#[test]
fn history_is_pruned_and_windowed() {
    let mut h: Vec<u32> = (0..1001).collect();
    prune_history(&mut h);
    assert_eq!(h.len(), 901);
    assert_eq!(h[0], 100);
    let mut small: Vec<u32> = (0..1000).collect();
    prune_history(&mut small);
    assert_eq!(small.len(), 1000);
    assert_eq!(first_visible(50, 12), 40);
    assert_eq!(first_visible(5, 12), 0);
    assert_eq!(first_visible(5, 1), 5);
}

#[test]
fn lines_are_rendered() {
    let l = render_line(&UiMsg::System("hello".to_string()));
    assert_eq!((l.lead.as_str(), l.body.as_str()), ("\u{26a1} hello", ""));
    assert!(matches!(l.tone, Tone::Notice));
    let l = render_line(&UiMsg::Public("bob".to_string(), "hi".to_string()));
    assert_eq!((l.lead.as_str(), l.body.as_str()), ("bob: ", "hi"));
    let out = UiMsg::Whisper { sender: "a".into(), recipient: "b".into(), text: "t".into(), is_outgoing: true };
    assert_eq!(render_line(&out).lead, "\u{1f977} [You \u{2192} b]: ");
    let inc = UiMsg::Whisper { sender: "a".into(), recipient: "b".into(), text: "t".into(), is_outgoing: false };
    assert_eq!(render_line(&inc).lead, "\u{1f977} [Whisper from a]: ");
    let e = render_line(&UiMsg::Error("bad".to_string()));
    assert_eq!(e.lead, "\u{274c} bad");
    assert!(matches!(e.tone, Tone::Alert));
    assert_eq!(
        header_text("Local", "lobby"),
        " Airaa Grid | Uplink: Local | Room: lobby | Cmds: /h Help | /u Users | /w Whisper | /!exit! Quit | ESC Exit "
    );
    assert_eq!(input_line("abc"), "> abc\u{2588}");
    assert_eq!(input_title("alice"), " alice ");
}

#[test]
fn waiting_for_tor() {
    assert!(matches!(next_wait(0, true), Wait::Ready));
    assert!(matches!(next_wait(0, false), Wait::Retry));
    assert!(matches!(next_wait(59, false), Wait::GiveUp));
}
