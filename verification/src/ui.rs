//! The client's terminal screen and connection set-up: what a key press
//! does, how much history is kept and shown, how each entry is drawn, and
//! which address a client dials.
use vstd::prelude::*;
use crate::client::{UiMsg, UiView};
use crate::text::{trimmed, trim, same_text, ends_with, ends_with_seq, contains, contains_seq};

verus! {

/// What pressing Enter does with the input line.
pub enum EnterAction {
    /// Leave the chat.
    Quit,
    /// Add this entry to the history without sending anything.
    Show(UiMsg),
    /// Send this (trimmed) line.
    Send(String),
    /// Do nothing.
    Nothing,
}

/// An Enter decision taken by the views of its parts.
pub enum EnterView {
    Quit,
    Show(UiView),
    Send(Seq<char>),
    Nothing,
}

impl View for EnterAction {
    type V = EnterView;

    open spec fn view(&self) -> EnterView {
        match self {
            EnterAction::Quit => EnterView::Quit,
            EnterAction::Show(u) => EnterView::Show(u@),
            EnterAction::Send(t) => EnterView::Send(t@),
            EnterAction::Nothing => EnterView::Nothing,
        }
    }
}

/// The help line that `/h` shows.
pub open spec fn help_text() -> Seq<char> {
    "Commands: /u (List Users) | /w [Alias] [Message] (Whisper) | /!exit! (Quit)"@
}

/// Enter on `/!exit!` quits, on `/h` shows the help line, on any other
/// non-blank line sends it trimmed, and on a blank line does nothing.
pub open spec fn enter_action(buffer: Seq<char>) -> EnterView {
    let t = trimmed(buffer);
    if t == "/!exit!"@ {
        EnterView::Quit
    } else if t == "/h"@ {
        EnterView::Show(UiView::System(help_text()))
    } else if t.len() > 0 {
        EnterView::Send(t)
    } else {
        EnterView::Nothing
    }
}

/// Decides what Enter does with the input line.
pub fn on_enter(buffer: &str) -> (a: EnterAction)
    ensures
        a@ == enter_action(buffer@),
{
    let t = trim(buffer);
    if same_text(t.as_str(), "/!exit!") {
        EnterAction::Quit
    } else if same_text(t.as_str(), "/h") {
        EnterAction::Show(
            UiMsg::System(
                String::from_str("Commands: /u (List Users) | /w [Alias] [Message] (Whisper) | /!exit! (Quit)"),
            ),
        )
    } else if t.as_str().unicode_len() > 0 {
        EnterAction::Send(t)
    } else {
        EnterAction::Nothing
    }
}

/// Most history entries kept before the oldest are dropped.
pub const HISTORY_LIMIT: usize = 1000;

/// How many of the oldest entries are dropped at once.
pub const HISTORY_DROP: usize = 100;

/// Drops the oldest hundred entries once the history holds more than a
/// thousand.
pub fn prune_history<T>(history: &mut Vec<T>)
    ensures
        final(history)@ == if old(history)@.len() > HISTORY_LIMIT {
            old(history)@.subrange(HISTORY_DROP as int, old(history)@.len() as int)
        } else {
            old(history)@
        },
{
    if history.len() > HISTORY_LIMIT {
        let tail = history.split_off(HISTORY_DROP);
        *history = tail;
    }
}

/// The index of the first history entry shown in a pane `area_height`
/// rows tall (two rows go to its border): as many of the latest entries as
/// fit.
pub fn first_visible(len: usize, area_height: u16) -> (first: usize)
    ensures
        first == if area_height <= 2 {
            len as int
        } else if len > area_height - 2 {
            len - (area_height - 2)
        } else {
            0
        },
{
    let rows: usize = if area_height > 2 {
        (area_height - 2) as usize
    } else {
        0
    };
    if len > rows {
        len - rows
    } else {
        0
    }
}

/// How an entry is coloured.
pub enum Tone {
    /// A system line (yellow, italic).
    Notice,
    /// A public message: the sender's name stands out (cyan, bold).
    Speaker,
    /// A whisper (magenta).
    Private,
    /// An error (red, bold).
    Alert,
}

/// One history entry, ready to draw: a leading part in the tone's style
/// and a plain body.
pub struct RenderedLine {
    pub lead: String,
    pub body: String,
    pub tone: Tone,
}

/// The lead, body and tone of an entry.
pub open spec fn rendering(u: UiView) -> (Seq<char>, Seq<char>, Tone) {
    match u {
        UiView::System(t) => ("\u{26a1} "@ + t, Seq::empty(), Tone::Notice),
        UiView::Public(sender, t) => (sender + ": "@, t, Tone::Speaker),
        UiView::Whisper { sender, recipient, text, is_outgoing } => if is_outgoing {
            ("\u{1f977} [You \u{2192} "@ + recipient + "]: "@, text, Tone::Private)
        } else {
            ("\u{1f977} [Whisper from "@ + sender + "]: "@, text, Tone::Private)
        },
        UiView::Error(e) => ("\u{274c} "@ + e, Seq::empty(), Tone::Alert),
    }
}

/// Lays out one history entry.
pub fn render_line(u: &UiMsg) -> (line: RenderedLine)
    ensures
        (line.lead@, line.body@, line.tone) == rendering(u@),
{
    match u {
        UiMsg::System(t) => {
            let mut lead = String::from_str("\u{26a1} ");
            lead.append(t.as_str());
            RenderedLine { lead, body: String::new(), tone: Tone::Notice }
        },
        UiMsg::Public(sender, t) => {
            let mut lead = sender.clone();
            lead.append(": ");
            RenderedLine { lead, body: t.clone(), tone: Tone::Speaker }
        },
        UiMsg::Whisper { sender, recipient, text, is_outgoing } => {
            let mut lead = if *is_outgoing {
                String::from_str("\u{1f977} [You \u{2192} ")
            } else {
                String::from_str("\u{1f977} [Whisper from ")
            };
            if *is_outgoing {
                lead.append(recipient.as_str());
            } else {
                lead.append(sender.as_str());
            }
            lead.append("]: ");
            RenderedLine { lead, body: text.clone(), tone: Tone::Private }
        },
        UiMsg::Error(e) => {
            let mut lead = String::from_str("\u{274c} ");
            lead.append(e.as_str());
            RenderedLine { lead, body: String::new(), tone: Tone::Alert }
        },
    }
}

/// The status bar at the top of the screen.
pub open spec fn header_seq(uplink: Seq<char>, room: Seq<char>) -> Seq<char> {
    " Airaa Grid | Uplink: "@ + uplink + " | Room: "@ + room
        + " | Cmds: /h Help | /u Users | /w Whisper | /!exit! Quit | ESC Exit "@
}

/// Writes the status bar.
pub fn header_text(uplink: &str, room: &str) -> (h: String)
    ensures
        h@ == header_seq(uplink@, room@),
{
    let mut h = String::from_str(" Airaa Grid | Uplink: ");
    h.append(uplink);
    h.append(" | Room: ");
    h.append(room);
    h.append(" | Cmds: /h Help | /u Users | /w Whisper | /!exit! Quit | ESC Exit ");
    h
}

/// The input line: a prompt, what was typed, and a block cursor.
pub fn input_line(buffer: &str) -> (l: String)
    ensures
        l@ == "> "@ + buffer@ + "\u{2588}"@,
{
    let mut l = String::from_str("> ");
    l.append(buffer);
    l.append("\u{2588}");
    l
}

/// The title of the input pane: the user's alias with a space either side.
pub fn input_title(name: &str) -> (t: String)
    ensures
        t@ == " "@ + name@ + " "@,
{
    let mut t = String::from_str(" ");
    t.append(name);
    t.append(" ");
    t
}

/// The node a client dials: what the user typed, trimmed, or the local
/// default when that is blank.
pub open spec fn dial_address(input: Seq<char>) -> Seq<char> {
    if trimmed(input).len() == 0 {
        "127.0.0.1:3000"@
    } else {
        trimmed(input)
    }
}

/// Reads the node address the user typed.
pub fn server_address(input: &str) -> (a: String)
    ensures
        a@ == dial_address(input@),
{
    let t = trim(input);
    if t.as_str().unicode_len() == 0 {
        String::from_str("127.0.0.1:3000")
    } else {
        t
    }
}

/// A hidden-service address, which goes through the local Tor proxy: an
/// address ending in `.onion`, with port 80 added when it names none.
pub open spec fn onion_target(addr: Seq<char>) -> Option<Seq<char>> {
    if ends_with_seq(addr, ".onion"@) {
        if contains_seq(addr, ":"@) {
            Some(addr)
        } else {
            Some(addr + ":80"@)
        }
    } else {
        None
    }
}

/// Tells whether a node address is a hidden service, and the address and
/// port to ask the Tor proxy for.
pub fn onion_address(addr: &str) -> (res: Option<String>)
    ensures
        (match res {
            Some(a) => Some(a@),
            None => None,
        }) == onion_target(addr@),
{
    if ends_with(addr, ".onion") {
        if contains(addr, ":") {
            Some(String::from_str(addr))
        } else {
            let mut a = String::from_str(addr);
            a.append(":80");
            Some(a)
        }
    } else {
        None
    }
}

/// How many times, a second apart, a client or host waits for Tor.
pub const TOR_WAIT_ATTEMPTS: u32 = 60;

/// What to do after one look at whether Tor is ready.
pub enum Wait {
    /// Tor is ready.
    Ready,
    /// Wait a second and look again.
    Retry,
    /// Stop waiting: Tor did not come up in time.
    GiveUp,
}

/// After look number `attempt` (counting from 0): ready if Tor answered,
/// otherwise look again until sixty looks have been made.
pub fn next_wait(attempt: u32, ready: bool) -> (w: Wait)
    requires
        attempt < TOR_WAIT_ATTEMPTS,
    ensures
        ready ==> w is Ready,
        !ready && attempt + 1 < TOR_WAIT_ATTEMPTS ==> w is Retry,
        !ready && attempt + 1 == TOR_WAIT_ATTEMPTS ==> w is GiveUp,
{
    if ready {
        Wait::Ready
    } else if attempt + 1 < TOR_WAIT_ATTEMPTS {
        Wait::Retry
    } else {
        Wait::GiveUp
    }
}

} // verus!
