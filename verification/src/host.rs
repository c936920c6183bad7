//! The launcher's decisions: the menus it reads, the port and uplink it
//! uses, how it reads the results of looking up an executable and of a
//! tunnel, and the Tor configuration it writes for a hidden service.
use vstd::prelude::*;
use crate::text::{
    trimmed, trim, same_text, lowercase, to_lowercase, first_line, first_line_seq, replace_all, replace_seq,
};

verus! {

/// The launcher's first menu.
pub enum Operation {
    /// Start a node and chat on it.
    Host,
    /// Chat on a node that someone else runs.
    Join,
    /// Neither.
    Invalid,
}

/// Reads the first menu: `1` hosts, `2` joins.
pub fn parse_operation(choice: &str) -> (op: Operation)
    ensures
        trimmed(choice@) == "1"@ ==> op is Host,
        trimmed(choice@) == "2"@ ==> op is Join,
        trimmed(choice@) != "1"@ && trimmed(choice@) != "2"@ ==> op is Invalid,
{
    proof {
        reveal_strlit("1");
        reveal_strlit("2");
        assert("1"@ != "2"@) by {
            assert("1"@[0] != "2"@[0]);
        }
    }
    let t = trim(choice);
    if same_text(t.as_str(), "1") {
        Operation::Host
    } else if same_text(t.as_str(), "2") {
        Operation::Join
    } else {
        Operation::Invalid
    }
}

/// How a hosted node is reached from outside.
pub enum Route {
    /// Only on the local network.
    Local,
    /// Through an Ngrok TCP tunnel.
    Ngrok,
    /// As a Tor hidden service.
    Tor,
}

/// Reads the uplink menu: `2` is Ngrok, `3` is Tor, anything else local.
pub fn parse_route(choice: &str) -> (r: Route)
    ensures
        trimmed(choice@) == "2"@ ==> r is Ngrok,
        trimmed(choice@) == "3"@ ==> r is Tor,
        trimmed(choice@) != "2"@ && trimmed(choice@) != "3"@ ==> r is Local,
{
    proof {
        reveal_strlit("2");
        reveal_strlit("3");
        assert("2"@ != "3"@) by {
            assert("2"@[0] != "3"@[0]);
        }
    }
    let t = trim(choice);
    if same_text(t.as_str(), "2") {
        Route::Ngrok
    } else if same_text(t.as_str(), "3") {
        Route::Tor
    } else {
        Route::Local
    }
}

/// The port a node listens on: what was typed, trimmed, or 3000 when blank.
pub open spec fn port_of(input: Seq<char>) -> Seq<char> {
    if trimmed(input).len() == 0 {
        "3000"@
    } else {
        trimmed(input)
    }
}

/// Reads the port the user typed.
pub fn resolve_port(input: &str) -> (port: String)
    ensures
        port@ == port_of(input@),
{
    let t = trim(input);
    if t.as_str().unicode_len() == 0 {
        String::from_str("3000")
    } else {
        t
    }
}

/// Whether the answer to "Install automatically?" is yes: `y` in either
/// case, around blanks.
pub fn confirms_install(answer: &str) -> (yes: bool)
    ensures
        yes == (lowercase(trimmed(answer@)) == "y"@),
{
    let t = trim(answer);
    let l = to_lowercase(t.as_str());
    same_text(l.as_str(), "y")
}

/// The path that a `where`/`which` lookup printed: its first line, once
/// blanks are trimmed; nothing when it printed only blanks.
pub open spec fn lookup_path(output: Seq<char>) -> Option<Seq<char>> {
    if trimmed(output).len() == 0 {
        None
    } else {
        Some(first_line_seq(trimmed(output)))
    }
}

/// Reads what an executable lookup printed.
pub fn path_from_lookup(output: &str) -> (path: Option<String>)
    ensures
        (match path {
            Some(p) => Some(p@),
            None => None,
        }) == lookup_path(output@),
{
    let t = trim(output);
    if t.as_str().unicode_len() == 0 {
        None
    } else {
        Some(first_line(t.as_str()))
    }
}

/// The address that a tunnel's public URL gives to others: the URL with
/// every `tcp://` taken out.
pub fn public_uplink(url: &str) -> (addr: String)
    ensures
        addr@ == replace_seq(url@, "tcp://"@, Seq::empty()),
{
    proof {
        reveal_strlit("tcp://");
        reveal_strlit("");
    }
    assert(""@ =~= Seq::<char>::empty());
    replace_all(url, "tcp://", "")
}

/// The local address of the node on `port`, which the launcher's own
/// client dials.
pub fn local_address(port: &str) -> (addr: String)
    ensures
        addr@ == "127.0.0.1:"@ + port@,
{
    let mut a = String::from_str("127.0.0.1:");
    a.append(port);
    a
}

/// The Tor configuration of a hidden service kept in `dir` that forwards
/// its port 80 to the node on `port`, with the SOCKS proxy on 9050.
pub open spec fn hidden_service_torrc(dir: Seq<char>, port: Seq<char>) -> Seq<char> {
    "SocksPort 9050\nHiddenServiceDir "@ + dir + "\nHiddenServicePort 80 127.0.0.1:"@ + port + "\n"@
}

/// Writes the Tor configuration of the hidden service.
pub fn hidden_service_config(dir: &str, port: &str) -> (conf: String)
    ensures
        conf@ == hidden_service_torrc(dir@, port@),
{
    let mut c = String::from_str("SocksPort 9050\nHiddenServiceDir ");
    c.append(dir);
    c.append("\nHiddenServicePort 80 127.0.0.1:");
    c.append(port);
    c.append("\n");
    c
}

/// The onion address that Tor wrote into the hidden service's `hostname`
/// file, trimmed; nothing while the file is blank.
pub fn onion_hostname(contents: &str) -> (host: Option<String>)
    ensures
        (match host {
            Some(h) => Some(h@),
            None => None,
        }) == (if trimmed(contents@).len() == 0 {
            None
        } else {
            Some(trimmed(contents@))
        }),
{
    let t = trim(contents);
    if t.as_str().unicode_len() == 0 {
        None
    } else {
        Some(t)
    }
}

} // verus!
