# airaa_chat

A decentralized, end-to-end encrypted terminal chat, with its core verified
in Verus.

- `src/` is the verified library:
  - `crypto` derives room keys, whisper keys and join credentials
    (PBKDF2-HMAC-SHA256, SHA-256, Base64) and seals and opens messages with
    AES-256-GCM; decrypting what was encrypted under the same key gives the
    text back. A whisper key is derived from the room password, the room and
    the recipient's alias, so any member who knows the password can derive it.
  - `message` is the record exchanged as one JSON object per line.
  - `server` is the relay node's registry of rooms, stated as a state machine
    (`server_step`, `disconnect_step`) with its laws: credentials never
    change, relays need a joined session, a new room opened and left is gone.
  - `client` holds the client's requests and decisions on typed lines and
    forwarded messages; `ui` the screen and dialing decisions; `host` the
    launcher's menus and configuration text.
  - `text` holds the string operations, each stated over the chars.
- `app/` is the program: the launcher, and the `server` and `client`
  subcommands, which do the terminal, network, process and file work and call
  the library for every decision.
- `tests/` runs the library against concrete cases.
