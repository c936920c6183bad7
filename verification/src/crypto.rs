//! Key derivation and message encryption of the chat protocol.
//!
//! Room keys and whisper keys come from PBKDF2-HMAC-SHA256 over the room
//! password, salted with the lower-cased room name (and, for a whisper, the
//! lower-cased recipient). The relay authenticates joins with a salted
//! SHA-256 of the password. A message travels as the Base64 text of a random
//! 12-byte nonce followed by the AES-256-GCM ciphertext and tag.
use vstd::prelude::*;
use vstd::utf8::*;
use crate::text::{lowercase, to_lowercase, string_from_utf8};
use aes_gcm::aead::{Aead, AeadCore, KeyInit, OsRng};
use aes_gcm::{Aes256Gcm, Key, Nonce};
use base64::Engine;
use base64::engine::general_purpose::STANDARD;
use pbkdf2::pbkdf2_hmac;
use sha2::{Digest, Sha256};

verus! {

broadcast use {vstd::utf8::encode_utf8_valid_utf8, vstd::utf8::encode_utf8_decode_utf8};

/// Rounds of PBKDF2 used for every key the protocol derives.
pub const PBKDF2_ROUNDS: u32 = 100000;

/// Length in bytes of the random nonce that heads every encrypted payload.
pub const NONCE_LEN: usize = 12;

/// Length in bytes of the GCM authentication tag.
pub const TAG_LEN: usize = 16;

/// Largest plaintext, in bytes, that AES-GCM encrypts (2^36).
pub open spec fn max_plaintext_len() -> int {
    0x10_0000_0000
}

/// Largest plaintext, in bytes, that AES-GCM decryption gives back: it
/// accepts a ciphertext body (before the tag) of up to 2^36 + 16 bytes.
pub open spec fn max_opened_len() -> int {
    0x10_0000_0010
}

/// Length of the padded Base64 text of `n` bytes.
pub open spec fn base64_len(n: nat) -> nat {
    ((n + 2) / 3 * 4) as nat
}

/// The symbols of the standard Base64 alphabet: `A`-`Z`, `a`-`z`, `0`-`9`,
/// `+` and `/`.
pub open spec fn is_base64_symbol(c: char) -> bool {
    ('A' <= c && c <= 'Z') || ('a' <= c && c <= 'z') || ('0' <= c && c <= '9') || c == '+' || c == '/'
}

/// How many of the Base64 characters of `n` bytes carry data; the rest of
/// the padded text is `=`.
pub open spec fn base64_data_len(n: nat) -> nat {
    if n % 3 == 0 {
        n / 3 * 4
    } else {
        n / 3 * 4 + n % 3 + 1
    }
}

/// The shape of the padded standard Base64 text of `n` bytes: its length,
/// alphabet symbols for the data, then `=` up to a multiple of four.
pub open spec fn padded_base64_shape(text: Seq<char>, n: nat) -> bool {
    &&& text.len() == base64_len(n)
    &&& forall|i: int|
        0 <= i < text.len() ==> if i < base64_data_len(n) {
            is_base64_symbol(#[trigger] text[i])
        } else {
            text[i] == '='
        }
}

/// A 256-bit AES-GCM key.
pub struct AesKey {
    pub bytes: [u8; 32],
}

impl View for AesKey {
    type V = Seq<u8>;

    open spec fn view(&self) -> Seq<u8> {
        self.bytes@
    }
}

/// What `pbkdf2::pbkdf2_hmac::<Sha256>` writes into a buffer of `len` bytes.
pub uninterp spec fn pbkdf2_hmac_sha256(password: Seq<u8>, salt: Seq<u8>, rounds: u32, len: nat) -> Seq<u8>;

/// The SHA-256 digest of `data`, as `sha2::Sha256` computes it.
pub uninterp spec fn sha256(data: Seq<u8>) -> Seq<u8>;

/// The padded standard-alphabet Base64 text of `bytes` (`base64::engine::general_purpose::STANDARD`).
pub uninterp spec fn base64_encode(bytes: Seq<u8>) -> Seq<char>;

/// What `STANDARD.decode` gives for `text`: `None` where it reports an error.
pub uninterp spec fn base64_decode(text: Seq<char>) -> Option<Seq<u8>>;

/// The AES-256-GCM ciphertext followed by its 16-byte tag, with no associated
/// data: the keystream and tag computation of `aes_gcm`, for a plaintext of
/// any length (encryption refuses plaintexts over 2^36 bytes; decryption
/// accepts bodies of up to 2^36 + 16 bytes).
pub uninterp spec fn aes256gcm_seal(key: Seq<u8>, nonce: Seq<u8>, plaintext: Seq<u8>) -> Seq<u8>;

#[verifier::external_type_specification]
#[verifier::external_body]
pub struct ExAeadError(aes_gcm::Error);

#[verifier::external_type_specification]
#[verifier::external_body]
pub struct ExDecodeError(base64::DecodeError);

#[verifier::external_type_specification]
#[verifier::external_body]
pub struct ExFromUtf8Error(std::string::FromUtf8Error);

/// Calls `pbkdf2::pbkdf2_hmac::<Sha256>` to fill 32 bytes; the result is the
/// name `pbkdf2_hmac_sha256` applied to the password, salt, rounds and length.
#[verifier::external_body]
fn pbkdf2_sha256_32(password: &[u8], salt: &[u8], rounds: u32) -> (out: [u8; 32])
    ensures
        out@ == pbkdf2_hmac_sha256(password@, salt@, rounds, 32),
{
    let mut out = [0u8; 32];
    pbkdf2_hmac::<Sha256>(password, salt, rounds, &mut out);
    out
}

/// Calls `Sha256::digest`; the result is the name `sha256` of the input.
#[verifier::external_body]
fn sha256_digest(data: &[u8]) -> (digest: [u8; 32])
    ensures
        digest@ == sha256(data@),
{
    Sha256::digest(data).into()
}

/// Calls `STANDARD.encode`. The result is the name `base64_encode` of the
/// input; it is padded standard Base64 (RFC 4648): the length that
/// `base64::encoded_len` gives, alphabet symbols, then `=` padding; and
/// `STANDARD.decode` gives the bytes back from it. The engine panics where that length overflows `usize`, which `requires` rules out.
#[verifier::external_body]
fn base64_encode_bytes(bytes: &[u8]) -> (text: String)
    requires
        base64_len(bytes@.len()) <= usize::MAX,
    ensures
        text@ == base64_encode(bytes@),
        text@.len() == base64_len(bytes@.len()),
        padded_base64_shape(text@, bytes@.len()),
        base64_decode(text@) == Some(bytes@),
{
    STANDARD.encode(bytes)
}

/// Calls `STANDARD.decode`. The result is the name `base64_decode` of the
/// input, and decoding the text that `STANDARD.encode` made of some bytes
/// gives those bytes back.
#[verifier::external_body]
fn base64_decode_text(text: &str) -> (res: Result<Vec<u8>, base64::DecodeError>)
    ensures
        (match res {
            Ok(v) => base64_decode(text@) == Some(v@),
            Err(_) => base64_decode(text@) is None,
        }),
        forall|b: Seq<u8>| text@ == #[trigger] base64_encode(b) ==> res is Ok && res->Ok_0@ == b,
{
    STANDARD.decode(text)
}

/// Calls `Aes256Gcm::encrypt` with a 12-byte nonce and no associated data. It
/// fails exactly when the plaintext is longer than 2^36 bytes; otherwise the
/// ciphertext is the name `aes256gcm_seal` and is 16 bytes (the tag) longer.
#[verifier::external_body]
fn aes_seal(key: &[u8; 32], nonce: &[u8], plaintext: &[u8]) -> (res: Result<Vec<u8>, aes_gcm::Error>)
    requires
        nonce@.len() == NONCE_LEN,
    ensures
        res is Ok <==> plaintext@.len() <= max_plaintext_len(),
        res matches Ok(c) ==> c@ == aes256gcm_seal(key@, nonce@, plaintext@)
            && c@.len() == plaintext@.len() + TAG_LEN,
{
    let cipher = Aes256Gcm::new(Key::<Aes256Gcm>::from_slice(key));
    cipher.encrypt(Nonce::from_slice(nonce), plaintext)
}

/// Calls `Aes256Gcm::decrypt` with a 12-byte nonce and no associated data.
/// It splits off the tag and accepts a body of up to 2^36 + 16 bytes. What
/// it returns is a plaintext whose sealing under the same key and nonce is the
/// input (GCM decryption inverts encryption and checks the tag), and a
/// ciphertext that is the sealing of some plaintext opens to that plaintext;
/// so it fails exactly on inputs that seal no plaintext under that key and
/// nonce, among them every input shorter than the tag; a plaintext it gives
/// back is the input without its 16-byte tag.
#[verifier::external_body]
fn aes_open(key: &[u8; 32], nonce: &[u8], ciphertext: &[u8]) -> (res: Result<Vec<u8>, aes_gcm::Error>)
    requires
        nonce@.len() == NONCE_LEN,
    ensures
        res matches Ok(p) ==> p@.len() <= max_opened_len()
            && ciphertext@ == aes256gcm_seal(key@, nonce@, p@),
        res matches Ok(p) ==> p@.len() + TAG_LEN == ciphertext@.len(),
        ciphertext@.len() < TAG_LEN ==> res is Err,
        forall|p: Seq<u8>|
            p.len() <= max_opened_len() && ciphertext@ == #[trigger] aes256gcm_seal(key@, nonce@, p)
                ==> res is Ok && res->Ok_0@ == p,
{
    let cipher = Aes256Gcm::new(Key::<Aes256Gcm>::from_slice(key));
    cipher.decrypt(Nonce::from_slice(nonce), ciphertext)
}

/// Calls `Aes256Gcm::generate_nonce` with the operating system's random
/// source (which panics if the system offers no randomness). The nonce is
/// random: only its length is stated.
#[verifier::external_body]
pub(crate) fn random_nonce() -> (nonce: Vec<u8>)
    ensures
        nonce@.len() == NONCE_LEN,
{
    Aes256Gcm::generate_nonce(&mut OsRng).to_vec()
}

/// The salt of a room key: a fixed prefix and the lower-cased room name.
pub open spec fn room_salt(room: Seq<char>) -> Seq<char> {
    "airaa_room_key_"@ + lowercase(room)
}

/// The salt of a whisper key: a fixed prefix, the lower-cased room and the
/// lower-cased recipient, joined by `_`.
pub open spec fn whisper_salt(room: Seq<char>, target: Seq<char>) -> Seq<char> {
    "airaa_whisper_"@ + lowercase(room) + "_"@ + lowercase(target)
}

/// The key that every member of `room` who knows `password` derives.
pub open spec fn room_key(password: Seq<char>, room: Seq<char>) -> Seq<u8> {
    pbkdf2_hmac_sha256(encode_utf8(password), encode_utf8(room_salt(room)), PBKDF2_ROUNDS, 32)
}

/// The key with which whispers to `target` in `room` are sealed.
pub open spec fn whisper_key(password: Seq<char>, room: Seq<char>, target: Seq<char>) -> Seq<u8> {
    pbkdf2_hmac_sha256(
        encode_utf8(password),
        encode_utf8(whisper_salt(room, target)),
        PBKDF2_ROUNDS,
        32,
    )
}

/// The bytes that the join credential hashes.
pub open spec fn auth_preimage(password: Seq<char>, room: Seq<char>) -> Seq<u8> {
    encode_utf8(password) + encode_utf8("_airaa_server_bouncer_salt_"@) + encode_utf8(lowercase(room))
}

/// The credential that a relay compares when a client joins a room.
pub open spec fn auth_hash(password: Seq<char>, room: Seq<char>) -> Seq<char> {
    base64_encode(sha256(auth_preimage(password, room)))
}


/// Room names are compared without case: two spellings of a room that
/// lower-case alike give the same room key and the same join credential.
pub proof fn lemma_room_secrets_ignore_case(password: Seq<char>, room1: Seq<char>, room2: Seq<char>)
    requires
        lowercase(room1) == lowercase(room2),
    ensures
        room_key(password, room1) == room_key(password, room2),
        auth_hash(password, room1) == auth_hash(password, room2),
{
}

/// A whisper reaches its recipient: the key a sender derives for `target`
/// is the key the recipient derives for itself whenever the two names, and
/// the two spellings of the room, lower-case alike.
pub proof fn lemma_whisper_key_ignores_case(
    password: Seq<char>,
    room1: Seq<char>,
    room2: Seq<char>,
    target1: Seq<char>,
    target2: Seq<char>,
)
    requires
        lowercase(room1) == lowercase(room2),
        lowercase(target1) == lowercase(target2),
    ensures
        whisper_key(password, room1, target1) == whisper_key(password, room2, target2),
{
}

/// Room keys and whisper keys are derived from different salts, whatever
/// the room and recipient: the two kinds of key never share a PBKDF2 input.
pub proof fn lemma_room_and_whisper_salts_differ(room: Seq<char>, room2: Seq<char>, target: Seq<char>)
    ensures
        room_salt(room) != whisper_salt(room2, target),
{
    reveal_strlit("airaa_room_key_");
    reveal_strlit("airaa_whisper_");
    reveal_strlit("_");
    let a = room_salt(room);
    let b = whisper_salt(room2, target);
    assert(a[6] == 'r');
    assert(b[6] == 'w');
}


/// Each room has its own key salt: two room names share a salt only if
/// they lower-case alike.
pub proof fn lemma_room_salts_separate_rooms(room1: Seq<char>, room2: Seq<char>)
    requires
        room_salt(room1) == room_salt(room2),
    ensures
        lowercase(room1) == lowercase(room2),
{
    let p = "airaa_room_key_"@;
    assert(room_salt(room1).subrange(p.len() as int, room_salt(room1).len() as int) =~= lowercase(room1));
    assert(room_salt(room2).subrange(p.len() as int, room_salt(room2).len() as int) =~= lowercase(room2));
}

/// Within one room, each recipient has its own whisper salt: two
/// recipients share a salt only if their names lower-case alike.
pub proof fn lemma_whisper_salts_separate_recipients(room: Seq<char>, target1: Seq<char>, target2: Seq<char>)
    requires
        whisper_salt(room, target1) == whisper_salt(room, target2),
    ensures
        lowercase(target1) == lowercase(target2),
{
    let head = "airaa_whisper_"@ + lowercase(room) + "_"@;
    let s1 = whisper_salt(room, target1);
    let s2 = whisper_salt(room, target2);
    assert(s1 =~= head + lowercase(target1));
    assert(s2 =~= head + lowercase(target2));
    assert(s1.subrange(head.len() as int, s1.len() as int) =~= lowercase(target1));
    assert(s2.subrange(head.len() as int, s2.len() as int) =~= lowercase(target2));
}


/// UTF-8 encoding tells different texts apart.
pub proof fn lemma_encode_utf8_injective(a: Seq<char>, b: Seq<char>)
    requires
        a != b,
    ensures
        encode_utf8(a) != encode_utf8(b),
{
    vstd::utf8::encode_utf8_decode_utf8(a);
    vstd::utf8::encode_utf8_decode_utf8(b);
}

/// A room key is PBKDF2 over the password's UTF-8 bytes exactly as typed
/// (only the room name is lower-cased), so two passwords that differ, even
/// only in letter case, give PBKDF2 different password inputs.
pub proof fn lemma_room_key_takes_password_as_typed(p1: Seq<char>, p2: Seq<char>, room: Seq<char>)
    ensures
        room_key(p1, room) == pbkdf2_hmac_sha256(
            encode_utf8(p1),
            encode_utf8("airaa_room_key_"@ + lowercase(room)),
            100000,
            32,
        ),
        p1 != p2 ==> encode_utf8(p1) != encode_utf8(p2),
{
    if p1 != p2 {
        lemma_encode_utf8_injective(p1, p2);
    }
}

/// The hashed credential of a room begins with the password's UTF-8 bytes
/// exactly as typed, and two different passwords (even ones that differ only
/// in letter case) give different hashed inputs for the same room.
pub proof fn lemma_auth_preimage_separates_passwords(p1: Seq<char>, p2: Seq<char>, room: Seq<char>)
    ensures
        auth_preimage(p1, room).subrange(0, encode_utf8(p1).len() as int) == encode_utf8(p1),
        auth_preimage(p1, room) == encode_utf8(p1) + encode_utf8("_airaa_server_bouncer_salt_"@) + encode_utf8(
            lowercase(room),
        ),
        p1 != p2 ==> auth_preimage(p1, room) != auth_preimage(p2, room),
{
    let e1 = encode_utf8(p1);
    let e2 = encode_utf8(p2);
    let rest = encode_utf8("_airaa_server_bouncer_salt_"@) + encode_utf8(lowercase(room));
    assert(auth_preimage(p1, room) =~= e1 + rest);
    assert(auth_preimage(p2, room) =~= e2 + rest);
    assert((e1 + rest).subrange(0, e1.len() as int) =~= e1);
    if p1 != p2 {
        lemma_encode_utf8_injective(p1, p2);
        if auth_preimage(p1, room) == auth_preimage(p2, room) {
            assert(e1.len() == e2.len());
            assert((e2 + rest).subrange(0, e2.len() as int) =~= e2);
            assert(e1 == e2);
        }
    }
}

/// Concatenates two byte slices into a new vector.
fn concat_bytes(a: &[u8], b: &[u8]) -> (out: Vec<u8>)
    ensures
        out@ == a@ + b@,
{
    let mut out: Vec<u8> = Vec::new();
    let mut i: usize = 0;
    while i < a.len()
        invariant
            i <= a@.len(),
            out@ == a@.subrange(0, i as int),
        decreases a@.len() - i,
    {
        out.push(a[i]);
        i = i + 1;
    }
    let mut j: usize = 0;
    while j < b.len()
        invariant
            i == a@.len(),
            j <= b@.len(),
            out@ == a@ + b@.subrange(0, j as int),
        decreases b@.len() - j,
    {
        out.push(b[j]);
        j = j + 1;
    }
    assert(a@.subrange(0, a@.len() as int) == a@);
    assert(b@.subrange(0, b@.len() as int) == b@);
    out
}

/// Derives the AES key of a room from its password.
pub fn derive_key(password: &str, room: &str) -> (key: AesKey)
    ensures
        key@ == room_key(password@, room@),
        key@ == pbkdf2_hmac_sha256(
            encode_utf8(password@),
            encode_utf8("airaa_room_key_"@ + lowercase(room@)),
            100000,
            32,
        ),
{
    let mut salt = String::from_str("airaa_room_key_");
    let lower = to_lowercase(room);
    salt.append(lower.as_str());
    let bytes = pbkdf2_sha256_32(password.as_bytes(), salt.as_str().as_bytes(), PBKDF2_ROUNDS);
    AesKey { bytes }
}

/// Derives the key that seals whispers addressed to `target` in `room`.
/// It is computed from the room password, the room and the recipient's
/// alias, so every member who knows the password can compute it.
pub fn derive_whisper_key(password: &str, room: &str, target: &str) -> (key: AesKey)
    ensures
        key@ == whisper_key(password@, room@, target@),
        key@ == pbkdf2_hmac_sha256(
            encode_utf8(password@),
            encode_utf8("airaa_whisper_"@ + lowercase(room@) + "_"@ + lowercase(target@)),
            100000,
            32,
        ),
{
    let mut salt = String::from_str("airaa_whisper_");
    let lower_room = to_lowercase(room);
    salt.append(lower_room.as_str());
    salt.append("_");
    let lower_target = to_lowercase(target);
    salt.append(lower_target.as_str());
    let bytes = pbkdf2_sha256_32(password.as_bytes(), salt.as_str().as_bytes(), PBKDF2_ROUNDS);
    AesKey { bytes }
}

/// Computes the credential that a relay stores for a room and compares on
/// every later join: Base64 of a salted SHA-256 of the password.
pub fn derive_auth_hash(password: &str, room: &str) -> (hash: String)
    ensures
        hash@ == auth_hash(password@, room@),
        hash@.len() == 44,
        padded_base64_shape(hash@, 32),
        sha256(auth_preimage(password@, room@)).len() == 32,
        base64_decode(hash@) == Some(sha256(auth_preimage(password@, room@))),
        hash@ == base64_encode(
            sha256(
                encode_utf8(password@) + encode_utf8("_airaa_server_bouncer_salt_"@) + encode_utf8(
                    lowercase(room@),
                ),
            ),
        ),
{
    let lower = to_lowercase(room);
    let head = concat_bytes(password.as_bytes(), "_airaa_server_bouncer_salt_".as_bytes());
    let data = concat_bytes(head.as_slice(), lower.as_str().as_bytes());
    let digest = sha256_digest(data.as_slice());
    base64_encode_bytes(&digest)
}

/// Whether AES-GCM accepts `plaintext`: its UTF-8 encoding is at most 2^36 bytes.
pub open spec fn fits_aes(plaintext: Seq<char>) -> bool {
    encode_utf8(plaintext).len() <= max_plaintext_len()
}

/// Whether the Base64 text of a sealed `plaintext` has a length that `usize`
/// holds (a machine limit; on 64-bit targets every string meets it).
pub open spec fn encodable(plaintext: Seq<char>) -> bool {
    base64_len((encode_utf8(plaintext).len() + NONCE_LEN + TAG_LEN) as nat) <= usize::MAX
}

/// UTF-8 encodes a concatenation piece by piece.
pub proof fn lemma_encode_utf8_concat(a: Seq<char>, b: Seq<char>)
    ensures
        encode_utf8(a + b) == encode_utf8(a) + encode_utf8(b),
    decreases a.len(),
{
    if a.len() == 0 {
        assert(a + b =~= b);
    } else {
        lemma_encode_utf8_concat(a.drop_first(), b);
        assert((a + b).drop_first() =~= a.drop_first() + b);
        assert(encode_utf8(a + b) =~= encode_utf8(a) + encode_utf8(b));
    }
}

/// A piece of an encodable text is encodable.
pub proof fn lemma_encodable_subrange(s: Seq<char>, i: int, j: int)
    requires
        encodable(s),
        0 <= i <= j <= s.len(),
    ensures
        encodable(s.subrange(i, j)),
{
    let a = s.subrange(0, i);
    let b = s.subrange(i, j);
    let c = s.subrange(j, s.len() as int);
    assert(s =~= a + b + c);
    lemma_encode_utf8_concat(a + b, c);
    lemma_encode_utf8_concat(a, b);
    let n1 = encode_utf8(b).len() + NONCE_LEN + TAG_LEN;
    let n2 = encode_utf8(s).len() + NONCE_LEN + TAG_LEN;
    assert(n1 <= n2);
    assert((n1 + 2) / 3 <= (n2 + 2) / 3);
}

/// The number of bytes that carry `plaintext`: its nonce, its UTF-8 bytes
/// and its tag.
pub open spec fn payload_len(plaintext: Seq<char>) -> nat {
    (encode_utf8(plaintext).len() + NONCE_LEN + TAG_LEN) as nat
}

/// The Base64 text that carries `plaintext` sealed under `key` with `nonce`:
/// the nonce, then the AES-GCM ciphertext and tag of its UTF-8 bytes.
pub open spec fn sealed_payload(key: Seq<u8>, nonce: Seq<u8>, plaintext: Seq<char>) -> Seq<char> {
    base64_encode(nonce + aes256gcm_seal(key, nonce, encode_utf8(plaintext)))
}

/// A `Result` of strings, taken by the views of its strings.
pub open spec fn text_result(r: Result<String, String>) -> Result<Seq<char>, Seq<char>> {
    match r {
        Ok(s) => Ok(s@),
        Err(e) => Err(e@),
    }
}

/// What opening the decoded payload `bytes` with `key` gives: the text that
/// its body seals under its own 12-byte nonce, or the error of the first
/// step that fails.
pub open spec fn opening(key: Seq<u8>, bytes: Seq<u8>) -> Result<Seq<char>, Seq<char>> {
    if bytes.len() < NONCE_LEN {
        Err("Payload too short"@)
    } else {
        let nonce = bytes.subrange(0, NONCE_LEN as int);
        let body = bytes.subrange(NONCE_LEN as int, bytes.len() as int);
        if exists|p: Seq<u8>| p.len() <= max_opened_len() && body == #[trigger] aes256gcm_seal(key, nonce, p) {
            let p = choose|p: Seq<u8>| p.len() <= max_opened_len() && body == #[trigger] aes256gcm_seal(key, nonce, p);
            if valid_utf8(p) {
                Ok(decode_utf8(p))
            } else {
                Err("Invalid UTF-8 in decrypted payload"@)
            }
        } else {
            Err("Decryption failed (wrong password/target)"@)
        }
    }
}

/// What decrypting `encoded` with `key` gives: the empty text for an empty
/// payload, the Base64 error, or the opening of the decoded bytes.
pub open spec fn decryption(key: Seq<u8>, encoded: Seq<char>) -> Result<Seq<char>, Seq<char>> {
    if encoded.len() == 0 {
        Ok(Seq::empty())
    } else {
        match base64_decode(encoded) {
            None => Err("Base64 decode failed"@),
            Some(bytes) => opening(key, bytes),
        }
    }
}


/// A decoded payload opens to a text only if its body is the sealing of
/// that text under the key and the payload's own nonce. So a payload sealed
/// under another key, or altered in its nonce, body or tag, opens only where
/// AES-GCM maps two inputs to the same sealing; where no plaintext seals to
/// the body, opening reports the wrong password.
pub proof fn lemma_opening_needs_sealing(key: Seq<u8>, b: Seq<u8>)
    ensures
        opening(key, b) matches Ok(q) ==> b.len() >= NONCE_LEN && b.subrange(NONCE_LEN as int, b.len() as int)
            == aes256gcm_seal(key, b.subrange(0, NONCE_LEN as int), encode_utf8(q)),
        b.len() >= NONCE_LEN && !(exists|p: Seq<u8>|
            p.len() <= max_opened_len() && b.subrange(NONCE_LEN as int, b.len() as int)
                == #[trigger] aes256gcm_seal(key, b.subrange(0, NONCE_LEN as int), p)) ==> opening(key, b)
            == Err::<Seq<char>, Seq<char>>("Decryption failed (wrong password/target)"@),
{
    broadcast use vstd::utf8::decode_utf8_encode_utf8;

}

/// Encrypts `plaintext` under `key` with the given nonce and returns the
/// Base64 payload (nonce, ciphertext, tag). Fails only on a plaintext that
/// AES-GCM refuses for its length.
pub fn encrypt_with_nonce(key: &AesKey, nonce: &[u8], plaintext: &str) -> (res: Result<String, String>)
    requires
        nonce@.len() == NONCE_LEN,
        encodable(plaintext@),
    ensures
        (match res {
            Ok(c) => fits_aes(plaintext@) && c@ == sealed_payload(key@, nonce@, plaintext@)
                && aes256gcm_seal(key@, nonce@, encode_utf8(plaintext@)).len() == encode_utf8(plaintext@).len()
                + TAG_LEN && padded_base64_shape(c@, payload_len(plaintext@)),
            Err(e) => !fits_aes(plaintext@) && e@ == "Encryption failed: Error"@,
        }),
{
    let ciphertext = match aes_seal(&key.bytes, nonce, plaintext.as_bytes()) {
        Ok(c) => c,
        Err(_) => {
            return Err(String::from_str("Encryption failed: Error"));
        },
    };
    let combined = concat_bytes(nonce, ciphertext.as_slice());
    let text = base64_encode_bytes(combined.as_slice());
    Ok(text)
}

/// Encrypts `plaintext` under `key` with a fresh random nonce. Whatever nonce
/// was drawn, the payload is `sealed_payload` of it; the call fails only on a
/// plaintext that AES-GCM refuses for its length.
pub fn encrypt_with_key(key: &AesKey, plaintext: &str) -> (res: Result<String, String>)
    requires
        encodable(plaintext@),
    ensures
        (match res {
            Ok(c) => fits_aes(plaintext@) && padded_base64_shape(c@, payload_len(plaintext@)) && exists|
                nonce: Seq<u8>,
            |
                nonce.len() == NONCE_LEN && c@ == #[trigger] sealed_payload(key@, nonce, plaintext@)
                    && aes256gcm_seal(key@, nonce, encode_utf8(plaintext@)).len() == encode_utf8(plaintext@).len()
                    + TAG_LEN,
            Err(e) => !fits_aes(plaintext@) && e@ == "Encryption failed: Error"@,
        }),
{
    let nonce = random_nonce();
    encrypt_with_nonce(key, nonce.as_slice(), plaintext)
}

/// Whether two byte slices hold the same bytes.
fn same_bytes(a: &[u8], b: &[u8]) -> (same: bool)
    ensures
        same == (a@ == b@),
{
    if a.len() != b.len() {
        return false;
    }
    let mut i: usize = 0;
    while i < a.len()
        invariant
            a@.len() == b@.len(),
            i <= a@.len(),
            forall|k: int| 0 <= k < i ==> a@[k] == b@[k],
        decreases a@.len() - i,
    {
        if a[i] != b[i] {
            return false;
        }
        i = i + 1;
    }
    assert(a@ =~= b@);
    true
}

/// Opens a decoded payload (nonce, ciphertext, tag) with `key`. A payload
/// that seals a text under the same key opens to that text; an opened text
/// is 28 bytes shorter than the payload, so payloads under 28 bytes fail.
pub fn open_payload(key: &AesKey, combined: &[u8]) -> (res: Result<String, String>)
    ensures
        text_result(res) == opening(key@, combined@),
        res matches Ok(s) ==> encode_utf8(s@).len() + NONCE_LEN + TAG_LEN == combined@.len(),
        combined@.len() < NONCE_LEN + TAG_LEN ==> res is Err,
        forall|nonce: Seq<u8>, m: Seq<char>|
            nonce.len() == NONCE_LEN && fits_aes(m) && combined@ == nonce + #[trigger] aes256gcm_seal(
                key@,
                nonce,
                encode_utf8(m),
            ) ==> res is Ok && res->Ok_0@ == m,
{
    broadcast use vstd::utf8::decode_utf8_encode_utf8;

    if combined.len() < NONCE_LEN {
        return Err(String::from_str("Payload too short"));
    }
    let (nonce, body) = combined.split_at(NONCE_LEN);
    proof {
        assert forall|n: Seq<u8>, b: Seq<u8>| n.len() == NONCE_LEN && combined@ == n + b implies nonce@
            == n && body@ == b by {
            assert(nonce@ =~= n);
            assert(body@ =~= b);
        }
    }
    let plain = match aes_open(&key.bytes, nonce, body) {
        Ok(p) => p,
        Err(_) => {
            return Err(String::from_str("Decryption failed (wrong password/target)"));
        },
    };
    // The opened text must seal back to the body it came from; a plaintext
    // over 2^36 bytes, which AES-GCM does not encrypt, is taken as opened.
    match aes_seal(&key.bytes, nonce, plain.as_slice()) {
        Ok(resealed) => {
            if !same_bytes(resealed.as_slice(), body) {
                return Err(String::from_str("Decryption failed (wrong password/target)"));
            }
        },
        Err(_) => {},
    }
    let ghost opened = plain@;
    match string_from_utf8(plain) {
        Ok(s) => {
            assert(encode_utf8(s@) == opened);
            Ok(s)
        },
        Err(_) => Err(String::from_str("Invalid UTF-8 in decrypted payload")),
    }
}

/// Decrypts a Base64 payload made by `encrypt_with_key`. An empty payload
/// decrypts to the empty text. A payload that was sealed under the same key
/// decrypts to the text that was sealed.
pub fn decrypt_with_key(key: &AesKey, encoded: &str) -> (res: Result<String, String>)
    ensures
        text_result(res) == decryption(key@, encoded@),
        forall|nonce: Seq<u8>, m: Seq<char>|
            nonce.len() == NONCE_LEN && fits_aes(m) && encoded@.len() > 0
                && encoded@ == #[trigger] sealed_payload(key@, nonce, m) ==> res is Ok && res->Ok_0@ == m,
        forall|b: Seq<u8>| encoded@.len() > 0 && encoded@ == #[trigger] base64_encode(b) ==> base64_decode(encoded@) == Some(b),
        res is Ok && encoded@.len() > 0 ==> base64_decode(encoded@) is Some && encode_utf8(res->Ok_0@).len()
            + NONCE_LEN + TAG_LEN == base64_decode(encoded@)->0.len(),
{
    if encoded.is_empty() {
        return Ok(String::new());
    }
    let combined = match base64_decode_text(encoded) {
        Ok(v) => v,
        Err(_) => {
            return Err(String::from_str("Base64 decode failed"));
        },
    };
    open_payload(key, combined.as_slice())
}

} // verus!
