//! Audit records of hands (seed, actions, result) and the encryption of seeds.

use crate::action::{kind_name, ActionKind};
use crate::clock::now_millis;
use crate::ids::HandId;
use crate::table::TableId;
use crate::text::{decimal, u64_to_decimal};
use base64::engine::general_purpose::STANDARD;
use base64::Engine;
use chacha20poly1305::aead::{Aead, KeyInit};
use chacha20poly1305::{ChaCha20Poly1305, Key, Nonce};
use vstd::prelude::*;

verus! {

/// One record of the audit log; times are milliseconds since the Unix epoch.
#[derive(Debug)]
pub enum AuditEvent {
    HandStart {
        hand_id: HandId,
        table_id: TableId,
        /// Base64 of the encrypted seed.
        rng_seed_encrypted: String,
        /// Base64 of the nonce used for the encryption.
        nonce: String,
        timestamp: i64,
    },
    Action { hand_id: HandId, seat: u8, kind: String, amount: Option<u64>, timestamp: i64 },
    HandEnd {
        hand_id: HandId,
        table_id: TableId,
        winner_seats: Vec<u8>,
        pot_amount: u64,
        timestamp: i64,
    },
}

/// What `chacha20poly1305`'s `ChaCha20Poly1305::encrypt` makes of `plaintext` under `key` and
/// `nonce` (no associated data): the ciphertext followed by the tag.
pub uninterp spec fn aead_sealed(key: Seq<u8>, nonce: Seq<u8>, plaintext: Seq<u8>) -> Seq<u8>;

/// What `chacha20poly1305`'s `ChaCha20Poly1305::decrypt` makes of `ciphertext` under `key` and
/// `nonce`: the plaintext, or the text of the error.
pub uninterp spec fn aead_opened(key: Seq<u8>, nonce: Seq<u8>, ciphertext: Seq<u8>) -> Result<Seq<u8>, Seq<char>>;

/// What `base64`'s standard engine (`STANDARD.encode`) writes for `bytes`.
pub uninterp spec fn base64_text(bytes: Seq<u8>) -> Seq<char>;

/// What `base64`'s standard engine (`STANDARD.decode`) reads from `text`: the bytes, or the text
/// of the error.
pub uninterp spec fn base64_decoded(text: Seq<char>) -> Result<Seq<u8>, Seq<char>>;

/// A successful read of `b`.
pub open spec fn bytes_ok(b: Seq<u8>) -> Result<Seq<u8>, Seq<char>> {
    Ok(b)
}

/// A read's result as bytes or the text of its error.
pub open spec fn bytes_result(r: Result<Vec<u8>, String>) -> Result<Seq<u8>, Seq<char>> {
    match r {
        Ok(v) => Ok(v@),
        Err(e) => Err(e@),
    }
}

/// A failed read with message `e`.
pub open spec fn bytes_err(e: Seq<char>) -> Result<Seq<u8>, Seq<char>> {
    Err(e)
}

/// Largest plaintext length `ChaCha20Poly1305::encrypt` refuses (64 * `u32::MAX` bytes).
pub const AEAD_REFUSED_LEN: u64 = 274877906880;

/// `getrandom`'s `getrandom`: `n` random bytes, or the text of the error. Which bytes is
/// chance, so only their number is claimed.
#[verifier::external_body]
pub(crate) fn random_bytes(n: usize) -> (r: Result<Vec<u8>, String>)
    ensures
        r matches Ok(v) ==> v@.len() == n,
{
    let mut v = vec![0u8; n];
    match getrandom::getrandom(&mut v) {
        Ok(()) => Ok(v),
        Err(e) => Err(e.to_string()),
    }
}

/// `chacha20poly1305`'s `ChaCha20Poly1305::new(key).encrypt(nonce, plaintext)`: refused only for
/// plaintexts of 64 * `u32::MAX` bytes or more (with the error text "aead::Error"); otherwise
/// the ciphertext followed by the 16-byte tag, which the same key and nonce decrypt back to
/// `plaintext`.
#[verifier::external_body]
fn seal(key: &[u8; 32], nonce: &[u8; 12], plaintext: &[u8]) -> (r: Result<Vec<u8>, String>)
    ensures
        r is Ok <==> plaintext@.len() < AEAD_REFUSED_LEN,
        r matches Ok(c) ==> c@ == aead_sealed(key@, nonce@, plaintext@),
        r matches Ok(c) ==> c@.len() == plaintext@.len() + 16,
        r matches Ok(c) ==> aead_opened(key@, nonce@, c@) == bytes_ok(plaintext@),
        r matches Err(e) ==> e@ == "aead::Error"@,
{
    let cipher = ChaCha20Poly1305::new(Key::from_slice(key));
    match cipher.encrypt(Nonce::from_slice(nonce), plaintext) {
        Ok(c) => Ok(c),
        Err(e) => Err(e.to_string()),
    }
}

/// `chacha20poly1305`'s `ChaCha20Poly1305::new(key).decrypt(nonce, ciphertext)` (the nonce must
/// have 12 bytes): the plaintext or the text of the error, as `aead_opened` names them.
#[verifier::external_body]
fn open(key: &[u8; 32], nonce: &[u8], ciphertext: &[u8]) -> (r: Result<Vec<u8>, String>)
    requires
        nonce@.len() == 12,
    ensures
        r matches Ok(p) ==> aead_opened(key@, nonce@, ciphertext@) == bytes_ok(p@),
        r matches Err(e) ==> aead_opened(key@, nonce@, ciphertext@) == bytes_err(e@),
{
    let cipher = ChaCha20Poly1305::new(Key::from_slice(key));
    match cipher.decrypt(Nonce::from_slice(nonce), ciphertext) {
        Ok(p) => Ok(p),
        Err(e) => Err(e.to_string()),
    }
}

/// `base64`'s `STANDARD.encode(bytes)` (it panics only when the length of the text would not fit
/// in a `usize`): text of the standard alphabet ('A'-'Z', 'a'-'z', '0'-'9', '+', '/') and
/// padding ('='), so without ':', empty only for no bytes, and decoded back to `bytes`.
#[verifier::external_body]
fn base64_encode(bytes: &[u8]) -> (s: String)
    requires
        (bytes@.len() / 3) * 4 + (if bytes@.len() % 3 > 0 {
            4int
        } else {
            0
        }) <= usize::MAX,
    ensures
        s@ == base64_text(bytes@),
        !s@.contains(':'),
        s@.len() == 0 ==> bytes@.len() == 0,
        base64_decoded(s@) == bytes_ok(bytes@),
{
    STANDARD.encode(bytes)
}

/// `base64`'s `STANDARD.decode(text)`: the bytes or the text of the error, as `base64_decoded`
/// names them.
#[verifier::external_body]
fn base64_decode(text: &str) -> (r: Result<Vec<u8>, String>)
    ensures
        r matches Ok(v) ==> base64_decoded(text@) == bytes_ok(v@),
        r matches Err(e) ==> base64_decoded(text@) == bytes_err(e@),
{
    match STANDARD.decode(text) {
        Ok(v) => Ok(v),
        Err(e) => Err(e.to_string()),
    }
}

/// What `hex`'s `decode` makes of `text`: the bytes, or the text of the error.
pub uninterp spec fn hex_decoded(text: Seq<char>) -> Result<Seq<u8>, Seq<char>>;

/// `hex`'s `decode(text)`: the bytes or the text of the error, as `hex_decoded` names them.
#[verifier::external_body]
fn hex_decode(text: &str) -> (r: Result<Vec<u8>, String>)
    ensures
        r matches Ok(v) ==> hex_decoded(text@) == bytes_ok(v@),
        r matches Err(e) ==> hex_decoded(text@) == bytes_err(e@),
{
    match hex::decode(text) {
        Ok(v) => Ok(v),
        Err(e) => Err(e.to_string()),
    }
}

/// Why a text is not an encryption key.
#[derive(Debug, PartialEq, Eq)]
pub enum KeyError {
    /// The text is not hex; the decoder's message.
    NotHex(String),
    /// The hex holds this many bytes instead of 32.
    WrongLength(usize),
}

/// An encryption key written in hex: the 32 bytes the text decodes to; otherwise the decoder's
/// error, or the number of bytes when it is not 32.
pub fn key_from_hex(text: &str) -> (r: Result<[u8; 32], KeyError>)
    ensures
        match hex_decoded(text@) {
            Err(e) => r matches Err(KeyError::NotHex(m)) && m@ == e,
            Ok(b) => if b.len() == 32 {
                r matches Ok(k) && k@ == b
            } else {
                r matches Err(KeyError::WrongLength(n)) && n == b.len()
            },
        },
{
    let bytes = match hex_decode(text) {
        Ok(v) => v,
        Err(e) => {
            return Err(KeyError::NotHex(e));
        },
    };
    if bytes.len() != 32 {
        return Err(KeyError::WrongLength(bytes.len()));
    }
    let mut key: [u8; 32] = [0u8; 32];
    let mut i: usize = 0;
    while i < 32
        invariant
            bytes@.len() == 32,
            i <= 32,
            forall|j: int| 0 <= j < i ==> key@[j] == bytes@[j],
        decreases 32 - i,
    {
        key[i] = bytes[i];
        i = i + 1;
    }
    assert(key@ =~= bytes@);
    Ok(key)
}

/// Message for an encrypted seed that is not "nonce:ciphertext".
pub open spec fn bad_format_msg() -> Seq<char> {
    "invalid encrypted seed format, expected nonce:encrypted"@
}

/// Position of the first ':' in `s` (its length if there is none).
pub open spec fn colon_at(s: Seq<char>) -> nat
    decreases s.len(),
{
    if s.len() == 0 {
        0
    } else if s[0] == ':' {
        0
    } else {
        1 + colon_at(s.subrange(1, s.len() as int))
    }
}

/// `nonce_text` and `sealed_text` are the base64 of a 12-byte `nonce` and of `seed` encrypted
/// under it with `key`, as the outside calls that made them showed them.
pub open spec fn sealed_parts(key: Seq<u8>, nonce: Seq<u8>, seed: Seq<u8>, nonce_text: Seq<char>, sealed_text: Seq<char>) -> bool {
    let sealed = aead_sealed(key, nonce, seed);
    &&& nonce.len() == 12
    &&& nonce_text == base64_text(nonce)
    &&& sealed_text == base64_text(sealed)
    &&& aead_opened(key, nonce, sealed) == bytes_ok(seed)
    &&& base64_decoded(nonce_text) == bytes_ok(nonce)
    &&& base64_decoded(sealed_text) == bytes_ok(sealed)
    &&& !nonce_text.contains(':')
    &&& nonce_text.len() > 0
    &&& sealed_text.len() > 0
}

/// The text an encrypted seed is stored as: the nonce and the ciphertext in base64, joined by ':'.
pub open spec fn sealed_seed_text(key: Seq<u8>, nonce: Seq<u8>, seed: Seq<u8>) -> Seq<char> {
    base64_text(nonce) + ":"@ + base64_text(aead_sealed(key, nonce, seed))
}

/// What decrypting the stored seed `text` with `key` gives: the text must be "nonce:ciphertext"
/// (split at the first ':', both non-empty), the nonce 12 bytes of base64, the ciphertext base64
/// that decrypts to 32 bytes; each failure has its message.
pub open spec fn decrypt_outcome(text: Seq<char>, key: Seq<u8>) -> Result<Seq<u8>, Seq<char>> {
    let c = colon_at(text);
    if c == text.len() {
        Err(bad_format_msg())
    } else {
        let nonce_text = text.subrange(0, c as int);
        let sealed_text = text.subrange(c + 1 as int, text.len() as int);
        if nonce_text.len() == 0 || sealed_text.len() == 0 {
            Err(bad_format_msg())
        } else {
            match base64_decoded(nonce_text) {
                Err(e) => Err("failed to decode nonce: "@ + e),
                Ok(nonce) => if nonce.len() != 12 {
                    Err("nonce must be 12 bytes, got "@ + decimal(nonce.len()))
                } else {
                    match base64_decoded(sealed_text) {
                        Err(e) => Err("failed to decode encrypted seed: "@ + e),
                        Ok(sealed) => match aead_opened(key, nonce, sealed) {
                            Err(e) => Err("seed decryption failed: "@ + e),
                            Ok(seed) => if seed.len() != 32 {
                                Err("decrypted seed must be 32 bytes, got "@ + decimal(seed.len()))
                            } else {
                                Ok(seed)
                            },
                        },
                    }
                },
            }
        }
    }
}

proof fn lemma_colon_at(s: Seq<char>, k: int)
    requires
        0 <= k <= s.len(),
        forall|j: int| 0 <= j < k ==> #[trigger] s[j] != ':',
        k == s.len() || s[k] == ':',
    ensures
        colon_at(s) == k,
    decreases k,
{
    if k > 0 {
        let r = s.subrange(1, s.len() as int);
        assert forall|j: int| 0 <= j < k - 1 implies #[trigger] r[j] != ':' by {
            assert(r[j] == s[j + 1]);
        }
        if k < s.len() {
            assert(r[k - 1] == s[k]);
        }
        lemma_colon_at(r, k - 1);
    }
}

/// Twelve random bytes for a nonce, or "failed to generate nonce: " and the reason.
fn fresh_nonce() -> (r: Result<[u8; 12], String>)
    ensures
        r matches Err(m) ==> exists|e: Seq<char>| m@ == "failed to generate nonce: "@ + e,
{
    let bytes = match random_bytes(12) {
        Ok(v) => v,
        Err(e) => {
            return Err(String::from_str("failed to generate nonce: ").concat(e.as_str()));
        },
    };
    Ok(
        [
            bytes[0],
            bytes[1],
            bytes[2],
            bytes[3],
            bytes[4],
            bytes[5],
            bytes[6],
            bytes[7],
            bytes[8],
            bytes[9],
            bytes[10],
            bytes[11],
        ],
    )
}

/// Message refusing to log a seed without a key.
pub open spec fn missing_key_msg() -> Seq<char> {
    "cannot log seed without encryption: encryption key must be configured"@
}

/// `e` records the start of hand `hand_id` at table `table_id` with `seed` encrypted under
/// `key` and `nonce`: the base64 of the nonce and of the ciphertext, which decrypt back to
/// `seed`.
pub open spec fn is_seed_record(e: AuditEvent, hand_id: HandId, table_id: Seq<char>, key: Seq<u8>, nonce: Seq<u8>, seed: Seq<u8>) -> bool {
    e matches AuditEvent::HandStart { hand_id: h, table_id: t, rng_seed_encrypted, nonce: n, timestamp }
        && h == hand_id && t@ == table_id && timestamp >= 0 && n@ == base64_text(nonce)
        && rng_seed_encrypted@ == base64_text(aead_sealed(key, nonce, seed)) && decrypt_outcome(
        n@ + ":"@ + rng_seed_encrypted@,
        key,
    ) == bytes_ok(seed)
}

/// Seed encryption and audit records; the server writes the records to its log file.
#[derive(Debug)]
pub struct AuditLog {
    key: Option<[u8; 32]>,
}

impl AuditLog {
    /// An audit log that encrypts seeds with `encryption_key` (seeds cannot be logged without
    /// one).
    pub fn new(encryption_key: Option<[u8; 32]>) -> (a: AuditLog)
        ensures
            a.key() == encryption_key,
    {
        AuditLog { key: encryption_key }
    }

    /// The encryption key.
    pub closed spec fn key(&self) -> Option<[u8; 32]> {
        self.key
    }

    /// Whether seeds can be logged: a key is configured.
    pub fn has_key(&self) -> (b: bool)
        ensures
            b == self.key() is Some,
    {
        self.key.is_some()
    }

    /// Encrypts `seed` with `key` under a fresh random nonce, as "nonce:ciphertext" in base64
    /// (see `seal_seed_with_nonce`); decrypting the text with `key` gives `seed` back. It fails
    /// only when no random nonce can be had.
    pub fn encrypt_seed(seed: [u8; 32], key: &[u8; 32]) -> (r: Result<String, String>)
        ensures
            r matches Ok(text) ==> decrypt_outcome(text@, key@) == bytes_ok(seed@),
            r matches Ok(text) ==> exists|nonce: Seq<u8>|
                nonce.len() == 12 && text@ == #[trigger] sealed_seed_text(key@, nonce, seed@),
            r matches Err(m) ==> exists|e: Seq<char>| m@ == "failed to generate nonce: "@ + e,
    {
        let nonce = match fresh_nonce() {
            Ok(n) => n,
            Err(e) => {
                return Err(e);
            },
        };
        Ok(Self::seal_seed_with_nonce(&seed, key, nonce))
    }

    /// `seed` encrypted with `key` under `nonce`, as "nonce:ciphertext" in base64 (see
    /// `sealed_seed_text`); decrypting the text with `key` gives `seed` back.
    pub fn seal_seed_with_nonce(seed: &[u8; 32], key: &[u8; 32], nonce: [u8; 12]) -> (t: String)
        ensures
            t@ == sealed_seed_text(key@, nonce@, seed@),
            decrypt_outcome(t@, key@) == bytes_ok(seed@),
    {
        let (nonce_b64, sealed_b64) = Self::seal_parts(seed, key, nonce);
        let text = nonce_b64.concat(":").concat(sealed_b64.as_str());
        proof {
            assert(text@ == sealed_seed_text(key@, nonce@, seed@));
            Self::lemma_round_trip(key@, nonce@, seed@);
        }
        text
    }

    /// The base64 texts of `nonce` and of `seed` encrypted under it with `key`.
    fn seal_parts(seed: &[u8; 32], key: &[u8; 32], nonce: [u8; 12]) -> (p: (String, String))
        ensures
            sealed_parts(key@, nonce@, seed@, p.0@, p.1@),
    {
        let sealed = match seal(key, &nonce, seed.as_slice()) {
            Ok(c) => c,
            Err(_) => {
                // 32 bytes are far below the length `seal` refuses.
                proof {
                    assert(false);
                }
                Vec::new()
            },
        };
        let nonce_b64 = base64_encode(nonce.as_slice());
        let sealed_b64 = base64_encode(sealed.as_slice());
        (nonce_b64, sealed_b64)
    }

    /// Decrypting what `sealed_seed_text` writes gives the seed back (given what the outside
    /// calls made while writing it showed).
    proof fn lemma_round_trip(key: Seq<u8>, nonce: Seq<u8>, seed: Seq<u8>)
        requires
            seed.len() == 32,
            sealed_parts(
                key,
                nonce,
                seed,
                base64_text(nonce),
                base64_text(aead_sealed(key, nonce, seed)),
            ),
        ensures
            decrypt_outcome(sealed_seed_text(key, nonce, seed), key) == bytes_ok(
                seed,
            ),
    {
        let a = base64_text(nonce);
        let b = base64_text(aead_sealed(key, nonce, seed));
        let t = sealed_seed_text(key, nonce, seed);
        reveal_strlit(":");
        assert(t =~= a + seq![':'] + b);
        assert forall|j: int| 0 <= j < a.len() implies #[trigger] t[j] != ':' by {
            assert(t[j] == a[j]);
            if a[j] == ':' {
                assert(a.contains(':'));
            }
        }
        assert(t[a.len() as int] == ':');
        lemma_colon_at(t, a.len() as int);
        assert(t.subrange(0, a.len() as int) =~= a);
        assert(t.subrange(a.len() + 1 as int, t.len() as int) =~= b);
    }

    /// Reads back a seed stored by `encrypt_seed` (see `decrypt_outcome`).
    pub fn decrypt_seed(encrypted_with_nonce: &str, key: &[u8; 32]) -> (r: Result<[u8; 32], String>)
        ensures
            match decrypt_outcome(encrypted_with_nonce@, key@) {
                Ok(seed) => r matches Ok(s) && s@ == seed,
                Err(m) => r matches Err(x) && x@ == m,
            },
    {
        let text = encrypted_with_nonce;
        let n = text.unicode_len();
        let mut c: usize = 0;
        while c < n && text.get_char(c) != ':'
            invariant
                n == text@.len(),
                c <= n,
                forall|j: int| 0 <= j < c ==> #[trigger] text@[j] != ':',
            decreases n - c,
        {
            c = c + 1;
        }
        proof {
            lemma_colon_at(text@, c as int);
        }
        if c == n {
            return Err(String::from_str("invalid encrypted seed format, expected nonce:encrypted"));
        }
        let nonce_text = text.substring_char(0, c);
        let sealed_text = text.substring_char(c + 1, n);
        if nonce_text.unicode_len() == 0 || sealed_text.unicode_len() == 0 {
            return Err(String::from_str("invalid encrypted seed format, expected nonce:encrypted"));
        }
        let nonce = match base64_decode(nonce_text) {
            Ok(v) => v,
            Err(e) => {
                return Err(String::from_str("failed to decode nonce: ").concat(e.as_str()));
            },
        };
        if nonce.len() != 12 {
            return Err(
                String::from_str("nonce must be 12 bytes, got ").concat(
                    u64_to_decimal(nonce.len() as u64).as_str(),
                ),
            );
        }
        let sealed = match base64_decode(sealed_text) {
            Ok(v) => v,
            Err(e) => {
                return Err(String::from_str("failed to decode encrypted seed: ").concat(e.as_str()));
            },
        };
        let seed = match open(key, nonce.as_slice(), sealed.as_slice()) {
            Ok(p) => p,
            Err(e) => {
                return Err(String::from_str("seed decryption failed: ").concat(e.as_str()));
            },
        };
        if seed.len() != 32 {
            return Err(
                String::from_str("decrypted seed must be 32 bytes, got ").concat(
                    u64_to_decimal(seed.len() as u64).as_str(),
                ),
            );
        }
        let mut out: [u8; 32] = [0u8; 32];
        let mut i: usize = 0;
        while i < 32
            invariant
                seed@.len() == 32,
                i <= 32,
                forall|j: int| 0 <= j < i ==> out@[j] == seed@[j],
            decreases 32 - i,
        {
            out[i] = seed[i];
            i = i + 1;
        }
        assert(out@ =~= seed@);
        Ok(out)
    }

    /// The seed a hand-start record holds, as the log reader shows it: nothing without a key;
    /// with a nonce, the seed decrypted from "nonce:ciphertext" (see `decrypt_outcome`); with an
    /// empty nonce, the record holds the seed itself in base64.
    pub fn seed_of_record(rng_seed_encrypted: &str, nonce: &str, key: Option<&[u8; 32]>) -> (r: Option<Result<Vec<u8>, String>>)
        ensures
            key is None ==> r is None,
            key matches Some(k) ==> (nonce@.len() > 0 ==> (r matches Some(x) && bytes_result(x)
                == decrypt_outcome(nonce@ + ":"@ + rng_seed_encrypted@, k@))),
            key is Some ==> (nonce@.len() == 0 ==> (r matches Some(x) && bytes_result(x)
                == base64_decoded(rng_seed_encrypted@))),
    {
        let key = match key {
            Some(k) => k,
            None => {
                return None;
            },
        };
        if nonce.unicode_len() == 0 {
            return Some(base64_decode(rng_seed_encrypted));
        }
        let text = String::from_str(nonce).concat(":").concat(rng_seed_encrypted);
        match Self::decrypt_seed(text.as_str(), key) {
            Ok(seed) => {
                let mut v: Vec<u8> = Vec::new();
                let mut i: usize = 0;
                while i < 32
                    invariant
                        i <= 32,
                        v@ == seed@.take(i as int),
                    decreases 32 - i,
                {
                    v.push(seed[i]);
                    proof {
                        assert(seed@.take(i + 1) =~= seed@.take(i as int).push(seed@[i as int]));
                    }
                    i = i + 1;
                }
                assert(seed@.take(32) =~= seed@);
                Some(Ok(v))
            },
            Err(e) => Some(Err(e)),
        }
    }

    /// The record of a new hand's seed, encrypted under a fresh nonce (see
    /// `seed_event_with_nonce`): refused without a key, or when no random nonce can be had.
    pub fn seed_event(&self, hand_id: HandId, table_id: &TableId, seed: &[u8; 32]) -> (r: Result<AuditEvent, String>)
        ensures
            self.key() is None ==> (r matches Err(m) && m@ == missing_key_msg()),
            self.key() is Some ==> (r matches Err(m) ==> exists|e: Seq<char>| m@
                == "failed to generate nonce: "@ + e),
            r matches Ok(ev) ==> self.key() is Some && exists|nonce: Seq<u8>|
                nonce.len() == 12 && #[trigger] is_seed_record(ev, hand_id, table_id@, self.key()->0@, nonce, seed@),
    {
        if self.key.is_none() {
            return Err(String::from_str(
                "cannot log seed without encryption: encryption key must be configured",
            ));
        }
        let nonce = match fresh_nonce() {
            Ok(n) => n,
            Err(e) => {
                return Err(e);
            },
        };
        self.seed_event_with_nonce(hand_id, table_id, seed, nonce)
    }

    /// The record of a new hand's seed, encrypted under `nonce`: refused without a key;
    /// otherwise it holds the base64 of the nonce and of the ciphertext, and decrypts back to
    /// `seed`.
    pub fn seed_event_with_nonce(&self, hand_id: HandId, table_id: &TableId, seed: &[u8; 32], nonce: [u8; 12]) -> (r: Result<AuditEvent, String>)
        ensures
            self.key() is None ==> (r matches Err(m) && m@ == missing_key_msg()),
            self.key() is Some ==> (r matches Ok(ev) && is_seed_record(
                ev,
                hand_id,
                table_id@,
                self.key()->0@,
                nonce@,
                seed@,
            )),
    {
        let key = match &self.key {
            Some(k) => k,
            None => {
                return Err(
                    String::from_str(
                        "cannot log seed without encryption: encryption key must be configured",
                    ),
                );
            },
        };
        let (nonce_b64, sealed_b64) = Self::seal_parts(seed, key, nonce);
        proof {
            assert(nonce_b64@ + ":"@ + sealed_b64@ == sealed_seed_text(key@, nonce@, seed@));
            Self::lemma_round_trip(key@, nonce@, seed@);
        }
        Ok(
            AuditEvent::HandStart {
                hand_id,
                table_id: table_id.clone(),
                rng_seed_encrypted: sealed_b64,
                nonce: nonce_b64,
                timestamp: now_millis(),
            },
        )
    }

    /// The record of `seat`'s action `kind` with `amount` in hand `hand_id`, timed now.
    pub fn action_event(hand_id: HandId, seat: u8, kind: ActionKind, amount: Option<u64>) -> (e: AuditEvent)
        ensures
            e matches AuditEvent::Action { hand_id: h, seat: s, kind: k, amount: a, timestamp } && h
                == hand_id && s == seat && k@ == kind_name(kind) && a == amount && timestamp >= 0,
    {
        AuditEvent::Action {
            hand_id,
            seat,
            kind: String::from_str(kind.name()),
            amount,
            timestamp: now_millis(),
        }
    }

    /// The record of the end of hand `hand_id` at table `table_id`, timed now.
    pub fn hand_end_event(hand_id: HandId, table_id: &TableId, winner_seats: Vec<u8>, pot_amount: u64) -> (e: AuditEvent)
        ensures
            e matches AuditEvent::HandEnd { hand_id: h, table_id: t, winner_seats: w, pot_amount: p, timestamp }
                && h == hand_id && t@ == table_id@ && w@ == winner_seats@ && p == pot_amount
                && timestamp >= 0,
    {
        AuditEvent::HandEnd {
            hand_id,
            table_id: table_id.clone(),
            winner_seats,
            pot_amount,
            timestamp: now_millis(),
        }
    }
}

} // verus!
