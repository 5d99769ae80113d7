//! Identifiers of hands and connections (UUIDs held as 128-bit numbers).

use crate::audit::random_bytes;
use uuid::{Builder, Uuid};
use vstd::arithmetic::power2::pow2;
use vstd::prelude::*;

verus! {

/// Lowercase hexadecimal digit for `d` (`0 <= d < 16`).
pub open spec fn hex_char(d: int) -> char {
    if d < 10 {
        (48 + d) as char
    } else {
        (87 + d) as char
    }
}

/// The `k`-th hexadecimal digit of `u`, counting from the most significant (`0 <= k < 32`).
pub open spec fn nibble(u: u128, k: int) -> int {
    (u as int / pow2((4 * (31 - k)) as nat) as int) % 16
}

/// The hyphenated lowercase form of a UUID, 8-4-4-4-12 hexadecimal digits.
pub open spec fn hyphenated(u: u128) -> Seq<char> {
    Seq::new(
        36,
        |p: int|
            if p == 8 || p == 13 || p == 18 || p == 23 {
                '-'
            } else {
                hex_char(
                    nibble(
                        u,
                        p - (if p > 23 {
                            4int
                        } else if p > 18 {
                            3int
                        } else if p > 13 {
                            2int
                        } else if p > 8 {
                            1int
                        } else {
                            0int
                        }),
                    ),
                )
            },
    )
}

/// The UUID whose hyphenated form is `s`, if there is one.
pub open spec fn hyphenated_value(s: Seq<char>) -> Option<u128> {
    if exists|u: u128| s == hyphenated(u) {
        Some(choose|u: u128| s == hyphenated(u))
    } else {
        None
    }
}

/// What `uuid`'s `Uuid::parse_str` makes of a text: the UUID's 128-bit value, or the text of
/// its error.
pub uninterp spec fn uuid_parse_result(s: Seq<char>) -> Result<u128, Seq<char>>;

/// What `uuid`'s `Builder::from_random_bytes(bytes).into_uuid().as_u128()` gives: the
/// version-4 UUID made from the 16 `bytes`.
pub uninterp spec fn uuid_of_random_bytes(bytes: Seq<u8>) -> u128;

/// `uuid`'s `Builder::from_random_bytes(bytes).into_uuid().as_u128()`: the UUID that
/// `uuid_of_random_bytes` names for `bytes`, whose version digit the source sets to 4 and
/// whose variant bits it sets to binary 10.
#[verifier::external_body]
fn uuid_from_random(bytes: [u8; 16]) -> (u: u128)
    ensures
        u == uuid_of_random_bytes(bytes@),
        (u >> 76u128) & 0xfu128 == 4,
        (u >> 62u128) & 0x3u128 == 2,
{
    Builder::from_random_bytes(bytes).into_uuid().as_u128()
}

/// A random version-4 UUID: 16 random bytes made into one (see `uuid_of_random_bytes`), or
/// "failed to generate random bytes: " and the reason when no random bytes can be had.
fn random_uuid() -> (r: Result<u128, String>)
    ensures
        r matches Ok(u) ==> (u >> 76u128) & 0xfu128 == 4 && (u >> 62u128) & 0x3u128 == 2,
        r matches Err(m) ==> exists|e: Seq<char>| m@ == "failed to generate random bytes: "@ + e,
{
    let v = match random_bytes(16) {
        Ok(v) => v,
        Err(e) => {
            return Err(String::from_str("failed to generate random bytes: ").concat(e.as_str()));
        },
    };
    let bytes: [u8; 16] = [
        v[0],
        v[1],
        v[2],
        v[3],
        v[4],
        v[5],
        v[6],
        v[7],
        v[8],
        v[9],
        v[10],
        v[11],
        v[12],
        v[13],
        v[14],
        v[15],
    ];
    Ok(uuid_from_random(bytes))
}

/// `uuid`'s `Display` for `Uuid` (the hyphenated lowercase form) of the UUID with value `u`.
#[verifier::external_body]
fn uuid_text(u: u128) -> (s: String)
    ensures
        s@ == hyphenated(u),
{
    Uuid::from_u128(u).to_string()
}

/// `uuid`'s `Uuid::parse_str`: the value of the parsed UUID, or the text of the error. The parser
/// reads back the hyphenated form of any UUID.
#[verifier::external_body]
fn parse_uuid(s: &str) -> (r: Result<u128, String>)
    ensures
        r is Ok ==> uuid_parse_result(s@) == Ok::<u128, Seq<char>>(r->Ok_0),
        r is Err ==> uuid_parse_result(s@) == Err::<u128, Seq<char>>(r->Err_0@),
        r is Err ==> hyphenated_value(s@) is None,
        r is Ok && hyphenated_value(s@) is Some ==> r->Ok_0 == hyphenated_value(s@)->0,
{
    match Uuid::parse_str(s) {
        Ok(u) => Ok(u.as_u128()),
        Err(e) => Err(e.to_string()),
    }
}

/// Identifier of a hand.
#[derive(Debug, Clone, Copy, PartialEq, Eq, Structural, Hash)]
pub struct HandId(pub u128);

/// Identifier of a client connection.
#[derive(Debug, Clone, Copy, PartialEq, Eq, Structural, Hash)]
pub struct ConnectionId(pub u128);

impl HandId {
    /// The hand identifier with UUID value `uuid`.
    pub fn new(uuid: u128) -> (h: HandId)
        ensures
            h.0 == uuid,
    {
        HandId(uuid)
    }

    /// A fresh random (version 4, variant binary 10) hand identifier, or the reason no random
    /// bytes could be had.
    pub fn new_v4() -> (r: Result<HandId, String>)
        ensures
            r matches Ok(h) ==> (h.0 >> 76u128) & 0xfu128 == 4 && (h.0 >> 62u128) & 0x3u128 == 2,
            r matches Err(m) ==> exists|e: Seq<char>| m@ == "failed to generate random bytes: "@ + e,
    {
        match random_uuid() {
            Ok(u) => Ok(HandId(u)),
            Err(e) => Err(e),
        }
    }

    /// The version-4 hand identifier made from the random `bytes` (see `uuid_of_random_bytes`).
    pub fn from_random_bytes(bytes: [u8; 16]) -> (h: HandId)
        ensures
            h.0 == uuid_of_random_bytes(bytes@),
            (h.0 >> 76u128) & 0xfu128 == 4,
            (h.0 >> 62u128) & 0x3u128 == 2,
    {
        HandId(uuid_from_random(bytes))
    }

    /// The UUID value.
    pub fn as_u128(&self) -> (u: u128)
        ensures
            u == self.0,
    {
        self.0
    }

    /// The hyphenated lowercase text of the identifier.
    pub fn to_text(&self) -> (s: String)
        ensures
            s@ == hyphenated(self.0),
    {
        uuid_text(self.0)
    }

    /// Reads a hand identifier; on failure the message names the parser's error.
    pub fn parse(s: &str) -> (r: Result<HandId, String>)
        ensures
            match uuid_parse_result(s@) {
                Ok(u) => r == Ok::<HandId, String>(HandId(u)),
                Err(e) => r matches Err(m) && m@ == "invalid hand ID: "@ + e,
            },
            hyphenated_value(s@) matches Some(u) ==> r == Ok::<HandId, String>(HandId(u)),
    {
        match parse_uuid(s) {
            Ok(u) => Ok(HandId(u)),
            Err(e) => Err(String::from_str("invalid hand ID: ").concat(e.as_str())),
        }
    }
}

impl ConnectionId {
    /// The connection identifier with UUID value `uuid`.
    pub fn new(uuid: u128) -> (c: ConnectionId)
        ensures
            c.0 == uuid,
    {
        ConnectionId(uuid)
    }

    /// A fresh random (version 4, variant binary 10) connection identifier, or the reason no
    /// random bytes could be had.
    pub fn new_v4() -> (r: Result<ConnectionId, String>)
        ensures
            r matches Ok(c) ==> (c.0 >> 76u128) & 0xfu128 == 4 && (c.0 >> 62u128) & 0x3u128 == 2,
            r matches Err(m) ==> exists|e: Seq<char>| m@ == "failed to generate random bytes: "@ + e,
    {
        match random_uuid() {
            Ok(u) => Ok(ConnectionId(u)),
            Err(e) => Err(e),
        }
    }

    /// The version-4 connection identifier made from the random `bytes` (see
    /// `uuid_of_random_bytes`).
    pub fn from_random_bytes(bytes: [u8; 16]) -> (c: ConnectionId)
        ensures
            c.0 == uuid_of_random_bytes(bytes@),
            (c.0 >> 76u128) & 0xfu128 == 4,
            (c.0 >> 62u128) & 0x3u128 == 2,
    {
        ConnectionId(uuid_from_random(bytes))
    }

    /// The hyphenated lowercase text of the identifier.
    pub fn to_text(&self) -> (s: String)
        ensures
            s@ == hyphenated(self.0),
    {
        uuid_text(self.0)
    }

    /// Reads a connection identifier; on failure the message names the parser's error.
    pub fn parse(s: &str) -> (r: Result<ConnectionId, String>)
        ensures
            match uuid_parse_result(s@) {
                Ok(u) => r == Ok::<ConnectionId, String>(ConnectionId(u)),
                Err(e) => r matches Err(m) && m@ == "invalid connection ID: "@ + e,
            },
            hyphenated_value(s@) matches Some(u) ==> r == Ok::<ConnectionId, String>(ConnectionId(u)),
    {
        match parse_uuid(s) {
            Ok(u) => Ok(ConnectionId(u)),
            Err(e) => Err(String::from_str("invalid connection ID: ").concat(e.as_str())),
        }
    }
}

} // verus!
