//! Server-wide configuration.

use crate::table::{config_problem, TableConfig};
use crate::text::{decimal, digits_value, u64_to_decimal};
use vstd::prelude::*;

verus! {

/// Server-wide configuration.
#[derive(Debug, Clone)]
pub struct ServerConfig {
    /// For example "127.0.0.1:8080".
    pub bind_address: String,
    pub tables: Vec<TableConfig>,
    pub audit_log_path: String,
    /// Name of the environment variable holding the ChaCha20-Poly1305 key.
    pub encryption_key_env_var: String,
}

/// The problem of the first faulty table configuration from index `i` on, if any.
pub open spec fn tables_problem_from(tables: Seq<TableConfig>, i: nat) -> Option<Seq<char>>
    decreases tables.len() - i,
{
    if i >= tables.len() {
        None
    } else if config_problem(tables[i as int]) is Some {
        Some("table config "@ + decimal(i) + " invalid: "@ + config_problem(tables[i as int])->0)
    } else {
        tables_problem_from(tables, i + 1)
    }
}

/// Position of the last ':' in `s`, or -1 when there is none.
pub open spec fn last_colon(s: Seq<char>) -> int
    decreases s.len(),
{
    if s.len() == 0 {
        -1
    } else if s.last() == ':' {
        s.len() - 1
    } else {
        last_colon(s.drop_last())
    }
}

/// A decimal digit.
pub open spec fn is_digit(c: char) -> bool {
    '0' <= c <= '9'
}

/// A port: one to five decimal digits of value at most 65535.
pub open spec fn port_ok(p: Seq<char>) -> bool {
    &&& 1 <= p.len() <= 5
    &&& forall|i: int| 0 <= i < p.len() ==> is_digit(#[trigger] p[i])
    &&& digits_value(p) <= 65535
}

/// A socket address "host:port": a non-empty host before the last ':' and a port after it.
pub open spec fn socket_address_ok(a: Seq<char>) -> bool {
    &&& last_colon(a) >= 1
    &&& port_ok(a.subrange(last_colon(a) + 1, a.len() as int))
}

/// Message for a bind address whose port is not a number of at most 65535.
pub open spec fn bad_port_msg() -> Seq<char> {
    "bind_address port must be a number from 0 to 65535"@
}

/// What is wrong with a server configuration, if anything.
pub open spec fn server_config_problem(c: ServerConfig) -> Option<Seq<char>> {
    if c.bind_address@.len() == 0 {
        Some("bind_address must not be empty"@)
    } else if last_colon(c.bind_address@) < 1 {
        Some("bind_address must be in format 'host:port'"@)
    } else if !socket_address_ok(c.bind_address@) {
        Some(bad_port_msg())
    } else if c.audit_log_path@.len() == 0 {
        Some("audit_log_path must not be empty"@)
    } else if c.encryption_key_env_var@.len() == 0 {
        Some("encryption_key_env_var must not be empty"@)
    } else {
        tables_problem_from(c.tables@, 0)
    }
}

/// Position of the last ':' in `s`, if any (see `last_colon`).
fn last_colon_index(s: &str) -> (r: Option<usize>)
    ensures
        r matches Some(i) ==> last_colon(s@) == i && i < s@.len() && i < usize::MAX,
        r is None ==> last_colon(s@) == -1,
{
    let n = s.unicode_len();
    let mut last: Option<usize> = None;
    let mut i: usize = 0;
    while i < n
        invariant
            n == s@.len(),
            i <= n,
            last matches Some(j) ==> last_colon(s@.take(i as int)) == j && j < i,
            last is None ==> last_colon(s@.take(i as int)) == -1,
        decreases n - i,
    {
        assert(s@.take(i + 1).drop_last() =~= s@.take(i as int));
        if s.get_char(i) == ':' {
            last = Some(i);
        }
        i = i + 1;
    }
    assert(s@.take(n as int) =~= s@);
    last
}

/// Whether the characters of `s` from `from` on form a port (see `port_ok`).
fn port_text_ok(s: &str, from: usize) -> (b: bool)
    requires
        from <= s@.len(),
    ensures
        b == port_ok(s@.subrange(from as int, s@.len() as int)),
{
    let n = s.unicode_len();
    let ghost p = s@.subrange(from as int, n as int);
    if n - from < 1 || n - from > 5 {
        return false;
    }
    let mut value: u64 = 0;
    let mut k: usize = 0;
    while k < n - from
        invariant
            n == s@.len(),
            from <= n,
            p == s@.subrange(from as int, n as int),
            1 <= p.len() <= 5,
            k <= p.len(),
            forall|i: int| 0 <= i < k ==> is_digit(#[trigger] p[i]),
            value == digits_value(p.take(k as int)),
            value < 100000,
            k <= 4 ==> value < 10000,
            k <= 3 ==> value < 1000,
            k <= 2 ==> value < 100,
            k <= 1 ==> value < 10,
            k == 0 ==> value == 0,
        decreases p.len() - k,
    {
        let c = s.get_char(from + k);
        assert(c == p[k as int]);
        if !(c >= '0' && c <= '9') {
            return false;
        }
        assert(p.take(k + 1).drop_last() =~= p.take(k as int));
        value = value * 10 + (c as u32 - 48) as u64;
        k = k + 1;
    }
    assert(p.take(k as int) =~= p);
    value <= 65535
}

impl ServerConfig {
    /// Checks the configuration (see `server_config_problem`).
    pub fn validate(&self) -> (r: Result<(), String>)
        ensures
            r is Ok <==> server_config_problem(*self) is None,
            r matches Err(m) ==> server_config_problem(*self) == Some(m@),
    {
        if self.bind_address.as_str().is_empty() {
            return Err(String::from_str("bind_address must not be empty"));
        }
        let colon = match last_colon_index(self.bind_address.as_str()) {
            Some(c) if c >= 1 => c,
            _ => {
                return Err(String::from_str("bind_address must be in format 'host:port'"));
            },
        };
        if !port_text_ok(self.bind_address.as_str(), colon + 1) {
            return Err(String::from_str("bind_address port must be a number from 0 to 65535"));
        }
        if self.audit_log_path.as_str().is_empty() {
            return Err(String::from_str("audit_log_path must not be empty"));
        }
        if self.encryption_key_env_var.as_str().is_empty() {
            return Err(String::from_str("encryption_key_env_var must not be empty"));
        }
        let mut i: usize = 0;
        while i < self.tables.len()
            invariant
                i <= self.tables@.len(),
                server_config_problem(*self) == tables_problem_from(self.tables@, 0),
                tables_problem_from(self.tables@, 0) == tables_problem_from(self.tables@, i as nat),
            decreases self.tables@.len() - i,
        {
            match self.tables[i].validate() {
                Ok(()) => {},
                Err(e) => {
                    return Err(
                        String::from_str("table config ").concat(u64_to_decimal(i as u64).as_str()).concat(
                            " invalid: ",
                        ).concat(e.as_str()),
                    );
                },
            }
            i = i + 1;
        }
        Ok(())
    }
}

} // verus!
