//! The opening exchange of a connection: the client's hello and the server's answer.

use crate::messages::{Message, PROTOCOL_VERSION};
use vstd::prelude::*;

verus! {

/// Characters with the Unicode White_Space property (those `str::trim` removes).
pub open spec fn is_white(c: char) -> bool {
    let u = c as u32;
    ||| 9 <= u <= 13
    ||| u == 32
    ||| u == 0x85
    ||| u == 0xa0
    ||| u == 0x1680
    ||| 0x2000 <= u <= 0x200a
    ||| u == 0x2028
    ||| u == 0x2029
    ||| u == 0x202f
    ||| u == 0x205f
    ||| u == 0x3000
}

/// Number of white-space characters at the start of `s`.
pub open spec fn leading_white(s: Seq<char>) -> nat
    decreases s.len(),
{
    if s.len() == 0 || !is_white(s[0]) {
        0
    } else {
        1 + leading_white(s.subrange(1, s.len() as int))
    }
}

/// Number of white-space characters at the end of `s`.
pub open spec fn trailing_white(s: Seq<char>) -> nat
    decreases s.len(),
{
    if s.len() == 0 || !is_white(s.last()) {
        0
    } else {
        1 + trailing_white(s.drop_last())
    }
}

/// `s` without white space at either end.
pub open spec fn trimmed(s: Seq<char>) -> Seq<char> {
    let a = leading_white(s);
    if a == s.len() {
        Seq::empty()
    } else {
        s.subrange(a as int, s.len() - trailing_white(s))
    }
}

/// The pieces of `t` between dots, as `split('.')` gives them.
pub open spec fn split_dots(t: Seq<char>) -> Seq<Seq<char>>
    decreases t.len(),
{
    if t.len() == 0 {
        seq![Seq::empty()]
    } else {
        let r = split_dots(t.drop_last());
        if t.last() == '.' {
            r.push(Seq::empty())
        } else {
            r.update(r.len() - 1, r.last().push(t.last()))
        }
    }
}

/// `c` is an ASCII decimal digit.
pub open spec fn is_digit(c: char) -> bool {
    '0' <= c <= '9'
}

/// `p` is a non-empty run of decimal digits.
pub open spec fn is_number(p: Seq<char>) -> bool {
    p.len() > 0 && forall|i: int| 0 <= i < p.len() ==> is_digit(#[trigger] p[i])
}

/// A protocol version the server speaks: once trimmed, at most 32 characters of two or three
/// dot-separated numbers, the first of them "1".
pub open spec fn version_ok(v: Seq<char>) -> bool {
    let t = trimmed(v);
    let parts = split_dots(t);
    &&& 0 < t.len() <= 32
    &&& 2 <= parts.len() <= 3
    &&& forall|i: int| 0 <= i < parts.len() ==> is_number(#[trigger] parts[i])
    &&& parts[0] == seq!['1']
}

/// Characters allowed in client names and versions: ASCII letters, digits, '-', '_' and '.'.
pub open spec fn is_name_char(c: char) -> bool {
    ||| 'a' <= c <= 'z'
    ||| 'A' <= c <= 'Z'
    ||| '0' <= c <= '9'
    ||| c == '-'
    ||| c == '_'
    ||| c == '.'
}

/// A client name or version: at most 64 allowed characters.
pub open spec fn client_string_ok(s: Seq<char>) -> bool {
    s.len() <= 64 && forall|i: int| 0 <= i < s.len() ==> is_name_char(#[trigger] s[i])
}

/// The text views of a list of character vectors.
pub open spec fn char_views(v: Seq<Vec<char>>) -> Seq<Seq<char>> {
    v.map_values(|x: Vec<char>| x@)
}

fn white(c: char) -> (b: bool)
    ensures
        b == is_white(c),
{
    let u = c as u32;
    (9 <= u && u <= 13) || u == 32 || u == 0x85 || u == 0xa0 || u == 0x1680 || (0x2000 <= u && u
        <= 0x200a) || u == 0x2028 || u == 0x2029 || u == 0x202f || u == 0x205f || u == 0x3000
}

proof fn lemma_leading(s: Seq<char>, k: int)
    requires
        0 <= k <= s.len(),
        forall|j: int| 0 <= j < k ==> is_white(#[trigger] s[j]),
        k == s.len() || !is_white(s[k]),
    ensures
        leading_white(s) == k,
    decreases k,
{
    if k > 0 {
        let r = s.subrange(1, s.len() as int);
        assert forall|j: int| 0 <= j < k - 1 implies is_white(#[trigger] r[j]) by {
            assert(r[j] == s[j + 1]);
        }
        if k < s.len() {
            assert(r[k - 1] == s[k]);
        }
        lemma_leading(r, k - 1);
    }
}

proof fn lemma_trailing(s: Seq<char>, k: int)
    requires
        0 <= k <= s.len(),
        forall|j: int| s.len() - k <= j < s.len() ==> is_white(#[trigger] s[j]),
        k == s.len() || !is_white(s[s.len() - 1 - k]),
    ensures
        trailing_white(s) == k,
    decreases k,
{
    if k > 0 {
        let r = s.drop_last();
        assert forall|j: int| r.len() - (k - 1) <= j < r.len() implies is_white(#[trigger] r[j]) by {
            assert(r[j] == s[j]);
        }
        if k < s.len() {
            assert(r[r.len() - 1 - (k - 1)] == s[s.len() - 1 - k]);
        }
        lemma_trailing(r, k - 1);
    }
}

/// The bounds `[a, b)` of `s` without white space at either end.
fn trim_bounds(s: &str) -> (r: (usize, usize))
    ensures
        r.0 <= r.1 <= s@.len(),
        s@.subrange(r.0 as int, r.1 as int) == trimmed(s@),
{
    let n = s.unicode_len();
    let mut a: usize = 0;
    while a < n && white(s.get_char(a))
        invariant
            n == s@.len(),
            a <= n,
            forall|j: int| 0 <= j < a ==> is_white(#[trigger] s@[j]),
        decreases n - a,
    {
        a = a + 1;
    }
    proof {
        lemma_leading(s@, a as int);
    }
    if a == n {
        assert(s@.subrange(a as int, a as int) =~= Seq::<char>::empty());
        return (a, a);
    }
    let mut k: usize = 0;
    while k < n && white(s.get_char(n - 1 - k))
        invariant
            n == s@.len(),
            a < n,
            k <= n,
            forall|j: int| n - k <= j < n ==> is_white(#[trigger] s@[j]),
        decreases n - k,
    {
        k = k + 1;
    }
    proof {
        lemma_trailing(s@, k as int);
        assert(k < n - a) by {
            if k >= n - a {
                assert(is_white(s@[a as int]));
            }
        }
    }
    (a, n - k)
}

/// Whether `p` is a non-empty run of decimal digits.
fn is_number_exec(p: &Vec<char>) -> (b: bool)
    ensures
        b == is_number(p@),
{
    if p.len() == 0 {
        return false;
    }
    let mut m: usize = 0;
    while m < p.len()
        invariant
            m <= p@.len(),
            forall|j: int| 0 <= j < m ==> is_digit(#[trigger] p@[j]),
        decreases p@.len() - m,
    {
        let c = p[m];
        if !('0' <= c && c <= '9') {
            return false;
        }
        m = m + 1;
    }
    true
}

/// Whether `version` names a protocol version the server speaks (see `version_ok`).
pub fn is_valid_version(version: &str) -> (b: bool)
    ensures
        b == version_ok(version@),
{
    let (a, b) = trim_bounds(version);
    let ghost t = trimmed(version@);
    if b - a > 32 || b == a {
        return false;
    }
    let mut parts: Vec<Vec<char>> = Vec::new();
    parts.push(Vec::new());
    let mut i: usize = a;
    proof {
        assert(t.take(0) =~= Seq::<char>::empty());
        assert(char_views(parts@) =~= split_dots(t.take(0)));
    }
    while i < b
        invariant
            a <= i <= b <= version@.len(),
            t == version@.subrange(a as int, b as int),
            char_views(parts@) == split_dots(t.take(i - a)),
            parts@.len() >= 1,
            parts@.len() <= i - a + 1,
        decreases b - i,
    {
        let c = version.get_char(i);
        let ghost before = parts@;
        proof {
            assert(t.take(i - a + 1).drop_last() =~= t.take(i - a));
            assert(t.take(i - a + 1).last() == c);
        }
        if c == '.' {
            parts.push(Vec::new());
            proof {
                assert(char_views(parts@) =~= char_views(before).push(Seq::<char>::empty()));
            }
        } else {
            let last = parts.len() - 1;
            let mut p = parts.remove(last);
            p.push(c);
            parts.push(p);
            proof {
                let r = split_dots(t.take(i - a));
                assert(char_views(parts@) =~= r.update(r.len() - 1, r.last().push(c)));
            }
        }
        i = i + 1;
    }
    proof {
        assert(t.take(i - a) =~= t);
    }
    let np = parts.len();
    if np < 2 || np > 3 {
        return false;
    }
    let mut k: usize = 0;
    while k < np
        invariant
            np == parts@.len(),
            2 <= np <= 3,
            k <= np,
            char_views(parts@) == split_dots(t),
            t == trimmed(version@),
            0 < t.len() <= 32,
            forall|j: int| 0 <= j < k ==> is_number(#[trigger] char_views(parts@)[j]),
        decreases np - k,
    {
        let ok = is_number_exec(&parts[k]);
        proof {
            assert(char_views(parts@)[k as int] == parts@[k as int]@);
        }
        if !ok {
            return false;
        }
        k = k + 1;
    }
    let first = &parts[0];
    proof {
        assert(char_views(parts@)[0] == first@);
    }
    if first.len() == 1 && first[0] == '1' {
        proof {
            assert(first@ =~= seq!['1']);
        }
        true
    } else {
        false
    }
}

/// Whether `s` is a valid client name or version (see `client_string_ok`).
pub fn is_valid_client_string(s: &str) -> (b: bool)
    ensures
        b == client_string_ok(s@),
{
    let n = s.unicode_len();
    if n > 64 {
        return false;
    }
    let mut i: usize = 0;
    while i < n
        invariant
            n == s@.len(),
            i <= n,
            forall|j: int| 0 <= j < i ==> is_name_char(#[trigger] s@[j]),
        decreases n - i,
    {
        let c = s.get_char(i);
        let ok = ('a' <= c && c <= 'z') || ('A' <= c && c <= 'Z') || ('0' <= c && c <= '9') || c
            == '-' || c == '_' || c == '.';
        if !ok {
            return false;
        }
        i = i + 1;
    }
    true
}

/// The client hello is acceptable: a `ClientHello` with a version the server speaks and a
/// valid client name and version.
pub open spec fn hello_ok(m: Message) -> bool {
    m matches Message::ClientHello { version, client_name, client_version } && version_ok(version@)
        && client_string_ok(client_name@) && client_string_ok(client_version@)
}

/// Whether the first message of a connection is an acceptable client hello (see `hello_ok`).
pub fn accept_client_hello(m: &Message) -> (b: bool)
    ensures
        b == hello_ok(*m),
{
    match m {
        Message::ClientHello { version, client_name, client_version } => {
            is_valid_version(version.as_str()) && is_valid_client_string(client_name.as_str())
                && is_valid_client_string(client_version.as_str())
        },
        _ => false,
    }
}

/// The server's acceptance of a connection, naming itself with `server_version`.
pub fn server_hello(server_version: &str) -> (m: Message)
    ensures
        m matches Message::ServerHello { version, status, server_name, server_version: v }
            && version@ == "1.0"@ && status@ == "accepted"@ && server_name@ == "hupoker-server"@
            && v@ == server_version@,
{
    Message::ServerHello {
        version: String::from_str(PROTOCOL_VERSION),
        status: String::from_str("accepted"),
        server_name: String::from_str("hupoker-server"),
        server_version: String::from_str(server_version),
    }
}

/// The server's refusal of a connection, naming itself with `server_version`; the connection
/// is closed after it.
pub fn server_hello_rejected(server_version: &str) -> (m: Message)
    ensures
        m matches Message::ServerHello { version, status, server_name, server_version: v }
            && version@ == "1.0"@ && status@ == "rejected"@ && server_name@ == "hupoker-server"@
            && v@ == server_version@,
{
    Message::ServerHello {
        version: String::from_str(PROTOCOL_VERSION),
        status: String::from_str("rejected"),
        server_name: String::from_str("hupoker-server"),
        server_version: String::from_str(server_version),
    }
}

} // verus!
