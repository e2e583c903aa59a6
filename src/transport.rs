use vstd::prelude::*;

verus! {

/// The marker that distinguishes a filesystem-socket listen address.
pub open spec fn unix_prefix() -> Seq<char> {
    seq!['u', 'n', 'i', 'x', ':']
}

pub open spec fn has_unix_prefix_spec(s: Seq<char>) -> bool {
    s.len() >= 5 && s.subrange(0, 5) == unix_prefix()
}

/// Where the service listens.
#[derive(Debug)]
pub enum ListenAddr {
    /// A network address such as `0.0.0.0:3000`.
    Tcp(String),
    /// The path of a filesystem socket.
    Unix(String),
}

pub fn has_unix_prefix(s: &str) -> (r: bool)
    ensures
        r == has_unix_prefix_spec(s@),
{
    let n = s.unicode_len();
    if n < 5 {
        return false;
    }
    let r = s.get_char(0) == 'u' && s.get_char(1) == 'n' && s.get_char(2) == 'i' && s.get_char(3) == 'x'
        && s.get_char(4) == ':';
    assert(r == (s@.subrange(0, 5) =~= unix_prefix()));
    r
}

/// Reads a configured listen address: `unix:<path>` names a filesystem
/// socket, anything else a network address.
pub fn parse_listen_addr(addr: &str) -> (r: ListenAddr)
    ensures
        has_unix_prefix_spec(addr@) ==> (r matches ListenAddr::Unix(p) && p@ == addr@.subrange(5, addr@.len() as int)),
        !has_unix_prefix_spec(addr@) ==> (r matches ListenAddr::Tcp(a) && a@ == addr@),
{
    if has_unix_prefix(addr) {
        let n = addr.unicode_len();
        ListenAddr::Unix(String::from_str(addr.substring_char(5, n)))
    } else {
        ListenAddr::Tcp(String::from_str(addr))
    }
}

/// The configured listen address, or `0.0.0.0:3000` where none is configured.
pub fn listen_addr_or_default(configured: Option<String>) -> (r: String)
    ensures
        configured is Some ==> r@ == configured->Some_0@,
        configured is None ==> r@ == "0.0.0.0:3000"@,
{
    match configured {
        Some(a) => a,
        None => String::from_str("0.0.0.0:3000"),
    }
}

pub open spec fn is_octal_digit(c: char) -> bool {
    '0' <= c <= '7'
}

pub open spec fn all_octal(s: Seq<char>) -> bool {
    forall|i: int| 0 <= i < s.len() ==> is_octal_digit(#[trigger] s[i])
}

/// The value of a string of octal digits.
pub open spec fn octal_value(s: Seq<char>) -> nat
    decreases s.len(),
{
    if s.len() == 0 {
        0
    } else {
        octal_value(s.drop_last()) * 8 + (s.last() as nat - '0' as nat) as nat
    }
}

/// The digits of a mode string: all of it, or what follows a leading `+`.
pub open spec fn mode_digits(s: Seq<char>) -> Seq<char> {
    if s.len() > 0 && s[0] == '+' {
        s.subrange(1, s.len() as int)
    } else {
        s
    }
}

/// A mode string is read as a non-empty run of octal digits, with an optional
/// leading `+`, whose value fits in 32 bits.
pub open spec fn mode_value(s: Seq<char>) -> Option<u32> {
    let d = mode_digits(s);
    if d.len() > 0 && all_octal(d) && octal_value(d) <= u32::MAX {
        Some(octal_value(d) as u32)
    } else {
        None
    }
}

proof fn lemma_octal_grows(s: Seq<char>, n: int)
    requires
        0 <= n <= s.len(),
        all_octal(s),
    ensures
        octal_value(s.subrange(0, n)) <= octal_value(s),
    decreases s.len() - n,
{
    if n < s.len() {
        lemma_octal_grows(s, n + 1);
        assert(s.subrange(0, n + 1).drop_last() =~= s.subrange(0, n));
    } else {
        assert(s.subrange(0, n) =~= s);
    }
}

/// Reads the permission mode of a filesystem socket, written in octal.
pub fn parse_socket_mode(s: &str) -> (r: Option<u32>)
    ensures
        r == mode_value(s@),
{
    let n = s.unicode_len();
    let start: usize = if n > 0 && s.get_char(0) == '+' { 1 } else { 0 };
    let ghost d = mode_digits(s@);
    assert(d =~= s@.subrange(start as int, n as int));
    if start == n {
        return None;
    }
    let mut value: u32 = 0;
    let mut i: usize = start;
    while i < n
        invariant
            start <= i <= n,
            n == s@.len(),
            d == s@.subrange(start as int, n as int),
            d == mode_digits(s@),
            all_octal(d.subrange(0, i - start)),
            value as nat == octal_value(d.subrange(0, i - start)),
        decreases n - i,
    {
        let c = s.get_char(i);
        let ghost k: int = i - start;
        assert(d[k] == c);
        if c < '0' || c > '7' {
            assert(!is_octal_digit(d[k]));
            return None;
        }
        let digit: u32 = (c as u32) - ('0' as u32);
        let ghost next = d.subrange(0, k + 1);
        assert(next.drop_last() =~= d.subrange(0, k));
        assert(next.last() == c);
        assert(octal_value(next) == value * 8 + digit);
        if value > (u32::MAX - digit) / 8 {
            assert(value * 8 + digit > u32::MAX) by (nonlinear_arith)
                requires value > (u32::MAX - digit) / 8, digit <= 7;
            proof {
                if all_octal(d) {
                    lemma_octal_grows(d, k + 1);
                }
            }
            return None;
        }
        assert(value * 8 + digit <= u32::MAX) by (nonlinear_arith)
            requires value <= (u32::MAX - digit) / 8, digit <= 7;
        value = value * 8 + digit;
        i = i + 1;
        assert(all_octal(d.subrange(0, i - start)));
    }
    assert(d.subrange(0, i - start) =~= d);
    Some(value)
}

/// The file-type bits of a `st_mode` value.
pub const FILE_TYPE_MASK: u32 = 0o170000;

/// The file-type bits of a socket.
pub const SOCKET_TYPE: u32 = 0o140000;

/// Whether a `st_mode` value describes a socket, so that a stale one may be
/// removed before binding.
pub fn is_socket_mode(st_mode: u32) -> (r: bool)
    ensures
        r == (st_mode & FILE_TYPE_MASK == SOCKET_TYPE),
{
    st_mode & FILE_TYPE_MASK == SOCKET_TYPE
}

} // verus!
