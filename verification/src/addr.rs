//! Textual address resolution.
//!
//! An address specification is one of three shapes: a complete socket
//! address (`ip:port`, with a bracketed IP for the colon-separated form),
//! a bare port, or a bare IP. The first shape that parses wins: a bare
//! port resolves to the wildcard address `0.0.0.0`, a bare IP to port 0.
//! A role-specific validation runs after parsing: a listen address needs
//! a nonzero port, a remote address a nonzero port and a specified IP,
//! and a local bind address has no extra constraint.
//!
//! The grammar is fixed by the spec functions of this module: decimal
//! numbers are plain digit runs (a port may carry leading zeros, an IPv4
//! octet may not), and an IPv6 address is made of one-to-four-digit hex
//! groups separated by single colons, with at most one `::` standing for
//! the missing zero groups and an optional closing dotted quad standing
//! for the last two groups.

use vstd::prelude::*;

verus! {

use vstd::string::StringSliceAdditionalSpecFns;
use vstd::string::StrSliceExecFns;
use vstd::utf8::encode_utf8;

/// A parsed IP address, as plain numeric components.
#[derive(Clone, Copy, Debug, PartialEq, Eq, Structural)]
pub enum IpAddress {
    V4(u8, u8, u8, u8),
    V6(u16, u16, u16, u16, u16, u16, u16, u16),
}

impl IpAddress {
    /// The all-zero address of either family.
    pub open spec fn spec_is_unspecified(self) -> bool {
        match self {
            IpAddress::V4(a, b, c, d) => a == 0 && b == 0 && c == 0 && d == 0,
            IpAddress::V6(a, b, c, d, e, f, g, h) => a == 0 && b == 0 && c == 0 && d == 0 && e
                == 0 && f == 0 && g == 0 && h == 0,
        }
    }

    pub fn is_unspecified(&self) -> (r: bool)
        ensures
            r == self.spec_is_unspecified(),
    {
        match self {
            IpAddress::V4(a, b, c, d) => *a == 0 && *b == 0 && *c == 0 && *d == 0,
            IpAddress::V6(a, b, c, d, e, f, g, h) => *a == 0 && *b == 0 && *c == 0 && *d == 0
                && *e == 0 && *f == 0 && *g == 0 && *h == 0,
        }
    }
}

/// A validated (IP, port) pair.
#[derive(Clone, Copy, Debug, PartialEq, Eq, Structural)]
pub struct ResolvedAddress {
    pub ip: IpAddress,
    pub port: u16,
}

/// The role an address plays in a relay pair; it decides which parses
/// are acceptable.
#[derive(Clone, Copy, Debug, PartialEq, Eq, Structural)]
pub enum Role {
    Listen,
    Remote,
    Local,
}

/// Malformed or role-constraint-violating address text, carrying the
/// offending specification.
#[derive(Clone, Debug, PartialEq, Eq)]
pub enum ResolveError {
    InvalidAddress(String),
}

// ---------------------------------------------------------------------
// Byte-level grammar, spec side.
// ---------------------------------------------------------------------

/// ASCII decimal digit.
pub open spec fn is_digit_byte(b: u8) -> bool {
    48 <= b && b <= 57
}

pub open spec fn digit_val(b: u8) -> nat
    recommends
        is_digit_byte(b),
{
    (b - 48) as nat
}

/// ASCII hexadecimal digit, either case.
pub open spec fn is_hex_byte(b: u8) -> bool {
    is_digit_byte(b) || (97 <= b && b <= 102) || (65 <= b && b <= 70)
}

pub open spec fn hex_digit_val(b: u8) -> nat
    recommends
        is_hex_byte(b),
{
    if is_digit_byte(b) {
        (b - 48) as nat
    } else if 97 <= b && b <= 102 {
        (b - 87) as nat
    } else {
        (b - 55) as nat
    }
}

pub open spec fn all_digit_bytes(s: Seq<u8>) -> bool {
    forall|i: int| 0 <= i < s.len() ==> is_digit_byte(s[i])
}

/// Value of a digit run read as a decimal number.
pub open spec fn dec_value(s: Seq<u8>) -> nat
    decreases s.len(),
{
    if s.len() == 0 {
        0
    } else {
        dec_value(s.drop_last()) * 10 + digit_val(s.last())
    }
}

/// Value of a hex-digit run read as a hexadecimal number.
pub open spec fn hex_value(s: Seq<u8>) -> nat
    decreases s.len(),
{
    if s.len() == 0 {
        0
    } else {
        hex_value(s.drop_last()) * 16 + hex_digit_val(s.last())
    }
}

/// End of the maximal digit run that starts at `i`.
pub open spec fn digits_end(s: Seq<u8>, i: int) -> int
    decreases s.len() - i when 0 <= i <= s.len()
{
    if i < s.len() && is_digit_byte(s[i]) {
        digits_end(s, i + 1)
    } else {
        i
    }
}

/// End of the maximal hex-digit run that starts at `i`.
pub open spec fn hex_end(s: Seq<u8>, i: int) -> int
    decreases s.len() - i when 0 <= i <= s.len()
{
    if i < s.len() && is_hex_byte(s[i]) {
        hex_end(s, i + 1)
    } else {
        i
    }
}

/// First occurrence of `b` at or after `i`, or -1.
pub open spec fn find_from(s: Seq<u8>, b: u8, i: int) -> int
    decreases s.len() - i when 0 <= i <= s.len()
{
    if i < s.len() {
        if s[i] == b {
            i
        } else {
            find_from(s, b, i + 1)
        }
    } else {
        -1
    }
}

/// First position of a double colon at or after `i`, or -1.
pub open spec fn find_dc(s: Seq<u8>, i: int) -> int
    decreases s.len() - i when 0 <= i <= s.len()
{
    if i + 1 < s.len() {
        if s[i] == 58 && s[i + 1] == 58 {
            i
        } else {
            find_dc(s, i + 1)
        }
    } else {
        -1
    }
}

/// A bare port: a nonempty digit run whose value fits a `u16`. Leading
/// zeros are allowed.
pub open spec fn spec_parse_port(s: Seq<u8>) -> Option<u16> {
    if s.len() > 0 && all_digit_bytes(s) && dec_value(s) <= 65535 {
        Some(dec_value(s) as u16)
    } else {
        None
    }
}

/// An IPv4 octet: one to three digits, no leading zero, value at most 255.
pub open spec fn is_octet(s: Seq<u8>) -> bool {
    &&& 1 <= s.len() <= 3
    &&& all_digit_bytes(s)
    &&& (s.len() == 1 || s[0] != 48)
    &&& dec_value(s) <= 255
}

/// A dotted quad: four octets separated by dots, nothing else.
pub open spec fn spec_parse_ipv4(s: Seq<u8>) -> Option<IpAddress> {
    let e1 = digits_end(s, 0);
    if e1 < s.len() && s[e1] == 46 && is_octet(s.subrange(0, e1)) {
        let e2 = digits_end(s, e1 + 1);
        if e2 < s.len() && s[e2] == 46 && is_octet(s.subrange(e1 + 1, e2)) {
            let e3 = digits_end(s, e2 + 1);
            if e3 < s.len() && s[e3] == 46 && is_octet(s.subrange(e2 + 1, e3)) {
                let e4 = digits_end(s, e3 + 1);
                if e4 == s.len() && is_octet(s.subrange(e3 + 1, e4)) {
                    Some(
                        IpAddress::V4(
                            dec_value(s.subrange(0, e1)) as u8,
                            dec_value(s.subrange(e1 + 1, e2)) as u8,
                            dec_value(s.subrange(e2 + 1, e3)) as u8,
                            dec_value(s.subrange(e3 + 1, e4)) as u8,
                        ),
                    )
                } else {
                    None
                }
            } else {
                None
            }
        } else {
            None
        }
    } else {
        None
    }
}

/// Hex groups separated by single colons, starting at `i` and running to
/// the end of `s`; `more` bounds how many groups may still follow the
/// first one. Each group has one to four hex digits. When `v4_tail`
/// holds, the list may close with a dotted quad standing for the last
/// two groups, as in the IPv4-in-IPv6 notation.
pub open spec fn spec_groups(s: Seq<u8>, i: int, more: nat, v4_tail: bool) -> Option<Seq<u16>>
    decreases more when 0 <= i <= s.len()
{
    let e = hex_end(s, i);
    if v4_tail && e < s.len() && s[e] == 46 && more > 0 {
        match spec_parse_ipv4(s.subrange(i, s.len() as int)) {
            Some(IpAddress::V4(a, b, c, d)) => Some(
                seq![
                    ((a as nat) * 256 + (b as nat)) as u16,
                    ((c as nat) * 256 + (d as nat)) as u16,
                ],
            ),
            _ => None,
        }
    } else if e - i < 1 || e - i > 4 {
        None
    } else {
        let v = (hex_value(s.subrange(i, e)) % 0x10000) as u16;
        if e == s.len() {
            Some(seq![v])
        } else if s[e] == 58 && e + 1 < s.len() && more > 0 {
            match spec_groups(s, e + 1, (more - 1) as nat, v4_tail) {
                Some(rest) => Some(seq![v] + rest),
                None => None,
            }
        } else {
            None
        }
    }
}

pub open spec fn zero_groups(n: nat) -> Seq<u16> {
    Seq::new(n, |i: int| 0u16)
}

/// The eight groups of an IPv6 address, as the address value.
pub open spec fn v6_of(g: Seq<u16>) -> IpAddress
    recommends
        g.len() == 8,
{
    IpAddress::V6(g[0], g[1], g[2], g[3], g[4], g[5], g[6], g[7])
}

/// An IPv6 address: eight hex groups, or two shorter group runs around a
/// single `::` that stands for the missing zero groups (at least one).
/// The address may end in a dotted quad standing for the last two
/// groups (`::ffff:1.2.3.4`).
pub open spec fn spec_parse_ipv6(s: Seq<u8>) -> Option<IpAddress> {
    let p = find_dc(s, 0);
    if p < 0 {
        match spec_groups(s, 0, 7, true) {
            Some(g) => if g.len() == 8 {
                Some(v6_of(g))
            } else {
                None
            },
            None => None,
        }
    } else {
        let left = s.subrange(0, p);
        let right = s.subrange(p + 2, s.len() as int);
        let lg = if left.len() == 0 {
            Some(Seq::<u16>::empty())
        } else {
            spec_groups(left, 0, 7, false)
        };
        let rg = if right.len() == 0 {
            Some(Seq::<u16>::empty())
        } else {
            spec_groups(right, 0, 7, true)
        };
        match (lg, rg) {
            (Some(a), Some(b)) => if a.len() + b.len() <= 7 {
                Some(v6_of(a + zero_groups((8 - a.len() - b.len()) as nat) + b))
            } else {
                None
            },
            _ => None,
        }
    }
}

/// A complete socket address: `v4:port`, or `[v6]:port`.
pub open spec fn spec_parse_sock_addr(s: Seq<u8>) -> Option<ResolvedAddress> {
    if s.len() > 0 && s[0] == 91 {
        let rb = find_from(s, 93, 1);
        if rb >= 0 && rb + 1 < s.len() && s[rb + 1] == 58 {
            match (spec_parse_ipv6(s.subrange(1, rb)), spec_parse_port(
                s.subrange(rb + 2, s.len() as int),
            )) {
                (Some(ip), Some(port)) => Some(ResolvedAddress { ip, port }),
                _ => None,
            }
        } else {
            None
        }
    } else {
        let c = find_from(s, 58, 0);
        if c >= 0 {
            match (spec_parse_ipv4(s.subrange(0, c)), spec_parse_port(
                s.subrange(c + 1, s.len() as int),
            )) {
                (Some(ip), Some(port)) => Some(ResolvedAddress { ip, port }),
                _ => None,
            }
        } else {
            None
        }
    }
}

/// The three-way fallback: a complete socket address first, then a bare
/// port on the wildcard address, then a bare IP with port 0.
pub open spec fn spec_parse_addr(s: Seq<u8>) -> Option<ResolvedAddress> {
    match spec_parse_sock_addr(s) {
        Some(a) => Some(a),
        None => match spec_parse_port(s) {
            Some(p) => Some(ResolvedAddress { ip: IpAddress::V4(0, 0, 0, 0), port: p }),
            None => match spec_parse_ipv4(s) {
                Some(ip) => Some(ResolvedAddress { ip, port: 0 }),
                None => match spec_parse_ipv6(s) {
                    Some(ip) => Some(ResolvedAddress { ip, port: 0 }),
                    None => None,
                },
            },
        },
    }
}

/// What a role demands of a resolved address: a listen address needs a
/// nonzero port; a remote address a nonzero port and a specified IP; a
/// local bind address anything.
pub open spec fn spec_role_ok(a: ResolvedAddress, role: Role) -> bool {
    match role {
        Role::Listen => a.port != 0,
        Role::Remote => a.port != 0 && !a.ip.spec_is_unspecified(),
        Role::Local => true,
    }
}

/// Resolution including the role check.
pub open spec fn spec_resolve(s: Seq<u8>, role: Role) -> Option<ResolvedAddress> {
    match spec_parse_addr(s) {
        Some(a) => if spec_role_ok(a, role) {
            Some(a)
        } else {
            None
        },
        None => None,
    }
}

// ---------------------------------------------------------------------
// Scanning, exec side.
// ---------------------------------------------------------------------

proof fn lemma_digits_end_is(s: Seq<u8>, i: int, j: int)
    requires
        0 <= i <= j <= s.len(),
        forall|k: int| i <= k < j ==> is_digit_byte(s[k]),
        j == s.len() || !is_digit_byte(s[j]),
    ensures
        digits_end(s, i) == j,
    decreases j - i,
{
    if i < j {
        lemma_digits_end_is(s, i + 1, j);
    }
}

proof fn lemma_hex_end_is(s: Seq<u8>, i: int, j: int)
    requires
        0 <= i <= j <= s.len(),
        forall|k: int| i <= k < j ==> is_hex_byte(s[k]),
        j == s.len() || !is_hex_byte(s[j]),
    ensures
        hex_end(s, i) == j,
    decreases j - i,
{
    if i < j {
        lemma_hex_end_is(s, i + 1, j);
    }
}

proof fn lemma_find_from_skip(s: Seq<u8>, b: u8, i: int, j: int)
    requires
        0 <= i <= j <= s.len(),
        forall|k: int| i <= k < j ==> s[k] != b,
    ensures
        find_from(s, b, i) == find_from(s, b, j),
    decreases j - i,
{
    if i < j {
        lemma_find_from_skip(s, b, i + 1, j);
    }
}

proof fn lemma_find_dc_skip(s: Seq<u8>, i: int, j: int)
    requires
        0 <= i <= j <= s.len(),
        forall|k: int| #![trigger s[k]] i <= k < j && k + 1 < s.len() ==> !(s[k] == 58 && s[k + 1]
            == 58),
    ensures
        find_dc(s, i) == find_dc(s, j),
    decreases j - i,
{
    if i < j {
        lemma_find_dc_skip(s, i + 1, j);
    }
}

/// A digit run's value never shrinks when the run is extended to the
/// right.
proof fn lemma_dec_value_prefix(s: Seq<u8>, j: int)
    requires
        0 <= j <= s.len(),
    ensures
        dec_value(s) >= dec_value(s.subrange(0, j)),
    decreases s.len() - j,
{
    if j == s.len() {
        assert(s.subrange(0, j) =~= s);
    } else {
        assert(s.subrange(0, j + 1).drop_last() =~= s.subrange(0, j));
        assert(dec_value(s.subrange(0, j + 1)) >= dec_value(s.subrange(0, j)));
        lemma_dec_value_prefix(s, j + 1);
    }
}

fn digits_end_exec(s: &Vec<u8>, from: usize) -> (r: usize)
    requires
        from <= s@.len(),
    ensures
        r == digits_end(s@, from as int),
        from <= r <= s@.len(),
        forall|k: int| from <= k < r ==> is_digit_byte(s@[k]),
        r == s@.len() || !is_digit_byte(s@[r as int]),
{
    let mut j = from;
    while j < s.len() && 48 <= s[j] && s[j] <= 57
        invariant
            from <= j <= s@.len(),
            forall|k: int| from <= k < j ==> is_digit_byte(s@[k]),
        decreases s@.len() - j,
    {
        j += 1;
    }
    proof {
        lemma_digits_end_is(s@, from as int, j as int);
    }
    j
}

fn hex_end_exec(s: &Vec<u8>, from: usize) -> (r: usize)
    requires
        from <= s@.len(),
    ensures
        r == hex_end(s@, from as int),
        from <= r <= s@.len(),
        forall|k: int| from <= k < r ==> is_hex_byte(s@[k]),
        r == s@.len() || !is_hex_byte(s@[r as int]),
{
    let mut j = from;
    while j < s.len() && (48 <= s[j] && s[j] <= 57 || 97 <= s[j] && s[j] <= 102 || 65 <= s[j]
        && s[j] <= 70)
        invariant
            from <= j <= s@.len(),
            forall|k: int| from <= k < j ==> is_hex_byte(s@[k]),
        decreases s@.len() - j,
    {
        j += 1;
    }
    proof {
        lemma_hex_end_is(s@, from as int, j as int);
    }
    j
}

fn find_byte_exec(s: &Vec<u8>, b: u8, from: usize) -> (r: Option<usize>)
    requires
        from <= s@.len(),
    ensures
        r matches Some(p) ==> find_from(s@, b, from as int) == p && from <= p < s@.len(),
        r is None ==> find_from(s@, b, from as int) == -1,
{
    let mut j = from;
    while j < s.len()
        invariant
            from <= j <= s@.len(),
            forall|k: int| from <= k < j ==> s@[k] != b,
        decreases s@.len() - j,
    {
        if s[j] == b {
            proof {
                lemma_find_from_skip(s@, b, from as int, j as int);
            }
            return Some(j);
        }
        j += 1;
    }
    proof {
        lemma_find_from_skip(s@, b, from as int, j as int);
    }
    None
}

fn find_dc_exec(s: &Vec<u8>) -> (r: Option<usize>)
    ensures
        r matches Some(p) ==> find_dc(s@, 0) == p && p + 1 < s@.len(),
        r is None ==> find_dc(s@, 0) == -1,
{
    let n = s.len();
    let mut j: usize = 0;
    while n > 0 && j < n - 1
        invariant
            j <= s@.len(),
            n == s@.len(),
            forall|k: int| #![trigger s@[k]] 0 <= k < j && k + 1 < s@.len() ==> !(s@[k] == 58
                && s@[k + 1] == 58),
        decreases s@.len() - j,
    {
        if s[j] == 58 && s[j + 1] == 58 {
            proof {
                lemma_find_dc_skip(s@, 0, j as int);
            }
            return Some(j);
        }
        j += 1;
    }
    proof {
        lemma_find_dc_skip(s@, 0, j as int);
    }
    None
}

/// Decimal value of the digit run `s[from..end]`, rejecting values above
/// `cap`.
fn dec_value_upto(s: &Vec<u8>, from: usize, end: usize, cap: u16) -> (r: Option<u16>)
    requires
        from <= end <= s@.len(),
        forall|k: int| from <= k < end ==> is_digit_byte(s@[k]),
    ensures
        ({
            let part = s@.subrange(from as int, end as int);
            match r {
                Some(v) => v == dec_value(part) && v <= cap,
                None => dec_value(part) > cap,
            }
        }),
{
    let ghost part = s@.subrange(from as int, end as int);
    let mut acc: u16 = 0;
    let mut i = from;
    while i < end
        invariant
            from <= i <= end <= s@.len(),
            forall|k: int| from <= k < end ==> is_digit_byte(s@[k]),
            part == s@.subrange(from as int, end as int),
            acc == dec_value(part.subrange(0, i - from)),
            acc <= cap,
        decreases end - i,
    {
        let d: u16 = (s[i] - 48) as u16;
        let wide: u32 = (acc as u32) * 10 + (d as u32);
        proof {
            assert(part.subrange(0, i - from + 1).drop_last() =~= part.subrange(0, i - from));
            assert(part.subrange(0, i - from + 1).last() == s@[i as int]);
        }
        if wide > cap as u32 {
            proof {
                lemma_dec_value_prefix(part, i - from + 1);
            }
            return None;
        }
        acc = wide as u16;
        i += 1;
    }
    proof {
        assert(part.subrange(0, end - from) =~= part);
    }
    Some(acc)
}

/// Octet check and value for `s[from..end]`, a known digit run.
fn octet_of(s: &Vec<u8>, from: usize, end: usize) -> (r: Option<u8>)
    requires
        from <= end <= s@.len(),
        forall|k: int| from <= k < end ==> is_digit_byte(s@[k]),
    ensures
        ({
            let part = s@.subrange(from as int, end as int);
            match r {
                Some(v) => is_octet(part) && v == dec_value(part),
                None => !is_octet(part),
            }
        }),
{
    let ghost part = s@.subrange(from as int, end as int);
    if end - from < 1 || end - from > 3 {
        return None;
    }
    if end - from > 1 && s[from] == 48 {
        assert(part[0] == 48);
        return None;
    }
    match dec_value_upto(s, from, end, 255) {
        Some(v) => {
            assert(all_digit_bytes(part));
            Some(v as u8)
        },
        None => None,
    }
}

/// The port read from `s[from..]`, by the bare-port grammar.
fn port_from(s: &Vec<u8>, from: usize) -> (r: Option<u16>)
    requires
        from <= s@.len(),
    ensures
        r == spec_parse_port(s@.subrange(from as int, s@.len() as int)),
{
    let ghost part = s@.subrange(from as int, s@.len() as int);
    let e = digits_end_exec(s, from);
    if from == s.len() {
        return None;
    }
    if e != s.len() {
        // A non-digit byte stops the run before the end.
        assert(!is_digit_byte(part[e - from]));
        return None;
    }
    assert(all_digit_bytes(part));
    match dec_value_upto(s, from, e, 65535) {
        Some(v) => Some(v),
        None => None,
    }
}

/// A dotted quad, or nothing.
pub fn parse_ipv4(s: &Vec<u8>) -> (r: Option<IpAddress>)
    ensures
        r == spec_parse_ipv4(s@),
{
    let e1 = digits_end_exec(s, 0);
    if e1 >= s.len() || s[e1] != 46 {
        return None;
    }
    let e2 = digits_end_exec(s, e1 + 1);
    if e2 >= s.len() || s[e2] != 46 {
        return None;
    }
    let e3 = digits_end_exec(s, e2 + 1);
    if e3 >= s.len() || s[e3] != 46 {
        return None;
    }
    let e4 = digits_end_exec(s, e3 + 1);
    if e4 != s.len() {
        return None;
    }
    let o1 = octet_of(s, 0, e1);
    let o2 = octet_of(s, e1 + 1, e2);
    let o3 = octet_of(s, e2 + 1, e3);
    let o4 = octet_of(s, e3 + 1, e4);
    match (o1, o2, o3, o4) {
        (Some(a), Some(b), Some(c), Some(d)) => Some(IpAddress::V4(a, b, c, d)),
        _ => None,
    }
}

/// Hexadecimal value of the hex run `s[from..end]` of at most four
/// digits.
fn group_value(s: &Vec<u8>, from: usize, end: usize) -> (r: u16)
    requires
        from <= end <= s@.len(),
        1 <= end - from <= 4,
        forall|k: int| from <= k < end ==> is_hex_byte(s@[k]),
    ensures
        r == hex_value(s@.subrange(from as int, end as int)),
{
    let ghost part = s@.subrange(from as int, end as int);
    let mut acc: u16 = 0;
    let mut i = from;
    while i < end
        invariant
            from <= i <= end <= s@.len(),
            end - from <= 4,
            forall|k: int| from <= k < end ==> is_hex_byte(s@[k]),
            part == s@.subrange(from as int, end as int),
            acc == hex_value(part.subrange(0, i - from)),
            i - from == 0 ==> acc == 0,
            i - from == 1 ==> acc <= 15,
            i - from == 2 ==> acc <= 255,
            i - from == 3 ==> acc <= 4095,
        decreases end - i,
    {
        let b = s[i];
        let d: u16 = if b <= 57 {
            (b - 48) as u16
        } else if b >= 97 {
            (b - 87) as u16
        } else {
            (b - 55) as u16
        };
        proof {
            assert(is_hex_byte(s@[i as int]));
            assert(d == hex_digit_val(s@[i as int]));
            assert(part.subrange(0, i - from + 1).drop_last() =~= part.subrange(0, i - from));
            assert(part.subrange(0, i - from + 1).last() == s@[i as int]);
        }
        acc = acc * 16 + d;
        i += 1;
    }
    proof {
        assert(part.subrange(0, end - from) =~= part);
    }
    acc
}

/// Copy of `s[from..to]`.
fn sub_vec(s: &Vec<u8>, from: usize, to: usize) -> (r: Vec<u8>)
    requires
        from <= to <= s@.len(),
    ensures
        r@ == s@.subrange(from as int, to as int),
{
    let mut out: Vec<u8> = Vec::new();
    let mut i = from;
    proof {
        assert(out@ =~= s@.subrange(from as int, from as int));
    }
    while i < to
        invariant
            from <= i <= to <= s@.len(),
            out@ == s@.subrange(from as int, i as int),
        decreases to - i,
    {
        out.push(s[i]);
        proof {
            assert(s@.subrange(from as int, i + 1) =~= s@.subrange(from as int, i as int).push(
                s@[i as int],
            ));
        }
        i += 1;
    }
    out
}

/// Hex groups separated by single colons from `from` to the end of `s`,
/// with an optional closing dotted quad where `v4_tail` allows one.
fn scan_groups(s: &Vec<u8>, from: usize, more: usize, v4_tail: bool) -> (r: Option<Vec<u16>>)
    requires
        from <= s@.len(),
    ensures
        r matches Some(v) ==> spec_groups(s@, from as int, more as nat, v4_tail) == Some(v@),
        r is None ==> spec_groups(s@, from as int, more as nat, v4_tail) is None,
    decreases more,
{
    let e = hex_end_exec(s, from);
    if v4_tail && e < s.len() && s[e] == 46 && more > 0 {
        let tail = sub_vec(s, from, s.len());
        return match parse_ipv4(&tail) {
            Some(IpAddress::V4(a, b, c, d)) => {
                let hi: u16 = (a as u16) * 256 + (b as u16);
                let lo: u16 = (c as u16) * 256 + (d as u16);
                let mut out: Vec<u16> = Vec::new();
                out.push(hi);
                out.push(lo);
                proof {
                    assert(out@ =~= seq![hi, lo]);
                }
                Some(out)
            },
            _ => None,
        };
    }
    if e - from < 1 || e - from > 4 {
        return None;
    }
    let v = group_value(s, from, e);
    proof {
        assert(hex_value(s@.subrange(from as int, e as int)) % 0x10000 == v);
    }
    if e == s.len() {
        let mut out: Vec<u16> = Vec::new();
        out.push(v);
        proof {
            assert(out@ =~= seq![v]);
        }
        return Some(out);
    }
    if s[e] != 58 || more == 0 {
        return None;
    }
    match scan_groups(s, e + 1, more - 1, v4_tail) {
        Some(rest) => {
            let mut out = rest;
            out.insert(0, v);
            proof {
                assert(out@ =~= seq![v] + out@.subrange(1, out@.len() as int));
                assert(out@.subrange(1, out@.len() as int) =~= out@.drop_first());
            }
            Some(out)
        },
        None => None,
    }
}

/// An IPv6 address, or nothing.
pub fn parse_ipv6(s: &Vec<u8>) -> (r: Option<IpAddress>)
    ensures
        r == spec_parse_ipv6(s@),
{
    match find_dc_exec(s) {
        None => {
            match scan_groups(s, 0, 7, true) {
                Some(g) => {
                    if g.len() == 8 {
                        Some(
                            IpAddress::V6(g[0], g[1], g[2], g[3], g[4], g[5], g[6], g[7]),
                        )
                    } else {
                        None
                    }
                },
                None => None,
            }
        },
        Some(p) => {
            let n = s.len();
            assert(p + 1 < n);
            let left = sub_vec(s, 0, p);
            let right = sub_vec(s, p + 2, n);
            let lg: Option<Vec<u16>> = if left.len() == 0 {
                Some(Vec::new())
            } else {
                scan_groups(&left, 0, 7, false)
            };
            let rg: Option<Vec<u16>> = if right.len() == 0 {
                Some(Vec::new())
            } else {
                scan_groups(&right, 0, 7, true)
            };
            match (lg, rg) {
                (Some(a), Some(b)) => {
                    if a.len() <= 7 && b.len() <= 7 - a.len() {
                        let ghost a0 = a@;
                        let ghost b0 = b@;
                        let ka = a.len();
                        let kb = b.len();
                        let kz = 8 - ka - kb;
                        let mut g = a;
                        let mut j: usize = 0;
                        proof {
                            assert(g@ =~= a0 + zero_groups(0));
                        }
                        while j < kz
                            invariant
                                j <= kz,
                                g@ == a0 + zero_groups(j as nat),
                            decreases kz - j,
                        {
                            g.push(0u16);
                            proof {
                                assert(zero_groups((j + 1) as nat) =~= zero_groups(
                                    j as nat,
                                ).push(0u16));
                                assert(g@ =~= a0 + zero_groups((j + 1) as nat));
                            }
                            j += 1;
                        }
                        let mut btail = b;
                        g.append(&mut btail);
                        proof {
                            assert(g@ =~= a0 + zero_groups(kz as nat) + b0);
                        }
                        Some(
                            IpAddress::V6(g[0], g[1], g[2], g[3], g[4], g[5], g[6], g[7]),
                        )
                    } else {
                        None
                    }
                },
                _ => None,
            }
        },
    }
}

/// A complete socket address, or nothing.
pub fn parse_sock_addr(s: &Vec<u8>) -> (r: Option<ResolvedAddress>)
    ensures
        r == spec_parse_sock_addr(s@),
{
    if s.len() > 0 && s[0] == 91 {
        match find_byte_exec(s, 93, 1) {
            Some(rb) => {
                if rb + 1 < s.len() && s[rb + 1] == 58 {
                    let inner = sub_vec(s, 1, rb);
                    let ip_o = parse_ipv6(&inner);
                    let port_o = port_from(s, rb + 2);
                    match (ip_o, port_o) {
                        (Some(ip), Some(port)) => Some(ResolvedAddress { ip, port }),
                        _ => None,
                    }
                } else {
                    None
                }
            },
            None => None,
        }
    } else {
        match find_byte_exec(s, 58, 0) {
            Some(c) => {
                let head = sub_vec(s, 0, c);
                let ip_o = parse_ipv4(&head);
                let port_o = port_from(s, c + 1);
                match (ip_o, port_o) {
                    (Some(ip), Some(port)) => Some(ResolvedAddress { ip, port }),
                    _ => None,
                }
            },
            None => None,
        }
    }
}

/// The full fallback chain on raw bytes.
pub fn parse_addr(s: &Vec<u8>) -> (r: Option<ResolvedAddress>)
    ensures
        r == spec_parse_addr(s@),
{
    if let Some(a) = parse_sock_addr(s) {
        return Some(a);
    }
    if let Some(p) = port_from(s, 0) {
        proof {
            assert(s@.subrange(0, s@.len() as int) =~= s@);
        }
        return Some(ResolvedAddress { ip: IpAddress::V4(0, 0, 0, 0), port: p });
    }
    proof {
        assert(s@.subrange(0, s@.len() as int) =~= s@);
    }
    if let Some(ip) = parse_ipv4(s) {
        return Some(ResolvedAddress { ip, port: 0 });
    }
    if let Some(ip) = parse_ipv6(s) {
        return Some(ResolvedAddress { ip, port: 0 });
    }
    None
}

/// Whether `a` satisfies the constraints of `role`.
pub fn role_allows(a: &ResolvedAddress, role: Role) -> (r: bool)
    ensures
        r == spec_role_ok(*a, role),
{
    match role {
        Role::Listen => a.port != 0,
        Role::Remote => a.port != 0 && !a.ip.is_unspecified(),
        Role::Local => true,
    }
}

/// Turns a textual address specification into a validated address, or
/// the `InvalidAddress` error carrying the offending text. The parse
/// tries a complete socket address, then a bare port (wildcard IP), then
/// a bare IP (port 0); the role's constraints run after parsing.
pub fn resolve(spec_text: &str, role: Role) -> (r: Result<ResolvedAddress, ResolveError>)
    ensures
        ({
            match spec_resolve(spec_text.spec_bytes(), role) {
                Some(a) => r == Ok::<ResolvedAddress, ResolveError>(a),
                None => r matches Err(ResolveError::InvalidAddress(t)) && t@ == spec_text@,
            }
        }),
{
    let bytes = spec_text.as_bytes_vec();
    match parse_addr(&bytes) {
        Some(a) => {
            if role_allows(&a, role) {
                Ok(a)
            } else {
                Err(ResolveError::InvalidAddress(spec_text.to_owned()))
            }
        },
        None => Err(ResolveError::InvalidAddress(spec_text.to_owned())),
    }
}

// ---------------------------------------------------------------------
// Relay pairs.
// ---------------------------------------------------------------------

/// One configured relay triple, still as raw text.
#[derive(Clone, Debug)]
pub struct RawPair {
    pub listen: String,
    pub remote: String,
    pub local: Option<String>,
}

/// One validated relay triple.
#[derive(Clone, Copy, Debug, PartialEq, Eq)]
pub struct ProxyPair {
    pub listen: ResolvedAddress,
    pub remote: ResolvedAddress,
    pub local: Option<ResolvedAddress>,
}

/// The resolution of a whole triple: each member resolved under its
/// role, or nothing if any member fails.
pub open spec fn spec_pair(raw: RawPair) -> Option<ProxyPair> {
    match (spec_resolve(encode_utf8(raw.listen@), Role::Listen), spec_resolve(
        encode_utf8(raw.remote@),
        Role::Remote,
    )) {
        (Some(l), Some(rm)) => match raw.local {
            Some(loc) => match spec_resolve(encode_utf8(loc@), Role::Local) {
                Some(lc) => Some(ProxyPair { listen: l, remote: rm, local: Some(lc) }),
                None => None,
            },
            None => Some(ProxyPair { listen: l, remote: rm, local: None }),
        },
        _ => None,
    }
}

/// The text of the first member of a failing triple that does not
/// resolve under its role: listen, then remote, then local.
pub open spec fn spec_offender(raw: RawPair) -> Seq<char>
    recommends
        spec_pair(raw) is None,
{
    if spec_resolve(encode_utf8(raw.listen@), Role::Listen) is None {
        raw.listen@
    } else if spec_resolve(encode_utf8(raw.remote@), Role::Remote) is None {
        raw.remote@
    } else {
        match raw.local {
            Some(loc) => loc@,
            None => raw.listen@,
        }
    }
}

/// Resolves one triple, failing on the first member (listen, then
/// remote, then local) whose text does not resolve under its role; the
/// error carries that member's text.
pub fn resolve_pair(raw: &RawPair) -> (r: Result<ProxyPair, ResolveError>)
    ensures
        spec_pair(*raw) matches Some(p) ==> r == Ok::<ProxyPair, ResolveError>(p),
        spec_pair(*raw) is None ==> (r matches Err(ResolveError::InvalidAddress(t)) && t@
            == spec_offender(*raw)),
{
    let l = match resolve(raw.listen.as_str(), Role::Listen) {
        Ok(a) => a,
        Err(e) => {
            return Err(e);
        },
    };
    let rm = match resolve(raw.remote.as_str(), Role::Remote) {
        Ok(a) => a,
        Err(e) => {
            return Err(e);
        },
    };
    let lc = match &raw.local {
        Some(loc) => match resolve(loc.as_str(), Role::Local) {
            Ok(a) => Some(a),
            Err(e) => {
                return Err(e);
            },
        },
        None => None,
    };
    Ok(ProxyPair { listen: l, remote: rm, local: lc })
}

/// Validates a whole configuration, all or nothing: every triple must
/// resolve before any is used, and the first failure rejects the set,
/// with the error carrying the first failing triple's offending text.
pub fn resolve_pairs(raws: &Vec<RawPair>) -> (r: Result<Vec<ProxyPair>, ResolveError>)
    ensures
        r matches Ok(v) ==> v@.len() == raws@.len() && (forall|i: int|
            0 <= i < raws@.len() ==> spec_pair(raws@[i]) == Some(v@[i])),
        r is Ok <==> (forall|i: int| 0 <= i < raws@.len() ==> spec_pair(raws@[i]) is Some),
        r matches Err(ResolveError::InvalidAddress(t)) ==> (exists|i: int|
            0 <= i < raws@.len() && spec_pair(raws@[i]) is None && (forall|j: int|
                0 <= j < i ==> spec_pair(raws@[j]) is Some) && t@ == spec_offender(raws@[i])),
{
    let mut out: Vec<ProxyPair> = Vec::new();
    let mut i: usize = 0;
    while i < raws.len()
        invariant
            i <= raws@.len(),
            out@.len() == i,
            forall|j: int| 0 <= j < i ==> spec_pair(raws@[j]) == Some(out@[j]),
        decreases raws@.len() - i,
    {
        match resolve_pair(&raws[i]) {
            Ok(p) => out.push(p),
            Err(e) => {
                return Err(e);
            },
        }
        i += 1;
    }
    Ok(out)
}

} // verus!
