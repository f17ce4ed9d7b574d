//! Network addresses held as plain values, and their text form.
//!
//! The text form follows the standard notation: dotted decimal for IPv4, and
//! for IPv6 lower-case hexadecimal groups in which the first longest run of two
//! or more zero groups is shortened to `::`, with IPv4-mapped addresses written
//! as `::ffff:a.b.c.d`.

use vstd::prelude::*;
use vstd::std_specs::cmp::PartialEqSpecImpl;

verus! {

/// Appending one character to a `String`.
pub assume_specification[ String::push ](s: &mut String, ch: char)
    ensures
        final(s)@ == old(s)@.push(ch),
;

/// An IP address: four octets for IPv4, eight 16-bit groups for IPv6.
#[derive(Clone, Copy, Debug, Hash)]
pub enum IpAddress {
    /// An IPv4 address, by its octets.
    V4([u8; 4]),
    /// An IPv6 address, by its eight groups.
    V6([u16; 8]),
}

impl PartialEq for IpAddress {
    fn eq(&self, other: &Self) -> (r: bool) {
        match (self, other) {
            (IpAddress::V4(a), IpAddress::V4(b)) => {
                let r = a[0] == b[0] && a[1] == b[1] && a[2] == b[2] && a[3] == b[3];
                proof {
                    if r {
                        assert(*a =~= *b);
                    }
                }
                r
            },
            (IpAddress::V6(a), IpAddress::V6(b)) => {
                let r = a[0] == b[0] && a[1] == b[1] && a[2] == b[2] && a[3] == b[3] && a[4]
                    == b[4] && a[5] == b[5] && a[6] == b[6] && a[7] == b[7];
                proof {
                    if r {
                        assert(*a =~= *b);
                    }
                }
                r
            },
            _ => false,
        }
    }
}

impl PartialEqSpecImpl for IpAddress {
    open spec fn obeys_eq_spec() -> bool {
        true
    }

    open spec fn eq_spec(&self, other: &IpAddress) -> bool {
        *self == *other
    }
}

impl Eq for IpAddress {

}

/// A socket address: an IP address and a port, and for an IPv6 address its
/// flow information and scope id (both 0 for an IPv4 address).
#[derive(Clone, Copy, Debug, Hash)]
pub struct SocketAddress {
    /// The IP address.
    pub ip: IpAddress,
    /// The port.
    pub port: u16,
    /// The IPv6 flow information (0 for IPv4).
    pub flowinfo: u32,
    /// The IPv6 scope id (0 for IPv4).
    pub scope_id: u32,
}

impl PartialEq for SocketAddress {
    fn eq(&self, other: &Self) -> (r: bool) {
        self.ip == other.ip && self.port == other.port && self.flowinfo == other.flowinfo
            && self.scope_id == other.scope_id
    }
}

impl PartialEqSpecImpl for SocketAddress {
    open spec fn obeys_eq_spec() -> bool {
        true
    }

    open spec fn eq_spec(&self, other: &SocketAddress) -> bool {
        *self == *other
    }
}

impl Eq for SocketAddress {

}

impl SocketAddress {
    /// A socket address from an IP address and a port, with no flow
    /// information and scope id 0.
    pub fn new(ip: IpAddress, port: u16) -> (r: SocketAddress)
        ensures
            r.ip == ip,
            r.port == port,
            r.flowinfo == 0,
            r.scope_id == 0,
    {
        SocketAddress { ip, port, flowinfo: 0, scope_id: 0 }
    }

    /// The IP address of this socket address.
    pub fn ip(&self) -> (r: IpAddress)
        ensures
            r == self.ip,
    {
        self.ip
    }

    /// The port of this socket address.
    pub fn port(&self) -> (r: u16)
        ensures
            r == self.port,
    {
        self.port
    }
}

/// An IPv4 address from its four octets.
pub fn ipv4(a: u8, b: u8, c: u8, d: u8) -> (r: IpAddress)
    ensures
        r matches IpAddress::V4(o) && o@ == seq![a, b, c, d],
{
    let r = IpAddress::V4([a, b, c, d]);
    proof {
        if let IpAddress::V4(o) = r {
            assert(o@ =~= seq![a, b, c, d]);
        }
    }
    r
}

/// The lower-case hexadecimal digit of a value below 16.
pub open spec fn hex_char(d: nat) -> char {
    if d == 0 {
        '0'
    } else if d == 1 {
        '1'
    } else if d == 2 {
        '2'
    } else if d == 3 {
        '3'
    } else if d == 4 {
        '4'
    } else if d == 5 {
        '5'
    } else if d == 6 {
        '6'
    } else if d == 7 {
        '7'
    } else if d == 8 {
        '8'
    } else if d == 9 {
        '9'
    } else if d == 10 {
        'a'
    } else if d == 11 {
        'b'
    } else if d == 12 {
        'c'
    } else if d == 13 {
        'd'
    } else if d == 14 {
        'e'
    } else {
        'f'
    }
}

/// The lower-case hexadecimal digit of a value below 16.
pub fn hex_digit(d: u8) -> (c: char)
    requires
        d < 16,
    ensures
        c == hex_char(d as nat),
{
    if d == 0 {
        '0'
    } else if d == 1 {
        '1'
    } else if d == 2 {
        '2'
    } else if d == 3 {
        '3'
    } else if d == 4 {
        '4'
    } else if d == 5 {
        '5'
    } else if d == 6 {
        '6'
    } else if d == 7 {
        '7'
    } else if d == 8 {
        '8'
    } else if d == 9 {
        '9'
    } else if d == 10 {
        'a'
    } else if d == 11 {
        'b'
    } else if d == 12 {
        'c'
    } else if d == 13 {
        'd'
    } else if d == 14 {
        'e'
    } else {
        'f'
    }
}

/// The digits of `n` in base `b`, most significant first, without leading zeros
/// (a single `0` for zero).
pub open spec fn digits(n: nat, b: nat) -> Seq<char>
    recommends
        2 <= b <= 16,
    decreases n,
{
    if n < b || b < 2 {
        seq![hex_char(n)]
    } else {
        proof {
            assert(n / b < n) by (nonlinear_arith)
                requires
                    n >= b,
                    b >= 2,
            ;
        }
        digits(n / b, b).push(hex_char(n % b))
    }
}

/// The decimal text of a number.
pub open spec fn decimal(n: nat) -> Seq<char> {
    digits(n, 10)
}

/// The lower-case hexadecimal text of a number, without leading zeros.
pub open spec fn hex_text(n: nat) -> Seq<char> {
    digits(n, 16)
}

/// Appends the decimal text of `n` to `s`.
pub fn push_decimal(s: &mut String, n: u64)
    ensures
        final(s)@ == old(s)@ + decimal(n as nat),
    decreases n,
{
    if n >= 10 {
        push_decimal(s, n / 10);
    }
    s.push(hex_digit((n % 10) as u8));
    proof {
        assert(old(s)@ + decimal(n as nat) =~= s@);
    }
}

/// Appends the lower-case hexadecimal text of `n` to `s`.
pub fn push_hex(s: &mut String, n: u64)
    ensures
        final(s)@ == old(s)@ + hex_text(n as nat),
    decreases n,
{
    if n >= 16 {
        push_hex(s, n / 16);
    }
    s.push(hex_digit((n % 16) as u8));
    proof {
        assert(old(s)@ + hex_text(n as nat) =~= s@);
    }
}

/// The dotted-decimal text of four octets.
pub open spec fn ipv4_text(o: Seq<u8>) -> Seq<char> {
    decimal(o[0] as nat) + seq!['.'] + decimal(o[1] as nat) + seq!['.'] + decimal(o[2] as nat)
        + seq!['.'] + decimal(o[3] as nat)
}

/// The number of consecutive zero groups starting at `i`.
pub open spec fn zero_run(s: Seq<u16>, i: int) -> nat
    decreases s.len() - i,
{
    if 0 <= i < s.len() && s[i] == 0 {
        1 + zero_run(s, i + 1)
    } else {
        0
    }
}

/// The first longest run of zero groups at or after `i`: its start and length.
pub open spec fn longest_zero_run(s: Seq<u16>, i: int) -> (int, nat)
    decreases s.len() - i,
{
    if i < 0 || i >= s.len() {
        (s.len() as int, 0)
    } else {
        let rest = longest_zero_run(s, i + 1);
        if zero_run(s, i) >= rest.1 {
            (i, zero_run(s, i))
        } else {
            rest
        }
    }
}

/// The run of zero groups that IPv6 text shortens to `::` is a longest one,
/// and the first of the longest: from `i` on, no run of zero groups is longer
/// than the one found, the one found starts where it says and has the length it
/// says, and every run that starts before it is shorter.
pub proof fn lemma_longest_zero_run(s: Seq<u16>, i: int)
    requires
        0 <= i <= s.len(),
    ensures
        forall|j: int| i <= j < s.len() ==> #[trigger] zero_run(s, j) <= longest_zero_run(s, i).1,
        longest_zero_run(s, i).1 > 0 ==> (i <= longest_zero_run(s, i).0 < s.len() && zero_run(
            s,
            longest_zero_run(s, i).0,
        ) == longest_zero_run(s, i).1),
        forall|j: int|
            i <= j < longest_zero_run(s, i).0 && j < s.len() ==> #[trigger] zero_run(s, j)
                < longest_zero_run(s, i).1,
    decreases s.len() - i,
{
    if i < s.len() {
        lemma_longest_zero_run(s, i + 1);
    }
}

/// Over a whole address: no run of zero groups is longer than the one that is
/// shortened to `::`, and every run before it is shorter.
pub proof fn lemma_shortened_run_is_longest(s: Seq<u16>)
    ensures
        forall|j: int| 0 <= j < s.len() ==> #[trigger] zero_run(s, j) <= longest_zero_run(s, 0).1,
        forall|j: int|
            0 <= j < longest_zero_run(s, 0).0 && j < s.len() ==> #[trigger] zero_run(s, j)
                < longest_zero_run(s, 0).1,
        longest_zero_run(s, 0).1 > 0 ==> zero_run(s, longest_zero_run(s, 0).0) == longest_zero_run(s, 0).1,
{
    lemma_longest_zero_run(s, 0);
}

/// The hexadecimal texts of groups, separated by colons.
pub open spec fn join_groups(s: Seq<u16>) -> Seq<char>
    decreases s.len(),
{
    if s.len() == 0 {
        seq![]
    } else if s.len() == 1 {
        hex_text(s[0] as nat)
    } else {
        join_groups(s.drop_last()) + seq![':'] + hex_text(s.last() as nat)
    }
}

/// Whether eight groups form an IPv4-mapped address (`::ffff:a.b.c.d`).
pub open spec fn is_ipv4_mapped(s: Seq<u16>) -> bool {
    s[0] == 0 && s[1] == 0 && s[2] == 0 && s[3] == 0 && s[4] == 0 && s[5] == 0xffff
}

/// The text of an IPv6 address given by its eight groups.
pub open spec fn ipv6_text(s: Seq<u16>) -> Seq<char> {
    if is_ipv4_mapped(s) {
        seq![':', ':', 'f', 'f', 'f', 'f', ':'] + ipv4_text(
            seq![(s[6] / 256) as u8, (s[6] % 256) as u8, (s[7] / 256) as u8, (s[7] % 256) as u8],
        )
    } else {
        let run = longest_zero_run(s, 0);
        if run.1 > 1 {
            join_groups(s.subrange(0, run.0)) + seq![':', ':'] + join_groups(
                s.subrange(run.0 + run.1, s.len() as int),
            )
        } else {
            join_groups(s)
        }
    }
}

/// The text of an IP address.
pub open spec fn ip_text(ip: IpAddress) -> Seq<char> {
    match ip {
        IpAddress::V4(o) => ipv4_text(o@),
        IpAddress::V6(s) => ipv6_text(s@),
    }
}

fn push_ipv4(s: &mut String, o: [u8; 4])
    ensures
        final(s)@ == old(s)@ + ipv4_text(o@),
{
    push_decimal(s, o[0] as u64);
    s.push('.');
    push_decimal(s, o[1] as u64);
    s.push('.');
    push_decimal(s, o[2] as u64);
    s.push('.');
    push_decimal(s, o[3] as u64);
    proof {
        assert(old(s)@ + ipv4_text(o@) =~= s@);
    }
}

/// Appends the colon-separated groups `g[lo..hi]` to `s`.
fn push_groups(s: &mut String, g: &[u16; 8], lo: usize, hi: usize)
    requires
        lo <= hi <= 8,
    ensures
        final(s)@ == old(s)@ + join_groups(g@.subrange(lo as int, hi as int)),
{
    let mut i = lo;
    while i < hi
        invariant
            lo <= i <= hi <= 8,
            g@.len() == 8,
            s@ == old(s)@ + join_groups(g@.subrange(lo as int, i as int)),
        decreases hi - i,
    {
        let ghost before = s@;
        if i > lo {
            s.push(':');
        }
        push_hex(s, g[i] as u64);
        proof {
            let sub = g@.subrange(lo as int, i + 1);
            assert(sub.drop_last() =~= g@.subrange(lo as int, i as int));
            assert(sub.last() == g@[i as int]);
            if i == lo {
                assert(sub.len() == 1);
                assert(s@ =~= old(s)@ + join_groups(sub));
            } else {
                assert(s@ =~= old(s)@ + join_groups(sub));
            }
        }
        i = i + 1;
    }
}

/// Zero run length starting at `i`, computed.
fn zero_run_at(g: &[u16; 8], i: usize) -> (n: usize)
    requires
        i <= 8,
    ensures
        n == zero_run(g@, i as int),
        i + n <= 8,
    decreases 8 - i,
{
    if i < 8 && g[i] == 0 {
        let rest = zero_run_at(g, i + 1);
        1 + rest
    } else {
        0
    }
}

/// The first longest zero run at or after `i`, computed.
fn longest_run_from(g: &[u16; 8], i: usize) -> (r: (usize, usize))
    requires
        i <= 8,
    ensures
        r.0 as int == longest_zero_run(g@, i as int).0,
        r.1 as nat == longest_zero_run(g@, i as int).1,
        r.0 + r.1 <= 8,
    decreases 8 - i,
{
    if i >= 8 {
        (8, 0)
    } else {
        let rest = longest_run_from(g, i + 1);
        let here = zero_run_at(g, i);
        if here >= rest.1 {
            (i, here)
        } else {
            rest
        }
    }
}

/// Appends the text of an IPv6 address to `s`.
fn push_ipv6(s: &mut String, g: [u16; 8])
    ensures
        final(s)@ == old(s)@ + ipv6_text(g@),
{
    if g[0] == 0 && g[1] == 0 && g[2] == 0 && g[3] == 0 && g[4] == 0 && g[5] == 0xffff {
        s.push(':');
        s.push(':');
        s.push('f');
        s.push('f');
        s.push('f');
        s.push('f');
        s.push(':');
        let o = [(g[6] / 256) as u8, (g[6] % 256) as u8, (g[7] / 256) as u8, (g[7] % 256) as u8];
        push_ipv4(s, o);
        proof {
            assert(o@ =~= seq![
                (g@[6] / 256) as u8,
                (g@[6] % 256) as u8,
                (g@[7] / 256) as u8,
                (g@[7] % 256) as u8,
            ]);
            assert(s@ =~= old(s)@ + ipv6_text(g@));
        }
    } else {
        let run = longest_run_from(&g, 0);
        if run.1 > 1 {
            push_groups(s, &g, 0, run.0);
            s.push(':');
            s.push(':');
            push_groups(s, &g, run.0 + run.1, 8);
            proof {
                assert(s@ =~= old(s)@ + ipv6_text(g@));
            }
        } else {
            push_groups(s, &g, 0, 8);
            proof {
                assert(g@.subrange(0, 8) =~= g@);
            }
        }
    }
}

/// Appends the text of an IP address to `s`.
pub fn push_ip(s: &mut String, ip: &IpAddress)
    ensures
        final(s)@ == old(s)@ + ip_text(*ip),
{
    match ip {
        IpAddress::V4(o) => push_ipv4(s, *o),
        IpAddress::V6(g) => push_ipv6(s, *g),
    }
}

impl IpAddress {
    /// The text of this address.
    pub fn to_text(&self) -> (t: String)
        ensures
            t@ == ip_text(*self),
    {
        let mut t = String::new();
        push_ip(&mut t, self);
        proof {
            assert(t@ =~= ip_text(*self));
        }
        t
    }
}

} // verus!
