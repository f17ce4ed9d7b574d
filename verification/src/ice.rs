//! ICE: candidates, their priorities and SDP text, credentials, and the agent
//! that keeps the local candidates and picks a remote one.

use vstd::prelude::*;
use crate::net::{IpAddress, SocketAddress, decimal, ip_text, push_decimal, push_ip};
use crate::stun::StunResponse;
use vstd::utf8::encode_utf8;

verus! {

/// The kind of an ICE candidate.
#[derive(Debug, Clone, Copy, PartialEq, Eq, Structural)]
pub enum CandidateType {
    /// A local address.
    Host,
    /// A server-reflexive address, as a STUN server saw it.
    Srflx,
    /// A peer-reflexive address.
    Prflx,
    /// A relayed address.
    Relay,
}

/// An ICE candidate.
#[derive(Debug)]
pub struct IceCandidate {
    /// Foundation.
    pub foundation: String,
    /// Component id.
    pub component: u16,
    /// Kind of candidate.
    pub candidate_type: CandidateType,
    /// Transport protocol.
    pub protocol: String,
    /// Priority.
    pub priority: u32,
    /// Address.
    pub connection_address: IpAddress,
    /// Port.
    pub connection_port: u16,
    /// Generation.
    pub generation: u32,
}

impl Clone for IceCandidate {
    fn clone(&self) -> (r: Self)
        ensures
            r == *self,
    {
        IceCandidate {
            foundation: self.foundation.clone(),
            component: self.component,
            candidate_type: self.candidate_type,
            protocol: self.protocol.clone(),
            priority: self.priority,
            connection_address: self.connection_address,
            connection_port: self.connection_port,
            generation: self.generation,
        }
    }
}

/// The type preference of a kind of candidate.
pub open spec fn type_preference(t: CandidateType) -> u32 {
    match t {
        CandidateType::Host => 126,
        CandidateType::Srflx => 100,
        CandidateType::Prflx => 110,
        CandidateType::Relay => 0,
    }
}

/// The priority of a candidate: the type preference in the top byte, the
/// local preference shifted left by 8 (bits shifted past 32 are lost), and
/// `256 - component` in the low bits, combined by bitwise or.
pub open spec fn priority(t: CandidateType, local_pref: u32, component: u16) -> u32 {
    (type_preference(t) << 24u32) | (local_pref << 8u32) | ((256 - component) as u32)
}

/// The priority of a candidate (see [`priority`]).
pub fn calculate_priority(candidate_type: CandidateType, local_pref: u32, component: u16) -> (p: u32)
    requires
        component <= 256,
    ensures
        p == priority(candidate_type, local_pref, component),
{
    let type_pref: u32 = match candidate_type {
        CandidateType::Host => 126,
        CandidateType::Srflx => 100,
        CandidateType::Prflx => 110,
        CandidateType::Relay => 0,
    };
    (type_pref << 24u32) | (local_pref << 8u32) | (256 - component as u32)
}

/// Candidates of the same component and local preference (below 2^16) are
/// ranked by their kind alone: the top byte of the priority is the type
/// preference, so a host candidate outranks a peer-reflexive one, which
/// outranks a server-reflexive one, which outranks a relayed one.
pub proof fn lemma_priority_order(local_pref: u32, component: u16)
    requires
        local_pref < 0x10000,
        1 <= component <= 256,
    ensures
        forall|t: CandidateType| #[trigger] priority(t, local_pref, component) >> 24u32 == type_preference(t),
        priority(CandidateType::Host, local_pref, component) > priority(CandidateType::Prflx, local_pref, component),
        priority(CandidateType::Prflx, local_pref, component) > priority(CandidateType::Srflx, local_pref, component),
        priority(CandidateType::Srflx, local_pref, component) > priority(CandidateType::Relay, local_pref, component),
{
    let low: u32 = (256 - component) as u32;
    assert forall|t: CandidateType| #[trigger] priority(t, local_pref, component) >> 24u32 == type_preference(t) by {
        let tp = type_preference(t);
        assert(tp < 256);
        assert(((tp << 24u32) | (local_pref << 8u32) | low) >> 24u32 == tp) by (bit_vector)
            requires
                tp < 256,
                local_pref < 0x10000,
                low < 256,
        ;
    }
    let h = priority(CandidateType::Host, local_pref, component);
    let p = priority(CandidateType::Prflx, local_pref, component);
    let s = priority(CandidateType::Srflx, local_pref, component);
    let r = priority(CandidateType::Relay, local_pref, component);
    assert(h >> 24u32 == 126u32 && p >> 24u32 == 110u32 && s >> 24u32 == 100u32 && r >> 24u32 == 0u32);
    assert(forall|a: u32, b: u32| #[trigger] (a >> 24u32) > #[trigger] (b >> 24u32) ==> a > b) by (bit_vector);
}

/// The digit of a foundation for each way a candidate was made.
pub open spec fn foundation_text(prefix: char, component: u16) -> Seq<char> {
    seq![prefix] + decimal(component as nat)
}

/// The candidate that the constructors build.
pub open spec fn built_candidate(
    c: IceCandidate,
    t: CandidateType,
    prefix: char,
    ip: IpAddress,
    port: u16,
    component: u16,
    local_pref: u32,
) -> bool {
    &&& c.foundation@ == foundation_text(prefix, component)
    &&& c.component == component
    &&& c.candidate_type == t
    &&& c.protocol@ == "UDP"@
    &&& c.priority == priority(t, local_pref, component)
    &&& c.connection_address == ip
    &&& c.connection_port == port
    &&& c.generation == 0
}

fn build_candidate(
    t: CandidateType,
    prefix: char,
    ip: IpAddress,
    port: u16,
    component: u16,
    local_pref: u32,
) -> (c: IceCandidate)
    requires
        component <= 256,
    ensures
        built_candidate(c, t, prefix, ip, port, component, local_pref),
{
    let mut foundation = String::new();
    foundation.push(prefix);
    push_decimal(&mut foundation, component as u64);
    proof {
        assert(foundation@ =~= foundation_text(prefix, component));
    }
    IceCandidate {
        foundation,
        component,
        candidate_type: t,
        protocol: String::from_str("UDP"),
        priority: calculate_priority(t, local_pref, component),
        connection_address: ip,
        connection_port: port,
        generation: 0,
    }
}

/// The name of a kind of candidate in SDP.
pub open spec fn kind_name(t: CandidateType) -> Seq<char> {
    match t {
        CandidateType::Host => "host"@,
        CandidateType::Srflx => "srflx"@,
        CandidateType::Prflx => "prflx"@,
        CandidateType::Relay => "relay"@,
    }
}

/// The kind named in SDP text is `host`, `srflx`, `prflx` or `relay`, one name
/// per kind: two kinds with the same name are the same kind, and a candidate's
/// SDP text ends in ` typ ` and the name of its kind.
pub proof fn lemma_kind_names(c: IceCandidate)
    ensures
        kind_name(CandidateType::Host) == "host"@,
        kind_name(CandidateType::Srflx) == "srflx"@,
        kind_name(CandidateType::Prflx) == "prflx"@,
        kind_name(CandidateType::Relay) == "relay"@,
        forall|a: CandidateType, b: CandidateType| #[trigger] kind_name(a) == #[trigger] kind_name(b) ==> a == b,
        sdp_text(c).skip(sdp_text(c).len() - 5 - kind_name(c.candidate_type).len()) == " typ "@ + kind_name(
            c.candidate_type,
        ),
{
    reveal_strlit("host");
    reveal_strlit("srflx");
    reveal_strlit("prflx");
    reveal_strlit("relay");
    reveal_strlit(" typ ");
    assert("srflx"@[0] != "prflx"@[0]);
    assert("host"@.len() != "srflx"@.len());
    assert("srflx"@[0] != "relay"@[0]);
    assert("prflx"@[0] != "relay"@[0]);
    let t = sdp_text(c);
    let tail = " typ "@ + kind_name(c.candidate_type);
    assert(t.skip(t.len() - tail.len()) =~= tail);
}

/// The lower-case form of a text, as `str::to_lowercase` gives it.
pub uninterp spec fn lowercase(s: Seq<char>) -> Seq<char>;

/// Whether every character of a text is ASCII.
pub open spec fn all_ascii(s: Seq<char>) -> bool {
    forall|i: int| 0 <= i < s.len() ==> (s[i] as u32) < 128
}

/// The ASCII lower-case form of a character.
pub open spec fn ascii_lower(c: char) -> char {
    if 'A' <= c && c <= 'Z' {
        ((c as u32) + 32) as char
    } else {
        c
    }
}

/// The lower-case form of a text (`str::to_lowercase`). Its result is named by
/// [`lowercase`]; on ASCII text it maps `A`-`Z` to `a`-`z` and keeps every other
/// character, as Unicode's lower-case mapping does there.
#[verifier::external_body]
fn to_lowercase(s: &str) -> (r: String)
    ensures
        r@ == lowercase(s@),
        all_ascii(s@) ==> r@ == s@.map_values(|c: char| ascii_lower(c)),
{
    s.to_lowercase()
}

/// The SDP text of a candidate with the protocol written as `proto`.
pub open spec fn sdp_text_with(c: IceCandidate, proto: Seq<char>) -> Seq<char> {
    "candidate:"@ + c.foundation@ + seq![' '] + decimal(c.component as nat) + seq![' '] + proto
        + seq![' '] + decimal(c.priority as nat) + seq![' '] + ip_text(c.connection_address) + seq![' ']
        + decimal(c.connection_port as nat) + " typ "@ + kind_name(c.candidate_type)
}

/// The SDP text of a candidate: its protocol in lower case.
pub open spec fn sdp_text(c: IceCandidate) -> Seq<char> {
    sdp_text_with(c, lowercase(c.protocol@))
}

impl IceCandidate {
    /// A host candidate: foundation `1` and the component, local preference
    /// 65535.
    pub fn new_host(ip: IpAddress, port: u16, component: u16) -> (c: Self)
        requires
            component <= 256,
        ensures
            built_candidate(c, CandidateType::Host, '1', ip, port, component, 65535),
    {
        build_candidate(CandidateType::Host, '1', ip, port, component, 65535)
    }

    /// A server-reflexive candidate: foundation `2` and the component, the
    /// given local preference.
    pub fn new_srflx(ip: IpAddress, port: u16, component: u16, base_priority: u32) -> (c: Self)
        requires
            component <= 256,
        ensures
            built_candidate(c, CandidateType::Srflx, '2', ip, port, component, base_priority),
    {
        build_candidate(CandidateType::Srflx, '2', ip, port, component, base_priority)
    }

    /// A relayed candidate: foundation `3` and the component, local preference
    /// 65535.
    pub fn new_relay(ip: IpAddress, port: u16, component: u16) -> (c: Self)
        requires
            component <= 256,
        ensures
            built_candidate(c, CandidateType::Relay, '3', ip, port, component, 65535),
    {
        build_candidate(CandidateType::Relay, '3', ip, port, component, 65535)
    }

    /// The SDP text of this candidate:
    /// `candidate:<foundation> <component> <protocol, lower case> <priority> <address> <port> typ <kind>`;
    /// an ASCII protocol is lowered letter by letter.
    pub fn to_sdp_string(&self) -> (s: String)
        ensures
            s@ == sdp_text(*self),
            all_ascii(self.protocol@) ==> s@ == sdp_text_with(
                *self,
                self.protocol@.map_values(|c: char| ascii_lower(c)),
            ),
    {
        let mut s = String::from_str("candidate:");
        s.append(self.foundation.as_str());
        s.push(' ');
        push_decimal(&mut s, self.component as u64);
        s.push(' ');
        let proto = to_lowercase(self.protocol.as_str());
        s.append(proto.as_str());
        s.push(' ');
        push_decimal(&mut s, self.priority as u64);
        s.push(' ');
        push_ip(&mut s, &self.connection_address);
        s.push(' ');
        push_decimal(&mut s, self.connection_port as u64);
        s.append(" typ ");
        match self.candidate_type {
            CandidateType::Host => s.append("host"),
            CandidateType::Srflx => s.append("srflx"),
            CandidateType::Prflx => s.append("prflx"),
            CandidateType::Relay => s.append("relay"),
        }
        proof {
            assert(s@ =~= sdp_text(*self));
        }
        s
    }
}


/// The base64 character of a 6-bit value (`A`-`Z`, `a`-`z`, `0`-`9`, `+`, `/`).
pub open spec fn b64_char(v: nat) -> char {
    if v < 26 {
        (65 + v) as char
    } else if v < 52 {
        (97 + (v - 26)) as char
    } else if v < 62 {
        (48 + (v - 52)) as char
    } else if v == 62 {
        '+'
    } else {
        '/'
    }
}

/// Standard base64 with `=` padding: each group of three bytes gives four
/// characters, and a final group of one or two bytes is padded.
pub open spec fn base64(d: Seq<u8>) -> Seq<char>
    decreases d.len(),
{
    if d.len() == 0 {
        seq![]
    } else if d.len() == 1 {
        seq![b64_char((d[0] / 4) as nat), b64_char(((d[0] % 4) * 16) as nat), '=', '=']
    } else if d.len() == 2 {
        seq![
            b64_char((d[0] / 4) as nat),
            b64_char(((d[0] % 4) * 16 + d[1] / 16) as nat),
            b64_char(((d[1] % 16) * 4) as nat),
            '=',
        ]
    } else {
        seq![
            b64_char((d[0] / 4) as nat),
            b64_char(((d[0] % 4) * 16 + d[1] / 16) as nat),
            b64_char(((d[1] % 16) * 4 + d[2] / 64) as nat),
            b64_char((d[2] % 64) as nat),
        ] + base64(d.skip(3))
    }
}

fn b64_digit(v: u8) -> (c: char)
    requires
        v < 64,
    ensures
        c == b64_char(v as nat),
{
    if v < 26 {
        (65u8 + v) as char
    } else if v < 52 {
        (97u8 + (v - 26)) as char
    } else if v < 62 {
        (48u8 + (v - 52)) as char
    } else if v == 62 {
        '+'
    } else {
        '/'
    }
}

/// The length of base64 text: four characters for every started group of
/// three bytes.
pub proof fn lemma_base64_len(d: Seq<u8>)
    ensures
        base64(d).len() == 4 * ((d.len() + 2) / 3),
    decreases d.len(),
{
    if d.len() > 2 {
        lemma_base64_len(d.skip(3));
    }
}

/// No base64 digit is the padding character.
proof fn lemma_b64_char_not_pad(v: nat)
    ensures
        b64_char(v) != '=',
{
    if v < 26 {
        assert(((65 + v) as char) as u32 == 65 + v);
    } else if v < 52 {
        assert(((97 + (v - 26)) as char) as u32 == 97 + (v - 26));
    } else if v < 62 {
        assert(((48 + (v - 52)) as char) as u32 == 48 + (v - 52));
    }
}

/// Base64 text ends in exactly `(3 - n % 3) % 3` padding characters for `n`
/// bytes, and has no other `=`.
pub proof fn lemma_base64_padding(d: Seq<u8>)
    ensures
        forall|i: int|
            0 <= i < base64(d).len() ==> (#[trigger] base64(d)[i] == '=' <==> i >= base64(d).len()
                - (3 - d.len() % 3) % 3),
    decreases d.len(),
{
    lemma_base64_len(d);
    if d.len() == 1 {
        lemma_b64_char_not_pad((d[0] / 4) as nat);
        lemma_b64_char_not_pad(((d[0] % 4) * 16) as nat);
    } else if d.len() == 2 {
        lemma_b64_char_not_pad((d[0] / 4) as nat);
        lemma_b64_char_not_pad(((d[0] % 4) * 16 + d[1] / 16) as nat);
        lemma_b64_char_not_pad(((d[1] % 16) * 4) as nat);
    } else if d.len() > 2 {
        lemma_b64_char_not_pad((d[0] / 4) as nat);
        lemma_b64_char_not_pad(((d[0] % 4) * 16 + d[1] / 16) as nat);
        lemma_b64_char_not_pad(((d[1] % 16) * 4 + d[2] / 64) as nat);
        lemma_b64_char_not_pad((d[2] % 64) as nat);
        let rest = d.skip(3);
        lemma_base64_padding(rest);
        lemma_base64_len(rest);
        assert(rest.len() % 3 == d.len() % 3);
        assert forall|i: int|
            0 <= i < base64(d).len() implies (#[trigger] base64(d)[i] == '=' <==> i >= base64(d).len()
                - (3 - d.len() % 3) % 3) by {
            if i >= 4 {
                assert(base64(d)[i] == base64(rest)[i - 4]);
            }
        }
    }
}

/// The base64 digits are the standard alphabet of RFC 4648: value `v` is the
/// character at position `v` of `A`-`Z`, `a`-`z`, `0`-`9`, `+`, `/`; so no two
/// values share a digit.
pub proof fn lemma_b64_alphabet()
    ensures
        forall|v: nat|
            v < 64 ==> #[trigger] b64_char(v)
                == "ABCDEFGHIJKLMNOPQRSTUVWXYZabcdefghijklmnopqrstuvwxyz0123456789+/"@[v as int],
        forall|v: nat, w: nat| v < 64 && w < 64 && #[trigger] b64_char(v) == #[trigger] b64_char(w) ==> v == w,
{
    let alpha = "ABCDEFGHIJKLMNOPQRSTUVWXYZabcdefghijklmnopqrstuvwxyz0123456789+/"@;
    reveal_strlit("ABCDEFGHIJKLMNOPQRSTUVWXYZabcdefghijklmnopqrstuvwxyz0123456789+/");
    assert(alpha.len() == 64);
    assert(alpha.subrange(0, 26) =~= Seq::new(26, |i: int| (65 + i) as char));
    assert(alpha.subrange(26, 52) =~= Seq::new(26, |i: int| (97 + i) as char));
    assert(alpha.subrange(52, 62) =~= Seq::new(10, |i: int| (48 + i) as char));
    assert(alpha[62] == '+' && alpha[63] == '/');
    assert forall|v: nat| v < 64 implies #[trigger] b64_char(v) == alpha[v as int] by {
        if v < 26 {
            assert(alpha.subrange(0, 26)[v as int] == alpha[v as int]);
        } else if v < 52 {
            assert(alpha.subrange(26, 52)[v - 26] == alpha[v as int]);
        } else if v < 62 {
            assert(alpha.subrange(52, 62)[v - 52] == alpha[v as int]);
        }
    }
    assert forall|v: nat, w: nat|
        v < 64 && w < 64 && #[trigger] b64_char(v) == #[trigger] b64_char(w) implies v == w by {
        let cv = b64_char(v) as u32;
        let cw = b64_char(w) as u32;
        if v < 26 {
            assert(cv == 65 + v);
        } else if v < 52 {
            assert(cv == 97 + (v - 26));
        } else if v < 62 {
            assert(cv == 48 + (v - 52));
        }
        if w < 26 {
            assert(cw == 65 + w);
        } else if w < 52 {
            assert(cw == 97 + (w - 26));
        } else if w < 62 {
            assert(cw == 48 + (w - 52));
        }
    }
}

/// Base64 of bytes split after a whole number of three-byte groups is the
/// base64 of the first part followed by that of the second.
pub proof fn lemma_base64_concat(a: Seq<u8>, b: Seq<u8>)
    requires
        a.len() % 3 == 0,
    ensures
        base64(a + b) == base64(a) + base64(b),
    decreases a.len(),
{
    if a.len() == 0 {
        assert(a + b =~= b);
        assert(base64(a) + base64(b) =~= base64(b));
    } else {
        let ab = a + b;
        assert(ab.skip(3) =~= a.skip(3) + b);
        assert(ab[0] == a[0] && ab[1] == a[1] && ab[2] == a[2]);
        lemma_base64_concat(a.skip(3), b);
        assert(base64(ab) =~= base64(a) + base64(b));
    }
}

/// Encodes bytes in standard base64 with padding.
pub fn base64_encode(data: &[u8]) -> (s: String)
    ensures
        s@ == base64(data@),
{
    let mut result = String::new();
    let mut i: usize = 0;
    proof {
        assert(data@.skip(0) =~= data@);
    }
    while i < data.len()
        invariant
            i <= data@.len(),
            base64(data@) == result@ + base64(data@.skip(i as int)),
        decreases data@.len() - i,
    {
        let rest = data.len() - i;
        let b0 = data[i];
        let b1 = if rest > 1 {
            data[i + 1]
        } else {
            0
        };
        let b2 = if rest > 2 {
            data[i + 2]
        } else {
            0
        };
        let ghost before = result@;
        let ghost chunk = data@.skip(i as int);
        result.push(b64_digit(b0 / 4));
        result.push(b64_digit((b0 % 4) * 16 + b1 / 16));
        if rest > 1 {
            result.push(b64_digit((b1 % 16) * 4 + b2 / 64));
        } else {
            result.push('=');
        }
        if rest > 2 {
            result.push(b64_digit(b2 % 64));
        } else {
            result.push('=');
        }
        let step: usize = if rest >= 3 {
            3
        } else {
            rest
        };
        proof {
            assert(chunk[0] == b0);
            if rest > 1 {
                assert(chunk[1] == b1);
            }
            if rest > 2 {
                assert(chunk[2] == b2);
                assert(chunk.skip(3) =~= data@.skip(i + 3));
                assert(result@ =~= before + base64(chunk).subrange(0, 4));
            } else {
                assert(data@.skip(i + step) =~= Seq::<u8>::empty());
            }
            assert(base64(data@) =~= result@ + base64(data@.skip(i + step)));
        }
        i = i + step;
    }
    result
}

/// ICE credentials.
#[derive(Debug)]
pub struct IceCredentials {
    /// User name fragment.
    pub username: String,
    /// Password.
    pub password: String,
}

impl Clone for IceCredentials {
    fn clone(&self) -> (r: Self)
        ensures
            r == *self,
    {
        IceCredentials { username: self.username.clone(), password: self.password.clone() }
    }
}

impl IceCredentials {
    /// Fresh credentials: the base64 text of 16 random bytes as the user name
    /// and of 24 random bytes as the password.
    pub fn new() -> (c: Self)
        ensures
            exists|u: Seq<u8>, p: Seq<u8>|
                u.len() == 16 && p.len() == 24 && c.username@ == base64(u) && c.password@
                    == base64(p),
    {
        let mut username = [0u8; 16];
        let mut password = [0u8; 24];
        crate::entropy::fill_random(&mut username);
        crate::entropy::fill_random(&mut password);
        let c = IceCredentials {
            username: base64_encode(&username),
            password: base64_encode(&password),
        };
        proof {
            assert(username@.len() == 16 && password@.len() == 24);
        }
        c
    }
}


/// The two big-endian bytes of a 16-bit value.
pub open spec fn be16_bytes(v: nat) -> Seq<u8> {
    seq![(v / 256) as u8, (v % 256) as u8]
}

/// `m` followed by zero bytes up to the next multiple of four.
pub open spec fn pad4(m: Seq<u8>) -> Seq<u8> {
    m + Seq::new(((4 - m.len() % 4) % 4) as nat, |i: int| 0u8)
}

/// The connectivity-check request: type 0x0001, length field 20, the
/// transaction id, then a USERNAME attribute (type 0x0006) whose length is the
/// user name's byte count modulo 2^16, the user name's bytes, and zero padding
/// to a multiple of four bytes.
pub open spec fn ice_binding_request(ufrag: Seq<u8>, tid: Seq<u8>) -> Seq<u8> {
    pad4(seq![0u8, 1u8, 0u8, 20u8] + tid + seq![0u8, 6u8] + be16_bytes(ufrag.len() % 65536) + ufrag)
}

/// A connectivity-check request is a whole number of 32-bit words, at most
/// three bytes longer than its contents, which it starts with.
pub proof fn lemma_binding_request_aligned(ufrag: Seq<u8>, tid: Seq<u8>)
    ensures
        ice_binding_request(ufrag, tid).len() % 4 == 0,
        ice_binding_request(ufrag, tid).len() < 20 + tid.len() + ufrag.len() + 4,
        ice_binding_request(ufrag, tid).subrange(0, 4) == seq![0u8, 1u8, 0u8, 20u8],
{
    let body = seq![0u8, 1u8, 0u8, 20u8] + tid + seq![0u8, 6u8] + be16_bytes(ufrag.len() % 65536) + ufrag;
    assert(body.len() == 8 + tid.len() + ufrag.len());
    assert(pad4(body).subrange(0, 4) =~= seq![0u8, 1u8, 0u8, 20u8]);
}

/// Appends zero bytes up to the next multiple of four.
fn pad_to_4(msg: &mut Vec<u8>)
    ensures
        final(msg)@ == pad4(old(msg)@),
{
    let ghost body = msg@;
    while msg.len() % 4 != 0
        invariant
            body.len() <= msg@.len() <= body.len() + 3,
            msg@.len() <= body.len() + ((4 - body.len() % 4) % 4),
            msg@ == body + Seq::new((msg@.len() - body.len()) as nat, |i: int| 0u8),
        decreases body.len() + 3 - msg@.len(),
    {
        msg.push(0);
        proof {
            assert(msg@ =~= body + Seq::new((msg@.len() - body.len()) as nat, |i: int| 0u8));
        }
    }
    proof {
        assert(msg@ =~= pad4(body));
    }
}

/// The connectivity-check request for a user name and a transaction id.
pub fn binding_request_with(ufrag: &str, tid: &[u8; 12]) -> (msg: Vec<u8>)
    ensures
        msg@ == ice_binding_request(encode_utf8(ufrag@), tid@),
{
    let bytes = ufrag.as_bytes();
    let mut msg: Vec<u8> = Vec::with_capacity(100);
    msg.push(0);
    msg.push(1);
    msg.push(0);
    msg.push(20);
    let mut i: usize = 0;
    while i < 12
        invariant
            i <= 12,
            msg@ == seq![0u8, 1u8, 0u8, 20u8] + tid@.subrange(0, i as int),
        decreases 12 - i,
    {
        msg.push(tid[i]);
        i = i + 1;
        proof {
            assert(msg@ =~= seq![0u8, 1u8, 0u8, 20u8] + tid@.subrange(0, i as int));
        }
    }
    proof {
        assert(tid@.subrange(0, 12) =~= tid@);
    }
    msg.push(0);
    msg.push(6);
    let n = bytes.len() % 65536;
    msg.push((n / 256) as u8);
    msg.push((n % 256) as u8);
    let ghost head = msg@;
    proof {
        assert(head =~= seq![0u8, 1u8, 0u8, 20u8] + tid@ + seq![0u8, 6u8] + be16_bytes(
            bytes@.len() % 65536,
        ));
    }
    let mut j: usize = 0;
    while j < bytes.len()
        invariant
            j <= bytes@.len(),
            msg@ == head + bytes@.subrange(0, j as int),
        decreases bytes@.len() - j,
    {
        msg.push(bytes[j]);
        j = j + 1;
        proof {
            assert(msg@ =~= head + bytes@.subrange(0, j as int));
        }
    }
    proof {
        assert(bytes@.subrange(0, bytes@.len() as int) =~= bytes@);
    }
    pad_to_4(&mut msg);
    msg
}

/// Whether some remote candidate is of kind `t`.
pub open spec fn has_kind(remotes: Seq<IceCandidate>, t: CandidateType) -> bool {
    exists|j: int| 0 <= j < remotes.len() && remotes[j].candidate_type == t
}

/// Whether local candidate `i` is the one to follow: not a host candidate, of a
/// kind that some remote candidate has, and ahead of every other such local
/// candidate when they are ordered by priority, highest first, earlier first
/// among equals.
pub open spec fn is_best_local(locals: Seq<IceCandidate>, remotes: Seq<IceCandidate>, i: int) -> bool {
    &&& 0 <= i < locals.len()
    &&& locals[i].candidate_type != CandidateType::Host
    &&& has_kind(remotes, locals[i].candidate_type)
    &&& forall|k: int|
        #![trigger locals[k]]
        0 <= k < locals.len() && locals[k].candidate_type != CandidateType::Host && has_kind(
            remotes,
            locals[k].candidate_type,
        ) ==> locals[k].priority < locals[i].priority || (locals[k].priority
            == locals[i].priority && i <= k)
}

/// Whether `j` is the first remote candidate of kind `t`.
pub open spec fn is_first_of_kind(remotes: Seq<IceCandidate>, t: CandidateType, j: int) -> bool {
    0 <= j < remotes.len() && remotes[j].candidate_type == t && forall|k: int|
        0 <= k < j ==> remotes[k].candidate_type != t
}

/// The remote candidate chosen: the first remote of the kind of the local
/// candidate to follow, or else the first remote candidate.
pub open spec fn chosen_remote(locals: Seq<IceCandidate>, remotes: Seq<IceCandidate>) -> Option<
    IceCandidate,
> {
    if exists|i: int| is_best_local(locals, remotes, i) {
        let i = choose|i: int| is_best_local(locals, remotes, i);
        let t = locals[i].candidate_type;
        let j = choose|j: int| is_first_of_kind(remotes, t, j);
        Some(remotes[j])
    } else if remotes.len() > 0 {
        Some(remotes[0])
    } else {
        None
    }
}

proof fn lemma_best_local_unique(locals: Seq<IceCandidate>, remotes: Seq<IceCandidate>, i: int, i2: int)
    requires
        is_best_local(locals, remotes, i),
        is_best_local(locals, remotes, i2),
    ensures
        i == i2,
{
    let _ = locals[i];
    let _ = locals[i2];
}

proof fn lemma_first_of_kind_unique(remotes: Seq<IceCandidate>, t: CandidateType, j: int, j2: int)
    requires
        is_first_of_kind(remotes, t, j),
        is_first_of_kind(remotes, t, j2),
    ensures
        j == j2,
{
}

/// The index of the first remote candidate of kind `t`, if any.
fn first_of_kind(remotes: &[IceCandidate], t: CandidateType) -> (r: Option<usize>)
    ensures
        match r {
            Some(j) => is_first_of_kind(remotes@, t, j as int),
            None => !has_kind(remotes@, t),
        },
{
    let mut j: usize = 0;
    while j < remotes.len()
        invariant
            j <= remotes@.len(),
            forall|k: int| 0 <= k < j ==> remotes@[k].candidate_type != t,
        decreases remotes@.len() - j,
    {
        if remotes[j].candidate_type == t {
            return Some(j);
        }
        j = j + 1;
    }
    None
}

/// An ICE agent: local credentials, the remote credentials once known, and the
/// local candidates gathered so far.
pub struct IceAgent {
    local_credentials: IceCredentials,
    remote_credentials: Option<IceCredentials>,
    candidates: Vec<IceCandidate>,
    local_ufrag: String,
    local_password: String,
}

impl IceAgent {
    /// The local candidates.
    pub closed spec fn candidates(&self) -> Seq<IceCandidate> {
        self.candidates@
    }

    /// The local credentials.
    pub closed spec fn credentials(&self) -> IceCredentials {
        self.local_credentials
    }

    /// The remote credentials.
    pub closed spec fn remote(&self) -> Option<IceCredentials> {
        self.remote_credentials
    }

    /// The local user name fragment.
    pub closed spec fn ufrag(&self) -> Seq<char> {
        self.local_ufrag@
    }

    /// The local password.
    pub closed spec fn password(&self) -> Seq<char> {
        self.local_password@
    }

    /// A new agent with fresh credentials and no candidates.
    pub fn new() -> (a: Self)
        ensures
            a.candidates() == Seq::<IceCandidate>::empty(),
            a.remote() is None,
            a.ufrag() == a.credentials().username@,
            a.password() == a.credentials().password@,
            exists|u: Seq<u8>, p: Seq<u8>|
                u.len() == 16 && p.len() == 24 && a.credentials().username@ == base64(u)
                    && a.credentials().password@ == base64(p),
    {
        let creds = IceCredentials::new();
        let local_ufrag = creds.username.clone();
        let local_password = creds.password.clone();
        IceAgent {
            local_credentials: creds,
            remote_credentials: None,
            candidates: Vec::new(),
            local_ufrag,
            local_password,
        }
    }

    /// The local credentials.
    pub fn get_credentials(&self) -> (c: IceCredentials)
        ensures
            c == self.credentials(),
    {
        self.local_credentials.clone()
    }

    /// Records the remote credentials.
    pub fn set_remote_credentials(&mut self, creds: IceCredentials)
        ensures
            final(self).remote() == Some(creds),
            final(self).candidates() == old(self).candidates(),
            final(self).credentials() == old(self).credentials(),
            final(self).ufrag() == old(self).ufrag(),
            final(self).password() == old(self).password(),
    {
        self.remote_credentials = Some(creds);
    }

    /// Adds a local candidate at the end.
    pub fn add_candidate(&mut self, candidate: IceCandidate)
        ensures
            final(self).candidates() == old(self).candidates().push(candidate),
            final(self).remote() == old(self).remote(),
            final(self).credentials() == old(self).credentials(),
            final(self).ufrag() == old(self).ufrag(),
            final(self).password() == old(self).password(),
    {
        self.candidates.push(candidate);
    }

    /// The local candidates.
    pub fn get_candidates(&self) -> (v: Vec<IceCandidate>)
        ensures
            v@ == self.candidates(),
    {
        let mut v: Vec<IceCandidate> = Vec::new();
        let mut i: usize = 0;
        while i < self.candidates.len()
            invariant
                i <= self.candidates@.len(),
                v@ == self.candidates@.subrange(0, i as int),
            decreases self.candidates@.len() - i,
        {
            v.push(self.candidates[i].clone());
            i = i + 1;
            proof {
                assert(v@ =~= self.candidates@.subrange(0, i as int));
            }
        }
        proof {
            assert(self.candidates@.subrange(0, i as int) =~= self.candidates@);
        }
        v
    }

    /// The server-reflexive candidates that a STUN response gives for
    /// `local_addr`: one (component 1, local preference 65535) at the mapped
    /// address when it differs from the local address in IP or port, none
    /// otherwise.
    pub fn discover_srflx_candidates(local_addr: SocketAddress, response: &StunResponse) -> (v: Vec<IceCandidate>)
        ensures
            !same_ip_and_port(response.mapped_address, local_addr) ==> v@.len() == 1 && built_candidate(
                v@[0],
                CandidateType::Srflx,
                '2',
                response.mapped_address.ip,
                response.mapped_address.port,
                1,
                65535,
            ),
            same_ip_and_port(response.mapped_address, local_addr) ==> v@.len() == 0,
    {
        let mapped = response.mapped_address;
        let mut v: Vec<IceCandidate> = Vec::new();
        if mapped.ip != local_addr.ip || mapped.port != local_addr.port {
            v.push(IceCandidate::new_srflx(mapped.ip, mapped.port, 1, 65535));
        }
        v
    }

    /// The request sent to check connectivity, with a fresh random
    /// transaction id.
    pub fn create_binding_request(&self) -> (msg: Vec<u8>)
        ensures
            exists|tid: Seq<u8>|
                tid.len() == 12 && msg@ == ice_binding_request(encode_utf8(self.ufrag()), tid),
    {
        let tid = crate::entropy::random_12();
        binding_request_with(self.local_ufrag.as_str(), &tid)
    }

    /// Picks the remote candidate to connect to: among the local candidates
    /// that are not host candidates, by priority (highest first, earlier first
    /// among equals), the first whose kind some remote candidate has decides,
    /// and the first remote candidate of that kind is chosen; when there is
    /// none, the first remote candidate; `None` when there are no remote
    /// candidates.
    pub fn select_best_candidate(&self, remote_candidates: &[IceCandidate]) -> (r: Option<IceCandidate>)
        ensures
            r == chosen_remote(self.candidates(), remote_candidates@),
    {
        let locals = &self.candidates;
        let mut best: Option<usize> = None;
        let mut i: usize = 0;
        while i < locals.len()
            invariant
                i <= locals@.len(),
                locals@ == self.candidates(),
                match best {
                    Some(b) => is_best_local(locals@.subrange(0, i as int), remote_candidates@, b as int),
                    None => forall|k: int|
                        0 <= k < i ==> !(locals@[k].candidate_type != CandidateType::Host
                            && has_kind(remote_candidates@, #[trigger] locals@[k].candidate_type)),
                },
            decreases locals@.len() - i,
        {
            let c = &locals[i];
            let ghost prefix = locals@.subrange(0, i as int);
            let ghost next = locals@.subrange(0, i + 1);
            if c.candidate_type != CandidateType::Host {
                let m = first_of_kind(remote_candidates, c.candidate_type);
                if m.is_some() {
                    match best {
                        Some(b) => {
                            if c.priority > locals[b].priority {
                                best = Some(i);
                            }
                        },
                        None => {
                            best = Some(i);
                        },
                    }
                }
            }
            proof {
                assert forall|k: int| 0 <= k < i implies #[trigger] next[k] == prefix[k] by {}
                assert(next[i as int] == locals@[i as int]);
                match best {
                    Some(b) => {
                        assert forall|k: int|
                            #![trigger next[k]]
                            0 <= k < next.len() && next[k].candidate_type != CandidateType::Host
                                && has_kind(remote_candidates@, next[k].candidate_type) implies next[k].priority
                            < next[b as int].priority || (next[k].priority == next[b as int].priority
                            && b <= k) by {
                            if k < i {
                                assert(prefix[k] == next[k]);
                            }
                        }
                    },
                    None => {},
                }
            }
            i = i + 1;
        }
        proof {
            assert(locals@.subrange(0, i as int) =~= locals@);
        }
        match best {
            Some(b) => {
                let t = locals[b].candidate_type;
                let m = first_of_kind(remote_candidates, t);
                proof {
                    assert(is_best_local(locals@, remote_candidates@, b as int));
                    let i0 = choose|i: int| is_best_local(locals@, remote_candidates@, i);
                    lemma_best_local_unique(locals@, remote_candidates@, i0, b as int);
                }
                match m {
                    Some(j) => {
                        proof {
                            let j0 = choose|j: int| is_first_of_kind(remote_candidates@, t, j);
                            lemma_first_of_kind_unique(remote_candidates@, t, j0, j as int);
                        }
                        Some(remote_candidates[j].clone())
                    },
                    None => {
                        proof {
                            assert(false);
                        }
                        None
                    },
                }
            },
            None => {
                proof {
                    assert forall|i: int| !is_best_local(locals@, remote_candidates@, i) by {
                        if is_best_local(locals@, remote_candidates@, i) {
                            let _ = locals@[i];
                        }
                    }
                }
                if remote_candidates.len() > 0 {
                    Some(remote_candidates[0].clone())
                } else {
                    None
                }
            },
        }
    }
}


/// Whether two socket addresses have the same IP address and port.
pub open spec fn same_ip_and_port(a: SocketAddress, b: SocketAddress) -> bool {
    a.ip == b.ip && a.port == b.port
}

/// Whether `v` is what gathering yields at `local_addr`: the host candidate
/// (component 1), then, when the STUN query answered with a mapped address that
/// differs from the local one in IP address or port, a server-reflexive
/// candidate at it.
pub open spec fn gathered(v: Seq<IceCandidate>, local_addr: SocketAddress, stun: Option<StunResponse>) -> bool {
    &&& v.len() >= 1
    &&& built_candidate(v[0], CandidateType::Host, '1', local_addr.ip, local_addr.port, 1, 65535)
    &&& match stun {
        Some(resp) if !same_ip_and_port(resp.mapped_address, local_addr) => v.len() == 2 && built_candidate(
            v[1],
            CandidateType::Srflx,
            '2',
            resp.mapped_address.ip,
            resp.mapped_address.port,
            1,
            65535,
        ),
        _ => v.len() == 1,
    }
}

impl IceAgent {
    /// Gathers candidates for `local_addr` given the outcome of the STUN
    /// query (`None` when it failed): the host candidate and the server-reflexive
    /// candidates that the response gives. Each is also added to the local
    /// candidates.
    pub fn gather_candidates(&mut self, local_addr: SocketAddress, stun_response: Option<StunResponse>) -> (v: Vec<IceCandidate>)
        ensures
            gathered(v@, local_addr, stun_response),
            final(self).candidates() == old(self).candidates() + v@,
            final(self).remote() == old(self).remote(),
            final(self).credentials() == old(self).credentials(),
            final(self).ufrag() == old(self).ufrag(),
            final(self).password() == old(self).password(),
    {
        let mut candidates: Vec<IceCandidate> = Vec::new();
        let host = IceCandidate::new_host(local_addr.ip, local_addr.port, 1);
        let ghost h = host;
        candidates.push(host.clone());
        self.add_candidate(host);
        proof {
            assert(self.candidates() =~= old(self).candidates() + candidates@);
        }
        if let Some(resp) = stun_response {
            let found = Self::discover_srflx_candidates(local_addr, &resp);
            let mut i: usize = 0;
            while i < found.len()
                invariant
                    i <= found@.len(),
                    found@.len() <= 1,
                    candidates@ == seq![h] + found@.subrange(0, i as int),
                    !same_ip_and_port(resp.mapped_address, local_addr) ==> found@.len() == 1 && built_candidate(
                        found@[0],
                        CandidateType::Srflx,
                        '2',
                        resp.mapped_address.ip,
                        resp.mapped_address.port,
                        1,
                        65535,
                    ),
                    same_ip_and_port(resp.mapped_address, local_addr) ==> found@.len() == 0,
                    self.candidates() == old(self).candidates() + candidates@,
                    self.remote() == old(self).remote(),
                    self.credentials() == old(self).credentials(),
                    self.ufrag() == old(self).ufrag(),
                    self.password() == old(self).password(),
                decreases found@.len() - i,
            {
                let c = found[i].clone();
                candidates.push(c.clone());
                self.add_candidate(c);
                i = i + 1;
                proof {
                    assert(candidates@ =~= seq![h] + found@.subrange(0, i as int));
                    assert(self.candidates() =~= old(self).candidates() + candidates@);
                }
            }
            proof {
                assert(found@.subrange(0, i as int) =~= found@);
            }
        }
        candidates
    }
}

/// An ICE-lite agent: an ICE agent that only gathers and reports.
pub struct IceLiteAgent {
    agent: IceAgent,
}

impl IceLiteAgent {
    /// The underlying agent.
    pub closed spec fn agent(&self) -> IceAgent {
        self.agent
    }

    /// A new lite agent with fresh credentials.
    pub fn new() -> (a: Self)
        ensures
            a.agent().candidates() == Seq::<IceCandidate>::empty(),
            a.agent().ufrag() == a.agent().credentials().username@,
            a.agent().password() == a.agent().credentials().password@,
    {
        IceLiteAgent { agent: IceAgent::new() }
    }

    /// Gathers candidates (see [`IceAgent::gather_candidates`]).
    pub fn gather_candidates(&mut self, local_addr: SocketAddress, stun_response: Option<StunResponse>) -> (v: Vec<IceCandidate>)
        ensures
            gathered(v@, local_addr, stun_response),
            final(self).agent().candidates() == old(self).agent().candidates() + v@,
            final(self).agent().credentials() == old(self).agent().credentials(),
            final(self).agent().ufrag() == old(self).agent().ufrag(),
            final(self).agent().password() == old(self).agent().password(),
    {
        self.agent.gather_candidates(local_addr, stun_response)
    }

    /// The local credentials.
    pub fn get_credentials(&self) -> (c: IceCredentials)
        ensures
            c == self.agent().credentials(),
    {
        self.agent.get_credentials()
    }

    /// The local user name fragment.
    pub fn get_local_ufrag(&self) -> (s: &str)
        ensures
            s@ == self.agent().ufrag(),
    {
        self.agent.local_ufrag.as_str()
    }

    /// The local password.
    pub fn get_local_password(&self) -> (s: &str)
        ensures
            s@ == self.agent().password(),
    {
        self.agent.local_password.as_str()
    }
}

} // verus!
