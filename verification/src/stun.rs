//! STUN: the binding request and the parsing of a binding response.

use vstd::prelude::*;
use vstd::std_specs::convert::FromSpecImpl;
use crate::errors::Error;
use crate::net::{IpAddress, SocketAddress};

verus! {

/// The kind of NAT in front of a host.
#[derive(Debug, Clone, Copy, PartialEq, Eq, Structural)]
pub enum NatType {
    /// No NAT.
    OpenInternet,
    /// Full-cone NAT.
    FullCone,
    /// Restricted-cone NAT.
    RestrictedCone,
    /// Port-restricted-cone NAT.
    PortRestrictedCone,
    /// Symmetric NAT.
    Symmetric,
    /// Not determined.
    Unknown,
}

/// A STUN server, by its address.
#[derive(Debug, Clone, Copy)]
pub struct StunServer {
    address: SocketAddress,
}

/// What a STUN server reported.
#[derive(Debug, Clone, Copy)]
pub struct StunResponse {
    /// The mapped (public) address.
    pub mapped_address: SocketAddress,
    /// The source address.
    pub source_address: SocketAddress,
    /// The changed address, if any.
    pub changed_address: Option<SocketAddress>,
}

impl From<SocketAddress> for StunResponse {
    fn from(mapped_address: SocketAddress) -> (r: Self) {
        StunResponse { mapped_address, source_address: mapped_address, changed_address: None }
    }
}

impl FromSpecImpl<SocketAddress> for StunResponse {
    open spec fn obeys_from_spec() -> bool {
        true
    }

    open spec fn from_spec(v: SocketAddress) -> StunResponse {
        StunResponse { mapped_address: v, source_address: v, changed_address: None }
    }
}

/// The big-endian 16-bit value at `i`.
pub open spec fn be16(d: Seq<u8>, i: int) -> int {
    d[i] as int * 256 + d[i + 1] as int
}

/// The padding that brings an attribute's length to a multiple of four.
pub open spec fn attr_padding(len: int) -> int {
    if len % 4 != 0 {
        4 - len % 4
    } else {
        0
    }
}

/// Whether the attribute that starts at `pos` lies whole inside `d`.
pub open spec fn attr_fits(d: Seq<u8>, pos: int) -> bool {
    0 <= pos && pos + 4 <= d.len() && pos + 4 + be16(d, pos + 2) <= d.len()
}

/// Whether the attribute at `pos` is an IPv4 address attribute (type 0x0020,
/// at least 8 bytes, family 1).
pub open spec fn is_address_attr(d: Seq<u8>, pos: int) -> bool {
    be16(d, pos) == 0x0020 && be16(d, pos + 2) >= 8 && d[pos + 5] == 1
}

/// Where the attribute after the one at `pos` starts.
pub open spec fn next_attr(d: Seq<u8>, pos: int) -> int {
    pos + 4 + be16(d, pos + 2) + attr_padding(be16(d, pos + 2))
}

/// The address that an address attribute at `pos` gives: the four octets
/// after the attribute's own four value bytes, and the port in the two bytes
/// that follow them.
pub open spec fn attr_address(d: Seq<u8>, pos: int) -> SocketAddress {
    SocketAddress {
        ip: IpAddress::V4([d[pos + 8], d[pos + 9], d[pos + 10], d[pos + 11]]),
        port: be16(d, pos + 12) as u16,
        flowinfo: 0,
        scope_id: 0,
    }
}

/// Whether, reading attributes from `pos`, an address attribute is met whose
/// port would be read past the end of `d`.
pub open spec fn scan_overruns(d: Seq<u8>, pos: int) -> bool
    decreases d.len() + 4 - pos,
{
    if !attr_fits(d, pos) {
        false
    } else if is_address_attr(d, pos) && pos + 14 > d.len() {
        true
    } else {
        scan_overruns(d, next_attr(d, pos))
    }
}

/// The address given by the last address attribute read from `pos` on
/// (reading stops at the first attribute that does not fit), or `found` if
/// there is none.
pub open spec fn scan_mapped(d: Seq<u8>, pos: int, found: Option<SocketAddress>) -> Option<
    SocketAddress,
>
    decreases d.len() + 4 - pos,
{
    if !attr_fits(d, pos) {
        found
    } else if is_address_attr(d, pos) {
        scan_mapped(d, next_attr(d, pos), Some(attr_address(d, pos)))
    } else {
        scan_mapped(d, next_attr(d, pos), found)
    }
}

/// Every attribute of type 0x0020 that lies whole inside the data, has a
/// length of at least 8 and family byte 1 is taken as an address: reading on
/// from it gives what reading on from the next attribute gives when this
/// attribute's address is the one found so far. The address is the IPv4
/// address of the four bytes after the attribute's own four value bytes, and
/// the port the two bytes that follow them, most significant first.
pub proof fn lemma_address_attribute_taken(d: Seq<u8>, pos: int, found: Option<SocketAddress>)
    requires
        0 <= pos,
        pos + 4 <= d.len(),
        d[pos] == 0 && d[pos + 1] == 0x20,
        d[pos + 2] as int * 256 + d[pos + 3] as int >= 8,
        pos + 4 + d[pos + 2] as int * 256 + d[pos + 3] as int <= d.len(),
        pos + 14 <= d.len(),
        d[pos + 5] == 1,
    ensures
        ({
            let len = d[pos + 2] as int * 256 + d[pos + 3] as int;
            let next = pos + 4 + len + if len % 4 != 0 {
                4 - len % 4
            } else {
                0
            };
            let addr = SocketAddress {
                ip: IpAddress::V4([d[pos + 8], d[pos + 9], d[pos + 10], d[pos + 11]]),
                port: (d[pos + 12] as int * 256 + d[pos + 13] as int) as u16,
                flowinfo: 0,
                scope_id: 0,
            };
            scan_mapped(d, pos, found) == scan_mapped(d, next, Some(addr))
        }),
{
}

/// A binding response whose attributes after the header are one address
/// attribute (type 0x0020, length at least 8, family 1) and then only
/// attributes of other types parses to that address.
pub proof fn lemma_single_address_response(d: Seq<u8>)
    requires
        d.len() >= 34,
        d[0] == 1 && d[1] == 1,
        d[20] == 0 && d[21] == 0x20,
        d[22] as int * 256 + d[23] as int >= 8,
        24 + d[22] as int * 256 + d[23] as int <= d.len(),
        d[25] == 1,
        forall|p: int| 24 <= p < d.len() ==> !(#[trigger] is_address_attr(d, p)),
    ensures
        scan_mapped(d, 20, None) == Some(
            SocketAddress {
                ip: IpAddress::V4([d[28], d[29], d[30], d[31]]),
                port: (d[32] as int * 256 + d[33] as int) as u16,
                flowinfo: 0,
                scope_id: 0,
            },
        ),
{
    lemma_address_attribute_taken(d, 20, None);
    let a = SocketAddress {
        ip: IpAddress::V4([d[28], d[29], d[30], d[31]]),
        port: (d[32] as int * 256 + d[33] as int) as u16,
        flowinfo: 0,
        scope_id: 0,
    };
    lemma_no_more_addresses(d, next_attr(d, 20), Some(a));
}

proof fn lemma_no_more_addresses(d: Seq<u8>, pos: int, found: Option<SocketAddress>)
    requires
        pos >= 24,
        forall|p: int| 24 <= p < d.len() ==> !(#[trigger] is_address_attr(d, p)),
    ensures
        scan_mapped(d, pos, found) == found,
    decreases d.len() + 4 - pos,
{
    if attr_fits(d, pos) {
        assert(!is_address_attr(d, pos));
        lemma_no_more_addresses(d, next_attr(d, pos), found);
    }
}

/// Whether parsing `d` as a binding response would read past its end.
pub open spec fn response_overruns(d: Seq<u8>) -> bool {
    d.len() >= 20 && be16(d, 0) == 0x0101 && scan_overruns(d, 20)
}

/// The binding request: type 0x0001, length 0, then the transaction id.
pub open spec fn binding_request_bytes(tid: Seq<u8>) -> Seq<u8> {
    seq![0u8, 1u8, 0u8, 0u8] + tid
}

/// A fresh random transaction id.
pub fn generate_transaction_id() -> (tid: [u8; 12]) {
    crate::entropy::random_12()
}

fn read_be16(d: &[u8], i: usize) -> (v: usize)
    requires
        i + 1 < d@.len(),
    ensures
        v == be16(d@, i as int),
{
    (d[i] as usize) * 256 + d[i + 1] as usize
}

/// Whether parsing `data` as a binding response would read past its end:
/// an address attribute (type 0x0020, length at least 8, family 1) ends less
/// than two bytes before the end of the data.
pub fn response_would_overrun(data: &[u8]) -> (r: bool)
    requires
        data@.len() <= isize::MAX,
    ensures
        r == response_overruns(data@),
{
    if data.len() < 20 || read_be16(data, 0) != 0x0101 {
        return false;
    }
    let mut pos: usize = 20;
    loop
        invariant
            20 <= pos <= data@.len() + 3,
            data@.len() <= isize::MAX,
            data@.len() >= 20,
            be16(data@, 0) == 0x0101,
            response_overruns(data@) == scan_overruns(data@, pos as int),
        decreases data@.len() + 4 - pos,
    {
        if pos + 4 > data.len() {
            return false;
        }
        let attr_type = read_be16(data, pos);
        let attr_length = read_be16(data, pos + 2);
        if pos + 4 + attr_length > data.len() {
            return false;
        }
        if attr_type == 0x0020 && attr_length >= 8 && data[pos + 5] == 0x01 && pos + 14
            > data.len() {
            return true;
        }
        pos = pos + 4 + attr_length;
        if attr_length % 4 != 0 {
            pos = pos + (4 - attr_length % 4);
        }
    }
}

impl StunServer {
    /// A STUN server at `address`.
    pub fn new(address: SocketAddress) -> (s: Self)
        ensures
            s.address() == address,
    {
        StunServer { address }
    }

    /// The address of this server.
    pub closed spec fn address(&self) -> SocketAddress {
        self.address
    }

    /// The address of this server.
    pub fn server_address(&self) -> (a: SocketAddress)
        ensures
            a == self.address(),
    {
        self.address
    }

    /// The binding request with transaction id `tid`.
    pub fn binding_request(tid: &[u8; 12]) -> (msg: Vec<u8>)
        ensures
            msg@ == binding_request_bytes(tid@),
    {
        let mut msg: Vec<u8> = Vec::with_capacity(20);
        msg.push(0);
        msg.push(1);
        msg.push(0);
        msg.push(0);
        let mut i: usize = 0;
        while i < 12
            invariant
                i <= 12,
                msg@ == seq![0u8, 1u8, 0u8, 0u8] + tid@.subrange(0, i as int),
            decreases 12 - i,
        {
            msg.push(tid[i]);
            i = i + 1;
            proof {
                assert(msg@ =~= seq![0u8, 1u8, 0u8, 0u8] + tid@.subrange(0, i as int));
            }
        }
        proof {
            assert(tid@.subrange(0, 12) =~= tid@);
        }
        msg
    }

    /// Parses a binding response. It fails with a NAT traversal error when the
    /// data is shorter than the 20-byte header ("Response too short"), when its
    /// type is not 0x0101 ("Not a STUN binding response"), and when no address
    /// attribute is found ("No MAPPED-ADDRESS found"); otherwise the mapped
    /// address is the one given by the last address attribute.
    pub fn parse_response(&self, data: &[u8]) -> (r: Result<StunResponse, Error>)
        requires
            data@.len() <= isize::MAX,
            !response_overruns(data@),
        ensures
            data@.len() < 20 ==> (r matches Err(Error::NatTraversal(m)) && m@
                == "Response too short"@),
            data@.len() >= 20 && be16(data@, 0) != 0x0101 ==> (r matches Err(
                Error::NatTraversal(m),
            ) && m@ == "Not a STUN binding response"@),
            data@.len() >= 20 && be16(data@, 0) == 0x0101 ==> match scan_mapped(
                data@,
                20,
                None,
            ) {
                Some(a) => r matches Ok(resp) && resp == (StunResponse { mapped_address: a, source_address: a, changed_address: None }),
                None => r matches Err(Error::NatTraversal(m)) && m@ == "No MAPPED-ADDRESS found"@,
            },
    {
        if data.len() < 20 {
            return Err(Error::NatTraversal(String::from_str("Response too short")));
        }
        let msg_type = read_be16(data, 0);
        if msg_type != 0x0101 {
            return Err(Error::NatTraversal(String::from_str("Not a STUN binding response")));
        }
        let mut pos: usize = 20;
        let mut mapped_addr: Option<SocketAddress> = None;
        while pos < data.len()
            invariant
                20 <= pos <= data@.len() + 3,
                data@.len() <= isize::MAX,
                !scan_overruns(data@, pos as int),
                scan_mapped(data@, 20, None) == scan_mapped(data@, pos as int, mapped_addr),
            ensures
                scan_mapped(data@, 20, None) == mapped_addr,
            decreases data@.len() + 4 - pos,
        {
            if pos + 4 > data.len() {
                break;
            }
            let attr_type = read_be16(data, pos);
            let attr_length = read_be16(data, pos + 2);
            if pos + 4 + attr_length > data.len() {
                break;
            }
            if attr_type == 0x0020 {
                if attr_length >= 8 && data[pos + 5] == 0x01 {
                    let ip = IpAddress::V4([data[pos + 8], data[pos + 9], data[pos + 10], data[pos + 11]]);
                    let port = read_be16(data, pos + 12) as u16;
                    mapped_addr = Some(SocketAddress { ip, port, flowinfo: 0, scope_id: 0 });
                }
            }
            pos = pos + 4 + attr_length;
            if attr_length % 4 != 0 {
                pos = pos + (4 - attr_length % 4);
            }
        }
        match mapped_addr {
            Some(a) => Ok(StunResponse::from(a)),
            None => Err(Error::NatTraversal(String::from_str("No MAPPED-ADDRESS found"))),
        }
    }
}

/// The answer of a NAT detection once a server answered: the kind is not
/// determined, and the public address is the mapped one.
pub fn nat_detection(response: &StunResponse) -> (r: (NatType, SocketAddress))
    ensures
        r == (NatType::Unknown, response.mapped_address),
{
    (NatType::Unknown, response.mapped_address)
}

/// The kind of NAT from two answers of the same server, to queries from
/// `local_addr` and from another local port: the same mapped address
/// twice means no NAT when it is `local_addr` and a full-cone NAT
/// otherwise; different mapped addresses mean a symmetric NAT.
pub fn classify_nat_behavior(first: &StunResponse, second: &StunResponse, local_addr: SocketAddress) -> (t: NatType)
    ensures
        first.mapped_address == second.mapped_address && first.mapped_address == local_addr
            ==> t == NatType::OpenInternet,
        first.mapped_address == second.mapped_address && first.mapped_address != local_addr
            ==> t == NatType::FullCone,
        first.mapped_address != second.mapped_address ==> t == NatType::Symmetric,
{
    if first.mapped_address == second.mapped_address {
        if first.mapped_address == local_addr {
            NatType::OpenInternet
        } else {
            NatType::FullCone
        }
    } else {
        NatType::Symmetric
    }
}

} // verus!
