//! STUN: the binding exchange used to learn a public address (the server's
//! answer, and the client's request and reading of the answer through the
//! `stun` crate), and the NAT classification built on it.
use vstd::prelude::*;
use crate::text::str_equal;

verus! {

/// The STUN magic cookie, `0x2112A442`, as it appears on the wire.
pub open spec fn magic() -> Seq<u8> {
    seq![0x21u8, 0x12u8, 0xA4u8, 0x42u8]
}

/// Whether `req` is a binding request this server answers: at least a full
/// 20-byte header, message type `0x0001` and the magic cookie.
pub open spec fn is_binding_request(req: Seq<u8>) -> bool {
    &&& req.len() >= 20
    &&& req[0] == 0u8 && req[1] == 1u8
    &&& req.subrange(4, 8) == magic()
}

/// The binding success response for a client seen at `ip:port`: header
/// (type `0x0101`, length 12, cookie, the request's transaction id) and one
/// XOR-MAPPED-ADDRESS attribute for the IPv4 family.
pub open spec fn binding_response(req: Seq<u8>, ip: Seq<u8>, port: u16) -> Seq<u8> {
    let xport = port ^ 0x2112u16;
    seq![0x01u8, 0x01u8, 0x00u8, 0x0Cu8] + magic() + req.subrange(8, 20) + seq![
        0x00u8,
        0x20u8,
        0x00u8,
        0x08u8,
        0x00u8,
        0x01u8,
        (xport >> 8u16) as u8,
        (xport & 0xFFu16) as u8,
        ip[0] ^ 0x21u8,
        ip[1] ^ 0x12u8,
        ip[2] ^ 0xA4u8,
        ip[3] ^ 0x42u8,
    ]
}

/// A binding request with the given transaction id: type `0x0001`, no
/// attributes, the magic cookie, then the id.
pub open spec fn binding_request_bytes(transaction_id: Seq<u8>) -> Seq<u8> {
    seq![0x00u8, 0x01u8, 0x00u8, 0x00u8] + magic() + transaction_id
}

/// `stun::message::Message::new()` then `build(&[Box::new(BINDING_REQUEST)])`:
/// the header of a binding request with no attributes; `Message::new` leaves
/// the transaction id at its default of twelve zero bytes and `build` only
/// writes the header and sets the type (it cannot fail for this setter).
#[verifier::external_body]
fn stun_request_raw() -> (r: Vec<u8>)
    ensures
        r@ == binding_request_bytes(Seq::new(12, |i: int| 0u8)),
{
    let mut m = stun::message::Message::new();
    let _ = m.build(&[Box::new(stun::message::BINDING_REQUEST)]);
    m.raw
}

/// The binding request a client sends to learn its public address.
pub fn binding_request() -> (r: Vec<u8>)
    ensures
        r@ == binding_request_bytes(Seq::new(12, |i: int| 0u8)),
        is_binding_request(r@),
{
    let r = stun_request_raw();
    assert(r@.subrange(4, 8) =~= magic());
    r
}

/// Answers a binding request from the IPv4 client `ip:port`; any other
/// datagram gets no answer.
pub fn stun_binding_response(req: &[u8], ip: [u8; 4], port: u16) -> (r: Option<Vec<u8>>)
    ensures
        match r {
            Some(v) => is_binding_request(req@) && v@ == binding_response(req@, ip@, port),
            None => !is_binding_request(req@),
        },
{
    if req.len() < 20 {
        return None;
    }
    if !(req[4] == 0x21 && req[5] == 0x12 && req[6] == 0xA4 && req[7] == 0x42) {
        proof {
            if req@.subrange(4, 8) == magic() {
                assert(req@.subrange(4, 8)[0] == req@[4]);
                assert(req@.subrange(4, 8)[1] == req@[5]);
                assert(req@.subrange(4, 8)[2] == req@[6]);
                assert(req@.subrange(4, 8)[3] == req@[7]);
            }
        }
        return None;
    }
    if !(req[0] == 0 && req[1] == 1) {
        return None;
    }
    assert(req@.subrange(4, 8) =~= magic());
    let xport: u16 = port ^ 0x2112u16;
    let mut v: Vec<u8> = vec![0x01u8, 0x01, 0x00, 0x0C, 0x21, 0x12, 0xA4, 0x42];
    let mut i: usize = 8;
    while i < 20
        invariant
            8 <= i <= 20,
            req@.len() >= 20,
            v@ == seq![0x01u8, 0x01u8, 0x00u8, 0x0Cu8] + magic() + req@.subrange(8, i as int),
        decreases 20 - i,
    {
        v.push(req[i]);
        i = i + 1;
        assert(v@ =~= seq![0x01u8, 0x01u8, 0x00u8, 0x0Cu8] + magic() + req@.subrange(8, i as int));
    }
    let attr: Vec<u8> = vec![
        0x00u8,
        0x20,
        0x00,
        0x08,
        0x00,
        0x01,
        (xport >> 8u16) as u8,
        (xport & 0xFFu16) as u8,
        ip[0] ^ 0x21u8,
        ip[1] ^ 0x12u8,
        ip[2] ^ 0xA4u8,
        ip[3] ^ 0x42u8,
    ];
    let ghost head = v@;
    let mut j: usize = 0;
    while j < attr.len()
        invariant
            j <= attr@.len(),
            v@ == head + attr@.take(j as int),
        decreases attr@.len() - j,
    {
        v.push(attr[j]);
        j = j + 1;
        assert(attr@.take(j as int) == attr@.take((j - 1) as int).push(attr@[j - 1]));
    }
    assert(attr@.take(attr@.len() as int) == attr@);
    assert(v@ =~= binding_response(req@, ip@, port));
    Some(v)
}

// ---------------------------------------------------------------------------
// Reading a binding response.
// ---------------------------------------------------------------------------

/// A public endpoint as a STUN server reports it.
#[derive(Debug, Clone, Copy, PartialEq, Eq, Structural)]
pub struct MappedAddr {
    /// Whether the address is an IPv6 one.
    pub v6: bool,
    /// The address as its number (`Ipv4Addr::to_bits` or `Ipv6Addr::to_bits`).
    pub ip: u128,
    pub port: u16,
}

/// The endpoint that the `stun` crate reads from the datagram `raw`
/// (`Message::decode`, then `XorMappedAddress::get_from`), or nothing when
/// either reports an error.
pub uninterp spec fn stun_mapped(raw: Seq<u8>) -> Option<MappedAddr>;

/// `stun::message::Message` decoding of `raw` and `XorMappedAddress::get_from`
/// on it: the XOR-MAPPED-ADDRESS the message carries, when it decodes and
/// carries one.
#[verifier::external_body]
fn decode_mapped(raw: &[u8]) -> (r: Option<MappedAddr>)
    ensures
        r == stun_mapped(raw@),
{
    let mut m = stun::message::Message::new();
    m.raw = raw.to_vec();
    if m.decode().is_err() {
        return None;
    }
    let mut x = stun::xoraddr::XorMappedAddress::default();
    if stun::message::Getter::get_from(&mut x, &m).is_err() {
        return None;
    }
    match x.ip {
        core::net::IpAddr::V4(a) => Some(MappedAddr { v6: false, ip: a.to_bits() as u128, port: x.port }),
        core::net::IpAddr::V6(a) => Some(MappedAddr { v6: true, ip: a.to_bits(), port: x.port }),
    }
}

/// The public endpoint a binding response reports.
pub fn mapped_address(raw: &[u8]) -> (r: Option<MappedAddr>)
    ensures
        r == stun_mapped(raw@),
{
    decode_mapped(raw)
}

// ---------------------------------------------------------------------------
// NAT type.
// ---------------------------------------------------------------------------

#[derive(Debug, Clone, Copy, PartialEq, Eq, Structural)]
pub enum NatType {
    NoNat,
    ConeNat,
    SymmetricNat,
}

impl NatType {
    pub open spec fn name(self) -> Seq<char> {
        match self {
            NatType::NoNat => "no_nat"@,
            NatType::ConeNat => "cone"@,
            NatType::SymmetricNat => "symmetric"@,
        }
    }

    pub fn as_str(&self) -> (s: &'static str)
        ensures
            s@ == self.name(),
    {
        match self {
            NatType::NoNat => "no_nat",
            NatType::ConeNat => "cone",
            NatType::SymmetricNat => "symmetric",
        }
    }

    /// The NAT type a stored name denotes; an unknown name counts as the
    /// most restrictive kind, symmetric.
    pub open spec fn from_name(s: Seq<char>) -> NatType {
        if s == "no_nat"@ {
            NatType::NoNat
        } else if s == "cone"@ {
            NatType::ConeNat
        } else {
            NatType::SymmetricNat
        }
    }

    pub fn from_str(s: &str) -> (t: NatType)
        ensures
            t == NatType::from_name(s@),
    {
        if str_equal(s, "no_nat") {
            NatType::NoNat
        } else if str_equal(s, "cone") {
            NatType::ConeNat
        } else {
            NatType::SymmetricNat
        }
    }

    /// Whether a direct connection through this NAT can be opened by
    /// hole punching.
    pub open spec fn punchable(self) -> bool {
        self is NoNat || self is ConeNat
    }

    pub fn is_punchable(&self) -> (b: bool)
        ensures
            b == self.punchable(),
    {
        match self {
            NatType::NoNat => true,
            NatType::ConeNat => true,
            NatType::SymmetricNat => false,
        }
    }
}

/// Reading back the name of a NAT type gives the same type.
pub proof fn law_nat_name_roundtrip(t: NatType)
    ensures
        NatType::from_name(t.name()) == t,
{
    reveal_strlit("no_nat");
    reveal_strlit("cone");
    reveal_strlit("symmetric");
    assert("cone"@ != "no_nat"@) by {
        assert("cone"@.len() != "no_nat"@.len());
    }
    assert("symmetric"@ != "no_nat"@) by {
        assert("symmetric"@.len() != "no_nat"@.len());
    }
    assert("symmetric"@ != "cone"@) by {
        assert("symmetric"@.len() != "cone"@.len());
    }
}

#[derive(Debug, Clone, PartialEq, Eq)]
pub enum StunError {
    /// NAT detection needs two servers to compare.
    NotEnoughServers,
    /// Neither the first server answered nor could a type be derived.
    NoAnswer,
}

/// The NAT type derived from the answers of the first two servers: when the
/// first server sees our own local address there is no NAT; otherwise the
/// same mapped port from both servers means a cone NAT and differing ports a
/// symmetric one.  When only the first server answered, a cone NAT is
/// assumed.
pub open spec fn nat_type_of(
    server_count: nat,
    first: Option<MappedAddr>,
    second: Option<MappedAddr>,
    local_v6: bool,
    local_ip: u128,
) -> Result<NatType, StunError> {
    if server_count < 2 {
        Err(StunError::NotEnoughServers)
    } else {
        match first {
            None => Err(StunError::NoAnswer),
            Some(a1) => if a1.v6 == local_v6 && a1.ip == local_ip {
                Ok(NatType::NoNat)
            } else {
                match second {
                    Some(a2) => if a1.port == a2.port {
                        Ok(NatType::ConeNat)
                    } else {
                        Ok(NatType::SymmetricNat)
                    },
                    None => Ok(NatType::ConeNat),
                }
            },
        }
    }
}

/// The configured STUN servers.
pub struct StunClient {
    stun_servers: Vec<String>,
}

impl StunClient {
    pub closed spec fn servers_view(&self) -> Seq<Seq<char>> {
        self.stun_servers@.map_values(|s: String| s@)
    }

    /// The default public servers, tried in order.
    pub fn new() -> (c: StunClient)
        ensures
            c.servers_view() == seq![
                "stun.miwifi.com:3478"@,
                "stun.cloudflare.com:3478"@,
                "stun.qq.com:3478"@,
                "stun.syncthing.net:3478"@,
                "stun.stunprotocol.org:3478"@,
            ],
    {
        let v: Vec<String> = vec![
            "stun.miwifi.com:3478".to_string(),
            "stun.cloudflare.com:3478".to_string(),
            "stun.qq.com:3478".to_string(),
            "stun.syncthing.net:3478".to_string(),
            "stun.stunprotocol.org:3478".to_string(),
        ];
        let c = StunClient { stun_servers: v };
        assert(c.servers_view() =~= seq![
            "stun.miwifi.com:3478"@,
            "stun.cloudflare.com:3478"@,
            "stun.qq.com:3478"@,
            "stun.syncthing.net:3478"@,
            "stun.stunprotocol.org:3478"@,
        ]);
        c
    }

    pub fn with_servers(servers: Vec<String>) -> (c: StunClient)
        ensures
            c.servers_view() == servers@.map_values(|s: String| s@),
    {
        StunClient { stun_servers: servers }
    }

    /// The servers, in the order they are tried.
    pub fn servers(&self) -> (s: &Vec<String>)
        ensures
            s@.map_values(|x: String| x@) == self.servers_view(),
    {
        &self.stun_servers
    }

    /// The NAT type this client's first two servers' answers reveal.
    pub fn detect_nat_type(
        &self,
        first: Option<MappedAddr>,
        second: Option<MappedAddr>,
        local_v6: bool,
        local_ip: u128,
    ) -> (r: Result<NatType, StunError>)
        ensures
            r == nat_type_of(self.servers_view().len(), first, second, local_v6, local_ip),
    {
        if self.stun_servers.len() < 2 {
            return Err(StunError::NotEnoughServers);
        }
        match first {
            None => Err(StunError::NoAnswer),
            Some(a1) => {
                if a1.v6 == local_v6 && a1.ip == local_ip {
                    Ok(NatType::NoNat)
                } else {
                    match second {
                        Some(a2) => if a1.port == a2.port {
                            Ok(NatType::ConeNat)
                        } else {
                            Ok(NatType::SymmetricNat)
                        },
                        None => Ok(NatType::ConeNat),
                    }
                }
            },
        }
    }
}

} // verus!
