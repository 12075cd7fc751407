//! Small decisions of the user interfaces: whether an address is on the
//! local network (and so worth a direct transfer), which routes a file is
//! sent by, and moving between the tabs of the terminal interface.
use vstd::prelude::*;

verus! {

/// An IP address by its parts: four octets, or eight 16-bit segments.
#[derive(Debug, Clone, Copy)]
pub enum IpAddress {
    V4([u8; 4]),
    V6([u16; 8]),
}

/// Whether an address is reachable without crossing the internet: for
/// IPv4 a private (10/8, 172.16/12, 192.168/16), loopback (127/8) or
/// link-local (169.254/16) address; for IPv6 the loopback address, a
/// link-local unicast address (fe80::/10) or a unique local one (fc00::/7).
pub open spec fn lan_address(ip: IpAddress) -> bool {
    match ip {
        IpAddress::V4(o) => {
            ||| o[0] == 10
            ||| (o[0] == 172 && 16 <= o[1] <= 31)
            ||| (o[0] == 192 && o[1] == 168)
            ||| o[0] == 127
            ||| (o[0] == 169 && o[1] == 254)
        },
        IpAddress::V6(s) => {
            ||| (s[0] == 0 && s[1] == 0 && s[2] == 0 && s[3] == 0 && s[4] == 0 && s[5] == 0 && s[6] == 0
                && s[7] == 1)
            ||| (0xfe80 <= s[0] <= 0xfebf)
            ||| (0xfc00 <= s[0] <= 0xfdff)
        },
    }
}

pub fn is_lan_addr(ip: IpAddress) -> (r: bool)
    ensures
        r == lan_address(ip),
{
    match ip {
        IpAddress::V4(o) => {
            o[0] == 10 || (o[0] == 172 && 16 <= o[1] && o[1] <= 31) || (o[0] == 192 && o[1] == 168)
                || o[0] == 127 || (o[0] == 169 && o[1] == 254)
        },
        IpAddress::V6(s) => {
            (s[0] == 0 && s[1] == 0 && s[2] == 0 && s[3] == 0 && s[4] == 0 && s[5] == 0 && s[6] == 0
                && s[7] == 1) || (0xfe80 <= s[0] && s[0] <= 0xfebf) || (0xfc00 <= s[0] && s[0] <= 0xfdff)
        },
    }
}

/// A way of delivering a file to a peer.
#[derive(Debug, Clone, Copy, PartialEq, Eq, Structural)]
pub enum TransferRoute {
    /// A direct connection on the local network.
    Lan,
    /// A QUIC connection to the peer's iroh address (direct or relayed).
    Iroh,
}

/// The routes tried, in order, until one delivers the file: the direct one
/// when the peer's address is on the local network, then iroh when the
/// signalling server has told the peer's iroh address.
pub open spec fn route_plan(target: Option<IpAddress>, iroh_known: bool) -> Seq<TransferRoute> {
    let lan = match target {
        Some(ip) => lan_address(ip),
        None => false,
    };
    (if lan {
        seq![TransferRoute::Lan]
    } else {
        Seq::<TransferRoute>::empty()
    }) + (if iroh_known {
        seq![TransferRoute::Iroh]
    } else {
        Seq::<TransferRoute>::empty()
    })
}

pub fn transfer_routes(target: Option<IpAddress>, iroh_known: bool) -> (r: Vec<TransferRoute>)
    ensures
        r@ == route_plan(target, iroh_known),
{
    let mut r: Vec<TransferRoute> = Vec::new();
    let lan = match target {
        Some(ip) => is_lan_addr(ip),
        None => false,
    };
    if lan {
        r.push(TransferRoute::Lan);
    }
    if iroh_known {
        r.push(TransferRoute::Iroh);
    }
    assert(r@ =~= route_plan(target, iroh_known));
    r
}

/// The tabs of the terminal interface, in order.
#[derive(Debug, Clone, Copy, PartialEq, Eq, Structural)]
pub enum Tab {
    Devices,
    Transfers,
    Settings,
}

pub open spec fn tab_after(t: Tab) -> Tab {
    match t {
        Tab::Devices => Tab::Transfers,
        Tab::Transfers => Tab::Settings,
        Tab::Settings => Tab::Devices,
    }
}

pub open spec fn tab_before(t: Tab) -> Tab {
    match t {
        Tab::Devices => Tab::Settings,
        Tab::Transfers => Tab::Devices,
        Tab::Settings => Tab::Transfers,
    }
}

impl Tab {
    /// The next tab, wrapping round.
    pub fn next(self) -> (t: Tab)
        ensures
            t == tab_after(self),
    {
        match self {
            Tab::Devices => Tab::Transfers,
            Tab::Transfers => Tab::Settings,
            Tab::Settings => Tab::Devices,
        }
    }

    /// The previous tab, wrapping round.
    pub fn previous(self) -> (t: Tab)
        ensures
            t == tab_before(self),
    {
        match self {
            Tab::Devices => Tab::Settings,
            Tab::Transfers => Tab::Devices,
            Tab::Settings => Tab::Transfers,
        }
    }
}

/// Going to the next tab and back, or back and then forward, returns to the
/// tab one started from; three steps forward go all the way round.
pub proof fn law_tabs_cycle(t: Tab)
    ensures
        tab_before(tab_after(t)) == t,
        tab_after(tab_before(t)) == t,
        tab_after(tab_after(tab_after(t))) == t,
{
}

} // verus!
