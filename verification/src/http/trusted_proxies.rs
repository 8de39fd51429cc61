//! The networks whose proxies are trusted.
use vstd::arithmetic::div_mod::{lemma_basic_div, lemma_fundamental_div_mod_converse};
use vstd::arithmetic::power2::{lemma2_to64, lemma_pow2_adds, pow2};
use vstd::bits::{lemma_u128_shr_is_div, lemma_u32_shr_is_div};
use vstd::prelude::*;

use crate::http::request::IpAddress;

verus! {

/// Declares the error that `cidr` gives for a text that is not a network.
#[verifier::external_type_specification]
#[verifier::external_body]
pub struct ExNetworkParseError(cidr::errors::NetworkParseError);

/// A network: every address, or the addresses of one family whose first
/// `network_length` bits are those of `address`.
#[derive(Debug, Clone, Copy)]
pub enum IpNetwork {
    Any,
    V4 { address: [u8; 4], network_length: u8 },
    V6 { address: [u16; 8], network_length: u8 },
}

/// An IPv4 address as a 32-bit number.
pub open spec fn v4_value(a: Seq<u8>) -> nat {
    (a[0] * 0x100_0000 + a[1] * 0x1_0000 + a[2] * 0x100 + a[3]) as nat
}

/// An IPv6 address as a 128-bit number.
pub open spec fn v6_value(a: Seq<u16>) -> nat {
    (a[0] * 0x1_0000_0000_0000_0000_0000_0000_0000 + a[1] * 0x1_0000_0000_0000_0000_0000_0000
        + a[2] * 0x1_0000_0000_0000_0000_0000 + a[3] * 0x1_0000_0000_0000_0000 + a[4]
        * 0x1_0000_0000_0000 + a[5] * 0x1_0000_0000 + a[6] * 0x1_0000 + a[7]) as nat
}

/// The first `len` of the `bits` bits of `x` and of `y` are the same.
pub open spec fn same_prefix(x: nat, y: nat, bits: nat, len: nat) -> bool {
    x / pow2((bits - len) as nat) == y / pow2((bits - len) as nat)
}

impl IpNetwork {
    /// The network length fits the family of the network.
    pub open spec fn wf(self) -> bool {
        match self {
            IpNetwork::Any => true,
            IpNetwork::V4 { network_length, .. } => network_length <= 32,
            IpNetwork::V6 { network_length, .. } => network_length <= 128,
        }
    }

    /// Whether the network holds the address, as `cidr::AnyIpCidr::contains` decides it.
    pub open spec fn spec_contains(self, addr: IpAddress) -> bool {
        match self {
            IpNetwork::Any => true,
            IpNetwork::V4 { address, network_length } => match addr {
                IpAddress::V4(a) => same_prefix(v4_value(address@), v4_value(a@), 32, network_length as nat),
                IpAddress::V6(_) => false,
            },
            IpNetwork::V6 { address, network_length } => match addr {
                IpAddress::V4(_) => false,
                IpAddress::V6(a) => same_prefix(v6_value(address@), v6_value(a@), 128, network_length as nat),
            },
        }
    }
}

fn v4_number(a: [u8; 4]) -> (res: u32)
    ensures
        res == v4_value(a@),
{
    (a[0] as u32) * 0x100_0000 + (a[1] as u32) * 0x1_0000 + (a[2] as u32) * 0x100 + (a[3] as u32)
}

fn v6_number(a: [u16; 8]) -> (res: u128)
    ensures
        res == v6_value(a@),
{
    (a[0] as u128) * 0x1_0000_0000_0000_0000_0000_0000_0000 + (a[1] as u128) * 0x1_0000_0000_0000_0000_0000_0000
        + (a[2] as u128) * 0x1_0000_0000_0000_0000_0000 + (a[3] as u128) * 0x1_0000_0000_0000_0000
        + (a[4] as u128) * 0x1_0000_0000_0000 + (a[5] as u128) * 0x1_0000_0000 + (a[6] as u128)
        * 0x1_0000 + (a[7] as u128)
}

fn same_prefix_u32(x: u32, y: u32, len: u8) -> (res: bool)
    requires
        len <= 32,
    ensures
        res == same_prefix(x as nat, y as nat, 32, len as nat),
{
    if len == 0 {
        proof {
            lemma2_to64();
            lemma_basic_div(x as int, pow2(32) as int);
            lemma_basic_div(y as int, pow2(32) as int);
        }
        true
    } else {
        let shift: u32 = 32 - len as u32;
        proof {
            lemma_u32_shr_is_div(x, shift);
            lemma_u32_shr_is_div(y, shift);
        }
        (x >> shift) == (y >> shift)
    }
}

fn same_prefix_u128(x: u128, y: u128, len: u8) -> (res: bool)
    requires
        len <= 128,
    ensures
        res == same_prefix(x as nat, y as nat, 128, len as nat),
{
    if len == 0 {
        proof {
            lemma2_to64();
            lemma_pow2_adds(64, 64);
            lemma_basic_div(x as int, pow2(128) as int);
            lemma_basic_div(y as int, pow2(128) as int);
        }
        true
    } else {
        let shift: u128 = 128 - len as u128;
        proof {
            lemma_u128_shr_is_div(x, shift);
            lemma_u128_shr_is_div(y, shift);
        }
        (x >> shift) == (y >> shift)
    }
}

/// Whether `network` holds `addr`.
fn network_contains(network: &IpNetwork, addr: &IpAddress) -> (res: bool)
    requires
        network.wf(),
    ensures
        res == network.spec_contains(*addr),
{
    match network {
        IpNetwork::Any => true,
        IpNetwork::V4 { address, network_length } => match addr {
            IpAddress::V4(a) => same_prefix_u32(v4_number(*address), v4_number(*a), *network_length),
            IpAddress::V6(_) => false,
        },
        IpNetwork::V6 { address, network_length } => match addr {
            IpAddress::V4(_) => false,
            IpAddress::V6(a) => same_prefix_u128(v6_number(*address), v6_number(*a), *network_length),
        },
    }
}

/// The network that `cidr::AnyIpCidr` reads in `s`, or nothing where `s` is not one.
pub uninterp spec fn spec_parse_network(s: Seq<char>) -> Option<IpNetwork>;

/// Parses `s` with the `FromStr` of `cidr::AnyIpCidr` and gives the network as plain
/// values: the octets or segments of its first address and its network length, which
/// `cidr` keeps at most 32 for IPv4 and 128 for IPv6.
#[verifier::external_body]
fn parse_network(s: &str) -> (res: Result<IpNetwork, cidr::errors::NetworkParseError>)
    ensures
        match res {
            Ok(n) => spec_parse_network(s@) == Some(n) && n.wf(),
            Err(_) => spec_parse_network(s@) is None,
        },
{
    match s.parse::<cidr::AnyIpCidr>()? {
        cidr::AnyIpCidr::Any => Ok(IpNetwork::Any),
        cidr::AnyIpCidr::V4(c) => Ok(
            IpNetwork::V4 { address: c.first_address().octets(), network_length: c.network_length() },
        ),
        cidr::AnyIpCidr::V6(c) => Ok(
            IpNetwork::V6 { address: c.first_address().segments(), network_length: c.network_length() },
        ),
    }
}

/// Why a trusted proxy could not be added.
#[derive(Debug, Clone, Copy, PartialEq, Eq, Structural)]
pub enum TrustedProxyError {
    /// The text is not a network.
    InvalidNetwork,
}

/// Some network of `networks` holds `addr`.
pub open spec fn trusts(networks: Seq<IpNetwork>, addr: IpAddress) -> bool {
    exists|i: int| 0 <= i < networks.len() && #[trigger] networks[i].spec_contains(addr)
}

/// The addresses that no network of `networks` holds.
pub open spec fn is_untrusted(networks: Seq<IpNetwork>) -> spec_fn(IpAddress) -> bool {
    |ip: IpAddress| !trusts(networks, ip)
}

/// The loopback and private networks: 127.0.0.0/8, 10.0.0.0/8, 172.16.0.0/12,
/// 192.168.0.0/16, ::1/128 and fd00::/8.
pub open spec fn local_networks() -> Seq<IpNetwork> {
    seq![
        IpNetwork::V4 { address: [127u8, 0u8, 0u8, 0u8], network_length: 8 },
        IpNetwork::V4 { address: [10u8, 0u8, 0u8, 0u8], network_length: 8 },
        IpNetwork::V4 { address: [172u8, 16u8, 0u8, 0u8], network_length: 12 },
        IpNetwork::V4 { address: [192u8, 168u8, 0u8, 0u8], network_length: 16 },
        IpNetwork::V6 { address: [0u16, 0u16, 0u16, 0u16, 0u16, 0u16, 0u16, 1u16], network_length: 128 },
        IpNetwork::V6 { address: [0xfd00u16, 0u16, 0u16, 0u16, 0u16, 0u16, 0u16, 0u16], network_length: 8 },
    ]
}

/// The leading bits of an IPv4 address: its first octet, its first twelve bits and its
/// first two octets.
proof fn lemma_v4_leading_bits(o: [u8; 4])
    ensures
        v4_value(o@) / pow2(24) == o[0],
        v4_value(o@) / pow2(20) == o[0] * 16 + o[1] / 16,
        v4_value(o@) / pow2(16) == o[0] * 256 + o[1],
{
    lemma2_to64();
    let x = v4_value(o@) as int;
    lemma_fundamental_div_mod_converse(x, 0x100_0000, o[0] as int, o[1] * 0x1_0000 + o[2] * 0x100 + o[3]);
    lemma_fundamental_div_mod_converse(o[1] as int, 16, (o[1] / 16) as int, (o[1] % 16) as int);
    lemma_fundamental_div_mod_converse(
        x,
        0x10_0000,
        o[0] * 16 + o[1] / 16,
        (o[1] % 16) * 0x1_0000 + o[2] * 0x100 + o[3],
    );
    lemma_fundamental_div_mod_converse(x, 0x1_0000, o[0] * 256 + o[1], o[2] * 0x100 + o[3]);
}

/// The local networks trust exactly the IPv4 addresses of 127.0.0.0/8, 10.0.0.0/8,
/// 172.16.0.0/12 and 192.168.0.0/16, and the IPv6 loopback address.
pub proof fn law_local_networks(o: [u8; 4])
    ensures
        trusts(local_networks(), IpAddress::V4(o)) <==> (o[0] == 127 || o[0] == 10 || (o[0] == 172 && 16 <= o[1]
            < 32) || (o[0] == 192 && o[1] == 168)),
        trusts(local_networks(), IpAddress::V6([0u16, 0u16, 0u16, 0u16, 0u16, 0u16, 0u16, 1u16])),
{
    let nets = local_networks();
    let addr = IpAddress::V4(o);
    lemma_v4_leading_bits(o);
    lemma_v4_leading_bits([127u8, 0u8, 0u8, 0u8]);
    lemma_v4_leading_bits([10u8, 0u8, 0u8, 0u8]);
    lemma_v4_leading_bits([172u8, 16u8, 0u8, 0u8]);
    lemma_v4_leading_bits([192u8, 168u8, 0u8, 0u8]);
    lemma2_to64();
    assert(nets[0].spec_contains(addr) <==> o[0] == 127);
    assert(nets[1].spec_contains(addr) <==> o[0] == 10);
    assert(nets[2].spec_contains(addr) <==> (o[0] == 172 && 16 <= o[1] < 32));
    assert(nets[3].spec_contains(addr) <==> (o[0] == 192 && o[1] == 168));
    assert(!nets[4].spec_contains(addr));
    assert(!nets[5].spec_contains(addr));
    let six = IpAddress::V6([0u16, 0u16, 0u16, 0u16, 0u16, 0u16, 0u16, 1u16]);
    assert(nets[4].spec_contains(six));
}

/// The networks whose proxies are trusted.
#[derive(Debug)]
pub struct TrustedProxies(Vec<IpNetwork>);

impl View for TrustedProxies {
    type V = Seq<IpNetwork>;

    closed spec fn view(&self) -> Seq<IpNetwork> {
        self.0@
    }
}

impl Default for TrustedProxies {
    fn default() -> (res: Self)
        ensures
            res@ == Seq::<IpNetwork>::empty(),
    {
        TrustedProxies(Vec::new())
    }
}

impl TrustedProxies {
    #[verifier::type_invariant]
    spec fn networks_wf(self) -> bool {
        forall|i: int| 0 <= i < self.0@.len() ==> #[trigger] self.0@[i].wf()
    }

    /// The loopback and private networks of IPv4 and IPv6.
    pub fn new_local() -> (res: Self)
        ensures
            res@ == local_networks(),
            forall|o: [u8; 4]|
                #![trigger trusts(res@, IpAddress::V4(o))]
                trusts(res@, IpAddress::V4(o)) <==> (o[0] == 127 || o[0] == 10 || (o[0] == 172 && 16 <= o[1] < 32) || (
                o[0] == 192 && o[1] == 168)),
    {
        proof {
            assert forall|o: [u8; 4]|
                #![trigger trusts(local_networks(), IpAddress::V4(o))]
                trusts(local_networks(), IpAddress::V4(o)) <==> (o[0] == 127 || o[0] == 10 || (o[0] == 172 && 16 <= o[1]
                    < 32) || (o[0] == 192 && o[1] == 168)) by {
                law_local_networks(o);
            }
        }
        let networks = vec![
            IpNetwork::V4 { address: [127u8, 0u8, 0u8, 0u8], network_length: 8 },
            IpNetwork::V4 { address: [10u8, 0u8, 0u8, 0u8], network_length: 8 },
            IpNetwork::V4 { address: [172u8, 16u8, 0u8, 0u8], network_length: 12 },
            IpNetwork::V4 { address: [192u8, 168u8, 0u8, 0u8], network_length: 16 },
            IpNetwork::V6 { address: [0u16, 0u16, 0u16, 0u16, 0u16, 0u16, 0u16, 1u16], network_length: 128 },
            IpNetwork::V6 { address: [0xfd00u16, 0u16, 0u16, 0u16, 0u16, 0u16, 0u16, 0u16], network_length: 8 },
        ];
        assert(networks@ =~= local_networks());
        TrustedProxies(networks)
    }

    pub fn len(&self) -> (res: usize)
        ensures
            res == self@.len(),
    {
        self.0.len()
    }

    pub fn is_empty(&self) -> (res: bool)
        ensures
            res == (self@.len() == 0),
    {
        self.0.len() == 0
    }

    /// Adds the network written in `proxy`, as `cidr` reads it; a text that is not a
    /// network is refused and changes nothing.
    pub fn add_trusted_proxy(&mut self, proxy: &str) -> (res: Result<(), TrustedProxyError>)
        ensures
            match spec_parse_network(proxy@) {
                Some(n) => res is Ok && final(self)@ == old(self)@.push(n),
                None => res == Err::<(), TrustedProxyError>(TrustedProxyError::InvalidNetwork)
                    && final(self)@ == old(self)@,
            },
    {
        match parse_network(proxy) {
            Ok(network) => {
                proof {
                    use_type_invariant(&*self);
                }
                let mut networks: Vec<IpNetwork> = Vec::new();
                std::mem::swap(&mut networks, &mut self.0);
                networks.push(network);
                self.0 = networks;
                Ok(())
            },
            Err(_) => Err(TrustedProxyError::InvalidNetwork),
        }
    }

    /// Whether one of the networks holds `remote_addr`.
    pub fn contains(&self, remote_addr: &IpAddress) -> (res: bool)
        ensures
            res == trusts(self@, *remote_addr),
    {
        proof {
            use_type_invariant(self);
        }
        let mut i: usize = 0;
        while i < self.0.len()
            invariant
                i <= self.0@.len(),
                forall|j: int| 0 <= j < self.0@.len() ==> #[trigger] self.0@[j].wf(),
                forall|j: int| 0 <= j < i ==> !#[trigger] self.0@[j].spec_contains(*remote_addr),
            decreases self.0@.len() - i,
        {
            if network_contains(&self.0[i], remote_addr) {
                return true;
            }
            i = i + 1;
        }
        false
    }

    /// The addresses, in order, that none of the networks holds.
    pub fn remove_trusted_ips(&self, sorted_ips: Vec<IpAddress>) -> (res: Vec<IpAddress>)
        ensures
            res@ == sorted_ips@.filter(is_untrusted(self@)),
    {
        let mut untrusted_sorted_ips: Vec<IpAddress> = Vec::new();
        let mut i: usize = 0;
        while i < sorted_ips.len()
            invariant
                i <= sorted_ips@.len(),
                untrusted_sorted_ips@ == sorted_ips@.take(i as int).filter(is_untrusted(self@)),
            decreases sorted_ips@.len() - i,
        {
            let ip = sorted_ips[i];
            proof {
                sorted_ips@.take(i as int).lemma_filter_push(ip, is_untrusted(self@));
                assert(sorted_ips@.take(i + 1) =~= sorted_ips@.take(i as int).push(ip));
            }
            if !self.contains(&ip) {
                untrusted_sorted_ips.push(ip);
            }
            i = i + 1;
        }
        assert(sorted_ips@.take(i as int) =~= sorted_ips@);
        untrusted_sorted_ips
    }
}

} // verus!
