//! Client address resolution behind an optional reverse proxy.
//!
//! Addresses are modelled by their family (4 or 6) and the unsigned number
//! they denote: the 32-bit or 128-bit big-endian reading of their octets or
//! segments.
use vstd::prelude::*;
use vstd::arithmetic::power2::pow2;
use crate::text::{append_decimal, chars_of, decimal_text, index_of, trim, trim_bounds};

verus! {

/// An IP address: four octets, or eight 16-bit segments.
#[derive(Clone, Copy, Debug, PartialEq, Eq)]
pub enum IpAddress {
    V4([u8; 4]),
    V6([u16; 8]),
}

/// The 32-bit number denoted by four octets.
pub open spec fn v4_value(o: Seq<u8>) -> nat {
    o[0] as nat * 0x100_0000 + o[1] as nat * 0x1_0000 + o[2] as nat * 0x100 + o[3] as nat
}

/// The upper six segments of an IPv6 address, read as one number.
pub open spec fn v6_high(s: Seq<u16>) -> nat {
    s[0] as nat * 0x1_0000_0000_0000_0000_0000 + s[1] as nat * 0x1_0000_0000_0000_0000
        + s[2] as nat * 0x1_0000_0000_0000 + s[3] as nat * 0x1_0000_0000 + s[4] as nat
        * 0x1_0000 + s[5] as nat
}

/// The 128-bit number denoted by eight segments.
pub open spec fn v6_value(s: Seq<u16>) -> nat {
    v6_high(s) * 0x1_0000_0000 + s[6] as nat * 0x1_0000 + s[7] as nat
}

impl View for IpAddress {
    /// The family (4 or 6) and the number the address denotes.
    type V = (nat, nat);

    open spec fn view(&self) -> (nat, nat) {
        match self {
            IpAddress::V4(o) => (4, v4_value(o@)),
            IpAddress::V6(s) => (6, v6_value(s@)),
        }
    }
}

/// Number of bits in an address of the given family.
pub open spec fn family_width(family: nat) -> nat {
    if family == 4 {
        32
    } else {
        128
    }
}

/// An IPv6 address of the form `::ffff:a.b.c.d` stands for the IPv4
/// address `a.b.c.d`; every other address stands for itself.
pub open spec fn normalized(ip: (nat, nat)) -> (nat, nat) {
    if ip.0 == 6 && ip.1 / 0x1_0000_0000 == 0xffff {
        (4, ip.1 % 0x1_0000_0000)
    } else {
        ip
    }
}

/// Four octets read as one number stay below `2^32`.
proof fn lemma_v4_value_bound(o: Seq<u8>)
    requires
        o.len() == 4,
    ensures
        v4_value(o) < 0x1_0000_0000,
{
}

/// Eight segments read as one number stay below `2^128`.
proof fn lemma_v6_value_bound(s: Seq<u16>)
    requires
        s.len() == 8,
    ensures
        v6_high(s) < 0x1_0000_0000_0000_0000_0000_0000,
        v6_value(s) < 0x1_0000_0000_0000_0000_0000_0000_0000_0000,
        v6_value(s) / 0x1_0000_0000 == v6_high(s),
        v6_value(s) % 0x1_0000_0000 == s[6] as nat * 0x1_0000 + s[7] as nat,
{
    let low = s[6] as nat * 0x1_0000 + s[7] as nat;
    assert(low < 0x1_0000_0000);
    vstd::arithmetic::div_mod::lemma_fundamental_div_mod_converse(
        v6_value(s) as int,
        0x1_0000_0000,
        v6_high(s) as int,
        low as int,
    );
}

/// The IPv4 address that an IPv4-mapped IPv6 address stands for; any
/// other address is returned as it is.
pub fn normalize_ip(ip: IpAddress) -> (r: IpAddress)
    ensures
        r@ == normalized(ip@),
{
    match ip {
        IpAddress::V4(_) => ip,
        IpAddress::V6(s) => {
            proof {
                lemma_v6_value_bound(s@);
            }
            if s[0] == 0 && s[1] == 0 && s[2] == 0 && s[3] == 0 && s[4] == 0 && s[5] == 0xffff {
                let o: [u8; 4] = [
                    (s[6] / 256) as u8,
                    (s[6] % 256) as u8,
                    (s[7] / 256) as u8,
                    (s[7] % 256) as u8,
                ];
                assert(v4_value(o@) == s[6] as nat * 0x1_0000 + s[7] as nat);
                IpAddress::V4(o)
            } else {
                assert(v6_high(s@) != 0xffff);
                ip
            }
        },
    }
}

/// The number denoted by four octets.
fn v4_number(o: [u8; 4]) -> (r: u32)
    ensures
        r == v4_value(o@),
{
    (o[0] as u32) * 0x100_0000 + (o[1] as u32) * 0x1_0000 + (o[2] as u32) * 0x100 + (o[3] as u32)
}

/// The number denoted by eight segments.
fn v6_number(s: [u16; 8]) -> (r: u128)
    ensures
        r == v6_value(s@),
{
    proof {
        lemma_v6_value_bound(s@);
    }
    (s[0] as u128) * 0x1_0000_0000_0000_0000_0000_0000_0000 + (s[1] as u128)
        * 0x1_0000_0000_0000_0000_0000_0000 + (s[2] as u128) * 0x1_0000_0000_0000_0000_0000
        + (s[3] as u128) * 0x1_0000_0000_0000_0000 + (s[4] as u128) * 0x1_0000_0000_0000
        + (s[5] as u128) * 0x1_0000_0000 + (s[6] as u128) * 0x1_0000 + (s[7] as u128)
}

/// A network given by an address and a prefix length, such as
/// `10.0.0.0/8`. The prefix length never exceeds the address width.
#[derive(Clone, Copy, Debug)]
pub struct TrustedNet {
    addr: IpAddress,
    prefix_len: u8,
}

/// Whether `ip` lies in the network of `addr` with `prefix_len` leading
/// bits: same family, and the same leading `prefix_len` bits.
pub open spec fn in_network(addr: (nat, nat), prefix_len: nat, ip: (nat, nat)) -> bool {
    let host_bits = (family_width(addr.0) - prefix_len) as nat;
    &&& addr.0 == ip.0
    &&& ip.1 / pow2(host_bits) == addr.1 / pow2(host_bits)
}

impl TrustedNet {
    #[verifier::type_invariant]
    spec fn prefix_fits(self) -> bool {
        self.prefix_len <= family_width(self.addr@.0)
    }

    /// The network's base address.
    pub closed spec fn spec_addr(self) -> IpAddress {
        self.addr
    }

    /// The network's prefix length.
    pub closed spec fn spec_prefix_len(self) -> nat {
        self.prefix_len as nat
    }

    /// Whether `ip` lies in this network.
    pub open spec fn holds(self, ip: (nat, nat)) -> bool {
        in_network(self.spec_addr()@, self.spec_prefix_len(), ip)
    }

    /// The network `addr/prefix_len`, or `None` when the prefix is longer
    /// than the address (32 bits for IPv4, 128 for IPv6).
    pub fn new(addr: IpAddress, prefix_len: u8) -> (r: Option<TrustedNet>)
        ensures
            r is Some <==> prefix_len <= family_width(addr@.0),
            r matches Some(n) ==> n.spec_addr() == addr && n.spec_prefix_len() == prefix_len,
    {
        let width: u8 = match addr {
            IpAddress::V4(_) => 32,
            IpAddress::V6(_) => 128,
        };
        if prefix_len <= width {
            Some(TrustedNet { addr, prefix_len })
        } else {
            None
        }
    }

    /// The network's base address.
    pub fn addr(&self) -> (r: IpAddress)
        ensures
            r == self.spec_addr(),
    {
        self.addr
    }

    /// The network's prefix length.
    pub fn prefix_len(&self) -> (r: u8)
        ensures
            r == self.spec_prefix_len(),
    {
        self.prefix_len
    }

    /// Whether `ip` lies in this network.
    pub fn contains(&self, ip: IpAddress) -> (r: bool)
        ensures
            r == self.holds(ip@),
    {
        proof {
            use_type_invariant(self);
            vstd::arithmetic::power2::lemma2_to64();
            vstd::arithmetic::power2::lemma_pow2_adds(64, 64);
        }
        match (self.addr, ip) {
            (IpAddress::V4(a), IpAddress::V4(b)) => {
                let x = v4_number(a);
                let y = v4_number(b);
                if self.prefix_len == 0 {
                    proof {
                        lemma_v4_value_bound(a@);
                        lemma_v4_value_bound(b@);
                        assert(pow2(32) == 0x1_0000_0000);
                        assert(v4_value(a@) / pow2(32) == 0);
                        assert(v4_value(b@) / pow2(32) == 0);
                    }
                    true
                } else {
                    let shift: u32 = 32 - self.prefix_len as u32;
                    proof {
                        vstd::bits::lemma_u32_shr_is_div(x, shift);
                        vstd::bits::lemma_u32_shr_is_div(y, shift);
                    }
                    (x >> shift) == (y >> shift)
                }
            },
            (IpAddress::V6(a), IpAddress::V6(b)) => {
                let x = v6_number(a);
                let y = v6_number(b);
                if self.prefix_len == 0 {
                    proof {
                        lemma_v6_value_bound(a@);
                        lemma_v6_value_bound(b@);
                    }
                    true
                } else {
                    let shift: u128 = 128 - self.prefix_len as u128;
                    proof {
                        vstd::bits::lemma_u128_shr_is_div(x, shift);
                        vstd::bits::lemma_u128_shr_is_div(y, shift);
                    }
                    (x >> shift) == (y >> shift)
                }
            },
            _ => false,
        }
    }
}

/// The view of an optional address.
pub open spec fn address_view(a: Option<IpAddress>) -> Option<(nat, nat)> {
    match a {
        Some(x) => Some(x@),
        None => None,
    }
}

/// Whether some network of `nets` holds `ip`.
pub open spec fn some_net_holds(nets: Seq<TrustedNet>, ip: (nat, nat)) -> bool {
    exists|i: int| 0 <= i < nets.len() && #[trigger] nets[i].holds(ip)
}

/// The client address of a request: the socket's address, unless the
/// server trusts a proxy and the request names a forwarded client. The
/// forwarded client is taken when no proxy list is configured, or when the
/// socket's address lies in one of the listed networks. Both addresses are
/// normalized.
pub open spec fn resolved_client(
    socket: (nat, nat),
    trust_proxy: bool,
    forwarded: Option<(nat, nat)>,
    trusted: Seq<TrustedNet>,
) -> (nat, nat) {
    let s = normalized(socket);
    match forwarded {
        Some(f) => if trust_proxy && (trusted.len() == 0 || some_net_holds(trusted, s)) {
            normalized(f)
        } else {
            s
        },
        None => s,
    }
}

/// The address of the client behind a request. `socket` is the address of
/// the connecting peer, `forwarded` the address read from the first entry
/// of `X-Forwarded-For` (`None` when the header is absent or that entry is
/// not an address), `trusted` the configured proxy networks.
pub fn get_client_ip(
    socket: IpAddress,
    trust_proxy: bool,
    forwarded: Option<IpAddress>,
    trusted: &Vec<TrustedNet>,
) -> (r: IpAddress)
    ensures
        r@ == resolved_client(socket@, trust_proxy, address_view(forwarded), trusted@),
{
    let socket_ip = normalize_ip(socket);
    if !trust_proxy {
        return socket_ip;
    }
    let f = match forwarded {
        Some(f) => f,
        None => return socket_ip,
    };
    if trusted.len() == 0 || any_net_holds(trusted, socket_ip) {
        normalize_ip(f)
    } else {
        socket_ip
    }
}

/// Whether some network of `nets` holds `ip`.
pub fn any_net_holds(nets: &Vec<TrustedNet>, ip: IpAddress) -> (r: bool)
    ensures
        r == some_net_holds(nets@, ip@),
        forall|k: int| 0 <= k < nets@.len() && (#[trigger] nets@[k]).holds(ip@) ==> r,
        r ==> exists|k: int| 0 <= k < nets@.len() && (#[trigger] nets@[k]).holds(ip@),
{
    let mut i: usize = 0;
    while i < nets.len()
        invariant
            i <= nets.len(),
            forall|j: int| 0 <= j < i ==> !(#[trigger] nets@[j]).holds(ip@),
        decreases nets.len() - i,
    {
        if nets[i].contains(ip) {
            return true;
        }
        i = i + 1;
    }
    false
}

/// Normalizing twice gives what normalizing once gives.
pub proof fn law_normalize_idempotent(ip: (nat, nat))
    ensures
        normalized(normalized(ip)) == normalized(ip),
{
}

/// A request may name its own client only through a trusted proxy: when
/// the server does not trust proxies, or a proxy list is configured and the
/// socket lies in none of its networks, the client is the socket's own
/// (normalized) address, whatever the forwarded header says.
pub proof fn law_forwarded_needs_trusted_socket(
    socket: (nat, nat),
    trust_proxy: bool,
    forwarded: Option<(nat, nat)>,
    trusted: Seq<TrustedNet>,
)
    requires
        !trust_proxy || (trusted.len() > 0 && !some_net_holds(trusted, normalized(socket))),
    ensures
        resolved_client(socket, trust_proxy, forwarded, trusted) == normalized(socket),
{
}

/// Every listed network counts: when the socket lies in any one of them (at
/// any position of the list), a trusting server takes the forwarded client;
/// when it lies in none of a non-empty list, the socket's own address.
pub proof fn law_any_listed_network_trusts_the_socket(
    socket: (nat, nat),
    forwarded: (nat, nat),
    trusted: Seq<TrustedNet>,
    k: int,
)
    ensures
        0 <= k < trusted.len() && trusted[k].holds(normalized(socket)) ==> resolved_client(
            socket,
            true,
            Some(forwarded),
            trusted,
        ) == normalized(forwarded),
        trusted.len() > 0 && (forall|j: int|
            0 <= j < trusted.len() ==> !(#[trigger] trusted[j]).holds(normalized(socket)))
            ==> resolved_client(socket, true, Some(forwarded), trusted) == normalized(socket),
{
}

/// The first entry of an `X-Forwarded-For` value: the text before the
/// first comma (or all of it), with surrounding white space removed.
pub open spec fn first_entry(header: Seq<char>) -> Seq<char> {
    trim(header.take(index_of(header, ',') as int))
}

/// The first entry of an `X-Forwarded-For` header value, trimmed.
pub fn first_forwarded_entry(header: &str) -> (r: String)
    ensures
        r@ == first_entry(header@),
{
    let v = chars_of(header);
    let mut k: usize = 0;
    while k < v.len() && v[k] != ','
        invariant
            k <= v.len(),
            v@ == header@,
            forall|j: int| 0 <= j < k ==> v@[j] != ',',
        decreases v.len() - k,
    {
        k = k + 1;
    }
    proof {
        lemma_first_comma(v@, k as int);
    }
    let head = header.substring_char(0, k);
    let hv = chars_of(head);
    assert(hv@ =~= header@.take(k as int));
    let (a, b) = trim_bounds(&hv);
    String::from_str(head.substring_char(a, b))
}

/// `k` is the index of the first comma of `s` when none comes before it and
/// one stands at `k` (or `k` is the end).
proof fn lemma_first_comma(s: Seq<char>, k: int)
    requires
        0 <= k <= s.len(),
        forall|j: int| 0 <= j < k ==> s[j] != ',',
        k < s.len() ==> s[k] == ',',
    ensures
        index_of(s, ',') == k,
    decreases k,
{
    if k > 0 {
        lemma_first_comma(s.drop_first(), k - 1);
    }
}

/// Dotted-decimal writing of four octets, such as `10.0.0.1`.
pub open spec fn dotted_quad(o: Seq<u8>) -> Seq<char> {
    decimal_text(o[0] as nat) + "."@ + decimal_text(o[1] as nat) + "."@ + decimal_text(
        o[2] as nat,
    ) + "."@ + decimal_text(o[3] as nat)
}

/// The dotted-decimal writing of an IPv4 address.
pub fn ipv4_text(o: [u8; 4]) -> (r: String)
    ensures
        r@ == dotted_quad(o@),
{
    let mut out = String::new();
    append_decimal(&mut out, o[0] as u64);
    out.append(".");
    append_decimal(&mut out, o[1] as u64);
    out.append(".");
    append_decimal(&mut out, o[2] as u64);
    out.append(".");
    append_decimal(&mut out, o[3] as u64);
    assert(out@ =~= dotted_quad(o@));
    out
}

} // verus!
