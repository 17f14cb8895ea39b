//! Guard for URLs that server-side code is about to send a request to on a
//! caller's behalf: the scheme must be `https` and every address the host
//! stands for must be public.

use vstd::prelude::*;
use crate::text::text_eq;

verus! {

/// An IP address as plain values: the four octets of an IPv4 address or
/// the eight 16-bit segments of an IPv6 address.
#[derive(Clone, Copy, Debug, PartialEq, Eq)]
pub enum IpAddress {
    V4([u8; 4]),
    V6([u16; 8]),
}

/// RFC 1918 private ranges: 10/8, 172.16/12, 192.168/16.
pub open spec fn v4_private(o: [u8; 4]) -> bool {
    o[0] == 10 || (o[0] == 172 && 16 <= o[1] <= 31) || (o[0] == 192 && o[1] == 168)
}

/// 127/8.
pub open spec fn v4_loopback(o: [u8; 4]) -> bool {
    o[0] == 127
}

/// 169.254/16.
pub open spec fn v4_link_local(o: [u8; 4]) -> bool {
    o[0] == 169 && o[1] == 254
}

/// 224/4.
pub open spec fn v4_multicast(o: [u8; 4]) -> bool {
    224 <= o[0] <= 239
}

/// 255.255.255.255.
pub open spec fn v4_broadcast(o: [u8; 4]) -> bool {
    o[0] == 255 && o[1] == 255 && o[2] == 255 && o[3] == 255
}

/// 0.0.0.0.
pub open spec fn v4_unspecified(o: [u8; 4]) -> bool {
    o[0] == 0 && o[1] == 0 && o[2] == 0 && o[3] == 0
}

/// 192.0.2/24, 198.51.100/24, 203.0.113/24.
pub open spec fn v4_documentation(o: [u8; 4]) -> bool {
    (o[0] == 192 && o[1] == 0 && o[2] == 2) || (o[0] == 198 && o[1] == 51 && o[2] == 100) || (o[0]
        == 203 && o[1] == 0 && o[2] == 113)
}

/// 100.64/10 (RFC 6598 shared address space).
pub open spec fn v4_carrier_grade_nat(o: [u8; 4]) -> bool {
    o[0] == 100 && 64 <= o[1] <= 127
}

/// An IPv4 address in one of the non-public ranges.
pub open spec fn v4_disallowed(o: [u8; 4]) -> bool {
    v4_private(o) || v4_loopback(o) || v4_link_local(o) || v4_multicast(o) || v4_broadcast(o)
        || v4_unspecified(o) || v4_documentation(o) || v4_carrier_grade_nat(o)
}

/// The IPv4 address that `::ffff:a.b.c.d` carries, if the IPv6 address has
/// that form.
pub open spec fn v6_to_v4_mapped(s: [u16; 8]) -> Option<[u8; 4]> {
    if s[0] == 0 && s[1] == 0 && s[2] == 0 && s[3] == 0 && s[4] == 0 && s[5] == 0xffff {
        Some([(s[6] / 256) as u8, (s[6] % 256) as u8, (s[7] / 256) as u8, (s[7] % 256) as u8])
    } else {
        None
    }
}

/// The IPv4-mapped IPv6 form `::ffff:a.b.c.d` of an IPv4 address.
pub open spec fn v4_to_v6_mapped(o: [u8; 4]) -> [u16; 8] {
    [0u16, 0, 0, 0, 0, 0xffff, (o[0] * 256 + o[1]) as u16, (o[2] * 256 + o[3]) as u16]
}

/// `::1`.
pub open spec fn v6_loopback(s: [u16; 8]) -> bool {
    s[0] == 0 && s[1] == 0 && s[2] == 0 && s[3] == 0 && s[4] == 0 && s[5] == 0 && s[6] == 0 && s[7] == 1
}

/// `::`.
pub open spec fn v6_unspecified(s: [u16; 8]) -> bool {
    s[0] == 0 && s[1] == 0 && s[2] == 0 && s[3] == 0 && s[4] == 0 && s[5] == 0 && s[6] == 0 && s[7] == 0
}

/// ff00::/8.
pub open spec fn v6_multicast(s: [u16; 8]) -> bool {
    s[0] >= 0xff00
}

/// fc00::/7 (RFC 4193 unique local addresses).
pub open spec fn v6_unique_local(s: [u16; 8]) -> bool {
    0xfc00 <= s[0] <= 0xfdff
}

/// fe80::/10 (RFC 4291 link-local).
pub open spec fn v6_link_local(s: [u16; 8]) -> bool {
    0xfe80 <= s[0] <= 0xfebf
}

/// An address that an outbound request must never be sent to. An
/// IPv4-mapped IPv6 address is judged by the IPv4 rules.
pub open spec fn disallowed(addr: IpAddress) -> bool {
    match addr {
        IpAddress::V4(o) => v4_disallowed(o),
        IpAddress::V6(s) => match v6_to_v4_mapped(s) {
            Some(o) => v4_disallowed(o),
            None => v6_loopback(s) || v6_unspecified(s) || v6_multicast(s) || v6_unique_local(s)
                || v6_link_local(s),
        },
    }
}

fn is_disallowed_ipv4(o: [u8; 4]) -> (r: bool)
    ensures
        r == v4_disallowed(o),
{
    let (a, b, c, d) = (o[0], o[1], o[2], o[3]);
    let private = a == 10 || (a == 172 && 16 <= b && b <= 31) || (a == 192 && b == 168);
    let loopback = a == 127;
    let link_local = a == 169 && b == 254;
    let multicast = 224 <= a && a <= 239;
    let broadcast = a == 255 && b == 255 && c == 255 && d == 255;
    let unspecified = a == 0 && b == 0 && c == 0 && d == 0;
    let documentation = (a == 192 && b == 0 && c == 2) || (a == 198 && b == 51 && c == 100) || (a
        == 203 && b == 0 && c == 113);
    private || loopback || link_local || multicast || broadcast || unspecified || documentation
        || is_carrier_grade_nat_v4(o)
}

/// 100.64.0.0/10, which std's `Ipv4Addr` has no stable check for.
fn is_carrier_grade_nat_v4(o: [u8; 4]) -> (r: bool)
    ensures
        r == v4_carrier_grade_nat(o),
{
    o[0] == 100 && 64 <= o[1] && o[1] <= 127
}

/// fc00::/7.
fn is_unique_local_v6(s: [u16; 8]) -> (r: bool)
    ensures
        r == v6_unique_local(s),
{
    0xfc00 <= s[0] && s[0] <= 0xfdff
}

/// fe80::/10.
fn is_link_local_v6(s: [u16; 8]) -> (r: bool)
    ensures
        r == v6_link_local(s),
{
    0xfe80 <= s[0] && s[0] <= 0xfebf
}

/// The IPv4 address carried by an IPv4-mapped IPv6 address.
pub fn to_ipv4_mapped(s: [u16; 8]) -> (r: Option<[u8; 4]>)
    ensures
        r == v6_to_v4_mapped(s),
{
    if s[0] == 0 && s[1] == 0 && s[2] == 0 && s[3] == 0 && s[4] == 0 && s[5] == 0xffff {
        let r = [(s[6] / 256) as u8, (s[6] % 256) as u8, (s[7] / 256) as u8, (s[7] % 256) as u8];
        assert(r@ =~= [(s[6] / 256) as u8, (s[6] % 256) as u8, (s[7] / 256) as u8, (s[7] % 256) as u8]@);
        Some(r)
    } else {
        None
    }
}

/// The IPv4-mapped IPv6 form `::ffff:a.b.c.d` of an IPv4 address.
pub fn to_ipv6_mapped(o: [u8; 4]) -> (r: [u16; 8])
    ensures
        r == v4_to_v6_mapped(o),
{
    let hi = (o[0] as u16) * 256 + (o[1] as u16);
    let lo = (o[2] as u16) * 256 + (o[3] as u16);
    let r = [0u16, 0, 0, 0, 0, 0xffff, hi, lo];
    assert(r@ =~= v4_to_v6_mapped(o)@);
    r
}

/// Whether an outbound request to `addr` must be refused: private,
/// loopback, link-local, multicast, broadcast, unspecified, documentation
/// and shared (100.64/10) IPv4 ranges; IPv6 loopback, unspecified,
/// multicast, unique-local and link-local; an IPv4-mapped IPv6 address by
/// the IPv4 rules.
pub fn is_disallowed_ip(addr: IpAddress) -> (r: bool)
    ensures
        r == disallowed(addr),
{
    match addr {
        IpAddress::V4(o) => is_disallowed_ipv4(o),
        IpAddress::V6(s) => match to_ipv4_mapped(s) {
            Some(o) => is_disallowed_ipv4(o),
            None => {
                let loopback = s[0] == 0 && s[1] == 0 && s[2] == 0 && s[3] == 0 && s[4] == 0 && s[5]
                    == 0 && s[6] == 0 && s[7] == 1;
                let unspecified = s[0] == 0 && s[1] == 0 && s[2] == 0 && s[3] == 0 && s[4] == 0
                    && s[5] == 0 && s[6] == 0 && s[7] == 0;
                let multicast = s[0] >= 0xff00;
                loopback || unspecified || multicast || is_unique_local_v6(s) || is_link_local_v6(s)
            },
        },
    }
}

/// Lemma: a byte pair packed into a 16-bit segment unpacks to itself.
proof fn lemma_pack_unpack(hi: u8, lo: u8)
    ensures
        ((hi * 256 + lo) as u16) / 256 == hi,
        ((hi * 256 + lo) as u16) % 256 == lo,
{
    assert(0 <= hi * 256 + lo <= 65535) by (nonlinear_arith)
        requires
            hi < 256,
            lo < 256,
    ;
    assert((hi * 256 + lo) / 256 == hi && (hi * 256 + lo) % 256 == lo) by (nonlinear_arith)
        requires
            0 <= hi < 256,
            0 <= lo < 256,
    ;
}

/// Law: an IPv4 address written in its IPv4-mapped IPv6 form is judged
/// exactly as the IPv4 address itself.
pub proof fn law_ipv4_mapped_judged_as_ipv4(o: [u8; 4])
    ensures
        v6_to_v4_mapped(v4_to_v6_mapped(o)) == Some(o),
        disallowed(IpAddress::V6(v4_to_v6_mapped(o))) == disallowed(IpAddress::V4(o)),
{
    lemma_pack_unpack(o[0], o[1]);
    lemma_pack_unpack(o[2], o[3]);
    let m = v6_to_v4_mapped(v4_to_v6_mapped(o)).unwrap();
    assert(m@ =~= o@);
}

/// The host of a parsed URL, as plain values.
pub enum UrlHost {
    Domain(String),
    Ipv4([u8; 4]),
    Ipv6([u16; 8]),
}

/// Mathematical model of a [`UrlHost`].
pub enum HostView {
    Domain(Seq<char>),
    Ipv4([u8; 4]),
    Ipv6([u16; 8]),
}

impl View for UrlHost {
    type V = HostView;

    open spec fn view(&self) -> HostView {
        match self {
            UrlHost::Domain(d) => HostView::Domain(d@),
            UrlHost::Ipv4(o) => HostView::Ipv4(*o),
            UrlHost::Ipv6(s) => HostView::Ipv6(*s),
        }
    }
}

/// The parts of a parsed URL that the guard reads: scheme, host, and the
/// port (explicit, or the scheme's known default).
pub struct ParsedUrl {
    pub scheme: String,
    pub host: Option<UrlHost>,
    pub port: Option<u16>,
}

/// Mathematical model of a [`ParsedUrl`].
pub struct ParsedUrlView {
    pub scheme: Seq<char>,
    pub host: Option<HostView>,
    pub port: Option<u16>,
}

impl View for ParsedUrl {
    type V = ParsedUrlView;

    open spec fn view(&self) -> ParsedUrlView {
        ParsedUrlView {
            scheme: self.scheme@,
            host: match self.host {
                Some(h) => Some(h@),
                None => None,
            },
            port: self.port,
        }
    }
}

/// The model of an optional parsed URL.
pub open spec fn parsed_view(p: Option<ParsedUrl>) -> Option<ParsedUrlView> {
    match p {
        Some(u) => Some(u@),
        None => None,
    }
}

/// What `url::Url::parse` yields for this input (`None` when it refuses
/// it): WHATWG URL parsing, which the contract names and does not spell
/// out.
pub uninterp spec fn parsed_url(input: Seq<char>) -> Option<ParsedUrlView>;

/// Calls `url::Url::parse` and reads the scheme, the host and
/// `port_or_known_default` of the result. Claims only that the result is
/// a function of the input, named `parsed_url`.
#[verifier::external_body]
fn parse_url(input: &str) -> (r: Option<ParsedUrl>)
    ensures
        parsed_view(r) == parsed_url(input@),
{
    let u = url::Url::parse(input).ok()?;
    let host = match u.host() {
        Some(url::Host::Domain(d)) => Some(UrlHost::Domain(d.to_string())),
        Some(url::Host::Ipv4(a)) => Some(UrlHost::Ipv4(a.octets())),
        Some(url::Host::Ipv6(a)) => Some(UrlHost::Ipv6(a.segments())),
        None => None,
    };
    Some(ParsedUrl { scheme: u.scheme().to_string(), host, port: u.port_or_known_default() })
}

/// Where an outbound request would go: an address written in the URL
/// itself, or a domain name (with port) still to be resolved.
pub enum OutboundTarget {
    Address(IpAddress),
    Domain { name: String, port: u16 },
}

/// Mathematical model of an [`OutboundTarget`].
pub enum TargetView {
    Address(IpAddress),
    Domain { name: Seq<char>, port: u16 },
}

impl View for OutboundTarget {
    type V = TargetView;

    open spec fn view(&self) -> TargetView {
        match self {
            OutboundTarget::Address(a) => TargetView::Address(*a),
            OutboundTarget::Domain { name, port } => TargetView::Domain { name: name@, port: *port },
        }
    }
}

/// The model of the guard's answer.
pub open spec fn target_result_view(r: Result<OutboundTarget, String>) -> Result<TargetView, Seq<char>> {
    match r {
        Ok(t) => Ok(t@),
        Err(e) => Err(e@),
    }
}

/// The guard's verdict on a parsed URL: refused unless it parsed, uses
/// `https` and has a host; an IP-literal host is the address itself, a
/// domain host is to be resolved at the URL's port (443 when none is
/// known).
pub open spec fn target_of(p: Option<ParsedUrlView>) -> Result<TargetView, Seq<char>> {
    match p {
        None => Err("endpoint must be a valid URL"@),
        Some(u) => if u.scheme != "https"@ {
            Err("endpoint must use https"@)
        } else {
            match u.host {
                None => Err("endpoint must have a host"@),
                Some(HostView::Ipv4(o)) => Ok(TargetView::Address(IpAddress::V4(o))),
                Some(HostView::Ipv6(s)) => Ok(TargetView::Address(IpAddress::V6(s))),
                Some(HostView::Domain(d)) => Ok(
                    TargetView::Domain {
                        name: d,
                        port: match u.port {
                            Some(p) => p,
                            None => 443,
                        },
                    },
                ),
            }
        },
    }
}

/// Applies the guard's scheme and host rules to an already parsed URL.
pub fn target_of_parsed(parsed: Option<ParsedUrl>) -> (r: Result<OutboundTarget, String>)
    ensures
        target_result_view(r) == target_of(parsed_view(parsed)),
{
    match parsed {
        None => Err(String::from_str("endpoint must be a valid URL")),
        Some(u) => {
            if !text_eq(u.scheme.as_str(), "https") {
                return Err(String::from_str("endpoint must use https"));
            }
            match u.host {
                None => Err(String::from_str("endpoint must have a host")),
                Some(UrlHost::Ipv4(o)) => Ok(OutboundTarget::Address(IpAddress::V4(o))),
                Some(UrlHost::Ipv6(s)) => Ok(OutboundTarget::Address(IpAddress::V6(s))),
                Some(UrlHost::Domain(d)) => {
                    let port = match u.port {
                        Some(p) => p,
                        None => 443,
                    };
                    Ok(OutboundTarget::Domain { name: d, port })
                },
            }
        },
    }
}

/// Parses `url` and applies the guard's scheme and host rules: where a
/// request to it would go, or why it is refused.
pub fn outbound_target(url: &str) -> (r: Result<OutboundTarget, String>)
    ensures
        target_result_view(r) == target_of(parsed_url(url@)),
{
    let parsed = parse_url(url);
    target_of_parsed(parsed)
}

/// The guard's verdict on the addresses a host stands for: refused when
/// there are none or when any of them is disallowed.
pub open spec fn addresses_verdict(addrs: Seq<IpAddress>) -> Result<(), Seq<char>> {
    if addrs.len() == 0 {
        Err("endpoint host does not resolve"@)
    } else if exists|i: int| 0 <= i < addrs.len() && #[trigger] disallowed(addrs[i]) {
        Err("endpoint host resolves to a disallowed address"@)
    } else {
        Ok(())
    }
}

/// Checks every address the target host stands for.
pub fn check_resolved_addresses(addrs: &Vec<IpAddress>) -> (r: Result<(), String>)
    ensures
        match r {
            Ok(()) => addresses_verdict(addrs@) == Ok::<(), Seq<char>>(()),
            Err(e) => addresses_verdict(addrs@) == Err::<(), Seq<char>>(e@),
        },
{
    if addrs.len() == 0 {
        return Err(String::from_str("endpoint host does not resolve"));
    }
    let mut i: usize = 0;
    while i < addrs.len()
        invariant
            i <= addrs@.len(),
            addrs@.len() > 0,
            forall|j: int| 0 <= j < i ==> !#[trigger] disallowed(addrs@[j]),
        decreases addrs@.len() - i,
    {
        if is_disallowed_ip(addrs[i]) {
            return Err(String::from_str("endpoint host resolves to a disallowed address"));
        }
        i = i + 1;
    }
    Ok(())
}

/// Law: the IPv4 addresses refused are exactly those of the private ranges
/// 10/8, 172.16/12 (172.16.x.x to 172.31.x.x) and 192.168/16, loopback
/// 127/8, link-local 169.254/16, multicast 224/4, the broadcast and
/// unspecified addresses, the documentation ranges 192.0.2/24,
/// 198.51.100/24 and 203.0.113/24, and the shared range 100.64/10.
pub proof fn law_ipv4_refused_ranges(a: u8, b: u8, c: u8, d: u8)
    ensures
        disallowed(IpAddress::V4([a, b, c, d])) <==> (a == 10 || (a == 172 && 16 <= b && b <= 31) || (a == 192
            && b == 168) || a == 127 || (a == 169 && b == 254) || (224 <= a && a <= 239) || (a == 255 && b
            == 255 && c == 255 && d == 255) || (a == 0 && b == 0 && c == 0 && d == 0) || (a == 192 && b == 0
            && c == 2) || (a == 198 && b == 51 && c == 100) || (a == 203 && b == 0 && c == 113) || (a == 100
            && 64 <= b && b <= 127)),
{
}

/// Law: an IPv6 address that is not IPv4-mapped is refused exactly when it
/// is `::1`, `::`, in ff00::/8, in fc00::/7 or in fe80::/10.
pub proof fn law_ipv6_refused_ranges(s: [u16; 8])
    ensures
        !(s[0] == 0 && s[1] == 0 && s[2] == 0 && s[3] == 0 && s[4] == 0 && s[5] == 0xffff) ==> (disallowed(
            IpAddress::V6(s),
        ) <==> ((s[0] == 0 && s[1] == 0 && s[2] == 0 && s[3] == 0 && s[4] == 0 && s[5] == 0 && s[6] == 0
            && (s[7] == 0 || s[7] == 1)) || s[0] >= 0xff00 || (0xfc00 <= s[0] && s[0] <= 0xfdff) || (0xfe80
            <= s[0] && s[0] <= 0xfebf))),
{
}

/// Law: a host is refused as disallowed when any one of its addresses, at
/// any position, is disallowed; it is accepted when it has addresses and
/// none of them is; and the verdict does not depend on the order (or the
/// repetition) of the addresses.
pub proof fn law_any_disallowed_address_refuses_the_host(addrs: Seq<IpAddress>, other: Seq<IpAddress>, i: int)
    ensures
        0 <= i < addrs.len() && disallowed(addrs[i]) ==> addresses_verdict(addrs) == Err::<(), Seq<char>>(
            "endpoint host resolves to a disallowed address"@,
        ),
        addrs.len() > 0 && (forall|j: int| 0 <= j < addrs.len() ==> !#[trigger] disallowed(addrs[j]))
            ==> addresses_verdict(addrs) == Ok::<(), Seq<char>>(()),
        (forall|x: IpAddress| addrs.contains(x) <==> other.contains(x)) ==> addresses_verdict(addrs)
            == addresses_verdict(other),
{
    if forall|x: IpAddress| addrs.contains(x) <==> other.contains(x) {
        if addrs.len() > 0 {
            assert(other.contains(addrs[0]));
        }
        if other.len() > 0 {
            assert(addrs.contains(other[0]));
        }
        if exists|j: int| 0 <= j < addrs.len() && #[trigger] disallowed(addrs[j]) {
            let j = choose|j: int| 0 <= j < addrs.len() && #[trigger] disallowed(addrs[j]);
            assert(addrs.contains(addrs[j]));
            let k = choose|k: int| 0 <= k < other.len() && other[k] == addrs[j];
            assert(disallowed(other[k]));
        }
        if exists|j: int| 0 <= j < other.len() && #[trigger] disallowed(other[j]) {
            let j = choose|j: int| 0 <= j < other.len() && #[trigger] disallowed(other[j]);
            assert(other.contains(other[j]));
            let k = choose|k: int| 0 <= k < addrs.len() && addrs[k] == other[j];
            assert(disallowed(addrs[k]));
        }
    }
}

} // verus!

