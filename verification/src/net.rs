//! Network destinations: which addresses a feed may be fetched from, which
//! HTTP responses a feed may answer with, and which hop of
//! `X-Forwarded-For` names the client.
use vstd::prelude::*;
use crate::text::{chars_of, split_char, split_on, string_of, trim, trim_ws, seqs_of};

verus! {

/// An IP address, by its octets or its eight 16-bit segments.
#[derive(Clone, Copy, Debug, PartialEq, Eq, Structural)]
pub enum IpAddress {
    V4(u8, u8, u8, u8),
    V6(u16, u16, u16, u16, u16, u16, u16, u16),
}

/// The IPv4 ranges that `Ipv4Addr::is_private`, `is_loopback`,
/// `is_link_local`, `is_broadcast`, `is_unspecified`, `is_multicast` and
/// `is_documentation` accept.
pub open spec fn forbidden_v4(a: u8, b: u8, c: u8, d: u8) -> bool {
    ||| a == 10
    ||| a == 172 && 16 <= b <= 31
    ||| a == 192 && b == 168
    ||| a == 127
    ||| a == 169 && b == 254
    ||| a == 255 && b == 255 && c == 255 && d == 255
    ||| a == 0 && b == 0 && c == 0 && d == 0
    ||| 224 <= a <= 239
    ||| a == 192 && b == 0 && c == 2
    ||| a == 198 && b == 51 && c == 100
    ||| a == 203 && b == 0 && c == 113
}

/// The IPv6 ranges that `Ipv6Addr::is_loopback` (`::1`), `is_unspecified`
/// (`::`), `is_multicast` (`ff00::/8`), `is_unicast_link_local`
/// (`fe80::/10`) and `is_unique_local` (`fc00::/7`) accept, and any
/// IPv4-mapped address (`::ffff:a.b.c.d`) whose IPv4 part is forbidden.
pub open spec fn forbidden_v6(s0: u16, s1: u16, s2: u16, s3: u16, s4: u16, s5: u16, s6: u16, s7: u16) -> bool {
    let zero_prefix = s0 == 0 && s1 == 0 && s2 == 0 && s3 == 0 && s4 == 0 && s5 == 0 && s6 == 0;
    let mapped = s0 == 0 && s1 == 0 && s2 == 0 && s3 == 0 && s4 == 0 && s5 == 0xffff;
    ||| zero_prefix && s7 == 1
    ||| zero_prefix && s7 == 0
    ||| s0 >= 0xff00
    ||| 0xfe80 <= s0 <= 0xfebf
    ||| 0xfc00 <= s0 <= 0xfdff
    ||| mapped && forbidden_v4((s6 / 256) as u8, (s6 % 256) as u8, (s7 / 256) as u8, (s7 % 256) as u8)
}

pub open spec fn is_forbidden(ip: IpAddress) -> bool {
    match ip {
        IpAddress::V4(a, b, c, d) => forbidden_v4(a, b, c, d),
        IpAddress::V6(s0, s1, s2, s3, s4, s5, s6, s7) => forbidden_v6(s0, s1, s2, s3, s4, s5, s6, s7),
    }
}

fn v4_forbidden(a: u8, b: u8, c: u8, d: u8) -> (r: bool)
    ensures
        r == forbidden_v4(a, b, c, d),
{
    a == 10 || (a == 172 && 16 <= b && b <= 31) || (a == 192 && b == 168) || a == 127 || (a == 169
        && b == 254) || (a == 255 && b == 255 && c == 255 && d == 255) || (a == 0 && b == 0 && c
        == 0 && d == 0) || (224 <= a && a <= 239) || (a == 192 && b == 0 && c == 2) || (a == 198
        && b == 51 && c == 100) || (a == 203 && b == 0 && c == 113)
}

/// Private, loopback, link-local, broadcast, unspecified, multicast,
/// documentation and unique-local addresses are never fetched, whether
/// written as IPv4 or as IPv4-mapped IPv6.
pub fn forbidden_ip(ip: IpAddress) -> (r: bool)
    ensures
        r == is_forbidden(ip),
{
    match ip {
        IpAddress::V4(a, b, c, d) => v4_forbidden(a, b, c, d),
        IpAddress::V6(s0, s1, s2, s3, s4, s5, s6, s7) => {
            let zero_prefix = s0 == 0 && s1 == 0 && s2 == 0 && s3 == 0 && s4 == 0 && s5 == 0 && s6
                == 0;
            let mapped = s0 == 0 && s1 == 0 && s2 == 0 && s3 == 0 && s4 == 0 && s5 == 0xffff;
            (zero_prefix && s7 == 1) || (zero_prefix && s7 == 0) || s0 >= 0xff00 || (0xfe80 <= s0
                && s0 <= 0xfebf) || (0xfc00 <= s0 && s0 <= 0xfdff) || (mapped && v4_forbidden(
                (s6 / 256) as u8,
                (s6 % 256) as u8,
                (s7 / 256) as u8,
                (s7 % 256) as u8,
            ))
        },
    }
}

/// A host resolves to usable addresses when it has at least one and none of
/// them is forbidden.
pub open spec fn all_public(addresses: Seq<IpAddress>) -> bool {
    addresses.len() > 0 && forall|i: int| 0 <= i < addresses.len() ==> !is_forbidden(#[trigger] addresses[i])
}

pub fn addresses_are_public(addresses: &Vec<IpAddress>) -> (r: bool)
    ensures
        r == all_public(addresses@),
{
    if addresses.len() == 0 {
        return false;
    }
    let n = addresses.len();
    let mut i: usize = 0;
    while i < n
        invariant
            n == addresses.len(),
            i <= n,
            forall|j: int| 0 <= j < i ==> !is_forbidden(#[trigger] addresses@[j]),
        decreases n - i,
    {
        if forbidden_ip(addresses[i]) {
            return false;
        }
        i += 1;
    }
    true
}

/// A feed must answer with a 2xx status; a 3xx redirect gets its own
/// message so that the owner can enter the final address.
pub open spec fn feed_response_check(status: u16) -> Result<(), Seq<char>> {
    if 300 <= status <= 399 {
        Err("This feed redirects. Use its final public HTTPS address instead."@)
    } else if !(200 <= status <= 299) {
        Err("The feed returned an error response."@)
    } else {
        Ok(())
    }
}

pub open spec fn result_view(r: Result<(), String>) -> Result<(), Seq<char>> {
    match r {
        Ok(()) => Ok(()),
        Err(e) => Err(e@),
    }
}

pub fn ensure_feed_response_is_safe(status: u16) -> (r: Result<(), String>)
    ensures
        result_view(r) == feed_response_check(status),
{
    if 300 <= status && status <= 399 {
        return Err(String::from_str("This feed redirects. Use its final public HTTPS address instead."));
    }
    if !(200 <= status && status <= 299) {
        return Err(String::from_str("The feed returned an error response."));
    }
    Ok(())
}

/// The first hop of an `X-Forwarded-For` value, trimmed. The ingress
/// sanitises the header; later hops describe proxies.
pub fn forwarded_client(header: &str) -> (r: String)
    ensures
        r@ == trim_ws(split_on(header@, ',')[0]),
{
    let v = chars_of(header);
    let parts = split_char(&v, ',');
    proof {
        crate::text::lemma_split_on_nonempty(header@, ',');
    }
    assert(seqs_of(parts@)[0] == parts@[0]@);
    let first = trim(&parts[0]);
    string_of(&first)
}

/// The client whose bucket a request draws on: the forwarded client when it
/// names an address, else the connection's peer, else the unspecified IPv4
/// address.
pub fn client_ip(forwarded: Option<IpAddress>, peer: Option<IpAddress>) -> (r: IpAddress)
    ensures
        r == match forwarded {
            Some(f) => f,
            None => match peer {
                Some(p) => p,
                None => IpAddress::V4(0, 0, 0, 0),
            },
        },
{
    match forwarded {
        Some(f) => f,
        None => match peer {
            Some(p) => p,
            None => IpAddress::V4(0, 0, 0, 0),
        },
    }
}


/// A 2xx status (`StatusCode::is_success`).
pub fn status_is_success(status: u16) -> (r: bool)
    ensures
        r == (200 <= status <= 299),
{
    200 <= status && status <= 299
}


/// The IPv4 addresses never fetched: private (10/8, 172.16/12,
/// 192.168/16), loopback (127/8), link-local (169.254/16), broadcast,
/// unspecified, multicast (224/4) and documentation (192.0.2/24,
/// 198.51.100/24, 203.0.113/24). The same address written as IPv4-mapped
/// IPv6 (`::ffff:a.b.c.d`) is judged the same way.
pub proof fn law_forbidden_v4(a: u8, b: u8, c: u8, d: u8)
    ensures
        is_forbidden(IpAddress::V4(a, b, c, d)) == (a == 10 || (a == 172 && 16 <= b <= 31) || (a == 192 && b == 168)
            || a == 127 || (a == 169 && b == 254) || (a == 255 && b == 255 && c == 255 && d == 255) || (a == 0 && b
            == 0 && c == 0 && d == 0) || (224 <= a <= 239) || (a == 192 && b == 0 && c == 2) || (a == 198 && b == 51
            && c == 100) || (a == 203 && b == 0 && c == 113)),
        is_forbidden(IpAddress::V6(0, 0, 0, 0, 0, 0xffff, (a * 256 + b) as u16, (c * 256 + d) as u16)) == is_forbidden(
            IpAddress::V4(a, b, c, d),
        ),
{
    let s6 = (a * 256 + b) as u16;
    let s7 = (c * 256 + d) as u16;
    assert(s6 / 256 == a && s6 % 256 == b) by (nonlinear_arith)
        requires
            s6 == a * 256 + b,
            a < 256,
            b < 256,
    ;
    assert(s7 / 256 == c && s7 % 256 == d) by (nonlinear_arith)
        requires
            s7 == c * 256 + d,
            c < 256,
            d < 256,
    ;
}

/// The IPv6 addresses never fetched, besides IPv4-mapped ones: loopback
/// `::1`, unspecified `::`, multicast `ff00::/8`, link-local `fe80::/10`
/// and unique-local `fc00::/7`.
pub proof fn law_forbidden_v6(s0: u16, s1: u16, s2: u16, s3: u16, s4: u16, s5: u16, s6: u16, s7: u16)
    requires
        !(s0 == 0 && s1 == 0 && s2 == 0 && s3 == 0 && s4 == 0 && s5 == 0xffff),
    ensures
        is_forbidden(IpAddress::V6(s0, s1, s2, s3, s4, s5, s6, s7)) == ((s0 == 0 && s1 == 0 && s2 == 0 && s3 == 0 && s4
            == 0 && s5 == 0 && s6 == 0 && s7 <= 1) || s0 >= 0xff00 || (0xfe80 <= s0 <= 0xfebf) || (0xfc00 <= s0
            <= 0xfdff)),
{
}

/// A host is usable only when it resolved to at least one address and
/// none of them is forbidden.
pub proof fn law_all_public(addresses: Seq<IpAddress>)
    ensures
        all_public(addresses) <==> (addresses.len() > 0 && forall|i: int|
            0 <= i < addresses.len() ==> !is_forbidden(#[trigger] addresses[i])),
{
}

/// A 3xx answer is refused as a redirect, any other answer outside 2xx as
/// an error, and a 2xx answer is accepted.
pub proof fn law_feed_response(status: u16)
    ensures
        300 <= status <= 399 ==> feed_response_check(status) == Err::<(), Seq<char>>(
            "This feed redirects. Use its final public HTTPS address instead."@,
        ),
        !(300 <= status <= 399) && !(200 <= status <= 299) ==> feed_response_check(status) == Err::<(), Seq<char>>(
            "The feed returned an error response."@,
        ),
        200 <= status <= 299 ==> feed_response_check(status) is Ok,
{
}
} // verus!
