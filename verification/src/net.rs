//! Addresses on the network.

use crate::text::{decimal, decimal_text, has_char};
use vstd::prelude::*;

verus! {

/// An address of a host. An IPv6 address carries its usual text.
#[derive(Debug)]
pub enum IpAddress {
    V4 { octets: [u8; 4] },
    V6 { segments: [u16; 8], text: String },
}

/// An address of a host and a port there.
#[derive(Debug)]
pub struct SocketAddress {
    pub ip: IpAddress,
    pub port: u16,
}

/// Four numbers with dots between them.
pub open spec fn dotted(octets: Seq<u8>) -> Seq<char> {
    decimal(octets[0] as nat) + "."@ + decimal(octets[1] as nat) + "."@ + decimal(octets[2] as nat)
        + "."@ + decimal(octets[3] as nat)
}

impl IpAddress {
    /// The usual text of the address.
    pub open spec fn spec_text(&self) -> Seq<char> {
        match self {
            IpAddress::V4 { octets } => dotted(octets@),
            IpAddress::V6 { segments, text } => text@,
        }
    }

    /// True for the address that stands for all addresses of a host.
    pub open spec fn spec_is_unspecified(&self) -> bool {
        match self {
            IpAddress::V4 { octets } => octets@ == seq![0u8, 0, 0, 0],
            IpAddress::V6 { segments, text } => segments@ == seq![0u16, 0, 0, 0, 0, 0, 0, 0],
        }
    }

    /// True for addresses by which a host reaches itself.
    pub open spec fn spec_is_loopback(&self) -> bool {
        match self {
            IpAddress::V4 { octets } => octets@[0] == 127,
            IpAddress::V6 { segments, text } => segments@ == seq![0u16, 0, 0, 0, 0, 0, 0, 1],
        }
    }

    /// The usual text of the address.
    pub fn text(&self) -> (r: String)
        ensures
            r@ == self.spec_text(),
    {
        match self {
            IpAddress::V4 { octets } => {
                let mut out = decimal_text(octets[0] as u128);
                let second = decimal_text(octets[1] as u128);
                let third = decimal_text(octets[2] as u128);
                let fourth = decimal_text(octets[3] as u128);
                out.append(".");
                out.append(second.as_str());
                out.append(".");
                out.append(third.as_str());
                out.append(".");
                out.append(fourth.as_str());
                out
            },
            IpAddress::V6 { segments, text } => text.clone(),
        }
    }

    /// True for the address that stands for all addresses of a host.
    pub fn is_unspecified(&self) -> (r: bool)
        ensures
            r == self.spec_is_unspecified(),
    {
        match self {
            IpAddress::V4 { octets } => {
                let r = octets[0] == 0 && octets[1] == 0 && octets[2] == 0 && octets[3] == 0;
                assert(r ==> octets@ =~= seq![0u8, 0, 0, 0]);
                r
            },
            IpAddress::V6 { segments, text } => {
                let r = first_seven_are_zero(segments) && segments[7] == 0;
                assert(r ==> segments@ =~= seq![0u16, 0, 0, 0, 0, 0, 0, 0]);
                r
            },
        }
    }

    /// True for addresses by which a host reaches itself.
    pub fn is_loopback(&self) -> (r: bool)
        ensures
            r == self.spec_is_loopback(),
    {
        match self {
            IpAddress::V4 { octets } => octets[0] == 127,
            IpAddress::V6 { segments, text } => {
                let r = first_seven_are_zero(segments) && segments[7] == 1;
                assert(r ==> segments@ =~= seq![0u16, 0, 0, 0, 0, 0, 0, 1]);
                r
            },
        }
    }
}

fn first_seven_are_zero(segments: &[u16; 8]) -> (r: bool)
    ensures
        r == forall|i: int| 0 <= i < 7 ==> segments@[i] == 0,
{
    let r = segments[0] == 0 && segments[1] == 0 && segments[2] == 0 && segments[3] == 0
        && segments[4] == 0 && segments[5] == 0 && segments[6] == 0;
    assert(r ==> forall|i: int| 0 <= i < 7 ==> segments@[i] == 0);
    r
}

/// The host by which a service bound to an address is reached: a service bound to all
/// addresses is reached through the loopback address of the same kind.
pub open spec fn connect_host(ip: IpAddress) -> Seq<char> {
    if ip.spec_is_unspecified() {
        match ip {
            IpAddress::V4 { octets } => "127.0.0.1"@,
            IpAddress::V6 { segments, text } => "::1"@,
        }
    } else {
        ip.spec_text()
    }
}

/// The URL of a service; a host with colons in it stands in brackets.
pub open spec fn http_base_url(host: Seq<char>, port: u16) -> Seq<char> {
    "http://"@ + (if host.contains(':') {
        "["@ + host + "]"@
    } else {
        host
    }) + ":"@ + decimal(port as nat)
}

/// The host by which a service bound to an address is reached.
pub fn connect_host_for_bind_ip(bind_ip: &IpAddress) -> (r: String)
    ensures
        r@ == connect_host(*bind_ip),
{
    if bind_ip.is_unspecified() {
        match bind_ip {
            IpAddress::V4 { octets } => "127.0.0.1".to_string(),
            IpAddress::V6 { segments, text } => "::1".to_string(),
        }
    } else {
        bind_ip.text()
    }
}

/// The URL of a service.
pub fn format_http_base_url(host: &str, port: u16) -> (r: String)
    ensures
        r@ == http_base_url(host@, port),
{
    let mut shown = String::new();
    if has_char(host, ':') {
        shown.append("[");
        shown.append(host);
        shown.append("]");
        assert(shown@ =~= "["@ + host@ + "]"@);
    } else {
        shown.append(host);
        assert(shown@ =~= host@);
    }
    let mut url = "http://".to_string();
    url.append(shown.as_str());
    url.append(":");
    let number = decimal_text(port as u128);
    url.append(number.as_str());
    url
}

/// A service is never published under the address that stands for all addresses.
pub proof fn law_published_host_can_be_reached(ip: IpAddress)
    requires
        ip.spec_is_unspecified(),
    ensures
        connect_host(ip) == if ip is V4 {
            dotted(seq![127u8, 0, 0, 1])
        } else {
            "::1"@
        },
{
    reveal_strlit("127.0.0.1");
    reveal_strlit(".");
    reveal_with_fuel(decimal, 4);
    if ip is V4 {
        let octets = seq![127u8, 0, 0, 1];
        assert(decimal(127) =~= seq!['1', '2', '7']) by {
            assert(decimal(127) == decimal(12).push(crate::text::digit(7)));
            assert(decimal(12) == decimal(1).push(crate::text::digit(2)));
        }
        assert(dotted(octets) =~= "127.0.0.1"@);
    }
}

} // verus!
