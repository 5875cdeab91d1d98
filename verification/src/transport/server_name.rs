//! The name by which a TLS server is asked for and validated.

use vstd::prelude::*;

use crate::ip::{IpAddr, IpView};
use crate::transport::addr::{Host, HostView, ServerAddr, ServerAddrView};
use crate::transport::error::TlsError;

verus! {

/// The name of a TLS server.
#[derive(Debug, Clone, PartialEq, Eq)]
pub enum ServerName {
    /// A DNS name.
    DnsName(String),
    /// The octets of an IPv4 address.
    Ipv4([u8; 4]),
    /// The octets of an IPv6 address.
    Ipv6([u8; 16]),
}

/// What a [`ServerName`] holds.
pub enum ServerNameView {
    /// The characters of a DNS name.
    DnsName(Seq<char>),
    /// The octets of an IPv4 address.
    Ipv4(Seq<u8>),
    /// The octets of an IPv6 address.
    Ipv6(Seq<u8>),
}

impl View for ServerName {
    type V = ServerNameView;

    open spec fn view(&self) -> ServerNameView {
        match *self {
            ServerName::DnsName(name) => ServerNameView::DnsName(name@),
            ServerName::Ipv4(octets) => ServerNameView::Ipv4(octets@),
            ServerName::Ipv6(octets) => ServerNameView::Ipv6(octets@),
        }
    }
}

/// The name of a TLS server that a text notes, if it notes one.
pub uninterp spec fn server_name_of(s: Seq<char>) -> Option<ServerNameView>;

/// `rustls::pki_types::ServerName::try_from` reads a DNS name or an IP address. A DNS name is kept
/// as it was written.
#[verifier::external_body]
fn parse_server_name(s: &str) -> (r: Option<ServerName>)
    ensures
        match r {
            Some(name) => server_name_of(s@) == Some(name@),
            None => server_name_of(s@) is None,
        },
        r matches Some(ServerName::DnsName(name)) ==> name@ == s@,
{
    match rustls::pki_types::ServerName::try_from(s.to_string()) {
        Ok(rustls::pki_types::ServerName::DnsName(name)) => {
            Some(ServerName::DnsName(name.as_ref().to_string()))
        },
        Ok(rustls::pki_types::ServerName::IpAddress(rustls::pki_types::IpAddr::V4(ip))) => {
            Some(ServerName::Ipv4(*ip.as_ref()))
        },
        Ok(rustls::pki_types::ServerName::IpAddress(rustls::pki_types::IpAddr::V6(ip))) => {
            Some(ServerName::Ipv6(*ip.as_ref()))
        },
        _ => None,
    }
}

/// The octets of the groups of an IPv6 address, the high one of each group first.
pub open spec fn octets_of(groups: Seq<u16>) -> Seq<u8> {
    Seq::new(
        2 * groups.len(),
        |i: int|
            if i % 2 == 0 {
                (groups[i / 2] / 256) as u8
            } else {
                (groups[i / 2] % 256) as u8
            },
    )
}

/// The name of the server at an IP address.
pub open spec fn ip_server_name(ip: IpView) -> ServerNameView {
    match ip {
        IpView::V4(octets) => ServerNameView::Ipv4(octets),
        IpView::V6(groups) => ServerNameView::Ipv6(octets_of(groups)),
    }
}

/// Whether `r` is the server name of `addr`, where the domain of `addr`, if it has one, notes
/// `parsed`.
///
/// An IP address is a name unless the domain is to be validated; a domain name is one if it can be
/// read as one.
pub open spec fn server_name_is(
    addr: ServerAddrView,
    validate_domain: bool,
    parsed: Option<ServerNameView>,
    r: Result<ServerName, TlsError>,
) -> bool {
    match addr.host {
        HostView::Domain(domain) => match parsed {
            Some(name) => r matches Ok(n) && n@ == name,
            None => r matches Err(TlsError::InvalidServerName(d)) && d@ == domain,
        },
        HostView::Ip(ip) => if validate_domain {
            r matches Err(TlsError::MissingDomain)
        } else {
            r matches Ok(n) && n@ == ip_server_name(ip)
        },
    }
}

/// The octets of the groups of an IPv6 address.
fn octets(groups: &[u16; 8]) -> (r: [u8; 16])
    ensures
        r@ == octets_of(groups@),
{
    let g = *groups;
    let r: [u8; 16] = [
        (g[0] / 256) as u8,
        (g[0] % 256) as u8,
        (g[1] / 256) as u8,
        (g[1] % 256) as u8,
        (g[2] / 256) as u8,
        (g[2] % 256) as u8,
        (g[3] / 256) as u8,
        (g[3] % 256) as u8,
        (g[4] / 256) as u8,
        (g[4] % 256) as u8,
        (g[5] / 256) as u8,
        (g[5] % 256) as u8,
        (g[6] / 256) as u8,
        (g[6] % 256) as u8,
        (g[7] / 256) as u8,
        (g[7] % 256) as u8,
    ];
    assert(r@ =~= octets_of(groups@));
    r
}

/// The name of the server at `addr`, given what its domain was read as. An IP address has no
/// domain, and what was read is of no matter then.
pub fn choose_server_name(
    addr: &ServerAddr,
    validate_domain: bool,
    parsed: Option<ServerName>,
) -> (r: Result<ServerName, TlsError>)
    ensures
        server_name_is(
            addr@,
            validate_domain,
            match parsed {
                Some(name) => Some(name@),
                None => None,
            },
            r,
        ),
{
    match addr.host() {
        Host::Domain(domain) => match parsed {
            Some(name) => Ok(name),
            None => Err(TlsError::InvalidServerName(domain.clone())),
        },
        Host::Ip(ip) => if validate_domain {
            Err(TlsError::MissingDomain)
        } else {
            match ip {
                IpAddr::V4(octets) => Ok(ServerName::Ipv4(*octets)),
                IpAddr::V6(groups) => Ok(ServerName::Ipv6(octets(groups))),
            }
        },
    }
}

/// The name by which the server at `addr` is asked for and, with `validate_domain`, validated.
pub fn server_name(addr: &ServerAddr, validate_domain: bool) -> (r: Result<ServerName, TlsError>)
    ensures
        server_name_is(
            addr@,
            validate_domain,
            match addr@.host {
                HostView::Domain(domain) => server_name_of(domain),
                HostView::Ip(_) => None,
            },
            r,
        ),
        addr@.host is Domain ==> match r {
            Ok(ServerName::DnsName(name)) => addr@.host == HostView::Domain(name@),
            _ => true,
        },
{
    let parsed = match addr.host() {
        Host::Domain(domain) => parse_server_name(domain),
        Host::Ip(_) => None,
    };
    choose_server_name(addr, validate_domain, parsed)
}

/// Validation of the domain needs a domain: with it, no IP address has a server name, and without
/// it every one does.
pub proof fn law_validation_needs_a_domain(
    addr: ServerAddrView,
    parsed: Option<ServerNameView>,
    validated: Result<ServerName, TlsError>,
    unvalidated: Result<ServerName, TlsError>,
)
    requires
        server_name_is(addr, true, parsed, validated),
        server_name_is(addr, false, parsed, unvalidated),
    ensures
        addr.host is Ip ==> validated == Err::<ServerName, TlsError>(TlsError::MissingDomain)
            && unvalidated is Ok,
        addr.host is Domain ==> (validated is Ok <==> parsed is Some) && (unvalidated is Ok
            <==> parsed is Some),
{
}

/// Two octets make up each group of an IPv6 address, the high one first.
pub proof fn law_octets_make_up_the_groups(groups: Seq<u16>, i: int)
    requires
        0 <= i < groups.len(),
    ensures
        octets_of(groups).len() == 2 * groups.len(),
        octets_of(groups)[2 * i] * 256 + octets_of(groups)[2 * i + 1] == groups[i],
{
    assert((2 * i) / 2 == i && (2 * i) % 2 == 0 && (2 * i + 1) / 2 == i && (2 * i + 1) % 2 == 1);
}

/// The server name of a domain is what the domain was read as, whether it is validated or not, and
/// a domain that could not be read is named in the error; the server name of an IP address is that
/// address, octet by octet, and none where the domain is to be validated.
pub proof fn law_server_names(
    addr: ServerAddrView,
    validate_domain: bool,
    parsed: Option<ServerNameView>,
    r: Result<ServerName, TlsError>,
)
    requires
        server_name_is(addr, validate_domain, parsed, r),
    ensures
        match (addr.host, parsed) {
            (HostView::Domain(_), Some(name)) => r matches Ok(n) && n@ == name,
            (HostView::Domain(domain), None) => r matches Err(TlsError::InvalidServerName(d))
                && d@ == domain,
            (HostView::Ip(IpView::V4(octets)), _) => !validate_domain ==> (r matches Ok(n) && n@
                == ServerNameView::Ipv4(octets)),
            (HostView::Ip(IpView::V6(groups)), _) => !validate_domain ==> (r matches Ok(n) && (n@
                matches ServerNameView::Ipv6(octets) && octets.len() == 2 * groups.len() && (
            forall|i: int|
                0 <= i < groups.len() ==> octets[2 * i] * 256 + octets[2 * i + 1]
                    == #[trigger] groups[i]))),
        },
        addr.host is Ip && validate_domain ==> (r matches Err(TlsError::MissingDomain)),
{
    if let HostView::Ip(IpView::V6(groups)) = addr.host {
        assert forall|i: int| 0 <= i < groups.len() implies octets_of(groups)[2 * i] * 256
            + octets_of(groups)[2 * i + 1] == #[trigger] groups[i] by {
            law_octets_make_up_the_groups(groups, i);
        }
    }
}

} // verus!
