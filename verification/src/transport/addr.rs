//! The address of an Electrum server.

use vstd::prelude::*;
use vstd::slice::slice_subrange;

use crate::ip::{parse_ip_chars, push_ip, IpAddr, IpView};
use crate::text::{
    chars_of, decimal_digit, first_char, first_text, last_char, push_decimal, push_text, string_of,
};

verus! {

/// The host portion of a [`ServerAddr`].
#[derive(Debug, Clone, PartialEq, Eq)]
pub enum Host {
    /// A domain name, e.g. `electrum.example.com`.
    Domain(String),
    /// An IP literal.
    Ip(IpAddr),
}

/// What a [`Host`] holds.
pub enum HostView {
    /// The characters of a domain name.
    Domain(Seq<char>),
    /// An IP address.
    Ip(IpView),
}

impl View for Host {
    type V = HostView;

    open spec fn view(&self) -> HostView {
        match *self {
            Host::Domain(domain) => HostView::Domain(domain@),
            Host::Ip(ip) => HostView::Ip(ip@),
        }
    }
}

/// An Electrum server address: a [`Host`] and a port, without a connection scheme.
///
/// Parses from `"host:port"`. IPv6 literals must be bracketed (`"[::1]:50001"`).
#[derive(Debug, Clone, PartialEq, Eq)]
pub struct ServerAddr {
    host: Host,
    port: u16,
}

/// What a [`ServerAddr`] holds.
pub struct ServerAddrView {
    /// The host.
    pub host: HostView,
    /// The port.
    pub port: u16,
}

impl View for ServerAddr {
    type V = ServerAddrView;

    closed spec fn view(&self) -> ServerAddrView {
        ServerAddrView { host: self.host@, port: self.port }
    }
}

/// An error parsing a [`ServerAddr`] from a string.
///
/// The payload is the full input string that failed to parse.
#[derive(Debug, Clone, PartialEq, Eq)]
pub struct ParseServerAddrError(pub String);

/// Where to connect to in order to reach a [`ServerAddr`].
#[derive(Debug, Clone, PartialEq, Eq)]
pub enum SocketTarget {
    /// The address and port are known.
    Socket(IpAddr, u16),
    /// The domain name is to be looked up first.
    Lookup(String, u16),
}

// ---------------------------------------------------------------------------------------------
// The notation
// ---------------------------------------------------------------------------------------------
/// The port that `s` notes: decimal digits, which a `+` may precede, for at most 65535.
pub open spec fn port_of(s: Seq<char>) -> Option<u16> {
    let digits = if s.len() > 0 && s[0] == '+' {
        s.skip(1)
    } else {
        s
    };
    if digits.len() > 0 && crate::text::all_digits(digits) && crate::text::decimal_value(digits)
        <= 0xffff {
        Some(crate::text::decimal_value(digits) as u16)
    } else {
        None
    }
}

/// The address that `s` notes.
///
/// Text with a scheme notes none. Behind a `[`, an IP literal ends at the first `]:`. Any other
/// text is split at its last colon; its host is neither empty nor holds a further colon, and is a
/// domain name unless it is an IP literal.
pub open spec fn server_addr_of(s: Seq<char>) -> Option<ServerAddrView> {
    if crate::text::contains_text(s, seq![':', '/', '/']) {
        None
    } else if s.len() > 0 && s[0] == '[' {
        let rest = s.skip(1);
        match crate::text::find_text(rest, seq![']', ':']) {
            Some(i) => match (crate::ip::ip_of(rest.take(i)), port_of(rest.skip(i + 2))) {
                (Some(ip), Some(port)) => Some(ServerAddrView { host: HostView::Ip(ip), port }),
                _ => None,
            },
            None => None,
        }
    } else {
        match s.index_of_last(':') {
            Some(i) => {
                let host = s.take(i);
                match port_of(s.skip(i + 1)) {
                    Some(port) => if host.len() == 0 || host.contains(':') {
                        None
                    } else {
                        match crate::ip::ip_of(host) {
                            Some(ip) => Some(ServerAddrView { host: HostView::Ip(ip), port }),
                            None => Some(ServerAddrView { host: HostView::Domain(host), port }),
                        }
                    },
                    None => None,
                }
            },
            None => None,
        }
    }
}

/// The notation of a host: an IPv6 literal stands in brackets.
pub open spec fn host_text(host: HostView) -> Seq<char> {
    match host {
        HostView::Domain(domain) => domain,
        HostView::Ip(IpView::V4(octets)) => crate::ip::ipv4_text(octets),
        HostView::Ip(IpView::V6(groups)) => seq!['['] + crate::ip::ipv6_text(groups) + seq![']'],
    }
}

/// The notation of an address.
pub open spec fn server_addr_text(addr: ServerAddrView) -> Seq<char> {
    host_text(addr.host) + seq![':'] + crate::text::decimal_text(addr.port as nat)
}

// ---------------------------------------------------------------------------------------------
// Parsing and printing
// ---------------------------------------------------------------------------------------------
fn parse_port(s: &[char]) -> (r: Option<u16>)
    ensures
        r == port_of(s@),
{
    let n: usize = s.len();
    let from: usize = if n > 0 && s[0] == '+' {
        1
    } else {
        0
    };
    let digits = slice_subrange(s, from, n);
    proof {
        if from == 1 {
            assert(digits@ =~= s@.skip(1));
        } else {
            assert(digits@ =~= s@);
        }
    }
    if digits.len() == 0 {
        return None;
    }
    let mut v: u32 = 0;
    let mut i: usize = 0;
    while i < digits.len()
        invariant
            i <= digits@.len(),
            forall|j: int| 0 <= j < i ==> crate::text::is_digit(#[trigger] digits@[j]),
            v == crate::text::decimal_value(digits@.take(i as int)),
            v <= 0xffff,
            digits@ == (if s@.len() > 0 && s@[0] == '+' {
                s@.skip(1)
            } else {
                s@
            }),
        decreases digits@.len() - i,
    {
        match decimal_digit(digits[i]) {
            Some(d) => {
                v = v * 10 + d as u32;
                assert(digits@.take(i + 1).drop_last() =~= digits@.take(i as int));
                i = i + 1;
                if v > 0xffff {
                    proof {
                        crate::text::lemma_decimal_value_grows(digits@, i as int);
                    }
                    return None;
                }
            },
            None => {
                return None;
            },
        }
    }
    assert(digits@.take(i as int) =~= digits@);
    Some(v as u16)
}

impl Host {
    /// The notation of this host, with an IPv6 literal in brackets.
    pub fn to_string(&self) -> (r: String)
        ensures
            r@ == host_text(self@),
    {
        let mut out = String::new();
        match self {
            Host::Domain(domain) => {
                push_text(&mut out, domain);
            },
            Host::Ip(ip) => match ip {
                IpAddr::V4(_) => {
                    push_ip(&mut out, ip);
                },
                IpAddr::V6(_) => {
                    out.push('[');
                    push_ip(&mut out, ip);
                    out.push(']');
                },
            },
        }
        assert(out@ =~= host_text(self@));
        out
    }
}

impl ServerAddr {
    /// Creates a new `ServerAddr` from a [`Host`] and port.
    pub fn new(host: Host, port: u16) -> (r: Self)
        ensures
            r@ == (ServerAddrView { host: host@, port }),
    {
        Self { host, port }
    }

    /// The host portion of this address.
    pub fn host(&self) -> (r: &Host)
        ensures
            r@ == self@.host,
    {
        &self.host
    }

    /// The port of this address.
    pub fn port(&self) -> (r: u16)
        ensures
            r == self@.port,
    {
        self.port
    }

    /// Reads an address; the error carries the text that notes none.
    pub fn from_str(s: &str) -> (r: Result<Self, ParseServerAddrError>)
        ensures
            match r {
                Ok(addr) => server_addr_of(s@) == Some(addr@),
                Err(e) => server_addr_of(s@) is None && e.0@ == s@,
            },
    {
        let cs = chars_of(s);
        match Self::from_chars(&cs) {
            Some(addr) => Ok(addr),
            None => Err(ParseServerAddrError(string_of(&cs))),
        }
    }

    fn from_chars(s: &[char]) -> (r: Option<Self>)
        ensures
            match r {
                Some(addr) => server_addr_of(s@) == Some(addr@),
                None => server_addr_of(s@) is None,
            },
    {
        let scheme: [char; 3] = [':', '/', '/'];
        assert(scheme@ =~= seq![':', '/', '/']);
        if first_text(s, &scheme).is_some() {
            return None;
        }
        let n: usize = s.len();
        if n > 0 && s[0] == '[' {
            let rest = slice_subrange(s, 1, n);
            assert(rest@ =~= s@.skip(1));
            let close: [char; 2] = [']', ':'];
            assert(close@ =~= seq![']', ':']);
            let m: usize = rest.len();
            return match first_text(rest, &close) {
                Some(i) => {
                    let ip_chars = slice_subrange(rest, 0, i);
                    let port_chars = slice_subrange(rest, i + 2, m);
                    assert(ip_chars@ =~= rest@.take(i as int));
                    assert(port_chars@ =~= rest@.skip(i + 2));
                    match (parse_ip_chars(ip_chars), parse_port(port_chars)) {
                        (Some(ip), Some(port)) => Some(Self { host: Host::Ip(ip), port }),
                        _ => None,
                    }
                },
                None => None,
            };
        }
        match last_char(s, ':') {
            Some(i) => {
                let host_chars = slice_subrange(s, 0, i);
                let port_chars = slice_subrange(s, i + 1, n);
                assert(host_chars@ =~= s@.take(i as int));
                assert(port_chars@ =~= s@.skip(i + 1));
                if host_chars.len() == 0 || first_char(host_chars, ':').is_some() {
                    proof {
                        host_chars@.index_of_first_ensures(':');
                    }
                    return None;
                }
                match parse_port(port_chars) {
                    Some(port) => {
                        let host = match parse_ip_chars(host_chars) {
                            Some(ip) => Host::Ip(ip),
                            None => Host::Domain(string_of(host_chars)),
                        };
                        Some(Self { host, port })
                    },
                    None => None,
                }
            },
            None => None,
        }
    }

    /// The notation of this address.
    pub fn to_string(&self) -> (r: String)
        ensures
            r@ == server_addr_text(self@),
    {
        let mut out = self.host.to_string();
        out.push(':');
        push_decimal(&mut out, self.port as u64);
        assert(out@ =~= server_addr_text(self@));
        out
    }

    /// Where to connect to: an IP literal needs no lookup, a domain name is looked up via
    /// **local DNS**.
    ///
    /// Do not look up `.onion` hosts: they are not resolvable via local DNS.
    pub fn to_socket_addrs(&self) -> (r: SocketTarget)
        ensures
            match self@.host {
                HostView::Ip(ip) => r matches SocketTarget::Socket(a, p) && a@ == ip && p
                    == self@.port,
                HostView::Domain(domain) => r matches SocketTarget::Lookup(d, p) && d@ == domain
                    && p == self@.port,
            },
    {
        match &self.host {
            Host::Ip(ip) => SocketTarget::Socket(*ip, self.port),
            Host::Domain(domain) => SocketTarget::Lookup(domain.clone(), self.port),
        }
    }
}

impl std::str::FromStr for ServerAddr {
    type Err = ParseServerAddrError;

    fn from_str(s: &str) -> (r: Result<Self, ParseServerAddrError>)
        ensures
            match r {
                Ok(addr) => server_addr_of(s@) == Some(addr@),
                Err(e) => server_addr_of(s@) is None && e.0@ == s@,
            },
    {
        ServerAddr::from_str(s)
    }
}

impl ParseServerAddrError {
    /// The message of this error.
    pub fn to_string(&self) -> (r: String)
        ensures
            r@ == "invalid server address '"@ + self.0@ + "'"@,
    {
        let mut out = String::new();
        push_text(&mut out, "invalid server address '");
        push_text(&mut out, &self.0);
        push_text(&mut out, "'");
        assert(out@ =~= "invalid server address '"@ + self.0@ + "'"@);
        out
    }
}

// ---------------------------------------------------------------------------------------------
// Laws
// ---------------------------------------------------------------------------------------------
/// Whether the host is written so that it reads back as itself: any IP address, and a domain name
/// that is not empty, holds no colon, starts with no bracket and is no IP literal.
pub open spec fn reads_back(host: HostView) -> bool {
    match host {
        HostView::Ip(ip) => crate::ip::is_address(ip),
        HostView::Domain(d) => d.len() > 0 && !d.contains(':') && d[0] != '[' && crate::ip::ip_of(
            d,
        ) is None,
    }
}

/// The decimal notation of a port reads back as the port.
proof fn lemma_port_text(port: u16)
    ensures
        port_of(crate::text::decimal_text(port as nat)) == Some(port),
        forall|i: int|
            0 <= i < crate::text::decimal_text(port as nat).len() ==> crate::text::is_digit(
                #[trigger] crate::text::decimal_text(port as nat)[i],
            ),
{
    crate::text::lemma_decimal_text(port as nat);
    let t = crate::text::decimal_text(port as nat);
    assert(crate::text::is_digit(t[0]));
}

/// Text with digits behind its only colon is no text with a scheme.
proof fn lemma_no_scheme(a: Seq<char>, digits: Seq<char>)
    requires
        crate::text::all_digits(digits),
        forall|i: int| 0 <= i < a.len() ==> #[trigger] a[i] != '/',
    ensures
        !crate::text::contains_text(a + seq![':'] + digits, seq![':', '/', '/']),
{
    let s = a + seq![':'] + digits;
    let pat = seq![':', '/', '/'];
    if crate::text::contains_text(s, pat) {
        let i = choose|i: int| crate::text::occurs_at(s, pat, i);
        assert(s[i + 1] == pat[1]);
        if i + 1 < a.len() {
            assert(s[i + 1] == a[i + 1]);
        } else if i + 1 > a.len() {
            assert(s[i + 1] == digits[i - a.len()]);
            assert(crate::text::is_digit(digits[i - a.len()]));
        }
    }
}

/// A colon-free text, a colon and digits hold no scheme either.
proof fn lemma_no_scheme_behind_colon(a: Seq<char>, digits: Seq<char>)
    requires
        crate::text::all_digits(digits),
        !a.contains(':'),
    ensures
        !crate::text::contains_text(a + seq![':'] + digits, seq![':', '/', '/']),
{
    let s = a + seq![':'] + digits;
    let pat = seq![':', '/', '/'];
    if crate::text::contains_text(s, pat) {
        let i = choose|i: int| crate::text::occurs_at(s, pat, i);
        assert(s[i + 0] == pat[0]);
        assert(s[i + 1] == pat[1]);
        if i < a.len() {
            assert(s[i] == a[i]);
            assert(a.contains(a[i]));
        } else {
            assert(s[i + 1] == digits[i - a.len()]);
            assert(crate::text::is_digit(digits[i - a.len()]));
        }
    }
}

/// A colon-free host, a colon and a port split at that colon.
proof fn lemma_reads_at_only_colon(host: Seq<char>, port: u16)
    requires
        host.len() > 0,
        !host.contains(':'),
        host[0] != '[',
    ensures
        server_addr_of(host + seq![':'] + crate::text::decimal_text(port as nat)) == Some(
            ServerAddrView {
                host: match crate::ip::ip_of(host) {
                    Some(ip) => HostView::Ip(ip),
                    None => HostView::Domain(host),
                },
                port,
            },
        ),
{
    let digits = crate::text::decimal_text(port as nat);
    let s = host + seq![':'] + digits;
    lemma_port_text(port);
    lemma_no_scheme_behind_colon(host, digits);
    let n = host.len() as int;
    assert(s[0] == host[0]);
    assert(s[n] == ':');
    s.index_of_last_ensures(':');
    let k = s.index_of_last(':')->0;
    assert(k == n) by {
        if k > n {
            assert(s[k] == digits[k - n - 1]);
            assert(crate::text::is_digit(digits[k - n - 1]));
        }
    }
    assert(s.take(n) =~= host);
    assert(s.skip(n + 1) =~= digits);
}

/// A bracketed IP literal, a colon and a port read as that address.
proof fn lemma_reads_bracketed(ip_chars: Seq<char>, port: u16)
    requires
        crate::ip::ip_of(ip_chars) is Some,
        forall|i: int| 0 <= i < ip_chars.len() ==> #[trigger] ip_chars[i] != ']' && ip_chars[i]
            != '/',
    ensures
        server_addr_of(
            seq!['['] + ip_chars + seq![']'] + seq![':'] + crate::text::decimal_text(port as nat),
        ) == Some(
            ServerAddrView { host: HostView::Ip(crate::ip::ip_of(ip_chars)->0), port },
        ),
{
    let digits = crate::text::decimal_text(port as nat);
    let host = seq!['['] + ip_chars + seq![']'];
    let s = host + seq![':'] + digits;
    lemma_port_text(port);
    assert forall|i: int| 0 <= i < host.len() implies #[trigger] host[i] != '/' by {
        if 0 < i < host.len() - 1 {
            assert(host[i] == ip_chars[i - 1]);
        }
    }
    lemma_no_scheme(host, digits);
    let rest = s.skip(1);
    let pat = seq![']', ':'];
    let n = ip_chars.len() as int;
    assert(rest =~= ip_chars + pat + digits);
    assert(crate::text::occurs_at(rest, pat, n)) by {
        assert forall|k: int| 0 <= k < pat.len() implies rest[n + k] == #[trigger] pat[k] by {
        }
    }
    assert forall|j: int| 0 <= j < n implies !#[trigger] crate::text::occurs_at(rest, pat, j) by {
        if crate::text::occurs_at(rest, pat, j) {
            assert(rest[j + 0] == pat[0]);
            assert(rest[j] == ip_chars[j]);
        }
    }
    assert(crate::text::first_occurs_at(rest, pat, n));
    crate::text::lemma_find_text(rest, pat, n);
    assert(rest.take(n) =~= ip_chars);
    assert(rest.skip(n + 2) =~= digits);
}

/// The notation of an address reads back as that address.
pub proof fn law_server_addr_text_reads_back(addr: ServerAddrView)
    requires
        reads_back(addr.host),
    ensures
        server_addr_of(server_addr_text(addr)) == Some(addr),
{
    match addr.host {
        HostView::Domain(domain) => {
            lemma_reads_at_only_colon(domain, addr.port);
        },
        HostView::Ip(ip) => {
            crate::ip::law_ip_text_reads_back(ip);
            match ip {
                IpView::V4(octets) => {
                    crate::ip::lemma_ipv4_text_chars(octets);
                    lemma_reads_at_only_colon(crate::ip::ipv4_text(octets), addr.port);
                },
                IpView::V6(groups) => {
                    crate::ip::lemma_ipv6_text_chars(groups);
                    lemma_reads_bracketed(crate::ip::ipv6_text(groups), addr.port);
                },
            }
        },
    }
}

/// Text that holds a scheme is no address.
pub proof fn law_scheme_is_refused(s: Seq<char>, i: int)
    requires
        crate::text::occurs_at(s, seq![':', '/', '/'], i),
    ensures
        server_addr_of(s) is None,
{
    assert(crate::text::contains_text(s, seq![':', '/', '/']));
}

/// An IPv6 literal must be bracketed: text that starts with no bracket and holds two colons is no
/// address.
pub proof fn law_unbracketed_ipv6_is_refused(s: Seq<char>, i: int, j: int)
    requires
        0 <= i < j < s.len(),
        s[i] == ':',
        s[j] == ':',
        s[0] != '[',
    ensures
        server_addr_of(s) is None,
{
    s.index_of_last_ensures(':');
    assert(s.contains(':'));
    let k = s.index_of_last(':')->0;
    assert(j <= k);
    assert(s.take(k)[i] == ':');
    assert(s.take(k).contains(':'));
}

} // verus!
