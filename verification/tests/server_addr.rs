use electrum_streaming_client::ip::{parse_ip, IpAddr};
use electrum_streaming_client::transport::addr::{
    Host, ParseServerAddrError, ServerAddr, SocketTarget,
};

const LOCALHOST_V6: [u16; 8] = [0, 0, 0, 0, 0, 0, 0, 1];

fn addr(s: &str) -> ServerAddr {
    s.parse()
        .unwrap_or_else(|e: ParseServerAddrError| panic!("{s:?}: {}", e.to_string()))
}

#[test]
fn server_addr_parse() {
    let a = addr("127.0.0.1:50001");
    assert_eq!(a.host(), &Host::Ip(IpAddr::V4([127, 0, 0, 1])));
    assert_eq!(a.port(), 50001);
    assert_eq!(a.to_string(), "127.0.0.1:50001");

    let a = addr("localhost:50001");
    assert_eq!(a.host(), &Host::Domain("localhost".into()));
    assert_eq!(a.port(), 50001);

    let a = addr("[::1]:50001");
    assert_eq!(a.host(), &Host::Ip(IpAddr::V6(LOCALHOST_V6)));
    assert_eq!(a.port(), 50001);
    assert_eq!(a.to_string(), "[::1]:50001");

    for bad in [
        "tcp://127.0.0.1:50001",
        "ssl://host:50002",
        "::1:50001",
        ":50001",
        "host",
        "host:",
        "host:99999",
        "[::1]50001",
        "[example.com]:50001",
    ] {
        assert!(bad.parse::<ServerAddr>().is_err(), "{bad}");
    }
}

#[test]
fn the_refused_text_is_in_the_error() {
    let e = ServerAddr::from_str("host:99999").unwrap_err();
    assert_eq!(e, ParseServerAddrError("host:99999".to_string()));
    assert_eq!(e.to_string(), "invalid server address 'host:99999'");
}

#[test]
fn ports_are_decimal_with_an_optional_plus() {
    assert_eq!(addr("host:0").port(), 0);
    assert_eq!(addr("host:65535").port(), 65535);
    assert_eq!(addr("host:+50001").port(), 50001);
    assert_eq!(addr("host:00080").port(), 80);
    for bad in ["host:65536", "host:-1", "host:+", "host: 1", "host:1 ", "host:0x10", "host:\u{0661}"] {
        assert!(ServerAddr::from_str(bad).is_err(), "{bad}");
    }
}

#[test]
fn a_bracketed_literal_may_be_ipv4() {
    assert_eq!(
        addr("[10.0.0.1]:1").host(),
        &Host::Ip(IpAddr::V4([10, 0, 0, 1]))
    );
    for bad in ["[]:1", "[::1]", "[::1]:", "[::1:1", "[[::1]]:1", "[::1%1]:1"] {
        assert!(ServerAddr::from_str(bad).is_err(), "{bad}");
    }
}

#[test]
fn what_is_no_ip_literal_is_a_domain() {
    for domain in ["256.0.0.1", "1.2.3", "01.2.3.4", "example.com", "a b", "é.example"] {
        let text = format!("{domain}:1");
        assert_eq!(addr(&text).host(), &Host::Domain(domain.to_string()));
    }
}

#[test]
fn address_text_reads_back() {
    for text in [
        "electrum.example.com:50002",
        "0.0.0.0:0",
        "255.255.255.255:65535",
        "[::]:1",
        "[2001:db8::1:0:0:1]:50001",
        "[::ffff:192.0.2.128]:443",
        "[1:2:3:4:5:6:7:8]:9",
    ] {
        assert_eq!(addr(text).to_string(), text);
        assert_eq!(addr(&addr(text).to_string()), addr(text));
    }
}

#[test]
fn a_domain_that_looks_like_an_address_reads_back_as_another() {
    let a = ServerAddr::new(Host::Domain("127.0.0.1".to_string()), 1);
    assert_ne!(addr(&a.to_string()), a);
    let a = ServerAddr::new(Host::Domain(String::new()), 1);
    assert!(ServerAddr::from_str(&a.to_string()).is_err());
}

#[test]
fn text_with_a_scheme_is_refused_wherever_it_stands() {
    for bad in ["://host:1", "host:1://", "[://]:1"] {
        assert!(ServerAddr::from_str(bad).is_err(), "{bad}");
    }
}

#[test]
fn unbracketed_ipv6_is_refused() {
    for bad in ["::1:50001", "a:b:1", "2001:db8::1:1"] {
        assert!(ServerAddr::from_str(bad).is_err(), "{bad}");
    }
}

#[test]
fn hosts_are_written_with_brackets_for_ipv6_alone() {
    assert_eq!(Host::Domain("x.y".to_string()).to_string(), "x.y");
    assert_eq!(Host::Ip(IpAddr::V4([1, 2, 3, 4])).to_string(), "1.2.3.4");
    assert_eq!(Host::Ip(IpAddr::V6(LOCALHOST_V6)).to_string(), "[::1]");
}

#[test]
fn only_domains_are_looked_up() {
    assert_eq!(
        addr("[::1]:7").to_socket_addrs(),
        SocketTarget::Socket(IpAddr::V6(LOCALHOST_V6), 7)
    );
    assert_eq!(
        addr("localhost:7").to_socket_addrs(),
        SocketTarget::Lookup("localhost".to_string(), 7)
    );
}

#[test]
fn ip_text_reads_back() {
    let cases: [(&str, IpAddr); 8] = [
        ("0.0.0.0", IpAddr::V4([0, 0, 0, 0])),
        ("192.168.10.255", IpAddr::V4([192, 168, 10, 255])),
        ("::", IpAddr::V6([0; 8])),
        ("::1", IpAddr::V6(LOCALHOST_V6)),
        ("1::", IpAddr::V6([1, 0, 0, 0, 0, 0, 0, 0])),
        ("1:0:2::", IpAddr::V6([1, 0, 2, 0, 0, 0, 0, 0])),
        ("::ffff:1.2.3.4", IpAddr::V6([0, 0, 0, 0, 0, 0xffff, 0x102, 0x304])),
        (
            "fe80::a:b:c:d",
            IpAddr::V6([0xfe80, 0, 0, 0, 0xa, 0xb, 0xc, 0xd]),
        ),
    ];
    for (text, ip) in cases {
        assert_eq!(parse_ip(text), Some(ip), "{text}");
        let host = Host::Ip(ip).to_string();
        assert_eq!(host.trim_matches(['[', ']']), text);
    }
}

/// What another reader of IP addresses makes of the text.
fn read_elsewhere(text: &str) -> Option<IpAddr> {
    match rustls::pki_types::IpAddr::try_from(text).ok()? {
        rustls::pki_types::IpAddr::V4(v4) => Some(IpAddr::V4(*v4.as_ref())),
        rustls::pki_types::IpAddr::V6(v6) => {
            let octets: [u8; 16] = *v6.as_ref();
            let mut groups = [0u16; 8];
            for (i, group) in groups.iter_mut().enumerate() {
                *group = u16::from_be_bytes([octets[2 * i], octets[2 * i + 1]]);
            }
            Some(IpAddr::V6(groups))
        }
    }
}

#[test]
fn ip_notations_agree_with_another_reader() {
    for text in [
        "",
        "1.2.3.4",
        "1.2.3.4.5",
        "1.2.3",
        "1.2.3.",
        ".1.2.3",
        "1..2.3",
        "1.2.3.04",
        "1.2.3.0",
        "1.2.3.256",
        "1.2.3.1000",
        "1.2.3.+4",
        "::",
        ":::",
        ":",
        "::1",
        "1::",
        "1:2:3:4:5:6:7:8",
        "1:2:3:4:5:6:7:8:9",
        "1:2:3:4:5:6:7",
        "1:2:3:4:5:6:7::",
        "::2:3:4:5:6:7:8",
        "1::8:9",
        "1::2::3",
        "12345::",
        "abcd::EF01",
        "g::",
        "::1.2.3.4",
        "1:2:3:4:5:6:1.2.3.4",
        "1:2:3:4:5:6:7:1.2.3.4",
        "::1.2.3.4:5",
        "::1.2.3",
        "::1.2.3.04",
        "1.2.3.4::",
        "0000::0001",
        "00000::1",
        "::ffff:1.2.3.4",
        "1:2:3:4:5:6:7:",
        ":1:2:3:4:5:6:7",
    ] {
        assert_eq!(parse_ip(text), read_elsewhere(text), "{text:?}");
    }
}
