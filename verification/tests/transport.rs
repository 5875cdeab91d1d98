use electrum_streaming_client::ip::IpAddr;
use electrum_streaming_client::transport::addr::{Host, ServerAddr};
use electrum_streaming_client::transport::attempts::{AttemptAction, ConnectAttempts};
use electrum_streaming_client::transport::connect::{
    next_step, plan_ssl, step_error, SslFailure, SslStep, Verification,
};
use electrum_streaming_client::transport::deadline::{
    connection_timed_out, deadline_after, map_timeout, remaining_timeout, Duration, HandshakeIo,
    Instant,
};
use electrum_streaming_client::transport::error::{ConnectError, TlsError};
use electrum_streaming_client::transport::io::{Cause, ErrorKind, IoError, RustlsError};
use electrum_streaming_client::transport::server_name::{
    choose_server_name, server_name, ServerName,
};

fn domain(name: &str) -> ServerAddr {
    ServerAddr::new(Host::Domain(name.to_string()), 50002)
}

fn ip(ip: IpAddr) -> ServerAddr {
    ServerAddr::new(Host::Ip(ip), 50002)
}

fn expired() -> rustls::Error {
    rustls::Error::InvalidCertificate(rustls::CertificateError::Expired)
}

fn nanos(nanos: u128) -> Duration {
    Duration { nanos }
}

fn at(nanos: u128) -> Instant {
    Instant { nanos }
}

#[test]
fn kinds_of_stream_errors_are_told() {
    for (theirs, ours) in [
        (std::io::ErrorKind::WouldBlock, ErrorKind::WouldBlock),
        (std::io::ErrorKind::TimedOut, ErrorKind::TimedOut),
        (std::io::ErrorKind::Interrupted, ErrorKind::Interrupted),
        (std::io::ErrorKind::WriteZero, ErrorKind::WriteZero),
        (std::io::ErrorKind::UnexpectedEof, ErrorKind::UnexpectedEof),
        (std::io::ErrorKind::InvalidInput, ErrorKind::InvalidInput),
        (std::io::ErrorKind::InvalidData, ErrorKind::InvalidData),
        (std::io::ErrorKind::Other, ErrorKind::Other),
        (std::io::ErrorKind::ConnectionReset, ErrorKind::Unnamed),
    ] {
        let e = IoError::from(std::io::Error::new(theirs, "text"));
        assert_eq!(e.kind, ours);
        assert_eq!(e.to_string(), "text");
        if ours != ErrorKind::Unnamed {
            assert_eq!(IoError::from(ours).to_string(), std::io::Error::from(theirs).to_string());
        }
    }
}

#[test]
fn texts_of_io_errors_are_those_of_their_causes() {
    assert_eq!(
        IoError::from(ErrorKind::Unnamed).to_string(),
        std::io::Error::from(std::io::ErrorKind::Other).to_string()
    );
    let stream = IoError::from(std::io::Error::new(std::io::ErrorKind::Other, "reported"));
    assert_eq!(ConnectError::Io(stream).to_string(), "connection I/O error: reported");
    let inner = IoError::message(ErrorKind::WouldBlock, "inner".to_string());
    assert_eq!(IoError::wrapping(ErrorKind::TimedOut, inner).to_string(), "inner");
    let tls = IoError {
        kind: ErrorKind::InvalidData,
        cause: Cause::Tls(RustlsError::from(expired())),
    };
    assert_eq!(tls.to_string(), expired().to_string());
    let other = IoError {
        kind: ErrorKind::InvalidData,
        cause: Cause::Tls(RustlsError::from(rustls::Error::DecryptError)),
    };
    assert_eq!(other.to_string(), rustls::Error::DecryptError.to_string());
}

#[test]
fn embedded_rustls_errors_are_tls_failures() {
    let io = std::io::Error::new(std::io::ErrorKind::InvalidData, expired());
    let e = ConnectError::from_handshake_io(IoError::from(io));
    assert_eq!(e.certificate_error(), Some(&rustls::CertificateError::Expired));
    assert!(matches!(e, ConnectError::Tls(TlsError::Rustls(_))));

    let io = std::io::Error::new(std::io::ErrorKind::InvalidData, rustls::Error::DecryptError);
    let e = ConnectError::from_handshake_io(IoError::from(io));
    assert_eq!(e.certificate_error(), None);
    assert!(matches!(
        e,
        ConnectError::Tls(TlsError::Rustls(RustlsError::Other(rustls::Error::DecryptError)))
    ));
}

#[test]
fn other_handshake_errors_stay_io_errors() {
    let e = ConnectError::from_handshake_io(IoError::from(ErrorKind::UnexpectedEof));
    assert!(matches!(
        e,
        ConnectError::Io(IoError { kind: ErrorKind::UnexpectedEof, cause: Cause::Kind })
    ));

    let io = std::io::Error::new(std::io::ErrorKind::ConnectionReset, "gone");
    let e = ConnectError::from_handshake_io(IoError::from(io));
    match e {
        ConnectError::Io(IoError { kind: ErrorKind::Unnamed, cause: Cause::Stream(same) }) => {
            assert_eq!(same.kind(), std::io::ErrorKind::ConnectionReset);
            assert_eq!(same.to_string(), "gone");
        }
        other => panic!("{other:?}"),
    }

    // A TLS error behind a further error is not looked for.
    let tls = std::io::Error::new(std::io::ErrorKind::WouldBlock, expired());
    let timed_out = map_timeout::<()>(Some(at(0)), Err(IoError::from(tls))).unwrap_err();
    assert!(matches!(
        ConnectError::from_handshake_io(timed_out),
        ConnectError::Io(IoError { kind: ErrorKind::TimedOut, cause: Cause::Io(_) })
    ));
}

#[test]
fn errors_convert_into_the_wider_ones() {
    assert!(matches!(
        ConnectError::from(TlsError::MissingDomain),
        ConnectError::Tls(TlsError::MissingDomain)
    ));
    assert!(matches!(
        ConnectError::from(IoError::from(ErrorKind::Other)),
        ConnectError::Io(IoError { kind: ErrorKind::Other, .. })
    ));
    assert_eq!(
        TlsError::from(expired()).certificate_error(),
        Some(&rustls::CertificateError::Expired)
    );
    assert_eq!(
        ConnectError::from(expired()).certificate_error(),
        Some(&rustls::CertificateError::Expired)
    );
    assert_eq!(TlsError::MissingDomain.certificate_error(), None);
}

#[test]
fn messages_of_connection_errors() {
    assert_eq!(
        ConnectError::Io(IoError::message(ErrorKind::Other, "gone".to_string())).to_string(),
        "connection I/O error: gone"
    );
    assert_eq!(ConnectError::io_message("x"), "connection I/O error: x");
    assert_eq!(
        ConnectError::Tls(TlsError::MissingDomain).to_string(),
        "TLS certificate validation requires a domain name"
    );
    assert_eq!(
        TlsError::InvalidServerName("a b".to_string()).to_string(),
        "invalid TLS server name 'a b'"
    );
    assert_eq!(
        TlsError::from(rustls::Error::DecryptError).to_string(),
        format!("TLS error: {}", rustls::Error::DecryptError)
    );
    assert_eq!(TlsError::rustls_message("x"), "TLS error: x");
}

#[test]
fn server_names_of_domains() {
    for validate in [true, false] {
        assert_eq!(
            server_name(&domain("Electrum.Example.com"), validate).unwrap(),
            ServerName::DnsName("Electrum.Example.com".to_string())
        );
        assert_eq!(
            server_name(&domain("192.0.2.1"), validate).unwrap(),
            ServerName::Ipv4([192, 0, 2, 1])
        );
        assert_eq!(
            server_name(&domain("::2"), validate).unwrap(),
            ServerName::Ipv6([0, 0, 0, 0, 0, 0, 0, 0, 0, 0, 0, 0, 0, 0, 0, 2])
        );
        for bad in ["", "a b", "-", "é"] {
            match server_name(&domain(bad), validate) {
                Err(TlsError::InvalidServerName(name)) => assert_eq!(name, bad),
                other => panic!("{bad}: {other:?}"),
            }
        }
    }
}

#[test]
fn server_names_of_ip_addresses_need_no_validation() {
    let v4 = ip(IpAddr::V4([192, 0, 2, 1]));
    let v6 = ip(IpAddr::V6([0x2001, 0xdb8, 0, 0, 0, 0, 0, 0xff01]));
    assert_eq!(server_name(&v4, false).unwrap(), ServerName::Ipv4([192, 0, 2, 1]));
    assert_eq!(
        server_name(&v6, false).unwrap(),
        ServerName::Ipv6([0x20, 0x01, 0x0d, 0xb8, 0, 0, 0, 0, 0, 0, 0, 0, 0, 0, 0xff, 0x01])
    );
    for addr in [v4, v6] {
        assert!(matches!(server_name(&addr, true), Err(TlsError::MissingDomain)));
    }
}

#[test]
fn a_name_that_was_read_is_taken() {
    let parsed = Some(ServerName::DnsName("x".to_string()));
    assert_eq!(
        choose_server_name(&domain("x"), true, parsed.clone()).unwrap(),
        ServerName::DnsName("x".to_string())
    );
    assert!(matches!(
        choose_server_name(&domain("x"), true, None),
        Err(TlsError::InvalidServerName(_))
    ));
    assert!(matches!(
        choose_server_name(&ip(IpAddr::V4([1, 2, 3, 4])), true, parsed),
        Err(TlsError::MissingDomain)
    ));
}

#[test]
fn what_is_left_of_a_deadline() {
    assert_eq!(deadline_after(at(5), None), None);
    let deadline = deadline_after(at(5), Some(nanos(10))).unwrap();
    assert_eq!(deadline, at(15));
    assert_eq!(remaining_timeout(deadline, at(5)).unwrap(), nanos(10));
    assert_eq!(remaining_timeout(deadline, at(14)).unwrap(), nanos(1));
    for late in [15, 16, u128::MAX] {
        let e = remaining_timeout(deadline, at(late)).unwrap_err();
        assert_eq!(e.kind, ErrorKind::TimedOut);
        assert_eq!(e.to_string(), "TLS handshake timed out");
    }
}

#[test]
fn handshake_operations_share_one_deadline() {
    let io = HandshakeIo { deadline: deadline_after(at(0), Some(nanos(10))) };
    assert_eq!(io.apply_deadline(at(4)).unwrap(), Some(nanos(6)));
    assert_eq!(io.apply_deadline(at(9)).unwrap(), Some(nanos(1)));
    assert_eq!(io.apply_deadline(at(10)).unwrap_err().kind, ErrorKind::TimedOut);

    let unlimited = HandshakeIo { deadline: None };
    assert_eq!(unlimited.apply_deadline(at(10)).unwrap(), None);
}

#[test]
fn socket_timeouts_read_as_timed_out() {
    let blocked = || IoError::message(ErrorKind::WouldBlock, "blocked".to_string());
    let e = map_timeout::<usize>(Some(at(0)), Err(blocked())).unwrap_err();
    assert_eq!(e.kind, ErrorKind::TimedOut);
    assert_eq!(e.to_string(), "blocked");

    let e = map_timeout::<usize>(None, Err(blocked())).unwrap_err();
    assert_eq!(e.kind, ErrorKind::WouldBlock);
    let e = map_timeout::<usize>(Some(at(0)), Err(IoError::from(ErrorKind::Other))).unwrap_err();
    assert_eq!(e.kind, ErrorKind::Other);
    assert_eq!(map_timeout(Some(at(0)), Ok(3)).unwrap(), 3);

    let io = HandshakeIo { deadline: Some(at(0)) };
    let once: Result<usize, IoError> = io.finish(Err(blocked()));
    let twice = io.finish(once).unwrap_err();
    assert_eq!(twice.kind, ErrorKind::TimedOut);
    assert!(matches!(twice.cause, Cause::Io(inner) if inner.kind == ErrorKind::WouldBlock));
}

#[test]
fn the_address_is_named_when_time_is_over() {
    let e = connection_timed_out(&ip(IpAddr::V6([0, 0, 0, 0, 0, 0, 0, 1])));
    assert_eq!(e.kind, ErrorKind::TimedOut);
    assert_eq!(e.to_string(), "connection to '[::1]:50002' timed out");
}

/// Runs the attempts against addresses that all fail, and returns the times they were given.
fn attempts_on_failing(count: usize, timeout: u128) -> (Vec<(usize, u128)>, IoError) {
    let mut made = Vec::new();
    let (mut attempts, mut action) = ConnectAttempts::start(count, nanos(timeout));
    loop {
        let next = match action {
            AttemptAction::Halve(timeout) => attempts.halved(nanos(timeout.nanos / 2)),
            AttemptAction::Connect { index, timeout } => {
                made.push((index, timeout.nanos));
                attempts.failed(IoError::message(ErrorKind::Other, format!("attempt {index}")))
            }
            AttemptAction::GiveUp => return (made, attempts.give_up()),
        };
        attempts = next.0;
        action = next.1;
    }
}

#[test]
fn half_of_the_time_goes_to_each_address_but_the_last() {
    let (made, e) = attempts_on_failing(4, 1600);
    assert_eq!(made, [(0, 800), (1, 400), (2, 200), (3, 200)]);
    assert_eq!(made.iter().map(|(_, timeout)| timeout).sum::<u128>(), 1600);
    assert_eq!(e.to_string(), "attempt 3");

    let (made, e) = attempts_on_failing(1, 1600);
    assert_eq!(made, [(0, 1600)]);
    assert_eq!(e.to_string(), "attempt 0");
}

#[test]
fn attempts_keep_the_total_timeout() {
    for count in 0..8 {
        for timeout in [0, 1, 7, 1000, 12345] {
            let (made, _) = attempts_on_failing(count, timeout);
            assert_eq!(made.len(), count);
            assert!(made.iter().map(|(_, timeout)| timeout).sum::<u128>() <= timeout);
        }
    }
}

#[test]
fn without_addresses_there_is_nothing_to_try() {
    let (made, e) = attempts_on_failing(0, 1600);
    assert!(made.is_empty());
    assert_eq!(e.kind, ErrorKind::InvalidInput);
    assert_eq!(e.to_string(), "could not resolve to any addresses");
}

#[test]
fn a_plan_names_the_server_and_its_verification() {
    let plan = plan_ssl(&domain("example.com"), true).unwrap();
    assert_eq!(plan.server_name, ServerName::DnsName("example.com".to_string()));
    assert_eq!(plan.verification, Verification::WebRoots);
    let plan = plan_ssl(&ip(IpAddr::V4([1, 2, 3, 4])), false).unwrap();
    assert_eq!(plan.server_name, ServerName::Ipv4([1, 2, 3, 4]));
    assert_eq!(plan.verification, Verification::Disabled);
    assert!(matches!(
        plan_ssl(&ip(IpAddr::V4([1, 2, 3, 4])), true),
        Err(ConnectError::Tls(TlsError::MissingDomain))
    ));
}

#[test]
fn ssl_steps_come_in_order() {
    let mut steps = vec![SslStep::ConnectTcp];
    while *steps.last().unwrap() != SslStep::Ready {
        steps.push(next_step(*steps.last().unwrap(), Ok(())).unwrap());
    }
    assert_eq!(
        steps,
        [
            SslStep::ConnectTcp,
            SslStep::Configure,
            SslStep::Handshake,
            SslStep::ClearReadTimeout,
            SslStep::ClearWriteTimeout,
            SslStep::MakeStream,
            SslStep::Ready,
        ]
    );
}

#[test]
fn a_failed_step_is_classified() {
    let embedded = || {
        IoError::from(std::io::Error::new(std::io::ErrorKind::InvalidData, expired()))
    };
    assert!(matches!(
        next_step(SslStep::ConnectTcp, Err(SslFailure::Io(embedded()))),
        Err(ConnectError::Io(_))
    ));
    let e = next_step(SslStep::Handshake, Err(SslFailure::Io(embedded()))).unwrap_err();
    assert_eq!(e.certificate_error(), Some(&rustls::CertificateError::Expired));
    let e = step_error(SslStep::Configure, SslFailure::Rustls(RustlsError::from(expired())));
    assert_eq!(e.certificate_error(), Some(&rustls::CertificateError::Expired));
}
