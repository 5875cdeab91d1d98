use std::io::{Read, Write};
use std::sync::Arc;

use electrum_streaming_client::transport::connection::drain_tls;
use electrum_streaming_client::transport::io::{Cause, ErrorKind, IoError, RustlsError};
use electrum_streaming_client::transport::output::{OutputStep, TlsOutput};
use electrum_streaming_client::transport::tls::{
    connection_state_lost, told_at_eof, told_output, told_plaintext, told_processed,
    CiphertextStep, ReadStep, TlsReadHalf, TlsStream, TlsWriteHalf, WritePhase, WriteStep,
    CIPHERTEXT_CHUNK,
};
use rustls::pki_types::{CertificateDer, PrivateKeyDer, PrivatePkcs8KeyDer, ServerName, UnixTime};
use rustls::{ClientConnection, ServerConnection};

/// Accepts every server.
#[derive(Debug)]
struct AnyServer(rustls::crypto::CryptoProvider);

impl rustls::client::danger::ServerCertVerifier for AnyServer {
    fn verify_server_cert(
        &self,
        _end_entity: &CertificateDer<'_>,
        _intermediates: &[CertificateDer<'_>],
        _server_name: &ServerName<'_>,
        _ocsp: &[u8],
        _now: UnixTime,
    ) -> Result<rustls::client::danger::ServerCertVerified, rustls::Error> {
        Ok(rustls::client::danger::ServerCertVerified::assertion())
    }

    fn verify_tls12_signature(
        &self,
        _message: &[u8],
        _cert: &CertificateDer<'_>,
        _dss: &rustls::DigitallySignedStruct,
    ) -> Result<rustls::client::danger::HandshakeSignatureValid, rustls::Error> {
        Ok(rustls::client::danger::HandshakeSignatureValid::assertion())
    }

    fn verify_tls13_signature(
        &self,
        _message: &[u8],
        _cert: &CertificateDer<'_>,
        _dss: &rustls::DigitallySignedStruct,
    ) -> Result<rustls::client::danger::HandshakeSignatureValid, rustls::Error> {
        Ok(rustls::client::danger::HandshakeSignatureValid::assertion())
    }

    fn supported_verify_schemes(&self) -> Vec<rustls::SignatureScheme> {
        self.0.signature_verification_algorithms.supported_schemes()
    }
}

/// A client before its handshake.
fn fresh_client() -> ClientConnection {
    let provider = rustls::crypto::aws_lc_rs::default_provider();
    let config = rustls::ClientConfig::builder_with_provider(Arc::new(provider.clone()))
        .with_safe_default_protocol_versions()
        .unwrap()
        .dangerous()
        .with_custom_certificate_verifier(Arc::new(AnyServer(provider)))
        .with_no_client_auth();
    ClientConnection::new(Arc::new(config), ServerName::try_from("localhost").unwrap()).unwrap()
}

/// A server before its handshake. Its certificate is nothing that could be validated.
fn fresh_server() -> ServerConnection {
    let provider = rustls::crypto::aws_lc_rs::default_provider();
    let mut key = vec![
        0x30, 0x2e, 0x02, 0x01, 0x00, 0x30, 0x05, 0x06, 0x03, 0x2b, 0x65, 0x70, 0x04, 0x22, 0x04,
        0x20,
    ];
    key.extend_from_slice(&[0x2a; 32]);
    let key = provider
        .key_provider
        .load_private_key(PrivateKeyDer::Pkcs8(PrivatePkcs8KeyDer::from(key)))
        .unwrap();
    let certified =
        rustls::sign::CertifiedKey::new(vec![CertificateDer::from(b"no certificate".to_vec())], key);
    let config = rustls::ServerConfig::builder_with_provider(Arc::new(provider))
        .with_safe_default_protocol_versions()
        .unwrap()
        .with_no_client_auth()
        .with_cert_resolver(Arc::new(rustls::sign::SingleCertAndKey::from(certified)));
    ServerConnection::new(Arc::new(config)).unwrap()
}

/// All ciphertext that the server has to send.
fn from_server(server: &mut ServerConnection) -> Vec<u8> {
    let mut out = Vec::new();
    while server.wants_write() {
        server.write_tls(&mut out).unwrap();
    }
    out
}

/// Gives ciphertext to the server, and returns the plaintext that it makes of it.
fn to_server(server: &mut ServerConnection, mut bytes: &[u8]) -> Vec<u8> {
    let mut plaintext = Vec::new();
    while !bytes.is_empty() {
        server.read_tls(&mut bytes).unwrap();
        server.process_new_packets().unwrap();
        let mut buf = [0u8; 4096];
        while let Ok(n) = server.reader().read(&mut buf) {
            if n == 0 {
                break;
            }
            plaintext.extend_from_slice(&buf[..n]);
        }
    }
    plaintext
}

/// A client and a server after their handshake.
fn connected() -> (ClientConnection, ServerConnection) {
    let (mut client, mut server) = (fresh_client(), fresh_server());
    while client.is_handshaking() || server.is_handshaking() {
        let mut out = Vec::new();
        while client.wants_write() {
            client.write_tls(&mut out).unwrap();
        }
        to_server(&mut server, &out);
        let reply = from_server(&mut server);
        let mut rest = &reply[..];
        while !rest.is_empty() {
            client.read_tls(&mut rest).unwrap();
            client.process_new_packets().unwrap();
        }
    }
    (client, server)
}

/// Writes all of `buf` over a socket that accepts at most `at_once` bytes at a time.
fn write_all(
    half: &mut TlsWriteHalf,
    conn: &mut ClientConnection,
    buf: &[u8],
    at_once: usize,
    wire: &mut Vec<u8>,
) -> Result<usize, IoError> {
    let mut step = half.write(conn, buf);
    loop {
        step = match step {
            WriteStep::Send(phase) => {
                let n = half.pending().len().min(at_once);
                wire.extend_from_slice(&half.pending()[..n]);
                half.written(phase, Ok(n))
            }
            WriteStep::Encrypt => half.encrypt(conn, buf),
            WriteStep::FlushSocket => unreachable!(),
            WriteStep::Done(result) => return result,
        }
    }
}

/// Reads once from a socket on which `chunk` has arrived, and then nothing more.
fn read_once(
    half: &mut TlsReadHalf,
    conn: &mut ClientConnection,
    buf: &mut [u8],
    chunk: &[u8],
) -> Result<usize, IoError> {
    match half.read(conn, buf) {
        ReadStep::Done(result) => return result,
        ReadStep::ReadSocket => {}
    }
    match half.resume(conn, buf, chunk, Ok(chunk.len())) {
        ReadStep::Done(result) => return result,
        ReadStep::ReadSocket => {}
    }
    match half.resume(conn, buf, &[], Ok(0)) {
        ReadStep::Done(result) => result,
        ReadStep::ReadSocket => panic!("the stream has ended"),
    }
}

#[test]
fn what_is_written_arrives() {
    let (mut client, mut server) = connected();
    let (_, mut half) = TlsStream::new().into_split();
    let mut wire = Vec::new();
    for text in ["hello", "", "world"] {
        let n = write_all(&mut half, &mut client, text.as_bytes(), 7, &mut wire).unwrap();
        assert_eq!(n, text.len());
        assert!(half.pending().is_empty());
    }
    assert_eq!(to_server(&mut server, &wire), b"helloworld");
}

#[test]
fn what_the_server_sends_is_read() {
    let (mut client, mut server) = connected();
    let (mut half, _) = TlsStream::new().into_split();
    let first = from_server(&mut server);
    server.writer().write_all(b"a reply").unwrap();
    let second = from_server(&mut server);
    let chunk = [first, second].concat();

    let mut buf = [0xffu8; 4];
    assert!(matches!(half.read(&mut client, &mut buf), ReadStep::ReadSocket));
    let blocked = IoError::from(ErrorKind::Interrupted);
    assert!(matches!(
        half.resume(&mut client, &mut buf, &chunk, Err(blocked)),
        ReadStep::ReadSocket
    ));
    let step = half.resume(&mut client, &mut buf, &chunk, Ok(chunk.len()));
    assert!(matches!(step, ReadStep::Done(Ok(4))));
    assert_eq!(&buf, b"a re");

    let mut buf = [0xffu8; 10];
    assert!(matches!(half.read(&mut client, &mut buf), ReadStep::Done(Ok(3))));
    assert_eq!(&buf[..3], b"ply");
    assert_eq!(buf[3..], [0xff; 7]);
    assert!(matches!(half.read(&mut client, &mut []), ReadStep::Done(Ok(0))));
}

#[test]
fn a_long_reply_is_read_in_order() {
    let (mut client, mut server) = connected();
    let (mut half, _) = TlsStream::new().into_split();
    let sent: Vec<u8> = (0..50_000u32).map(|i| (i % 251) as u8).collect();
    let mut wire = from_server(&mut server);
    let mut rest = &sent[..];
    while !rest.is_empty() {
        let n = server.writer().write(rest).unwrap();
        rest = &rest[n..];
        wire.extend_from_slice(&from_server(&mut server));
    }

    let mut got = Vec::new();
    let mut chunks = wire.chunks(CIPHERTEXT_CHUNK);
    let mut buf = [0u8; 1000];
    while got.len() < sent.len() {
        let mut step = half.read(&mut client, &mut buf);
        loop {
            step = match step {
                ReadStep::ReadSocket => {
                    let chunk = chunks.next().unwrap();
                    half.resume(&mut client, &mut buf, chunk, Ok(chunk.len()))
                }
                ReadStep::Done(result) => {
                    got.extend_from_slice(&buf[..result.unwrap()]);
                    break;
                }
            }
        }
    }
    assert_eq!(got, sent);
}

#[test]
fn a_closed_connection_reads_as_its_end() {
    let (mut client, mut server) = connected();
    let (mut half, _) = TlsStream::new().into_split();
    server.send_close_notify();
    let chunk = from_server(&mut server);
    let n = read_once(&mut half, &mut client, &mut [0; 8], &chunk).unwrap();
    assert_eq!(n, 0);
    // No more ciphertext is taken once the connection is closed.
    let step = half.resume(&mut client, &mut [0; 8], b"more", Ok(4));
    assert!(matches!(step, ReadStep::Done(Ok(0))));
}

#[test]
fn a_stream_that_ends_too_early_is_an_error() {
    let (mut client, mut server) = connected();
    let (mut half, _) = TlsStream::new().into_split();
    let chunk = from_server(&mut server);
    let e = read_once(&mut half, &mut client, &mut [0; 8], &chunk).unwrap_err();
    assert_eq!(e.kind, ErrorKind::UnexpectedEof);
}

#[test]
fn a_stream_that_ends_is_read_to_its_end() {
    let (mut client, mut server) = connected();
    let (mut half, _) = TlsStream::new().into_split();
    server.writer().write_all(b"last words").unwrap();
    let chunk = from_server(&mut server);
    let mut buf = [0; 32];
    assert_eq!(read_once(&mut half, &mut client, &mut buf, &chunk).unwrap(), 10);
    assert_eq!(&buf[..10], b"last words");
    let e = read_once(&mut half, &mut client, &mut buf, &[]).unwrap_err();
    assert_eq!(e.kind, ErrorKind::UnexpectedEof);
}

#[test]
fn a_read_goes_on_with_what_is_pending() {
    let (mut client, mut server) = connected();
    let (mut half, _) = TlsStream::new().into_split();
    server.writer().write_all(b"abcdef").unwrap();
    let bytes = from_server(&mut server);
    let mut got = Vec::new();
    let mut buf = [0u8; 4];
    assert!(matches!(half.read(&mut client, &mut buf), ReadStep::ReadSocket));
    assert!(matches!(half.read_ciphertext(&bytes, Ok(bytes.len())), CiphertextStep::Got(true)));
    assert!(matches!(half.read_on(&mut client, &mut [], true), ReadStep::Done(Ok(0))));
    for expected in [4, 2] {
        match half.read(&mut client, &mut buf) {
            ReadStep::Done(Ok(n)) => {
                assert_eq!(n, expected);
                got.extend_from_slice(&buf[..n]);
            }
            other => panic!("{other:?}"),
        }
    }
    assert_eq!(got, b"abcdef");
    match half.read_on(&mut client, &mut buf, false) {
        ReadStep::Done(Err(e)) => {
            assert_eq!(e.kind, ErrorKind::UnexpectedEof);
            assert!(matches!(e.cause, Cause::Stream(_)));
        }
        other => panic!("{other:?}"),
    }
}

#[test]
fn a_failed_connection_accepts_nothing() {
    let (mut client, _) = connected();
    let (mut reader, mut half) = TlsStream::new().into_split();
    read_once(&mut reader, &mut client, &mut [0; 8], b"HTTP/1.1 400 Bad Request").unwrap_err();
    match half.encrypt(&mut client, b"x") {
        WriteStep::Done(Err(e)) => {
            assert_eq!(e.kind, ErrorKind::InvalidData);
            assert!(matches!(e.cause, Cause::Stream(_)));
        }
        other => panic!("{other:?}"),
    }
    assert!(half.pending().is_empty());
}

#[test]
fn a_failed_read_of_the_socket_ends_the_read() {
    let (mut client, _) = connected();
    let (mut half, _) = TlsStream::new().into_split();
    let e = IoError::message(ErrorKind::Other, "gone".to_string());
    match half.resume(&mut client, &mut [0; 8], &[], Err(e)) {
        ReadStep::Done(Err(e)) => assert_eq!(e.to_string(), "gone"),
        other => panic!("{other:?}"),
    }
}

#[test]
fn what_is_no_tls_is_invalid_data() {
    let (mut client, _) = connected();
    let (mut half, mut writer) = TlsStream::new().into_split();
    let e = read_once(&mut half, &mut client, &mut [0; 8], b"HTTP/1.1 400 Bad Request").unwrap_err();
    assert_eq!(e.kind, ErrorKind::InvalidData);
    assert!(matches!(e.cause, Cause::Tls(RustlsError::Other(_))));

    // A connection that has failed writes nothing more.
    let mut wire = Vec::new();
    let e = write_all(&mut writer, &mut client, b"x", 100, &mut wire).unwrap_err();
    assert_eq!(e.kind, ErrorKind::InvalidData);
    assert!(matches!(writer.flush(&mut client), WriteStep::Done(Err(_))));
    assert!(wire.is_empty());
}

#[test]
fn plaintext_read_by_kind() {
    let (mut client, mut server) = connected();
    let (half, _) = TlsStream::new().into_split();
    assert_eq!(half.try_read_plaintext(&mut client, &mut [0; 8]).unwrap(), None);
    assert_eq!(half.try_read_plaintext(&mut client, &mut []).unwrap(), Some(0));
    server.writer().write_all(b"xy").unwrap();
    let bytes = from_server(&mut server);
    let mut rest = &bytes[..];
    while !rest.is_empty() {
        client.read_tls(&mut rest).unwrap();
        client.process_new_packets().unwrap();
    }
    let mut buf = [0; 8];
    assert_eq!(half.try_read_plaintext(&mut client, &mut buf).unwrap(), Some(2));
    assert_eq!(&buf[..2], b"xy");
}

#[test]
fn pending_ciphertext_is_fed_and_forgotten() {
    let (mut client, mut server) = connected();
    let (mut half, _) = TlsStream::new().into_split();
    server.writer().write_all(b"xy").unwrap();
    let bytes = from_server(&mut server);
    assert!(matches!(half.read_ciphertext(&bytes, Ok(bytes.len())), CiphertextStep::Got(true)));
    assert!(half.process_pending_incoming(&mut client).is_ok());
    let mut buf = [0; 8];
    assert!(matches!(half.read(&mut client, &mut buf), ReadStep::Done(Ok(2))));
    assert!(matches!(half.read(&mut client, &mut buf), ReadStep::ReadSocket));

    assert!(matches!(half.read_ciphertext(&bytes, Ok(0)), CiphertextStep::Got(false)));
    assert!(matches!(
        half.read_ciphertext(&bytes, Err(IoError::from(ErrorKind::Interrupted))),
        CiphertextStep::Again
    ));
    assert!(matches!(
        half.read_ciphertext(&bytes, Err(IoError::from(ErrorKind::Other))),
        CiphertextStep::Fail(_)
    ));
}

#[test]
fn accepted_plaintext_is_reported_though_it_cannot_be_sent() {
    let (mut client, mut server) = connected();
    let (_, mut half) = TlsStream::new().into_split();
    let mut wire = Vec::new();

    assert!(matches!(half.write(&mut client, b"first"), WriteStep::Encrypt));
    let phase = match half.encrypt(&mut client, b"first") {
        WriteStep::Send(phase) => phase,
        other => panic!("{other:?}"),
    };
    assert_eq!(phase, WritePhase::Accepted(5));
    // Some bytes go out, and then the socket fails.
    wire.extend_from_slice(&half.pending()[..3]);
    assert!(matches!(half.written(phase, Ok(3)), WriteStep::Send(WritePhase::Accepted(5))));
    let left = half.pending().to_vec();
    let reset = IoError::message(ErrorKind::Other, "reset".to_string());
    assert!(matches!(half.written(phase, Err(reset)), WriteStep::Done(Ok(5))));
    assert_eq!(half.pending(), left);

    // A flush reports the failure as long as it lasts.
    assert!(matches!(half.flush(&mut client), WriteStep::Send(WritePhase::Flush)));
    let reset = IoError::message(ErrorKind::Other, "reset".to_string());
    match half.written(WritePhase::Flush, Err(reset)) {
        WriteStep::Done(Err(e)) => assert_eq!(e.to_string(), "reset"),
        other => panic!("{other:?}"),
    }

    // The next write sends what is left first.
    let n = write_all(&mut half, &mut client, b" and second", 1000, &mut wire).unwrap();
    assert_eq!(n, 11);
    assert_eq!(to_server(&mut server, &wire), b"first and second");
    assert!(matches!(half.flush(&mut client), WriteStep::FlushSocket));
}

#[test]
fn a_failed_write_of_earlier_ciphertext_accepts_nothing() {
    let (mut client, mut server) = connected();
    let (_, mut half) = TlsStream::new().into_split();
    client.writer().write_all(b"earlier").unwrap();
    let step = half.write(&mut client, b"later");
    assert!(matches!(step, WriteStep::Send(WritePhase::Earlier)));
    let reset = IoError::from(ErrorKind::Other);
    assert!(matches!(
        half.written(WritePhase::Earlier, Err(reset)),
        WriteStep::Done(Err(IoError { kind: ErrorKind::Other, .. }))
    ));
    let pending = half.pending().to_vec();
    assert_eq!(to_server(&mut server, &pending), b"earlier");
}

#[test]
fn drained_ciphertext_is_appended() {
    let (mut client, mut server) = connected();
    client.writer().write_all(b"one").unwrap();
    let mut out = b"before".to_vec();
    drain_tls(&mut client, &mut out).unwrap();
    assert!(!client.wants_write());
    assert_eq!(&out[..6], b"before");
    assert_eq!(to_server(&mut server, &out[6..]), b"one");
}

#[test]
fn output_is_sent_piece_by_piece() {
    let mut output = TlsOutput::new();
    assert!(matches!(output.queue_and_write_ciphertext(&[]), OutputStep::Done));
    assert!(matches!(output.flush(), OutputStep::Done));
    assert!(matches!(output.queue_and_write_ciphertext(b"abc"), OutputStep::Write));
    assert!(matches!(output.written(Ok(1)), OutputStep::Write));
    assert_eq!(output.pending(), b"bc");
    assert!(matches!(output.queue_and_write_ciphertext(b"de"), OutputStep::Write));
    assert_eq!(output.pending(), b"bcde");
    assert!(matches!(output.flush(), OutputStep::Write));
    assert!(matches!(output.written(Ok(4)), OutputStep::Done));
    assert!(output.pending().is_empty());
}

#[test]
fn output_survives_failures() {
    let mut output = TlsOutput::new();
    output.queue_and_write_ciphertext(b"abc");
    match output.written(Ok(0)) {
        OutputStep::Fail(e) => assert_eq!(e.kind, ErrorKind::WriteZero),
        other => panic!("{other:?}"),
    }
    let interrupted = IoError::from(ErrorKind::Interrupted);
    assert!(matches!(output.written(Err(interrupted)), OutputStep::Write));
    match output.written(Err(IoError::from(ErrorKind::TimedOut))) {
        OutputStep::Fail(e) => assert_eq!(e.kind, ErrorKind::TimedOut),
        other => panic!("{other:?}"),
    }
    assert_eq!(output.pending(), b"abc");
    // A socket that claims more than it was given has accepted all of it.
    assert!(matches!(output.written(Ok(9)), OutputStep::Done));
    assert!(output.pending().is_empty());
}

#[test]
fn what_outside_results_come_to() {
    assert_eq!(told_plaintext(Ok(3)).unwrap(), Some(3));
    assert_eq!(told_plaintext(Err(IoError::from(ErrorKind::WouldBlock))).unwrap(), None);
    let e = told_plaintext(Err(IoError::from(ErrorKind::Other))).unwrap_err();
    assert_eq!(e.kind, ErrorKind::Other);

    assert!(told_processed(Ok(())).is_ok());
    let e = told_processed(Err(RustlsError::from(rustls::Error::DecryptError))).unwrap_err();
    assert_eq!(e.kind, ErrorKind::InvalidData);
    assert!(matches!(e.cause, Cause::Tls(RustlsError::Other(rustls::Error::DecryptError))));

    assert_eq!(told_at_eof(Ok(Some(0))).unwrap(), 0);
    assert_eq!(told_at_eof(Ok(None)).unwrap_err().kind, ErrorKind::UnexpectedEof);
    let e = told_at_eof(Err(IoError::from(ErrorKind::Other))).unwrap_err();
    assert_eq!(e.kind, ErrorKind::Other);

    let fail = || OutputStep::Fail(IoError::from(ErrorKind::Other));
    assert!(matches!(told_output(WritePhase::Earlier, OutputStep::Done), WriteStep::Encrypt));
    assert!(matches!(told_output(WritePhase::Flush, OutputStep::Done), WriteStep::FlushSocket));
    assert!(matches!(
        told_output(WritePhase::Accepted(2), OutputStep::Done),
        WriteStep::Done(Ok(2))
    ));
    assert!(matches!(told_output(WritePhase::Accepted(2), fail()), WriteStep::Done(Ok(2))));
    assert!(matches!(told_output(WritePhase::Accepted(0), fail()), WriteStep::Done(Err(_))));
    assert!(matches!(told_output(WritePhase::Earlier, fail()), WriteStep::Done(Err(_))));
}

#[test]
fn a_lost_connection_state_is_an_error() {
    let e = connection_state_lost();
    assert_eq!(e.kind, ErrorKind::Other);
    assert_eq!(e.to_string(), "TLS connection state mutex poisoned");
}
