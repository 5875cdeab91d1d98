//! Errors of establishing a connection.

use vstd::prelude::*;

use crate::text::push_text;
use crate::transport::io::{describe_rustls_error, IoError, RustlsError};

verus! {

/// Error establishing an Electrum connection.
#[non_exhaustive]
#[derive(Debug)]
pub enum ConnectError {
    /// Transport or socket failure, including DNS, TCP, timeout, and handshake EOF/reset.
    Io(IoError),
    /// TLS configuration, protocol, or certificate-validation failure.
    Tls(TlsError),
}

/// Error in the TLS layer of a connection: configuration, protocol, or
/// certificate-validation failures. Transport failures are [`ConnectError::Io`].
#[non_exhaustive]
#[derive(Debug)]
pub enum TlsError {
    /// TLS protocol or certificate-validation failure.
    Rustls(RustlsError),
    /// Validation of the domain is asked for, and the host is an IP address.
    MissingDomain,
    /// The host is not valid as the name of a TLS server.
    InvalidServerName(String),
}

impl ConnectError {
    /// The reason for which the certificate of the server was rejected, if that is the error.
    pub open spec fn certificate(self) -> Option<rustls::CertificateError> {
        match self {
            ConnectError::Tls(e) => e.certificate(),
            ConnectError::Io(_) => None,
        }
    }

    /// Returns the certificate-validation error, if present.
    pub fn certificate_error(&self) -> (r: Option<&rustls::CertificateError>)
        ensures
            match self.certificate() {
                Some(error) => r == Some(&error),
                None => r is None,
            },
    {
        match self {
            ConnectError::Tls(e) => e.certificate_error(),
            _ => None,
        }
    }

    /// The class of an error with which a handshake ended.
    pub open spec fn of_handshake(err: IoError) -> ConnectError {
        match err.tls() {
            Some(tls) => ConnectError::Tls(TlsError::Rustls(tls)),
            None => ConnectError::Io(err),
        }
    }

    /// Classifies embedded rustls errors as TLS failures and preserves other I/O errors.
    pub fn from_handshake_io(err: IoError) -> (r: Self)
        ensures
            r == ConnectError::of_handshake(err),
    {
        match err.into_tls() {
            Ok(tls) => ConnectError::Tls(TlsError::Rustls(tls)),
            Err(same) => ConnectError::Io(same),
        }
    }

    /// The message of a transport failure, by the text of its error.
    pub fn io_message(text: &str) -> (r: String)
        ensures
            r@ == "connection I/O error: "@ + text@,
    {
        let mut out = String::new();
        push_text(&mut out, "connection I/O error: ");
        push_text(&mut out, text);
        assert(out@ =~= "connection I/O error: "@ + text@);
        out
    }

    /// The message of this error.
    pub fn to_string(&self) -> (r: String)
        ensures
            match *self {
                ConnectError::Io(e) => exists|text: Seq<char>| #[trigger]
                    e.displays_as(text) && r@ == "connection I/O error: "@ + text,
                ConnectError::Tls(e) => e.displays_as(r@),
            },
    {
        match self {
            ConnectError::Io(e) => {
                let text = e.to_string();
                assert(e.displays_as(text@));
                ConnectError::io_message(&text)
            },
            ConnectError::Tls(e) => e.to_string(),
        }
    }
}

impl TlsError {
    /// The reason for which the certificate of the server was rejected, if that is the error.
    pub open spec fn certificate(self) -> Option<rustls::CertificateError> {
        match self {
            TlsError::Rustls(RustlsError::InvalidCertificate(error)) => Some(error),
            _ => None,
        }
    }

    /// Server certificate rejected by the local verifier.
    pub fn certificate_error(&self) -> (r: Option<&rustls::CertificateError>)
        ensures
            match self.certificate() {
                Some(error) => r == Some(&error),
                None => r is None,
            },
    {
        match self {
            TlsError::Rustls(RustlsError::InvalidCertificate(error)) => Some(error),
            _ => None,
        }
    }

    /// Whether this error may display as `text`.
    pub open spec fn displays_as(self, text: Seq<char>) -> bool {
        match self {
            TlsError::MissingDomain => text == "TLS certificate validation requires a domain name"@,
            TlsError::InvalidServerName(name) => text == "invalid TLS server name '"@ + name@
                + "'"@,
            TlsError::Rustls(e) => exists|cause: Seq<char>| #[trigger]
                crate::transport::io::rustls_error_displays_as(e, cause) && text == "TLS error: "@
                    + cause,
        }
    }

    /// The message of a TLS protocol or certificate-validation failure, by the text of its error.
    pub fn rustls_message(text: &str) -> (r: String)
        ensures
            r@ == "TLS error: "@ + text@,
    {
        let mut out = String::new();
        push_text(&mut out, "TLS error: ");
        push_text(&mut out, text);
        assert(out@ =~= "TLS error: "@ + text@);
        out
    }

    /// The message of this error.
    pub fn to_string(&self) -> (r: String)
        ensures
            self.displays_as(r@),
    {
        let mut out = String::new();
        match self {
            TlsError::MissingDomain => {
                push_text(&mut out, "TLS certificate validation requires a domain name");
                assert(out@ =~= "TLS certificate validation requires a domain name"@);
            },
            TlsError::InvalidServerName(name) => {
                push_text(&mut out, "invalid TLS server name '");
                push_text(&mut out, name);
                push_text(&mut out, "'");
                assert(out@ =~= "invalid TLS server name '"@ + name@ + "'"@);
            },
            TlsError::Rustls(e) => {
                let text = describe_rustls_error(e);
                out = TlsError::rustls_message(&text);
                assert(crate::transport::io::rustls_error_displays_as(*e, text@));
            },
        }
        out
    }
}

impl From<IoError> for ConnectError {
    fn from(e: IoError) -> (r: Self) {
        ConnectError::Io(e)
    }
}

impl vstd::std_specs::convert::FromSpecImpl<IoError> for ConnectError {
    open spec fn obeys_from_spec() -> bool {
        true
    }

    open spec fn from_spec(e: IoError) -> Self {
        ConnectError::Io(e)
    }
}

impl From<TlsError> for ConnectError {
    fn from(e: TlsError) -> (r: Self) {
        ConnectError::Tls(e)
    }
}

impl vstd::std_specs::convert::FromSpecImpl<TlsError> for ConnectError {
    open spec fn obeys_from_spec() -> bool {
        true
    }

    open spec fn from_spec(e: TlsError) -> Self {
        ConnectError::Tls(e)
    }
}

impl From<rustls::Error> for TlsError {
    fn from(e: rustls::Error) -> (r: Self) {
        TlsError::Rustls(RustlsError::from(e))
    }
}

impl vstd::std_specs::convert::FromSpecImpl<rustls::Error> for TlsError {
    open spec fn obeys_from_spec() -> bool {
        true
    }

    open spec fn from_spec(e: rustls::Error) -> Self {
        TlsError::Rustls(crate::transport::io::rustls_error_of(e))
    }
}

impl From<rustls::Error> for ConnectError {
    fn from(e: rustls::Error) -> (r: Self) {
        ConnectError::Tls(TlsError::from(e))
    }
}

impl vstd::std_specs::convert::FromSpecImpl<rustls::Error> for ConnectError {
    open spec fn obeys_from_spec() -> bool {
        true
    }

    open spec fn from_spec(e: rustls::Error) -> Self {
        ConnectError::Tls(TlsError::Rustls(crate::transport::io::rustls_error_of(e)))
    }
}

// ---------------------------------------------------------------------------------------------
// Laws
// ---------------------------------------------------------------------------------------------
/// A handshake that ended with a TLS error inside an I/O error is a TLS failure with that error,
/// whose rejected certificate can then be asked for; every other error stays the I/O error it is.
pub proof fn law_handshake_errors_are_told_apart(err: IoError)
    ensures
        err.tls() matches Some(tls) ==> ConnectError::of_handshake(err) == ConnectError::Tls(
            TlsError::Rustls(tls),
        ),
        err.tls() is None ==> ConnectError::of_handshake(err) == ConnectError::Io(err),
        ConnectError::of_handshake(err).certificate() == (match err.tls() {
            Some(RustlsError::InvalidCertificate(error)) => Some(error),
            _ => None,
        }),
{
}

/// Errors are wrapped as they are, and only a TLS error that rejects a certificate has one.
pub proof fn law_errors_are_kept(
    io: IoError,
    tls: TlsError,
    e: rustls::Error,
    name: String,
    other: RustlsError,
)
    ensures
        <ConnectError as vstd::std_specs::convert::FromSpec<IoError>>::from_spec(io) == ConnectError::Io(io),
        <ConnectError as vstd::std_specs::convert::FromSpec<TlsError>>::from_spec(tls) == ConnectError::Tls(tls),
        <TlsError as vstd::std_specs::convert::FromSpec<rustls::Error>>::from_spec(e) == TlsError::Rustls(
            crate::transport::io::rustls_error_of(e),
        ),
        <ConnectError as vstd::std_specs::convert::FromSpec<rustls::Error>>::from_spec(e) == ConnectError::Tls(
            TlsError::Rustls(crate::transport::io::rustls_error_of(e)),
        ),
        ConnectError::Io(io).certificate() is None,
        ConnectError::Tls(tls).certificate() == tls.certificate(),
        TlsError::MissingDomain.certificate() is None,
        TlsError::InvalidServerName(name).certificate() is None,
        TlsError::Rustls(other).certificate() == (match other {
            RustlsError::InvalidCertificate(error) => Some(error),
            _ => None,
        }),
{
}

/// The message of a TLS error quotes the name that is invalid, and shows the text of the error that
/// it comes from.
pub proof fn law_tls_messages_show_their_cause(name: String, e: RustlsError, text: Seq<char>)
    ensures
        TlsError::InvalidServerName(name).displays_as("invalid TLS server name '"@ + name@ + "'"@),
        TlsError::InvalidServerName(name).displays_as(text) ==> text.len() == name@.len() + 26
            && text.subrange(25, 25 + name@.len() as int) == name@,
        crate::transport::io::rustls_error_displays_as(e, text) ==> TlsError::Rustls(
            e,
        ).displays_as("TLS error: "@ + text),
        TlsError::Rustls(e).displays_as(text) ==> text.len() >= 11
            && crate::transport::io::rustls_error_displays_as(e, text.skip(11)),
        TlsError::MissingDomain.displays_as(text) <==> text
            == "TLS certificate validation requires a domain name"@,
{
    reveal_strlit("invalid TLS server name '");
    reveal_strlit("'");
    reveal_strlit("TLS error: ");
    let quoted = "invalid TLS server name '"@ + name@ + "'"@;
    assert(quoted.subrange(25, 25 + name@.len() as int) =~= name@);
    if TlsError::Rustls(e).displays_as(text) {
        let cause = choose|cause: Seq<char>| #[trigger]
            crate::transport::io::rustls_error_displays_as(e, cause) && text == "TLS error: "@
                + cause;
        assert(text.skip(11) =~= cause);
    }
}

} // verus!
