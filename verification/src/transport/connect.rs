//! The order in which a TLS connection is established, and what its failures are.

use vstd::prelude::*;

use crate::transport::addr::{HostView, ServerAddr};
use crate::transport::error::{ConnectError, TlsError};
use crate::transport::io::{IoError, RustlsError};
use crate::transport::server_name::{server_name, server_name_is, server_name_of, ServerName};

verus! {

/// How the certificate of a server is verified.
#[derive(Debug, Clone, Copy, PartialEq, Eq, Structural)]
pub enum Verification {
    /// Against the web's root certificates.
    WebRoots,
    /// Not at all.
    Disabled,
}

/// What a TLS connection to a server is to be made with.
#[derive(Debug, Clone)]
pub struct TlsPlan {
    /// The name of the server.
    pub server_name: ServerName,
    /// How its certificate is verified.
    pub verification: Verification,
}

/// What there is to do for a TLS connection, one after the other.
#[derive(Debug, Clone, Copy, PartialEq, Eq, Structural)]
pub enum SslStep {
    /// Connect over TCP, within the timeout.
    ConnectTcp,
    /// Make the configuration of the client, and the state of the connection with it.
    Configure,
    /// Perform the TLS handshake, within what is left of the deadline.
    Handshake,
    /// Lift the read timeout that the handshake has set.
    ClearReadTimeout,
    /// Lift the write timeout that the handshake has set.
    ClearWriteTimeout,
    /// Make the stream.
    MakeStream,
    /// Nothing: the stream is there.
    Ready,
}

/// The failure of a step.
#[derive(Debug)]
pub enum SslFailure {
    /// Of input or output.
    Io(IoError),
    /// Of TLS.
    Rustls(RustlsError),
}

/// The step after `step`.
pub open spec fn step_after(step: SslStep) -> SslStep {
    match step {
        SslStep::ConnectTcp => SslStep::Configure,
        SslStep::Configure => SslStep::Handshake,
        SslStep::Handshake => SslStep::ClearReadTimeout,
        SslStep::ClearReadTimeout => SslStep::ClearWriteTimeout,
        SslStep::ClearWriteTimeout => SslStep::MakeStream,
        SslStep::MakeStream => SslStep::Ready,
        SslStep::Ready => SslStep::Ready,
    }
}

/// The error with which a connection fails whose `step` failed. Only in a handshake can an I/O
/// error stand for one of TLS.
pub open spec fn error_of(step: SslStep, failure: SslFailure) -> ConnectError {
    match failure {
        SslFailure::Io(e) => if step == SslStep::Handshake {
            ConnectError::of_handshake(e)
        } else {
            ConnectError::Io(e)
        },
        SslFailure::Rustls(e) => ConnectError::Tls(TlsError::Rustls(e)),
    }
}

/// How the certificate of a server is verified, by whether its domain is to be validated.
pub open spec fn verification_of(validate_domain: bool) -> Verification {
    if validate_domain {
        Verification::WebRoots
    } else {
        Verification::Disabled
    }
}

/// Plans a TLS connection to `addr`. An address without a server name fails before anything else.
pub fn plan_ssl(addr: &ServerAddr, validate_domain: bool) -> (r: Result<TlsPlan, ConnectError>)
    ensures
        ({
            let parsed = match addr@.host {
                HostView::Domain(domain) => server_name_of(domain),
                HostView::Ip(_) => None,
            };
            match r {
                Ok(plan) => {
                    &&& server_name_is(addr@, validate_domain, parsed, Ok(plan.server_name))
                    &&& plan.verification == verification_of(validate_domain)
                },
                Err(e) => e matches ConnectError::Tls(tls) && server_name_is(
                    addr@,
                    validate_domain,
                    parsed,
                    Err(tls),
                ),
            }
        }),
{
    match server_name(addr, validate_domain) {
        Ok(server_name) => Ok(
            TlsPlan {
                server_name,
                verification: if validate_domain {
                    Verification::WebRoots
                } else {
                    Verification::Disabled
                },
            },
        ),
        Err(e) => Err(ConnectError::from(e)),
    }
}

/// The error with which a connection fails whose `step` failed.
pub fn step_error(step: SslStep, failure: SslFailure) -> (r: ConnectError)
    ensures
        r == error_of(step, failure),
{
    match failure {
        SslFailure::Io(e) => match step {
            SslStep::Handshake => ConnectError::from_handshake_io(e),
            _ => ConnectError::from(e),
        },
        SslFailure::Rustls(e) => ConnectError::Tls(TlsError::Rustls(e)),
    }
}

/// What to do after `step`, by what came of it.
pub fn next_step(step: SslStep, outcome: Result<(), SslFailure>) -> (r: Result<
    SslStep,
    ConnectError,
>)
    ensures
        r == (match outcome {
            Ok(_) => Ok::<SslStep, ConnectError>(step_after(step)),
            Err(failure) => Err::<SslStep, ConnectError>(error_of(step, failure)),
        }),
{
    match outcome {
        Ok(_) => Ok(
            match step {
                SslStep::ConnectTcp => SslStep::Configure,
                SslStep::Configure => SslStep::Handshake,
                SslStep::Handshake => SslStep::ClearReadTimeout,
                SslStep::ClearReadTimeout => SslStep::ClearWriteTimeout,
                SslStep::ClearWriteTimeout => SslStep::MakeStream,
                SslStep::MakeStream => SslStep::Ready,
                SslStep::Ready => SslStep::Ready,
            },
        ),
        Err(failure) => Err(step_error(step, failure)),
    }
}

// ---------------------------------------------------------------------------------------------
// Laws
// ---------------------------------------------------------------------------------------------
/// A certificate is the reason for a failure only where TLS itself failed: in making the
/// configuration, or in the handshake.
pub proof fn law_certificates_fail_in_tls(step: SslStep, failure: SslFailure)
    ensures
        error_of(step, failure).certificate() is Some ==> failure is Rustls || step
            == SslStep::Handshake,
        failure matches SslFailure::Rustls(RustlsError::InvalidCertificate(error)) ==> error_of(
            step,
            failure,
        ).certificate() == Some(error),
{
}

/// The error of a step is what made it fail: an I/O error stays one, but for the TLS error that it
/// holds where it ended a handshake, and a TLS error stays one.
pub proof fn law_step_errors_are_what_failed(step: SslStep, io: IoError, tls: RustlsError)
    ensures
        error_of(step, SslFailure::Rustls(tls)) == ConnectError::Tls(TlsError::Rustls(tls)),
        step != SslStep::Handshake || io.tls() is None ==> error_of(step, SslFailure::Io(io))
            == ConnectError::Io(io),
        step == SslStep::Handshake && io.tls() is Some ==> error_of(step, SslFailure::Io(io))
            == ConnectError::Tls(TlsError::Rustls(io.tls()->0)),
        verification_of(true) == Verification::WebRoots,
        verification_of(false) == Verification::Disabled,
{
}

/// Six steps that succeed lead from the connection over TCP to the stream, each of them once, and
/// nothing follows.
pub proof fn law_every_step_is_taken_once()
    ensures
        step_after(SslStep::ConnectTcp) == SslStep::Configure,
        step_after(SslStep::Configure) == SslStep::Handshake,
        step_after(SslStep::Handshake) == SslStep::ClearReadTimeout,
        step_after(SslStep::ClearReadTimeout) == SslStep::ClearWriteTimeout,
        step_after(SslStep::ClearWriteTimeout) == SslStep::MakeStream,
        step_after(SslStep::MakeStream) == SslStep::Ready,
        step_after(SslStep::Ready) == SslStep::Ready,
{
}

} // verus!
