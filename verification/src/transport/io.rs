//! Input and output errors.
//!
//! An [`IoError`] holds the kind of an error, by which decisions are made, and what is known of
//! its cause. An error that a stream reported is carried along whole.

use vstd::prelude::*;

verus! {

/// The errors of `std::io`, which this library carries along.
#[verifier::external_type_specification]
#[verifier::external_body]
pub struct ExStdIoError(std::io::Error);

/// The errors of rustls, which this library carries along.
#[verifier::external_type_specification]
#[verifier::external_body]
pub struct ExRustlsError(rustls::Error);

/// The reasons for which rustls rejects a certificate, which this library carries along.
#[verifier::external_type_specification]
#[verifier::external_body]
pub struct ExCertificateError(rustls::CertificateError);

/// The kind of an [`IoError`].
#[derive(Debug, Clone, Copy, PartialEq, Eq, Structural)]
pub enum ErrorKind {
    /// The operation would have to wait.
    WouldBlock,
    /// The time for the operation is over.
    TimedOut,
    /// The operation was interrupted and can be tried again.
    Interrupted,
    /// A write accepted no bytes.
    WriteZero,
    /// The stream ended too early.
    UnexpectedEof,
    /// A parameter was not valid.
    InvalidInput,
    /// The data was not valid.
    InvalidData,
    /// An error of no other kind.
    Other,
    /// Any of the kinds that have no name here.
    Unnamed,
}

/// An error of rustls.
#[derive(Debug)]
pub enum RustlsError {
    /// The certificate of the server was rejected.
    InvalidCertificate(rustls::CertificateError),
    /// Any other error.
    Other(rustls::Error),
}

/// What is known of an [`IoError`] beyond its kind.
#[derive(Debug)]
pub enum Cause {
    /// Nothing.
    Kind,
    /// A description.
    Message(String),
    /// The TLS error behind it.
    Tls(RustlsError),
    /// The other error behind it.
    Io(Box<IoError>),
    /// The error that a stream reported.
    Stream(std::io::Error),
}

/// An error of input or output.
#[derive(Debug)]
pub struct IoError {
    /// The kind of the error.
    pub kind: ErrorKind,
    /// What is known of it beyond its kind.
    pub cause: Cause,
}

// ---------------------------------------------------------------------------------------------
// Errors from outside
// ---------------------------------------------------------------------------------------------
/// The kind of an error of `std::io`.
pub uninterp spec fn kind_of_stream_error(e: std::io::Error) -> ErrorKind;

/// The rustls error in an error of `std::io`, if there is one.
pub uninterp spec fn tls_in_stream_error(e: std::io::Error) -> Option<rustls::Error>;

/// An error of rustls, told apart by whether it rejects a certificate.
pub uninterp spec fn rustls_error_of(e: rustls::Error) -> RustlsError;

/// The description of a kind that has a name.
pub uninterp spec fn kind_text(kind: ErrorKind) -> Seq<char>;

/// Whether an error of `std::io` may display as `text`.
pub uninterp spec fn stream_error_displays_as(e: std::io::Error, text: Seq<char>) -> bool;

/// Whether an error of rustls may display as `text`.
pub uninterp spec fn rustls_error_displays_as(e: RustlsError, text: Seq<char>) -> bool;

/// `std::io::Error::kind` gives the kind of an error. The kinds without a name here are one.
#[verifier::external_body]
fn stream_error_kind(e: &std::io::Error) -> (r: ErrorKind)
    ensures
        r == kind_of_stream_error(*e),
{
    match e.kind() {
        std::io::ErrorKind::WouldBlock => ErrorKind::WouldBlock,
        std::io::ErrorKind::TimedOut => ErrorKind::TimedOut,
        std::io::ErrorKind::Interrupted => ErrorKind::Interrupted,
        std::io::ErrorKind::WriteZero => ErrorKind::WriteZero,
        std::io::ErrorKind::UnexpectedEof => ErrorKind::UnexpectedEof,
        std::io::ErrorKind::InvalidInput => ErrorKind::InvalidInput,
        std::io::ErrorKind::InvalidData => ErrorKind::InvalidData,
        std::io::ErrorKind::Other => ErrorKind::Other,
        _ => ErrorKind::Unnamed,
    }
}

/// `std::io::Error::get_ref` gives the error inside an error of `std::io`. Where that is one of
/// rustls, a copy of it is returned; else the error itself comes back.
#[verifier::external_body]
fn tls_error_inside(e: std::io::Error) -> (r: Result<rustls::Error, std::io::Error>)
    ensures
        match r {
            Ok(tls) => tls_in_stream_error(e) == Some(tls),
            Err(same) => tls_in_stream_error(e) is None && same == e,
        },
{
    match e.get_ref().and_then(|inner| inner.downcast_ref::<rustls::Error>()) {
        Some(tls) => Ok(tls.clone()),
        None => Err(e),
    }
}

/// `rustls::Error` is an enum. An `InvalidCertificate` gives its field; any other is kept whole.
#[verifier::external_body]
fn tell_rustls_error(e: rustls::Error) -> (r: RustlsError)
    ensures
        r == rustls_error_of(e),
        r matches RustlsError::Other(same) ==> same == e,
{
    match e {
        rustls::Error::InvalidCertificate(error) => RustlsError::InvalidCertificate(error),
        other => RustlsError::Other(other),
    }
}

/// `std::io::ErrorKind` displays as a description, which depends on the kind alone.
#[verifier::external_body]
fn describe_kind(kind: ErrorKind) -> (r: String)
    requires
        kind !is Unnamed,
    ensures
        r@ == kind_text(kind),
{
    let kind = match kind {
        ErrorKind::WouldBlock => std::io::ErrorKind::WouldBlock,
        ErrorKind::TimedOut => std::io::ErrorKind::TimedOut,
        ErrorKind::Interrupted => std::io::ErrorKind::Interrupted,
        ErrorKind::WriteZero => std::io::ErrorKind::WriteZero,
        ErrorKind::UnexpectedEof => std::io::ErrorKind::UnexpectedEof,
        ErrorKind::InvalidInput => std::io::ErrorKind::InvalidInput,
        ErrorKind::InvalidData => std::io::ErrorKind::InvalidData,
        _ => std::io::ErrorKind::Other,
    };
    kind.to_string()
}

/// `std::io::Error` displays as a text of its own. That the text is one of this error has a name;
/// which one it is remains open, since the text of an error of the operating system is that
/// system's.
#[verifier::external_body]
fn describe_stream_error(e: &std::io::Error) -> (r: String)
    ensures
        stream_error_displays_as(*e, r@),
{
    e.to_string()
}

/// `rustls::Error` displays as a text of its own. That the text is one of this error has a name;
/// which one it is remains open, since an error may hold one of an application, which displays as
/// it likes.
#[verifier::external_body]
pub(crate) fn describe_rustls_error(e: &RustlsError) -> (r: String)
    ensures
        rustls_error_displays_as(*e, r@),
{
    match e {
        RustlsError::InvalidCertificate(error) => {
            rustls::Error::InvalidCertificate(error.clone()).to_string()
        },
        RustlsError::Other(other) => other.to_string(),
    }
}

impl From<rustls::Error> for RustlsError {
    fn from(e: rustls::Error) -> (r: Self) {
        tell_rustls_error(e)
    }
}

impl vstd::std_specs::convert::FromSpecImpl<rustls::Error> for RustlsError {
    open spec fn obeys_from_spec() -> bool {
        true
    }

    open spec fn from_spec(e: rustls::Error) -> Self {
        rustls_error_of(e)
    }
}

impl From<std::io::Error> for IoError {
    fn from(e: std::io::Error) -> (r: Self) {
        IoError { kind: stream_error_kind(&e), cause: Cause::Stream(e) }
    }
}

impl vstd::std_specs::convert::FromSpecImpl<std::io::Error> for IoError {
    open spec fn obeys_from_spec() -> bool {
        true
    }

    open spec fn from_spec(e: std::io::Error) -> Self {
        IoError { kind: kind_of_stream_error(e), cause: Cause::Stream(e) }
    }
}

impl From<ErrorKind> for IoError {
    fn from(kind: ErrorKind) -> (r: Self) {
        IoError { kind, cause: Cause::Kind }
    }
}

impl vstd::std_specs::convert::FromSpecImpl<ErrorKind> for IoError {
    open spec fn obeys_from_spec() -> bool {
        true
    }

    open spec fn from_spec(kind: ErrorKind) -> Self {
        IoError { kind, cause: Cause::Kind }
    }
}

impl IoError {
    /// Whether this is an error of the given kind with the given description.
    pub open spec fn says(self, kind: ErrorKind, text: Seq<char>) -> bool {
        self.kind == kind && (self.cause matches Cause::Message(message) && message@ == text)
    }

    /// Whether this is an error that a stream reported, of the kind that it reported.
    pub open spec fn is_of_stream(self) -> bool {
        self.cause matches Cause::Stream(e) && self.kind == kind_of_stream_error(e)
    }

    /// An error with a description.
    pub fn message(kind: ErrorKind, message: String) -> (r: IoError)
        ensures
            r.says(kind, message@),
    {
        IoError { kind, cause: Cause::Message(message) }
    }

    /// An error with another one behind it.
    pub fn wrapping(kind: ErrorKind, inner: IoError) -> (r: IoError)
        ensures
            r == (IoError { kind, cause: Cause::Io(Box::new(inner)) }),
    {
        IoError { kind, cause: Cause::Io(Box::new(inner)) }
    }

    /// Whether this error may display as `text`: that of its cause, or else the description of its
    /// kind. A kind without a name is described as any other.
    pub open spec fn displays_as(self, text: Seq<char>) -> bool
        decreases self,
    {
        match self.cause {
            Cause::Kind => text == kind_text(
                if self.kind is Unnamed {
                    ErrorKind::Other
                } else {
                    self.kind
                },
            ),
            Cause::Message(message) => text == message@,
            Cause::Tls(tls) => rustls_error_displays_as(tls, text),
            Cause::Io(inner) => inner.displays_as(text),
            Cause::Stream(e) => stream_error_displays_as(e, text),
        }
    }

    /// The text of this error: that of its cause, or else the description of its kind.
    pub fn to_string(&self) -> (r: String)
        ensures
            self.displays_as(r@),
        decreases self,
    {
        match &self.cause {
            Cause::Kind => match self.kind {
                ErrorKind::Unnamed => describe_kind(ErrorKind::Other),
                kind => describe_kind(kind),
            },
            Cause::Message(message) => message.clone(),
            Cause::Tls(tls) => describe_rustls_error(tls),
            Cause::Io(inner) => inner.to_string(),
            Cause::Stream(e) => describe_stream_error(e),
        }
    }

    /// The TLS error that this error holds, if there is one.
    ///
    /// It is looked for in the error and in what a stream reported, but not in a further error
    /// behind it.
    pub open spec fn tls(self) -> Option<RustlsError> {
        match self.cause {
            Cause::Tls(tls) => Some(tls),
            Cause::Stream(e) => match tls_in_stream_error(e) {
                Some(tls) => Some(rustls_error_of(tls)),
                None => None,
            },
            _ => None,
        }
    }

    /// The TLS error that this error holds, or else the error itself.
    pub fn into_tls(self) -> (r: Result<RustlsError, IoError>)
        ensures
            match self.tls() {
                Some(tls) => r == Ok::<RustlsError, IoError>(tls),
                None => r == Err::<RustlsError, IoError>(self),
            },
    {
        let kind = self.kind;
        match self.cause {
            Cause::Tls(tls) => Ok(tls),
            Cause::Stream(e) => match tls_error_inside(e) {
                Ok(tls) => Ok(RustlsError::from(tls)),
                Err(same) => Err(IoError { kind, cause: Cause::Stream(same) }),
            },
            cause => Err(IoError { kind, cause }),
        }
    }
}

/// A TLS error is found in an error that holds one, and in one that a stream reported with it
/// inside; nowhere else, and not in an error behind another.
pub proof fn law_tls_errors_are_found(
    kind: ErrorKind,
    tls: RustlsError,
    e: std::io::Error,
    m: String,
    inner: IoError,
)
    ensures
        (IoError { kind, cause: Cause::Tls(tls) }).tls() == Some(tls),
        (IoError { kind, cause: Cause::Stream(e) }).tls() == (match tls_in_stream_error(e) {
            Some(found) => Some(rustls_error_of(found)),
            None => None,
        }),
        (IoError { kind, cause: Cause::Kind }).tls() is None,
        (IoError { kind, cause: Cause::Message(m) }).tls() is None,
        (IoError { kind, cause: Cause::Io(Box::new(inner)) }).tls() is None,
{
}

/// An error displays as its cause does, however many errors it stands behind, and as its kind where
/// nothing else is known.
pub proof fn law_errors_display_as_their_causes(
    kind: ErrorKind,
    inner: IoError,
    m: String,
    tls: RustlsError,
    e: std::io::Error,
    text: Seq<char>,
)
    ensures
        (IoError { kind, cause: Cause::Io(Box::new(inner)) }).displays_as(text)
            <==> inner.displays_as(text),
        (IoError { kind, cause: Cause::Message(m) }).displays_as(text) <==> text == m@,
        (IoError { kind, cause: Cause::Tls(tls) }).displays_as(text) <==> rustls_error_displays_as(
            tls,
            text,
        ),
        (IoError { kind, cause: Cause::Stream(e) }).displays_as(text) <==> stream_error_displays_as(
            e,
            text,
        ),
        kind != ErrorKind::Unnamed ==> ((IoError { kind, cause: Cause::Kind }).displays_as(text)
            <==> text == kind_text(kind)),
{
    reveal_with_fuel(IoError::displays_as, 2);
}

/// An error made from a kind, or from what a stream reported, is of that kind, and keeps what was
/// reported.
pub proof fn law_made_errors_keep_their_kind(
    kind: ErrorKind,
    e: std::io::Error,
    tls: rustls::Error,
    text: Seq<char>,
    error: IoError,
)
    ensures
        <IoError as vstd::std_specs::convert::FromSpec<ErrorKind>>::from_spec(kind) == (IoError { kind, cause: Cause::Kind }),
        <IoError as vstd::std_specs::convert::FromSpec<std::io::Error>>::from_spec(e).kind == kind_of_stream_error(e),
        <IoError as vstd::std_specs::convert::FromSpec<std::io::Error>>::from_spec(e).cause == Cause::Stream(e),
        <IoError as vstd::std_specs::convert::FromSpec<std::io::Error>>::from_spec(e).is_of_stream(),
        <RustlsError as vstd::std_specs::convert::FromSpec<rustls::Error>>::from_spec(tls) == rustls_error_of(tls),
        error.says(kind, text) <==> error.kind == kind && (error.cause matches Cause::Message(m)
            && m@ == text),
        error.is_of_stream() <==> (error.cause matches Cause::Stream(s) && error.kind
            == kind_of_stream_error(s)),
{
}

} // verus!
