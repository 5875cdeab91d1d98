//! The state of a TLS connection.
//!
//! A `rustls::ClientConnection` turns plaintext into ciphertext and back, without any input or
//! output of its own. It holds plaintext that has arrived and ciphertext that is to be sent.

use vstd::prelude::*;

use crate::transport::io::{kind_of_stream_error, ErrorKind, IoError};

verus! {

/// The state of a TLS connection on the side of the client.
#[verifier::external_type_specification]
#[verifier::external_body]
pub struct ExClientConnection(rustls::ClientConnection);

/// Whether more can arrive over a connection.
pub enum StreamEnd {
    /// The stream goes on.
    Open,
    /// The stream has ended without the peer having closed the connection.
    Cut,
    /// The peer has closed the connection.
    Closed,
}

/// The plaintext that has arrived over a connection and was not yet read.
pub uninterp spec fn received_plaintext(conn: rustls::ClientConnection) -> Seq<u8>;

/// The ciphertext that a connection has produced and that was not yet taken.
pub uninterp spec fn sendable_tls(conn: rustls::ClientConnection) -> Seq<u8>;

/// Whether more can arrive over a connection.
pub uninterp spec fn stream_end(conn: rustls::ClientConnection) -> StreamEnd;

/// Whether a connection has failed for good.
pub uninterp spec fn has_failed(conn: rustls::ClientConnection) -> bool;

/// The connection once it was offered `ciphertext`, and how many bytes of it the connection took,
/// or the kind of the error with which it took none.
pub uninterp spec fn fed(conn: rustls::ClientConnection, ciphertext: Seq<u8>) -> (
    rustls::ClientConnection,
    Result<nat, ErrorKind>,
);

/// Whether a connection may come from `before` to `after`, with `result`, by working on the
/// ciphertext that it took.
pub uninterp spec fn may_process(
    before: rustls::ClientConnection,
    after: rustls::ClientConnection,
    result: Result<(), rustls::Error>,
) -> bool;

/// Whether a connection may come from `before` to `after` by accepting the first `n` bytes of
/// `plaintext`.
pub uninterp spec fn may_accept(
    before: rustls::ClientConnection,
    plaintext: Seq<u8>,
    after: rustls::ClientConnection,
    n: nat,
) -> bool;

/// Whether two states of a connection agree on all that is known here but what is to be sent.
pub open spec fn differ_in_sendable(a: rustls::ClientConnection, b: rustls::ClientConnection) -> bool {
    &&& received_plaintext(a) == received_plaintext(b)
    &&& stream_end(a) == stream_end(b)
    &&& has_failed(a) == has_failed(b)
}

/// The smaller of two numbers.
pub open spec fn at_most(n: nat, limit: nat) -> nat {
    if n <= limit {
        n
    } else {
        limit
    }
}

/// `rustls::Reader::read` moves as much of the received plaintext to the front of `buf` as fits.
/// Where there is none although `buf` could hold some, nothing changes, and it gives 0 if the peer
/// has closed the connection, `UnexpectedEof` if the stream has ended without that, and
/// `WouldBlock` otherwise.
#[verifier::external_body]
pub(crate) fn read_plaintext(conn: &mut rustls::ClientConnection, buf: &mut [u8]) -> (r: Result<
    usize,
    std::io::Error,
>)
    ensures
        received_plaintext(*old(conn)).len() > 0 || old(buf)@.len() == 0 ==> {
            let held = received_plaintext(*old(conn));
            let n = at_most(held.len(), old(buf)@.len());
            &&& r matches Ok(m) && m == n
            &&& final(buf)@ == held.take(n as int) + old(buf)@.skip(n as int)
            &&& received_plaintext(*final(conn)) == held.skip(n as int)
            &&& sendable_tls(*final(conn)) == sendable_tls(*old(conn))
            &&& stream_end(*final(conn)) == stream_end(*old(conn))
            &&& has_failed(*final(conn)) == has_failed(*old(conn))
        },
        received_plaintext(*old(conn)).len() == 0 && old(buf)@.len() > 0 ==> {
            &&& *final(conn) == *old(conn)
            &&& final(buf)@ == old(buf)@
            &&& match stream_end(*old(conn)) {
                StreamEnd::Open => r matches Err(e) && kind_of_stream_error(e)
                    == ErrorKind::WouldBlock,
                StreamEnd::Cut => r matches Err(e) && kind_of_stream_error(e)
                    == ErrorKind::UnexpectedEof,
                StreamEnd::Closed => r matches Ok(m) && m == 0,
            }
        },
{
    std::io::Read::read(&mut conn.reader(), buf)
}

/// `rustls::ConnectionCommon::read_tls` takes some of the given ciphertext from its front. How much
/// that is, or the error of a full buffer, depends on the connection and the ciphertext, and is
/// named. It takes none only where there is none, by which it learns that the stream has ended, or
/// where the peer has closed the connection.
#[verifier::external_body]
pub(crate) fn read_tls(conn: &mut rustls::ClientConnection, ciphertext: &[u8]) -> (r: Result<
    usize,
    std::io::Error,
>)
    ensures
        *final(conn) == fed(*old(conn), ciphertext@).0,
        match r {
            Ok(n) => {
                &&& fed(*old(conn), ciphertext@).1 == Ok::<nat, ErrorKind>(n as nat)
                &&& n <= ciphertext@.len()
                &&& n == 0 ==> ciphertext@.len() == 0 || stream_end(*old(conn)) is Closed
                &&& stream_end(*final(conn)) == if n == 0 && stream_end(*old(conn)) is Open {
                    StreamEnd::Cut
                } else {
                    stream_end(*old(conn))
                }
            },
            Err(e) => {
                &&& fed(*old(conn), ciphertext@).1 == Err::<nat, ErrorKind>(
                    kind_of_stream_error(e),
                )
                &&& stream_end(*final(conn)) == stream_end(*old(conn))
            },
        },
        received_plaintext(*final(conn)) == received_plaintext(*old(conn)),
        sendable_tls(*final(conn)) == sendable_tls(*old(conn)),
        has_failed(*final(conn)) == has_failed(*old(conn)),
{
    let mut rest = ciphertext;
    conn.read_tls(&mut rest)
}

/// `rustls::ConnectionCommon::process_new_packets` works on the ciphertext taken before. It may add
/// to the received plaintext and to the ciphertext to send, behind what is there; an error is for
/// good; and what has ended does not begin again. What it adds depends on more than the connection
/// (the time, for one), so that only the step itself has a name.
#[verifier::external_body]
pub(crate) fn process_new_packets(conn: &mut rustls::ClientConnection) -> (r: Result<
    (),
    rustls::Error,
>)
    ensures
        may_process(*old(conn), *final(conn), r),
        received_plaintext(*old(conn)).is_prefix_of(received_plaintext(*final(conn))),
        sendable_tls(*old(conn)).is_prefix_of(sendable_tls(*final(conn))),
        has_failed(*final(conn)) == r is Err,
        stream_end(*old(conn)) is Closed ==> stream_end(*final(conn)) is Closed,
        stream_end(*final(conn)) is Open ==> stream_end(*old(conn)) is Open,
{
    conn.process_new_packets().map(|_| ())
}

/// `rustls::Writer::write` accepts some of `plaintext` from its front, and may add to the
/// ciphertext to send, behind what is there. It fails if the connection has failed, and then
/// changes nothing. The ciphertext depends on more than the connection, so that only the step
/// itself has a name.
#[verifier::external_body]
pub(crate) fn write_plaintext(conn: &mut rustls::ClientConnection, plaintext: &[u8]) -> (r: Result<
    usize,
    std::io::Error,
>)
    ensures
        match r {
            Ok(n) => {
                &&& !has_failed(*old(conn))
                &&& n <= plaintext@.len()
                &&& may_accept(*old(conn), plaintext@, *final(conn), n as nat)
                &&& differ_in_sendable(*final(conn), *old(conn))
                &&& sendable_tls(*old(conn)).is_prefix_of(sendable_tls(*final(conn)))
            },
            Err(e) => {
                &&& has_failed(*old(conn))
                &&& *final(conn) == *old(conn)
                &&& kind_of_stream_error(e) == ErrorKind::InvalidData
            },
        },
{
    std::io::Write::write(&mut conn.writer(), plaintext)
}

/// `rustls::CommonState::wants_write` says whether there is ciphertext to send.
#[verifier::external_body]
fn wants_write(conn: &rustls::ClientConnection) -> (r: bool)
    ensures
        r == (sendable_tls(*conn).len() > 0),
{
    conn.wants_write()
}

/// `rustls::ConnectionCommon::write_tls` moves ciphertext to send, from its front, to the writer:
/// at least one byte, if there is any. It fails only where the writer does; the writer here is a
/// vector, which takes all that it is given.
#[verifier::external_body]
fn write_tls(conn: &mut rustls::ClientConnection, out: &mut Vec<u8>) -> (r: Result<
    usize,
    std::io::Error,
>)
    ensures
        differ_in_sendable(*final(conn), *old(conn)),
        r matches Ok(n) && {
            &&& n <= sendable_tls(*old(conn)).len()
            &&& n == 0 ==> sendable_tls(*old(conn)).len() == 0
            &&& final(out)@ == old(out)@ + sendable_tls(*old(conn)).take(n as int)
            &&& sendable_tls(*final(conn)) == sendable_tls(*old(conn)).skip(n as int)
        },
{
    conn.write_tls(out)
}

/// Whether all ciphertext that a connection has to send was taken, and was `ciphertext`. A write of
/// nothing comes before, for the connection to give out what it holds back until a write.
pub open spec fn drains(
    before: rustls::ClientConnection,
    after: rustls::ClientConnection,
    ciphertext: Seq<u8>,
) -> bool {
    &&& exists|written: rustls::ClientConnection|
        {
            &&& #[trigger] may_accept(before, Seq::empty(), written, 0)
            &&& differ_in_sendable(after, written)
            &&& ciphertext == sendable_tls(written)
        }
    &&& differ_in_sendable(after, before)
    &&& sendable_tls(before).is_prefix_of(ciphertext)
    &&& sendable_tls(after) == Seq::<u8>::empty()
}

/// Whether `e` is the error of a connection that has failed before.
pub open spec fn is_failure(e: IoError) -> bool {
    e.kind == ErrorKind::InvalidData && e.is_of_stream()
}

/// Drains queued ciphertext so it can be written after releasing TLS state.
pub fn drain_tls(conn: &mut rustls::ClientConnection, out: &mut Vec<u8>) -> (r: Result<(), IoError>)
    ensures
        match r {
            Ok(_) => {
                &&& !has_failed(*old(conn))
                &&& old(out)@.is_prefix_of(final(out)@)
                &&& drains(*old(conn), *final(conn), final(out)@.skip(old(out)@.len() as int))
            },
            Err(e) => {
                &&& has_failed(*old(conn))
                &&& *final(conn) == *old(conn)
                &&& final(out)@ == old(out)@
                &&& is_failure(e)
            },
        },
{
    // Expose pending KeyUpdate responses to `write_tls`, even during a flush without application
    // data.
    let nothing: [u8; 0] = [];
    assert(nothing@ =~= Seq::<u8>::empty());
    match write_plaintext(conn, &nothing) {
        Ok(_) => {},
        Err(e) => {
            return Err(IoError::from(e));
        },
    }
    let ghost written = *conn;
    assert(may_accept(*old(conn), Seq::empty(), written, 0));
    while wants_write(conn)
        invariant_except_break
            out@ + sendable_tls(*conn) == old(out)@ + sendable_tls(written),
        invariant
            differ_in_sendable(*conn, written),
            !has_failed(*old(conn)),
        ensures
            sendable_tls(*conn).len() == 0,
            out@ == old(out)@ + sendable_tls(written),
        decreases sendable_tls(*conn).len(),
    {
        let ghost before = sendable_tls(*conn);
        match write_tls(conn, out) {
            Ok(n) => {
                if n == 0 {
                    assert(before =~= Seq::<u8>::empty());
                    assert(out@ =~= old(out)@ + sendable_tls(written));
                    break;
                }
                assert(before.take(n as int) + before.skip(n as int) =~= before);
                assert(out@ + sendable_tls(*conn) =~= old(out)@ + sendable_tls(written));
            },
            Err(e) => {
                return Err(IoError::from(e));
            },
        }
    }
    proof {
        assert(out@.skip(old(out)@.len() as int) =~= sendable_tls(written));
        assert(sendable_tls(*conn) =~= Seq::<u8>::empty());
    }
    Ok(())
}

} // verus!
