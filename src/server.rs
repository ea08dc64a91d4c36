//! The decisions of the protocol server: what a received batch is, what each
//! request asks of the device, and the replies that go back.
use crate::bytes_util::append_bytes;
use crate::wire::{decode_requests, record, reply_bytes, request_spec, Command, Reply, Request, WireError};
use vstd::prelude::*;
use vstd::slice::slice_subrange;

verus! {

/// Bytes taken from the channel in one receive: `MAX_BATCH_REQUESTS` records.
pub const READ_BUF_LEN: usize = 112;

/// The error code of a failed read whose cause has no code of its own.
pub const EIO: u32 = 5;

/// What one receive from the channel amounts to.
#[derive(Debug)]
pub enum Received {
    /// The peer closed the channel: the server drains and stops.
    Closed,
    /// A batch of requests, in the order they were sent.
    Batch(Vec<Request>),
    /// The bytes received do not frame whole, valid records.
    Framing(WireError),
}

/// What serving one request takes.
#[derive(PartialEq, Eq, Structural, Debug, Clone, Copy)]
pub enum Action {
    /// Read `len` bytes at `from` from the device and send them back.
    Read { from: u64, len: u32 },
    /// Reply at once, with no payload.
    Flush,
    /// A command that neither device serves: the server stops loudly.
    Unsupported(Command),
}

/// Interprets `n` bytes received into `buf`.
pub fn on_receive(buf: &[u8], n: usize) -> (r: Received)
    requires
        n <= buf@.len(),
    ensures
        n == 0 ==> r is Closed,
        n > 0 ==> match r {
            Received::Closed => false,
            Received::Batch(v) => n % 28 == 0 && v@.len() == n / 28 && forall|i: int|
                0 <= i < v@.len() ==> request_spec(#[trigger] record(buf@.subrange(0, n as int), i))
                    == Ok::<Request, WireError>(v@[i]),
            Received::Framing(e) => if n % 28 != 0 {
                e == WireError::PartialRecord
            } else {
                exists|i: int|
                    0 <= i < n / 28 && #[trigger] request_spec(record(buf@.subrange(0, n as int), i))
                        == Err::<Request, WireError>(e) && forall|j: int|
                        0 <= j < i ==> (#[trigger] request_spec(record(buf@.subrange(0, n as int), j))) is Ok
            },
        },
        n > 0 && n % 28 == 0 && (forall|i: int|
            0 <= i < n / 28 ==> (#[trigger] request_spec(record(buf@.subrange(0, n as int), i))) is Ok)
            ==> r is Batch,
{
    if n == 0 {
        return Received::Closed;
    }
    match decode_requests(slice_subrange(buf, 0, n)) {
        Ok(v) => Received::Batch(v),
        Err(e) => Received::Framing(e),
    }
}

/// The action a request calls for.
pub fn action_for(request: &Request) -> (r: Action)
    ensures
        r == match request.command {
            Command::Read => Action::Read { from: request.from, len: request.len },
            Command::Flush => Action::Flush,
            c => Action::Unsupported(c),
        },
{
    match request.command {
        Command::Read => Action::Read { from: request.from, len: request.len },
        Command::Flush => Action::Flush,
        c => Action::Unsupported(c),
    }
}

/// Appends the reply to a read: the header with `error`, then the payload.
pub fn append_read_reply(out: &mut Vec<u8>, request: &Request, error: u32, payload: &[u8])
    ensures
        final(out)@ == old(out)@ + reply_bytes(Reply { error, handle: request.handle }) + payload@,
{
    let mut reply = Reply::from_request(request);
    reply.error = error;
    reply.append_to_vec(out);
    append_bytes(out, payload);
}

/// Appends the payload-free success reply to a flush.
pub fn append_flush_reply(out: &mut Vec<u8>, request: &Request)
    ensures
        final(out)@ == old(out)@ + reply_bytes(Reply { error: 0, handle: request.handle }),
{
    let reply = Reply::from_request(request);
    reply.append_to_vec(out);
}

} // verus!
