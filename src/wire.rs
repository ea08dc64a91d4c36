//! Binary framing of the block-device wire protocol.
//!
//! Requests and replies are fixed-layout big-endian records, as laid out by
//! the kernel's network block device driver.
use vstd::bytes::*;
use vstd::slice::slice_subrange;
use vstd::prelude::*;

verus! {

pub const REQUEST_MAGIC: u32 = 0x25609513;

pub const REPLY_MAGIC: u32 = 0x67446698;

/// Bytes in one request record: magic, type, handle, offset, length.
pub const SIZE_OF_REQUEST: usize = 28;

/// Bytes in one reply header: magic, error, handle.
pub const SIZE_OF_REPLY: usize = 16;

/// Most request records taken from the channel in one receive.
pub const MAX_BATCH_REQUESTS: usize = 4;

#[derive(PartialEq, Eq, Structural, Debug, Clone, Copy)]
pub enum Command {
    Read,
    Write,
    Disc,
    Flush,
    Trim,
    WriteZeroes,
}

#[derive(PartialEq, Eq, Structural, Debug, Clone, Copy)]
pub enum WireError {
    /// A record does not start with the request magic.
    BadMagic,
    /// The command code is not one of the known commands.
    UnknownCommand(u32),
    /// The buffer ends in the middle of a record.
    PartialRecord,
}

#[derive(PartialEq, Eq, Structural, Debug, Clone, Copy)]
pub struct Request {
    pub command: Command,
    /// The command flags, the upper half of the type field.
    pub flags: u32,
    /// Opaque to the server: handed back in the reply.
    pub handle: u64,
    pub from: u64,
    pub len: u32,
}

#[derive(PartialEq, Eq, Structural, Debug, Clone, Copy)]
pub struct Reply {
    pub error: u32,
    pub handle: u64,
}

/// The unsigned integer that four big-endian bytes hold.
pub open spec fn be32_value(s: Seq<u8>) -> u32 {
    spec_u32_from_le_bytes(s.reverse())
}

/// The unsigned integer that eight big-endian bytes hold.
pub open spec fn be64_value(s: Seq<u8>) -> u64 {
    spec_u64_from_le_bytes(s.reverse())
}

pub open spec fn be32_bytes(x: u32) -> Seq<u8> {
    spec_u32_to_le_bytes(x).reverse()
}

pub open spec fn be64_bytes(x: u64) -> Seq<u8> {
    spec_u64_to_le_bytes(x).reverse()
}

pub open spec fn command_of_code(code: u32) -> Option<Command> {
    if code == 0 {
        Some(Command::Read)
    } else if code == 1 {
        Some(Command::Write)
    } else if code == 2 {
        Some(Command::Disc)
    } else if code == 3 {
        Some(Command::Flush)
    } else if code == 4 {
        Some(Command::Trim)
    } else if code == 6 {
        Some(Command::WriteZeroes)
    } else {
        None
    }
}

/// What one request record of `SIZE_OF_REQUEST` bytes decodes to.
pub open spec fn request_spec(s: Seq<u8>) -> Result<Request, WireError> {
    let magic = be32_value(s.subrange(0, 4));
    let kind = be32_value(s.subrange(4, 8));
    if magic != REQUEST_MAGIC {
        Err(WireError::BadMagic)
    } else {
        match command_of_code(kind % 65536) {
            None => Err(WireError::UnknownCommand(kind % 65536)),
            Some(command) => Ok(
                Request {
                    command,
                    flags: kind / 65536,
                    handle: be64_value(s.subrange(8, 16)),
                    from: be64_value(s.subrange(16, 24)),
                    len: be32_value(s.subrange(24, 28)),
                },
            ),
        }
    }
}

/// The `i`-th record of a batch.
pub open spec fn record(s: Seq<u8>, i: int) -> Seq<u8> {
    s.subrange(i * SIZE_OF_REQUEST, i * SIZE_OF_REQUEST + SIZE_OF_REQUEST)
}

/// The bytes of a reply header.
pub open spec fn reply_bytes(r: Reply) -> Seq<u8> {
    be32_bytes(REPLY_MAGIC) + be32_bytes(r.error) + be64_bytes(r.handle)
}

fn read_be32(buf: &[u8], at: usize) -> (r: u32)
    requires
        buf@.len() == SIZE_OF_REQUEST,
        at + 4 <= buf@.len(),
    ensures
        r == be32_value(buf@.subrange(at as int, at + 4)),
{
    let v: Vec<u8> = vec![buf[at + 3], buf[at + 2], buf[at + 1], buf[at]];
    assert(v@ =~= buf@.subrange(at as int, at + 4).reverse());
    u32_from_le_bytes(v.as_slice())
}

fn read_be64(buf: &[u8], at: usize) -> (r: u64)
    requires
        buf@.len() == SIZE_OF_REQUEST,
        at + 8 <= buf@.len(),
    ensures
        r == be64_value(buf@.subrange(at as int, at + 8)),
{
    let v: Vec<u8> = vec![
        buf[at + 7],
        buf[at + 6],
        buf[at + 5],
        buf[at + 4],
        buf[at + 3],
        buf[at + 2],
        buf[at + 1],
        buf[at],
    ];
    assert(v@ =~= buf@.subrange(at as int, at + 8).reverse());
    u64_from_le_bytes(v.as_slice())
}

fn push_be32(out: &mut Vec<u8>, x: u32)
    ensures
        final(out)@ == old(out)@ + be32_bytes(x),
{
    let le = u32_to_le_bytes(x);
    let mut i: usize = 4;
    let ghost start = out@;
    while i > 0
        invariant
            le@ == spec_u32_to_le_bytes(x),
            le@.len() == 4,
            0 <= i <= 4,
            out@ == start + le@.subrange(i as int, 4).reverse(),
        decreases i,
    {
        out.push(le[i - 1]);
        i = i - 1;
        assert(out@ =~= start + le@.subrange(i as int, 4).reverse());
    }
    assert(le@.subrange(0, 4) =~= le@);
}

fn push_be64(out: &mut Vec<u8>, x: u64)
    ensures
        final(out)@ == old(out)@ + be64_bytes(x),
{
    let le = u64_to_le_bytes(x);
    let mut i: usize = 8;
    let ghost start = out@;
    while i > 0
        invariant
            le@ == spec_u64_to_le_bytes(x),
            le@.len() == 8,
            0 <= i <= 8,
            out@ == start + le@.subrange(i as int, 8).reverse(),
        decreases i,
    {
        out.push(le[i - 1]);
        i = i - 1;
        assert(out@ =~= start + le@.subrange(i as int, 8).reverse());
    }
    assert(le@.subrange(0, 8) =~= le@);
}

fn command_from_code(code: u32) -> (r: Option<Command>)
    ensures
        r == command_of_code(code),
{
    if code == 0 {
        Some(Command::Read)
    } else if code == 1 {
        Some(Command::Write)
    } else if code == 2 {
        Some(Command::Disc)
    } else if code == 3 {
        Some(Command::Flush)
    } else if code == 4 {
        Some(Command::Trim)
    } else if code == 6 {
        Some(Command::WriteZeroes)
    } else {
        None
    }
}

impl Request {
    /// Decodes one request record.
    pub fn try_from_bytes(buf: &[u8]) -> (r: Result<Request, WireError>)
        requires
            buf@.len() == SIZE_OF_REQUEST,
        ensures
            r == request_spec(buf@),
    {
        let magic = read_be32(buf, 0);
        let kind = read_be32(buf, 4);
        if magic != REQUEST_MAGIC {
            return Err(WireError::BadMagic);
        }
        match command_from_code(kind % 65536) {
            None => Err(WireError::UnknownCommand(kind % 65536)),
            Some(command) => Ok(
                Request {
                    command,
                    flags: kind / 65536,
                    handle: read_be64(buf, 8),
                    from: read_be64(buf, 16),
                    len: read_be32(buf, 24),
                },
            ),
        }
    }
}

/// Decodes a received batch of request records, in order.
///
/// A buffer whose length is not a whole number of records is a framing
/// error; otherwise the first record that does not decode gives the error.
pub fn decode_requests(buf: &[u8]) -> (r: Result<Vec<Request>, WireError>)
    ensures
        buf@.len() % (SIZE_OF_REQUEST as nat) != 0 ==> r == Err::<Vec<Request>, WireError>(
            WireError::PartialRecord,
        ),
        buf@.len() % (SIZE_OF_REQUEST as nat) == 0 ==> match r {
            Ok(v) => v@.len() == buf@.len() / (SIZE_OF_REQUEST as nat) && forall|i: int|
                0 <= i < v@.len() ==> request_spec(#[trigger] record(buf@, i)) == Ok::<
                    Request,
                    WireError,
                >(v@[i]),
            Err(e) => exists|i: int|
                0 <= i < buf@.len() / (SIZE_OF_REQUEST as nat) && #[trigger] request_spec(
                    record(buf@, i),
                ) == Err::<Request, WireError>(e) && forall|j: int|
                    0 <= j < i ==> (#[trigger] request_spec(record(buf@, j))) is Ok,
        },
{
    if buf.len() % SIZE_OF_REQUEST != 0 {
        return Err(WireError::PartialRecord);
    }
    let n = buf.len();
    let count = n / SIZE_OF_REQUEST;
    let mut out: Vec<Request> = Vec::new();
    let mut i: usize = 0;
    while i < count
        invariant
            n == buf@.len(),
            count == buf@.len() / (SIZE_OF_REQUEST as nat),
            buf@.len() % (SIZE_OF_REQUEST as nat) == 0,
            0 <= i <= count,
            out@.len() == i,
            forall|j: int| 0 <= j < i ==> request_spec(#[trigger] record(buf@, j)) == Ok::<Request, WireError>(out@[j]),
        decreases count - i,
    {
        proof {
            let len = buf@.len() as int;
            let ii = i as int;
            assert(ii * 28 + 28 <= len) by (nonlinear_arith)
                requires
                    ii < len / 28,
                    len % 28 == 0,
                    0 <= ii,
                    0 <= len,
            ;
        }
        let start = i * SIZE_OF_REQUEST;
        let rec = slice_subrange(buf, start, start + SIZE_OF_REQUEST);
        assert(rec@ == record(buf@, i as int));
        match Request::try_from_bytes(rec) {
            Ok(req) => out.push(req),
            Err(e) => {
                assert(request_spec(record(buf@, i as int)) == Err::<Request, WireError>(e));
                assert(forall|j: int| 0 <= j < i ==> (#[trigger] request_spec(record(buf@, j))) is Ok);
                return Err(e);
            }
        }
        i = i + 1;
    }
    Ok(out)
}

impl Reply {
    /// A successful reply to `request`, carrying its handle.
    pub fn from_request(request: &Request) -> (r: Reply)
        ensures
            r.error == 0,
            r.handle == request.handle,
    {
        Reply { error: 0, handle: request.handle }
    }

    /// Appends the reply header to `out`.
    pub fn append_to_vec(&self, out: &mut Vec<u8>)
        ensures
            final(out)@ == old(out)@ + reply_bytes(*self),
    {
        push_be32(out, REPLY_MAGIC);
        push_be32(out, self.error);
        push_be64(out, self.handle);
        assert(final(out)@ =~= old(out)@ + reply_bytes(*self));
    }
}

} // verus!
