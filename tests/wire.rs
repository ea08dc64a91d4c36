use ihop::server::{action_for, append_flush_reply, append_read_reply, on_receive, Action, Received};
use ihop::wire::{decode_requests, Command, Reply, Request, WireError, SIZE_OF_REPLY, SIZE_OF_REQUEST};

fn record(kind: u32, handle: u64, from: u64, len: u32) -> Vec<u8> {
    let mut v = Vec::new();
    v.extend_from_slice(&0x25609513u32.to_be_bytes());
    v.extend_from_slice(&kind.to_be_bytes());
    v.extend_from_slice(&handle.to_be_bytes());
    v.extend_from_slice(&from.to_be_bytes());
    v.extend_from_slice(&len.to_be_bytes());
    v
}

#[test]
fn three_records_decode_in_order() {
    let mut buf = record(0, 1, 4096, 512);
    buf.extend(record(3, 2, 0, 0));
    buf.extend(record(0x0001_0000, 0xdead_beef_0102_0304, 1 << 40, 7));
    assert_eq!(buf.len(), 3 * SIZE_OF_REQUEST);
    let reqs = decode_requests(&buf).unwrap();
    assert_eq!(
        reqs,
        vec![
            Request { command: Command::Read, flags: 0, handle: 1, from: 4096, len: 512 },
            Request { command: Command::Flush, flags: 0, handle: 2, from: 0, len: 0 },
            Request { command: Command::Read, flags: 1, handle: 0xdead_beef_0102_0304, from: 1 << 40, len: 7 },
        ]
    );
}

#[test]
fn trailing_partial_record_is_an_error() {
    let mut buf = record(0, 1, 0, 1);
    buf.extend(record(0, 2, 0, 1));
    buf.extend(record(0, 3, 0, 1));
    buf.push(0);
    assert_eq!(decode_requests(&buf), Err(WireError::PartialRecord));
    assert_eq!(decode_requests(&buf[..30]), Err(WireError::PartialRecord));
}

#[test]
fn bad_magic_and_unknown_command() {
    let mut buf = record(0, 1, 0, 1);
    buf[0] = 0;
    assert_eq!(decode_requests(&buf), Err(WireError::BadMagic));
    assert_eq!(decode_requests(&record(5, 1, 0, 1)), Err(WireError::UnknownCommand(5)));
    assert_eq!(Request::try_from_bytes(&record(6, 9, 8, 7)).unwrap().command, Command::WriteZeroes);
}

#[test]
fn reply_layout() {
    let mut out = Vec::new();
    let r = Reply { error: 5, handle: 0x0102030405060708 };
    r.append_to_vec(&mut out);
    assert_eq!(out.len(), SIZE_OF_REPLY);
    assert_eq!(out, vec![0x67, 0x44, 0x66, 0x98, 0, 0, 0, 5, 1, 2, 3, 4, 5, 6, 7, 8]);
}

#[test]
fn receive_outcomes() {
    let buf = record(4, 3, 0, 0);
    assert!(matches!(on_receive(&buf, 0), Received::Closed));
    match on_receive(&buf, SIZE_OF_REQUEST) {
        Received::Batch(v) => assert_eq!(v[0].command, Command::Trim),
        _ => panic!("expected a batch"),
    }
    assert!(matches!(on_receive(&buf, 10), Received::Framing(WireError::PartialRecord)));
    let mut two = record(0, 1, 0, 1);
    let mut bad = record(0, 2, 0, 1);
    bad[3] = 0;
    two.extend(bad);
    assert!(matches!(on_receive(&two, 2 * SIZE_OF_REQUEST), Received::Framing(WireError::BadMagic)));
}

#[test]
fn actions_and_replies() {
    let read = Request { command: Command::Read, flags: 0, handle: 7, from: 100, len: 3 };
    let flush = Request { command: Command::Flush, flags: 0, handle: 8, from: 0, len: 0 };
    let write = Request { command: Command::Write, flags: 0, handle: 9, from: 0, len: 4 };
    assert_eq!(action_for(&read), Action::Read { from: 100, len: 3 });
    assert_eq!(action_for(&flush), Action::Flush);
    assert_eq!(action_for(&write), Action::Unsupported(Command::Write));
    let mut out = Vec::new();
    append_read_reply(&mut out, &read, 0, &[1, 2, 3]);
    append_flush_reply(&mut out, &flush);
    assert_eq!(out.len(), 2 * SIZE_OF_REPLY + 3);
    assert_eq!(&out[15..19], &[7, 1, 2, 3]);
    assert_eq!(&out[19..23], &[0x67, 0x44, 0x66, 0x98]);
    assert_eq!(&out[31..35], &[0, 0, 0, 8]);
}
