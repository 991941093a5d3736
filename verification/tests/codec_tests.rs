//! The wire codec: buffer bounds, argument round trips, and string
//! validation.

use carbon::buffer::{FdSource, MessageBuf, Read, Write, BUF_SIZE, MAX_FDS_OUT};
use carbon::error::MessageError;
use carbon::wire::{decode_args, emit_message, ArgType, ArgValue};

fn word(v: u32) -> [u8; 4] {
    v.to_le_bytes()
}

#[test]
fn buffer_starts_empty() {
    let buf: MessageBuf<Read> = MessageBuf::new();
    assert!(buf.is_empty());
    assert!(!buf.is_full());
    assert_eq!(buf.len(), 0);
}

#[test]
fn allocate_fills_to_capacity() {
    let mut buf: MessageBuf<Write> = MessageBuf::new();
    let start = buf.allocate(BUF_SIZE / 4).expect("full allocation fits");
    assert_eq!(start, 0);
    assert_eq!(buf.len(), BUF_SIZE);
    assert!(buf.is_full());
}

#[test]
fn allocate_past_capacity_is_out_of_memory() {
    let mut buf: MessageBuf<Write> = MessageBuf::new();
    buf.allocate(BUF_SIZE / 4).expect("full allocation fits");
    let r = buf.allocate(1);
    assert_eq!(r, Err(MessageError::OutOfMemory));
    assert_eq!(buf.len(), BUF_SIZE);
}

#[test]
fn push_fd_caps_at_twenty_eight() {
    let mut buf: MessageBuf<Write> = MessageBuf::new();
    for i in 0..MAX_FDS_OUT {
        buf.push_fd(i as i32).expect("within the fd bound");
    }
    assert_eq!(buf.staged_fds().len(), 28);
    let r = buf.push_fd(99);
    assert_eq!(r, Err(MessageError::OutOfMemory));
    assert_eq!(buf.staged_fds().len(), 28);
}

#[test]
fn shrink_keeps_the_tail() {
    let mut buf: MessageBuf<Write> = MessageBuf::new();
    buf.push_word(0x6463_6261); // "abcd"
    buf.push_word(0x6867_6665); // "efgh"
    buf.shrink(3);
    assert_eq!(buf.as_byte_slice(), &[b'd', b'e', b'f', b'g', b'h']);
}

#[test]
fn emit_then_decode_round_trip() {
    let mut send: MessageBuf<Write> = MessageBuf::new();
    let args = vec![
        ArgValue::Uint(7),
        ArgValue::Int(-5),
        ArgValue::Str(Some(b"hello".to_vec())),
        ArgValue::Array(vec![1, 2, 3]),
        ArgValue::Fd(42),
        ArgValue::Object(9),
        ArgValue::Fixed(-256),
        ArgValue::NewId(11),
    ];
    emit_message(&mut send, 4, 3, &args).expect("frame fits");

    let bytes = send.as_byte_slice().to_vec();
    // Header: object id 4, size in the high 16 bits, opcode 3 low.
    assert_eq!(&bytes[0..4], &word(4));
    let header = u32::from_le_bytes([bytes[4], bytes[5], bytes[6], bytes[7]]);
    assert_eq!(header & 0xFFFF, 3);
    assert_eq!((header >> 16) as usize, bytes.len());
    // The fd went to the ancillary queue, not the payload.
    assert_eq!(send.staged_fds(), vec![42]);

    let sig = vec![
        ArgType::Uint,
        ArgType::Int,
        ArgType::Str { nullable: false },
        ArgType::Array,
        ArgType::Fd,
        ArgType::Object { nullable: false },
        ArgType::Fixed,
        ArgType::NewId { nullable: false },
    ];
    let payload: Vec<u8> = bytes[8..].to_vec();
    let mut fds = FdSource::new();
    fds.push(42);
    let vals = decode_args(&sig, &payload, &mut fds).expect("well-formed payload");
    assert_eq!(vals.len(), 8);
    assert!(matches!(vals[0], ArgValue::Uint(7)));
    assert!(matches!(vals[1], ArgValue::Int(-5)));
    match &vals[2] {
        ArgValue::Str(Some(s)) => assert_eq!(s, b"hello"),
        other => panic!("expected a string, got {:?}", arg_kind(other)),
    }
    match &vals[3] {
        ArgValue::Array(a) => assert_eq!(a, &vec![1, 2, 3]),
        other => panic!("expected an array, got {:?}", arg_kind(other)),
    }
    assert!(matches!(vals[4], ArgValue::Fd(42)));
    assert!(matches!(vals[5], ArgValue::Object(9)));
    assert!(matches!(vals[6], ArgValue::Fixed(-256)));
    assert!(matches!(vals[7], ArgValue::NewId(11)));
    assert_eq!(fds.len(), 0);
}

fn arg_kind(a: &ArgValue) -> &'static str {
    match a {
        ArgValue::Int(_) => "int",
        ArgValue::Uint(_) => "uint",
        ArgValue::Fixed(_) => "fixed",
        ArgValue::Object(_) => "object",
        ArgValue::NewId(_) => "new_id",
        ArgValue::Str(_) => "string",
        ArgValue::Array(_) => "array",
        ArgValue::Fd(_) => "fd",
    }
}

#[test]
fn null_string_needs_allow_null() {
    // Length word 0 with a nullable signature produces the null string.
    let payload = word(0).to_vec();
    let mut fds = FdSource::new();
    let vals = decode_args(&vec![ArgType::Str { nullable: true }], &payload, &mut fds)
        .expect("null is allowed here");
    assert!(matches!(vals[0], ArgValue::Str(None)));

    // The same payload without allow-null is BadFormat.
    let mut fds = FdSource::new();
    let r = decode_args(&vec![ArgType::Str { nullable: false }], &payload, &mut fds);
    assert_eq!(r.unwrap_err(), MessageError::BadFormat);
}

#[test]
fn string_must_be_utf8() {
    let mut payload = word(3).to_vec(); // two bytes + NUL
    payload.extend_from_slice(&[0xFF, 0xFE, 0, 0]);
    let mut fds = FdSource::new();
    let r = decode_args(&vec![ArgType::Str { nullable: false }], &payload, &mut fds);
    assert_eq!(r.unwrap_err(), MessageError::BadFormat);
}

#[test]
fn trailing_payload_is_bad_format() {
    // One uint argument but two words of payload.
    let mut payload = word(1).to_vec();
    payload.extend_from_slice(&word(2));
    let mut fds = FdSource::new();
    let r = decode_args(&vec![ArgType::Uint], &payload, &mut fds);
    assert_eq!(r.unwrap_err(), MessageError::BadFormat);
}

#[test]
fn missing_fd_is_bad_format() {
    let payload = Vec::new();
    let mut fds = FdSource::new();
    let r = decode_args(&vec![ArgType::Fd], &payload, &mut fds);
    assert_eq!(r.unwrap_err(), MessageError::BadFormat);
}

#[test]
fn null_object_id_needs_allow_null() {
    let payload = word(0).to_vec();
    let mut fds = FdSource::new();
    let vals = decode_args(&vec![ArgType::Object { nullable: true }], &payload, &mut fds)
        .expect("null object allowed");
    assert!(matches!(vals[0], ArgValue::Object(0)));

    let mut fds = FdSource::new();
    let r = decode_args(&vec![ArgType::Object { nullable: false }], &payload, &mut fds);
    assert_eq!(r.unwrap_err(), MessageError::BadFormat);
}

#[test]
fn oversized_frame_is_out_of_memory() {
    let mut send: MessageBuf<Write> = MessageBuf::new();
    let args = vec![ArgValue::Array(vec![0u8; BUF_SIZE])];
    let r = emit_message(&mut send, 1, 0, &args);
    assert_eq!(r, Err(MessageError::OutOfMemory));
    assert!(send.is_empty());
}
