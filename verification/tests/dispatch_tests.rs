//! The dispatcher: frame validation, the display handshake, and the
//! take/restore discipline.

use carbon::buffer::{MessageBuf, Read, Write};
use carbon::error::MessageError;
use carbon::protocol::{Interface, WlBuffer};
use carbon::registry::{ClientObjects, ObjectId, ObjectRegistry};

fn word(v: u32) -> [u8; 4] {
    v.to_le_bytes()
}

fn header(size: u32, opcode: u32) -> [u8; 4] {
    ((size << 16) | opcode).to_le_bytes()
}

fn frame(object: u32, opcode: u32, payload: &[u8]) -> Vec<u8> {
    let mut f = Vec::new();
    f.extend_from_slice(&word(object));
    f.extend_from_slice(&header(8 + payload.len() as u32, opcode));
    f.extend_from_slice(payload);
    f
}

struct Conn {
    registry: ObjectRegistry,
    objects: ClientObjects,
    recv: MessageBuf<Read>,
    send: MessageBuf<Write>,
}

fn connect() -> Conn {
    let registry = ObjectRegistry::new();
    let objects = ClientObjects::new(registry.display_id());
    Conn { registry, objects, recv: MessageBuf::new(), send: MessageBuf::new() }
}

impl Conn {
    fn feed(&mut self, bytes: &[u8]) {
        self.recv.grow(bytes);
    }

    fn run(&mut self) -> Result<usize, MessageError> {
        self.recv.deserialize_messages(&mut self.registry, &mut self.objects, &mut self.send)
    }

    /// Perform the get_registry(new_id = 2) handshake and drain the
    /// announcements, so client-allocated ids continue from 3.
    fn handshake(&mut self) {
        self.feed(&frame(1, 1, &word(2)));
        assert_eq!(self.run().unwrap(), 1);
        let staged = self.send.len();
        self.send.shrink(staged);
    }
}

#[test]
fn object_id_zero_is_invalid_object() {
    let mut c = connect();
    c.feed(&frame(0, 0, &word(2)));
    assert_eq!(c.run().unwrap_err(), MessageError::InvalidObject);
}

#[test]
fn size_below_eight_is_bad_format() {
    let mut c = connect();
    let mut f = Vec::new();
    f.extend_from_slice(&word(1));
    f.extend_from_slice(&header(7, 0));
    c.feed(&f);
    assert_eq!(c.run().unwrap_err(), MessageError::BadFormat);
}

#[test]
fn size_not_multiple_of_four_is_bad_format() {
    let mut c = connect();
    let mut f = Vec::new();
    f.extend_from_slice(&word(1));
    f.extend_from_slice(&header(10, 0));
    f.extend_from_slice(&[0, 0, 0, 0]);
    c.feed(&f);
    assert_eq!(c.run().unwrap_err(), MessageError::BadFormat);
}

#[test]
fn bad_opcode_is_invalid_opcode() {
    // object = 1 (the display), opcode 7, size 8.
    let mut c = connect();
    c.feed(&frame(1, 7, &[]));
    assert_eq!(c.run().unwrap_err(), MessageError::InvalidOpcode);
}

#[test]
fn unknown_object_id_is_invalid_object() {
    let mut c = connect();
    c.feed(&frame(9, 0, &[]));
    assert_eq!(c.run().unwrap_err(), MessageError::InvalidObject);
}

#[test]
fn sync_emits_done_with_serial_zero() {
    let mut c = connect();
    c.handshake();
    c.feed(&frame(1, 0, &word(3)));
    assert_eq!(c.run().unwrap(), 1);
    // A single 12-byte wl_callback.done(serial = 0) frame to id 3:
    // header 0x000C_0000, payload 0x00000000.
    let out = c.send.as_byte_slice();
    assert_eq!(out.len(), 12);
    assert_eq!(&out[0..4], &word(3));
    let hdr = u32::from_le_bytes([out[4], out[5], out[6], out[7]]);
    assert_eq!(hdr, 0x000C_0000);
    assert_eq!(&out[8..12], &word(0));
}

#[test]
fn header_only_frame_dispatches_for_zero_arg_opcode() {
    // Bind a wl_buffer at id 2 and send destroy (opcode 0, no args):
    // an 8-byte frame dispatches cleanly.
    let mut c = connect();
    let h = c.registry.insert(Interface::WlBuffer(WlBuffer));
    let id = ObjectId::new(2).unwrap();
    c.objects.register(id, Some(h)).unwrap();
    c.feed(&frame(2, 0, &[]));
    assert_eq!(c.run().unwrap(), 1);
    assert!(c.send.is_empty());
}

#[test]
fn partial_frame_waits_for_the_rest() {
    // 11 of the 12 bytes of a sync frame: nothing dispatches, the
    // partial tail stays; the final byte completes one frame.
    let mut c = connect();
    c.handshake();
    let f = frame(1, 0, &word(3));
    c.feed(&f[..11]);
    assert_eq!(c.run().unwrap(), 0);
    assert_eq!(c.recv.len(), 11);
    c.feed(&f[11..]);
    assert_eq!(c.run().unwrap(), 1);
    assert_eq!(c.recv.len(), 0);
    assert_eq!(c.send.len(), 12);
}

#[test]
fn dispatched_object_is_restored() {
    // After a sync on the display, the display object is back in its
    // slot: a second sync still works.
    let mut c = connect();
    c.handshake();
    c.feed(&frame(1, 0, &word(3)));
    assert_eq!(c.run().unwrap(), 1);
    assert!(c.registry.get(c.registry.display_id()).is_some());
    c.feed(&frame(1, 0, &word(4)));
    assert_eq!(c.run().unwrap(), 1);
    assert!(c.registry.get(c.registry.display_id()).is_some());
}

#[test]
fn two_frames_dispatch_in_one_pass() {
    let mut c = connect();
    c.handshake();
    let mut bytes = frame(1, 0, &word(3));
    bytes.extend_from_slice(&frame(1, 0, &word(4)));
    c.feed(&bytes);
    assert_eq!(c.run().unwrap(), 2);
    assert_eq!(c.send.len(), 24);
}

#[test]
fn error_in_second_frame_keeps_first_dispatched() {
    let mut c = connect();
    c.handshake();
    let mut bytes = frame(1, 0, &word(3));
    bytes.extend_from_slice(&frame(1, 7, &[]));
    c.feed(&bytes);
    assert_eq!(c.run().unwrap_err(), MessageError::InvalidOpcode);
    // The first frame's reply is still staged.
    assert_eq!(c.send.len(), 12);
}

#[test]
fn sync_on_used_id_is_invalid_object() {
    // Id 1 is the display itself; binding the callback there fails.
    let mut c = connect();
    c.feed(&frame(1, 0, &word(1)));
    assert_eq!(c.run().unwrap_err(), MessageError::InvalidObject);
}
