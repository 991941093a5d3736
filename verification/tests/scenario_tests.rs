//! End-to-end scenarios: the registry handshake, fd passing, the seat
//! lifecycle, global idempotence and buffer compaction.

use carbon::buffer::{MessageBuf, Read, Write};
use carbon::client::{Client, Clients, MessageStream};
use carbon::error::MessageError;
use carbon::input::{create_seat, destroy_seat, InputState, CAP_KEYBOARD, CAP_POINTER};
use carbon::protocol::{Interface, WlShm, XdgToplevel};
use carbon::registry::{ClientObjects, ObjectId, ObjectRegistry};

fn word(v: u32) -> [u8; 4] {
    v.to_le_bytes()
}

fn header(size: u32, opcode: u32) -> [u8; 4] {
    ((size << 16) | opcode).to_le_bytes()
}

fn frame(object: u32, opcode: u32, payload: &[u8]) -> Vec<u8> {
    let mut f = Vec::new();
    f.extend_from_slice(&word(object));
    f.extend_from_slice(&header(8 + payload.len() as u32, opcode));
    f.extend_from_slice(payload);
    f
}

/// Split a staged byte stream into frames of (object, opcode, payload).
fn split_frames(bytes: &[u8]) -> Vec<(u32, u16, Vec<u8>)> {
    let mut out = Vec::new();
    let mut i = 0;
    while bytes.len() - i >= 8 {
        let object = u32::from_le_bytes([bytes[i], bytes[i + 1], bytes[i + 2], bytes[i + 3]]);
        let hdr =
            u32::from_le_bytes([bytes[i + 4], bytes[i + 5], bytes[i + 6], bytes[i + 7]]);
        let size = (hdr >> 16) as usize;
        let opcode = (hdr & 0xFFFF) as u16;
        assert!(size >= 8 && size % 4 == 0 && i + size <= bytes.len());
        out.push((object, opcode, bytes[i + 8..i + size].to_vec()));
        i += size;
    }
    assert_eq!(i, bytes.len());
    out
}

/// Decode a wl_registry.global payload: (name, interface, version).
fn decode_global(payload: &[u8]) -> (u32, Vec<u8>, u32) {
    let name = u32::from_le_bytes([payload[0], payload[1], payload[2], payload[3]]);
    let l = u32::from_le_bytes([payload[4], payload[5], payload[6], payload[7]]) as usize;
    assert!(l >= 1);
    let s = payload[8..8 + l - 1].to_vec();
    let padded = (l + 3) / 4 * 4;
    let voff = 8 + padded;
    let version = u32::from_le_bytes([
        payload[voff],
        payload[voff + 1],
        payload[voff + 2],
        payload[voff + 3],
    ]);
    (name, s, version)
}

struct Conn {
    registry: ObjectRegistry,
    objects: ClientObjects,
    recv: MessageBuf<Read>,
    send: MessageBuf<Write>,
}

fn connect() -> Conn {
    let registry = ObjectRegistry::new();
    let objects = ClientObjects::new(registry.display_id());
    Conn { registry, objects, recv: MessageBuf::new(), send: MessageBuf::new() }
}

impl Conn {
    fn feed(&mut self, bytes: &[u8]) {
        self.recv.grow(bytes);
    }

    fn run(&mut self) -> Result<usize, MessageError> {
        self.recv.deserialize_messages(&mut self.registry, &mut self.objects, &mut self.send)
    }
}

#[test]
fn get_registry_announces_every_global() {
    let mut c = connect();
    c.feed(&frame(1, 1, &word(2)));
    assert_eq!(c.run().unwrap(), 1);

    let frames = split_frames(c.send.as_byte_slice());
    assert_eq!(frames.len(), 5);
    let expected: [&[u8]; 5] = [
        b"wl_compositor",
        b"wl_shm",
        b"wl_data_device_manager",
        b"wl_subcompositor",
        b"xdg_wm_base",
    ];
    for (k, (object, opcode, payload)) in frames.iter().enumerate() {
        assert_eq!(*object, 2);
        assert_eq!(*opcode, 0);
        let (_, iface, version) = decode_global(payload);
        assert_eq!(&iface[..], expected[k]);
        assert!(version >= 1);
    }
}

#[test]
fn bind_registers_the_matching_global() {
    let mut c = connect();
    c.feed(&frame(1, 1, &word(2)));
    assert_eq!(c.run().unwrap(), 1);
    let frames = split_frames(c.send.as_byte_slice());
    // Find the advertised wl_shm global and bind it at id 5.
    let (name, iface, version) = frames
        .iter()
        .map(|(_, _, p)| decode_global(p))
        .find(|(_, iface, _)| iface == b"wl_shm")
        .expect("wl_shm is advertised");
    let mut payload = Vec::new();
    payload.extend_from_slice(&word(name));
    payload.extend_from_slice(&word(iface.len() as u32 + 1));
    payload.extend_from_slice(&iface);
    payload.push(0);
    while payload.len() % 4 != 0 {
        payload.push(0);
    }
    payload.extend_from_slice(&word(version));
    payload.extend_from_slice(&word(3));
    c.feed(&frame(2, 0, &payload));
    assert_eq!(c.run().unwrap(), 1);

    let bound = c.objects.get(ObjectId::new(3).unwrap()).expect("id 3 is bound");
    match c.registry.get(bound) {
        Some(Interface::WlShm(_)) => {},
        _ => panic!("id 3 should be bound to the wl_shm global"),
    }
}

#[test]
fn bind_with_excessive_version_is_bad_request() {
    let mut c = connect();
    c.feed(&frame(1, 1, &word(2)));
    assert_eq!(c.run().unwrap(), 1);
    let frames = split_frames(c.send.as_byte_slice());
    let (name, iface, version) = frames
        .iter()
        .map(|(_, _, p)| decode_global(p))
        .find(|(_, iface, _)| iface == b"wl_shm")
        .expect("wl_shm is advertised");
    let mut payload = Vec::new();
    payload.extend_from_slice(&word(name));
    payload.extend_from_slice(&word(iface.len() as u32 + 1));
    payload.extend_from_slice(&iface);
    payload.push(0);
    while payload.len() % 4 != 0 {
        payload.push(0);
    }
    payload.extend_from_slice(&word(version + 1));
    payload.extend_from_slice(&word(3));
    c.feed(&frame(2, 0, &payload));
    assert_eq!(c.run().unwrap_err(), MessageError::BadRequest);
}

#[test]
fn bind_of_nonexistent_global_is_bad_request() {
    let mut c = connect();
    c.feed(&frame(1, 1, &word(2)));
    assert_eq!(c.run().unwrap(), 1);
    let mut payload = Vec::new();
    payload.extend_from_slice(&word(4_000_000));
    payload.extend_from_slice(&word(8));
    payload.extend_from_slice(b"no_such");
    payload.push(0);
    payload.extend_from_slice(&word(1));
    payload.extend_from_slice(&word(5));
    c.feed(&frame(2, 0, &payload));
    assert_eq!(c.run().unwrap_err(), MessageError::BadRequest);
}

#[test]
fn create_surface_registers_a_fresh_object() {
    let mut c = connect();
    // Bind the registry, then wl_compositor at id 3, then create a
    // surface at id 4.
    c.feed(&frame(1, 1, &word(2)));
    assert_eq!(c.run().unwrap(), 1);
    let frames = split_frames(c.send.as_byte_slice());
    let (name, iface, version) = frames
        .iter()
        .map(|(_, _, p)| decode_global(p))
        .find(|(_, iface, _)| iface == b"wl_compositor")
        .expect("wl_compositor is advertised");
    let mut payload = Vec::new();
    payload.extend_from_slice(&word(name));
    payload.extend_from_slice(&word(iface.len() as u32 + 1));
    payload.extend_from_slice(&iface);
    payload.push(0);
    while payload.len() % 4 != 0 {
        payload.push(0);
    }
    payload.extend_from_slice(&word(version));
    payload.extend_from_slice(&word(3));
    c.feed(&frame(2, 0, &payload));
    assert_eq!(c.run().unwrap(), 1);

    c.feed(&frame(3, 0, &word(4)));
    assert_eq!(c.run().unwrap(), 1);
    let bound = c.objects.get(ObjectId::new(4).unwrap()).expect("id 4 is bound");
    match c.registry.get(bound) {
        Some(Interface::WlSurface(_)) => {},
        _ => panic!("id 4 should be a fresh wl_surface"),
    }
}

#[test]
fn create_pool_consumes_the_ancillary_fd() {
    let mut c = connect();
    // Bind wl_shm directly at id 2 for brevity.
    let shm = c.registry.insert(Interface::WlShm(WlShm));
    c.objects.register(ObjectId::new(2).unwrap(), Some(shm)).unwrap();
    // wl_shm.create_pool(new_id = 3, fd, size = 4096): the fd rides
    // in the ancillary queue and is popped by the decoder.
    let mut payload = Vec::new();
    payload.extend_from_slice(&word(3));
    payload.extend_from_slice(&word(4096));
    c.recv.push_received_fd(17);
    assert_eq!(c.recv.fd_count(), 1);
    c.feed(&frame(2, 0, &payload));
    assert_eq!(c.run().unwrap(), 1);
    // The fd was popped from the queue; the handler owns it now.
    assert_eq!(c.recv.fd_count(), 0);
    assert_eq!(c.recv.len(), 0);
    // The new wl_shm_pool is registered under the new id and holds the
    // passed descriptor and the requested size.
    let bound = c.objects.get(ObjectId::new(3).unwrap()).expect("id 3 is bound");
    match c.registry.get(bound) {
        Some(Interface::WlShmPool(pool)) => {
            assert_eq!(pool.fd, 17);
            assert_eq!(pool.size, 4096);
        },
        _ => panic!("id 3 should be a fresh wl_shm_pool"),
    }
}

#[test]
fn seat_lifecycle_broadcasts_global_and_removal() {
    let mut registry = ObjectRegistry::new();
    let mut clients = Clients::new();
    let mut input = InputState::new();

    // One client with a bound registry at id 2.
    let mut client = Client::new(MessageStream::new(7), registry.display_id());
    {
        // Drive the bind through the dispatcher.
        let id = clients.next_id();
        clients.insert_or_push(id, client);
        clients.feed_client(id, &frame(1, 1, &word(2)));
        let r = clients.process_client(id, &mut registry).expect("client exists");
        assert_eq!(r.unwrap(), 1);
        // Drain the handshake events.
        let staged = clients.client_outgoing_bytes(id);
        clients.client_flushed(id, staged.len());
    }

    let seat_id = create_seat(&mut input, &mut registry, &mut clients, CAP_KEYBOARD | CAP_POINTER)
        .expect("announcement fits");

    let staged = clients.client_outgoing_bytes(0);
    let frames = split_frames(&staged);
    assert_eq!(frames.len(), 1, "exactly one wl_registry.global for the seat");
    let (object, opcode, payload) = &frames[0];
    assert_eq!(*object, 2);
    assert_eq!(*opcode, 0);
    let (name, iface, _version) = decode_global(payload);
    assert_eq!(&iface[..], b"wl_seat");
    clients.client_flushed(0, staged.len());

    destroy_seat(&mut input, &mut registry, &mut clients, seat_id).expect("removal fits");
    let staged = clients.client_outgoing_bytes(0);
    let frames = split_frames(&staged);
    assert_eq!(frames.len(), 1, "exactly one wl_registry.global_remove");
    let (object, opcode, payload) = &frames[0];
    assert_eq!(*object, 2);
    assert_eq!(*opcode, 1);
    let removed_name = u32::from_le_bytes([payload[0], payload[1], payload[2], payload[3]]);
    assert_eq!(removed_name, name, "removal names the same global");
}

#[test]
fn make_global_twice_changes_nothing_more() {
    let mut registry = ObjectRegistry::new();
    let mut clients = Clients::new();
    let mut client = Client::new(MessageStream::new(7), registry.display_id());
    let id = clients.next_id();
    clients.insert_or_push(id, client);
    clients.feed_client(id, &frame(1, 1, &word(2)));
    clients.process_client(id, &mut registry).unwrap().unwrap();
    let staged = clients.client_outgoing_bytes(id);
    clients.client_flushed(id, staged.len());

    let h = registry.insert(Interface::WlShm(WlShm));
    registry.make_global(h, &mut clients).unwrap();
    let after_first = clients.client_outgoing_bytes(0);
    assert_eq!(split_frames(&after_first).len(), 1);
    assert_eq!(registry.globals().len(), 6);

    // The second call is observationally a no-op.
    registry.make_global(h, &mut clients).unwrap();
    let after_second = clients.client_outgoing_bytes(0);
    assert_eq!(after_second, after_first);
    assert_eq!(registry.globals().len(), 6);
}

#[test]
fn remove_global_of_absent_handle_is_a_no_op() {
    let mut registry = ObjectRegistry::new();
    let mut clients = Clients::new();
    let h = registry.insert(Interface::WlShm(WlShm));
    // Never advertised: removing changes nothing.
    registry.remove_global(h, &mut clients).unwrap();
    assert_eq!(registry.globals().len(), 5);
}

#[test]
fn compaction_keeps_trailing_bytes_bit_identical() {
    // Two complete frames and 3 trailing bytes. (Two whole frames are
    // always a multiple of four bytes, so a 4088-byte feed cannot
    // leave exactly 3; this uses the same shape at the largest size
    // that can.)
    let mut c = connect();
    let toplevel = c.registry.insert(Interface::XdgToplevel(XdgToplevel));
    c.objects.register(ObjectId::new(2).unwrap(), Some(toplevel)).unwrap();

    // xdg_toplevel.set_title with a long title: 8 + 4 + 2028 = 2040.
    let title = vec![b'a'; 2027];
    let mut payload = Vec::new();
    payload.extend_from_slice(&word(title.len() as u32 + 1));
    payload.extend_from_slice(&title);
    payload.push(0);
    while payload.len() % 4 != 0 {
        payload.push(0);
    }
    let frame1 = frame(2, 2, &payload);
    assert_eq!(frame1.len(), 2040);

    // A second one of 2044 bytes.
    let title = vec![b'b'; 2031];
    let mut payload = Vec::new();
    payload.extend_from_slice(&word(title.len() as u32 + 1));
    payload.extend_from_slice(&title);
    payload.push(0);
    while payload.len() % 4 != 0 {
        payload.push(0);
    }
    let frame2 = frame(2, 2, &payload);
    assert_eq!(frame2.len(), 2044);

    let mut bytes = Vec::new();
    bytes.extend_from_slice(&frame1);
    bytes.extend_from_slice(&frame2);
    bytes.extend_from_slice(&[0xAA, 0xBB, 0xCC]);
    assert_eq!(bytes.len(), 4087);

    c.feed(&bytes);
    assert_eq!(c.run().unwrap(), 2);
    assert_eq!(c.recv.len(), 3);
    assert_eq!(c.recv.byte_at(0), 0xAA);
    assert_eq!(c.recv.byte_at(1), 0xBB);
    assert_eq!(c.recv.byte_at(2), 0xCC);
}

#[test]
fn every_bound_id_resolves_to_a_live_object() {
    // After the handshake, a bind and a surface creation, every handle
    // in the client's table addresses a live registry slot.
    let mut c = connect();
    c.feed(&frame(1, 1, &word(2)));
    assert_eq!(c.run().unwrap(), 1);
    let frames = split_frames(c.send.as_byte_slice());
    let (name, iface, version) = frames
        .iter()
        .map(|(_, _, p)| decode_global(p))
        .find(|(_, iface, _)| iface == b"wl_compositor")
        .expect("wl_compositor is advertised");
    let mut payload = Vec::new();
    payload.extend_from_slice(&word(name));
    payload.extend_from_slice(&word(iface.len() as u32 + 1));
    payload.extend_from_slice(&iface);
    payload.push(0);
    while payload.len() % 4 != 0 {
        payload.push(0);
    }
    payload.extend_from_slice(&word(version));
    payload.extend_from_slice(&word(3));
    c.feed(&frame(2, 0, &payload));
    assert_eq!(c.run().unwrap(), 1);
    c.feed(&frame(3, 0, &word(4)));
    assert_eq!(c.run().unwrap(), 1);

    for (id, handle) in c.objects.iter() {
        assert!(id.raw() != 0);
        assert!(
            c.registry.get(handle).is_some(),
            "the handle bound at id {} must be live",
            id.raw()
        );
    }
}

#[test]
fn client_ids_fill_the_first_free_slot() {
    let mut registry = ObjectRegistry::new();
    let mut clients = Clients::new();
    let a = clients.next_id();
    assert_eq!(a, 0);
    clients.insert_or_push(a, Client::new(MessageStream::new(10), registry.display_id()));
    let b = clients.next_id();
    assert_eq!(b, 1);
    clients.insert_or_push(b, Client::new(MessageStream::new(11), registry.display_id()));
    clients.delete(0);
    let c = clients.next_id();
    assert_eq!(c, 0, "a freed slot is reused first");
    let _ = registry;
}
