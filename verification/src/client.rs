//! Per-client state: the message stream with its two buffers, the
//! client's object table, and the table of connected clients.

use vstd::prelude::*;
use vstd::std_specs::vec::vec_index_mut;

use crate::buffer::{MessageBuf, Read, Write, BUF_SIZE};
use crate::error::MessageError;
use crate::protocol::{emit_global, emit_global_remove, spec_global_args, spec_global_remove_args};
use crate::registry::{spec_first_registry_from, ClientObjects, ObjectRegistry};
use crate::store::GlobalObjectId;
use crate::wire::{spec_encode_args, spec_frame_bytes};

verus! {

/// One client's stream: its descriptor and the receive and send buffers.
///
/// The descriptor is held as a plain value; reading and writing it is
/// the caller's part, feeding received bytes in and taking staged bytes
/// out through the methods here.
pub struct MessageStream {
    stream_fd: i32,
    pub(crate) receive_buf: MessageBuf<Read>,
    pub(crate) send_buf: MessageBuf<Write>,
}

impl MessageStream {
    pub closed spec fn spec_fd(&self) -> i32 {
        self.stream_fd
    }

    /// The receive buffer.
    pub closed spec fn recv(&self) -> MessageBuf<Read> {
        self.receive_buf
    }

    /// The send buffer.
    pub closed spec fn send(&self) -> MessageBuf<Write> {
        self.send_buf
    }

    /// Both buffers within capacity and the staged-fd bound held.
    pub open spec fn wf(&self) -> bool {
        self.recv().cap_ok() && self.send().cap_ok() && self.send().fds_ok()
    }

    pub fn new(stream_fd: i32) -> (r: MessageStream)
        ensures
            r.wf(),
            r.spec_fd() == stream_fd,
            r.recv().bytes() == Seq::<u8>::empty(),
            r.recv().fd_seq() == Seq::<i32>::empty(),
            r.send().bytes() == Seq::<u8>::empty(),
            r.send().fd_seq() == Seq::<i32>::empty(),
    {
        MessageStream {
            stream_fd,
            receive_buf: MessageBuf::new(),
            send_buf: MessageBuf::new(),
        }
    }

    /// The stream's descriptor, for polling, reading and writing.
    pub fn fd(&self) -> (r: i32)
        ensures
            r == self.spec_fd(),
    {
        self.stream_fd
    }

    /// How many more received bytes the stream can hold.
    pub fn recv_space(&self) -> (r: usize)
        requires
            self.wf(),
        ensures
            r == BUF_SIZE - self.recv().bytes().len(),
    {
        BUF_SIZE - self.receive_buf.len()
    }

    /// Append bytes read from the socket.
    pub fn feed_bytes(&mut self, chunk: &[u8])
        requires
            old(self).wf(),
            chunk@.len() <= BUF_SIZE - old(self).recv().bytes().len(),
        ensures
            final(self).wf(),
            final(self).spec_fd() == old(self).spec_fd(),
            final(self).recv().bytes() == old(self).recv().bytes() + chunk@,
            final(self).recv().fd_seq() == old(self).recv().fd_seq(),
            final(self).send() == old(self).send(),
    {
        self.receive_buf.grow(chunk);
    }

    /// Append one file descriptor received in ancillary data.
    pub fn feed_fd(&mut self, fd: i32)
        ensures
            final(self).spec_fd() == old(self).spec_fd(),
            final(self).recv().bytes() == old(self).recv().bytes(),
            final(self).recv().fd_seq() == old(self).recv().fd_seq().push(fd),
            final(self).send() == old(self).send(),
            old(self).wf() ==> final(self).wf(),
    {
        self.receive_buf.push_received_fd(fd);
    }

    /// The bytes staged to send, in order.
    pub fn outgoing_bytes(&self) -> (r: Vec<u8>)
        ensures
            r@ == self.send().bytes(),
    {
        let mut r: Vec<u8> = Vec::new();
        r.extend_from_slice(self.send_buf.as_byte_slice());
        proof {
            assert(r@ =~= self.send().bytes());
        }
        r
    }

    /// The descriptors staged to send, oldest first.
    pub fn outgoing_fds(&self) -> (r: Vec<i32>)
        ensures
            r@ == self.send().fd_seq(),
    {
        self.send_buf.staged_fds()
    }

    /// Note that `count` bytes were sent: drop them and forget the
    /// staged descriptors, which the kernel now owns.
    pub fn mark_flushed(&mut self, count: usize)
        requires
            old(self).wf(),
            count <= old(self).send().bytes().len(),
        ensures
            final(self).wf(),
            final(self).spec_fd() == old(self).spec_fd(),
            final(self).recv() == old(self).recv(),
            final(self).send().bytes() == old(self).send().bytes().subrange(
                count as int,
                old(self).send().bytes().len() as int,
            ),
            final(self).send().fd_seq() == Seq::<i32>::empty(),
    {
        self.send_buf.shrink(count);
        self.send_buf.clear_fds();
    }
}

/// One connected client: its stream and its object table.
pub struct Client {
    pub(crate) stream: MessageStream,
    pub(crate) objects: ClientObjects,
}

impl Client {
    pub closed spec fn spec_stream(&self) -> MessageStream {
        self.stream
    }

    pub closed spec fn spec_objects(&self) -> ClientObjects {
        self.objects
    }

    pub open spec fn wf(&self) -> bool {
        self.spec_stream().wf() && self.spec_objects().wf()
    }

    /// A new client with the display pre-bound at id 1.
    pub fn new(stream: MessageStream, display_id: GlobalObjectId) -> (r: Client)
        ensures
            r.spec_stream() == stream,
            r.spec_objects().table() == seq![None, Some(display_id)],
            stream.wf() ==> r.wf(),
    {
        Client { stream, objects: ClientObjects::new(display_id) }
    }

    /// Split access to the stream.
    pub fn stream_mut(&mut self) -> (r: &mut MessageStream)
        ensures
            *r == old(self).spec_stream(),
            final(self).spec_stream() == *final(r),
            final(self).spec_objects() == old(self).spec_objects(),
    {
        &mut self.stream
    }

    /// The stream, read-only.
    pub fn stream(&self) -> (r: &MessageStream)
        ensures
            *r == self.spec_stream(),
    {
        &self.stream
    }
}

/// Whether a client was correctly notified of one new global: its first
/// registry binding, if it has one, got a `wl_registry.global` event
/// appended to its send buffer, and nothing else changed.
pub open spec fn notified_global(
    old_c: Client,
    new_c: Client,
    reg: ObjectRegistry,
    name: u32,
    iface: Seq<u8>,
    version: u32,
) -> bool {
    &&& new_c.spec_objects() == old_c.spec_objects()
    &&& new_c.spec_stream().spec_fd() == old_c.spec_stream().spec_fd()
    &&& new_c.spec_stream().recv() == old_c.spec_stream().recv()
    &&& new_c.spec_stream().send().fd_seq() == old_c.spec_stream().send().fd_seq()
    &&& match spec_first_registry_from(old_c.spec_objects().table(), reg, 0) {
        None => new_c.spec_stream().send() == old_c.spec_stream().send(),
        Some(idraw) => new_c.spec_stream().send().bytes() == old_c.spec_stream().send().bytes()
            + spec_frame_bytes(idraw, 0, spec_global_args(name, iface, version)),
    }
}

/// Whether a client was correctly notified of one removed global.
pub open spec fn notified_global_remove(
    old_c: Client,
    new_c: Client,
    reg: ObjectRegistry,
    name: u32,
) -> bool {
    &&& new_c.spec_objects() == old_c.spec_objects()
    &&& new_c.spec_stream().spec_fd() == old_c.spec_stream().spec_fd()
    &&& new_c.spec_stream().recv() == old_c.spec_stream().recv()
    &&& new_c.spec_stream().send().fd_seq() == old_c.spec_stream().send().fd_seq()
    &&& match spec_first_registry_from(old_c.spec_objects().table(), reg, 0) {
        None => new_c.spec_stream().send() == old_c.spec_stream().send(),
        Some(idraw) => new_c.spec_stream().send().bytes() == old_c.spec_stream().send().bytes()
            + spec_frame_bytes(idraw, 1, spec_global_remove_args(name)),
    }
}

impl Client {
    /// Send `wl_registry.global` to this client's registry binding, if
    /// it has one.
    fn send_global_event(
        &mut self,
        reg: &ObjectRegistry,
        name: u32,
        iface: &Vec<u8>,
        version: u32,
    ) -> (r: Result<(), MessageError>)
        requires
            old(self).wf(),
        ensures
            final(self).wf(),
            r is Ok ==> notified_global(*old(self), *final(self), *reg, name, iface@, version),
            r is Err ==> r == Err::<(), MessageError>(MessageError::OutOfMemory) && *final(self)
                == *old(self),
            old(self).spec_stream().send().bytes().len() + 8 + spec_encode_args(
                spec_global_args(name, iface@, version),
            ).len() <= BUF_SIZE ==> r is Ok,
    {
        match self.objects.find_registry(reg) {
            Some(id) => emit_global(&mut self.stream.send_buf, id, name, iface, version),
            None => Ok(()),
        }
    }

    /// Send `wl_registry.global_remove` to this client's registry
    /// binding, if it has one.
    fn send_global_remove_event(&mut self, reg: &ObjectRegistry, name: u32) -> (r: Result<
        (),
        MessageError,
    >)
        requires
            old(self).wf(),
        ensures
            final(self).wf(),
            r is Ok ==> notified_global_remove(*old(self), *final(self), *reg, name),
            r is Err ==> r == Err::<(), MessageError>(MessageError::OutOfMemory) && *final(self)
                == *old(self),
            old(self).spec_stream().send().bytes().len() + 12 <= BUF_SIZE ==> r is Ok,
    {
        match self.objects.find_registry(reg) {
            Some(id) => emit_global_remove(&mut self.stream.send_buf, id, name),
            None => Ok(()),
        }
    }
}

/// The table of connected clients, indexed by client id.
pub struct Clients {
    clients: Vec<Option<Client>>,
}

impl Clients {
    pub closed spec fn table(&self) -> Seq<Option<Client>> {
        self.clients@
    }

    /// Every connected client is well-formed and ids fit in 32 bits.
    pub open spec fn wf(&self) -> bool {
        &&& self.table().len() <= 0xFFFF_FFFF
        &&& forall|j: int|
            0 <= j < self.table().len() ==> (#[trigger] self.table()[j] matches Some(c) ==> c.wf())
    }

    pub fn new() -> (r: Clients)
        ensures
            r.wf(),
            r.table() == Seq::<Option<Client>>::empty(),
    {
        Clients { clients: Vec::new() }
    }

    /// The id the next client gets: the first free slot, scanning from 0.
    pub fn next_id(&self) -> (r: u32)
        requires
            self.wf(),
        ensures
            r <= self.table().len(),
            r < self.table().len() ==> self.table()[r as int] is None,
            forall|j: int| 0 <= j < r ==> self.table()[j] is Some,
    {
        let mut i: usize = 0;
        let n = self.clients.len();
        while i < n
            invariant
                i <= n,
                n == self.table().len(),
                n <= 0xFFFF_FFFF,
                forall|j: int| 0 <= j < i ==> self.table()[j] is Some,
            decreases n - i,
        {
            if self.clients[i].is_none() {
                return i as u32;
            }
            i = i + 1;
        }
        n as u32
    }

    /// Put a client at `id`: fill the empty slot, or append.
    pub fn insert_or_push(&mut self, id: u32, client: Client)
        requires
            old(self).wf(),
            client.wf(),
            id <= old(self).table().len(),
            id < old(self).table().len() ==> old(self).table()[id as int] is None,
            old(self).table().len() < 0xFFFF_FFFF,
        ensures
            final(self).wf(),
            id < old(self).table().len() ==> final(self).table() == old(self).table().update(
                id as int,
                Some(client),
            ),
            id == old(self).table().len() ==> final(self).table() == old(self).table().push(
                Some(client),
            ),
    {
        let idx = id as usize;
        if idx < self.clients.len() {
            let slot = vec_index_mut(&mut self.clients, idx);
            *slot = Some(client);
        } else {
            self.clients.push(Some(client));
        }
    }

    /// Disconnect a client: clear its slot, dropping its stream and all
    /// of its objects. Ids out of range are ignored.
    pub fn delete(&mut self, id: u32)
        requires
            old(self).wf(),
        ensures
            final(self).wf(),
            (id as int) < old(self).table().len() ==> final(self).table() == old(
                self,
            ).table().update(id as int, None),
            (id as int) >= old(self).table().len() ==> *final(self) == *old(self),
    {
        let idx = id as usize;
        if idx < self.clients.len() {
            let slot = vec_index_mut(&mut self.clients, idx);
            *slot = None;
        }
    }

    /// Broadcast `wl_registry.global` to every client with a bound
    /// registry.
    ///
    /// On failure some clients before the failing one have already been
    /// notified; each client is either notified or untouched.
    pub fn broadcast_global(
        &mut self,
        reg: &ObjectRegistry,
        name: u32,
        iface: &Vec<u8>,
        version: u32,
    ) -> (r: Result<(), MessageError>)
        requires
            old(self).wf(),
        ensures
            final(self).wf(),
            final(self).table().len() == old(self).table().len(),
            r is Ok ==> forall|j: int|
                0 <= j < old(self).table().len() ==> match (#[trigger] old(self).table()[j],
                final(self).table()[j]) {
                    (Some(oc), Some(nc)) => notified_global(oc, nc, *reg, name, iface@, version),
                    (None, None) => true,
                    _ => false,
                },
            r is Err ==> r == Err::<(), MessageError>(MessageError::OutOfMemory) && forall|
                j: int,
            |
                0 <= j < old(self).table().len() ==> match (#[trigger] old(self).table()[j],
                final(self).table()[j]) {
                    (Some(oc), Some(nc)) => notified_global(oc, nc, *reg, name, iface@, version)
                        || nc == oc,
                    (None, None) => true,
                    _ => false,
                },
            (forall|j: int|
                0 <= j < old(self).table().len() ==> (#[trigger] old(self).table()[j] matches Some(
                    c,
                ) ==> c.spec_stream().send().bytes().len() + 8 + spec_encode_args(
                    spec_global_args(name, iface@, version),
                ).len() <= BUF_SIZE)) ==> r is Ok,
    {
        let n = self.clients.len();
        let mut i: usize = 0;
        while i < n
            invariant
                i <= n,
                n == self.table().len(),
                self.wf(),
                old(self).wf(),
                n == old(self).table().len(),
                forall|j: int|
                    i <= j < n ==> #[trigger] self.table()[j] == old(self).table()[j],
                forall|j: int|
                    0 <= j < i ==> match (#[trigger] old(self).table()[j], self.table()[j]) {
                        (Some(oc), Some(nc)) => notified_global(
                            oc,
                            nc,
                            *reg,
                            name,
                            iface@,
                            version,
                        ),
                        (None, None) => true,
                        _ => false,
                    },
            decreases n - i,
        {
            let slot = vec_index_mut(&mut self.clients, i);
            match slot {
                Some(c) => {
                    let res = c.send_global_event(reg, name, iface, version);
                    if let Err(e) = res {
                        return Err(e);
                    }
                },
                None => {},
            }
            i = i + 1;
        }
        Ok(())
    }

    /// Broadcast `wl_registry.global_remove` to every client with a
    /// bound registry.
    pub fn broadcast_global_remove(&mut self, reg: &ObjectRegistry, name: u32) -> (r: Result<
        (),
        MessageError,
    >)
        requires
            old(self).wf(),
        ensures
            final(self).wf(),
            final(self).table().len() == old(self).table().len(),
            r is Ok ==> forall|j: int|
                0 <= j < old(self).table().len() ==> match (#[trigger] old(self).table()[j],
                final(self).table()[j]) {
                    (Some(oc), Some(nc)) => notified_global_remove(oc, nc, *reg, name),
                    (None, None) => true,
                    _ => false,
                },
            r is Err ==> r == Err::<(), MessageError>(MessageError::OutOfMemory) && forall|
                j: int,
            |
                0 <= j < old(self).table().len() ==> match (#[trigger] old(self).table()[j],
                final(self).table()[j]) {
                    (Some(oc), Some(nc)) => notified_global_remove(oc, nc, *reg, name) || nc
                        == oc,
                    (None, None) => true,
                    _ => false,
                },
            (forall|j: int|
                0 <= j < old(self).table().len() ==> (#[trigger] old(self).table()[j] matches Some(
                    c,
                ) ==> c.spec_stream().send().bytes().len() + 12 <= BUF_SIZE)) ==> r is Ok,
    {
        let n = self.clients.len();
        let mut i: usize = 0;
        while i < n
            invariant
                i <= n,
                n == self.table().len(),
                self.wf(),
                old(self).wf(),
                n == old(self).table().len(),
                forall|j: int|
                    i <= j < n ==> #[trigger] self.table()[j] == old(self).table()[j],
                forall|j: int|
                    0 <= j < i ==> match (#[trigger] old(self).table()[j], self.table()[j]) {
                        (Some(oc), Some(nc)) => notified_global_remove(oc, nc, *reg, name),
                        (None, None) => true,
                        _ => false,
                    },
            decreases n - i,
        {
            let slot = vec_index_mut(&mut self.clients, i);
            match slot {
                Some(c) => {
                    let res = c.send_global_remove_event(reg, name);
                    if let Err(e) = res {
                        return Err(e);
                    }
                },
                None => {},
            }
            i = i + 1;
        }
        Ok(())
    }
}

impl Client {
    /// Deserialize and dispatch every complete frame this client has
    /// sent, compacting any partial tail.
    ///
    /// The whole behaviour is [`crate::buffer::deser_rel`] over this
    /// client's receive buffer, fd queue, object table and send buffer.
    pub fn process(&mut self, registry: &mut ObjectRegistry) -> (r: Result<usize, MessageError>)
        requires
            old(self).wf(),
            old(registry).wf(),
        ensures
            final(self).wf(),
            final(registry).wf(),
            final(self).spec_stream().spec_fd() == old(self).spec_stream().spec_fd(),
            final(registry).spec_display_id() == old(registry).spec_display_id(),
            final(registry).spec_registry_id() == old(registry).spec_registry_id(),
            final(registry).spec_globals() == old(registry).spec_globals(),
            forall|h: GlobalObjectId|
                old(registry).present(h) ==> #[trigger] final(registry).present(h),
            forall|h: GlobalObjectId|
                old(registry).present(h) ==> old(registry).value_of(h) == #[trigger] final(registry).value_of(h),
            crate::registry::bindings_live(old(self).spec_objects().table(), *old(registry))
                ==> crate::registry::bindings_live(
                final(self).spec_objects().table(),
                *final(registry),
            ),
            exists|c: int|
                0 <= c <= old(self).spec_stream().recv().bytes().len() && final(self).spec_stream().recv().bytes() == old(self).spec_stream().recv().bytes().skip(c),
            r matches Ok(n) ==> 8 * n <= old(self).spec_stream().recv().bytes().len(),
            crate::buffer::deser_rel(
                old(self).spec_stream().recv().bytes(),
                old(self).spec_stream().recv().fd_seq(),
                *old(registry),
                old(self).spec_objects(),
                old(self).spec_stream().send(),
                final(self).spec_stream().recv().bytes(),
                final(self).spec_stream().recv().fd_seq(),
                *final(registry),
                final(self).spec_objects(),
                final(self).spec_stream().send(),
                r,
            ),
    {
        self.stream.receive_buf.deserialize_messages(
            registry,
            &mut self.objects,
            &mut self.stream.send_buf,
        )
    }
}

impl Clients {
    /// How many slots the client table holds, connected or free.
    pub fn slot_count(&self) -> (r: usize)
        ensures
            r == self.table().len(),
    {
        self.clients.len()
    }

    /// The stream descriptor of a client, if connected.
    pub fn client_fd(&self, id: u32) -> (r: Option<i32>)
        ensures
            match r {
                Some(fd) => (id as int) < self.table().len() && (
                self.table()[id as int] matches Some(c) && c.spec_stream().spec_fd() == fd),
                None => (id as int) >= self.table().len() || self.table()[id as int] is None,
            },
    {
        let idx = id as usize;
        if idx < self.clients.len() {
            match &self.clients[idx] {
                Some(c) => Some(c.stream.fd()),
                None => None,
            }
        } else {
            None
        }
    }

    /// How many received bytes a client's stream can still take; 0 for
    /// an unknown id.
    pub fn client_recv_space(&self, id: u32) -> (r: usize)
        requires
            self.wf(),
    {
        let idx = id as usize;
        if idx < self.clients.len() {
            match &self.clients[idx] {
                Some(c) => c.stream.recv_space(),
                None => 0,
            }
        } else {
            0
        }
    }

    /// Append bytes a client sent; ignored for an unknown id, and
    /// truncated input is the caller's responsibility to avoid by
    /// checking `client_recv_space` first.
    ///
    /// Accepted exactly when the id is connected and the chunk fits
    /// the remaining buffer space.
    pub fn feed_client(&mut self, id: u32, chunk: &[u8]) -> (ok: bool)
        requires
            old(self).wf(),
        ensures
            final(self).wf(),
            final(self).table().len() == old(self).table().len(),
            forall|j: int|
                0 <= j < old(self).table().len() && j != id ==> #[trigger] final(self).table()[j]
                    == old(self).table()[j],
            ok <==> ((id as int) < old(self).table().len() && (
            old(self).table()[id as int] matches Some(c) && chunk@.len() <= BUF_SIZE
                - c.spec_stream().recv().bytes().len())),
            ok ==> (id as int) < old(self).table().len(),
            ok ==> (old(self).table()[id as int] matches Some(oc) && (final(self).table()[id as int] matches Some(nc) && nc.spec_objects() == oc.spec_objects()
                && nc.spec_stream().spec_fd() == oc.spec_stream().spec_fd()
                && nc.spec_stream().send() == oc.spec_stream().send()
                && nc.spec_stream().recv().bytes() == oc.spec_stream().recv().bytes() + chunk@
                && nc.spec_stream().recv().fd_seq() == oc.spec_stream().recv().fd_seq())),
            !ok ==> *final(self) == *old(self),
    {
        let idx = id as usize;
        if idx >= self.clients.len() {
            return false;
        }
        let accepted = match &self.clients[idx] {
            Some(c) => chunk.len() <= BUF_SIZE - c.stream.receive_buf.len(),
            None => false,
        };
        if !accepted {
            return false;
        }
        let slot = vec_index_mut(&mut self.clients, idx);
        match slot {
            Some(c) => {
                c.stream.feed_bytes(chunk);
                true
            },
            None => {
                proof {
                    assert(false);
                }
                false
            },
        }
    }

    /// Append one received ancillary descriptor to a client's queue.
    pub fn feed_client_fd(&mut self, id: u32, fd: i32)
        requires
            old(self).wf(),
        ensures
            final(self).wf(),
            final(self).table().len() == old(self).table().len(),
            forall|j: int|
                0 <= j < old(self).table().len() && j != id ==> #[trigger] final(self).table()[j]
                    == old(self).table()[j],
            (id as int) < old(self).table().len() ==> (old(self).table()[id as int] matches Some(
                oc,
            ) ==> (final(self).table()[id as int] matches Some(nc) && nc.spec_objects()
                == oc.spec_objects() && nc.spec_stream().spec_fd() == oc.spec_stream().spec_fd()
                && nc.spec_stream().send() == oc.spec_stream().send()
                && nc.spec_stream().recv().bytes() == oc.spec_stream().recv().bytes()
                && nc.spec_stream().recv().fd_seq() == oc.spec_stream().recv().fd_seq().push(fd))),
    {
        let idx = id as usize;
        if idx < self.clients.len() {
            let slot = vec_index_mut(&mut self.clients, idx);
            match slot {
                Some(c) => {
                    c.stream.feed_fd(fd);
                },
                None => {},
            }
        }
    }

    /// Deserialize and dispatch a client's pending frames; `None`
    /// exactly for an unknown id. For a connected client the result
    /// relates the client's buffers and table to the registry by
    /// [`crate::buffer::deser_rel`], as [`Client::process`] does.
    pub fn process_client(&mut self, id: u32, registry: &mut ObjectRegistry) -> (r: Option<
        Result<usize, MessageError>,
    >)
        requires
            old(self).wf(),
            old(registry).wf(),
        ensures
            final(self).wf(),
            final(registry).wf(),
            final(self).table().len() == old(self).table().len(),
            forall|j: int|
                0 <= j < old(self).table().len() && j != id ==> #[trigger] final(self).table()[j]
                    == old(self).table()[j],
            final(registry).spec_display_id() == old(registry).spec_display_id(),
            final(registry).spec_registry_id() == old(registry).spec_registry_id(),
            final(registry).spec_globals() == old(registry).spec_globals(),
            forall|h: GlobalObjectId|
                old(registry).present(h) ==> #[trigger] final(registry).present(h),
            forall|h: GlobalObjectId|
                old(registry).present(h) ==> old(registry).value_of(h) == #[trigger] final(registry).value_of(h),
            r is None ==> *final(self) == *old(self) && *final(registry) == *old(registry),
            r is Some <==> (id as int) < old(self).table().len() && old(self).table()[id as int]
                is Some,
            r matches Some(res) ==> (old(self).table()[id as int] matches Some(oc) && (
            final(self).table()[id as int] matches Some(nc) && nc.spec_stream().spec_fd()
                == oc.spec_stream().spec_fd() && crate::buffer::deser_rel(
                oc.spec_stream().recv().bytes(),
                oc.spec_stream().recv().fd_seq(),
                *old(registry),
                oc.spec_objects(),
                oc.spec_stream().send(),
                nc.spec_stream().recv().bytes(),
                nc.spec_stream().recv().fd_seq(),
                *final(registry),
                nc.spec_objects(),
                nc.spec_stream().send(),
                res,
            ))),
    {
        let idx = id as usize;
        if idx >= self.clients.len() {
            return None;
        }
        let connected = match &self.clients[idx] {
            Some(_) => true,
            None => false,
        };
        if !connected {
            return None;
        }
        let slot = vec_index_mut(&mut self.clients, idx);
        match slot {
            Some(c) => Some(c.process(registry)),
            None => {
                proof {
                    assert(false);
                }
                None
            },
        }
    }

    /// The bytes a client has staged to send; empty for an unknown id.
    pub fn client_outgoing_bytes(&self, id: u32) -> (r: Vec<u8>)
        ensures
            (id as int) < self.table().len() ==> (self.table()[id as int] matches Some(c)
                ==> r@ == c.spec_stream().send().bytes()),
    {
        let idx = id as usize;
        if idx < self.clients.len() {
            match &self.clients[idx] {
                Some(c) => c.stream.outgoing_bytes(),
                None => Vec::new(),
            }
        } else {
            Vec::new()
        }
    }

    /// The descriptors a client has staged to send.
    pub fn client_outgoing_fds(&self, id: u32) -> (r: Vec<i32>)
        ensures
            (id as int) < self.table().len() ==> (self.table()[id as int] matches Some(c)
                ==> r@ == c.spec_stream().send().fd_seq()),
    {
        let idx = id as usize;
        if idx < self.clients.len() {
            match &self.clients[idx] {
                Some(c) => c.stream.outgoing_fds(),
                None => Vec::new(),
            }
        } else {
            Vec::new()
        }
    }

    /// Note that `count` bytes of a client's staged output were sent.
    /// A count past the staged length, or an unknown id, is ignored.
    pub fn client_flushed(&mut self, id: u32, count: usize)
        requires
            old(self).wf(),
        ensures
            final(self).wf(),
            final(self).table().len() == old(self).table().len(),
            forall|j: int|
                0 <= j < old(self).table().len() && j != id ==> #[trigger] final(self).table()[j]
                    == old(self).table()[j],
            (id as int) < old(self).table().len() ==> (old(self).table()[id as int] matches Some(
                oc,
            ) ==> (count <= oc.spec_stream().send().bytes().len() ==> (final(self).table()[id as int] matches Some(nc) && nc.spec_objects() == oc.spec_objects()
                && nc.spec_stream().spec_fd() == oc.spec_stream().spec_fd()
                && nc.spec_stream().recv() == oc.spec_stream().recv()
                && nc.spec_stream().send().bytes() == oc.spec_stream().send().bytes().skip(
                count as int,
            ) && nc.spec_stream().send().fd_seq() == Seq::<i32>::empty()))),
    {
        let idx = id as usize;
        if idx < self.clients.len() {
            let slot = vec_index_mut(&mut self.clients, idx);
            match slot {
                Some(c) => {
                    if count <= c.stream.send_buf.len() {
                        c.stream.mark_flushed(count);
                    }
                },
                None => {},
            }
        }
    }
}

} // verus!
