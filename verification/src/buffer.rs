//! Fixed-capacity message buffers for the wire codec.
//!
//! A `MessageBuf` is a flat byte buffer of at most [`BUF_SIZE`] bytes with
//! head compaction (no ring), plus a queue of file descriptors that travel
//! with the bytes in ancillary messages.  The `Read` role accumulates the
//! bytes a client sent; the `Write` role stages the bytes the server is
//! about to send.

use vstd::prelude::*;

use crate::error::MessageError;
use crate::registry::{ClientObjects, ObjectId, ObjectRegistry};
use crate::store::GlobalObjectId;

verus! {

/// A complete, valid frame stands at the head of a byte stream: a
/// nonzero object id, a size that is at least 8 and a multiple of
/// four, and at least that many bytes buffered.
pub open spec fn spec_first_frame_ready(b: Seq<u8>) -> bool {
    &&& b.len() >= 8
    &&& spec_word_at(b, 0) != 0
    &&& spec_word_at(b, 4) / 65536 >= 8
    &&& spec_word_at(b, 4) / 65536 % 4 == 0
    &&& spec_word_at(b, 4) / 65536 <= b.len()
}

/// Capacity of a message buffer in bytes.
pub const BUF_SIZE: usize = 4096;

/// Most file descriptors that one send may stage.
pub const MAX_FDS_OUT: usize = 28;

/// The little-endian bytes of one 32-bit word, low byte first.
pub open spec fn spec_word_bytes(w: u32) -> Seq<u8> {
    seq![
        (w % 256) as u8,
        ((w / 256) % 256) as u8,
        ((w / 65536) % 256) as u8,
        ((w / 16777216) % 256) as u8,
    ]
}

/// The 32-bit word formed from four little-endian bytes.
pub open spec fn spec_word_of_bytes(b0: u8, b1: u8, b2: u8, b3: u8) -> u32 {
    (b0 + b1 * 256 + b2 * 65536 + b3 * 16777216) as u32
}

/// The word at byte offset `i` of a byte sequence.
pub open spec fn spec_word_at(b: Seq<u8>, i: int) -> u32 {
    spec_word_of_bytes(b[i], b[i + 1], b[i + 2], b[i + 3])
}

/// Reading four bytes back gives the word they were made from.
pub proof fn lemma_word_bytes_roundtrip(w: u32)
    ensures
        spec_word_of_bytes(
            spec_word_bytes(w)[0],
            spec_word_bytes(w)[1],
            spec_word_bytes(w)[2],
            spec_word_bytes(w)[3],
        ) == w,
{
    assert((w % 256) + ((w / 256) % 256) * 256 + ((w / 65536) % 256) * 65536 + ((w / 16777216)
        % 256) * 16777216 == w) by (nonlinear_arith);
}

/// A queue of file descriptors travelling with a message buffer.
///
/// On the read side it holds descriptors received in ancillary data until a
/// handler pops them; on the write side it holds descriptors staged for the
/// next send.
pub struct FdSource {
    fds: std::collections::VecDeque<i32>,
}

impl FdSource {
    /// The queued descriptors, oldest first.
    pub closed spec fn fds(&self) -> Seq<i32> {
        self.fds@
    }

    pub fn new() -> (r: FdSource)
        ensures
            r.fds() == Seq::<i32>::empty(),
    {
        FdSource { fds: std::collections::VecDeque::new() }
    }

    pub fn len(&self) -> (r: usize)
        ensures
            r == self.fds().len(),
    {
        self.fds.len()
    }

    /// Pop the oldest descriptor, if any.
    pub fn pop(&mut self) -> (r: Option<i32>)
        ensures
            old(self).fds().len() == 0 ==> r is None && final(self).fds() == old(self).fds(),
            old(self).fds().len() > 0 ==> r == Some(old(self).fds()[0]) && final(self).fds()
                == old(self).fds().drop_first(),
    {
        self.fds.pop_front()
    }

    /// Append a descriptor at the back of the queue.
    pub fn push(&mut self, fd: i32)
        ensures
            final(self).fds() == old(self).fds().push(fd),
    {
        self.fds.push_back(fd);
    }

    /// The queued descriptors as a vector, oldest first.
    pub fn to_vec(&self) -> (r: Vec<i32>)
        ensures
            r@ == self.fds(),
    {
        let mut r: Vec<i32> = Vec::new();
        let mut i: usize = 0;
        while i < self.fds.len()
            invariant
                i <= self.fds().len(),
                r@ == self.fds().take(i as int),
            decreases self.fds().len() - i,
        {
            r.push(self.fds[i]);
            assert(r@ == self.fds().take(i + 1 as int));
            i = i + 1;
        }
        assert(self.fds().take(self.fds().len() as int) == self.fds());
        r
    }

    pub fn clear(&mut self)
        ensures
            final(self).fds() == Seq::<i32>::empty(),
    {
        self.fds.clear();
    }
}

/// Role marker: a buffer accumulating received bytes.
pub struct Read;

/// Role marker: a buffer staging bytes to send.
pub struct Write;

/// A fixed-capacity byte buffer with an attached fd queue.
pub struct MessageBuf<I> {
    pub(crate) data: Vec<u8>,
    pub(crate) fds: FdSource,
    role: core::marker::PhantomData<I>,
}

impl<I> MessageBuf<I> {
    /// The buffered bytes, in order.
    pub closed spec fn bytes(&self) -> Seq<u8> {
        self.data@
    }

    /// The attached fd queue, oldest first.
    pub closed spec fn fd_seq(&self) -> Seq<i32> {
        self.fds.fds()
    }

    /// The buffered bytes never exceed the capacity.
    pub open spec fn cap_ok(&self) -> bool {
        self.bytes().len() <= BUF_SIZE
    }

    pub fn new() -> (r: MessageBuf<I>)
        ensures
            r.bytes() == Seq::<u8>::empty(),
            r.fd_seq() == Seq::<i32>::empty(),
            r.cap_ok(),
    {
        MessageBuf { data: Vec::new(), fds: FdSource::new(), role: core::marker::PhantomData }
    }

    pub fn is_full(&self) -> (r: bool)
        ensures
            r == (self.bytes().len() == BUF_SIZE),
    {
        self.data.len() == BUF_SIZE
    }

    pub fn is_empty(&self) -> (r: bool)
        ensures
            r == (self.bytes().len() == 0),
    {
        self.data.len() == 0
    }

    pub fn len(&self) -> (r: usize)
        ensures
            r == self.bytes().len(),
    {
        self.data.len()
    }

    /// The buffered bytes, for building I/O slices and for inspection.
    pub fn as_byte_slice(&self) -> (r: &[u8])
        ensures
            r@ == self.bytes(),
    {
        self.data.as_slice()
    }

    /// The byte at offset `i`.
    pub fn byte_at(&self, i: usize) -> (r: u8)
        requires
            i < self.bytes().len(),
        ensures
            r == self.bytes()[i as int],
    {
        self.data[i]
    }

    /// The word at byte offset `i`, read little-endian.
    pub fn word_at(&self, i: usize) -> (r: u32)
        requires
            i + 4 <= self.bytes().len(),
        ensures
            r == spec_word_at(self.bytes(), i as int),
    {
        let n = self.data.len();
        let b0 = self.data[i];
        let b1 = self.data[i + 1];
        let b2 = self.data[i + 2];
        let b3 = self.data[i + 3];
        (b0 as u32) + (b1 as u32) * 256 + (b2 as u32) * 65536 + (b3 as u32) * 16777216
    }
}

impl MessageBuf<Read> {
    /// Append bytes received from the stream.
    ///
    /// The caller reads at most `BUF_SIZE - len()` bytes from the socket, so
    /// the capacity bound is a precondition here rather than an error.
    pub fn grow(&mut self, chunk: &[u8])
        requires
            old(self).bytes().len() + chunk@.len() <= BUF_SIZE,
        ensures
            final(self).bytes() == old(self).bytes() + chunk@,
            final(self).fd_seq() == old(self).fd_seq(),
            final(self).cap_ok(),
    {
        self.data.extend_from_slice(chunk);
    }

    /// Append one received ancillary file descriptor.
    pub fn push_received_fd(&mut self, fd: i32)
        ensures
            final(self).bytes() == old(self).bytes(),
            final(self).fd_seq() == old(self).fd_seq().push(fd),
    {
        self.fds.push(fd);
    }

    /// How many received descriptors are queued.
    pub fn fd_count(&self) -> (r: usize)
        ensures
            r == self.fd_seq().len(),
    {
        self.fds.len()
    }

    /// Drop every buffered byte and queued descriptor.
    ///
    /// Used when the peer closed the stream: nothing in the buffer can
    /// complete any more.
    pub fn reset(&mut self)
        ensures
            final(self).bytes() == Seq::<u8>::empty(),
            final(self).fd_seq() == Seq::<i32>::empty(),
    {
        self.data.clear();
        self.fds.clear();
    }
}

impl MessageBuf<Write> {
    /// The staged-fd bound holds.
    pub open spec fn fds_ok(&self) -> bool {
        self.fd_seq().len() <= MAX_FDS_OUT
    }

    /// Reserve `chunk_count` words at the end of the buffer, zero-filled.
    ///
    /// Fails with `OutOfMemory` exactly when the capacity would be
    /// exceeded, leaving the buffer unchanged.
    pub fn allocate(&mut self, chunk_count: usize) -> (r: Result<usize, MessageError>)
        requires
            old(self).cap_ok(),
        ensures
            final(self).fd_seq() == old(self).fd_seq(),
            r is Ok <==> old(self).bytes().len() + 4 * chunk_count <= BUF_SIZE,
            r matches Ok(start) ==> start == old(self).bytes().len() && final(self).bytes()
                == old(self).bytes() + Seq::<u8>::new((4 * chunk_count) as nat, |j: int| 0u8),
            r is Err ==> r == Err::<usize, MessageError>(MessageError::OutOfMemory) && *final(self)
                == *old(self),
            final(self).cap_ok(),
    {
        let ghost l: int = old(self).bytes().len() as int;
        let ghost c: int = chunk_count as int;
        if chunk_count > (BUF_SIZE - self.data.len()) / 4 {
            proof {
                assert(l + 4 * c > BUF_SIZE) by (nonlinear_arith)
                    requires
                        c > (4096 - l) / 4,
                        0 <= l <= 4096,
                ;
            }
            Err(MessageError::OutOfMemory)
        } else {
            proof {
                assert(l + 4 * c <= BUF_SIZE) by (nonlinear_arith)
                    requires
                        c <= (4096 - l) / 4,
                        0 <= l <= 4096,
                ;
            }
            let start = self.data.len();
            let new_len = start + 4 * chunk_count;
            self.data.resize(new_len, 0u8);
            assert(final(self).bytes() =~= old(self).bytes() + Seq::<u8>::new(
                (4 * chunk_count) as nat,
                |j: int| 0u8,
            ));
            Ok(start)
        }
    }

    /// Append the four little-endian bytes of one word.
    pub fn push_word(&mut self, w: u32)
        requires
            old(self).bytes().len() + 4 <= BUF_SIZE,
        ensures
            final(self).bytes() == old(self).bytes() + spec_word_bytes(w),
            final(self).fd_seq() == old(self).fd_seq(),
            final(self).cap_ok(),
    {
        self.data.push((w % 256) as u8);
        self.data.push(((w / 256) % 256) as u8);
        self.data.push(((w / 65536) % 256) as u8);
        self.data.push(((w / 16777216) % 256) as u8);
        assert(final(self).bytes() =~= old(self).bytes() + spec_word_bytes(w));
    }

    /// Append raw bytes.
    pub fn append_bytes(&mut self, chunk: &Vec<u8>)
        requires
            old(self).bytes().len() + chunk@.len() <= BUF_SIZE,
        ensures
            final(self).bytes() == old(self).bytes() + chunk@,
            final(self).fd_seq() == old(self).fd_seq(),
            final(self).cap_ok(),
    {
        self.data.extend_from_slice(chunk.as_slice());
    }

    /// Append one raw byte.
    pub fn push_byte(&mut self, b: u8)
        requires
            old(self).bytes().len() + 1 <= BUF_SIZE,
        ensures
            final(self).bytes() == old(self).bytes().push(b),
            final(self).fd_seq() == old(self).fd_seq(),
            final(self).cap_ok(),
    {
        self.data.push(b);
    }

    /// How many descriptors are staged for the next send.
    pub fn fd_count(&self) -> (r: usize)
        ensures
            r == self.fd_seq().len(),
    {
        self.fds.len()
    }

    /// Stage one file descriptor for the next send.
    ///
    /// Fails with `OutOfMemory` exactly when [`MAX_FDS_OUT`] descriptors
    /// are already staged.
    pub fn push_fd(&mut self, fd: i32) -> (r: Result<(), MessageError>)
        ensures
            final(self).bytes() == old(self).bytes(),
            r is Ok <==> old(self).fd_seq().len() < MAX_FDS_OUT,
            r is Ok ==> final(self).fd_seq() == old(self).fd_seq().push(fd),
            r is Err ==> r == Err::<(), MessageError>(MessageError::OutOfMemory) && *final(self)
                == *old(self),
            old(self).fds_ok() ==> final(self).fds_ok(),
    {
        if self.fds.len() < MAX_FDS_OUT {
            self.fds.push(fd);
            Ok(())
        } else {
            Err(MessageError::OutOfMemory)
        }
    }

    /// The staged descriptors, oldest first, for the next send.
    pub fn staged_fds(&self) -> (r: Vec<i32>)
        ensures
            r@ == self.fd_seq(),
    {
        self.fds.to_vec()
    }

    /// Forget the staged descriptors: the kernel owns them after a send.
    pub fn clear_fds(&mut self)
        ensures
            final(self).bytes() == old(self).bytes(),
            final(self).fd_seq() == Seq::<i32>::empty(),
    {
        self.fds.clear();
    }

    /// Drop the first `count` sent bytes, compacting the rest to the start.
    pub fn shrink(&mut self, count: usize)
        requires
            count <= old(self).bytes().len(),
        ensures
            final(self).bytes() == old(self).bytes().subrange(
                count as int,
                old(self).bytes().len() as int,
            ),
            final(self).fd_seq() == old(self).fd_seq(),
    {
        let len = self.data.len();
        let mut rest: Vec<u8> = Vec::new();
        let mut i: usize = count;
        while i < len
            invariant
                count <= i <= len,
                len == self.bytes().len(),
                self == old(self),
                rest@ == self.bytes().subrange(count as int, i as int),
            decreases len - i,
        {
            rest.push(self.data[i]);
            assert(rest@ =~= self.bytes().subrange(count as int, i + 1 as int));
            i = i + 1;
        }
        self.data = rest;
    }
}

impl MessageBuf<Read> {
    /// Copy `count` bytes starting at byte offset `start`.
    pub fn copy_range(&self, start: usize, count: usize) -> (r: Vec<u8>)
        requires
            start + count <= self.bytes().len(),
        ensures
            r@ == self.bytes().subrange(start as int, start as int + count as int),
    {
        let n = self.data.len();
        let mut r: Vec<u8> = Vec::new();
        let mut j: usize = 0;
        while j < count
            invariant
                j <= count,
                start + count <= n,
                n == self.bytes().len(),
                r@ == self.bytes().subrange(start as int, start as int + j as int),
            decreases count - j,
        {
            r.push(self.data[start + j]);
            proof {
                assert(r@ =~= self.bytes().subrange(start as int, start as int + j as int + 1));
            }
            j = j + 1;
        }
        r
    }

    /// Drop the first `count` consumed bytes, compacting the remaining
    /// partial message to the start of the buffer.
    pub fn consume_prefix(&mut self, count: usize)
        requires
            count <= old(self).bytes().len(),
        ensures
            final(self).bytes() == old(self).bytes().skip(count as int),
            final(self).fd_seq() == old(self).fd_seq(),
            old(self).cap_ok() ==> final(self).cap_ok(),
    {
        let len = self.data.len();
        let mut rest: Vec<u8> = Vec::new();
        let mut i: usize = count;
        while i < len
            invariant
                count <= i <= len,
                len == self.bytes().len(),
                *self == *old(self),
                rest@ == self.bytes().subrange(count as int, i as int),
            decreases len - i,
        {
            rest.push(self.data[i]);
            proof {
                assert(rest@ =~= self.bytes().subrange(count as int, i + 1 as int));
            }
            i = i + 1;
        }
        proof {
            assert(rest@ =~= old(self).bytes().skip(count as int));
        }
        self.data = rest;
    }

    /// Extract and dispatch every complete frame in the buffer, then
    /// compact any partial tail to the start.
    ///
    /// The whole behaviour is [`deser_rel`]: complete frames at the
    /// head are dispatched in buffer order, each with exactly the
    /// dispatcher's outcome; `Ok(n)` counts the dispatched frames; a
    /// valid first frame that is still incomplete returns `Ok` with the
    /// bytes kept for the next read; a frame whose object id word is
    /// zero is `InvalidObject`, one whose size field is under 8 or not
    /// a multiple of four is `BadFormat`, and a dispatcher error is
    /// propagated verbatim after the frames already consumed. The bytes
    /// left over are exactly the old buffer's tail, bit for bit, now at
    /// offset zero.
    pub fn deserialize_messages(
        &mut self,
        registry: &mut ObjectRegistry,
        objects: &mut ClientObjects,
        send: &mut MessageBuf<Write>,
    ) -> (r: Result<usize, MessageError>)
        requires
            old(self).cap_ok(),
            old(registry).wf(),
            old(objects).wf(),
            old(send).cap_ok(),
            old(send).fds_ok(),
        ensures
            final(self).cap_ok(),
            final(registry).wf(),
            final(objects).wf(),
            final(send).cap_ok(),
            final(send).fds_ok(),
            exists|c: int|
                0 <= c <= old(self).bytes().len() && final(self).bytes() == old(
                    self,
                ).bytes().skip(c),
            final(registry).spec_display_id() == old(registry).spec_display_id(),
            final(registry).spec_registry_id() == old(registry).spec_registry_id(),
            final(registry).spec_globals() == old(registry).spec_globals(),
            forall|h: GlobalObjectId|
                old(registry).present(h) ==> #[trigger] final(registry).present(h),
            forall|h: GlobalObjectId|
                old(registry).present(h) ==> old(registry).value_of(h) == #[trigger] final(registry).value_of(h),
            forall|h: GlobalObjectId|
                old(registry).live(h) ==> #[trigger] final(registry).live(h),
            crate::registry::bindings_live(old(objects).table(), *old(registry))
                ==> crate::registry::bindings_live(final(objects).table(), *final(registry)),
            old(self).bytes().len() < 8 ==> r == Ok::<usize, MessageError>(0) && final(self).bytes() == old(self).bytes(),
            old(self).bytes().len() >= 8 && spec_word_at(old(self).bytes(), 0) == 0 ==> r
                == Err::<usize, MessageError>(MessageError::InvalidObject),
            old(self).bytes().len() >= 8 && spec_word_at(old(self).bytes(), 0) != 0 && (
            spec_word_at(old(self).bytes(), 4) / 65536 < 8 || spec_word_at(
                old(self).bytes(),
                4,
            ) / 65536 % 4 != 0) ==> r == Err::<usize, MessageError>(MessageError::BadFormat),
            spec_first_frame_ready(old(self).bytes()) ==> r is Err || (r matches Ok(n) && n >= 1
                && final(self).bytes().len() <= old(self).bytes().len() - spec_word_at(
                old(self).bytes(),
                4,
            ) / 65536),
            r matches Ok(n) ==> 8 * n <= old(self).bytes().len(),
            deser_rel(
                old(self).bytes(),
                old(self).fd_seq(),
                *old(registry),
                *old(objects),
                *old(send),
                final(self).bytes(),
                final(self).fd_seq(),
                *final(registry),
                *final(objects),
                *final(send),
                r,
            ),
        decreases old(self).bytes().len(),
    {
        let len = self.data.len();
        if len < 8 {
            proof {
                assert(self.bytes() =~= old(self).bytes().skip(0));
            }
            return Ok(0);
        }
        let object_id_w = self.word_at(0);
        let header = self.word_at(4);
        let msg_size = (header / 65536) as usize;
        if object_id_w == 0 {
            proof {
                assert(self.bytes() =~= old(self).bytes().skip(0));
            }
            return Err(MessageError::InvalidObject);
        }
        if msg_size < 8 || msg_size % 4 != 0 {
            proof {
                assert(self.bytes() =~= old(self).bytes().skip(0));
            }
            return Err(MessageError::BadFormat);
        }
        if msg_size > len {
            // The frame is not complete yet: keep the partial tail for
            // the next read.
            proof {
                assert(self.bytes() =~= old(self).bytes().skip(0));
            }
            return Ok(0);
        }
        let opcode = (header % 65536) as u16;
        let payload = self.copy_range(8, msg_size - 8);
        let oid = match ObjectId::new(object_id_w) {
            Some(o) => o,
            None => {
                proof {
                    assert(false);
                }
                return Err(MessageError::InvalidObject);
            },
        };
        let ghost b0: Seq<u8> = self.bytes();
        let ghost fq0: Seq<i32> = self.fd_seq();
        let ghost rg0: ObjectRegistry = *registry;
        let ghost ob0: ClientObjects = *objects;
        let ghost sd0: MessageBuf<Write> = *send;
        let step = crate::dispatch::dispatch(
            registry,
            objects,
            &mut self.fds,
            send,
            oid,
            opcode,
            &payload,
        );
        let ghost rgm: ObjectRegistry = *registry;
        let ghost obm: ClientObjects = *objects;
        let ghost sdm: MessageBuf<Write> = *send;
        let ghost fqm: Seq<i32> = self.fd_seq();
        proof {
            assert(payload@ =~= b0.subrange(8, msg_size as int));
            assert(crate::dispatch::dispatch_rel(
                object_id_w,
                opcode,
                b0.subrange(8, msg_size as int),
                fq0,
                rg0,
                ob0,
                sd0,
                rgm,
                obm,
                sdm,
                fqm,
                step,
            ));
        }
        match step {
            Err(e) => {
                proof {
                    assert(self.bytes() =~= old(self).bytes().skip(0));
                    assert(deser_rel(
                        b0,
                        fq0,
                        rg0,
                        ob0,
                        sd0,
                        self.bytes(),
                        self.fd_seq(),
                        *registry,
                        *objects,
                        *send,
                        Err::<usize, MessageError>(e),
                    ));
                }
                Err(e)
            },
            Ok(()) => {
                self.consume_prefix(msg_size);
                proof {
                    assert(self.bytes() =~= b0.skip(msg_size as int));
                }
                let rest = self.deserialize_messages(registry, objects, send);
                proof {
                    assert forall|h: GlobalObjectId|
                        old(registry).present(h) implies #[trigger] registry.present(h) by {
                        assert(rgm.present(h));
                    }
                    assert forall|h: GlobalObjectId|
                        old(registry).present(h) implies old(registry).value_of(h)
                        == #[trigger] registry.value_of(h) by {
                        assert(rgm.present(h));
                        assert(rgm.value_of(h) == old(registry).value_of(h));
                    }
                    assert forall|h: GlobalObjectId|
                        old(registry).live(h) implies #[trigger] registry.live(h) by {
                        assert(rgm.live(h));
                    }
                    let c = choose|c: int|
                        0 <= c <= b0.skip(msg_size as int).len() && self.bytes() == b0.skip(
                            msg_size as int,
                        ).skip(c);
                    assert(b0.skip(msg_size as int).skip(c) =~= b0.skip(msg_size as int + c));
                    assert(self.bytes() == old(self).bytes().skip(msg_size as int + c));
                    assert(deser_rel(
                        b0.skip(msg_size as int),
                        fqm,
                        rgm,
                        obm,
                        sdm,
                        self.bytes(),
                        self.fd_seq(),
                        *registry,
                        *objects,
                        *send,
                        rest,
                    ));
                }
                match rest {
                    Ok(n) => {
                        proof {
                            assert(deser_rel(
                                b0,
                                fq0,
                                rg0,
                                ob0,
                                sd0,
                                self.bytes(),
                                self.fd_seq(),
                                *registry,
                                *objects,
                                *send,
                                Ok::<usize, MessageError>((n + 1) as usize),
                            ));
                        }
                        Ok(n + 1)
                    },
                    Err(e) => {
                        proof {
                            assert(deser_rel(
                                b0,
                                fq0,
                                rg0,
                                ob0,
                                sd0,
                                self.bytes(),
                                self.fd_seq(),
                                *registry,
                                *objects,
                                *send,
                                Err::<usize, MessageError>(e),
                            ));
                        }
                        Err(e)
                    },
                }
            },
        }
    }
}

/// The full processing relation of [`MessageBuf::deserialize_messages`]
/// over the buffered bytes `b`, the received-fd queue `f0` and the
/// registry, object-table and send-buffer states: complete frames at
/// the head are dispatched in buffer order, each with exactly the
/// outcome [`crate::dispatch::dispatch_rel`] fixes; `Ok(n)` counts the
/// dispatched frames; a valid first frame that is still incomplete
/// stops with `Ok` and everything kept; a malformed first frame stops
/// with its error and everything kept; a dispatcher error comes back
/// verbatim, the failing frame kept, after the frames before it were
/// consumed.
/// One frame's worth taken off a deserializer result: the count drops
/// by one on success, an error passes through.
pub open spec fn deser_dec(r: Result<usize, MessageError>) -> Result<usize, MessageError> {
    match r {
        Ok(n) => Ok((n - 1) as usize),
        Err(e) => Err(e),
    }
}

pub open spec fn deser_rel(
    b: Seq<u8>,
    f0: Seq<i32>,
    reg0: ObjectRegistry,
    o0: ClientObjects,
    s0: MessageBuf<Write>,
    b1: Seq<u8>,
    f1: Seq<i32>,
    reg1: ObjectRegistry,
    o1: ClientObjects,
    s1: MessageBuf<Write>,
    r: Result<usize, MessageError>,
) -> bool
    decreases b.len(),
{
    let unchanged = b1 == b && f1 == f0 && reg1 == reg0 && o1 == o0 && s1 == s0;
    if b.len() < 8 {
        r == Ok::<usize, MessageError>(0) && unchanged
    } else {
        let oid = spec_word_at(b, 0);
        let size = spec_word_at(b, 4) / 65536;
        if oid == 0 {
            r == Err::<usize, MessageError>(MessageError::InvalidObject) && unchanged
        } else if size < 8 || size % 4 != 0 {
            r == Err::<usize, MessageError>(MessageError::BadFormat) && unchanged
        } else if size > b.len() {
            r == Ok::<usize, MessageError>(0) && unchanged
        } else {
            let opcode = (spec_word_at(b, 4) % 65536) as u16;
            let payload = b.subrange(8, size as int);
            exists|
                regm: ObjectRegistry,
                om: ClientObjects,
                sm: MessageBuf<Write>,
                fm: Seq<i32>,
                rd: Result<(), MessageError>,
            |
                {
                    &&& #[trigger] crate::dispatch::dispatch_rel(
                        oid,
                        opcode,
                        payload,
                        f0,
                        reg0,
                        o0,
                        s0,
                        regm,
                        om,
                        sm,
                        fm,
                        rd,
                    )
                    &&& match rd {
                        Err(e) => r == Err::<usize, MessageError>(e) && b1 == b && f1 == fm
                            && reg1 == regm && o1 == om && s1 == sm,
                        Ok(()) => (r matches Ok(m) ==> m >= 1) && deser_rel(
                            b.skip(size as int),
                            fm,
                            regm,
                            om,
                            sm,
                            b1,
                            f1,
                            reg1,
                            o1,
                            s1,
                            deser_dec(r),
                        ),
                    }
                }
        }
    }
}

} // verus!
