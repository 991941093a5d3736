//! The request dispatcher: the hardwired display, registry and
//! compositor handlers, the per-frame router, and the outer
//! take/restore discipline.

use vstd::prelude::*;

use crate::buffer::{MessageBuf, Write, BUF_SIZE};
use crate::error::MessageError;
use crate::protocol::{
    emit_done, emit_global, spec_done_args, spec_global_args, spec_interface_name,
    spec_interface_version, spec_request_sig, Interface, WlCompositor, WlDisplay, WlRegistry,
    WlShm, WlShmPool, WlSurface,
};
use crate::buffer::FdSource;
use crate::registry::{
    spec_register_ok, spec_registered, ClientObjects, ObjectId, ObjectRegistry,
};
use crate::store::GlobalObjectId;
use crate::wire::{
    arg_models, decode_args, spec_decode_frame, spec_encode_args, spec_frame_bytes, ArgModel,
    ArgValue,
};

verus! {

broadcast use
    crate::store::SlotStore::lemma_present_live,
    crate::registry::ObjectRegistry::lemma_present_live;

/// Byte-wise equality of two byte vectors.
fn bytes_eq(a: &Vec<u8>, b: &Vec<u8>) -> (r: bool)
    ensures
        r == (a@ == b@),
{
    if a.len() != b.len() {
        proof {
            assert(a@ != b@);
        }
        return false;
    }
    let n = a.len();
    let mut i: usize = 0;
    while i < n
        invariant
            i <= n,
            n == a@.len(),
            n == b@.len(),
            forall|j: int| 0 <= j < i ==> a@[j] == b@[j],
        decreases n - i,
    {
        if a[i] != b[i] {
            proof {
                assert(a@[i as int] != b@[i as int]);
            }
            return false;
        }
        i = i + 1;
    }
    proof {
        assert(a@ =~= b@);
    }
    true
}

/// What `wl_display.sync(callback)` does: bind the callback id to a
/// null-handle slot, then emit `wl_callback.done(serial = 0)` to it.
///
/// Binding a live or out-of-range id is `InvalidObject`; a send buffer
/// with no room for the 12-byte done event is `OutOfMemory`, with the
/// binding already made, as the emission follows the binding.
pub open spec fn sync_effect(
    o0: ClientObjects,
    o1: ClientObjects,
    s0: MessageBuf<Write>,
    s1: MessageBuf<Write>,
    cb: u32,
    r: Result<(), MessageError>,
) -> bool {
    if !spec_register_ok(o0.table(), cb) {
        r == Err::<(), MessageError>(MessageError::InvalidObject) && o1 == o0 && s1 == s0
    } else {
        o1.table() == spec_registered(o0.table(), cb, None) && if s0.bytes().len() + 12
            <= BUF_SIZE {
            &&& r is Ok
            &&& s1.bytes() == s0.bytes() + spec_frame_bytes(cb, 0, spec_done_args(0))
            &&& s1.fd_seq() == s0.fd_seq()
        } else {
            r == Err::<(), MessageError>(MessageError::OutOfMemory) && s1 == s0
        }
    }
}

impl WlDisplay {
    /// Handle `wl_display.sync`.
    pub fn handle_sync(
        &mut self,
        objects: &mut ClientObjects,
        send: &mut MessageBuf<Write>,
        callback: ObjectId,
    ) -> (r: Result<(), MessageError>)
        requires
            old(objects).wf(),
            old(send).cap_ok(),
            old(send).fds_ok(),
            callback.wf(),
        ensures
            final(objects).wf(),
            final(send).cap_ok(),
            final(send).fds_ok(),
            sync_effect(
                *old(objects),
                *final(objects),
                *old(send),
                *final(send),
                callback.spec_raw(),
                r,
            ),
    {
        let res = objects.register(callback, None);
        if let Err(e) = res {
            return Err(e);
        }
        emit_done(send, callback, 0)
    }
}

/// The concatenated `wl_registry.global` events that announce the
/// advertised globals `gs` to the binding `dest`, in list order.
///
/// A global whose object is out for dispatch is skipped: its name and
/// version cannot be read.
pub open spec fn spec_global_frames(reg: ObjectRegistry, gs: Seq<GlobalObjectId>, dest: u32) -> Seq<
    u8,
>
    decreases gs.len(),
{
    if gs.len() == 0 {
        Seq::<u8>::empty()
    } else {
        (if reg.present(gs[0]) {
            spec_frame_bytes(
                dest,
                0,
                spec_global_args(
                    gs[0].spec_index() as u32,
                    spec_interface_name(reg.value_of(gs[0])),
                    spec_interface_version(reg.value_of(gs[0])),
                ),
            )
        } else {
            Seq::<u8>::empty()
        }) + spec_global_frames(reg, gs.drop_first(), dest)
    }
}

/// What `wl_display.get_registry(id)` does: bind `id` to the shared
/// registry handle, then announce every advertised global to it.
pub open spec fn get_registry_effect(
    reg: ObjectRegistry,
    o0: ClientObjects,
    o1: ClientObjects,
    s0: MessageBuf<Write>,
    s1: MessageBuf<Write>,
    dest: u32,
    r: Result<(), MessageError>,
) -> bool {
    if !spec_register_ok(o0.table(), dest) {
        r == Err::<(), MessageError>(MessageError::InvalidObject) && o1 == o0 && s1 == s0
    } else {
        o1.table() == spec_registered(o0.table(), dest, Some(reg.spec_registry_id())) && (match r {
            Ok(_) => s1.bytes() == s0.bytes() + spec_global_frames(reg, reg.spec_globals(), dest)
                && s1.fd_seq() == s0.fd_seq(),
            Err(e) => e == MessageError::OutOfMemory,
        })
    }
}

impl WlDisplay {
    /// Handle `wl_display.get_registry`.
    pub fn handle_get_registry(
        &mut self,
        registry: &ObjectRegistry,
        objects: &mut ClientObjects,
        send: &mut MessageBuf<Write>,
        id: ObjectId,
    ) -> (r: Result<(), MessageError>)
        requires
            registry.wf(),
            old(objects).wf(),
            old(send).cap_ok(),
            old(send).fds_ok(),
            id.wf(),
        ensures
            final(objects).wf(),
            final(send).cap_ok(),
            final(send).fds_ok(),
            get_registry_effect(
                *registry,
                *old(objects),
                *final(objects),
                *old(send),
                *final(send),
                id.spec_raw(),
                r,
            ),
            spec_register_ok(old(objects).table(), id.spec_raw()) && old(send).bytes().len()
                + spec_global_frames(*registry, registry.spec_globals(), id.spec_raw()).len()
                <= BUF_SIZE ==> r is Ok,
    {
        let res = objects.register(id, Some(registry.registry_id()));
        if let Err(e) = res {
            return Err(e);
        }

        let gs = registry.globals();
        let n = gs.len();
        let mut k: usize = 0;
        while k < n
            invariant
                k <= n,
                n == registry.spec_globals().len(),
                gs@ == registry.spec_globals(),
                registry.wf(),
                id.wf(),
                send.cap_ok(),
                send.fds_ok(),
                objects.wf(),
                spec_register_ok(old(objects).table(), id.spec_raw()),
                objects.table() == spec_registered(
                    old(objects).table(),
                    id.spec_raw(),
                    Some(registry.spec_registry_id()),
                ),
                send.bytes() == old(send).bytes() + spec_global_frames(
                    *registry,
                    registry.spec_globals().take(k as int),
                    id.spec_raw(),
                ),
                send.fd_seq() == old(send).fd_seq(),
            decreases n - k,
        {
            proof {
                lemma_global_frames_snoc(
                    *registry,
                    registry.spec_globals().take(k as int),
                    registry.spec_globals()[k as int],
                    id.spec_raw(),
                );
                assert(registry.spec_globals().take(k as int + 1)
                    =~= registry.spec_globals().take(k as int).push(
                    registry.spec_globals()[k as int],
                ));
            }
            let g = gs[k];
            match registry.get(g) {
                Some(iface) => {
                    let name_bytes = iface.name_bytes();
                    let version = iface.version();
                    let res = emit_global(send, id, g.index() as u32, &name_bytes, version);
                    if let Err(e) = res {
                        proof {
                            // The whole announcement cannot have fit: the
                            // frames already written plus this global's
                            // frame are a prefix of the whole.
                            lemma_global_frames_split(
                                *registry,
                                registry.spec_globals(),
                                k as int,
                                id.spec_raw(),
                            );
                            let tail = registry.spec_globals().skip(k as int);
                            assert(tail[0] == g);
                            assert(tail.drop_first() =~= registry.spec_globals().skip(
                                k as int + 1,
                            ));
                            let frame = spec_frame_bytes(
                                id.spec_raw(),
                                0,
                                spec_global_args(
                                    g.spec_index() as u32,
                                    spec_interface_name(registry.value_of(g)),
                                    spec_interface_version(registry.value_of(g)),
                                ),
                            );
                            assert(spec_global_frames(*registry, tail, id.spec_raw()) == frame
                                + spec_global_frames(
                                *registry,
                                registry.spec_globals().skip(k as int + 1),
                                id.spec_raw(),
                            ));
                            assert(frame.len() == 8 + spec_encode_args(
                                spec_global_args(
                                    g.spec_index() as u32,
                                    spec_interface_name(registry.value_of(g)),
                                    spec_interface_version(registry.value_of(g)),
                                ),
                            ).len());
                        }
                        return Err(e);
                    }
                },
                None => {
                    // The global is out for dispatch; skip it.
                },
            }
            k = k + 1;
        }
        proof {
            assert(registry.spec_globals().take(n as int) =~= registry.spec_globals());
        }
        Ok(())
    }
}

/// The announcement frames of a globals list split at any point.
proof fn lemma_global_frames_split(
    reg: ObjectRegistry,
    gs: Seq<GlobalObjectId>,
    k: int,
    dest: u32,
)
    requires
        0 <= k <= gs.len(),
    ensures
        spec_global_frames(reg, gs, dest) == spec_global_frames(reg, gs.take(k), dest)
            + spec_global_frames(reg, gs.skip(k), dest),
    decreases k,
{
    if k == 0 {
        assert(gs.take(0) =~= Seq::<GlobalObjectId>::empty());
        assert(gs.skip(0) =~= gs);
        assert(Seq::<u8>::empty() + spec_global_frames(reg, gs, dest) =~= spec_global_frames(
            reg,
            gs,
            dest,
        ));
    } else {
        let df = gs.drop_first();
        lemma_global_frames_split(reg, df, k - 1, dest);
        assert(gs.take(k)[0] == gs[0]);
        assert(gs.take(k).drop_first() =~= df.take(k - 1));
        assert(gs.skip(k) =~= df.skip(k - 1));
        let head: Seq<u8> = if reg.present(gs[0]) {
            spec_frame_bytes(
                dest,
                0,
                spec_global_args(
                    gs[0].spec_index() as u32,
                    spec_interface_name(reg.value_of(gs[0])),
                    spec_interface_version(reg.value_of(gs[0])),
                ),
            )
        } else {
            Seq::<u8>::empty()
        };
        assert(head + (spec_global_frames(reg, df.take(k - 1), dest) + spec_global_frames(
            reg,
            df.skip(k - 1),
            dest,
        )) =~= (head + spec_global_frames(reg, df.take(k - 1), dest)) + spec_global_frames(
            reg,
            df.skip(k - 1),
            dest,
        ));
    }
}

/// Appending one global to the list appends its announcement frame.
proof fn lemma_global_frames_snoc(
    reg: ObjectRegistry,
    gs: Seq<GlobalObjectId>,
    g: GlobalObjectId,
    dest: u32,
)
    ensures
        spec_global_frames(reg, gs.push(g), dest) == spec_global_frames(reg, gs, dest) + (
        if reg.present(g) {
            spec_frame_bytes(
                dest,
                0,
                spec_global_args(
                    g.spec_index() as u32,
                    spec_interface_name(reg.value_of(g)),
                    spec_interface_version(reg.value_of(g)),
                ),
            )
        } else {
            Seq::<u8>::empty()
        }),
    decreases gs.len(),
{
    if gs.len() == 0 {
        assert(gs.push(g)[0] == g);
        assert(gs.push(g).drop_first() =~= gs);
        assert(spec_global_frames(reg, gs, dest) == Seq::<u8>::empty());
        assert(spec_global_frames(reg, gs.push(g), dest) =~= spec_global_frames(reg, gs, dest)
            + (if reg.present(g) {
            spec_frame_bytes(
                dest,
                0,
                spec_global_args(
                    g.spec_index() as u32,
                    spec_interface_name(reg.value_of(g)),
                    spec_interface_version(reg.value_of(g)),
                ),
            )
        } else {
            Seq::<u8>::empty()
        }));
    } else {
        lemma_global_frames_snoc(reg, gs.drop_first(), g, dest);
        assert(gs.push(g)[0] == gs[0]);
        assert(gs.push(g).drop_first() =~= gs.drop_first().push(g));
        assert(spec_global_frames(reg, gs.push(g), dest) =~= spec_global_frames(reg, gs, dest)
            + (if reg.present(g) {
            spec_frame_bytes(
                dest,
                0,
                spec_global_args(
                    g.spec_index() as u32,
                    spec_interface_name(reg.value_of(g)),
                    spec_interface_version(reg.value_of(g)),
                ),
            )
        } else {
            Seq::<u8>::empty()
        }));
    }
}

/// The first advertised global that matches a bind request: its wire
/// name equals the handle index, the interface name matches, and the
/// requested version is at most the advertised one.
pub open spec fn spec_bind_target(
    reg: ObjectRegistry,
    gs: Seq<GlobalObjectId>,
    name: u32,
    iface: Seq<u8>,
    version: u32,
) -> Option<GlobalObjectId>
    decreases gs.len(),
{
    if gs.len() == 0 {
        None
    } else {
        if reg.present(gs[0]) && gs[0].spec_index() == name && spec_interface_name(
            reg.value_of(gs[0]),
        ) == iface && version <= spec_interface_version(reg.value_of(gs[0])) {
            Some(gs[0])
        } else {
            spec_bind_target(reg, gs.drop_first(), name, iface, version)
        }
    }
}

/// What `wl_registry.bind(name, interface, version, id)` does: bind
/// `id` to the matching global, `BadRequest` if no global matches.
pub open spec fn bind_effect(
    reg: ObjectRegistry,
    o0: ClientObjects,
    o1: ClientObjects,
    name: u32,
    iface: Seq<u8>,
    version: u32,
    idraw: u32,
    r: Result<(), MessageError>,
) -> bool {
    match spec_bind_target(reg, reg.spec_globals(), name, iface, version) {
        None => r == Err::<(), MessageError>(MessageError::BadRequest) && o1 == o0,
        Some(g) => if spec_register_ok(o0.table(), idraw) {
            r is Ok && o1.table() == spec_registered(o0.table(), idraw, Some(g))
        } else {
            r == Err::<(), MessageError>(MessageError::InvalidObject) && o1 == o0
        },
    }
}

impl WlRegistry {
    /// Handle `wl_registry.bind`.
    pub fn handle_bind(
        &mut self,
        registry: &ObjectRegistry,
        objects: &mut ClientObjects,
        name: u32,
        iface: &Vec<u8>,
        version: u32,
        id: ObjectId,
    ) -> (r: Result<(), MessageError>)
        requires
            registry.wf(),
            old(objects).wf(),
            id.wf(),
        ensures
            final(objects).wf(),
            bind_effect(
                *registry,
                *old(objects),
                *final(objects),
                name,
                iface@,
                version,
                id.spec_raw(),
                r,
            ),
    {
        let gs = registry.globals();
        let n = gs.len();
        let mut k: usize = 0;
        proof {
            assert(registry.spec_globals().skip(0) =~= registry.spec_globals());
        }
        while k < n
            invariant
                k <= n,
                n == registry.spec_globals().len(),
                gs@ == registry.spec_globals(),
                registry.wf(),
                id.wf(),
                old(objects).wf(),
                *objects == *old(objects),
                spec_bind_target(*registry, registry.spec_globals(), name, iface@, version)
                    == spec_bind_target(
                    *registry,
                    registry.spec_globals().skip(k as int),
                    name,
                    iface@,
                    version,
                ),
            decreases n - k,
        {
            proof {
                assert(registry.spec_globals().skip(k as int)[0]
                    == registry.spec_globals()[k as int]);
                assert(registry.spec_globals().skip(k as int).drop_first()
                    =~= registry.spec_globals().skip(k as int + 1));
            }
            let g = gs[k];
            let mut matches_here = false;
            match registry.get(g) {
                Some(iface_obj) => {
                    if g.index() == name as usize {
                        let gname = iface_obj.name_bytes();
                        if bytes_eq(&gname, iface) {
                            if version <= iface_obj.version() {
                                matches_here = true;
                            }
                        }
                    }
                },
                None => {},
            }
            if matches_here {
                proof {
                    assert(spec_bind_target(
                        *registry,
                        registry.spec_globals().skip(k as int),
                        name,
                        iface@,
                        version,
                    ) == Some(g));
                }
                return objects.register(id, Some(g));
            }
            proof {
                assert(spec_bind_target(
                    *registry,
                    registry.spec_globals().skip(k as int),
                    name,
                    iface@,
                    version,
                ) == spec_bind_target(
                    *registry,
                    registry.spec_globals().skip(k as int + 1),
                    name,
                    iface@,
                    version,
                ));
            }
            k = k + 1;
        }
        proof {
            assert(registry.spec_globals().skip(n as int) =~= Seq::<GlobalObjectId>::empty());
        }
        Err(MessageError::BadRequest)
    }
}

/// What `wl_compositor.create_surface(id)` does: insert a fresh
/// `wl_surface` object and bind `id` to it; on a binding failure the
/// fresh object is removed again (rollback).
pub open spec fn create_surface_effect(
    reg0: ObjectRegistry,
    reg1: ObjectRegistry,
    o0: ClientObjects,
    o1: ClientObjects,
    idraw: u32,
    r: Result<(), MessageError>,
) -> bool {
    if spec_register_ok(o0.table(), idraw) {
        &&& r is Ok
        &&& exists|g: GlobalObjectId|
            {
                &&& !reg0.live(g)
                &&& #[trigger] reg1.present(g)
                &&& reg1.value_of(g) == Interface::WlSurface(WlSurface)
                &&& o1.table() == spec_registered(o0.table(), idraw, Some(g))
            }
    } else {
        r == Err::<(), MessageError>(MessageError::InvalidObject) && o1 == o0
            && reg1.same_objects(&reg0)
    }
}

impl WlCompositor {
    /// Handle `wl_compositor.create_surface`.
    pub fn handle_create_surface(
        &mut self,
        registry: &mut ObjectRegistry,
        objects: &mut ClientObjects,
        id: ObjectId,
    ) -> (r: Result<(), MessageError>)
        requires
            old(registry).wf(),
            old(objects).wf(),
            id.wf(),
        ensures
            final(registry).wf(),
            final(objects).wf(),
            create_surface_effect(
                *old(registry),
                *final(registry),
                *old(objects),
                *final(objects),
                id.spec_raw(),
                r,
            ),
            forall|h: GlobalObjectId|
                old(registry).present(h) ==> #[trigger] final(registry).present(h),
            forall|h: GlobalObjectId|
                old(registry).present(h) ==> old(registry).value_of(h) == #[trigger] final(registry).value_of(h),
            forall|h: GlobalObjectId|
                old(registry).taken(h) ==> #[trigger] final(registry).taken(h),
            forall|h: GlobalObjectId|
                old(registry).live(h) ==> #[trigger] final(registry).live(h),
            final(registry).spec_display_id() == old(registry).spec_display_id(),
            final(registry).spec_registry_id() == old(registry).spec_registry_id(),
            final(registry).spec_globals() == old(registry).spec_globals(),
    {
        let g = registry.insert(Interface::WlSurface(WlSurface));
        let ghost mid: ObjectRegistry = *registry;
        let res = objects.register(id, Some(g));
        if res.is_err() {
            proof {
                assert forall|k: int|
                    0 <= k < registry.spec_globals().len() implies #[trigger] registry.spec_globals()[k]
                    != g by {
                    old(registry).lemma_globals_live(k);
                    assert(old(registry).live(old(registry).spec_globals()[k]));
                }
                assert(!registry.spec_is_global(g));
                old(registry).lemma_fixed_live();
                assert(g != registry.spec_display_id());
                assert(g != registry.spec_registry_id());
            }
            let removed = registry.remove(g);
            proof {
                assert(removed is Some);
                assert forall|h: GlobalObjectId| #[trigger] registry.live(h) == old(registry).live(
                    h,
                ) by {
                    if h != g {
                        assert(registry.live(h) == mid.live(h));
                        assert(mid.live(h) == old(registry).live(h));
                    } else {
                        assert(!old(registry).live(h));
                        assert(!registry.live(h));
                    }
                }
                assert forall|h: GlobalObjectId| #[trigger] registry.present(h) == old(registry).present(h) by {
                    if h != g {
                        assert(registry.present(h) == mid.present(h));
                        assert(mid.present(h) == old(registry).present(h));
                    } else {
                        assert(!old(registry).live(h));
                        assert(!registry.live(h));
                        assert(!old(registry).present(h));
                        assert(!registry.present(h));
                    }
                }
                assert forall|h: GlobalObjectId|
                    registry.present(h) implies registry.value_of(h) == #[trigger] old(registry).value_of(h) by {
                    if h != g {
                        assert(registry.present(h) == mid.present(h));
                        assert(mid.present(h) == old(registry).present(h));
                        if registry.present(h) {
                            assert(registry.value_of(h) == mid.value_of(h));
                            assert(mid.value_of(h) == old(registry).value_of(h));
                        }
                    } else {
                        assert(!registry.live(h));
                        assert(!registry.present(h));
                    }
                }
                assert(registry.same_objects(&old(registry)));
            }
        } else {
            proof {
                assert(registry.present(g));
                assert(create_surface_effect(
                    *old(registry),
                    *registry,
                    *old(objects),
                    *objects,
                    id.spec_raw(),
                    res,
                ));
                assert forall|h: GlobalObjectId|
                    old(registry).present(h) implies #[trigger] registry.present(h) by {
                    if h != g {
                        assert(registry.present(h) == old(registry).present(h));
                    }
                }
                assert forall|h: GlobalObjectId|
                    old(registry).live(h) implies #[trigger] registry.live(h) by {
                    if h != g {
                        assert(registry.live(h) == old(registry).live(h));
                    }
                }
            }
        }
        res
    }
}

/// What `wl_shm.create_pool(id, fd, size)` does: insert a fresh
/// `wl_shm_pool` object that owns the passed descriptor and bind `id`
/// to it; on a binding failure the fresh object is removed again
/// (rollback).
pub open spec fn create_pool_effect(
    reg0: ObjectRegistry,
    reg1: ObjectRegistry,
    o0: ClientObjects,
    o1: ClientObjects,
    idraw: u32,
    fd: i32,
    size: i32,
    r: Result<(), MessageError>,
) -> bool {
    if spec_register_ok(o0.table(), idraw) {
        &&& r is Ok
        &&& exists|g: GlobalObjectId|
            {
                &&& !reg0.live(g)
                &&& #[trigger] reg1.present(g)
                &&& reg1.value_of(g) == Interface::WlShmPool(WlShmPool { fd, size })
                &&& o1.table() == spec_registered(o0.table(), idraw, Some(g))
            }
    } else {
        r == Err::<(), MessageError>(MessageError::InvalidObject) && o1 == o0
            && reg1.same_objects(&reg0)
    }
}

impl WlShm {
    /// Handle `wl_shm.create_pool`.
    ///
    /// The descriptor was already popped from the ancillary queue by
    /// the argument decoder; the fresh pool object owns it from here.
    pub fn handle_create_pool(
        &mut self,
        registry: &mut ObjectRegistry,
        objects: &mut ClientObjects,
        id: ObjectId,
        fd: i32,
        size: i32,
    ) -> (r: Result<(), MessageError>)
        requires
            old(registry).wf(),
            old(objects).wf(),
            id.wf(),
        ensures
            final(registry).wf(),
            final(objects).wf(),
            create_pool_effect(
                *old(registry),
                *final(registry),
                *old(objects),
                *final(objects),
                id.spec_raw(),
                fd,
                size,
                r,
            ),
            forall|h: GlobalObjectId|
                old(registry).present(h) ==> #[trigger] final(registry).present(h),
            forall|h: GlobalObjectId|
                old(registry).present(h) ==> old(registry).value_of(h) == #[trigger] final(registry).value_of(h),
            forall|h: GlobalObjectId|
                old(registry).taken(h) ==> #[trigger] final(registry).taken(h),
            forall|h: GlobalObjectId|
                old(registry).live(h) ==> #[trigger] final(registry).live(h),
            final(registry).spec_display_id() == old(registry).spec_display_id(),
            final(registry).spec_registry_id() == old(registry).spec_registry_id(),
            final(registry).spec_globals() == old(registry).spec_globals(),
    {
        let g = registry.insert(Interface::WlShmPool(WlShmPool { fd, size }));
        let ghost mid: ObjectRegistry = *registry;
        let res = objects.register(id, Some(g));
        if res.is_err() {
            proof {
                assert forall|k: int|
                    0 <= k < registry.spec_globals().len() implies #[trigger] registry.spec_globals()[k]
                    != g by {
                    old(registry).lemma_globals_live(k);
                    assert(old(registry).live(old(registry).spec_globals()[k]));
                }
                assert(!registry.spec_is_global(g));
                old(registry).lemma_fixed_live();
                assert(g != registry.spec_display_id());
                assert(g != registry.spec_registry_id());
            }
            let removed = registry.remove(g);
            proof {
                assert(removed is Some);
                assert forall|h: GlobalObjectId| #[trigger] registry.live(h) == old(registry).live(
                    h,
                ) by {
                    if h != g {
                        assert(registry.live(h) == mid.live(h));
                        assert(mid.live(h) == old(registry).live(h));
                    } else {
                        assert(!old(registry).live(h));
                        assert(!registry.live(h));
                    }
                }
                assert forall|h: GlobalObjectId| #[trigger] registry.present(h) == old(registry).present(h) by {
                    if h != g {
                        assert(registry.present(h) == mid.present(h));
                        assert(mid.present(h) == old(registry).present(h));
                    } else {
                        assert(!old(registry).live(h));
                        assert(!registry.live(h));
                        assert(!old(registry).present(h));
                        assert(!registry.present(h));
                    }
                }
                assert forall|h: GlobalObjectId|
                    registry.present(h) implies registry.value_of(h) == #[trigger] old(registry).value_of(h) by {
                    if h != g {
                        assert(registry.present(h) == mid.present(h));
                        assert(mid.present(h) == old(registry).present(h));
                        if registry.present(h) {
                            assert(registry.value_of(h) == mid.value_of(h));
                            assert(mid.value_of(h) == old(registry).value_of(h));
                        }
                    } else {
                        assert(!registry.live(h));
                        assert(!registry.present(h));
                    }
                }
                assert(registry.same_objects(&old(registry)));
            }
        } else {
            proof {
                assert(registry.present(g));
                assert(create_pool_effect(
                    *old(registry),
                    *registry,
                    *old(objects),
                    *objects,
                    id.spec_raw(),
                    fd,
                    size,
                    res,
                ));
                assert forall|h: GlobalObjectId|
                    old(registry).present(h) implies #[trigger] registry.present(h) by {
                    if h != g {
                        assert(registry.present(h) == old(registry).present(h));
                    }
                }
                assert forall|h: GlobalObjectId|
                    old(registry).live(h) implies #[trigger] registry.live(h) by {
                    if h != g {
                        assert(registry.live(h) == old(registry).live(h));
                    }
                }
            }
        }
        res
    }
}

/// Whether a request is one this gateway leaves as a validated no-op.
///
/// A stub request's decoded arguments are dropped once validated; a
/// file descriptor its frame consumed from the ancillary queue is
/// dropped with them and is not closed by the gateway.
pub open spec fn is_stub_request(iface: Interface, opcode: u16) -> bool {
    !(iface is WlDisplay) && !(iface is WlRegistry) && !(iface is WlCompositor && opcode == 0)
        && !(iface is WlShm && opcode == 0)
}

/// Route one decoded request to its handler.
///
/// Stub requests change nothing; the three hardwired handlers behave as
/// their effect predicates say.
pub open spec fn request_effect(
    iface: Interface,
    opcode: u16,
    vals: Seq<ArgModel>,
    reg0: ObjectRegistry,
    reg1: ObjectRegistry,
    o0: ClientObjects,
    o1: ClientObjects,
    s0: MessageBuf<Write>,
    s1: MessageBuf<Write>,
    r: Result<(), MessageError>,
) -> bool {
    &&& (iface is WlDisplay && opcode == 0 ==> (vals[0] matches ArgModel::NewId(w)
        ==> sync_effect(o0, o1, s0, s1, w, r) && reg1 == reg0))
    &&& (iface is WlDisplay && opcode == 1 ==> (vals[0] matches ArgModel::NewId(w)
        ==> get_registry_effect(reg0, o0, o1, s0, s1, w, r) && reg1 == reg0))
    &&& (iface is WlRegistry && opcode == 0 ==> (vals[0] matches ArgModel::Uint(name) ==> (
    vals[1] matches ArgModel::Str(Some(sname)) ==> (vals[2] matches ArgModel::Uint(version)
        ==> (vals[3] matches ArgModel::NewId(w) ==> bind_effect(
        reg0,
        o0,
        o1,
        name,
        sname,
        version,
        w,
        r,
    ) && s1 == s0 && reg1 == reg0)))))
    &&& (iface is WlCompositor && opcode == 0 ==> (vals[0] matches ArgModel::NewId(w)
        ==> create_surface_effect(reg0, reg1, o0, o1, w, r) && s1 == s0))
    &&& (iface is WlShm && opcode == 0 ==> (vals[0] matches ArgModel::NewId(w) ==> (
    vals[1] matches ArgModel::Fd(fd) ==> (vals[2] matches ArgModel::Int(size)
        ==> create_pool_effect(reg0, reg1, o0, o1, w, fd, size, r) && s1 == s0))))
    &&& (is_stub_request(iface, opcode) ==> r is Ok && reg1 == reg0 && o1 == o0 && s1 == s0)
}

/// Decode one frame's arguments per the object's interface and opcode,
/// and invoke the matching handler.
///
/// `InvalidOpcode` exactly when the opcode is past the interface's
/// request count; `BadFormat` exactly when the argument payload is
/// malformed; otherwise the handler's own outcome. The dispatched
/// object itself is never altered.
pub fn dispatch_request(
    object: &mut Interface,
    registry: &mut ObjectRegistry,
    objects: &mut ClientObjects,
    fds: &mut FdSource,
    send: &mut MessageBuf<Write>,
    opcode: u16,
    payload: &Vec<u8>,
) -> (r: Result<(), MessageError>)
    requires
        old(registry).wf(),
        old(objects).wf(),
        old(send).cap_ok(),
        old(send).fds_ok(),
    ensures
        final(registry).wf(),
        final(objects).wf(),
        final(send).cap_ok(),
        final(send).fds_ok(),
        *final(object) == *old(object),
        final(registry).spec_display_id() == old(registry).spec_display_id(),
        final(registry).spec_registry_id() == old(registry).spec_registry_id(),
        final(registry).spec_globals() == old(registry).spec_globals(),
        forall|h: GlobalObjectId|
            old(registry).present(h) ==> #[trigger] final(registry).present(h),
        forall|h: GlobalObjectId|
            old(registry).present(h) ==> old(registry).value_of(h) == #[trigger] final(registry).value_of(h),
        forall|h: GlobalObjectId| old(registry).live(h) ==> #[trigger] final(registry).live(h),
        forall|h: GlobalObjectId|
            old(registry).taken(h) ==> #[trigger] final(registry).taken(h),
        exists|ff: int|
            0 <= ff <= old(fds).fds().len() && final(fds).fds() == old(fds).fds().skip(ff),
        ({
            let iface = *old(object);
            match spec_request_sig(iface, opcode as int) {
                None => r == Err::<(), MessageError>(MessageError::InvalidOpcode) && *final(registry) == *old(registry) && *final(objects) == *old(objects) && *final(send) == *old(send) && final(fds).fds() == old(fds).fds(),
                Some(sig) => match spec_decode_frame(sig, payload@, old(fds).fds()) {
                    None => r == Err::<(), MessageError>(MessageError::BadFormat) && *final(registry) == *old(registry) && *final(objects) == *old(objects) && *final(send)
                        == *old(send),
                    Some((vals, nf)) => final(fds).fds() == old(fds).fds().skip(nf)
                        && request_effect(
                        iface,
                        opcode,
                        vals,
                        *old(registry),
                        *final(registry),
                        *old(objects),
                        *final(objects),
                        *old(send),
                        *final(send),
                        r,
                    ),
                },
            }
        }),
{
    let ghost iface: Interface = *object;
    let ghost fds0: Seq<i32> = fds.fds();
    let sig = match object.request_signature(opcode) {
        Some(s) => s,
        None => {
            proof {
                assert(fds0.skip(0) =~= fds0);
            }
            return Err(MessageError::InvalidOpcode);
        },
    };
    let vals = match decode_args(&sig, payload, fds) {
        Ok(v) => v,
        Err(e) => {
            return Err(e);
        },
    };
    let ghost vs: Seq<ArgModel> = arg_models(vals@);
    let ghost nf: int = spec_decode_frame(sig@, payload@, fds0)->Some_0.1;
    proof {
        crate::wire::lemma_decode_args_match(sig@, payload@, 0, fds0, 0);
        crate::wire::lemma_decode_args_bounds(sig@, payload@, 0, fds0, 0);
        assert(crate::wire::args_match(vs, sig@));
        assert(fds.fds() == fds0.skip(nf));
        assert(0 <= nf <= fds0.len());
    }
    match object {
        Interface::WlDisplay(d) => {
            if opcode == 0 {
                proof {
                    assert(crate::wire::arg_matches(vs[0], sig@[0]));
                }
                match &vals[0] {
                    ArgValue::NewId(w) => {
                        proof {
                            assert(vs[0] == vals@[0]@);
                            assert(*w != 0);
                        }
                        match ObjectId::new(*w) {
                            Some(cb) => d.handle_sync(objects, send, cb),
                            None => {
                                proof {
                                    assert(false);
                                }
                                Err(MessageError::BadFormat)
                            },
                        }
                    },
                    _ => {
                        proof {
                            assert(vs[0] == vals@[0]@);
                            assert(false);
                        }
                        Err(MessageError::BadFormat)
                    },
                }
            } else {
                proof {
                    assert(opcode == 1);
                    assert(crate::wire::arg_matches(vs[0], sig@[0]));
                }
                match &vals[0] {
                    ArgValue::NewId(w) => {
                        proof {
                            assert(vs[0] == vals@[0]@);
                            assert(*w != 0);
                        }
                        match ObjectId::new(*w) {
                            Some(dest) => d.handle_get_registry(registry, objects, send, dest),
                            None => {
                                proof {
                                    assert(false);
                                }
                                Err(MessageError::BadFormat)
                            },
                        }
                    },
                    _ => {
                        proof {
                            assert(vs[0] == vals@[0]@);
                            assert(false);
                        }
                        Err(MessageError::BadFormat)
                    },
                }
            }
        },
        Interface::WlRegistry(reg_obj) => {
            proof {
                assert(opcode == 0);
                assert(crate::wire::arg_matches(vs[0], sig@[0]));
                assert(crate::wire::arg_matches(vs[1], sig@[1]));
                assert(crate::wire::arg_matches(vs[2], sig@[2]));
                assert(crate::wire::arg_matches(vs[3], sig@[3]));
                assert(vs[0] == vals@[0]@);
                assert(vs[1] == vals@[1]@);
                assert(vs[2] == vals@[2]@);
                assert(vs[3] == vals@[3]@);
            }
            match (&vals[0], &vals[1], &vals[2], &vals[3]) {
                (
                    ArgValue::Uint(name),
                    ArgValue::Str(so),
                    ArgValue::Uint(version),
                    ArgValue::NewId(w),
                ) => {
                    match so {
                        Some(sname) => {
                            proof {
                                assert(*w != 0);
                            }
                            match ObjectId::new(*w) {
                                Some(idv) => reg_obj.handle_bind(
                                    registry,
                                    objects,
                                    *name,
                                    sname,
                                    *version,
                                    idv,
                                ),
                                None => {
                                    proof {
                                        assert(false);
                                    }
                                    Err(MessageError::BadFormat)
                                },
                            }
                        },
                        None => {
                            proof {
                                assert(false);
                            }
                            Err(MessageError::BadFormat)
                        },
                    }
                },
                _ => {
                    proof {
                        assert(false);
                    }
                    Err(MessageError::BadFormat)
                },
            }
        },
        Interface::WlCompositor(c) => {
            if opcode == 0 {
                proof {
                    assert(crate::wire::arg_matches(vs[0], sig@[0]));
                }
                match &vals[0] {
                    ArgValue::NewId(w) => {
                        proof {
                            assert(vs[0] == vals@[0]@);
                            assert(*w != 0);
                        }
                        match ObjectId::new(*w) {
                            Some(idv) => c.handle_create_surface(registry, objects, idv),
                            None => {
                                proof {
                                    assert(false);
                                }
                                Err(MessageError::BadFormat)
                            },
                        }
                    },
                    _ => {
                        proof {
                            assert(vs[0] == vals@[0]@);
                            assert(false);
                        }
                        Err(MessageError::BadFormat)
                    },
                }
            } else {
                // create_region and any other compositor request are
                // accepted as validated no-ops.
                Ok(())
            }
        },
        Interface::WlShm(shm) => {
            proof {
                assert(opcode == 0);
                assert(crate::wire::arg_matches(vs[0], sig@[0]));
                assert(crate::wire::arg_matches(vs[1], sig@[1]));
                assert(crate::wire::arg_matches(vs[2], sig@[2]));
                assert(vs[0] == vals@[0]@);
                assert(vs[1] == vals@[1]@);
                assert(vs[2] == vals@[2]@);
            }
            match (&vals[0], &vals[1], &vals[2]) {
                (ArgValue::NewId(w), ArgValue::Fd(fd), ArgValue::Int(size)) => {
                    proof {
                        assert(*w != 0);
                    }
                    match ObjectId::new(*w) {
                        Some(idv) => shm.handle_create_pool(registry, objects, idv, *fd, *size),
                        None => {
                            proof {
                                assert(false);
                            }
                            Err(MessageError::BadFormat)
                        },
                    }
                },
                _ => {
                    proof {
                        assert(false);
                    }
                    Err(MessageError::BadFormat)
                },
            }
        },
        _ => {
            // Stub interfaces: the arguments were validated and any fd
            // arguments consumed; the request itself is a no-op.
            Ok(())
        },
    }
}


/// The outcome of dispatching one frame on a present object, seen from
/// the caller's (pre-take) registry state.
///
/// `hglob` says whether the dispatched object is itself an advertised
/// global; while it is out for dispatch the registry enumerations skip
/// it, so the effects of `get_registry` and `bind` are stated only for
/// the ordinary case where it is not.
pub open spec fn dispatch_outcome(
    iface: Interface,
    opcode: u16,
    payload: Seq<u8>,
    fds0: Seq<i32>,
    reg0: ObjectRegistry,
    reg1: ObjectRegistry,
    o0: ClientObjects,
    o1: ClientObjects,
    s0: MessageBuf<Write>,
    s1: MessageBuf<Write>,
    fds1: Seq<i32>,
    hglob: bool,
    r: Result<(), MessageError>,
) -> bool {
    match spec_request_sig(iface, opcode as int) {
        None => r == Err::<(), MessageError>(MessageError::InvalidOpcode) && o1 == o0 && s1
            == s0 && fds1 == fds0 && reg1.same_objects(&reg0),
        Some(sig) => match spec_decode_frame(sig, payload, fds0) {
            None => r == Err::<(), MessageError>(MessageError::BadFormat) && o1 == o0 && s1
                == s0 && reg1.same_objects(&reg0),
            Some((vals, nf)) => {
                &&& fds1 == fds0.skip(nf)
                &&& (iface is WlDisplay && opcode == 0 ==> (vals[0] matches ArgModel::NewId(w)
                    ==> sync_effect(o0, o1, s0, s1, w, r) && reg1.same_objects(&reg0)))
                &&& (iface is WlDisplay && opcode == 1 && !hglob ==> (vals[0] matches
                    ArgModel::NewId(w) ==> get_registry_effect(reg0, o0, o1, s0, s1, w, r)
                    && reg1.same_objects(&reg0)))
                &&& (iface is WlRegistry && opcode == 0 && !hglob ==> (vals[0] matches
                    ArgModel::Uint(name) ==> (vals[1] matches ArgModel::Str(Some(sname)) ==> (
                vals[2] matches ArgModel::Uint(version) ==> (vals[3] matches ArgModel::NewId(w)
                    ==> bind_effect(reg0, o0, o1, name, sname, version, w, r) && s1 == s0
                    && reg1.same_objects(&reg0))))))
                &&& (iface is WlCompositor && opcode == 0 ==> (vals[0] matches ArgModel::NewId(
                    w,
                ) ==> s1 == s0 && create_surface_effect(reg0, reg1, o0, o1, w, r)))
                &&& (iface is WlShm && opcode == 0 ==> (vals[0] matches ArgModel::NewId(w)
                    ==> (vals[1] matches ArgModel::Fd(fd) ==> (vals[2] matches ArgModel::Int(
                    size,
                ) ==> s1 == s0 && create_pool_effect(reg0, reg1, o0, o1, w, fd, size, r)))))
                &&& (is_stub_request(iface, opcode) ==> r is Ok && o1 == o0 && s1 == s0
                    && reg1.same_objects(&reg0))
            },
        },
    }
}


/// Two registries that agree on a list of handles produce the same
/// announcement frames for them.
proof fn lemma_global_frames_agree(
    a: ObjectRegistry,
    b: ObjectRegistry,
    gs: Seq<GlobalObjectId>,
    dest: u32,
)
    requires
        forall|k: int|
            0 <= k < gs.len() ==> a.present(#[trigger] gs[k]) == b.present(gs[k]),
        forall|k: int|
            0 <= k < gs.len() && a.present(#[trigger] gs[k]) ==> a.value_of(gs[k])
                == b.value_of(gs[k]),
    ensures
        spec_global_frames(a, gs, dest) == spec_global_frames(b, gs, dest),
    decreases gs.len(),
{
    if gs.len() > 0 {
        assert(forall|k: int|
            0 <= k < gs.drop_first().len() ==> gs.drop_first()[k] == gs[k + 1]);
        lemma_global_frames_agree(a, b, gs.drop_first(), dest);
    }
}

/// Two registries that agree on a list of handles resolve the same
/// bind target over them.
proof fn lemma_bind_target_agree(
    a: ObjectRegistry,
    b: ObjectRegistry,
    gs: Seq<GlobalObjectId>,
    name: u32,
    iface: Seq<u8>,
    version: u32,
)
    requires
        forall|k: int|
            0 <= k < gs.len() ==> a.present(#[trigger] gs[k]) == b.present(gs[k]),
        forall|k: int|
            0 <= k < gs.len() && a.present(#[trigger] gs[k]) ==> a.value_of(gs[k])
                == b.value_of(gs[k]),
    ensures
        spec_bind_target(a, gs, name, iface, version) == spec_bind_target(
            b,
            gs,
            name,
            iface,
            version,
        ),
    decreases gs.len(),
{
    if gs.len() > 0 {
        assert(forall|k: int|
            0 <= k < gs.drop_first().len() ==> gs.drop_first()[k] == gs[k + 1]);
        lemma_bind_target_agree(a, b, gs.drop_first(), name, iface, version);
    }
}

/// A resolved bind target is a present global.
proof fn lemma_bind_target_present(
    reg: ObjectRegistry,
    gs: Seq<GlobalObjectId>,
    name: u32,
    iface: Seq<u8>,
    version: u32,
)
    ensures
        spec_bind_target(reg, gs, name, iface, version) matches Some(g) ==> reg.present(g),
    decreases gs.len(),
{
    if gs.len() > 0 {
        lemma_bind_target_present(reg, gs.drop_first(), name, iface, version);
    }
}

/// Everything [`dispatch`] guarantees of one frame, as one relation
/// between the state before (`reg0`, `o0`, `s0`, fd queue `f0`) and the
/// state after (`reg1`, `o1`, `s1`, `f1`): the registry enumerations
/// are preserved, objects present before stay present with their
/// values, consumed descriptors leave from the front of the queue, and
/// the frame's own outcome is fixed by which of the three cases holds —
/// no binding, a binding whose object is out, or a present object whose
/// request runs per [`dispatch_outcome`].
pub open spec fn dispatch_rel(
    object_id: u32,
    opcode: u16,
    payload: Seq<u8>,
    f0: Seq<i32>,
    reg0: ObjectRegistry,
    o0: ClientObjects,
    s0: MessageBuf<Write>,
    reg1: ObjectRegistry,
    o1: ClientObjects,
    s1: MessageBuf<Write>,
    f1: Seq<i32>,
    r: Result<(), MessageError>,
) -> bool {
    &&& reg1.spec_display_id() == reg0.spec_display_id()
    &&& reg1.spec_registry_id() == reg0.spec_registry_id()
    &&& reg1.spec_globals() == reg0.spec_globals()
    &&& forall|h: GlobalObjectId| reg0.present(h) ==> #[trigger] reg1.present(h)
    &&& forall|h: GlobalObjectId|
        reg0.present(h) ==> reg0.value_of(h) == #[trigger] reg1.value_of(h)
    &&& forall|h: GlobalObjectId| reg0.live(h) ==> #[trigger] reg1.live(h)
    &&& exists|ff: int| 0 <= ff <= f0.len() && f1 == f0.skip(ff)
    &&& (crate::registry::bindings_live(o0.table(), reg0) ==> crate::registry::bindings_live(
        o1.table(),
        reg1,
    ))
    &&& (o0.spec_lookup_raw(object_id) is None ==> r == Err::<(), MessageError>(
        MessageError::InvalidObject,
    ) && reg1 == reg0 && o1 == o0 && s1 == s0 && f1 == f0)
    &&& (o0.spec_lookup_raw(object_id) matches Some(h) && !reg0.present(h) ==> r is Ok && reg1
        == reg0 && o1 == o0 && s1 == s0 && f1 == f0)
    &&& (o0.spec_lookup_raw(object_id) matches Some(h) ==> reg0.present(h) ==> reg1.present(h)
        && reg1.value_of(h) == reg0.value_of(h) && dispatch_outcome(
        reg0.value_of(h),
        opcode,
        payload,
        f0,
        reg0,
        reg1,
        o0,
        o1,
        s0,
        s1,
        f1,
        reg0.spec_is_global(h),
        r,
    ))
}

/// Dispatch one frame for a client: resolve the object id, take the
/// object out of the registry, route the request, and restore the
/// object — on every control path.
///
/// An id with no binding is `InvalidObject`. A binding whose object is
/// missing or already out (a late request against a dying object, or a
/// re-entrant request on the in-flight object) is absorbed: `Ok` with
/// nothing changed. Objects present before dispatch are present after
/// it, with their values intact.
pub fn dispatch(
    registry: &mut ObjectRegistry,
    objects: &mut ClientObjects,
    fds: &mut FdSource,
    send: &mut MessageBuf<Write>,
    object_id: ObjectId,
    opcode: u16,
    payload: &Vec<u8>,
) -> (r: Result<(), MessageError>)
    requires
        old(registry).wf(),
        old(objects).wf(),
        old(send).cap_ok(),
        old(send).fds_ok(),
    ensures
        final(registry).wf(),
        final(objects).wf(),
        final(send).cap_ok(),
        final(send).fds_ok(),
        final(registry).spec_display_id() == old(registry).spec_display_id(),
        final(registry).spec_registry_id() == old(registry).spec_registry_id(),
        final(registry).spec_globals() == old(registry).spec_globals(),
        forall|h: GlobalObjectId|
            old(registry).present(h) ==> #[trigger] final(registry).present(h),
        forall|h: GlobalObjectId|
            old(registry).present(h) ==> old(registry).value_of(h) == #[trigger] final(registry).value_of(h),
        forall|h: GlobalObjectId| old(registry).live(h) ==> #[trigger] final(registry).live(h),
        exists|ff: int|
            0 <= ff <= old(fds).fds().len() && final(fds).fds() == old(fds).fds().skip(ff),
        crate::registry::bindings_live(old(objects).table(), *old(registry))
            ==> crate::registry::bindings_live(final(objects).table(), *final(registry)),
        old(objects).lookup(object_id) is None ==> r == Err::<(), MessageError>(
            MessageError::InvalidObject,
        ) && *final(registry) == *old(registry) && *final(objects) == *old(objects) && *final(send) == *old(send) && final(fds).fds() == old(fds).fds(),
        old(objects).lookup(object_id) matches Some(h) && !old(registry).present(h) ==> r
            is Ok && *final(registry) == *old(registry) && *final(objects) == *old(objects)
            && *final(send) == *old(send) && final(fds).fds() == old(fds).fds(),
        old(objects).lookup(object_id) matches Some(h) ==> old(registry).present(h)
            ==> final(registry).present(h) && final(registry).value_of(h) == old(
            registry,
        ).value_of(h) && dispatch_outcome(
            old(registry).value_of(h),
            opcode,
            payload@,
            old(fds).fds(),
            *old(registry),
            *final(registry),
            *old(objects),
            *final(objects),
            *old(send),
            *final(send),
            final(fds).fds(),
            old(registry).spec_is_global(h),
            r,
        ),
        dispatch_rel(
            object_id.spec_raw(),
            opcode,
            payload@,
            old(fds).fds(),
            *old(registry),
            *old(objects),
            *old(send),
            *final(registry),
            *final(objects),
            *final(send),
            final(fds).fds(),
            r,
        ),
{
    let h = match objects.get(object_id) {
        Some(h) => h,
        None => {
            proof {
                assert(old(fds).fds().skip(0) =~= old(fds).fds());
            }
            return Err(MessageError::InvalidObject);
        },
    };
    let taken = registry.take(h);
    match taken {
        None => {
            proof {
                assert(!old(registry).present(h));
                assert(old(fds).fds().skip(0) =~= old(fds).fds());
            }
            Ok(())
        },
        Some(mut object) => {
            let ghost mid: ObjectRegistry = *registry;
            let ghost obj0: Interface = object;
            proof {
                assert(obj0 == old(registry).value_of(h));
                assert(mid.taken(h));
            }
            let res = dispatch_request(
                &mut object,
                registry,
                objects,
                fds,
                send,
                opcode,
                payload,
            );
            let ghost postdr: ObjectRegistry = *registry;
            proof {
                assert(postdr.live(h));
            }
            registry.restore(h, object);
            proof {
                lemma_dispatch_restore(*old(registry), mid, postdr, *registry, h, obj0);
                if postdr == mid {
                    assert(postdr.same_objects(&mid));
                }
                // Where the dispatched object is not itself a global,
                // the taken registry and the original agree on every
                // advertised global, so registry enumerations agree.
                if !old(registry).spec_is_global(h) {
                    assert forall|k: int|
                        0 <= k < old(registry).spec_globals().len() implies mid.present(
                        #[trigger] old(registry).spec_globals()[k],
                    ) == old(registry).present(old(registry).spec_globals()[k]) && (
                    mid.present(old(registry).spec_globals()[k]) ==> mid.value_of(
                        old(registry).spec_globals()[k],
                    ) == old(registry).value_of(old(registry).spec_globals()[k])) by {
                        if old(registry).spec_globals()[k] == h {
                            assert(old(registry).spec_globals().contains(h));
                        }
                    }
                    match spec_request_sig(old(registry).value_of(h), opcode as int) {
                        Some(sig) => {
                            match spec_decode_frame(sig, payload@, old(fds).fds()) {
                                Some((vals, nf)) => {
                                    match vals[0] {
                                        ArgModel::NewId(w) => {
                                            lemma_global_frames_agree(
                                                mid,
                                                *old(registry),
                                                old(registry).spec_globals(),
                                                w,
                                            );
                                        },
                                        ArgModel::Uint(name) => {
                                            match (vals[1], vals[2]) {
                                                (
                                                    ArgModel::Str(Some(sname)),
                                                    ArgModel::Uint(version),
                                                ) => {
                                                    lemma_bind_target_agree(
                                                        mid,
                                                        *old(registry),
                                                        old(registry).spec_globals(),
                                                        name,
                                                        sname,
                                                        version,
                                                    );
                                                },
                                                _ => {},
                                            }
                                        },
                                        _ => {},
                                    }
                                },
                                None => {},
                            }
                        },
                        None => {},
                    }
                }
                // Bound ids keep addressing live slots (the gateway's
                // cross-table invariant): every binding the handlers
                // added is live, and live slots stay live.
                if crate::registry::bindings_live(old(objects).table(), *old(registry)) {
                    let t0 = old(objects).table();
                    let t1 = objects.table();
                    assert forall|g: GlobalObjectId|
                        old(registry).live(g) implies #[trigger] registry.live(g) by {}
                    crate::registry::lemma_bindings_live_mono(
                        t0,
                        *old(registry),
                        *registry,
                    );
                    assert forall|g: GlobalObjectId|
                        postdr.live(g) implies #[trigger] registry.live(g) by {
                        if g != h {
                        }
                    }
                    match spec_request_sig(old(registry).value_of(h), opcode as int) {
                        Some(sig) => {
                            match spec_decode_frame(sig, payload@, old(fds).fds()) {
                                Some((vals, nf)) => {
                                    crate::wire::lemma_decode_args_match(
                                        sig,
                                        payload@,
                                        0,
                                        old(fds).fds(),
                                        0,
                                    );
                                    assert(crate::wire::args_match(vals, sig));
                                    let iface1 = old(registry).value_of(h);
                                    if iface1 is WlDisplay && opcode == 0 {
                                        match vals[0] {
                                            ArgModel::NewId(w) => {
                                                if spec_register_ok(t0, w) {
                                                    crate::registry::lemma_bindings_live_registered(
                                                        t0,
                                                        *registry,
                                                        w,
                                                        None,
                                                    );
                                                    assert(t1 == spec_registered(t0, w, None));
                                                }
                                            },
                                            _ => {},
                                        }
                                    } else if iface1 is WlDisplay && opcode == 1 {
                                        match vals[0] {
                                            ArgModel::NewId(w) => {
                                                if spec_register_ok(t0, w) {
                                                    mid.lemma_fixed_live();
                                                    assert(registry.live(
                                                        mid.spec_registry_id(),
                                                    ));
                                                    crate::registry::lemma_bindings_live_registered(
                                                        t0,
                                                        *registry,
                                                        w,
                                                        Some(mid.spec_registry_id()),
                                                    );
                                                    assert(t1 == spec_registered(
                                                        t0,
                                                        w,
                                                        Some(mid.spec_registry_id()),
                                                    ));
                                                }
                                            },
                                            _ => {},
                                        }
                                    } else if iface1 is WlRegistry && opcode == 0 {
                                        match (vals[0], vals[1], vals[2], vals[3]) {
                                            (
                                                ArgModel::Uint(name),
                                                ArgModel::Str(Some(sname)),
                                                ArgModel::Uint(version),
                                                ArgModel::NewId(w),
                                            ) => {
                                                lemma_bind_target_present(
                                                    mid,
                                                    mid.spec_globals(),
                                                    name,
                                                    sname,
                                                    version,
                                                );
                                                match spec_bind_target(
                                                    mid,
                                                    mid.spec_globals(),
                                                    name,
                                                    sname,
                                                    version,
                                                ) {
                                                    Some(g) => {
                                                        if spec_register_ok(t0, w) {
                                                            assert(mid.present(g));
                                                            assert(mid.live(g));
                                                            assert(registry.live(g));
                                                            crate::registry::lemma_bindings_live_registered(
                                                                t0,
                                                                *registry,
                                                                w,
                                                                Some(g),
                                                            );
                                                            assert(t1 == spec_registered(
                                                                t0,
                                                                w,
                                                                Some(g),
                                                            ));
                                                        }
                                                    },
                                                    None => {},
                                                }
                                            },
                                            _ => {},
                                        }
                                    } else if iface1 is WlCompositor && opcode == 0 {
                                        match vals[0] {
                                            ArgModel::NewId(w) => {
                                                if spec_register_ok(t0, w) && res is Ok {
                                                    let g = choose|g: GlobalObjectId|
                                                        {
                                                            &&& !mid.live(g)
                                                            &&& #[trigger] postdr.present(g)
                                                            &&& postdr.value_of(g)
                                                                == Interface::WlSurface(
                                                                WlSurface,
                                                            )
                                                            &&& objects.table()
                                                                == spec_registered(
                                                                t0,
                                                                w,
                                                                Some(g),
                                                            )
                                                        };
                                                    assert(postdr.live(g));
                                                    assert(registry.live(g));
                                                    crate::registry::lemma_bindings_live_registered(
                                                        t0,
                                                        *registry,
                                                        w,
                                                        Some(g),
                                                    );
                                                }
                                            },
                                            _ => {},
                                        }
                                    } else if iface1 is WlShm && opcode == 0 {
                                        match (vals[0], vals[1], vals[2]) {
                                            (
                                                ArgModel::NewId(w),
                                                ArgModel::Fd(fdv),
                                                ArgModel::Int(sz),
                                            ) => {
                                                if spec_register_ok(t0, w) && res is Ok {
                                                    let g = choose|g: GlobalObjectId|
                                                        {
                                                            &&& !mid.live(g)
                                                            &&& #[trigger] postdr.present(g)
                                                            &&& postdr.value_of(g)
                                                                == Interface::WlShmPool(
                                                                WlShmPool { fd: fdv, size: sz },
                                                            )
                                                            &&& objects.table()
                                                                == spec_registered(
                                                                t0,
                                                                w,
                                                                Some(g),
                                                            )
                                                        };
                                                    assert(postdr.live(g));
                                                    assert(registry.live(g));
                                                    crate::registry::lemma_bindings_live_registered(
                                                        t0,
                                                        *registry,
                                                        w,
                                                        Some(g),
                                                    );
                                                }
                                            },
                                            _ => {},
                                        }
                                    }
                                },
                                None => {},
                            }
                        },
                        None => {},
                    }
                }
                // Lift the fresh-object witness from the handler's view
                // of the registry to the caller's view.
                let iface0 = old(registry).value_of(h);
                if iface0 is WlCompositor && opcode == 0 {
                    match spec_request_sig(iface0, opcode as int) {
                        Some(sig) => {
                            match spec_decode_frame(sig, payload@, old(fds).fds()) {
                                Some((vals, nf)) => {
                                    match vals[0] {
                                        ArgModel::NewId(w) => {
                                            if spec_register_ok(old(objects).table(), w)
                                                && res is Ok {
                                                let g = choose|g: GlobalObjectId|
                                                    {
                                                        &&& !mid.live(g)
                                                        &&& #[trigger] postdr.present(g)
                                                        &&& postdr.value_of(g)
                                                            == Interface::WlSurface(WlSurface)
                                                        &&& objects.table()
                                                            == spec_registered(
                                                            old(objects).table(),
                                                            w,
                                                            Some(g),
                                                        )
                                                    };
                                                assert(mid.live(h));
                                                assert(g != h);
                                                assert(!old(registry).live(g));
                                                assert(registry.present(g));
                                                assert(registry.value_of(g)
                                                    == Interface::WlSurface(WlSurface));
                                            }
                                        },
                                        _ => {},
                                    }
                                },
                                None => {},
                            }
                        },
                        None => {},
                    }
                }
                if iface0 is WlShm && opcode == 0 {
                    match spec_request_sig(iface0, opcode as int) {
                        Some(sig) => {
                            match spec_decode_frame(sig, payload@, old(fds).fds()) {
                                Some((vals, nf)) => {
                                    match (vals[0], vals[1], vals[2]) {
                                        (
                                            ArgModel::NewId(w),
                                            ArgModel::Fd(fdv),
                                            ArgModel::Int(sz),
                                        ) => {
                                            if spec_register_ok(old(objects).table(), w)
                                                && res is Ok {
                                                let g = choose|g: GlobalObjectId|
                                                    {
                                                        &&& !mid.live(g)
                                                        &&& #[trigger] postdr.present(g)
                                                        &&& postdr.value_of(g)
                                                            == Interface::WlShmPool(
                                                            WlShmPool { fd: fdv, size: sz },
                                                        )
                                                        &&& objects.table()
                                                            == spec_registered(
                                                            old(objects).table(),
                                                            w,
                                                            Some(g),
                                                        )
                                                    };
                                                assert(mid.live(h));
                                                assert(g != h);
                                                assert(!old(registry).live(g));
                                                assert(registry.present(g));
                                                assert(registry.value_of(g)
                                                    == Interface::WlShmPool(
                                                    WlShmPool { fd: fdv, size: sz },
                                                ));
                                            }
                                        },
                                        _ => {},
                                    }
                                },
                                None => {},
                            }
                        },
                        None => {},
                    }
                }
            }
            res
        },
    }
}

/// After take, request handling and restore, the registry relates to
/// its original state slot by slot: the dispatched object is back with
/// its value, previously present objects are present with their values,
/// and where the handler left the slots alone the registries agree on
/// every handle.
proof fn lemma_dispatch_restore(
    orig: ObjectRegistry,
    mid: ObjectRegistry,
    postdr: ObjectRegistry,
    fin: ObjectRegistry,
    h: GlobalObjectId,
    obj0: Interface,
)
    requires
        orig.present(h),
        obj0 == orig.value_of(h),
        mid.taken(h),
        forall|g: GlobalObjectId| g != h ==> orig.live(g) == #[trigger] mid.live(g),
        forall|g: GlobalObjectId| g != h ==> orig.present(g) == #[trigger] mid.present(g),
        forall|g: GlobalObjectId|
            g != h && orig.present(g) ==> orig.value_of(g) == #[trigger] mid.value_of(g),
        mid.live(h) == orig.live(h),
        forall|g: GlobalObjectId| mid.present(g) ==> #[trigger] postdr.present(g),
        forall|g: GlobalObjectId|
            mid.present(g) ==> mid.value_of(g) == #[trigger] postdr.value_of(g),
        forall|g: GlobalObjectId| mid.live(g) ==> #[trigger] postdr.live(g),
        forall|g: GlobalObjectId| mid.taken(g) ==> #[trigger] postdr.taken(g),
        fin.present(h),
        fin.value_of(h) == obj0,
        forall|g: GlobalObjectId| g != h ==> postdr.live(g) == #[trigger] fin.live(g),
        forall|g: GlobalObjectId| g != h ==> postdr.present(g) == #[trigger] fin.present(g),
        forall|g: GlobalObjectId|
            g != h && postdr.present(g) ==> postdr.value_of(g) == #[trigger] fin.value_of(g),
        mid.spec_display_id() == orig.spec_display_id(),
        mid.spec_registry_id() == orig.spec_registry_id(),
        mid.spec_globals() == orig.spec_globals(),
        postdr.spec_display_id() == mid.spec_display_id(),
        postdr.spec_registry_id() == mid.spec_registry_id(),
        postdr.spec_globals() == mid.spec_globals(),
        fin.spec_display_id() == postdr.spec_display_id(),
        fin.spec_registry_id() == postdr.spec_registry_id(),
        fin.spec_globals() == postdr.spec_globals(),
    ensures
        forall|g: GlobalObjectId| orig.present(g) ==> #[trigger] fin.present(g),
        forall|g: GlobalObjectId|
            orig.present(g) ==> orig.value_of(g) == #[trigger] fin.value_of(g),
        forall|g: GlobalObjectId| orig.live(g) ==> #[trigger] fin.live(g),
        postdr.same_objects(&mid) ==> fin.same_objects(&orig),
{
    assert forall|g: GlobalObjectId| orig.present(g) implies #[trigger] fin.present(g) by {
        if g == h {
        } else {
            assert(mid.present(g));
            assert(postdr.present(g));
        }
    }
    assert forall|g: GlobalObjectId| orig.present(g) implies orig.value_of(g) == #[trigger] fin.value_of(g) by {
        if g == h {
        } else {
            assert(mid.present(g));
            assert(postdr.present(g));
            assert(mid.value_of(g) == postdr.value_of(g));
        }
    }
    assert forall|g: GlobalObjectId| orig.live(g) implies #[trigger] fin.live(g) by {
        if g == h {
            orig.lemma_present_live(h);
            fin.lemma_present_live(h);
        } else {
            assert(mid.live(g));
            assert(postdr.live(g));
        }
    }
    if postdr.same_objects(&mid) {
        assert forall|g: GlobalObjectId| orig.live(g) == #[trigger] fin.live(g) by {
            if g == h {
                orig.lemma_present_live(h);
                fin.lemma_present_live(h);
            } else {
                assert(mid.live(g) == postdr.live(g));
            }
        }
        assert forall|g: GlobalObjectId| orig.present(g) == #[trigger] fin.present(g) by {
            if g == h {
            } else {
                assert(mid.present(g) == postdr.present(g));
            }
        }
        assert forall|g: GlobalObjectId|
            orig.present(g) implies orig.value_of(g) == #[trigger] fin.value_of(g) by {
            if g == h {
            } else {
                assert(mid.present(g));
                assert(mid.value_of(g) == postdr.value_of(g));
            }
        }
    }
}

} // verus!
