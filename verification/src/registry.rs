//! Client-local object ids, per-client object tables, and the global
//! object registry.

use vstd::prelude::*;

use crate::client::{notified_global, notified_global_remove, Clients};
use crate::error::MessageError;
use crate::protocol::{
    Interface, WlCompositor, WlDataDeviceManager, WlDisplay, WlRegistry, WlShm, WlSubcompositor,
    XdgWmBase,
};
use crate::store::{GlobalObjectId, SlotStore};

verus! {

broadcast use crate::store::SlotStore::lemma_present_live;

/// A nonzero client-local object id; id 0 is the null object on the
/// wire, id 1 is always the display.
#[derive(Clone, Copy, Debug, PartialEq, Eq, Hash, Structural)]
pub struct ObjectId {
    raw: u32,
}

impl ObjectId {
    pub closed spec fn spec_raw(&self) -> u32 {
        self.raw
    }

    /// An id is well-formed when it is nonzero.
    pub open spec fn wf(&self) -> bool {
        self.spec_raw() != 0
    }

    /// Wrap a wire word as an object id; 0 is the null object.
    pub fn new(raw: u32) -> (r: Option<ObjectId>)
        ensures
            raw == 0 ==> r is None,
            raw != 0 ==> (r matches Some(id) && id.wf() && id.spec_raw() == raw),
    {
        if raw == 0 {
            None
        } else {
            Some(ObjectId { raw })
        }
    }

    /// The wire word of this id.
    pub fn raw(self) -> (r: u32)
        ensures
            r == self.spec_raw(),
    {
        self.raw
    }
}

/// One client's table from object ids to global handles.
///
/// The table is a dense vector indexed by id: slot 0 is permanently
/// empty (the null id), slot 1 is the display. `register` fills only the
/// first slot past the end (append) or an existing empty slot; reusing a
/// live slot is `InvalidObject`.
pub struct ClientObjects {
    objects: Vec<Option<GlobalObjectId>>,
}

/// The first id in table order bound to a registry object, if any.
pub open spec fn spec_first_registry_from(
    t: Seq<Option<GlobalObjectId>>,
    reg: ObjectRegistry,
    i: int,
) -> Option<u32>
    decreases t.len() - i,
{
    if i < 0 || i >= t.len() {
        None
    } else {
        match t[i] {
            Some(h) => if reg.present(h) && reg.value_of(h) is WlRegistry {
                Some(i as u32)
            } else {
                spec_first_registry_from(t, reg, i + 1)
            },
            None => spec_first_registry_from(t, reg, i + 1),
        }
    }
}

/// The first-registry scan sees through any registry change confined
/// to one handle that is not a registry object on either side: which
/// id is the first registry binding cannot move.
pub proof fn lemma_first_registry_insensitive(
    t: Seq<Option<GlobalObjectId>>,
    a: ObjectRegistry,
    b: ObjectRegistry,
    g: GlobalObjectId,
    i: int,
)
    requires
        forall|h: GlobalObjectId| h != g ==> a.present(h) == #[trigger] b.present(h),
        forall|h: GlobalObjectId|
            h != g && a.present(h) ==> a.value_of(h) == #[trigger] b.value_of(h),
        a.present(g) ==> !(a.value_of(g) is WlRegistry),
        b.present(g) ==> !(b.value_of(g) is WlRegistry),
    ensures
        spec_first_registry_from(t, a, i) == spec_first_registry_from(t, b, i),
    decreases t.len() - i,
{
    if 0 <= i < t.len() {
        lemma_first_registry_insensitive(t, a, b, g, i + 1);
    }
}

/// Whether `register` accepts id `idraw` on table `t`: the next free
/// index (append) or an existing empty slot.
pub open spec fn spec_register_ok(t: Seq<Option<GlobalObjectId>>, idraw: u32) -> bool {
    idraw == t.len() || (idraw < t.len() && t[idraw as int] is None)
}

/// The table after a successful `register` of `idraw`.
pub open spec fn spec_registered(
    t: Seq<Option<GlobalObjectId>>,
    idraw: u32,
    g: Option<GlobalObjectId>,
) -> Seq<Option<GlobalObjectId>> {
    if idraw == t.len() {
        t.push(g)
    } else {
        t.update(idraw as int, g)
    }
}

impl ClientObjects {
    /// The table, one optional handle per id.
    pub closed spec fn table(&self) -> Seq<Option<GlobalObjectId>> {
        self.objects@
    }

    /// Slot 0, the null id, is permanently empty, and ids stay within
    /// the 32-bit wire id space.
    pub open spec fn wf(&self) -> bool {
        &&& self.table().len() >= 1
        &&& self.table()[0] is None
        &&& self.table().len() <= 0x1_0000_0000
    }

    /// The handle a raw wire id is bound to, if in range and bound.
    pub open spec fn spec_lookup_raw(&self, idraw: u32) -> Option<GlobalObjectId> {
        if idraw < self.table().len() {
            self.table()[idraw as int]
        } else {
            None
        }
    }

    /// The handle an id is bound to, if the id is in range and bound.
    pub open spec fn lookup(&self, id: ObjectId) -> Option<GlobalObjectId> {
        self.spec_lookup_raw(id.spec_raw())
    }

    /// A fresh table: the null slot and the display binding.
    pub fn new(display_id: GlobalObjectId) -> (r: ClientObjects)
        ensures
            r.table() == seq![None, Some(display_id)],
            r.wf(),
    {
        let mut objects: Vec<Option<GlobalObjectId>> = Vec::new();
        objects.push(None);
        objects.push(Some(display_id));
        proof {
            assert(objects@ =~= seq![None, Some(display_id)]);
        }
        ClientObjects { objects }
    }

    /// The handle bound to `id`, if any.
    pub fn get(&self, id: ObjectId) -> (r: Option<GlobalObjectId>)
        ensures
            r == self.lookup(id),
    {
        let idx = id.raw() as usize;
        if idx < self.objects.len() {
            self.objects[idx]
        } else {
            None
        }
    }

    /// Bind `id` to a handle (or to a null-handle slot for callbacks).
    ///
    /// Succeeds exactly when `id` is the next free index (append) or an
    /// existing empty slot; a live or out-of-range slot is
    /// `InvalidObject` and leaves the table unchanged.
    pub fn register(&mut self, id: ObjectId, global_id: Option<GlobalObjectId>) -> (r: Result<
        (),
        MessageError,
    >)
        requires
            id.wf(),
        ensures
            old(self).wf() ==> final(self).wf(),
            id.spec_raw() == old(self).table().len() ==> r is Ok && final(self).table() == old(self).table().push(global_id),
            id.spec_raw() < old(self).table().len() && old(self).table()[id.spec_raw() as int]
                is None ==> r is Ok && final(self).table() == old(self).table().update(
                id.spec_raw() as int,
                global_id,
            ),
            id.spec_raw() > old(self).table().len() || (id.spec_raw() < old(self).table().len() && old(self).table()[id.spec_raw() as int] is Some) ==> r == Err::<
                (),
                MessageError,
            >(MessageError::InvalidObject) && *final(self) == *old(self),
            r is Ok <==> (id.spec_raw() == old(self).table().len() || (id.spec_raw() < old(self).table().len() && old(self).table()[id.spec_raw() as int] is None)),
    {
        let idx = id.raw() as usize;
        if idx == self.objects.len() {
            self.objects.push(global_id);
            Ok(())
        } else if idx < self.objects.len() {
            if self.objects[idx].is_none() {
                self.objects[idx] = global_id;
                Ok(())
            } else {
                Err(MessageError::InvalidObject)
            }
        } else {
            Err(MessageError::InvalidObject)
        }
    }

    /// The live `(id, handle)` pairs of this table: exactly one pair
    /// per bound slot, in strictly increasing id order.
    pub fn iter(&self) -> (r: Vec<(ObjectId, GlobalObjectId)>)
        requires
            self.wf(),
        ensures
            forall|k: int|
                0 <= k < r@.len() ==> (#[trigger] r@[k]).0.wf() && self.lookup(r@[k].0) == Some(
                    r@[k].1,
                ),
            forall|i: int|
                0 <= i < self.table().len() && self.table()[i] is Some ==> exists|k: int|
                    0 <= k < r@.len() && (#[trigger] r@[k]).0.spec_raw() == i,
            forall|k1: int, k2: int|
                0 <= k1 < k2 < r@.len() ==> (#[trigger] r@[k1]).0.spec_raw() < (
                #[trigger] r@[k2]).0.spec_raw(),
    {
        let n = self.objects.len();
        let mut r: Vec<(ObjectId, GlobalObjectId)> = Vec::new();
        let mut i: usize = 0;
        while i < n
            invariant
                i <= n,
                n == self.table().len(),
                self.wf(),
                forall|k: int|
                    0 <= k < r@.len() ==> (#[trigger] r@[k]).0.wf() && self.lookup(r@[k].0)
                        == Some(r@[k].1),
                forall|j: int|
                    0 <= j < i && self.table()[j] is Some ==> exists|k: int|
                        0 <= k < r@.len() && (#[trigger] r@[k]).0.spec_raw() == j,
                forall|k: int| 0 <= k < r@.len() ==> (#[trigger] r@[k]).0.spec_raw() < i,
                forall|k1: int, k2: int|
                    0 <= k1 < k2 < r@.len() ==> (#[trigger] r@[k1]).0.spec_raw() < (
                    #[trigger] r@[k2]).0.spec_raw(),
            decreases n - i,
        {
            match self.objects[i] {
                Some(h) => {
                    let id = ObjectId { raw: i as u32 };
                    let ghost r0 = r@;
                    r.push((id, h));
                    proof {
                        assert(r@[r@.len() - 1].0.spec_raw() == i as u32);
                        assert forall|j: int|
                            0 <= j < i + 1 && self.table()[j] is Some implies exists|k: int|
                            0 <= k < r@.len() && (#[trigger] r@[k]).0.spec_raw() == j by {
                            if j == i {
                                assert(r@[r@.len() - 1].0.spec_raw() == j);
                            } else {
                                let k = choose|k: int|
                                    0 <= k < r0.len() && (#[trigger] r0[k]).0.spec_raw() == j;
                                assert(r@[k] == r0[k]);
                                assert(r@[k].0.spec_raw() == j);
                            }
                        }
                    }
                },
                None => {},
            }
            i = i + 1;
        }
        r
    }

    /// The id of this client's first registry binding, if it has one.
    pub fn find_registry(&self, reg: &ObjectRegistry) -> (r: Option<ObjectId>)
        requires
            self.wf(),
        ensures
            match r {
                Some(id) => id.wf() && spec_first_registry_from(self.table(), *reg, 0) == Some(
                    id.spec_raw(),
                ),
                None => spec_first_registry_from(self.table(), *reg, 0) is None,
            },
    {
        let n = self.objects.len();
        let mut i: usize = 0;
        while i < n
            invariant
                i <= n,
                n == self.table().len(),
                self.wf(),
                spec_first_registry_from(self.table(), *reg, 0) == spec_first_registry_from(
                    self.table(),
                    *reg,
                    i as int,
                ),
            decreases n - i,
        {
            match self.objects[i] {
                Some(h) => {
                    match reg.get(h) {
                        Some(iface) => {
                            if iface.is_registry() {
                                // Slot 0 is permanently empty, so a hit is
                                // never the null id.
                                proof {
                                    assert(reg.present(h) && reg.value_of(h) is WlRegistry);
                                    assert(spec_first_registry_from(
                                        self.table(),
                                        *reg,
                                        i as int,
                                    ) == Some(i as u32));
                                    assert(i != 0);
                                }
                                return Some(ObjectId { raw: i as u32 });
                            }
                        },
                        None => {},
                    }
                },
                None => {},
            }
            proof {
                assert(spec_first_registry_from(self.table(), *reg, i as int)
                    == spec_first_registry_from(self.table(), *reg, i as int + 1));
            }
            i = i + 1;
        }
        None
    }
}

/// The global store of live protocol objects plus the advertised
/// globals, the display handle and the registry handle.
pub struct ObjectRegistry {
    display_id: GlobalObjectId,
    registry_id: GlobalObjectId,
    globals: Vec<GlobalObjectId>,
    objects: SlotStore<Interface>,
}

impl ObjectRegistry {
    pub closed spec fn spec_display_id(&self) -> GlobalObjectId {
        self.display_id
    }

    pub closed spec fn spec_registry_id(&self) -> GlobalObjectId {
        self.registry_id
    }

    /// The advertised globals, in advertisement order.
    pub closed spec fn spec_globals(&self) -> Seq<GlobalObjectId> {
        self.globals@
    }

    /// The handle addresses a live slot: present or taken.
    pub closed spec fn live(&self, h: GlobalObjectId) -> bool {
        self.objects.live(h)
    }

    /// The handle addresses a slot that holds its object.
    pub closed spec fn present(&self, h: GlobalObjectId) -> bool {
        self.objects.present(h)
    }

    /// The handle addresses a live slot whose object is out for dispatch.
    pub open spec fn taken(&self, h: GlobalObjectId) -> bool {
        self.live(h) && !self.present(h)
    }

    /// The handle belonged to an object that was removed: its slot's
    /// generation has moved past it. Removal retires a handle for good
    /// and `insert` never returns a retired handle, so a handle is
    /// never reissued and a stale one never addresses a new occupant.
    pub closed spec fn spec_retired(&self, h: GlobalObjectId) -> bool {
        self.objects.retired(h)
    }

    /// How many slots the store addresses, free or not.
    pub closed spec fn spec_slot_count(&self) -> int {
        self.objects.spec_slot_count()
    }

    /// A live handle is not retired.
    pub broadcast proof fn lemma_live_not_retired(&self, h: GlobalObjectId)
        ensures
            #[trigger] self.live(h) ==> !self.spec_retired(h),
    {
        self.objects.lemma_live_not_retired(h);
    }

    /// A present object is live.
    pub broadcast proof fn lemma_present_live(&self, h: GlobalObjectId)
        ensures
            #[trigger] self.present(h) ==> self.live(h),
    {
    }

    /// The object a present slot holds.
    pub closed spec fn value_of(&self, h: GlobalObjectId) -> Interface {
        self.objects.value_of(h)
    }

    /// The store invariant, the fixed handles live, and the globals list
    /// duplicate-free with every entry live.
    pub closed spec fn wf(&self) -> bool {
        &&& self.objects.wf()
        &&& self.objects.live(self.display_id)
        &&& self.objects.live(self.registry_id)
        &&& forall|k: int|
            0 <= k < self.globals@.len() ==> self.objects.live(#[trigger] self.globals@[k])
        &&& forall|k1: int, k2: int|
            0 <= k1 < self.globals@.len() && 0 <= k2 < self.globals@.len() && k1 != k2
                ==> self.globals@[k1] != self.globals@[k2]
    }

    /// A well-formed registry's advertised globals are live.
    pub proof fn lemma_globals_live(&self, k: int)
        requires
            self.wf(),
            0 <= k < self.spec_globals().len(),
        ensures
            self.live(self.spec_globals()[k]),
    {
    }

    /// A well-formed registry's display and registry handles are live.
    pub proof fn lemma_fixed_live(&self)
        requires
            self.wf(),
        ensures
            self.live(self.spec_display_id()),
            self.live(self.spec_registry_id()),
    {
    }

    /// Two registries agree on all slots and the fixed handles and
    /// globals list.
    pub open spec fn same_objects(&self, other: &ObjectRegistry) -> bool {
        &&& forall|h: GlobalObjectId| self.live(h) == #[trigger] other.live(h)
        &&& forall|h: GlobalObjectId| self.present(h) == #[trigger] other.present(h)
        &&& forall|h: GlobalObjectId|
            self.present(h) ==> self.value_of(h) == #[trigger] other.value_of(h)
        &&& self.spec_display_id() == other.spec_display_id()
        &&& self.spec_registry_id() == other.spec_registry_id()
        &&& self.spec_globals() == other.spec_globals()
    }

    /// A fresh registry: the display, the shared registry object, and
    /// the default advertised globals in a fixed order.
    pub fn new() -> (r: ObjectRegistry)
        ensures
            r.wf(),
            r.present(r.spec_display_id()),
            r.present(r.spec_registry_id()),
            r.value_of(r.spec_display_id()) == Interface::WlDisplay(WlDisplay),
            r.value_of(r.spec_registry_id()) == Interface::WlRegistry(WlRegistry),
            r.spec_globals().len() == 5,
            r.value_of(r.spec_globals()[0]) == Interface::WlCompositor(WlCompositor),
            r.value_of(r.spec_globals()[1]) == Interface::WlShm(WlShm),
            r.value_of(r.spec_globals()[2]) == Interface::WlDataDeviceManager(
                WlDataDeviceManager,
            ),
            r.value_of(r.spec_globals()[3]) == Interface::WlSubcompositor(WlSubcompositor),
            r.value_of(r.spec_globals()[4]) == Interface::XdgWmBase(XdgWmBase),
            forall|k: int| 0 <= k < 5 ==> r.present(#[trigger] r.spec_globals()[k]),
    {
        let mut objects: SlotStore<Interface> = SlotStore::new();

        let display_id = objects.insert(Interface::WlDisplay(WlDisplay));
        let registry_id = objects.insert(Interface::WlRegistry(WlRegistry));
        proof {
            assert(objects.present(display_id) && objects.value_of(display_id)
                == Interface::WlDisplay(WlDisplay));
        }

        let g0 = objects.insert(Interface::WlCompositor(WlCompositor));
        proof {
            assert(objects.present(display_id) && objects.present(registry_id));
        }
        let g1 = objects.insert(Interface::WlShm(WlShm));
        proof {
            assert(objects.present(display_id) && objects.present(registry_id)
                && objects.present(g0));
        }
        let g2 = objects.insert(Interface::WlDataDeviceManager(WlDataDeviceManager));
        proof {
            assert(objects.present(display_id) && objects.present(registry_id)
                && objects.present(g0) && objects.present(g1));
        }
        let g3 = objects.insert(Interface::WlSubcompositor(WlSubcompositor));
        proof {
            assert(objects.present(display_id) && objects.present(registry_id)
                && objects.present(g0) && objects.present(g1) && objects.present(g2));
        }
        let g4 = objects.insert(Interface::XdgWmBase(XdgWmBase));

        proof {
            assert(objects.present(display_id) && objects.value_of(display_id)
                == Interface::WlDisplay(WlDisplay));
            assert(objects.present(registry_id) && objects.value_of(registry_id)
                == Interface::WlRegistry(WlRegistry));
            assert(objects.present(g0) && objects.value_of(g0) == Interface::WlCompositor(
                WlCompositor,
            ));
            assert(objects.present(g1) && objects.value_of(g1) == Interface::WlShm(WlShm));
            assert(objects.present(g2) && objects.value_of(g2)
                == Interface::WlDataDeviceManager(WlDataDeviceManager));
            assert(objects.present(g3) && objects.value_of(g3) == Interface::WlSubcompositor(
                WlSubcompositor,
            ));
            assert(objects.present(g4) && objects.value_of(g4) == Interface::XdgWmBase(
                XdgWmBase,
            ));
            assert(g0 != g1 && g0 != g2 && g0 != g3 && g0 != g4 && g1 != g2 && g1 != g3 && g1
                != g4 && g2 != g3 && g2 != g4 && g3 != g4);
        }
        let mut globals: Vec<GlobalObjectId> = Vec::new();
        globals.push(g0);
        globals.push(g1);
        globals.push(g2);
        globals.push(g3);
        globals.push(g4);
        proof {
            assert(globals@ =~= seq![g0, g1, g2, g3, g4]);
        }

        ObjectRegistry { display_id, registry_id, globals, objects }
    }

    pub fn display_id(&self) -> (r: GlobalObjectId)
        ensures
            r == self.spec_display_id(),
    {
        self.display_id
    }

    pub fn registry_id(&self) -> (r: GlobalObjectId)
        ensures
            r == self.spec_registry_id(),
    {
        self.registry_id
    }

    /// The advertised globals, in advertisement order.
    pub fn globals(&self) -> (r: Vec<GlobalObjectId>)
        ensures
            r@ == self.spec_globals(),
    {
        let mut r: Vec<GlobalObjectId> = Vec::new();
        let mut i: usize = 0;
        while i < self.globals.len()
            invariant
                i <= self.spec_globals().len(),
                self.spec_globals() == self.globals@,
                r@ == self.spec_globals().take(i as int),
            decreases self.spec_globals().len() - i,
        {
            r.push(self.globals[i]);
            assert(r@ =~= self.spec_globals().take(i as int + 1));
            i = i + 1;
        }
        proof {
            assert(self.spec_globals().take(self.spec_globals().len() as int)
                =~= self.spec_globals());
        }
        r
    }

    /// Whether a handle is currently advertised as a global.
    pub open spec fn spec_is_global(&self, h: GlobalObjectId) -> bool {
        self.spec_globals().contains(h)
    }

    /// Store a new object and hand back its fresh handle.
    ///
    /// The handle is fresh against every handle that ever addressed
    /// this registry: it was not live before and it is not retired
    /// (one removed earlier), so a handle cached before the insert
    /// never addresses the new object.
    pub fn insert(&mut self, object: Interface) -> (h: GlobalObjectId)
        requires
            old(self).wf(),
        ensures
            final(self).wf(),
            !old(self).live(h),
            !old(self).spec_retired(h),
            h.spec_index() <= old(self).spec_slot_count(),
            final(self).spec_slot_count() <= old(self).spec_slot_count() + 1,
            forall|g: GlobalObjectId|
                old(self).spec_retired(g) ==> #[trigger] final(self).spec_retired(g),
            final(self).present(h),
            final(self).value_of(h) == object,
            final(self).spec_display_id() == old(self).spec_display_id(),
            final(self).spec_registry_id() == old(self).spec_registry_id(),
            final(self).spec_globals() == old(self).spec_globals(),
            forall|g: GlobalObjectId|
                g != h ==> old(self).live(g) == #[trigger] final(self).live(g),
            forall|g: GlobalObjectId|
                g != h ==> old(self).present(g) == #[trigger] final(self).present(g),
            forall|g: GlobalObjectId|
                g != h && old(self).present(g) ==> old(self).value_of(g)
                    == #[trigger] final(self).value_of(g),
    {
        self.objects.insert(object)
    }

    /// Shared look-up of a present object.
    pub fn get(&self, h: GlobalObjectId) -> (r: Option<&Interface>)
        ensures
            self.present(h) ==> r == Some(&self.value_of(h)),
            !self.present(h) ==> r is None,
    {
        self.objects.get(h)
    }

    /// Take an object out of its slot for dispatch, leaving a tombstone.
    ///
    /// `None` for a stale handle or an already-taken slot: a re-entrant
    /// look-up of the in-flight object misses instead of aliasing.
    pub fn take(&mut self, h: GlobalObjectId) -> (r: Option<Interface>)
        requires
            old(self).wf(),
        ensures
            final(self).wf(),
            old(self).present(h) ==> r == Some(old(self).value_of(h)) && final(self).taken(h),
            !old(self).present(h) ==> r is None && *final(self) == *old(self),
            final(self).live(h) == old(self).live(h),
            forall|g: GlobalObjectId|
                old(self).spec_retired(g) ==> #[trigger] final(self).spec_retired(g),
            final(self).spec_slot_count() == old(self).spec_slot_count(),
            final(self).spec_display_id() == old(self).spec_display_id(),
            final(self).spec_registry_id() == old(self).spec_registry_id(),
            final(self).spec_globals() == old(self).spec_globals(),
            forall|g: GlobalObjectId|
                g != h ==> old(self).live(g) == #[trigger] final(self).live(g),
            forall|g: GlobalObjectId|
                g != h ==> old(self).present(g) == #[trigger] final(self).present(g),
            forall|g: GlobalObjectId|
                g != h && old(self).present(g) ==> old(self).value_of(g)
                    == #[trigger] final(self).value_of(g),
    {
        self.objects.take(h)
    }

    /// Put a dispatched object back into its slot.
    pub fn restore(&mut self, h: GlobalObjectId, object: Interface)
        requires
            old(self).wf(),
            old(self).live(h),
        ensures
            final(self).wf(),
            final(self).present(h),
            final(self).value_of(h) == object,
            forall|g: GlobalObjectId|
                old(self).spec_retired(g) ==> #[trigger] final(self).spec_retired(g),
            final(self).spec_slot_count() == old(self).spec_slot_count(),
            final(self).spec_display_id() == old(self).spec_display_id(),
            final(self).spec_registry_id() == old(self).spec_registry_id(),
            final(self).spec_globals() == old(self).spec_globals(),
            forall|g: GlobalObjectId|
                g != h ==> old(self).live(g) == #[trigger] final(self).live(g),
            forall|g: GlobalObjectId|
                g != h ==> old(self).present(g) == #[trigger] final(self).present(g),
            forall|g: GlobalObjectId|
                g != h && old(self).present(g) ==> old(self).value_of(g)
                    == #[trigger] final(self).value_of(g),
    {
        self.objects.restore(h, object);
        proof {
            assert forall|k: int|
                0 <= k < self.globals@.len() implies self.objects.live(
                #[trigger] self.globals@[k],
            ) by {
                assert(self.globals@[k] == old(self).globals@[k]);
                assert(old(self).objects.live(old(self).globals@[k]));
            }
        }
    }

    /// Delete a slot and hand its object out; stale handles miss.
    ///
    /// The object must not be mid-dispatch, and an advertised global must
    /// be withdrawn before it can be removed.
    pub fn remove(&mut self, h: GlobalObjectId) -> (r: Option<Interface>)
        requires
            old(self).wf(),
            !old(self).taken(h),
            !old(self).spec_is_global(h),
            h != old(self).spec_display_id(),
            h != old(self).spec_registry_id(),
        ensures
            final(self).wf(),
            old(self).present(h) ==> r == Some(old(self).value_of(h)),
            !old(self).present(h) ==> r is None && *final(self) == *old(self),
            !final(self).live(h),
            old(self).present(h) ==> final(self).spec_retired(h),
            forall|g: GlobalObjectId|
                old(self).spec_retired(g) ==> #[trigger] final(self).spec_retired(g),
            final(self).spec_slot_count() == old(self).spec_slot_count(),
            final(self).spec_display_id() == old(self).spec_display_id(),
            final(self).spec_registry_id() == old(self).spec_registry_id(),
            final(self).spec_globals() == old(self).spec_globals(),
            forall|g: GlobalObjectId|
                g != h ==> old(self).live(g) == #[trigger] final(self).live(g),
            forall|g: GlobalObjectId|
                g != h ==> old(self).present(g) == #[trigger] final(self).present(g),
            forall|g: GlobalObjectId|
                g != h && old(self).present(g) ==> old(self).value_of(g)
                    == #[trigger] final(self).value_of(g),
    {
        let r = self.objects.remove(h);
        proof {
            assert(forall|k: int|
                0 <= k < self.globals@.len() ==> #[trigger] self.globals@[k] != h);
        }
        r
    }
}


impl ObjectRegistry {
    /// The position of a handle in the globals list, if advertised.
    fn find_global_pos(&self, h: GlobalObjectId) -> (r: Option<usize>)
        ensures
            match r {
                Some(k) => k < self.spec_globals().len() && self.spec_globals()[k as int] == h
                    && self.spec_is_global(h),
                None => !self.spec_is_global(h),
            },
    {
        let n = self.globals.len();
        let mut i: usize = 0;
        while i < n
            invariant
                i <= n,
                n == self.spec_globals().len(),
                forall|k: int| 0 <= k < i ==> #[trigger] self.globals@[k] != h,
            decreases n - i,
        {
            if self.globals[i] == h {
                return Some(i);
            }
            i = i + 1;
        }
        proof {
            assert(forall|k: int|
                0 <= k < self.spec_globals().len() ==> #[trigger] self.spec_globals()[k] != h);
        }
        None
    }
}

impl ObjectRegistry {
    /// Advertise a present object as a global and broadcast
    /// `wl_registry.global` to every client with a bound registry.
    ///
    /// Idempotent: a handle that is already a global is accepted with no
    /// effect at all. A handle whose object is missing is skipped the
    /// same way. The wire `name` of the global is the handle's stable
    /// slot index.
    pub fn make_global(&mut self, h: GlobalObjectId, clients: &mut Clients) -> (r: Result<
        (),
        MessageError,
    >)
        requires
            old(self).wf(),
            old(clients).wf(),
            h.spec_index() <= 0xFFFF_FFFF,
        ensures
            final(self).wf(),
            final(clients).wf(),
            forall|g: GlobalObjectId| old(self).live(g) == #[trigger] final(self).live(g),
            forall|g: GlobalObjectId| old(self).present(g) == #[trigger] final(self).present(g),
            forall|g: GlobalObjectId|
                old(self).present(g) ==> old(self).value_of(g) == #[trigger] final(self).value_of(g),
            final(self).spec_display_id() == old(self).spec_display_id(),
            final(self).spec_registry_id() == old(self).spec_registry_id(),
            old(self).spec_is_global(h) ==> r is Ok && *final(self) == *old(self) && *final(clients) == *old(clients),
            !old(self).spec_is_global(h) && !old(self).present(h) ==> r is Ok && *final(self)
                == *old(self) && *final(clients) == *old(clients),
            !old(self).spec_is_global(h) && old(self).present(h) && r is Ok ==> final(self).spec_globals() == old(self).spec_globals().push(h) && (forall|j: int|
                0 <= j < old(clients).table().len() ==> match (#[trigger] old(clients).table()[j], final(clients).table()[j]) {
                    (Some(oc), Some(nc)) => notified_global(
                        oc,
                        nc,
                        *old(self),
                        h.spec_index() as u32,
                        crate::protocol::spec_interface_name(old(self).value_of(h)),
                        crate::protocol::spec_interface_version(old(self).value_of(h)),
                    ),
                    (None, None) => true,
                    _ => false,
                }),
            r is Err ==> r == Err::<(), MessageError>(MessageError::OutOfMemory) && final(self).spec_globals() == old(self).spec_globals(),
            (forall|j: int|
                0 <= j < old(clients).table().len() ==> (#[trigger] old(clients).table()[j] matches Some(
                    c,
                ) ==> c.spec_stream().send().bytes().len() + 8 + crate::wire::spec_encode_args(
                    crate::protocol::spec_global_args(
                        h.spec_index() as u32,
                        crate::protocol::spec_interface_name(old(self).value_of(h)),
                        crate::protocol::spec_interface_version(old(self).value_of(h)),
                    ),
                ).len() <= crate::buffer::BUF_SIZE)) ==> r is Ok,
    {
        // Already advertised: nothing to do.
        match self.find_global_pos(h) {
            Some(_) => {
                return Ok(());
            },
            None => {},
        }

        let name_u32: u32;
        let iface_name: Vec<u8>;
        let version: u32;
        match self.objects.get(h) {
            Some(object) => {
                iface_name = object.name_bytes();
                version = object.version();
                name_u32 = h.index() as u32;
            },
            None => {
                return Ok(());
            },
        }

        let res = clients.broadcast_global(self, name_u32, &iface_name, version);
        match res {
            Ok(()) => {
                self.globals.push(h);
                proof {
                    assert(forall|k: int|
                        0 <= k < old(self).globals@.len() ==> #[trigger] self.globals@[k] == old(self).globals@[k]);
                    assert(forall|k: int|
                        0 <= k < self.globals@.len() ==> self.objects.live(
                            #[trigger] self.globals@[k],
                        ));
                }
                Ok(())
            },
            Err(e) => Err(e),
        }
    }

    /// Withdraw a global: broadcast `wl_registry.global_remove` to every
    /// client with a bound registry, then drop the handle from the
    /// globals list by swap-removal.
    ///
    /// Idempotent: a handle that is not advertised is accepted with no
    /// effect at all. The slot itself stays live; removing the object is
    /// a separate step.
    pub fn remove_global(&mut self, h: GlobalObjectId, clients: &mut Clients) -> (r: Result<
        (),
        MessageError,
    >)
        requires
            old(self).wf(),
            old(clients).wf(),
            h.spec_index() <= 0xFFFF_FFFF,
        ensures
            final(self).wf(),
            final(clients).wf(),
            forall|g: GlobalObjectId| old(self).live(g) == #[trigger] final(self).live(g),
            forall|g: GlobalObjectId| old(self).present(g) == #[trigger] final(self).present(g),
            forall|g: GlobalObjectId|
                old(self).present(g) ==> old(self).value_of(g) == #[trigger] final(self).value_of(g),
            final(self).spec_display_id() == old(self).spec_display_id(),
            final(self).spec_registry_id() == old(self).spec_registry_id(),
            !old(self).spec_is_global(h) ==> r is Ok && *final(self) == *old(self) && *final(clients) == *old(clients),
            old(self).spec_is_global(h) && r is Ok ==> !final(self).spec_is_global(h) && final(self).spec_globals().len() == old(self).spec_globals().len() - 1 && (forall|
                g: GlobalObjectId,
            |
                g != h ==> old(self).spec_globals().contains(g) == #[trigger] final(self).spec_globals().contains(g)) && (forall|j: int|
                0 <= j < old(clients).table().len() ==> match (#[trigger] old(clients).table()[j], final(clients).table()[j]) {
                    (Some(oc), Some(nc)) => notified_global_remove(
                        oc,
                        nc,
                        *old(self),
                        h.spec_index() as u32,
                    ),
                    (None, None) => true,
                    _ => false,
                }),
            r is Err ==> r == Err::<(), MessageError>(MessageError::OutOfMemory) && final(self).spec_globals() == old(self).spec_globals(),
            (forall|j: int|
                0 <= j < old(clients).table().len() ==> (#[trigger] old(clients).table()[j] matches Some(
                    c,
                ) ==> c.spec_stream().send().bytes().len() + 12 <= crate::buffer::BUF_SIZE))
                ==> r is Ok,
    {
        let pos: usize;
        match self.find_global_pos(h) {
            Some(k) => {
                pos = k;
            },
            None => {
                return Ok(());
            },
        }

        let name_u32: u32 = h.index() as u32;
        let res = clients.broadcast_global_remove(self, name_u32);
        match res {
            Ok(()) => {
                let ghost g0 = self.globals@;
                self.globals.swap_remove(pos);
                proof {
                    lemma_swap_remove_distinct(g0, pos as int, h);
                    assert(self.globals@ =~= g0.update(pos as int, g0.last()).drop_last());
                    assert(forall|k: int|
                        0 <= k < self.globals@.len() ==> self.objects.live(
                            #[trigger] self.globals@[k],
                        ));
                }
                Ok(())
            },
            Err(e) => Err(e),
        }
    }
}

/// Swap-removing one occurrence of `h` from a duplicate-free list keeps
/// it duplicate-free, drops `h`, and keeps every other element.
proof fn lemma_swap_remove_distinct(g: Seq<GlobalObjectId>, pos: int, h: GlobalObjectId)
    requires
        0 <= pos < g.len(),
        g[pos] == h,
        forall|k1: int, k2: int|
            0 <= k1 < g.len() && 0 <= k2 < g.len() && k1 != k2 ==> g[k1] != g[k2],
    ensures
        ({
            let ng = g.update(pos, g.last()).drop_last();
            &&& forall|k1: int, k2: int|
                0 <= k1 < ng.len() && 0 <= k2 < ng.len() && k1 != k2 ==> ng[k1] != ng[k2]
            &&& !ng.contains(h)
            &&& forall|x: GlobalObjectId| x != h ==> g.contains(x) == #[trigger] ng.contains(x)
        }),
{
    let ng = g.update(pos, g.last()).drop_last();
    let n = g.len() as int;
    assert(forall|j: int|
        0 <= j < n - 1 ==> #[trigger] ng[j] == (if j == pos {
            g[n - 1]
        } else {
            g[j]
        }));
    assert forall|k1: int, k2: int|
        0 <= k1 < ng.len() && 0 <= k2 < ng.len() && k1 != k2 implies ng[k1] != ng[k2] by {
        let m1: int = if k1 == pos { n - 1 } else { k1 };
        let m2: int = if k2 == pos { n - 1 } else { k2 };
        assert(ng[k1] == g[m1] && ng[k2] == g[m2] && m1 != m2);
    }
    assert forall|j: int| 0 <= j < ng.len() implies ng[j] != h by {
        let m: int = if j == pos { n - 1 } else { j };
        assert(ng[j] == g[m]);
        if m != pos {
            assert(g[m] != g[pos]);
        } else {
            assert(j == pos && pos == n - 1);
        }
    }
    assert(!ng.contains(h));
    assert forall|x: GlobalObjectId| x != h implies g.contains(x) == #[trigger] ng.contains(
        x,
    ) by {
        if g.contains(x) {
            let j = choose|j: int| 0 <= j < n && g[j] == x;
            if j == n - 1 {
                // x sits at the end; it lands at `pos` unless it was h.
                assert(pos < n - 1 ==> ng[pos] == x);
                assert(pos == n - 1 ==> g[pos] == x && x == h);
                assert(ng.contains(x));
            } else if j == pos {
                assert(x == h);
            } else {
                assert(ng[j] == x);
                assert(ng.contains(x));
            }
        }
        if ng.contains(x) {
            let j = choose|j: int| 0 <= j < ng.len() && ng[j] == x;
            let m: int = if j == pos { n - 1 } else { j };
            assert(g[m] == x);
            assert(g.contains(x));
        }
    }
}

/// Every bound id of a client table addresses a live registry slot.
///
/// This is the cross-table invariant of the gateway: a client's handle
/// never dangles, so resolving any bound id yields an object (or a
/// tombstone while that object is mid-dispatch), never a recycled
/// stranger — the handle generations see to the rest.
pub open spec fn bindings_live(t: Seq<Option<GlobalObjectId>>, reg: ObjectRegistry) -> bool {
    forall|i: int|
        0 <= i < t.len() ==> (#[trigger] t[i] matches Some(h) ==> reg.live(h))
}

/// Law: live bindings survive any registry change that keeps live
/// slots live.
pub proof fn lemma_bindings_live_mono(
    t: Seq<Option<GlobalObjectId>>,
    a: ObjectRegistry,
    b: ObjectRegistry,
)
    requires
        bindings_live(t, a),
        forall|h: GlobalObjectId| a.live(h) ==> #[trigger] b.live(h),
    ensures
        bindings_live(t, b),
{
    assert forall|i: int|
        0 <= i < t.len() implies (#[trigger] t[i] matches Some(h) ==> b.live(h)) by {
        match t[i] {
            Some(h) => {
                assert(a.live(h));
            },
            None => {},
        }
    }
}

/// Law: registering a live handle (or a null binding) keeps every
/// binding of the table live.
pub proof fn lemma_bindings_live_registered(
    t: Seq<Option<GlobalObjectId>>,
    reg: ObjectRegistry,
    idraw: u32,
    x: Option<GlobalObjectId>,
)
    requires
        bindings_live(t, reg),
        idraw <= t.len(),
        x matches Some(g) ==> reg.live(g),
    ensures
        bindings_live(spec_registered(t, idraw, x), reg),
{
    let t1 = spec_registered(t, idraw, x);
    assert forall|i: int|
        0 <= i < t1.len() implies (#[trigger] t1[i] matches Some(h) ==> reg.live(h)) by {
        if i < t.len() && i != idraw {
            assert(t1[i] == t[i]);
            match t[i] {
                Some(h) => {
                    assert(reg.live(h));
                },
                None => {},
            }
        } else {
            assert(t1[i] == x);
        }
    }
}

} // verus!
