//! Input integration: seats and their lifecycle.
//!
//! A seat aggregates the input devices of one user. Creating a seat
//! publishes a `wl_seat` global, which broadcasts `wl_registry.global`
//! to every client with a bound registry; destroying it broadcasts
//! `wl_registry.global_remove`.

use vstd::prelude::*;
use vstd::string::StringSliceAdditionalSpecFns;

use crate::client::{notified_global, notified_global_remove, Clients};
use crate::error::MessageError;
use crate::protocol::{Interface, WlSeat};
use crate::registry::ObjectRegistry;
use crate::store::{GlobalObjectId, SlotStore};

verus! {

broadcast use
    crate::store::SlotStore::lemma_present_live,
    crate::registry::ObjectRegistry::lemma_present_live;

/// A stable handle naming one seat in the input state.
pub type SeatId = GlobalObjectId;

/// The keyboard capability bit of `wl_seat`.
pub const CAP_KEYBOARD: u32 = 2;

/// The pointer capability bit of `wl_seat`.
pub const CAP_POINTER: u32 = 1;

/// The touch capability bit of `wl_seat`.
pub const CAP_TOUCH: u32 = 4;

/// One seat: its capability bits and the registry handle of its
/// published `wl_seat` global, once it has one.
pub struct Seat {
    pub capabilities: u32,
    pub object_id: Option<GlobalObjectId>,
}

/// The table of live seats.
pub struct InputState {
    seats: SlotStore<Seat>,
}

impl InputState {
    pub closed spec fn seat_present(&self, id: SeatId) -> bool {
        self.seats.present(id)
    }

    pub closed spec fn seat_of(&self, id: SeatId) -> Seat {
        self.seats.value_of(id)
    }

    pub closed spec fn wf(&self) -> bool {
        &&& self.seats.wf()
        &&& forall|id: SeatId| !(#[trigger] self.seats.taken(id))
    }

    pub fn new() -> (r: InputState)
        ensures
            r.wf(),
            forall|id: SeatId| !(#[trigger] r.seat_present(id)),
    {
        InputState { seats: SlotStore::new() }
    }
}

/// Create a seat: remember it in the input state, publish a `wl_seat`
/// object and advertise it as a global, broadcasting exactly one
/// `wl_registry.global` naming `wl_seat` to every client with a bound
/// registry.
///
/// Succeeds whenever the slot space still yields 32-bit wire names and
/// every connected client's send buffer has room for the announcement
/// frame. Fails with `OutOfMemory` when some client's send buffer
/// cannot take the announcement; the seat and its object exist then,
/// but the global is not advertised.
pub fn create_seat(
    state: &mut InputState,
    registry: &mut ObjectRegistry,
    clients: &mut Clients,
    capabilities: u32,
) -> (r: Result<SeatId, MessageError>)
    requires
        old(state).wf(),
        old(registry).wf(),
        old(clients).wf(),
    ensures
        final(state).wf(),
        final(registry).wf(),
        final(clients).wf(),
        forall|h: GlobalObjectId|
            old(registry).present(h) ==> #[trigger] final(registry).present(h),
        forall|h: GlobalObjectId|
            old(registry).present(h) ==> old(registry).value_of(h) == #[trigger] final(registry).value_of(h),
        r matches Ok(seat_id) ==> final(state).seat_present(seat_id) && final(state).seat_of(
            seat_id,
        ).capabilities == capabilities && (final(state).seat_of(seat_id).object_id matches Some(
            g,
        ) && final(registry).present(g) && final(registry).value_of(g) == Interface::WlSeat(
            WlSeat { id: seat_id },
        ) && final(registry).spec_is_global(g)),
        r matches Ok(seat_id) ==> forall|j: int|
            0 <= j < old(clients).table().len() ==> match (#[trigger] old(clients).table()[j],
            final(clients).table()[j]) {
                (Some(oc), Some(nc)) => notified_global(
                    oc,
                    nc,
                    *old(registry),
                    final(state).seat_of(seat_id).object_id->0.spec_index() as u32,
                    "wl_seat".spec_bytes(),
                    5,
                ),
                (None, None) => true,
                _ => false,
            },
        r is Err ==> r == Err::<SeatId, MessageError>(MessageError::OutOfMemory),
        (old(registry).spec_slot_count() < 0x1_0000_0000 && (forall|j: int|
            0 <= j < old(clients).table().len() ==> (#[trigger] old(clients).table()[j] matches Some(
                c,
            ) ==> c.spec_stream().send().bytes().len() + 20 + crate::wire::spec_padded(
                "wl_seat".spec_bytes().len() as int + 1,
            ) <= crate::buffer::BUF_SIZE))) ==> r is Ok,
{
    let seat = Seat { capabilities, object_id: None };
    let seat_id = state.seats.insert(seat);
    proof {
        assert forall|sid: SeatId| !(#[trigger] state.seats.taken(sid)) by {
            if sid == seat_id {
                assert(state.seats.present(sid));
            } else {
                assert(!old(state).seats.taken(sid));
                assert(state.seats.live(sid) == old(state).seats.live(sid));
                assert(state.seats.present(sid) == old(state).seats.present(sid));
            }
        }
    }

    let ghost regpre: ObjectRegistry = *registry;
    let g = registry.insert(Interface::WlSeat(WlSeat { id: seat_id }));
    proof {
        assert forall|h: GlobalObjectId|
            old(registry).present(h) implies #[trigger] registry.present(h) by {
            if h != g {
                assert(registry.present(h) == regpre.present(h));
            } else {
                assert(!regpre.live(h));
            }
        }
        assert forall|h: GlobalObjectId|
            old(registry).present(h) implies old(registry).value_of(h)
            == #[trigger] registry.value_of(h) by {
            assert(regpre == *old(registry));
            if h != g {
                assert(regpre.present(h));
                assert(registry.present(h) == regpre.present(h));
                assert(registry.value_of(h) == regpre.value_of(h));
                assert(old(registry).value_of(h) == regpre.value_of(h));
            } else {
                assert(!regpre.live(h));
                assert(!regpre.present(h));
            }
        }
    }
    let ghost regmid: ObjectRegistry = *registry;
    if g.index() > 0xFFFF_FFFF {
        // The slot index no longer fits the 32-bit wire name space.
        return Err(MessageError::OutOfMemory);
    }
    proof {
        assert forall|k: int|
            0 <= k < registry.spec_globals().len() implies #[trigger] registry.spec_globals()[k]
            != g by {
            regpre.lemma_globals_live(k);
            assert(regpre.live(regpre.spec_globals()[k]));
        }
        assert(!registry.spec_is_global(g));
        crate::protocol::lemma_global_args_len(
            g.spec_index() as u32,
            crate::protocol::spec_interface_name(regmid.value_of(g)),
            crate::protocol::spec_interface_version(regmid.value_of(g)),
        );
        assert(crate::protocol::spec_interface_name(regmid.value_of(g))
            == "wl_seat".spec_bytes());
    }
    let res = registry.make_global(g, clients);
    proof {
        assert forall|h: GlobalObjectId|
            old(registry).present(h) implies #[trigger] registry.present(h) by {
            assert(regmid.present(h) == registry.present(h));
        }
        assert forall|h: GlobalObjectId|
            old(registry).present(h) implies old(registry).value_of(h)
            == #[trigger] registry.value_of(h) by {
            assert(regmid.present(h) == registry.present(h));
            if regmid.present(h) {
                assert(regmid.value_of(h) == registry.value_of(h));
            }
        }
    }
    if let Err(e) = res {
        return Err(e);
    }
    proof {
        assert(registry.spec_globals().contains(g)) by {
            assert(registry.spec_globals().last() == g);
        }
    }
    let ghost seats_pre = state.seats;
    state.seats.restore(seat_id, Seat { capabilities, object_id: Some(g) });
    proof {
        assert forall|sid: SeatId| !(#[trigger] state.seats.taken(sid)) by {
            if sid == seat_id {
                assert(state.seats.present(sid));
            } else {
                assert(!seats_pre.taken(sid));
                assert(state.seats.live(sid) == seats_pre.live(sid));
                assert(state.seats.present(sid) == seats_pre.present(sid));
            }
        }
        // The broadcast was made against the registry that already held
        // the seat object; since a seat is no registry object, each
        // client's registry binding is the same one seen from the
        // caller's registry state.
        assert forall|j: int| 0 <= j < old(clients).table().len() implies match ((
        #[trigger] old(clients).table()[j]), clients.table()[j]) {
            (Some(oc), Some(nc)) => notified_global(
                oc,
                nc,
                *old(registry),
                g.spec_index() as u32,
                "wl_seat".spec_bytes(),
                5,
            ),
            (None, None) => true,
            _ => false,
        } by {
            match (old(clients).table()[j], clients.table()[j]) {
                (Some(oc), Some(nc)) => {
                    assert(notified_global(
                        oc,
                        nc,
                        regmid,
                        g.spec_index() as u32,
                        crate::protocol::spec_interface_name(regmid.value_of(g)),
                        crate::protocol::spec_interface_version(regmid.value_of(g)),
                    ));
                    crate::registry::lemma_first_registry_insensitive(
                        oc.spec_objects().table(),
                        regmid,
                        *old(registry),
                        g,
                        0,
                    );
                },
                _ => {},
            }
        }
    }
    Ok(seat_id)
}

/// Destroy a seat: forget it and withdraw its `wl_seat` global,
/// broadcasting exactly one `wl_registry.global_remove`, carrying the
/// same wire name the seat's announcement carried, to every client
/// with a bound registry.
///
/// Succeeds whenever every connected client's send buffer has room
/// for the 12-byte removal frame. A seat id that is not live is
/// ignored.
pub fn destroy_seat(
    state: &mut InputState,
    registry: &mut ObjectRegistry,
    clients: &mut Clients,
    id: SeatId,
) -> (r: Result<(), MessageError>)
    requires
        old(state).wf(),
        old(registry).wf(),
        old(clients).wf(),
    ensures
        final(state).wf(),
        final(registry).wf(),
        final(clients).wf(),
        !final(state).seat_present(id),
        forall|h: GlobalObjectId|
            old(registry).present(h) ==> #[trigger] final(registry).present(h),
        forall|h: GlobalObjectId|
            old(registry).present(h) ==> old(registry).value_of(h) == #[trigger] final(registry).value_of(h),
        old(state).seat_present(id) && (old(state).seat_of(id).object_id matches Some(g)
            && g.spec_index() <= 0xFFFF_FFFF) && r is Ok ==> !final(registry).spec_is_global(
            old(state).seat_of(id).object_id->0,
        ),
        old(state).seat_present(id) && old(state).seat_of(id).object_id is Some && old(
            state,
        ).seat_of(id).object_id->0.spec_index() <= 0xFFFF_FFFF && old(registry).spec_is_global(
            old(state).seat_of(id).object_id->0,
        ) && r is Ok ==> forall|j: int|
            0 <= j < old(clients).table().len() ==> match (#[trigger] old(clients).table()[j],
            final(clients).table()[j]) {
                (Some(oc), Some(nc)) => notified_global_remove(
                    oc,
                    nc,
                    *old(registry),
                    old(state).seat_of(id).object_id->0.spec_index() as u32,
                ),
                (None, None) => true,
                _ => false,
            },
        ((old(state).seat_present(id) && old(state).seat_of(id).object_id is Some ==> old(
            state,
        ).seat_of(id).object_id->0.spec_index() <= 0xFFFF_FFFF) && (forall|j: int|
            0 <= j < old(clients).table().len() ==> (#[trigger] old(clients).table()[j] matches Some(
                c,
            ) ==> c.spec_stream().send().bytes().len() + 12 <= crate::buffer::BUF_SIZE)))
            ==> r is Ok,
        r is Err ==> r == Err::<(), MessageError>(MessageError::OutOfMemory),
{
    let removed = state.seats.remove(id);
    proof {
        assert forall|sid: SeatId| !(#[trigger] state.seats.taken(sid)) by {
            if sid == id {
                assert(!state.seats.live(sid));
            } else {
                assert(!old(state).seats.taken(sid));
                assert(state.seats.live(sid) == old(state).seats.live(sid));
                assert(state.seats.present(sid) == old(state).seats.present(sid));
            }
        }
    }
    match removed {
        Some(seat) => {
            match seat.object_id {
                Some(g) => {
                    if g.index() > 0xFFFF_FFFF {
                        return Err(MessageError::OutOfMemory);
                    }
                    let res = registry.remove_global(g, clients);
                    if let Err(e) = res {
                        return Err(e);
                    }
                    proof {
                        if old(registry).spec_is_global(g) {
                            assert(!registry.spec_is_global(g));
                        } else {
                            assert(!registry.spec_is_global(g));
                        }
                    }
                    Ok(())
                },
                None => Ok(()),
            }
        },
        None => Ok(()),
    }
}

} // verus!
