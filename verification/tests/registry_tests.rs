//! The object registry: generational handles, the take/restore
//! discipline, and the client object table.

use carbon::error::MessageError;
use carbon::protocol::{Interface, WlBuffer, WlRegion, WlSurface};
use carbon::registry::{ClientObjects, ObjectId, ObjectRegistry};

#[test]
fn object_id_zero_is_null() {
    assert!(ObjectId::new(0).is_none());
    let id = ObjectId::new(7).expect("nonzero ids wrap");
    assert_eq!(id.raw(), 7);
}

#[test]
fn insert_get_take_restore_remove() {
    let mut reg = ObjectRegistry::new();
    let h = reg.insert(Interface::WlBuffer(WlBuffer));
    assert!(matches!(reg.get(h), Some(Interface::WlBuffer(_))));

    let taken = reg.take(h).expect("present objects can be taken");
    assert!(reg.get(h).is_none(), "a taken slot reads as missing");
    assert!(reg.take(h).is_none(), "a second take yields nothing");

    reg.restore(h, taken);
    assert!(matches!(reg.get(h), Some(Interface::WlBuffer(_))));

    let removed = reg.remove(h).expect("present objects can be removed");
    assert!(matches!(removed, Interface::WlBuffer(_)));
    assert!(reg.get(h).is_none());
}

#[test]
fn stale_handles_miss_recycled_slots() {
    let mut reg = ObjectRegistry::new();
    let first = reg.insert(Interface::WlBuffer(WlBuffer));
    reg.remove(first).expect("removable");

    // The slot is reused, but under a new generation.
    let second = reg.insert(Interface::WlRegion(WlRegion));
    assert_eq!(second.index(), first.index(), "the slot index is reused");
    assert!(reg.get(first).is_none(), "the stale handle does not alias");
    assert!(matches!(reg.get(second), Some(Interface::WlRegion(_))));
}

#[test]
fn register_fills_append_or_empty_slots_only() {
    let reg = ObjectRegistry::new();
    let mut objects = ClientObjects::new(reg.display_id());

    // Appending at the next index works; skipping ahead does not.
    let id2 = ObjectId::new(2).unwrap();
    let id4 = ObjectId::new(4).unwrap();
    assert_eq!(objects.register(id4, None), Err(MessageError::InvalidObject));
    assert_eq!(objects.register(id2, None), Ok(()));

    // A live slot cannot be reused.
    let id1 = ObjectId::new(1).unwrap();
    assert_eq!(objects.register(id1, None), Err(MessageError::InvalidObject));
}

#[test]
fn iter_yields_live_pairs() {
    let mut reg = ObjectRegistry::new();
    let mut objects = ClientObjects::new(reg.display_id());
    let h = reg.insert(Interface::WlSurface(WlSurface));
    objects.register(ObjectId::new(2).unwrap(), Some(h)).unwrap();
    // Slot 3 is registered as a null-handle callback slot.
    objects.register(ObjectId::new(3).unwrap(), None).unwrap();

    let pairs = objects.iter();
    assert_eq!(pairs.len(), 2);
    assert_eq!(pairs[0].0.raw(), 1);
    assert_eq!(pairs[0].1, reg.display_id());
    assert_eq!(pairs[1].0.raw(), 2);
    assert_eq!(pairs[1].1, h);
}

#[test]
fn the_default_globals_are_advertised_in_order() {
    let reg = ObjectRegistry::new();
    let globals = reg.globals();
    assert_eq!(globals.len(), 5);
    let names: Vec<Vec<u8>> = globals
        .iter()
        .map(|g| reg.get(*g).expect("globals are present").name_bytes())
        .collect();
    assert_eq!(
        names,
        vec![
            b"wl_compositor".to_vec(),
            b"wl_shm".to_vec(),
            b"wl_data_device_manager".to_vec(),
            b"wl_subcompositor".to_vec(),
            b"xdg_wm_base".to_vec(),
        ]
    );
}
