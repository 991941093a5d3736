//! The generated-code layout: casing, table order and row padding.

use carbon::codegen::{layout, pascal_case};
use carbon::scanner::{Callable, InterfaceDef, Protocol};

#[test]
fn pascal_case_splits_snake_words() {
    assert_eq!(pascal_case(&b"wl_shm_pool".to_vec()), b"WlShmPool".to_vec());
    assert_eq!(pascal_case(&b"xdg_wm_base".to_vec()), b"XdgWmBase".to_vec());
    assert_eq!(pascal_case(&b"90".to_vec()), b"90".to_vec());
    assert_eq!(pascal_case(&b"".to_vec()), b"".to_vec());
}

#[test]
fn layout_pads_dispatch_rows_to_the_widest_interface() {
    let p = Protocol {
        name: b"core".to_vec(),
        interfaces: vec![
            InterfaceDef {
                name: b"wl_display".to_vec(),
                version: 1,
                requests: vec![
                    Callable { name: b"sync".to_vec(), args: vec![] },
                    Callable { name: b"get_registry".to_vec(), args: vec![] },
                ],
                events: vec![],
                enums: vec![],
            },
            InterfaceDef {
                name: b"wl_callback".to_vec(),
                version: 3,
                requests: vec![],
                events: vec![],
                enums: vec![],
            },
        ],
    };
    let t = layout(&vec![p]);
    assert_eq!(t.width, 2);
    assert_eq!(t.names, vec![b"wl_display".to_vec(), b"wl_callback".to_vec()]);
    assert_eq!(t.versions, vec![1, 3]);
    assert_eq!(t.rows.len(), 2);
    assert_eq!(t.rows[0].len(), 2);
    assert_eq!(t.rows[1].len(), 2);
    let c0 = t.rows[0][0].as_ref().expect("opcode 0 of wl_display is filled");
    assert_eq!(c0.interface, b"wl_display".to_vec());
    assert_eq!(c0.request, b"sync".to_vec());
    let c1 = t.rows[0][1].as_ref().expect("opcode 1 of wl_display is filled");
    assert_eq!(c1.request, b"get_registry".to_vec());
    assert!(t.rows[1][0].is_none(), "wl_callback has no requests");
    assert!(t.rows[1][1].is_none(), "padding cells are empty");
}
