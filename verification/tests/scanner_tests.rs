//! The protocol-description scanner: number parsing, type resolution,
//! and a whole small document.

use carbon::scanner::{
    parse_entry_value, parse_u32_dec, parse_u32_hex, Argument, ProtocolParser, ScanError,
    ValueType, XmlEvent,
};

fn attrs(pairs: &[(&str, &str)]) -> Vec<(Vec<u8>, Vec<u8>)> {
    pairs.iter().map(|(k, v)| (k.as_bytes().to_vec(), v.as_bytes().to_vec())).collect()
}

#[test]
fn decimal_parsing_is_exact() {
    assert_eq!(parse_u32_dec(&b"0".to_vec()), Some(0));
    assert_eq!(parse_u32_dec(&b"42".to_vec()), Some(42));
    assert_eq!(parse_u32_dec(&b"4294967295".to_vec()), Some(u32::MAX));
    assert_eq!(parse_u32_dec(&b"4294967296".to_vec()), None);
    assert_eq!(parse_u32_dec(&b"".to_vec()), None);
    assert_eq!(parse_u32_dec(&b"12a".to_vec()), None);
}

#[test]
fn hex_parsing_is_exact() {
    assert_eq!(parse_u32_hex(&b"ff".to_vec()), Some(255));
    assert_eq!(parse_u32_hex(&b"FF".to_vec()), Some(255));
    assert_eq!(parse_u32_hex(&b"10".to_vec()), Some(16));
    assert_eq!(parse_u32_hex(&b"".to_vec()), None);
    assert_eq!(parse_u32_hex(&b"g1".to_vec()), None);
}

#[test]
fn entry_values_take_decimal_or_prefixed_hex() {
    assert_eq!(parse_entry_value(&b"7".to_vec()), Some(7));
    assert_eq!(parse_entry_value(&b"0x1c".to_vec()), Some(28));
    assert_eq!(parse_entry_value(&b"zzz".to_vec()), None);
}

#[test]
fn value_types_resolve_per_the_grammar() {
    assert!(matches!(ValueType::parse(&b"int".to_vec(), None, false), Some(ValueType::I32)));
    assert!(matches!(ValueType::parse(&b"uint".to_vec(), None, false), Some(ValueType::U32)));
    assert!(matches!(ValueType::parse(&b"fixed".to_vec(), None, false), Some(ValueType::Fixed)));
    assert!(matches!(ValueType::parse(&b"fd".to_vec(), None, false), Some(ValueType::Fd)));
    // int, uint, fixed and fd refuse allow-null.
    assert!(ValueType::parse(&b"int".to_vec(), None, true).is_none());
    assert!(ValueType::parse(&b"fd".to_vec(), None, true).is_none());
    match ValueType::parse(&b"string".to_vec(), None, true) {
        Some(ValueType::Str { optional }) => assert!(optional),
        _ => panic!("string resolves to a string type"),
    }
    match ValueType::parse(&b"new_id".to_vec(), Some(b"wl_surface".to_vec()), false) {
        Some(ValueType::ObjectId { interface: Some(i), optional }) => {
            assert_eq!(i, b"wl_surface");
            assert!(!optional);
        },
        _ => panic!("new_id carries its interface"),
    }
    assert!(ValueType::parse(&b"weird".to_vec(), None, false).is_none());
}

#[test]
fn a_small_document_builds_its_model() {
    let mut p = ProtocolParser::new();
    let events = vec![
        XmlEvent::Start { name: b"protocol".to_vec(), attrs: attrs(&[("name", "demo")]) },
        XmlEvent::Start {
            name: b"interface".to_vec(),
            attrs: attrs(&[("name", "demo_thing"), ("version", "3")]),
        },
        XmlEvent::Start { name: b"request".to_vec(), attrs: attrs(&[("name", "set_mode")]) },
        XmlEvent::Empty {
            name: b"arg".to_vec(),
            attrs: attrs(&[("name", "mode"), ("type", "uint"), ("enum", "mode")]),
        },
        XmlEvent::End { name: b"request".to_vec() },
        XmlEvent::Start { name: b"enum".to_vec(), attrs: attrs(&[("name", "mode")]) },
        XmlEvent::Empty {
            name: b"entry".to_vec(),
            attrs: attrs(&[("name", "fast"), ("value", "0x10")]),
        },
        XmlEvent::End { name: b"enum".to_vec() },
        XmlEvent::End { name: b"interface".to_vec() },
        XmlEvent::End { name: b"protocol".to_vec() },
    ];
    let mut more = true;
    for ev in &events {
        assert!(more, "document should not have ended yet");
        more = p.handle_event(ev).expect("well-formed document");
    }
    assert!(!more);
    let protocol = p.finish().expect("a protocol was scanned");
    assert_eq!(protocol.name, b"demo");
    assert_eq!(protocol.interfaces.len(), 1);
    let iface = &protocol.interfaces[0];
    assert_eq!(iface.name, b"demo_thing");
    assert_eq!(iface.version, 3);
    assert_eq!(iface.requests.len(), 1);
    assert_eq!(iface.requests[0].name, b"set_mode");
    assert_eq!(iface.requests[0].args.len(), 1);
    match &iface.requests[0].args[0].value_type {
        ValueType::Enum { interface, name } => {
            assert_eq!(interface, b"demo_thing");
            assert_eq!(name, b"mode");
        },
        _ => panic!("the enum attribute refines the uint"),
    }
    assert_eq!(iface.enums.len(), 1);
    assert_eq!(iface.enums[0].name, b"mode");
    assert_eq!(iface.enums[0].entries, vec![(b"fast".to_vec(), 0x10)]);
}

#[test]
fn unexpected_tags_are_rejected() {
    let mut p = ProtocolParser::new();
    let r = p.handle_event(&XmlEvent::Start {
        name: b"interface".to_vec(),
        attrs: attrs(&[("name", "x"), ("version", "1")]),
    });
    assert_eq!(r.unwrap_err(), ScanError::UnexpectedTag);

    let mut p = ProtocolParser::new();
    p.handle_event(&XmlEvent::Start {
        name: b"protocol".to_vec(),
        attrs: attrs(&[("name", "demo")]),
    })
    .unwrap();
    let r = p.handle_event(&XmlEvent::Eof);
    assert_eq!(r.unwrap_err(), ScanError::UnexpectedEof);
}

#[test]
fn missing_attributes_are_rejected() {
    let mut p = ProtocolParser::new();
    let r = p.handle_event(&XmlEvent::Start { name: b"protocol".to_vec(), attrs: attrs(&[]) });
    assert_eq!(r.unwrap_err(), ScanError::MissingAttribute);
}

#[test]
fn qualified_enum_attribute_splits_at_the_dot() {
    let a = ProtocolParser::create_arg(
        &b"demo_thing".to_vec(),
        &attrs(&[("name", "m"), ("type", "uint"), ("enum", "wl_output.transform")]),
    )
    .expect("valid arg");
    let Argument { name, value_type } = a;
    assert_eq!(name, b"m");
    match value_type {
        ValueType::Enum { interface, name } => {
            assert_eq!(interface, b"wl_output");
            assert_eq!(name, b"transform");
        },
        _ => panic!("expected an enum type"),
    }
}
