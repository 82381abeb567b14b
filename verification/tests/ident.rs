use embedded_toolbox::error::{ContextValue, ErrorCode, ErrorSeverity, ToolboxError};
use embedded_toolbox::ident::Uuid;
use embedded_toolbox::idmap::IdMap;

const TEXT: &str = "00112233-4455-6677-8899-aabbccddeeff";
const VALUE: u128 = 0x0011_2233_4455_6677_8899_aabb_ccdd_eeff;

#[test]
fn identifiers_are_read_and_written() {
    let id = Uuid { value: VALUE };
    assert_eq!(id.to_text(), TEXT);
    assert_eq!(Uuid::parse_str(TEXT), Some(id));
    assert_eq!(Uuid::parse_str("nonsense"), None);
    assert_eq!(Uuid::nil().to_text(), "00000000-0000-0000-0000-000000000000");
    assert_eq!(id.to_bytes()[..3], [0x00, 0x11, 0x22]);
    assert_eq!(id.to_bytes().len(), 16);
}

#[test]
fn fresh_identifiers_say_their_version() {
    let id = Uuid::now_v7();
    assert_eq!((id.value >> 76) & 0xf, 7);
    assert_eq!((id.value >> 62) & 0x3, 2);
    assert_ne!(Uuid::now_v7(), Uuid::now_v7());
    assert_eq!(Uuid::parse_str(&id.to_text()), Some(id));
}

#[test]
fn maps_are_ordered_by_identifier() {
    let id = |value| Uuid { value };
    let mut map = IdMap::new();
    assert!(map.is_empty());
    for value in [5, 1, 3] {
        map.insert(id(value), value * 10);
    }
    map.insert(id(3), 33);
    assert_eq!(map.len(), 3);
    let entries: Vec<(u128, u128)> = (0..3)
        .map(|i| map.entry(i))
        .map(|(id, value)| (id.value, *value))
        .collect();
    assert_eq!(entries, [(1, 10), (3, 33), (5, 50)]);
    *map.get_mut(id(5)).unwrap() += 1;
    assert_eq!(map.get(id(5)), Some(&51));
    assert!(map.get_mut(id(4)).is_none());
    assert_eq!(map.remove(id(1)), Some(10));
    assert_eq!(map.remove(id(1)), None);
    assert!(!map.contains(id(1)));
    assert_eq!(map.copied().len(), 2);
}

#[test]
fn errors_carry_their_circumstances() {
    let error = ToolboxError::new(ErrorCode::DeviceRead, "device.read", "serial_read_failed")
        .source(Uuid { value: VALUE })
        .cause("broken".to_string())
        .context("bytes", ContextValue::Unsigned(3));
    assert_eq!(error.code, "E_DEVICE_READ");
    assert_eq!(error.severity, ErrorSeverity::Error);
    assert!(error.recoverable);
    assert_eq!(error.source_id, Some(Uuid { value: VALUE }));
    assert_eq!(error.cause.as_deref(), Some("broken"));
    assert_eq!(error.context.len(), 1);
    assert_eq!(error.context[0].0, "bytes");
}
