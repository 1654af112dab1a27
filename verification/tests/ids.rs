use std::collections::HashSet;

use takos_agent_engine::ids::{AbstractNodeId, LoopId, RawNodeId, SessionId, Uuid};

#[test]
fn new_ids_are_unique() {
    let a = SessionId::new();
    let b = SessionId::new();
    assert_ne!(a, b);
}

#[test]
fn default_produces_unique_ids() {
    let a = LoopId::default();
    let b = LoopId::default();
    assert_ne!(a, b);
}

#[test]
fn display_matches_inner_uuid() {
    let id = RawNodeId::new();
    assert_eq!(id.to_string(), id.0.to_string());
}

#[test]
fn from_str_roundtrip() {
    let original = AbstractNodeId::new();
    let text = original.to_string();
    let parsed: AbstractNodeId = text.parse().unwrap();
    assert_eq!(original, parsed);
}

#[test]
fn from_str_invalid_returns_error() {
    let result = "not-a-uuid".parse::<SessionId>();
    assert!(result.is_err());
}

#[test]
fn equality_and_clone() {
    let id = LoopId::new();
    let cloned = id;
    assert_eq!(id, cloned);
}

#[test]
fn ids_are_hashable() {
    let id = RawNodeId::new();
    let mut set = HashSet::new();
    set.insert(id);
    set.insert(id);
    assert_eq!(set.len(), 1);
}

#[test]
fn ids_are_orderable() {
    let a = AbstractNodeId::new();
    let b = AbstractNodeId::new();
    // Just verify Ord is implemented and doesn't panic
    let _ = a.cmp(&b);
}

#[test]
fn hyphenated_notation_is_exact() {
    let id = Uuid { bits: 0x0123_4567_89ab_cdef_0011_2233_4455_6677 };
    assert_eq!(id.to_string(), "01234567-89ab-cdef-0011-223344556677");
    assert_eq!(Uuid::parse("01234567-89ab-cdef-0011-223344556677"), Ok(id));
    assert_eq!(Uuid::parse("0123456789ABCDEF0011223344556677"), Ok(id));
}

#[test]
fn fresh_ids_are_version_four() {
    let text = SessionId::new().to_string();
    let characters: Vec<char> = text.chars().collect();
    assert_eq!(characters.len(), 36);
    assert_eq!(characters[14], '4');
    assert!(['8', '9', 'a', 'b'].contains(&characters[19]));
}

#[test]
fn named_ids_depend_on_the_name_alone() {
    let name = "a:b";
    let expected = uuid::Uuid::new_v5(&uuid::Uuid::NAMESPACE_OID, name.as_bytes());
    assert_eq!(Uuid::of_name(name).to_string(), expected.to_string());
    assert_eq!(Uuid::of_name(name), Uuid::of_name("a:b"));
    assert_ne!(Uuid::of_name(name), Uuid::of_name("a:c"));
}

#[test]
fn ids_order_as_their_notation_does() {
    let low = RawNodeId(Uuid { bits: 0x0fff });
    let high = RawNodeId(Uuid { bits: 0x1000 });
    assert!(low < high);
    assert!(low.to_string() < high.to_string());
}
