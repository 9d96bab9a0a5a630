use pydantic_sifr_core::arena::{Arena, ArenaError, ArenaId};

#[test]
fn pushes_hand_out_dense_indices() {
    let mut arena = Arena::new();
    assert!(arena.is_empty());
    let first = arena.push("a").unwrap();
    let second = arena.push("b").unwrap();
    assert_eq!((first.raw(), second.raw()), (0, 1));
    assert_eq!(arena.len(), 2);
    assert_eq!(arena.get(second), Some(&"b"));
    assert_eq!(arena.get(first), Some(&"a"));
    assert_eq!(arena.values(), &["a", "b"]);
}

#[test]
fn reading_past_the_end_gives_nothing() {
    let mut arena: Arena<u8> = Arena::default();
    arena.push(1).unwrap();
    assert_eq!(arena.get(ArenaId::from_usize(1).unwrap()), None);
}

#[test]
fn indices_stay_in_the_compact_range() {
    assert_eq!(ArenaId::from_usize(7).unwrap().raw(), 7);
    assert_eq!(ArenaId::from_usize(u32::MAX as usize).unwrap().raw(), u32::MAX);
    assert_eq!(ArenaId::from_usize(u32::MAX as usize + 1), Err(ArenaError::CapacityExceeded));
    assert_eq!(ArenaError::CapacityExceeded.message(), "arena capacity exceeds the compact index range");
}
