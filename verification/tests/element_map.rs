use bevy_ui_dioxus::element_map::ElementMap;
use bevy_ui_dioxus::host::UNASSIGNED;

#[test]
fn set_fills_the_gap_with_the_sentinel() {
    let mut map = ElementMap::default();
    map.set(3, 42);
    assert_eq!(map.len(), 4);
    assert_eq!(map.get(0), None);
    assert_eq!(map.get(1), None);
    assert_eq!(map.get(2), None);
    assert_eq!(map.get(3), Some(42));
    assert_eq!(map.get(4), None);
}

#[test]
fn sentinel_is_the_placeholder_entity() {
    assert_eq!(UNASSIGNED, bevy::ecs::entity::Entity::PLACEHOLDER.to_bits());
}

#[test]
fn empty_map_finds_nothing() {
    let map = ElementMap::default();
    assert_eq!(map.len(), 0);
    assert_eq!(map.get(0), None);
    assert_eq!(map.get(usize::MAX), None);
}

#[test]
fn later_assignment_wins_and_others_stay() {
    let mut map = ElementMap::default();
    map.set(0, 10);
    map.set(2, 12);
    map.set(0, 20);
    assert_eq!(map.get(0), Some(20));
    assert_eq!(map.get(1), None);
    assert_eq!(map.get(2), Some(12));
    assert_eq!(map.len(), 3);
    map.set(1, 11);
    assert_eq!(map.get(1), Some(11));
    assert_eq!(map.len(), 3);
}

#[test]
fn assigning_the_sentinel_unassigns() {
    let mut map = ElementMap::default();
    map.set(1, 5);
    map.set(1, UNASSIGNED);
    assert_eq!(map.get(1), None);
    assert_eq!(map.len(), 2);
}

#[test]
fn map_is_dense_after_scattered_assignments() {
    let mut map = ElementMap::default();
    let writes: [(usize, u64); 4] = [(5, 50), (2, 20), (9, 90), (2, 21)];
    for (id, node) in writes {
        map.set(id, node);
    }
    assert_eq!(map.len(), 10);
    for id in 0..10 {
        let expected = match id {
            2 => Some(21),
            5 => Some(50),
            9 => Some(90),
            _ => None,
        };
        assert_eq!(map.get(id), expected);
    }
}
