use arena_sim::store::Entity;
use arena_sim::store::EntityId;
use arena_sim::store::EntityStore;
use arena_sim::store::Kind;
use arena_sim::vector::Point;
use arena_sim::vector::Vec2;

fn at(x: i64, y: i64) -> Point {
    Point { x, y }
}

fn sample_store() -> EntityStore {
    let mut store = EntityStore::new();
    store.create(Kind::Player, at(1, 2), Vec2::zero());
    store.create(Kind::Roamer, at(3, 4), Vec2::new(1_000_000, 0));
    store.create(Kind::Collectible, at(5, 6), Vec2::zero());
    store.create(Kind::Roamer, at(7, 8), Vec2::new(0, -1_000_000));
    store
}

fn ids(store: &EntityStore) -> Vec<u64> {
    (0..store.len()).map(|i| store.entity_at(i).id.0).collect()
}

#[test]
fn new_store_is_empty() {
    let store = EntityStore::new();
    assert_eq!(store.len(), 0);
    assert!(!store.contains(EntityId(0)));
    assert_eq!(store.get(EntityId(0)), None);
    assert_eq!(store.sole_of_kind(Kind::Player), None);
    assert!(store.snapshot_of_kind(Kind::Player).is_empty());
}

#[test]
fn create_gives_identities_in_order() {
    let mut store = EntityStore::new();
    let a = store.create(Kind::Player, at(1, 2), Vec2::zero());
    let b = store.create(Kind::Roamer, at(3, 4), Vec2::new(600_000, 800_000));
    assert_eq!(a, EntityId(0));
    assert_eq!(b, EntityId(1));
    assert_eq!(store.len(), 2);
    assert_eq!(
        store.entity_at(0),
        Entity { id: EntityId(0), kind: Kind::Player, position: at(1, 2), direction: Vec2::zero() }
    );
    assert_eq!(
        store.entity_at(1),
        Entity {
            id: EntityId(1),
            kind: Kind::Roamer,
            position: at(3, 4),
            direction: Vec2::new(600_000, 800_000)
        }
    );
}

#[test]
fn get_and_contains_find_live_entities() {
    let store = sample_store();
    assert!(store.contains(EntityId(2)));
    assert_eq!(store.index_of(EntityId(2)), Some(2));
    assert_eq!(store.get(EntityId(2)).map(|e| e.kind), Some(Kind::Collectible));
    assert!(!store.contains(EntityId(4)));
    assert_eq!(store.index_of(EntityId(4)), None);
    assert_eq!(store.get(EntityId(4)), None);
}

#[test]
fn destroy_removes_the_entity_and_keeps_the_order() {
    let mut store = sample_store();
    assert!(store.destroy(EntityId(1)));
    assert_eq!(ids(&store), vec![0, 2, 3]);
    assert!(!store.contains(EntityId(1)));
    assert_eq!(store.entity_at(1).kind, Kind::Collectible);
}

#[test]
fn destroy_of_an_unknown_identity_is_a_no_op() {
    let mut store = sample_store();
    assert!(!store.destroy(EntityId(99)));
    assert_eq!(ids(&store), vec![0, 1, 2, 3]);
}

#[test]
fn destroy_twice_is_the_same_as_once() {
    let mut store = sample_store();
    assert!(store.destroy(EntityId(2)));
    let after_first = ids(&store);
    assert!(!store.destroy(EntityId(2)));
    assert_eq!(ids(&store), after_first);
    assert_eq!(after_first, vec![0, 1, 3]);
}

#[test]
fn destroyed_entity_is_left_out_of_later_passes() {
    let mut store = sample_store();
    store.destroy(EntityId(1));
    let roamers = store.snapshot_of_kind(Kind::Roamer);
    assert_eq!(roamers.len(), 1);
    assert_eq!(roamers[0].id, EntityId(3));
}

#[test]
fn identities_are_not_given_out_again() {
    let mut store = sample_store();
    store.destroy(EntityId(3));
    store.destroy(EntityId(0));
    let fresh = store.create(Kind::Collectible, at(0, 0), Vec2::zero());
    assert_eq!(fresh, EntityId(4));
    assert_eq!(ids(&store), vec![1, 2, 4]);
}

#[test]
fn destroy_all_passes_over_unknown_and_repeated_identities() {
    let mut store = sample_store();
    store.destroy_all(&vec![EntityId(3), EntityId(42), EntityId(0), EntityId(3)]);
    assert_eq!(ids(&store), vec![1, 2]);
    store.destroy_all(&vec![]);
    assert_eq!(ids(&store), vec![1, 2]);
    store.destroy_all(&vec![EntityId(3), EntityId(0)]);
    assert_eq!(ids(&store), vec![1, 2]);
}

#[test]
fn sole_of_kind_wants_exactly_one() {
    let store = sample_store();
    assert_eq!(store.sole_of_kind(Kind::Player), Some(0));
    assert_eq!(store.sole_of_kind(Kind::Collectible), Some(2));
    assert_eq!(store.sole_of_kind(Kind::Roamer), None);
    assert_eq!(store.sole_of_kind(Kind::PaddleA), None);
}

#[test]
fn snapshot_of_kind_is_in_creation_order() {
    let store = sample_store();
    let roamers = store.snapshot_of_kind(Kind::Roamer);
    assert_eq!(roamers.iter().map(|e| e.id.0).collect::<Vec<u64>>(), vec![1, 3]);
    assert!(store.snapshot_of_kind(Kind::ProjectileB).is_empty());
}

#[test]
fn set_position_and_direction_touch_one_entity() {
    let mut store = sample_store();
    store.set_position(1, at(-30, 40));
    store.set_direction(3, Vec2::new(-600_000, 800_000));
    assert_eq!(store.entity_at(1).position, at(-30, 40));
    assert_eq!(store.entity_at(1).direction, Vec2::new(1_000_000, 0));
    assert_eq!(store.entity_at(3).direction, Vec2::new(-600_000, 800_000));
    assert_eq!(store.entity_at(3).position, at(7, 8));
    assert_eq!(store.entity_at(0).position, at(1, 2));
    assert_eq!(ids(&store), vec![0, 1, 2, 3]);
}

#[test]
fn duplicate_is_a_store_of_its_own() {
    let mut store = sample_store();
    let mut copy = store.duplicate();
    copy.destroy(EntityId(0));
    assert_eq!(ids(&store), vec![0, 1, 2, 3]);
    assert_eq!(ids(&copy), vec![1, 2, 3]);
    assert_eq!(copy.create(Kind::Player, at(0, 0), Vec2::zero()), EntityId(4));
    assert_eq!(store.create(Kind::Player, at(0, 0), Vec2::zero()), EntityId(4));
}

#[test]
fn has_room_counts_the_identities_left() {
    let store = sample_store();
    assert!(store.has_room(0));
    assert!(store.has_room(1));
    assert!(store.has_room(u64::MAX - 4));
    assert!(!store.has_room(u64::MAX - 3));
    assert!(!store.has_room(u64::MAX));
}
