//! Creating entities: at a given place, or scattered over the field at random.

use vstd::prelude::*;
use crate::event::Event;
use crate::field::PlayField;
use crate::random::is_sampled_direction;
use crate::random::sample_coordinate;
use crate::random::sample_direction;
use crate::store::Entity;
use crate::store::EntityId;
use crate::store::EntityStore;
use crate::store::Kind;
use crate::vector::Point;
use crate::vector::Vec2;

verus! {

/// The notice to the host that `e` came into being.
pub open spec fn created_event(e: Entity) -> Event {
    Event::Created { id: e.id, kind: e.kind, position: e.position }
}

/// The notices for `entities`, in their order.
pub open spec fn created_events(entities: Seq<Entity>) -> Seq<Event> {
    entities.map_values(|e: Entity| created_event(e))
}

/// Whether `e` may be the entity that a scattering gives the identity `id`:
/// it lies where random placement can put it, and its direction is a sampled
/// one if the kind turns and the zero vector if not.
pub open spec fn is_scattered(
    e: Entity,
    kind: Kind,
    field: PlayField,
    turning: bool,
    id: int,
) -> bool {
    &&& e.id.0 == id
    &&& e.kind == kind
    &&& field.can_place(e.position)
    &&& if turning {
        is_sampled_direction(e.direction)
    } else {
        e.direction == (Vec2 { x: 0, y: 0 })
    }
}

/// Whether `after` may be what a scattering of `count` entities makes of
/// `before`: the entities of `before` are untouched, and `count` scattered
/// ones follow them, with identities counting up from `first_id`.
pub open spec fn is_scatter(
    before: Seq<Entity>,
    after: Seq<Entity>,
    kind: Kind,
    count: nat,
    field: PlayField,
    turning: bool,
    first_id: int,
) -> bool {
    &&& after.len() == before.len() + count
    &&& after.take(before.len() as int) == before
    &&& forall|j: int|
        before.len() <= j < after.len() ==> is_scattered(
            #[trigger] after[j],
            kind,
            field,
            turning,
            first_id + (j - before.len()),
        )
}

/// Creates an entity at `position` and returns the notice of it.
pub fn place(store: &mut EntityStore, kind: Kind, position: Point, direction: Vec2) -> (event:
    Event)
    requires
        old(store).wf(),
        old(store).next_id() < u64::MAX,
        direction.is_bounded(),
    ensures
        final(store).wf(),
        final(store)@ == old(store)@.push(
            Entity { id: EntityId(old(store).next_id()), kind, position, direction },
        ),
        final(store).next_id() == old(store).next_id() + 1,
        event == created_event(final(store)@.last()),
{
    let id = store.create(kind, position, direction);
    Event::Created { id, kind, position }
}

/// Creates `count` entities of kind `kind`, each at a position drawn
/// uniformly from the field: a coordinate is at least zero and below the
/// field's extent, whatever the entity's size, so that an entity may at first
/// reach over the edge. A kind that turns gets a direction drawn from the unit
/// square and normalised; any other kind gets none.
pub fn scatter(
    store: &mut EntityStore,
    kind: Kind,
    count: usize,
    field: PlayField,
    turning: bool,
    rng: &mut rand::rngs::StdRng,
) -> (events: Vec<Event>)
    requires
        old(store).wf(),
        old(store).next_id() + count <= u64::MAX,
    ensures
        final(store).wf(),
        final(store).next_id() == old(store).next_id() + count,
        is_scatter(
            old(store)@,
            final(store)@,
            kind,
            count as nat,
            field,
            turning,
            old(store).next_id() as int,
        ),
        events@ == created_events(final(store)@.skip(old(store)@.len() as int)),
{
    let ghost before = store@;
    let ghost first_id = store.next_id() as int;
    let mut events: Vec<Event> = Vec::new();
    let mut i: usize = 0;
    proof {
        assert(store@.take(before.len() as int) =~= before);
        assert(events@ =~= created_events(store@.skip(before.len() as int)));
    }
    while i < count
        invariant
            i <= count,
            store.wf(),
            first_id + count <= u64::MAX,
            store.next_id() == first_id + i,
            is_scatter(before, store@, kind, i as nat, field, turning, first_id),
            events@ == created_events(store@.skip(before.len() as int)),
        decreases count - i,
    {
        let x: i64 = sample_coordinate(rng, field.width);
        let y: i64 = sample_coordinate(rng, field.height);
        let direction = if turning {
            sample_direction(rng)
        } else {
            Vec2 { x: 0, y: 0 }
        };
        let ghost earlier = store@;
        let event = place(store, kind, Point { x, y }, direction);
        events.push(event);
        i = i + 1;
        proof {
            assert(store@.take(before.len() as int) =~= earlier.take(before.len() as int));
            assert forall|j: int| before.len() <= j < store@.len() implies is_scattered(
                #[trigger] store@[j],
                kind,
                field,
                turning,
                first_id + (j - before.len()),
            ) by {
                if j < earlier.len() {
                    assert(store@[j] == earlier[j]);
                }
            }
            assert(store@.skip(before.len() as int) =~= earlier.skip(before.len() as int).push(
                store@.last(),
            ));
            assert(events@ =~= created_events(store@.skip(before.len() as int)));
        }
    }
    events
}

} // verus!
