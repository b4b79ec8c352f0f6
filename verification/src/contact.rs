//! Contact between a circle and the entities of one kind in the store.

use vstd::prelude::*;
use crate::collision::circles_overlap;
use crate::collision::overlaps;
use crate::store::well_formed;
use crate::store::without_ids;
use crate::store::Entity;
use crate::store::EntityId;
use crate::store::EntityStore;
use crate::store::Kind;
use crate::vector::Point;

verus! {

/// Whether `e` is of kind `kind` and, as a circle of radius `kind_radius`,
/// overlaps the circle of radius `radius` round `center`.
pub open spec fn in_contact(
    e: Entity,
    kind: Kind,
    kind_radius: u32,
    center: Point,
    radius: u32,
) -> bool {
    e.kind == kind && circles_overlap(center, radius, e.position, kind_radius)
}

/// The entities of kind `kind` in contact with the circle, oldest first.
pub open spec fn touching(
    entities: Seq<Entity>,
    kind: Kind,
    kind_radius: u32,
    center: Point,
    radius: u32,
) -> Seq<Entity> {
    entities.filter(|e: Entity| in_contact(e, kind, kind_radius, center, radius))
}

/// The entities that are not of kind `kind` in contact with the circle.
pub open spec fn untouched(
    entities: Seq<Entity>,
    kind: Kind,
    kind_radius: u32,
    center: Point,
    radius: u32,
) -> Seq<Entity> {
    entities.filter(|e: Entity| !in_contact(e, kind, kind_radius, center, radius))
}

/// Whether any entity of kind `kind` is in contact with the circle.
pub open spec fn any_touching(
    entities: Seq<Entity>,
    kind: Kind,
    kind_radius: u32,
    center: Point,
    radius: u32,
) -> bool {
    exists|j: int|
        0 <= j < entities.len() && in_contact(
            #[trigger] entities[j],
            kind,
            kind_radius,
            center,
            radius,
        )
}

/// The identities of `entities`, in their order.
pub open spec fn ids_of(entities: Seq<Entity>) -> Seq<EntityId> {
    entities.map_values(|e: Entity| e.id)
}

/// Two filters that agree on every entity keep the same entities.
pub proof fn lemma_filter_agree(
    entities: Seq<Entity>,
    p: spec_fn(Entity) -> bool,
    q: spec_fn(Entity) -> bool,
)
    requires
        forall|i: int| 0 <= i < entities.len() ==> p(#[trigger] entities[i]) == q(entities[i]),
    ensures
        entities.filter(p) == entities.filter(q),
    decreases entities.len(),
{
    reveal(Seq::filter);
    if entities.len() > 0 {
        let rest = entities.drop_last();
        assert forall|i: int| 0 <= i < rest.len() implies p(#[trigger] rest[i]) == q(
            rest[i],
        ) by {
            assert(rest[i] == entities[i]);
        }
        lemma_filter_agree(rest, p, q);
        assert(p(entities[entities.len() - 1]) == q(entities[entities.len() - 1]));
    }
}

/// A filter that no entity passes keeps nothing.
pub proof fn lemma_filter_keeps_none(entities: Seq<Entity>, p: spec_fn(Entity) -> bool)
    requires
        forall|i: int| 0 <= i < entities.len() ==> !p(#[trigger] entities[i]),
    ensures
        entities.filter(p) == Seq::<Entity>::empty(),
    decreases entities.len(),
{
    reveal(Seq::filter);
    if entities.len() > 0 {
        let rest = entities.drop_last();
        assert forall|i: int| 0 <= i < rest.len() implies !p(#[trigger] rest[i]) by {
            assert(rest[i] == entities[i]);
        }
        lemma_filter_keeps_none(rest, p);
        assert(!p(entities[entities.len() - 1]));
    } else {
        assert(entities =~= Seq::<Entity>::empty());
    }
}

/// In a well-formed store, to destroy the entities that pass a test by their
/// identities is to keep the entities that fail it.
pub proof fn lemma_destroy_by_ids(entities: Seq<Entity>, p: spec_fn(Entity) -> bool, next: int)
    requires
        well_formed(entities, next),
    ensures
        without_ids(entities, ids_of(entities.filter(p))) == entities.filter(|e: Entity| !p(e)),
{
    let hit = entities.filter(p);
    let ids = ids_of(hit);
    let by_id = |e: Entity| !ids.contains(e.id);
    let by_test = |e: Entity| !p(e);
    assert forall|k: int| 0 <= k < entities.len() implies by_id(#[trigger] entities[k])
        == by_test(entities[k]) by {
        let e = entities[k];
        if p(e) {
            entities.lemma_filter_contains(p, k);
            let m = choose|m: int| 0 <= m < hit.len() && hit[m] == e;
            assert(ids[m] == e.id);
        }
        if ids.contains(e.id) {
            let m = choose|m: int| 0 <= m < ids.len() && ids[m] == e.id;
            assert(hit[m].id == e.id);
            assert(hit.contains(hit[m]));
            entities.lemma_filter_contains_rev(p, hit[m]);
            let k2 = choose|k2: int| 0 <= k2 < entities.len() && entities[k2] == hit[m];
            if k2 < k {
                assert(entities[k2].id != entities[k].id);
            } else if k < k2 {
                assert(entities[k].id != entities[k2].id);
            }
            entities.lemma_filter_pred(p, m);
        }
    }
    lemma_filter_agree(entities, by_id, by_test);
}

/// Once the entities in contact are gone, none is in contact.
pub proof fn lemma_untouched_has_none(
    entities: Seq<Entity>,
    kind: Kind,
    kind_radius: u32,
    center: Point,
    radius: u32,
)
    ensures
        touching(untouched(entities, kind, kind_radius, center, radius), kind, kind_radius, center, radius)
            == Seq::<Entity>::empty(),
        !any_touching(
            untouched(entities, kind, kind_radius, center, radius),
            kind,
            kind_radius,
            center,
            radius,
        ),
{
    let hit = |e: Entity| in_contact(e, kind, kind_radius, center, radius);
    let miss = |e: Entity| !in_contact(e, kind, kind_radius, center, radius);
    let rest = entities.filter(miss);
    assert forall|i: int| 0 <= i < rest.len() implies !hit(#[trigger] rest[i]) by {
        entities.lemma_filter_pred(miss, i);
    }
    lemma_filter_keeps_none(rest, hit);
}

/// Whether any entity is in contact shows in the sequence of those that are.
pub proof fn lemma_any_touching(
    entities: Seq<Entity>,
    kind: Kind,
    kind_radius: u32,
    center: Point,
    radius: u32,
)
    ensures
        any_touching(entities, kind, kind_radius, center, radius) <==> touching(
            entities,
            kind,
            kind_radius,
            center,
            radius,
        ).len() > 0,
{
    let hit = |e: Entity| in_contact(e, kind, kind_radius, center, radius);
    let found = entities.filter(hit);
    if any_touching(entities, kind, kind_radius, center, radius) {
        let j = choose|j: int|
            0 <= j < entities.len() && in_contact(
                #[trigger] entities[j],
                kind,
                kind_radius,
                center,
                radius,
            );
        entities.lemma_filter_contains(hit, j);
    }
    if found.len() > 0 {
        entities.lemma_filter_pred(hit, 0);
        assert(found.contains(found[0]));
        entities.lemma_filter_contains_rev(hit, found[0]);
        let j = choose|j: int| 0 <= j < entities.len() && entities[j] == found[0];
        assert(in_contact(entities[j], kind, kind_radius, center, radius));
    }
}

/// The identities of the entities of kind `kind` in contact with the circle
/// of radius `radius` round `center`, oldest first. The store is only read.
pub fn touching_ids(
    store: &EntityStore,
    kind: Kind,
    kind_radius: u32,
    center: Point,
    radius: u32,
) -> (ids: Vec<EntityId>)
    ensures
        ids@ == ids_of(touching(store@, kind, kind_radius, center, radius)),
{
    let ghost hit = |e: Entity| in_contact(e, kind, kind_radius, center, radius);
    let mut ids: Vec<EntityId> = Vec::new();
    let n: usize = store.len();
    let mut i: usize = 0;
    proof {
        reveal(Seq::filter);
        assert(store@.take(0) =~= Seq::<Entity>::empty());
        assert(ids@ =~= ids_of(store@.take(0).filter(hit)));
    }
    while i < n
        invariant
            i <= n,
            n == store@.len(),
            hit == (|e: Entity| in_contact(e, kind, kind_radius, center, radius)),
            ids@ == ids_of(store@.take(i as int).filter(hit)),
        decreases n - i,
    {
        let e = store.entity_at(i);
        let touches = e.kind == kind && overlaps(center, radius, e.position, kind_radius);
        proof {
            store@.take(i as int).lemma_filter_push(e, hit);
            assert(store@.take(i as int).push(e) =~= store@.take(i as int + 1));
        }
        if touches {
            ids.push(e.id);
            assert(ids@ =~= ids_of(store@.take(i as int + 1).filter(hit)));
        }
        i = i + 1;
    }
    proof {
        assert(store@.take(n as int) =~= store@);
    }
    ids
}

/// Destroys the entities of kind `kind` in contact with the circle of radius
/// `radius` round `center`, and returns their identities, oldest first.
pub fn destroy_touching(
    store: &mut EntityStore,
    kind: Kind,
    kind_radius: u32,
    center: Point,
    radius: u32,
) -> (ids: Vec<EntityId>)
    requires
        old(store).wf(),
    ensures
        final(store).wf(),
        final(store)@ == untouched(old(store)@, kind, kind_radius, center, radius),
        final(store).next_id() == old(store).next_id(),
        ids@ == ids_of(touching(old(store)@, kind, kind_radius, center, radius)),
{
    let ids = touching_ids(store, kind, kind_radius, center, radius);
    proof {
        let hit = |e: Entity| in_contact(e, kind, kind_radius, center, radius);
        let miss = |e: Entity| !in_contact(e, kind, kind_radius, center, radius);
        lemma_destroy_by_ids(store@, hit, store.next_id() as int);
        lemma_filter_agree(store@, |e: Entity| !hit(e), miss);
    }
    store.destroy_all(&ids);
    ids
}

} // verus!
