//! The entity store: every live entity, in the order of its creation.

use vstd::prelude::*;
use crate::vector::Point;
use crate::vector::Vec2;

verus! {

/// The identity of an entity. No two entities of one store ever share one.
#[derive(Clone, Copy, Debug, PartialEq, Eq, Structural)]
pub struct EntityId(pub u64);

/// The tag that selects the rules applying to an entity.
#[derive(Clone, Copy, Debug, PartialEq, Eq, Structural)]
pub enum Kind {
    /// The entity steered by the player's input.
    Player,
    /// A hazard that roams on its own and turns at the field's edge.
    Roamer,
    /// An entity that is picked up for a point.
    Collectible,
    /// A ball that bounces between the paddles.
    ProjectileA,
    /// A second ball, under the same rules.
    ProjectileB,
    /// The paddle steered by the player's input.
    PaddleA,
    /// The paddle that follows the ball.
    PaddleB,
}

/// An entity: its identity, its kind and its components.
#[derive(Clone, Copy, Debug, PartialEq, Eq, Structural)]
pub struct Entity {
    pub id: EntityId,
    pub kind: Kind,
    pub position: Point,
    /// The direction of travel; the zero vector for kinds that have none.
    pub direction: Vec2,
}

/// The invariant of a store's contents: identities are below `next` and
/// distinct, and no direction component exceeds `UNIT`.
pub open spec fn well_formed(entities: Seq<Entity>, next: int) -> bool {
    &&& forall|i: int| 0 <= i < entities.len() ==> (#[trigger] entities[i]).id.0 < next
    &&& forall|i: int, j: int|
        0 <= i < j < entities.len() ==> (#[trigger] entities[i]).id != (#[trigger] entities[j]).id
    &&& forall|i: int| 0 <= i < entities.len() ==> (#[trigger] entities[i]).direction.is_bounded()
}

/// Whether some entity of `entities` has the identity `id`.
pub open spec fn has_id(entities: Seq<Entity>, id: EntityId) -> bool {
    exists|i: int| 0 <= i < entities.len() && (#[trigger] entities[i]).id == id
}

/// `entities` without the entity whose identity is `id`.
pub open spec fn without_id(entities: Seq<Entity>, id: EntityId) -> Seq<Entity> {
    without_ids(entities, seq![id])
}

/// `entities` without those whose identity occurs in `ids`.
pub open spec fn without_ids(entities: Seq<Entity>, ids: Seq<EntityId>) -> Seq<Entity> {
    entities.filter(|e: Entity| !ids.contains(e.id))
}

/// The entities of `entities` that are of kind `kind`.
pub open spec fn of_kind(entities: Seq<Entity>, kind: Kind) -> Seq<Entity> {
    entities.filter(|e: Entity| e.kind == kind)
}

/// `index` is where the only entity of kind `kind` stands.
pub open spec fn is_sole(entities: Seq<Entity>, kind: Kind, index: int) -> bool {
    &&& 0 <= index < entities.len()
    &&& entities[index].kind == kind
    &&& forall|j: int| 0 <= j < entities.len() && j != index ==> (#[trigger] entities[j]).kind != kind
}

/// Whether `entities` holds no two entities of kind `kind`.
pub open spec fn at_most_one(entities: Seq<Entity>, kind: Kind) -> bool {
    forall|i: int, j: int|
        0 <= i < j < entities.len() ==> !((#[trigger] entities[i]).kind == kind && (
        #[trigger] entities[j]).kind == kind)
}

/// Where the only entity of kind `kind` stands, if there is exactly one.
pub open spec fn sole(entities: Seq<Entity>, kind: Kind) -> Option<int> {
    if exists|i: int| is_sole(entities, kind, i) {
        Some(choose|i: int| is_sole(entities, kind, i))
    } else {
        None
    }
}

/// Taking entities out leaves the rest well formed.
pub proof fn lemma_filter_well_formed(
    entities: Seq<Entity>,
    keep: spec_fn(Entity) -> bool,
    next: int,
)
    requires
        well_formed(entities, next),
    ensures
        well_formed(entities.filter(keep), next),
    decreases entities.len(),
{
    reveal(Seq::filter);
    if entities.len() > 0 {
        let rest = entities.drop_last();
        let last = entities.last();
        assert forall|i: int| 0 <= i < rest.len() implies rest[i] == entities[i] by {}
        assert(well_formed(rest, next));
        lemma_filter_well_formed(rest, keep, next);
        let kept = rest.filter(keep);
        if keep(last) {
            assert forall|i: int| 0 <= i < kept.len() implies (#[trigger] kept[i]).id
                != last.id by {
                assert(kept.contains(kept[i]));
                rest.lemma_filter_contains_rev(keep, kept[i]);
                let k = choose|k: int| 0 <= k < rest.len() && rest[k] == kept[i];
                assert(entities[k].id != entities[entities.len() - 1].id);
            }
            assert(well_formed(kept.push(last), next));
        }
    }
}

/// A filter that every entity passes takes nothing out.
pub proof fn lemma_filter_keeps_all(entities: Seq<Entity>, keep: spec_fn(Entity) -> bool)
    requires
        forall|i: int| 0 <= i < entities.len() ==> keep(#[trigger] entities[i]),
    ensures
        entities.filter(keep) == entities,
    decreases entities.len(),
{
    reveal(Seq::filter);
    if entities.len() > 0 {
        let rest = entities.drop_last();
        assert forall|i: int| 0 <= i < rest.len() implies keep(#[trigger] rest[i]) by {
            assert(rest[i] == entities[i]);
        }
        lemma_filter_keeps_all(rest, keep);
        assert(rest.push(entities.last()) =~= entities);
    }
}

/// Destroying an entity that is not there changes nothing.
pub proof fn lemma_destroy_absent(entities: Seq<Entity>, id: EntityId)
    requires
        !has_id(entities, id),
    ensures
        without_id(entities, id) == entities,
{
    let ids = seq![id];
    let keep = |e: Entity| !ids.contains(e.id);
    assert forall|i: int| 0 <= i < entities.len() implies keep(#[trigger] entities[i]) by {
        if ids.contains(entities[i].id) {
            let k = choose|k: int| 0 <= k < ids.len() && ids[k] == entities[i].id;
            assert(entities[i].id == id);
        }
    }
    lemma_filter_keeps_all(entities, keep);
}

/// A destroyed entity is no longer in the store.
pub proof fn lemma_destroy_removes(entities: Seq<Entity>, id: EntityId)
    ensures
        !has_id(without_id(entities, id), id),
{
    let ids = seq![id];
    let keep = |e: Entity| !ids.contains(e.id);
    let rest = entities.filter(keep);
    assert forall|i: int| 0 <= i < rest.len() implies (#[trigger] rest[i]).id != id by {
        entities.lemma_filter_pred(keep, i);
        assert(ids[0] == id);
    }
}

/// Destroying an entity a second time changes nothing: to destroy is
/// idempotent.
pub proof fn lemma_destroy_idempotent(entities: Seq<Entity>, id: EntityId)
    ensures
        without_id(without_id(entities, id), id) == without_id(entities, id),
{
    lemma_destroy_removes(entities, id);
    lemma_destroy_absent(without_id(entities, id), id);
}

/// No entity whose identity is in `ids` is left once those are destroyed, and
/// every entity that is left was there before.
pub proof fn lemma_destroyed_are_gone(entities: Seq<Entity>, ids: Seq<EntityId>)
    ensures
        forall|i: int|
            0 <= i < without_ids(entities, ids).len() ==> {
                &&& !ids.contains((#[trigger] without_ids(entities, ids)[i]).id)
                &&& entities.contains(without_ids(entities, ids)[i])
            },
{
    let keep = |e: Entity| !ids.contains(e.id);
    let rest = entities.filter(keep);
    assert forall|i: int| 0 <= i < rest.len() implies !ids.contains((#[trigger] rest[i]).id)
        && entities.contains(rest[i]) by {
        entities.lemma_filter_pred(keep, i);
        assert(rest.contains(rest[i]));
        entities.lemma_filter_contains_rev(keep, rest[i]);
    }
}

/// At most one index holds the only entity of a kind.
pub proof fn lemma_sole_unique(entities: Seq<Entity>, kind: Kind, index: int)
    requires
        is_sole(entities, kind, index),
    ensures
        sole(entities, kind) == Some(index),
{
    let other = choose|i: int| is_sole(entities, kind, i);
    assert(is_sole(entities, kind, other));
    if other != index {
        assert(entities[other].kind != kind);
    }
}

/// Where entities are taken out of a well-formed store and one that has
/// been the only one of its kind stays, it is still the only one of its kind.
pub proof fn lemma_filter_keeps_sole(
    entities: Seq<Entity>,
    keep: spec_fn(Entity) -> bool,
    kind: Kind,
    index: int,
    next: int,
)
    requires
        well_formed(entities, next),
        is_sole(entities, kind, index),
        keep(entities[index]),
    ensures
        sole(entities.filter(keep), kind) is Some,
        entities.filter(keep)[sole(entities.filter(keep), kind).unwrap()] == entities[index],
{
    let kept = entities.filter(keep);
    lemma_filter_well_formed(entities, keep, next);
    entities.lemma_filter_contains(keep, index);
    let j = choose|j: int| 0 <= j < kept.len() && kept[j] == entities[index];
    assert forall|m: int| 0 <= m < kept.len() && m != j implies (#[trigger] kept[m]).kind
        != kind by {
        if kept[m].kind == kind {
            assert(kept.contains(kept[m]));
            entities.lemma_filter_contains_rev(keep, kept[m]);
            let k = choose|k: int| 0 <= k < entities.len() && entities[k] == kept[m];
            assert(k == index);
            if m < j {
                assert(kept[m].id != kept[j].id);
            } else {
                assert(kept[j].id != kept[m].id);
            }
        }
    }
    assert(is_sole(kept, kind, j));
    lemma_sole_unique(kept, kind, j);
}

/// Where the only entity of a kind is destroyed, none of that kind is left.
pub proof fn lemma_sole_destroyed(entities: Seq<Entity>, kind: Kind, index: int)
    requires
        is_sole(entities, kind, index),
    ensures
        sole(without_id(entities, entities[index].id), kind) is None,
{
    let id = entities[index].id;
    let rest = without_id(entities, id);
    lemma_destroyed_are_gone(entities, seq![id]);
    assert forall|j: int| !is_sole(rest, kind, j) by {
        if is_sole(rest, kind, j) {
            let k = choose|k: int| 0 <= k < entities.len() && entities[k] == rest[j];
            assert(k == index);
            assert(seq![id][0] == id);
            assert(seq![id].contains(rest[j].id));
        }
    }
}

/// Whether `after` holds the entities of `before`, each in its place and of
/// its kind and identity, whatever has become of their components.
pub open spec fn same_entities(before: Seq<Entity>, after: Seq<Entity>) -> bool {
    &&& after.len() == before.len()
    &&& forall|i: int|
        0 <= i < before.len() ==> (#[trigger] after[i]).id == before[i].id && after[i].kind
            == before[i].kind
}

/// To hold the same entities carries over from pass to pass.
pub proof fn lemma_same_entities_transitive(
    first: Seq<Entity>,
    second: Seq<Entity>,
    third: Seq<Entity>,
)
    requires
        same_entities(first, second),
        same_entities(second, third),
    ensures
        same_entities(first, third),
{
    assert forall|i: int| 0 <= i < first.len() implies (#[trigger] third[i]).id == first[i].id
        && third[i].kind == first[i].kind by {
        assert(second[i].id == first[i].id && second[i].kind == first[i].kind);
    }
}

/// Where the entities are the same, the same one is the only one of its kind.
pub proof fn lemma_same_entities_same_sole(before: Seq<Entity>, after: Seq<Entity>, kind: Kind)
    requires
        same_entities(before, after),
    ensures
        sole(after, kind) == sole(before, kind),
{
    if exists|i: int| is_sole(before, kind, i) {
        let i = choose|i: int| is_sole(before, kind, i);
        assert(after[i].kind == kind);
        assert forall|j: int| 0 <= j < after.len() && j != i implies (#[trigger] after[j]).kind
            != kind by {
            assert(before[j].kind != kind);
        }
        assert(is_sole(after, kind, i));
        lemma_sole_unique(after, kind, i);
        lemma_sole_unique(before, kind, i);
    } else {
        assert forall|i: int| !is_sole(after, kind, i) by {
            if is_sole(after, kind, i) {
                assert(before[i].kind == kind) by {
                    assert(after[i].kind == before[i].kind);
                }
                assert forall|j: int| 0 <= j < before.len() && j != i implies (
                #[trigger] before[j]).kind != kind by {
                    assert(after[j].kind == before[j].kind);
                }
                assert(is_sole(before, kind, i));
            }
        }
    }
}

/// Whether `id` occurs in `ids`.
fn id_in(ids: &Vec<EntityId>, id: EntityId) -> (found: bool)
    ensures
        found == ids@.contains(id),
{
    let mut i: usize = 0;
    while i < ids.len()
        invariant
            i <= ids.len(),
            forall|k: int| 0 <= k < i ==> ids@[k] != id,
        decreases ids.len() - i,
    {
        if ids[i].0 == id.0 {
            assert(ids@[i as int] == id);
            return true;
        }
        i = i + 1;
    }
    false
}

/// The store of live entities.
pub struct EntityStore {
    entities: Vec<Entity>,
    next_id: u64,
}

impl View for EntityStore {
    type V = Seq<Entity>;

    /// The live entities, oldest first.
    closed spec fn view(&self) -> Seq<Entity> {
        self.entities@
    }
}

impl EntityStore {
    /// The identity that the next entity created will get.
    pub closed spec fn next_id(&self) -> u64 {
        self.next_id
    }

    /// The store's invariant: identities are distinct and below the next
    /// one to be given out, and directions are bounded.
    pub open spec fn wf(&self) -> bool {
        well_formed(self@, self.next_id() as int)
    }

    /// An empty store.
    pub fn new() -> (store: EntityStore)
        ensures
            store.wf(),
            store@ == Seq::<Entity>::empty(),
            store.next_id() == 0,
    {
        EntityStore { entities: Vec::new(), next_id: 0 }
    }

    /// A store with the same entities, which will give out the same
    /// identities.
    pub fn duplicate(&self) -> (copy: EntityStore)
        ensures
            copy@ == self@,
            copy.next_id() == self.next_id(),
    {
        let mut entities: Vec<Entity> = Vec::new();
        let mut i: usize = 0;
        while i < self.entities.len()
            invariant
                i <= self.entities.len(),
                entities@ == self.entities@.take(i as int),
            decreases self.entities.len() - i,
        {
            entities.push(self.entities[i]);
            i = i + 1;
            assert(entities@ =~= self.entities@.take(i as int));
        }
        assert(self.entities@.take(i as int) =~= self.entities@);
        EntityStore { entities, next_id: self.next_id }
    }

    /// The number of live entities.
    pub fn len(&self) -> (n: usize)
        ensures
            n == self@.len(),
    {
        self.entities.len()
    }

    /// Whether another `count` entities can be given an identity.
    pub fn has_room(&self, count: u64) -> (ok: bool)
        ensures
            ok == (self.next_id() + count <= u64::MAX),
    {
        count <= u64::MAX - self.next_id
    }

    /// Creates an entity at the end of the store and returns its identity.
    pub fn create(&mut self, kind: Kind, position: Point, direction: Vec2) -> (id: EntityId)
        requires
            old(self).wf(),
            old(self).next_id() < u64::MAX,
            direction.is_bounded(),
        ensures
            final(self).wf(),
            id == EntityId(old(self).next_id()),
            final(self)@ == old(self)@.push(Entity { id, kind, position, direction }),
            final(self).next_id() == old(self).next_id() + 1,
    {
        let id = EntityId(self.next_id);
        self.next_id = self.next_id + 1;
        self.entities.push(Entity { id, kind, position, direction });
        id
    }

    /// Destroys every entity whose identity is in `ids`; identities that no
    /// live entity has are passed over. The entities left keep their order.
    pub fn destroy_all(&mut self, ids: &Vec<EntityId>)
        requires
            old(self).wf(),
        ensures
            final(self).wf(),
            final(self)@ == without_ids(old(self)@, ids@),
            final(self).next_id() == old(self).next_id(),
    {
        let ghost keep = |e: Entity| !ids@.contains(e.id);
        let mut kept: Vec<Entity> = Vec::new();
        let mut i: usize = 0;
        proof {
            reveal(Seq::filter);
            assert(self.entities@.take(0) =~= Seq::<Entity>::empty());
        }
        while i < self.entities.len()
            invariant
                i <= self.entities.len(),
                keep == (|e: Entity| !ids@.contains(e.id)),
                kept@ == self.entities@.take(i as int).filter(keep),
            decreases self.entities.len() - i,
        {
            let entity = self.entities[i];
            proof {
                self.entities@.take(i as int).lemma_filter_push(entity, keep);
                assert(self.entities@.take(i as int).push(entity) =~= self.entities@.take(
                    i as int + 1,
                ));
            }
            if !id_in(ids, entity.id) {
                kept.push(entity);
            }
            i = i + 1;
        }
        proof {
            assert(self.entities@.take(i as int) =~= self.entities@);
            lemma_filter_well_formed(self.entities@, keep, self.next_id as int);
        }
        self.entities = kept;
    }

    /// Destroys the entity `id` and says whether it was there. To destroy an
    /// entity that is not there is no fault, and changes nothing.
    pub fn destroy(&mut self, id: EntityId) -> (removed: bool)
        requires
            old(self).wf(),
        ensures
            final(self).wf(),
            final(self)@ == without_id(old(self)@, id),
            final(self).next_id() == old(self).next_id(),
            removed == has_id(old(self)@, id),
            !removed ==> final(self)@ == old(self)@,
            !has_id(final(self)@, id),
    {
        let removed = self.contains(id);
        let mut ids: Vec<EntityId> = Vec::new();
        ids.push(id);
        assert(ids@ =~= seq![id]);
        proof {
            lemma_destroy_removes(self@, id);
            if !removed {
                lemma_destroy_absent(self@, id);
            }
        }
        self.destroy_all(&ids);
        removed
    }

    /// Where the entity `id` stands, if it is live.
    pub fn index_of(&self, id: EntityId) -> (found: Option<usize>)
        ensures
            found is Some <==> has_id(self@, id),
            found matches Some(i) ==> i < self@.len() && self@[i as int].id == id,
    {
        let mut i: usize = 0;
        while i < self.entities.len()
            invariant
                i <= self.entities.len(),
                forall|k: int| 0 <= k < i ==> self.entities@[k].id != id,
            decreases self.entities.len() - i,
        {
            if self.entities[i].id.0 == id.0 {
                assert(self@[i as int].id == id);
                return Some(i);
            }
            i = i + 1;
        }
        None
    }

    /// Whether the entity `id` is live.
    pub fn contains(&self, id: EntityId) -> (found: bool)
        ensures
            found == has_id(self@, id),
    {
        self.index_of(id).is_some()
    }

    /// The entity `id`, if it is live.
    pub fn get(&self, id: EntityId) -> (found: Option<Entity>)
        ensures
            found is Some <==> has_id(self@, id),
            found matches Some(e) ==> e.id == id && self@.contains(e),
    {
        match self.index_of(id) {
            Some(i) => {
                assert(self@[i as int] == self.entities@[i as int]);
                Some(self.entities[i])
            },
            None => None,
        }
    }

    /// Where the only entity of kind `kind` stands; nothing if there is none
    /// of that kind, or more than one.
    pub fn sole_of_kind(&self, kind: Kind) -> (found: Option<usize>)
        ensures
            found is Some <==> sole(self@, kind) is Some,
            found matches Some(i) ==> sole(self@, kind) == Some(i as int) && is_sole(
                self@,
                kind,
                i as int,
            ),
    {
        let mut first: Option<usize> = None;
        let mut i: usize = 0;
        while i < self.entities.len()
            invariant
                i <= self.entities.len(),
                first matches Some(f) ==> f < i && self.entities@[f as int].kind == kind,
                forall|k: int|
                    0 <= k < i && first != Some(k as usize) ==> (
                    #[trigger] self.entities@[k]).kind != kind,
            decreases self.entities.len() - i,
        {
            if self.entities[i].kind == kind {
                if first.is_some() {
                    proof {
                        let f = first.unwrap() as int;
                        assert forall|j: int| !is_sole(self@, kind, j) by {
                            if is_sole(self@, kind, j) {
                                if j == f {
                                    assert(self@[i as int].kind != kind);
                                } else {
                                    assert(self@[f].kind != kind);
                                }
                            }
                        }
                    }
                    return None;
                }
                first = Some(i);
            }
            i = i + 1;
        }
        proof {
            match first {
                Some(f) => {
                    assert(is_sole(self@, kind, f as int));
                    lemma_sole_unique(self@, kind, f as int);
                },
                None => {
                    assert forall|j: int| !is_sole(self@, kind, j) by {}
                },
            }
        }
        first
    }

    /// A snapshot of the live entities of kind `kind`, oldest first.
    pub fn snapshot_of_kind(&self, kind: Kind) -> (found: Vec<Entity>)
        ensures
            found@ == of_kind(self@, kind),
    {
        let ghost keep = |e: Entity| e.kind == kind;
        let mut found: Vec<Entity> = Vec::new();
        let mut i: usize = 0;
        proof {
            reveal(Seq::filter);
            assert(self.entities@.take(0) =~= Seq::<Entity>::empty());
        }
        while i < self.entities.len()
            invariant
                i <= self.entities.len(),
                keep == (|e: Entity| e.kind == kind),
                found@ == self.entities@.take(i as int).filter(keep),
            decreases self.entities.len() - i,
        {
            let entity = self.entities[i];
            proof {
                self.entities@.take(i as int).lemma_filter_push(entity, keep);
                assert(self.entities@.take(i as int).push(entity) =~= self.entities@.take(
                    i as int + 1,
                ));
            }
            if entity.kind == kind {
                found.push(entity);
            }
            i = i + 1;
        }
        proof {
            assert(self.entities@.take(i as int) =~= self.entities@);
        }
        found
    }

    /// The entity at `index`, counting from the oldest.
    pub fn entity_at(&self, index: usize) -> (entity: Entity)
        requires
            index < self@.len(),
        ensures
            entity == self@[index as int],
    {
        self.entities[index]
    }

    /// Moves the entity at `index` to `position`.
    pub fn set_position(&mut self, index: usize, position: Point)
        requires
            old(self).wf(),
            index < old(self)@.len(),
        ensures
            final(self).wf(),
            final(self)@ == old(self)@.update(
                index as int,
                Entity { position, ..old(self)@[index as int] },
            ),
            final(self).next_id() == old(self).next_id(),
    {
        let entity = self.entities[index];
        self.entities.set(index, Entity { position, ..entity });
    }

    /// Gives the entity at `index` the direction `direction`.
    pub fn set_direction(&mut self, index: usize, direction: Vec2)
        requires
            old(self).wf(),
            index < old(self)@.len(),
            direction.is_bounded(),
        ensures
            final(self).wf(),
            final(self)@ == old(self)@.update(
                index as int,
                Entity { direction, ..old(self)@[index as int] },
            ),
            final(self).next_id() == old(self).next_id(),
    {
        let entity = self.entities[index];
        self.entities.set(index, Entity { direction, ..entity });
    }
}

} // verus!
