//! Passes over the store that several rules share: motion on an entity's own
//! direction, motion on the player's intent, and confinement.

use vstd::prelude::*;
use crate::collision::boxes_meet;
use crate::collision::meets;
use crate::field::confined_point;
use crate::field::is_outside_band;
use crate::field::outside_band;
use crate::field::PlayField;
use crate::motion::can_move;
use crate::motion::fits_move;
use crate::motion::move_point;
use crate::motion::moved;
use crate::store::same_entities;
use crate::store::sole;
use crate::store::Entity;
use crate::store::EntityStore;
use crate::store::Kind;
use crate::vector::Point;
use crate::vector::Vec2;

verus! {

/// `e` at another position.
pub open spec fn at_position(e: Entity, position: Point) -> Entity {
    Entity { position, ..e }
}

/// `e` with another direction.
pub open spec fn with_direction(e: Entity, direction: Vec2) -> Entity {
    Entity { direction, ..e }
}

/// An entity of kind `kind` moved along its own direction; any other entity
/// as it is.
pub open spec fn drift_entity(e: Entity, kind: Kind, speed: u32, dt: u64) -> Entity {
    if e.kind == kind {
        at_position(e, moved(e.position, e.direction, speed, dt))
    } else {
        e
    }
}

/// The entities after those of kind `kind` have moved along their directions.
pub open spec fn drifted(entities: Seq<Entity>, kind: Kind, speed: u32, dt: u64) -> Seq<
    Entity,
> {
    entities.map_values(|e: Entity| drift_entity(e, kind, speed, dt))
}

/// Whether every entity of kind `kind` can move along its direction without
/// leaving the machine's integers.
pub open spec fn can_drift(entities: Seq<Entity>, kind: Kind, speed: u32, dt: u64) -> bool {
    forall|i: int|
        0 <= i < entities.len() && (#[trigger] entities[i]).kind == kind ==> can_move(
            entities[i].position,
            entities[i].direction,
            speed,
            dt,
        )
}

/// The entities after the only one of kind `kind` has moved along
/// `direction`. Where there is none of that kind, or more than one, nothing
/// moves.
pub open spec fn steered(
    entities: Seq<Entity>,
    kind: Kind,
    direction: Vec2,
    speed: u32,
    dt: u64,
) -> Seq<Entity> {
    match sole(entities, kind) {
        Some(i) => entities.update(
            i,
            at_position(entities[i], moved(entities[i].position, direction, speed, dt)),
        ),
        None => entities,
    }
}

/// Whether the only entity of kind `kind`, if there is one, can move along
/// `direction` without leaving the machine's integers.
pub open spec fn can_steer(
    entities: Seq<Entity>,
    kind: Kind,
    direction: Vec2,
    speed: u32,
    dt: u64,
) -> bool {
    match sole(entities, kind) {
        Some(i) => can_move(entities[i].position, direction, speed, dt),
        None => true,
    }
}

/// An entity of kind `kind` held inside the field; any other entity as it is.
pub open spec fn confine_entity(e: Entity, kind: Kind, half: u32, field: PlayField) -> Entity {
    if e.kind == kind {
        at_position(e, confined_point(e.position, half, field))
    } else {
        e
    }
}

/// The entities after those of kind `kind` have been held inside the field.
pub open spec fn confined_kind(
    entities: Seq<Entity>,
    kind: Kind,
    half: u32,
    field: PlayField,
) -> Seq<Entity> {
    entities.map_values(|e: Entity| confine_entity(e, kind, half, field))
}

/// The entities after the only one of kind `kind` has been held inside the
/// field. Where there is none of that kind, or more than one, nothing moves.
pub open spec fn confined_sole(
    entities: Seq<Entity>,
    kind: Kind,
    half: u32,
    field: PlayField,
) -> Seq<Entity> {
    match sole(entities, kind) {
        Some(i) => entities.update(
            i,
            at_position(entities[i], confined_point(entities[i].position, half, field)),
        ),
        None => entities,
    }
}

/// Whether `e` has left the band of the field on either axis.
pub open spec fn leaves_band(e: Entity, half: u32, field: PlayField) -> bool {
    ||| outside_band(e.position.x as int, half as int, field.width as int)
    ||| outside_band(e.position.y as int, half as int, field.height as int)
}

/// `direction` with the sign reversed on each axis on which `position` has
/// left the band of the field.
pub open spec fn turned_direction(
    direction: Vec2,
    position: Point,
    half: u32,
    field: PlayField,
) -> Vec2 {
    Vec2 {
        x: if outside_band(position.x as int, half as int, field.width as int) {
            (-direction.x) as i32
        } else {
            direction.x
        },
        y: if outside_band(position.y as int, half as int, field.height as int) {
            (-direction.y) as i32
        } else {
            direction.y
        },
    }
}

/// An entity of kind `kind` turned back on each axis on which it has left the
/// band of the field; any other entity as it is. The position is not touched.
pub open spec fn turn_entity(e: Entity, kind: Kind, half: u32, field: PlayField) -> Entity {
    if e.kind == kind {
        with_direction(e, turned_direction(e.direction, e.position, half, field))
    } else {
        e
    }
}

/// The entities after those of kind `kind` have turned at the field's edges.
pub open spec fn turned(entities: Seq<Entity>, kind: Kind, half: u32, field: PlayField) -> Seq<
    Entity,
> {
    entities.map_values(|e: Entity| turn_entity(e, kind, half, field))
}

/// The entities of kind `kind` that have left the band of the field.
pub open spec fn strays(entities: Seq<Entity>, kind: Kind, half: u32, field: PlayField) -> Seq<
    Entity,
> {
    entities.filter(|e: Entity| e.kind == kind && leaves_band(e, half, field))
}

/// Whether `c` lies beyond exactly one edge of the band. In a field with room
/// for the entity that is to lie outside the band.
pub open spec fn beyond_one_edge(c: int, half: int, extent: int) -> bool {
    (c < half) != (c > extent - half)
}

/// An entity of kind `kind` with its vertical direction reversed where it
/// has gone strictly beyond the lower or the upper edge of the band; any other
/// entity as it is. The position is not touched.
pub open spec fn rebound_entity(e: Entity, kind: Kind, half: u32, field: PlayField) -> Entity {
    if e.kind == kind && beyond_one_edge(
        e.position.y as int,
        half as int,
        field.height as int,
    ) {
        with_direction(e, e.direction.flipped_y())
    } else {
        e
    }
}

/// The entities after those of kind `kind` have rebounded from the field's
/// lower and upper edges.
pub open spec fn rebounded(
    entities: Seq<Entity>,
    kind: Kind,
    half: u32,
    field: PlayField,
) -> Seq<Entity> {
    entities.map_values(|e: Entity| rebound_entity(e, kind, half, field))
}

/// An entity of kind `ball` with its horizontal direction reversed where its
/// box meets that of the paddle at `paddle`; any other entity as it is.
pub open spec fn deflect_entity(
    e: Entity,
    ball: Kind,
    ball_half_height: u32,
    paddle: Point,
    paddle_half_height: u32,
    reach: u32,
) -> Entity {
    if e.kind == ball && boxes_meet(
        paddle,
        paddle_half_height,
        e.position,
        ball_half_height,
        reach,
    ) {
        with_direction(e, e.direction.flipped_x())
    } else {
        e
    }
}

/// The entities after those of kind `ball` have been deflected by the only
/// paddle of kind `paddle`. Without such a paddle, nothing is deflected.
pub open spec fn deflected(
    entities: Seq<Entity>,
    ball: Kind,
    ball_half_height: u32,
    paddle: Kind,
    paddle_half_height: u32,
    reach: u32,
) -> Seq<Entity> {
    match sole(entities, paddle) {
        Some(i) => entities.map_values(
            |e: Entity|
                deflect_entity(
                    e,
                    ball,
                    ball_half_height,
                    entities[i].position,
                    paddle_half_height,
                    reach,
                ),
        ),
        None => entities,
    }
}

/// The entities after the only one of kind `follower` has taken the vertical
/// coordinate of the only one of kind `leader`. Where either is missing, or
/// not the only one of its kind, nothing moves.
pub open spec fn followed(entities: Seq<Entity>, follower: Kind, leader: Kind) -> Seq<Entity> {
    match (sole(entities, follower), sole(entities, leader)) {
        (Some(i), Some(j)) => entities.update(
            i,
            at_position(
                entities[i],
                Point { x: entities[i].position.x, y: entities[j].position.y },
            ),
        ),
        _ => entities,
    }
}

/// No pass over the store makes or unmakes an entity, or changes its kind:
/// each leaves the same entities in the same places.
pub proof fn lemma_passes_keep_entities(
    entities: Seq<Entity>,
    kind: Kind,
    other: Kind,
    direction: Vec2,
    speed: u32,
    dt: u64,
    half: u32,
    other_half: u32,
    reach: u32,
    field: PlayField,
)
    ensures
        same_entities(entities, steered(entities, kind, direction, speed, dt)),
        same_entities(entities, drifted(entities, kind, speed, dt)),
        same_entities(entities, turned(entities, kind, half, field)),
        same_entities(entities, rebounded(entities, kind, half, field)),
        same_entities(entities, confined_kind(entities, kind, half, field)),
        same_entities(entities, confined_sole(entities, kind, half, field)),
        same_entities(entities, deflected(entities, kind, half, other, other_half, reach)),
        same_entities(entities, followed(entities, kind, other)),
{
}

/// A frame of no duration moves nothing.
pub proof fn lemma_drift_zero_frame(entities: Seq<Entity>, kind: Kind, speed: u32)
    ensures
        can_drift(entities, kind, speed, 0),
        drifted(entities, kind, speed, 0) == entities,
{
    assert forall|i: int| 0 <= i < entities.len() implies can_move(
        (#[trigger] entities[i]).position,
        entities[i].direction,
        speed,
        0,
    ) && drift_entity(entities[i], kind, speed, 0) == entities[i] by {
        crate::motion::lemma_zero_frame(entities[i].position, entities[i].direction, speed);
    }
    assert(drifted(entities, kind, speed, 0) =~= entities);
}

/// A frame of no duration does not move the steered entity.
pub proof fn lemma_steer_zero_frame(
    entities: Seq<Entity>,
    kind: Kind,
    direction: Vec2,
    speed: u32,
)
    ensures
        can_steer(entities, kind, direction, speed, 0),
        steered(entities, kind, direction, speed, 0) == entities,
{
    match sole(entities, kind) {
        Some(i) => {
            crate::motion::lemma_zero_frame(entities[i].position, direction, speed);
            assert(steered(entities, kind, direction, speed, 0) =~= entities);
        },
        None => {},
    }
}

/// After confinement, every entity of the kind lies in the band of a field
/// that has room for it, on both axes, wherever it was before.
pub proof fn lemma_confined_kind_in_band(
    entities: Seq<Entity>,
    kind: Kind,
    half: u32,
    field: PlayField,
)
    requires
        2 * half <= field.width,
        2 * half <= field.height,
    ensures
        forall|i: int|
            0 <= i < entities.len() && (#[trigger] confined_kind(
                entities,
                kind,
                half,
                field,
            )[i]).kind == kind ==> {
                let p = confined_kind(entities, kind, half, field)[i].position;
                &&& half <= p.x <= field.width - half
                &&& half <= p.y <= field.height - half
                &&& !leaves_band(confined_kind(entities, kind, half, field)[i], half, field)
            },
{
}

/// After confinement, the only entity of the kind lies in the band of a field
/// that has room for it, on both axes, wherever it was before.
pub proof fn lemma_confined_sole_in_band(
    entities: Seq<Entity>,
    kind: Kind,
    half: u32,
    field: PlayField,
)
    requires
        2 * half <= field.width,
        2 * half <= field.height,
    ensures
        sole(entities, kind) matches Some(i) ==> {
            let p = confined_sole(entities, kind, half, field)[i].position;
            &&& half <= p.x <= field.width - half
            &&& half <= p.y <= field.height - half
            &&& !leaves_band(confined_sole(entities, kind, half, field)[i], half, field)
        },
{
}

/// To move the only entity of one kind leaves the entities of another kind
/// as able to move as they were.
pub proof fn lemma_steer_keeps_drift(
    entities: Seq<Entity>,
    steer_kind: Kind,
    direction: Vec2,
    speed: u32,
    dt: u64,
    drift_kind: Kind,
    drift_speed: u32,
)
    requires
        steer_kind != drift_kind,
        can_drift(entities, drift_kind, drift_speed, dt),
    ensures
        can_drift(
            steered(entities, steer_kind, direction, speed, dt),
            drift_kind,
            drift_speed,
            dt,
        ),
{
    let after = steered(entities, steer_kind, direction, speed, dt);
    assert forall|i: int| 0 <= i < after.len() && (#[trigger] after[i]).kind
        == drift_kind implies can_move(
        after[i].position,
        after[i].direction,
        drift_speed,
        dt,
    ) by {
        assert(entities[i].kind == drift_kind);
        assert(after[i] == entities[i]);
    }
}

/// To move the entities of one kind leaves those of another kind as able to
/// move as they were.
pub proof fn lemma_drift_keeps_drift(
    entities: Seq<Entity>,
    first: Kind,
    first_speed: u32,
    dt: u64,
    second: Kind,
    second_speed: u32,
)
    requires
        first != second,
        can_drift(entities, second, second_speed, dt),
    ensures
        can_drift(drifted(entities, first, first_speed, dt), second, second_speed, dt),
{
    let after = drifted(entities, first, first_speed, dt);
    assert forall|i: int| 0 <= i < after.len() && (#[trigger] after[i]).kind
        == second implies can_move(after[i].position, after[i].direction, second_speed, dt) by {
        assert(entities[i].kind == second);
        assert(after[i] == entities[i]);
    }
}

/// Moves every entity of kind `kind` along its own direction for `dt`
/// nanoseconds at `speed`.
pub fn drift(store: &mut EntityStore, kind: Kind, speed: u32, dt: u64)
    requires
        old(store).wf(),
        can_drift(old(store)@, kind, speed, dt),
    ensures
        final(store).wf(),
        final(store)@ == drifted(old(store)@, kind, speed, dt),
        final(store).next_id() == old(store).next_id(),
        dt == 0 ==> final(store)@ == old(store)@,
{
    let ghost before = store@;
    let n: usize = store.len();
    let mut i: usize = 0;
    while i < n
        invariant
            i <= n,
            n == before.len(),
            store@.len() == before.len(),
            store.wf(),
            store.next_id() == old(store).next_id(),
            can_drift(before, kind, speed, dt),
            forall|k: int| 0 <= k < i ==> store@[k] == drift_entity(before[k], kind, speed, dt),
            forall|k: int| i <= k < n ==> store@[k] == before[k],
        decreases n - i,
    {
        let e = store.entity_at(i);
        if e.kind == kind {
            let p = move_point(e.position, e.direction, speed, dt);
            store.set_position(i, p);
        }
        i = i + 1;
    }
    proof {
        assert(store@ =~= drifted(before, kind, speed, dt));
        if dt == 0 {
            lemma_drift_zero_frame(before, kind, speed);
        }
    }
}

/// Whether `drift` may be called on these arguments.
pub fn fits_drift(store: &EntityStore, kind: Kind, speed: u32, dt: u64) -> (ok: bool)
    ensures
        ok == can_drift(store@, kind, speed, dt),
{
    let n: usize = store.len();
    let mut i: usize = 0;
    while i < n
        invariant
            i <= n,
            n == store@.len(),
            forall|k: int|
                0 <= k < i && (#[trigger] store@[k]).kind == kind ==> can_move(
                    store@[k].position,
                    store@[k].direction,
                    speed,
                    dt,
                ),
        decreases n - i,
    {
        let e = store.entity_at(i);
        if e.kind == kind && !fits_move(e.position, e.direction, speed, dt) {
            return false;
        }
        i = i + 1;
    }
    true
}

/// Moves the only entity of kind `kind` along `direction` for `dt`
/// nanoseconds at `speed`. Where there is none of that kind, or more than
/// one, nothing moves.
pub fn steer(store: &mut EntityStore, kind: Kind, direction: Vec2, speed: u32, dt: u64)
    requires
        old(store).wf(),
        can_steer(old(store)@, kind, direction, speed, dt),
    ensures
        final(store).wf(),
        final(store)@ == steered(old(store)@, kind, direction, speed, dt),
        final(store).next_id() == old(store).next_id(),
        dt == 0 ==> final(store)@ == old(store)@,
{
    proof {
        if dt == 0 {
            lemma_steer_zero_frame(store@, kind, direction, speed);
        }
    }
    match store.sole_of_kind(kind) {
        Some(i) => {
            let e = store.entity_at(i);
            let p = move_point(e.position, direction, speed, dt);
            store.set_position(i, p);
        },
        None => {},
    }
}

/// Whether `steer` may be called on these arguments.
pub fn fits_steer(store: &EntityStore, kind: Kind, direction: Vec2, speed: u32, dt: u64) -> (ok:
    bool)
    ensures
        ok == can_steer(store@, kind, direction, speed, dt),
{
    match store.sole_of_kind(kind) {
        Some(i) => {
            let e = store.entity_at(i);
            fits_move(e.position, direction, speed, dt)
        },
        None => true,
    }
}

/// Turns every entity of kind `kind` back on each axis on which it has left
/// the band of the field, and returns how many have turned.
pub fn turn_kind(store: &mut EntityStore, kind: Kind, half: u32, field: PlayField) -> (count:
    usize)
    requires
        old(store).wf(),
    ensures
        final(store).wf(),
        final(store)@ == turned(old(store)@, kind, half, field),
        final(store).next_id() == old(store).next_id(),
        count == strays(old(store)@, kind, half, field).len(),
{
    let ghost before = store@;
    let ghost stray = |e: Entity| e.kind == kind && leaves_band(e, half, field);
    let n: usize = store.len();
    let mut count: usize = 0;
    let mut i: usize = 0;
    proof {
        reveal(Seq::filter);
        assert(before.take(0) =~= Seq::<Entity>::empty());
    }
    while i < n
        invariant
            i <= n,
            n == before.len(),
            store@.len() == before.len(),
            store.wf(),
            old(store).wf(),
            before == old(store)@,
            store.next_id() == old(store).next_id(),
            stray == (|e: Entity| e.kind == kind && leaves_band(e, half, field)),
            count <= i,
            count == before.take(i as int).filter(stray).len(),
            forall|k: int| 0 <= k < i ==> store@[k] == turn_entity(before[k], kind, half, field),
            forall|k: int| i <= k < n ==> store@[k] == before[k],
        decreases n - i,
    {
        let e = store.entity_at(i);
        proof {
            before.take(i as int).lemma_filter_push(e, stray);
            assert(before.take(i as int).push(e) =~= before.take(i as int + 1));
            assert(e.direction.is_bounded());
        }
        if e.kind == kind {
            let out_x = is_outside_band(e.position.x, half, field.width);
            let out_y = is_outside_band(e.position.y, half, field.height);
            let mut direction = e.direction;
            if out_x {
                direction = direction.flip_x();
            }
            if out_y {
                direction = direction.flip_y();
            }
            if out_x || out_y {
                store.set_direction(i, direction);
                count = count + 1;
            }
        }
        i = i + 1;
    }
    proof {
        assert(before.take(n as int) =~= before);
        assert(store@ =~= turned(before, kind, half, field));
    }
    count
}

/// Reverses the vertical direction of every entity of kind `kind` that has
/// gone strictly beyond the lower or the upper edge of the band. An entity on
/// the edge itself goes on; none is moved back inside.
pub fn rebound_kind(store: &mut EntityStore, kind: Kind, half: u32, field: PlayField)
    requires
        old(store).wf(),
    ensures
        final(store).wf(),
        final(store)@ == rebounded(old(store)@, kind, half, field),
        final(store).next_id() == old(store).next_id(),
{
    let ghost before = store@;
    let n: usize = store.len();
    let mut i: usize = 0;
    while i < n
        invariant
            i <= n,
            n == before.len(),
            store@.len() == before.len(),
            store.wf(),
            old(store).wf(),
            before == old(store)@,
            store.next_id() == old(store).next_id(),
            forall|k: int|
                0 <= k < i ==> store@[k] == rebound_entity(before[k], kind, half, field),
            forall|k: int| i <= k < n ==> store@[k] == before[k],
        decreases n - i,
    {
        let e = store.entity_at(i);
        proof {
            assert(e.direction.is_bounded());
        }
        if e.kind == kind {
            let mut direction = e.direction;
            let low: i64 = half as i64;
            let high: i64 = field.height as i64 - half as i64;
            if e.position.y < low {
                direction = direction.flip_y();
            }
            if e.position.y > high {
                direction = direction.flip_y();
            }
            store.set_direction(i, direction);
            assert(store@[i as int] == rebound_entity(before[i as int], kind, half, field));
        }
        i = i + 1;
    }
    assert(store@ =~= rebounded(before, kind, half, field));
}

/// Reverses the horizontal direction of every entity of kind `ball` whose box
/// meets that of the only paddle of kind `paddle`. The test is made anew in
/// every frame: a ball that stays in the paddle's box turns in every frame.
pub fn deflect_kind(
    store: &mut EntityStore,
    ball: Kind,
    ball_half_height: u32,
    paddle: Kind,
    paddle_half_height: u32,
    reach: u32,
)
    requires
        old(store).wf(),
    ensures
        final(store).wf(),
        final(store)@ == deflected(
            old(store)@,
            ball,
            ball_half_height,
            paddle,
            paddle_half_height,
            reach,
        ),
        final(store).next_id() == old(store).next_id(),
{
    let ghost before = store@;
    match store.sole_of_kind(paddle) {
        Some(p) => {
            let at = store.entity_at(p).position;
            let n: usize = store.len();
            let mut i: usize = 0;
            while i < n
                invariant
                    i <= n,
                    n == before.len(),
                    store@.len() == before.len(),
                    store.wf(),
                    old(store).wf(),
                    before == old(store)@,
                    store.next_id() == old(store).next_id(),
                    forall|k: int|
                        0 <= k < i ==> store@[k] == deflect_entity(
                            before[k],
                            ball,
                            ball_half_height,
                            at,
                            paddle_half_height,
                            reach,
                        ),
                    forall|k: int| i <= k < n ==> store@[k] == before[k],
                decreases n - i,
            {
                let e = store.entity_at(i);
                proof {
                    assert(e.direction.is_bounded());
                }
                if e.kind == ball && meets(
                    at,
                    paddle_half_height,
                    e.position,
                    ball_half_height,
                    reach,
                ) {
                    store.set_direction(i, e.direction.flip_x());
                }
                i = i + 1;
            }
            assert(store@ =~= deflected(
                before,
                ball,
                ball_half_height,
                paddle,
                paddle_half_height,
                reach,
            ));
        },
        None => {},
    }
}

/// Gives the only entity of kind `follower` the vertical coordinate of the
/// only one of kind `leader`, at once and in full.
pub fn follow(store: &mut EntityStore, follower: Kind, leader: Kind)
    requires
        old(store).wf(),
    ensures
        final(store).wf(),
        final(store)@ == followed(old(store)@, follower, leader),
        final(store).next_id() == old(store).next_id(),
{
    match store.sole_of_kind(follower) {
        Some(i) => {
            match store.sole_of_kind(leader) {
                Some(j) => {
                    let y: i64 = store.entity_at(j).position.y;
                    let x: i64 = store.entity_at(i).position.x;
                    store.set_position(i, Point { x, y });
                },
                None => {},
            }
        },
        None => {},
    }
}

/// Holds every entity of kind `kind` inside the field, each axis by itself.
pub fn confine_kind(store: &mut EntityStore, kind: Kind, half: u32, field: PlayField)
    requires
        old(store).wf(),
    ensures
        final(store).wf(),
        final(store)@ == confined_kind(old(store)@, kind, half, field),
        final(store).next_id() == old(store).next_id(),
        2 * half <= field.width && 2 * half <= field.height ==> forall|i: int|
            0 <= i < final(store)@.len() && (#[trigger] final(store)@[i]).kind == kind
                ==> !leaves_band(final(store)@[i], half, field),
{
    let ghost before = store@;
    let n: usize = store.len();
    let mut i: usize = 0;
    while i < n
        invariant
            i <= n,
            n == before.len(),
            store@.len() == before.len(),
            store.wf(),
            store.next_id() == old(store).next_id(),
            forall|k: int|
                0 <= k < i ==> store@[k] == confine_entity(before[k], kind, half, field),
            forall|k: int| i <= k < n ==> store@[k] == before[k],
        decreases n - i,
    {
        let e = store.entity_at(i);
        if e.kind == kind {
            store.set_position(i, field.confine(e.position, half));
        }
        i = i + 1;
    }
    assert(store@ =~= confined_kind(before, kind, half, field));
}

/// Holds the only entity of kind `kind` inside the field, each axis by
/// itself. Where there is none of that kind, or more than one, nothing moves.
pub fn confine_sole(store: &mut EntityStore, kind: Kind, half: u32, field: PlayField)
    requires
        old(store).wf(),
    ensures
        final(store).wf(),
        final(store)@ == confined_sole(old(store)@, kind, half, field),
        final(store).next_id() == old(store).next_id(),
        2 * half <= field.width && 2 * half <= field.height ==> (sole(old(store)@, kind) matches Some(
            i,
        ) ==> !leaves_band(final(store)@[i], half, field)),
{
    match store.sole_of_kind(kind) {
        Some(i) => {
            let e = store.entity_at(i);
            store.set_position(i, field.confine(e.position, half));
        },
        None => {},
    }
}

} // verus!
