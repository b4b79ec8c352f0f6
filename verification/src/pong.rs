//! The paddle game: a ball that bounces between a paddle steered by the
//! player and a paddle that follows the ball.
//!
//! Lengths are in thousandths of a pixel, speeds in thousandths of a pixel per
//! second, durations in nanoseconds.

use vstd::prelude::*;
use crate::event::append;
use crate::event::Event;
use crate::field::PlayField;
use crate::frame::FrameInput;
use crate::pass::at_position;
use crate::pass::can_drift;
use crate::pass::can_steer;
use crate::pass::deflect_kind;
use crate::pass::deflected;
use crate::pass::drift;
use crate::pass::drifted;
use crate::pass::fits_drift;
use crate::pass::fits_steer;
use crate::pass::follow;
use crate::pass::followed;
use crate::pass::lemma_drift_keeps_drift;
use crate::pass::lemma_passes_keep_entities;
use crate::pass::lemma_steer_keeps_drift;
use crate::pass::rebound_kind;
use crate::pass::rebounded;
use crate::pass::steer;
use crate::pass::steered;
use crate::random::sample_side;
use crate::spawn::created_event;
use crate::spawn::place;
use crate::store::lemma_same_entities_same_sole;
use crate::store::lemma_same_entities_transitive;
use crate::store::same_entities;
use crate::store::sole;
use crate::store::Entity;
use crate::store::EntityId;
use crate::store::EntityStore;
use crate::store::Kind;
use crate::vector::Point;
use crate::vector::Vec2;
use crate::vector::UNIT;

verus! {

/// The height of a paddle.
pub const PLAYER_SIZE: u32 = 64_000;

/// The width of a paddle.
pub const PLAYER_WIDTH: u32 = 10_000;

/// The diameter of the ball.
pub const STAR_SIZE: u32 = 30_000;

/// The speed of the player's paddle.
pub const PLAYER_SPEED: u32 = 600_000;

/// The speed of the ball.
pub const STAR_SPEED: u32 = 500_000;

/// How far from its edge of the field a paddle stands.
pub const PADDLE_INSET: u32 = 15_000;

/// The vertical part of the ball's first direction, where the horizontal
/// part is `UNIT`.
pub const LAUNCH_SLOPE: i32 = 400_000;

/// Half the height of a paddle.
pub const PLAYER_HALF: u32 = PLAYER_SIZE / 2;

/// Half the diameter of the ball.
pub const STAR_HALF: u32 = STAR_SIZE / 2;

/// How far apart the centres of ball and paddle may be horizontally for the
/// two to meet.
pub const PADDLE_REACH: u32 = PLAYER_WIDTH / 2 + STAR_SIZE / 2;

/// What makes an entity the player's paddle. It holds nothing: the kind says
/// it all.
#[derive(Clone, Copy, Debug, PartialEq, Eq, Structural)]
pub struct PlayerOne {}

/// What makes an entity the other paddle. It holds nothing: the kind says it
/// all.
#[derive(Clone, Copy, Debug, PartialEq, Eq, Structural)]
pub struct PlayerTwo {}

/// What makes an entity a ball: the direction in which it flies.
#[derive(Clone, Copy, Debug, PartialEq, Eq, Structural)]
pub struct Star {
    pub direction: Vec2,
}

impl PlayerOne {
    /// The player's paddle in `entity`, if the entity is that paddle.
    pub fn of(entity: Entity) -> (found: Option<PlayerOne>)
        ensures
            found == (if entity.kind == Kind::PaddleA {
                Some(PlayerOne {  })
            } else {
                None::<PlayerOne>
            }),
    {
        match entity.kind {
            Kind::PaddleA => Some(PlayerOne {  }),
            _ => None,
        }
    }
}

impl PlayerTwo {
    /// The other paddle in `entity`, if the entity is that paddle.
    pub fn of(entity: Entity) -> (found: Option<PlayerTwo>)
        ensures
            found == (if entity.kind == Kind::PaddleB {
                Some(PlayerTwo {  })
            } else {
                None::<PlayerTwo>
            }),
    {
        match entity.kind {
            Kind::PaddleB => Some(PlayerTwo {  }),
            _ => None,
        }
    }
}

impl Star {
    /// The ball in `entity`, if the entity is a ball.
    pub fn of(entity: Entity) -> (found: Option<Star>)
        ensures
            found == (if entity.kind == Kind::ProjectileA || entity.kind == Kind::ProjectileB {
                Some(Star { direction: entity.direction })
            } else {
                None::<Star>
            }),
    {
        match entity.kind {
            Kind::ProjectileA => Some(Star { direction: entity.direction }),
            Kind::ProjectileB => Some(Star { direction: entity.direction }),
            _ => None,
        }
    }
}

/// The points of the player's side.
#[derive(Clone, Copy, Debug, PartialEq, Eq, Structural)]
pub struct PlayerOneScore {
    pub value: u32,
}

impl Default for PlayerOneScore {
    fn default() -> (score: PlayerOneScore)
        ensures
            score.value == 0,
    {
        PlayerOneScore { value: 0 }
    }
}

/// The points of the other side.
#[derive(Clone, Copy, Debug, PartialEq, Eq, Structural)]
pub struct PlayerTwoScore {
    pub value: u32,
}

impl Default for PlayerTwoScore {
    fn default() -> (score: PlayerTwoScore)
        ensures
            score.value == 0,
    {
        PlayerTwoScore { value: 0 }
    }
}

/// Where the player's paddle starts.
pub open spec fn player_one_start(field: PlayField) -> Point {
    Point { x: PADDLE_INSET as i64, y: (field.height / 2) as i64 }
}

/// Where the other paddle starts.
pub open spec fn player_two_start(field: PlayField) -> Point {
    Point { x: (field.width - PADDLE_INSET) as i64, y: (field.height / 2) as i64 }
}

/// One of the four directions in which the ball may start: to the right or
/// to the left, and upwards or downwards at the launch slope; normalised.
pub open spec fn launch_direction(rightwards: bool, upwards: bool) -> Vec2 {
    Vec2 {
        x: if rightwards {
            UNIT
        } else {
            (-UNIT) as i32
        },
        y: if upwards {
            LAUNCH_SLOPE
        } else {
            (-LAUNCH_SLOPE) as i32
        },
    }.normalized()
}

/// `c` raised to `lo` where it is below, and then lowered to `hi` where it is
/// above. Where `lo` is at most `hi`, that is `c` held between the two.
pub open spec fn held_between(c: int, lo: int, hi: int) -> int {
    let raised = if c < lo {
        lo
    } else {
        c
    };
    if raised > hi {
        hi
    } else {
        raised
    }
}

/// The entities after the player's paddle has been held inside the field,
/// on the vertical axis.
pub open spec fn after_confine_player_one(entities: Seq<Entity>, field: PlayField) -> Seq<
    Entity,
> {
    match sole(entities, Kind::PaddleA) {
        Some(i) => entities.update(
            i,
            at_position(
                entities[i],
                Point {
                    x: entities[i].position.x,
                    y: held_between(
                        entities[i].position.y as int,
                        PLAYER_HALF as int,
                        field.height - PLAYER_HALF,
                    ) as i64,
                },
            ),
        ),
        None => entities,
    }
}

/// The direction that the input gives the player's paddle: the vertical part
/// of the intent, normalised.
pub open spec fn paddle_direction(intent: Vec2) -> Vec2 {
    Vec2 { x: 0, y: intent.y }.normalized()
}

/// The entities after the balls have moved.
pub open spec fn after_star_direction(entities: Seq<Entity>, dt: u64) -> Seq<Entity> {
    drifted(
        drifted(entities, Kind::ProjectileA, STAR_SPEED, dt),
        Kind::ProjectileB,
        STAR_SPEED,
        dt,
    )
}

/// Whether the balls can move without leaving the machine's integers.
pub open spec fn can_star_direction(entities: Seq<Entity>, dt: u64) -> bool {
    &&& can_drift(entities, Kind::ProjectileA, STAR_SPEED, dt)
    &&& can_drift(entities, Kind::ProjectileB, STAR_SPEED, dt)
}

/// The entities after the balls have rebounded from the lower and the upper
/// edge of the field.
pub open spec fn after_change_star_direction(entities: Seq<Entity>, field: PlayField) -> Seq<
    Entity,
> {
    rebounded(
        rebounded(entities, Kind::ProjectileA, STAR_HALF, field),
        Kind::ProjectileB,
        STAR_HALF,
        field,
    )
}

/// The entities after the balls have been deflected by the only paddle of
/// kind `paddle`.
pub open spec fn after_paddle(entities: Seq<Entity>, paddle: Kind) -> Seq<Entity> {
    deflected(
        deflected(entities, Kind::ProjectileA, STAR_HALF, paddle, PLAYER_HALF, PADDLE_REACH),
        Kind::ProjectileB,
        STAR_HALF,
        paddle,
        PLAYER_HALF,
        PADDLE_REACH,
    )
}

/// In a field with room for the paddle, the paddle is held in the band from
/// half its height to the field's height less that, wherever it was before.
pub proof fn lemma_held_in_band(c: int, lo: int, hi: int)
    requires
        lo <= hi,
    ensures
        lo <= held_between(c, lo, hi) <= hi,
        lo <= c <= hi ==> held_between(c, lo, hi) == c,
{
}

/// A ball below the upper edge of the band, or on it, keeps its direction; a
/// ball strictly beyond it has its vertical direction reversed, and is left
/// where it is. In a field with room for the ball.
pub proof fn lemma_rebound_at_upper_edge(e: Entity, half: u32, field: PlayField)
    requires
        2 * half <= field.height,
        e.direction.is_bounded(),
    ensures
        half <= e.position.y <= field.height - half ==> crate::pass::rebound_entity(
            e,
            e.kind,
            half,
            field,
        ) == e,
        e.position.y > field.height - half ==> crate::pass::rebound_entity(
            e,
            e.kind,
            half,
            field,
        ) == (Entity { direction: Vec2 { x: e.direction.x, y: (-e.direction.y) as i32 }, ..e }),
        crate::pass::rebound_entity(e, e.kind, half, field).position == e.position,
{
}

/// A ball that has gone beyond the upper edge on its way up is turned where
/// it is, and the next motion takes it back down by as much as it would have
/// taken it further up.
pub proof fn lemma_ball_comes_back(e: Entity, field: PlayField, dt: u64)
    requires
        e.kind == Kind::ProjectileA,
        STAR_SIZE <= field.height,
        e.direction.is_bounded(),
        e.direction.y > 0,
        e.position.y > field.height - STAR_HALF,
        i64::MIN <= e.position.y - crate::motion::displacement(
            e.direction.y as int,
            STAR_SPEED as int,
            dt as int,
        ),
    ensures
        ({
            let turned = crate::pass::rebound_entity(e, Kind::ProjectileA, STAR_HALF, field);
            let next = crate::pass::drift_entity(turned, Kind::ProjectileA, STAR_SPEED, dt);
            &&& turned.position == e.position
            &&& turned.direction.y == -e.direction.y
            &&& turned.direction.x == e.direction.x
            &&& next.position.y == e.position.y - crate::motion::displacement(
                e.direction.y as int,
                STAR_SPEED as int,
                dt as int,
            )
            &&& next.position.y <= e.position.y
        }),
{
    crate::motion::lemma_displacement_odd(e.direction.y as int, STAR_SPEED as int, dt as int);
    let d = crate::motion::displacement(e.direction.y as int, STAR_SPEED as int, dt as int);
    assert(d >= 0) by {
        assert(e.direction.y * STAR_SPEED * dt >= 0) by (nonlinear_arith)
            requires
                e.direction.y > 0,
                STAR_SPEED >= 0,
                dt >= 0,
        ;
    }
}

/// Puts the player's paddle at the left edge of the field, half way up.
pub fn spawn_player_one(store: &mut EntityStore, field: PlayField) -> (events: Vec<Event>)
    requires
        old(store).wf(),
        old(store).next_id() < u64::MAX,
    ensures
        final(store).wf(),
        final(store)@ == old(store)@.push(
            Entity {
                id: EntityId(old(store).next_id()),
                kind: Kind::PaddleA,
                position: player_one_start(field),
                direction: Vec2 { x: 0, y: 0 },
            },
        ),
        final(store).next_id() == old(store).next_id() + 1,
        events@ == seq![created_event(final(store)@.last())],
{
    let position = Point { x: PADDLE_INSET as i64, y: (field.height / 2) as i64 };
    let mut events: Vec<Event> = Vec::new();
    events.push(place(store, Kind::PaddleA, position, Vec2::zero()));
    assert(events@ =~= seq![created_event(store@.last())]);
    events
}

/// Puts the other paddle at the right edge of the field, half way up.
pub fn spawn_player_two(store: &mut EntityStore, field: PlayField) -> (events: Vec<Event>)
    requires
        old(store).wf(),
        old(store).next_id() < u64::MAX,
    ensures
        final(store).wf(),
        final(store)@ == old(store)@.push(
            Entity {
                id: EntityId(old(store).next_id()),
                kind: Kind::PaddleB,
                position: player_two_start(field),
                direction: Vec2 { x: 0, y: 0 },
            },
        ),
        final(store).next_id() == old(store).next_id() + 1,
        events@ == seq![created_event(final(store)@.last())],
{
    let position = Point {
        x: field.width as i64 - PADDLE_INSET as i64,
        y: (field.height / 2) as i64,
    };
    let mut events: Vec<Event> = Vec::new();
    events.push(place(store, Kind::PaddleB, position, Vec2::zero()));
    assert(events@ =~= seq![created_event(store@.last())]);
    events
}

/// Puts the ball in the middle of the field, on the way to the right or to
/// the left, and upwards or downwards.
pub fn launch_star(store: &mut EntityStore, field: PlayField, rightwards: bool, upwards: bool) -> (events:
    Vec<Event>)
    requires
        old(store).wf(),
        old(store).next_id() < u64::MAX,
    ensures
        final(store).wf(),
        final(store)@ == old(store)@.push(
            Entity {
                id: EntityId(old(store).next_id()),
                kind: Kind::ProjectileA,
                position: field.center(),
                direction: launch_direction(rightwards, upwards),
            },
        ),
        final(store).next_id() == old(store).next_id() + 1,
        events@ == seq![created_event(final(store)@.last())],
{
    let x: i32 = if rightwards {
        UNIT
    } else {
        -UNIT
    };
    let y: i32 = if upwards {
        LAUNCH_SLOPE
    } else {
        -LAUNCH_SLOPE
    };
    let direction = Vec2 { x, y }.normalize();
    let mut events: Vec<Event> = Vec::new();
    events.push(place(store, Kind::ProjectileA, field.middle(), direction));
    assert(events@ =~= seq![created_event(store@.last())]);
    events
}

/// Puts the ball in the middle of the field and sends it off in one of the
/// four launch directions, picked at random.
pub fn spawn_star(store: &mut EntityStore, field: PlayField, rng: &mut rand::rngs::StdRng) -> (events:
    Vec<Event>)
    requires
        old(store).wf(),
        old(store).next_id() < u64::MAX,
    ensures
        final(store).wf(),
        final(store).next_id() == old(store).next_id() + 1,
        final(store)@.len() == old(store)@.len() + 1,
        final(store)@.drop_last() == old(store)@,
        final(store)@.last().id == EntityId(old(store).next_id()),
        final(store)@.last().kind == Kind::ProjectileA,
        final(store)@.last().position == field.center(),
        exists|rightwards: bool, upwards: bool|
            final(store)@.last().direction == launch_direction(rightwards, upwards),
        events@ == seq![created_event(final(store)@.last())],
{
    let rightwards = sample_side(rng);
    let upwards = sample_side(rng);
    let events = launch_star(store, field, rightwards, upwards);
    proof {
        assert(store@.drop_last() =~= old(store)@);
        assert(store@.last().direction == launch_direction(rightwards, upwards));
    }
    events
}

/// Moves the player's paddle up or down as the intent of this frame asks.
pub fn player_one_movement(store: &mut EntityStore, intent: Vec2, dt: u64)
    requires
        old(store).wf(),
        can_steer(old(store)@, Kind::PaddleA, paddle_direction(intent), PLAYER_SPEED, dt),
    ensures
        final(store).wf(),
        final(store)@ == steered(
            old(store)@,
            Kind::PaddleA,
            paddle_direction(intent),
            PLAYER_SPEED,
            dt,
        ),
        final(store).next_id() == old(store).next_id(),
        dt == 0 ==> final(store)@ == old(store)@,
{
    let direction = Vec2 { x: 0, y: intent.y }.normalize();
    steer(store, Kind::PaddleA, direction, PLAYER_SPEED, dt);
}

/// Holds the player's paddle inside the field, on the vertical axis.
pub fn confine_player_one(store: &mut EntityStore, field: PlayField)
    requires
        old(store).wf(),
    ensures
        final(store).wf(),
        final(store)@ == after_confine_player_one(old(store)@, field),
        final(store).next_id() == old(store).next_id(),
        PLAYER_SIZE <= field.height ==> (sole(old(store)@, Kind::PaddleA) matches Some(i)
            ==> PLAYER_HALF <= final(store)@[i].position.y <= field.height - PLAYER_HALF),
{
    match store.sole_of_kind(Kind::PaddleA) {
        Some(i) => {
            let e = store.entity_at(i);
            let y_min: i64 = PLAYER_HALF as i64;
            let y_max: i64 = field.height as i64 - PLAYER_HALF as i64;
            let mut y: i64 = e.position.y;
            if y < y_min {
                y = y_min;
            }
            if y > y_max {
                y = y_max;
            }
            store.set_position(i, Point { x: e.position.x, y });
        },
        None => {},
    }
}

/// Moves every ball along its direction.
pub fn star_direction(store: &mut EntityStore, dt: u64)
    requires
        old(store).wf(),
        can_star_direction(old(store)@, dt),
    ensures
        final(store).wf(),
        final(store)@ == after_star_direction(old(store)@, dt),
        final(store).next_id() == old(store).next_id(),
        dt == 0 ==> final(store)@ == old(store)@,
{
    proof {
        lemma_drift_keeps_drift(
            store@,
            Kind::ProjectileA,
            STAR_SPEED,
            dt,
            Kind::ProjectileB,
            STAR_SPEED,
        );
    }
    drift(store, Kind::ProjectileA, STAR_SPEED, dt);
    drift(store, Kind::ProjectileB, STAR_SPEED, dt);
}

/// Reverses the vertical direction of every ball that has gone strictly
/// beyond the lower or the upper edge of its band. The ball is not moved
/// back: it may be past the edge by what it travels in one frame.
pub fn change_star_direction(store: &mut EntityStore, field: PlayField)
    requires
        old(store).wf(),
    ensures
        final(store).wf(),
        final(store)@ == after_change_star_direction(old(store)@, field),
        final(store).next_id() == old(store).next_id(),
{
    rebound_kind(store, Kind::ProjectileA, STAR_HALF, field);
    rebound_kind(store, Kind::ProjectileB, STAR_HALF, field);
}

/// Reverses the horizontal direction of every ball that meets the player's
/// paddle.
pub fn player_star_collision(store: &mut EntityStore)
    requires
        old(store).wf(),
    ensures
        final(store).wf(),
        final(store)@ == after_paddle(old(store)@, Kind::PaddleA),
        final(store).next_id() == old(store).next_id(),
{
    deflect_kind(store, Kind::ProjectileA, STAR_HALF, Kind::PaddleA, PLAYER_HALF, PADDLE_REACH);
    deflect_kind(store, Kind::ProjectileB, STAR_HALF, Kind::PaddleA, PLAYER_HALF, PADDLE_REACH);
}

/// Gives the other paddle the height of the ball, at once and in full.
pub fn player_two_movement(store: &mut EntityStore)
    requires
        old(store).wf(),
    ensures
        final(store).wf(),
        final(store)@ == followed(old(store)@, Kind::PaddleB, Kind::ProjectileA),
        final(store).next_id() == old(store).next_id(),
{
    follow(store, Kind::PaddleB, Kind::ProjectileA);
}

/// Reverses the horizontal direction of every ball that meets the other
/// paddle.
pub fn player_two_star_collision(store: &mut EntityStore)
    requires
        old(store).wf(),
    ensures
        final(store).wf(),
        final(store)@ == after_paddle(old(store)@, Kind::PaddleB),
        final(store).next_id() == old(store).next_id(),
{
    deflect_kind(store, Kind::ProjectileA, STAR_HALF, Kind::PaddleB, PLAYER_HALF, PADDLE_REACH);
    deflect_kind(store, Kind::ProjectileB, STAR_HALF, Kind::PaddleB, PLAYER_HALF, PADDLE_REACH);
}

/// The entities after one frame of the paddle game: the player's paddle
/// moves on the intent, the balls move on their directions and the other
/// paddle follows; the balls rebound from the field's edges and are deflected
/// by the paddles; the player's paddle is held inside the field.
pub open spec fn after_frame(entities: Seq<Entity>, input: FrameInput) -> Seq<Entity> {
    after_confine_player_one(
        after_paddle(
            after_paddle(
                after_change_star_direction(
                    followed(
                        after_star_direction(
                            steered(
                                entities,
                                Kind::PaddleA,
                                paddle_direction(input.intent),
                                PLAYER_SPEED,
                                input.dt,
                            ),
                            input.dt,
                        ),
                        Kind::PaddleB,
                        Kind::ProjectileA,
                    ),
                    input.field,
                ),
                Kind::PaddleA,
            ),
            Kind::PaddleB,
        ),
        input.field,
    )
}

/// A frame of the paddle game leaves the same entities in the same places of
/// the store: none comes and none goes.
pub proof fn lemma_frame_keeps_entities(entities: Seq<Entity>, input: FrameInput)
    ensures
        same_entities(entities, after_frame(entities, input)),
{
    let field = input.field;
    let zero = Vec2 { x: 0, y: 0 };
    let a = Kind::ProjectileA;
    let b = Kind::ProjectileB;
    let s1 = steered(entities, Kind::PaddleA, paddle_direction(input.intent), PLAYER_SPEED, input.dt);
    let s2 = drifted(s1, a, STAR_SPEED, input.dt);
    let s3 = drifted(s2, b, STAR_SPEED, input.dt);
    let s4 = followed(s3, Kind::PaddleB, a);
    let s5 = rebounded(s4, a, STAR_HALF, field);
    let s6 = rebounded(s5, b, STAR_HALF, field);
    let s7 = deflected(s6, a, STAR_HALF, Kind::PaddleA, PLAYER_HALF, PADDLE_REACH);
    let s8 = deflected(s7, b, STAR_HALF, Kind::PaddleA, PLAYER_HALF, PADDLE_REACH);
    let s9 = deflected(s8, a, STAR_HALF, Kind::PaddleB, PLAYER_HALF, PADDLE_REACH);
    let s10 = deflected(s9, b, STAR_HALF, Kind::PaddleB, PLAYER_HALF, PADDLE_REACH);
    let s11 = after_confine_player_one(s10, field);
    assert(s11 == after_frame(entities, input));
    lemma_passes_keep_entities(entities, Kind::PaddleA, a, paddle_direction(input.intent), PLAYER_SPEED, input.dt, 0, 0, 0, field);
    lemma_passes_keep_entities(s1, a, a, zero, STAR_SPEED, input.dt, 0, 0, 0, field);
    lemma_passes_keep_entities(s2, b, b, zero, STAR_SPEED, input.dt, 0, 0, 0, field);
    lemma_passes_keep_entities(s3, Kind::PaddleB, a, zero, 0, 0, 0, 0, 0, field);
    lemma_passes_keep_entities(s4, a, a, zero, 0, 0, STAR_HALF, 0, 0, field);
    lemma_passes_keep_entities(s5, b, b, zero, 0, 0, STAR_HALF, 0, 0, field);
    lemma_passes_keep_entities(s6, a, Kind::PaddleA, zero, 0, 0, STAR_HALF, PLAYER_HALF, PADDLE_REACH, field);
    lemma_passes_keep_entities(s7, b, Kind::PaddleA, zero, 0, 0, STAR_HALF, PLAYER_HALF, PADDLE_REACH, field);
    lemma_passes_keep_entities(s8, a, Kind::PaddleB, zero, 0, 0, STAR_HALF, PLAYER_HALF, PADDLE_REACH, field);
    lemma_passes_keep_entities(s9, b, Kind::PaddleB, zero, 0, 0, STAR_HALF, PLAYER_HALF, PADDLE_REACH, field);
    assert(same_entities(s10, s11));
    lemma_same_entities_transitive(entities, s1, s2);
    lemma_same_entities_transitive(entities, s2, s3);
    lemma_same_entities_transitive(entities, s3, s4);
    lemma_same_entities_transitive(entities, s4, s5);
    lemma_same_entities_transitive(entities, s5, s6);
    lemma_same_entities_transitive(entities, s6, s7);
    lemma_same_entities_transitive(entities, s7, s8);
    lemma_same_entities_transitive(entities, s8, s9);
    lemma_same_entities_transitive(entities, s9, s10);
    lemma_same_entities_transitive(entities, s10, s11);
}

/// Every frame leaves the player's paddle inside the field: where there is
/// but one such paddle and the field has room for it, the frame leaves it in
/// the band from half its height to the field's height less that, wherever it
/// was before and however far it moved.
pub proof fn lemma_frame_confines_paddle(entities: Seq<Entity>, input: FrameInput)
    requires
        PLAYER_SIZE <= input.field.height,
    ensures
        sole(entities, Kind::PaddleA) matches Some(i) ==> PLAYER_HALF <= after_frame(
            entities,
            input,
        )[i].position.y <= input.field.height - PLAYER_HALF,
{
    let field = input.field;
    let before_last = after_paddle(
        after_paddle(
            after_change_star_direction(
                followed(
                    after_star_direction(
                        steered(
                            entities,
                            Kind::PaddleA,
                            paddle_direction(input.intent),
                            PLAYER_SPEED,
                            input.dt,
                        ),
                        input.dt,
                    ),
                    Kind::PaddleB,
                    Kind::ProjectileA,
                ),
                field,
            ),
            Kind::PaddleA,
        ),
        Kind::PaddleB,
    );
    let last = after_confine_player_one(before_last, field);
    assert(last == after_frame(entities, input));
    lemma_frame_keeps_entities(entities, input);
    assert(same_entities(before_last, last));
    assert(same_entities(entities, before_last)) by {
        assert forall|i: int| 0 <= i < entities.len() implies (#[trigger] before_last[i]).id
            == entities[i].id && before_last[i].kind == entities[i].kind by {
            assert(last[i].id == before_last[i].id && last[i].kind == before_last[i].kind);
            assert(last[i].id == entities[i].id && last[i].kind == entities[i].kind);
        }
    }
    lemma_same_entities_same_sole(entities, before_last, Kind::PaddleA);
}

/// Whether one frame of the paddle game stays within the machine's integers.
pub open spec fn can_frame(entities: Seq<Entity>, input: FrameInput) -> bool {
    &&& can_steer(
        entities,
        Kind::PaddleA,
        paddle_direction(input.intent),
        PLAYER_SPEED,
        input.dt,
    )
    &&& can_star_direction(entities, input.dt)
}

/// What one frame of the paddle game hands back to the host.
#[derive(Clone, Copy, Debug, PartialEq, Eq, Structural)]
pub struct FrameOutput {
    /// The points of the player's side.
    pub player_one_score: u32,
    /// The points of the other side.
    pub player_two_score: u32,
    /// Whether the host is to end the game.
    pub exit_requested: bool,
}

/// The paddle game: its entities and its two scores.
pub struct Pong {
    pub store: EntityStore,
    pub player_one_score: PlayerOneScore,
    pub player_two_score: PlayerTwoScore,
}

impl Pong {
    /// The game's invariant: that of its store.
    pub open spec fn wf(&self) -> bool {
        self.store.wf()
    }

    /// A game with no entities and no points.
    pub fn new() -> (pong: Pong)
        ensures
            pong.wf(),
            pong.store@ == Seq::<Entity>::empty(),
            pong.store.next_id() == 0,
            pong.player_one_score.value == 0,
            pong.player_two_score.value == 0,
    {
        Pong {
            store: EntityStore::new(),
            player_one_score: PlayerOneScore::default(),
            player_two_score: PlayerTwoScore::default(),
        }
    }

    /// Sets the game up: the two paddles at their edges, and the ball in the
    /// middle, on its way in one of the four launch directions.
    pub fn startup(&mut self, field: PlayField, rng: &mut rand::rngs::StdRng) -> (events: Vec<
        Event,
    >)
        requires
            old(self).wf(),
            old(self).store.next_id() + 3 <= u64::MAX,
        ensures
            final(self).wf(),
            final(self).player_one_score == old(self).player_one_score,
            final(self).player_two_score == old(self).player_two_score,
            final(self).store.next_id() == old(self).store.next_id() + 3,
            final(self).store@.len() == old(self).store@.len() + 3,
            final(self).store@.take(old(self).store@.len() as int) == old(self).store@,
            final(self).store@[old(self).store@.len() as int] == (Entity {
                id: EntityId(old(self).store.next_id()),
                kind: Kind::PaddleA,
                position: player_one_start(field),
                direction: Vec2 { x: 0, y: 0 },
            }),
            final(self).store@[(old(self).store@.len() + 1) as int] == (Entity {
                id: EntityId((old(self).store.next_id() + 1) as u64),
                kind: Kind::PaddleB,
                position: player_two_start(field),
                direction: Vec2 { x: 0, y: 0 },
            }),
            final(self).store@.last().id == EntityId((old(self).store.next_id() + 2) as u64),
            final(self).store@.last().kind == Kind::ProjectileA,
            final(self).store@.last().position == field.center(),
            exists|rightwards: bool, upwards: bool|
                final(self).store@.last().direction == launch_direction(rightwards, upwards),
            events@ == crate::spawn::created_events(
                final(self).store@.skip(old(self).store@.len() as int),
            ),
    {
        let ghost before = self.store@;
        let mut events = spawn_player_one(&mut self.store, field);
        let two = spawn_player_two(&mut self.store, field);
        let ghost paddles = self.store@;
        let star = spawn_star(&mut self.store, field, rng);
        append(&mut events, &two);
        append(&mut events, &star);
        proof {
            let after = self.store@;
            assert forall|j: int| 0 <= j < paddles.len() implies after[j] == paddles[j] by {
                assert(after.drop_last()[j] == after[j]);
            }
            assert(after.take(before.len() as int) =~= before);
            assert(events@ =~= crate::spawn::created_events(after.skip(before.len() as int)));
        }
        events
    }

    /// Whether `step` may be called with `input`.
    pub fn fits_step(&self, input: &FrameInput) -> (ok: bool)
        requires
            self.wf(),
        ensures
            ok == can_frame(self.store@, *input),
    {
        let direction = Vec2 { x: 0, y: input.intent.y }.normalize();
        fits_steer(&self.store, Kind::PaddleA, direction, PLAYER_SPEED, input.dt) && fits_drift(
            &self.store,
            Kind::ProjectileA,
            STAR_SPEED,
            input.dt,
        ) && fits_drift(&self.store, Kind::ProjectileB, STAR_SPEED, input.dt)
    }

    /// One frame: the player's paddle moves, the balls move and the other
    /// paddle follows, the balls rebound and are deflected, and the player's
    /// paddle is held inside the field. No entity comes or goes, and no score
    /// changes.
    pub fn step(&mut self, input: &FrameInput) -> (output: FrameOutput)
        requires
            old(self).wf(),
            can_frame(old(self).store@, *input),
        ensures
            final(self).wf(),
            final(self).store@ == after_frame(old(self).store@, *input),
            final(self).store.next_id() == old(self).store.next_id(),
            final(self).player_one_score == old(self).player_one_score,
            final(self).player_two_score == old(self).player_two_score,
            output.player_one_score == old(self).player_one_score.value,
            output.player_two_score == old(self).player_two_score.value,
            output.exit_requested == input.quit_requested,
    {
        proof {
            lemma_steer_keeps_drift(
                self.store@,
                Kind::PaddleA,
                paddle_direction(input.intent),
                PLAYER_SPEED,
                input.dt,
                Kind::ProjectileA,
                STAR_SPEED,
            );
            lemma_steer_keeps_drift(
                self.store@,
                Kind::PaddleA,
                paddle_direction(input.intent),
                PLAYER_SPEED,
                input.dt,
                Kind::ProjectileB,
                STAR_SPEED,
            );
        }
        player_one_movement(&mut self.store, input.intent, input.dt);
        star_direction(&mut self.store, input.dt);
        player_two_movement(&mut self.store);
        change_star_direction(&mut self.store, input.field);
        player_star_collision(&mut self.store);
        player_two_star_collision(&mut self.store);
        confine_player_one(&mut self.store, input.field);
        FrameOutput {
            player_one_score: self.player_one_score.value,
            player_two_score: self.player_two_score.value,
            exit_requested: input.quit_requested,
        }
    }
}

} // verus!
