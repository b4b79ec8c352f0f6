//! The arena game: a player who collects stars and must keep clear of the
//! enemies that roam the field.
//!
//! Lengths are in thousandths of a pixel, speeds in thousandths of a pixel per
//! second, durations in nanoseconds.

use vstd::prelude::*;
use crate::contact::any_touching;
use crate::contact::destroy_touching;
use crate::contact::ids_of;
use crate::contact::in_contact;
use crate::contact::lemma_untouched_has_none;
use crate::contact::lemma_any_touching;
use crate::contact::touching;
use crate::contact::touching_ids;
use crate::contact::untouched;
use crate::event::append;
use crate::event::destroyed_events;
use crate::event::push_destroyed;
use crate::event::push_sounds;
use crate::event::sounds;
use crate::event::Cause;
use crate::event::Event;
use crate::field::PlayField;
use crate::frame::FrameInput;
use crate::pass::can_drift;
use crate::pass::can_steer;
use crate::pass::confine_kind;
use crate::pass::confine_sole;
use crate::pass::confined_kind;
use crate::pass::confined_sole;
use crate::pass::drift;
use crate::pass::drifted;
use crate::pass::fits_drift;
use crate::pass::fits_steer;
use crate::pass::leaves_band;
use crate::pass::lemma_passes_keep_entities;
use crate::pass::lemma_steer_keeps_drift;
use crate::pass::steer;
use crate::pass::steered;
use crate::pass::strays;
use crate::pass::turn_kind;
use crate::pass::turned;
use crate::spawn::created_events;
use crate::spawn::is_scatter;
use crate::spawn::place;
use crate::spawn::scatter;
use crate::spawn::is_scattered;
use crate::store::lemma_filter_keeps_all;
use crate::store::lemma_filter_keeps_sole;
use crate::store::at_most_one;
use crate::store::lemma_destroyed_are_gone;
use crate::store::lemma_same_entities_same_sole;
use crate::store::lemma_same_entities_transitive;
use crate::store::lemma_sole_destroyed;
use crate::store::same_entities;
use crate::store::sole;
use crate::store::well_formed;
use crate::store::without_id;
use crate::store::Entity;
use crate::store::EntityId;
use crate::store::EntityStore;
use crate::store::Kind;
use crate::timer::Timer;
use crate::timer::TimerMode;
use crate::vector::Vec2;

verus! {

/// The diameter of the player.
pub const PLAYER_SIZE: u32 = 64_000;

/// The speed of the player.
pub const PLAYER_SPEED: u32 = 500_000;

/// The number of enemies at the start.
pub const NUMBER_OF_ENEMIES: usize = 4;

/// The speed of an enemy.
pub const ENEMY_SPEED: u32 = 250_000;

/// The diameter of an enemy.
pub const ENEMY_SIZE: u32 = 64_000;

/// The number of stars at the start.
pub const NUMBER_OF_STARS: usize = 10;

/// The diameter of a star.
pub const STAR_SIZE: u32 = 30_000;

/// The time from one new star to the next.
pub const STAR_SPAWN_TIME: u64 = 2_000_000_000;

/// The time from one new enemy to the next.
pub const ENEMY_SPAWN_TIME: u64 = 2_000_000_000;

/// The radius of the player.
pub const PLAYER_RADIUS: u32 = PLAYER_SIZE / 2;

/// The radius of an enemy.
pub const ENEMY_RADIUS: u32 = ENEMY_SIZE / 2;

/// The radius of a star.
pub const STAR_RADIUS: u32 = STAR_SIZE / 2;

/// What makes an entity the player. It holds nothing: the kind says it all.
#[derive(Clone, Copy, Debug, PartialEq, Eq, Structural)]
pub struct Player {}

/// What makes an entity an enemy: the direction in which it roams.
#[derive(Clone, Copy, Debug, PartialEq, Eq, Structural)]
pub struct Enemy {
    pub direction: Vec2,
}

/// What makes an entity a star. It holds nothing: the kind says it all.
#[derive(Clone, Copy, Debug, PartialEq, Eq, Structural)]
pub struct Star {}

impl Player {
    /// The player in `entity`, if the entity is the player.
    pub fn of(entity: Entity) -> (found: Option<Player>)
        ensures
            found == (if entity.kind == Kind::Player {
                Some(Player {  })
            } else {
                None::<Player>
            }),
    {
        match entity.kind {
            Kind::Player => Some(Player {  }),
            _ => None,
        }
    }
}

impl Enemy {
    /// The enemy in `entity`, if the entity is an enemy.
    pub fn of(entity: Entity) -> (found: Option<Enemy>)
        ensures
            found == (if entity.kind == Kind::Roamer {
                Some(Enemy { direction: entity.direction })
            } else {
                None::<Enemy>
            }),
    {
        match entity.kind {
            Kind::Roamer => Some(Enemy { direction: entity.direction }),
            _ => None,
        }
    }
}

impl Star {
    /// The star in `entity`, if the entity is a star.
    pub fn of(entity: Entity) -> (found: Option<Star>)
        ensures
            found == (if entity.kind == Kind::Collectible {
                Some(Star {  })
            } else {
                None::<Star>
            }),
    {
        match entity.kind {
            Kind::Collectible => Some(Star {  }),
            _ => None,
        }
    }
}

/// The number of stars picked up so far. It never goes down.
#[derive(Clone, Copy, Debug, PartialEq, Eq, Structural)]
pub struct Score {
    pub value: u32,
}

impl Default for Score {
    fn default() -> (score: Score)
        ensures
            score.value == 0,
    {
        Score { value: 0 }
    }
}

/// The timer that brings a new star.
#[derive(Clone, Copy, Debug, PartialEq, Eq, Structural)]
pub struct StarSpawnTimer {
    pub timer: Timer,
}

impl Default for StarSpawnTimer {
    fn default() -> (spawn: StarSpawnTimer)
        ensures
            spawn.timer == (Timer {
                elapsed: 0,
                period: STAR_SPAWN_TIME,
                mode: TimerMode::Repeating,
                fired: false,
            }),
    {
        StarSpawnTimer { timer: Timer::new(STAR_SPAWN_TIME, TimerMode::Repeating) }
    }
}

/// The timer that brings a new enemy.
#[derive(Clone, Copy, Debug, PartialEq, Eq, Structural)]
pub struct EnemySpawnTimer {
    pub timer: Timer,
}

impl Default for EnemySpawnTimer {
    fn default() -> (spawn: EnemySpawnTimer)
        ensures
            spawn.timer == (Timer {
                elapsed: 0,
                period: ENEMY_SPAWN_TIME,
                mode: TimerMode::Repeating,
                fired: false,
            }),
    {
        EnemySpawnTimer { timer: Timer::new(ENEMY_SPAWN_TIME, TimerMode::Repeating) }
    }
}

/// Whether the only player there is touches an enemy.
pub open spec fn lethal_contact(entities: Seq<Entity>) -> bool {
    match sole(entities, Kind::Player) {
        Some(i) => any_touching(
            entities,
            Kind::Roamer,
            ENEMY_RADIUS,
            entities[i].position,
            PLAYER_RADIUS,
        ),
        None => false,
    }
}

/// The entities after the pass for lethal contact: without the player if it
/// touches an enemy, unchanged if not.
pub open spec fn after_player_collision(entities: Seq<Entity>) -> Seq<Entity> {
    match sole(entities, Kind::Player) {
        Some(i) => if lethal_contact(entities) {
            without_id(entities, entities[i].id)
        } else {
            entities
        },
        None => entities,
    }
}

/// What the pass for lethal contact asks of the host: where the player
/// touches an enemy, that the player be dropped and the sound of the impact be
/// played, once, however many enemies it touches.
pub open spec fn player_collision_events(entities: Seq<Entity>) -> Seq<Event> {
    match sole(entities, Kind::Player) {
        Some(i) => if lethal_contact(entities) {
            seq![
                Event::Destroyed { id: entities[i].id },
                Event::Sound { cause: Cause::FatalImpact },
            ]
        } else {
            Seq::empty()
        },
        None => Seq::empty(),
    }
}

/// The stars that the only player there is touches, oldest first.
pub open spec fn picked(entities: Seq<Entity>) -> Seq<Entity> {
    match sole(entities, Kind::Player) {
        Some(i) => touching(
            entities,
            Kind::Collectible,
            STAR_RADIUS,
            entities[i].position,
            PLAYER_RADIUS,
        ),
        None => Seq::empty(),
    }
}

/// The entities after the pickup pass: without the stars that the player
/// touches.
pub open spec fn after_pickups(entities: Seq<Entity>) -> Seq<Entity> {
    match sole(entities, Kind::Player) {
        Some(i) => untouched(
            entities,
            Kind::Collectible,
            STAR_RADIUS,
            entities[i].position,
            PLAYER_RADIUS,
        ),
        None => entities,
    }
}

/// What the pickup pass asks of the host: that each star picked up be
/// dropped, and that a sound be played for each.
pub open spec fn pickup_events(stars: Seq<Entity>) -> Seq<Event> {
    destroyed_events(ids_of(stars)) + sounds(Cause::Pickup, stars.len())
}

/// Puts the player in the middle of the field.
pub fn spawn_player(store: &mut EntityStore, field: PlayField) -> (events: Vec<Event>)
    requires
        old(store).wf(),
        old(store).next_id() < u64::MAX,
    ensures
        final(store).wf(),
        final(store)@ == old(store)@.push(
            Entity {
                id: EntityId(old(store).next_id()),
                kind: Kind::Player,
                position: field.center(),
                direction: Vec2 { x: 0, y: 0 },
            },
        ),
        final(store).next_id() == old(store).next_id() + 1,
        events@ == seq![
            Event::Created {
                id: EntityId(old(store).next_id()),
                kind: Kind::Player,
                position: field.center(),
            },
        ],
{
    let mut events: Vec<Event> = Vec::new();
    events.push(place(store, Kind::Player, field.middle(), Vec2::zero()));
    assert(events@ =~= seq![
        Event::Created {
            id: EntityId(old(store).next_id()),
            kind: Kind::Player,
            position: field.center(),
        },
    ]);
    events
}

/// Scatters the enemies of the start over the field, each with a direction of
/// its own.
pub fn spawn_enemy(store: &mut EntityStore, field: PlayField, rng: &mut rand::rngs::StdRng) -> (events:
    Vec<Event>)
    requires
        old(store).wf(),
        old(store).next_id() + NUMBER_OF_ENEMIES <= u64::MAX,
    ensures
        final(store).wf(),
        final(store).next_id() == old(store).next_id() + NUMBER_OF_ENEMIES,
        is_scatter(
            old(store)@,
            final(store)@,
            Kind::Roamer,
            NUMBER_OF_ENEMIES as nat,
            field,
            true,
            old(store).next_id() as int,
        ),
        events@ == created_events(final(store)@.skip(old(store)@.len() as int)),
{
    scatter(store, Kind::Roamer, NUMBER_OF_ENEMIES, field, true, rng)
}

/// Scatters the stars of the start over the field.
pub fn spawn_stars(store: &mut EntityStore, field: PlayField, rng: &mut rand::rngs::StdRng) -> (events:
    Vec<Event>)
    requires
        old(store).wf(),
        old(store).next_id() + NUMBER_OF_STARS <= u64::MAX,
    ensures
        final(store).wf(),
        final(store).next_id() == old(store).next_id() + NUMBER_OF_STARS,
        is_scatter(
            old(store)@,
            final(store)@,
            Kind::Collectible,
            NUMBER_OF_STARS as nat,
            field,
            false,
            old(store).next_id() as int,
        ),
        events@ == created_events(final(store)@.skip(old(store)@.len() as int)),
{
    scatter(store, Kind::Collectible, NUMBER_OF_STARS, field, false, rng)
}

/// Moves the player along the intent of this frame. The intent is the sum of
/// the unit vectors of the directions asked for; it is normalised first, so
/// that the player is no faster on a diagonal. No intent, no motion; no
/// player, nothing to do.
pub fn player_movement(store: &mut EntityStore, intent: Vec2, dt: u64)
    requires
        old(store).wf(),
        can_steer(old(store)@, Kind::Player, intent.normalized(), PLAYER_SPEED, dt),
    ensures
        final(store).wf(),
        final(store)@ == steered(
            old(store)@,
            Kind::Player,
            intent.normalized(),
            PLAYER_SPEED,
            dt,
        ),
        final(store).next_id() == old(store).next_id(),
        dt == 0 ==> final(store)@ == old(store)@,
{
    steer(store, Kind::Player, intent.normalize(), PLAYER_SPEED, dt);
}

/// Holds the player inside the field.
pub fn confine_player(store: &mut EntityStore, field: PlayField)
    requires
        old(store).wf(),
    ensures
        final(store).wf(),
        final(store)@ == confined_sole(old(store)@, Kind::Player, PLAYER_RADIUS, field),
        final(store).next_id() == old(store).next_id(),
        PLAYER_SIZE <= field.width && PLAYER_SIZE <= field.height ==> (sole(
            old(store)@,
            Kind::Player,
        ) matches Some(i) ==> !leaves_band(final(store)@[i], PLAYER_RADIUS, field)),
{
    confine_sole(store, Kind::Player, PLAYER_RADIUS, field);
}

/// Moves every enemy along its direction.
pub fn enemy_movement(store: &mut EntityStore, dt: u64)
    requires
        old(store).wf(),
        can_drift(old(store)@, Kind::Roamer, ENEMY_SPEED, dt),
    ensures
        final(store).wf(),
        final(store)@ == drifted(old(store)@, Kind::Roamer, ENEMY_SPEED, dt),
        final(store).next_id() == old(store).next_id(),
        dt == 0 ==> final(store)@ == old(store)@,
{
    drift(store, Kind::Roamer, ENEMY_SPEED, dt);
}

/// Turns every enemy back on each axis on which it has left the band of the
/// field, and asks for one sound for each enemy that turned.
pub fn update_enemy_direction(store: &mut EntityStore, field: PlayField) -> (events: Vec<Event>)
    requires
        old(store).wf(),
    ensures
        final(store).wf(),
        final(store)@ == turned(old(store)@, Kind::Roamer, ENEMY_RADIUS, field),
        final(store).next_id() == old(store).next_id(),
        events@ == sounds(
            Cause::BoundaryBounce,
            strays(old(store)@, Kind::Roamer, ENEMY_RADIUS, field).len(),
        ),
{
    let count = turn_kind(store, Kind::Roamer, ENEMY_RADIUS, field);
    let mut events: Vec<Event> = Vec::new();
    push_sounds(&mut events, Cause::BoundaryBounce, count);
    assert(events@ =~= sounds(Cause::BoundaryBounce, count as nat));
    events
}

/// Holds every enemy inside the field.
pub fn confine_enemy(store: &mut EntityStore, field: PlayField)
    requires
        old(store).wf(),
    ensures
        final(store).wf(),
        final(store)@ == confined_kind(old(store)@, Kind::Roamer, ENEMY_RADIUS, field),
        final(store).next_id() == old(store).next_id(),
        ENEMY_SIZE <= field.width && ENEMY_SIZE <= field.height ==> forall|i: int|
            0 <= i < final(store)@.len() && (#[trigger] final(store)@[i]).kind == Kind::Roamer
                ==> !leaves_band(final(store)@[i], ENEMY_RADIUS, field),
{
    confine_kind(store, Kind::Roamer, ENEMY_RADIUS, field);
}

/// The pass for lethal contact. Where the player is less than the two radii
/// away from an enemy, the player is destroyed and the sound of the impact is
/// asked for, once. Without a player there is nothing to check.
pub fn player_collision(store: &mut EntityStore) -> (events: Vec<Event>)
    requires
        old(store).wf(),
    ensures
        final(store).wf(),
        final(store)@ == after_player_collision(old(store)@),
        final(store).next_id() == old(store).next_id(),
        events@ == player_collision_events(old(store)@),
{
    let mut events: Vec<Event> = Vec::new();
    match store.sole_of_kind(Kind::Player) {
        Some(i) => {
            let player = store.entity_at(i);
            let enemies = touching_ids(
                store,
                Kind::Roamer,
                ENEMY_RADIUS,
                player.position,
                PLAYER_RADIUS,
            );
            proof {
                lemma_any_touching(
                    store@,
                    Kind::Roamer,
                    ENEMY_RADIUS,
                    player.position,
                    PLAYER_RADIUS,
                );
            }
            if enemies.len() > 0 {
                store.destroy(player.id);
                events.push(Event::Destroyed { id: player.id });
                events.push(Event::Sound { cause: Cause::FatalImpact });
                assert(events@ =~= player_collision_events(old(store)@));
            }
        },
        None => {},
    }
    events
}

/// The pickup pass. Every star that the player touches is destroyed and
/// counts one point, each by itself; a sound is asked for with each. Without
/// a player there is nothing to check.
pub fn player_star_collision(store: &mut EntityStore, score: &mut Score) -> (events: Vec<Event>)
    requires
        old(store).wf(),
        old(score).value + picked(old(store)@).len() <= u32::MAX,
    ensures
        final(store).wf(),
        final(store)@ == after_pickups(old(store)@),
        final(store).next_id() == old(store).next_id(),
        final(score).value == old(score).value + picked(old(store)@).len(),
        final(score).value >= old(score).value,
        events@ == pickup_events(picked(old(store)@)),
{
    let mut events: Vec<Event> = Vec::new();
    match store.sole_of_kind(Kind::Player) {
        Some(i) => {
            let player = store.entity_at(i);
            let stars = destroy_touching(
                store,
                Kind::Collectible,
                STAR_RADIUS,
                player.position,
                PLAYER_RADIUS,
            );
            score.value = score.value + stars.len() as u32;
            push_destroyed(&mut events, &stars);
            push_sounds(&mut events, Cause::Pickup, stars.len());
        },
        None => {
            assert(events@ =~= pickup_events(Seq::<Entity>::empty()));
        },
    }
    events
}

/// Advances the timer that brings a new star.
pub fn tick_star_spawn_timer(star_spawn_timer: &mut StarSpawnTimer, dt: u64)
    requires
        old(star_spawn_timer).timer.next_elapsed(dt) <= u64::MAX,
    ensures
        final(star_spawn_timer).timer == old(star_spawn_timer).timer.ticked(dt),
{
    star_spawn_timer.timer.tick(dt);
}

/// Advances the timer that brings a new enemy.
pub fn tick_enemy_spawn_timer(enemy_spawn_timer: &mut EnemySpawnTimer, dt: u64)
    requires
        old(enemy_spawn_timer).timer.next_elapsed(dt) <= u64::MAX,
    ensures
        final(enemy_spawn_timer).timer == old(enemy_spawn_timer).timer.ticked(dt),
{
    enemy_spawn_timer.timer.tick(dt);
}

/// How many entities a timer brings in this frame: one if it has fired.
pub open spec fn due(timer: Timer) -> nat {
    if timer.fired {
        1
    } else {
        0
    }
}

/// Scatters one new star over the field if the timer has fired in this frame.
pub fn spawn_stars_over_time(
    store: &mut EntityStore,
    field: PlayField,
    star_spawn_timer: &StarSpawnTimer,
    rng: &mut rand::rngs::StdRng,
) -> (events: Vec<Event>)
    requires
        old(store).wf(),
        old(store).next_id() + due(star_spawn_timer.timer) <= u64::MAX,
    ensures
        final(store).wf(),
        final(store).next_id() == old(store).next_id() + due(star_spawn_timer.timer),
        is_scatter(
            old(store)@,
            final(store)@,
            Kind::Collectible,
            due(star_spawn_timer.timer),
            field,
            false,
            old(store).next_id() as int,
        ),
        events@ == created_events(final(store)@.skip(old(store)@.len() as int)),
{
    let count: usize = if star_spawn_timer.timer.finished() {
        1
    } else {
        0
    };
    scatter(store, Kind::Collectible, count, field, false, rng)
}

/// Scatters one new enemy over the field if the timer has fired in this
/// frame.
pub fn spawn_enemy_over_time(
    store: &mut EntityStore,
    field: PlayField,
    enemy_spawn_timer: &EnemySpawnTimer,
    rng: &mut rand::rngs::StdRng,
) -> (events: Vec<Event>)
    requires
        old(store).wf(),
        old(store).next_id() + due(enemy_spawn_timer.timer) <= u64::MAX,
    ensures
        final(store).wf(),
        final(store).next_id() == old(store).next_id() + due(enemy_spawn_timer.timer),
        is_scatter(
            old(store)@,
            final(store)@,
            Kind::Roamer,
            due(enemy_spawn_timer.timer),
            field,
            true,
            old(store).next_id() as int,
        ),
        events@ == created_events(final(store)@.skip(old(store)@.len() as int)),
{
    let count: usize = if enemy_spawn_timer.timer.finished() {
        1
    } else {
        0
    };
    scatter(store, Kind::Roamer, count, field, true, rng)
}

/// Whether the host is to end the game: it is when the input of this frame
/// asks for it.
pub fn exit_game(quit_requested: bool) -> (exit_requested: bool)
    ensures
        exit_requested == quit_requested,
{
    quit_requested
}

/// A star that has been picked up is gone: were the pickup pass run again
/// on what it left, it would find nothing to pick up, ask for nothing and
/// change nothing.
pub proof fn lemma_pickup_idempotent(entities: Seq<Entity>, next: int)
    requires
        well_formed(entities, next),
    ensures
        picked(after_pickups(entities)) == Seq::<Entity>::empty(),
        after_pickups(after_pickups(entities)) == after_pickups(entities),
        pickup_events(picked(after_pickups(entities))) == Seq::<Event>::empty(),
{
    match sole(entities, Kind::Player) {
        Some(i) => {
            let center = entities[i].position;
            let miss = |e: Entity|
                !in_contact(e, Kind::Collectible, STAR_RADIUS, center, PLAYER_RADIUS);
            let rest = entities.filter(miss);
            lemma_filter_keeps_sole(entities, miss, Kind::Player, i, next);
            lemma_untouched_has_none(
                entities,
                Kind::Collectible,
                STAR_RADIUS,
                center,
                PLAYER_RADIUS,
            );
            assert forall|k: int| 0 <= k < rest.len() implies miss(#[trigger] rest[k]) by {
                entities.lemma_filter_pred(miss, k);
            }
            lemma_filter_keeps_all(rest, miss);
        },
        None => {},
    }
    assert(pickup_events(Seq::<Entity>::empty()) =~= Seq::<Event>::empty());
}

/// Once the player is destroyed, the pass for lethal contact has nothing
/// left to check: run again, it changes nothing and asks for nothing.
pub proof fn lemma_player_collision_idempotent(entities: Seq<Entity>)
    ensures
        after_player_collision(after_player_collision(entities)) == after_player_collision(
            entities,
        ),
        lethal_contact(entities) ==> player_collision_events(after_player_collision(entities))
            == Seq::<Event>::empty(),
{
    match sole(entities, Kind::Player) {
        Some(i) => {
            if lethal_contact(entities) {
                lemma_sole_destroyed(entities, Kind::Player, i);
            }
        },
        None => {},
    }
}

/// What one frame hands back to the host.
#[derive(Debug)]
pub struct FrameOutput {
    /// The sounds to play and the visuals to add or drop, in order.
    pub events: Vec<Event>,
    /// The score after the frame.
    pub score: u32,
    /// Whether the host is to end the game.
    pub exit_requested: bool,
}

/// The entities after the motion of one frame: the player moves on the
/// intent, the enemies move on their directions and turn where they have left
/// the band of the field, and enemies and player are then held inside it.
pub open spec fn after_motion(entities: Seq<Entity>, input: FrameInput) -> Seq<Entity> {
    confined_sole(
        confined_kind(
            turned(
                drifted(
                    steered(
                        entities,
                        Kind::Player,
                        input.intent.normalized(),
                        PLAYER_SPEED,
                        input.dt,
                    ),
                    Kind::Roamer,
                    ENEMY_SPEED,
                    input.dt,
                ),
                Kind::Roamer,
                ENEMY_RADIUS,
                input.field,
            ),
            Kind::Roamer,
            ENEMY_RADIUS,
            input.field,
        ),
        Kind::Player,
        PLAYER_RADIUS,
        input.field,
    )
}

/// The sounds that the motion of one frame asks for: one for each enemy that
/// has left the band of the field once it has moved.
pub open spec fn motion_events(entities: Seq<Entity>, input: FrameInput) -> Seq<Event> {
    sounds(
        Cause::BoundaryBounce,
        strays(
            drifted(
                steered(
                    entities,
                    Kind::Player,
                    input.intent.normalized(),
                    PLAYER_SPEED,
                    input.dt,
                ),
                Kind::Roamer,
                ENEMY_SPEED,
                input.dt,
            ),
            Kind::Roamer,
            ENEMY_RADIUS,
            input.field,
        ).len(),
    )
}

/// Whether the motion of one frame stays within the machine's integers.
pub open spec fn can_move_frame(entities: Seq<Entity>, input: FrameInput) -> bool {
    &&& can_steer(entities, Kind::Player, input.intent.normalized(), PLAYER_SPEED, input.dt)
    &&& can_drift(entities, Kind::Roamer, ENEMY_SPEED, input.dt)
}

/// The entities after both contact passes: first the lethal one, then the
/// pickups.
pub open spec fn after_contacts(entities: Seq<Entity>) -> Seq<Entity> {
    after_pickups(after_player_collision(entities))
}

/// What both contact passes ask of the host.
pub open spec fn contact_events(entities: Seq<Entity>) -> Seq<Event> {
    player_collision_events(entities) + pickup_events(picked(after_player_collision(entities)))
}

/// The motion of one frame: the player on the intent, the enemies on their
/// directions; then the enemies turn where they have left the band of the
/// field, and enemies and player are held inside it.
pub fn move_frame(store: &mut EntityStore, input: &FrameInput) -> (events: Vec<Event>)
    requires
        old(store).wf(),
        can_move_frame(old(store)@, *input),
    ensures
        final(store).wf(),
        final(store)@ == after_motion(old(store)@, *input),
        final(store).next_id() == old(store).next_id(),
        events@ == motion_events(old(store)@, *input),
{
    proof {
        lemma_steer_keeps_drift(
            store@,
            Kind::Player,
            input.intent.normalized(),
            PLAYER_SPEED,
            input.dt,
            Kind::Roamer,
            ENEMY_SPEED,
        );
    }
    player_movement(store, input.intent, input.dt);
    enemy_movement(store, input.dt);
    let events = update_enemy_direction(store, input.field);
    confine_enemy(store, input.field);
    confine_player(store, input.field);
    events
}

/// The arena game: its entities, its score and its timers.
pub struct Arena {
    pub store: EntityStore,
    pub score: Score,
    pub star_spawn_timer: StarSpawnTimer,
    pub enemy_spawn_timer: EnemySpawnTimer,
}

/// Whether `after` may be what one frame makes of `before`: the timers
/// have ticked; the entities have moved and met as the rules say; the score
/// has grown by the stars picked up; and behind the entities that the frame
/// left, in their order, stands one new enemy if its timer has fired and then
/// one new star if its timer has fired, each scattered over the field.
pub open spec fn is_frame(before: Arena, input: FrameInput, after: Arena) -> bool {
    let settled = before.settled(input);
    let star_timer = before.star_spawn_timer.timer.ticked(input.dt);
    let enemy_timer = before.enemy_spawn_timer.timer.ticked(input.dt);
    let first_id = before.store.next_id() as int;
    &&& after.star_spawn_timer.timer == star_timer
    &&& after.enemy_spawn_timer.timer == enemy_timer
    &&& after.score.value == before.score.value + before.pickups(input).len()
    &&& after.store.next_id() == first_id + due(enemy_timer) + due(star_timer)
    &&& after.store@.len() == settled.len() + due(enemy_timer) + due(star_timer)
    &&& after.store@.take(settled.len() as int) == settled
    &&& enemy_timer.fired ==> is_scattered(
        after.store@[settled.len() as int],
        Kind::Roamer,
        input.field,
        true,
        first_id,
    )
    &&& star_timer.fired ==> is_scattered(
        after.store@[(settled.len() + due(enemy_timer)) as int],
        Kind::Collectible,
        input.field,
        false,
        first_id + due(enemy_timer),
    )
}

impl Arena {
    /// The game's invariant: that of its store.
    pub open spec fn wf(&self) -> bool {
        self.store.wf()
    }

    /// The entities after the motion and the contacts of one frame.
    pub open spec fn settled(&self, input: FrameInput) -> Seq<Entity> {
        after_contacts(after_motion(self.store@, input))
    }

    /// The stars picked up in one frame.
    pub open spec fn pickups(&self, input: FrameInput) -> Seq<Entity> {
        picked(after_player_collision(after_motion(self.store@, input)))
    }

    /// What the motion and the contacts of one frame ask of the host.
    pub open spec fn simulate_events(&self, input: FrameInput) -> Seq<Event> {
        motion_events(self.store@, input) + contact_events(after_motion(self.store@, input))
    }

    /// Whether one frame without its spawning stays within the machine's
    /// integers: the clocks of the timers, the coordinates and the score.
    pub open spec fn can_simulate(&self, input: FrameInput) -> bool {
        &&& self.star_spawn_timer.timer.next_elapsed(input.dt) <= u64::MAX
        &&& self.enemy_spawn_timer.timer.next_elapsed(input.dt) <= u64::MAX
        &&& can_move_frame(self.store@, input)
        &&& self.score.value + self.pickups(input).len() <= u32::MAX
    }

    /// Whether one whole frame stays within the machine's integers: as
    /// `can_simulate`, and the identities for the entities that the timers
    /// bring.
    pub open spec fn can_step(&self, input: FrameInput) -> bool {
        &&& self.can_simulate(input)
        &&& self.store.next_id() + due(self.enemy_spawn_timer.timer.ticked(input.dt)) + due(
            self.star_spawn_timer.timer.ticked(input.dt),
        ) <= u64::MAX
    }

    /// A game with no entities, no points and both timers at zero.
    pub fn new() -> (arena: Arena)
        ensures
            arena.wf(),
            arena.store@ == Seq::<Entity>::empty(),
            arena.store.next_id() == 0,
            arena.score.value == 0,
            arena.star_spawn_timer.timer == Timer::new_spec(STAR_SPAWN_TIME),
            arena.enemy_spawn_timer.timer == Timer::new_spec(ENEMY_SPAWN_TIME),
    {
        Arena {
            store: EntityStore::new(),
            score: Score::default(),
            star_spawn_timer: StarSpawnTimer::default(),
            enemy_spawn_timer: EnemySpawnTimer::default(),
        }
    }

    /// Sets the game up: the player in the middle of the field, then the
    /// enemies and then the stars scattered over it.
    pub fn startup(&mut self, field: PlayField, rng: &mut rand::rngs::StdRng) -> (events: Vec<
        Event,
    >)
        requires
            old(self).wf(),
            old(self).store.next_id() + 1 + NUMBER_OF_ENEMIES + NUMBER_OF_STARS <= u64::MAX,
        ensures
            final(self).wf(),
            final(self).score == old(self).score,
            final(self).star_spawn_timer == old(self).star_spawn_timer,
            final(self).enemy_spawn_timer == old(self).enemy_spawn_timer,
            final(self).store.next_id() == old(self).store.next_id() + 1 + NUMBER_OF_ENEMIES
                + NUMBER_OF_STARS,
            final(self).store@.len() == old(self).store@.len() + 1 + NUMBER_OF_ENEMIES
                + NUMBER_OF_STARS,
            final(self).store@.take(old(self).store@.len() as int) == old(self).store@,
            final(self).store@[old(self).store@.len() as int] == (Entity {
                id: EntityId(old(self).store.next_id()),
                kind: Kind::Player,
                position: field.center(),
                direction: Vec2 { x: 0, y: 0 },
            }),
            forall|j: int|
                old(self).store@.len() < j <= old(self).store@.len() + NUMBER_OF_ENEMIES
                    ==> is_scattered(
                    #[trigger] final(self).store@[j],
                    Kind::Roamer,
                    field,
                    true,
                    old(self).store.next_id() + (j - old(self).store@.len()),
                ),
            forall|j: int|
                old(self).store@.len() + NUMBER_OF_ENEMIES < j < final(self).store@.len()
                    ==> is_scattered(
                    #[trigger] final(self).store@[j],
                    Kind::Collectible,
                    field,
                    false,
                    old(self).store.next_id() + (j - old(self).store@.len()),
                ),
            events@ == created_events(final(self).store@.skip(old(self).store@.len() as int)),
    {
        let ghost before = self.store@;
        let mut events = spawn_player(&mut self.store, field);
        let ghost with_player = self.store@;
        let enemies = spawn_enemy(&mut self.store, field, rng);
        let ghost with_enemies = self.store@;
        let stars = spawn_stars(&mut self.store, field, rng);
        append(&mut events, &enemies);
        append(&mut events, &stars);
        proof {
            let after = self.store@;
            assert(with_enemies.take(with_player.len() as int) == with_player);
            assert(after.take(with_enemies.len() as int) == with_enemies);
            assert forall|j: int| 0 <= j < with_enemies.len() implies after[j]
                == with_enemies[j] by {
                assert(after.take(with_enemies.len() as int)[j] == after[j]);
            }
            assert forall|j: int| 0 <= j < with_player.len() implies with_enemies[j]
                == with_player[j] by {
                assert(with_enemies.take(with_player.len() as int)[j] == with_enemies[j]);
            }
            assert(after.take(before.len() as int) =~= before);
            assert(events@ =~= created_events(after.skip(before.len() as int)));
        }
        events
    }

    /// One frame without its spawning: the timers tick, the entities move,
    /// turn and are confined, and the contacts are resolved: first the lethal
    /// one, then the pickups.
    pub fn simulate(&mut self, input: &FrameInput) -> (events: Vec<Event>)
        requires
            old(self).wf(),
            old(self).can_simulate(*input),
        ensures
            final(self).wf(),
            final(self).store@ == old(self).settled(*input),
            final(self).store.next_id() == old(self).store.next_id(),
            final(self).star_spawn_timer.timer == old(self).star_spawn_timer.timer.ticked(
                input.dt,
            ),
            final(self).enemy_spawn_timer.timer == old(self).enemy_spawn_timer.timer.ticked(
                input.dt,
            ),
            final(self).score.value == old(self).score.value + old(self).pickups(*input).len(),
            final(self).score.value >= old(self).score.value,
            events@ == old(self).simulate_events(*input),
    {
        tick_star_spawn_timer(&mut self.star_spawn_timer, input.dt);
        tick_enemy_spawn_timer(&mut self.enemy_spawn_timer, input.dt);
        let mut events = move_frame(&mut self.store, input);
        let impact = player_collision(&mut self.store);
        let pickups = player_star_collision(&mut self.store, &mut self.score);
        append(&mut events, &impact);
        append(&mut events, &pickups);
        assert(events@ =~= old(self).simulate_events(*input));
        events
    }

    /// Whether `simulate` may be called with `input`.
    pub fn fits_frame(&self, input: &FrameInput) -> (ok: bool)
        requires
            self.wf(),
        ensures
            ok == self.can_simulate(*input),
    {
        if !self.star_spawn_timer.timer.can_tick(input.dt) {
            return false;
        }
        if !self.enemy_spawn_timer.timer.can_tick(input.dt) {
            return false;
        }
        if !fits_steer(&self.store, Kind::Player, input.intent.normalize(), PLAYER_SPEED, input.dt) {
            return false;
        }
        if !fits_drift(&self.store, Kind::Roamer, ENEMY_SPEED, input.dt) {
            return false;
        }
        let mut trial = self.store.duplicate();
        move_frame(&mut trial, input);
        player_collision(&mut trial);
        match trial.sole_of_kind(Kind::Player) {
            Some(i) => {
                let player = trial.entity_at(i);
                let stars = touching_ids(
                    &trial,
                    Kind::Collectible,
                    STAR_RADIUS,
                    player.position,
                    PLAYER_RADIUS,
                );
                stars.len() as u128 + self.score.value as u128 <= u32::MAX as u128
            },
            None => true,
        }
    }

    /// Whether `step` may be called with `input`.
    pub fn fits_step(&self, input: &FrameInput) -> (ok: bool)
        requires
            self.wf(),
        ensures
            ok == self.can_step(*input),
    {
        if !self.fits_frame(input) {
            return false;
        }
        let mut star_timer = self.star_spawn_timer.timer;
        let mut enemy_timer = self.enemy_spawn_timer.timer;
        star_timer.tick(input.dt);
        enemy_timer.tick(input.dt);
        let mut count: u64 = 0;
        if star_timer.finished() {
            count = count + 1;
        }
        if enemy_timer.finished() {
            count = count + 1;
        }
        self.store.has_room(count)
    }

    /// One frame: `simulate`, then one new enemy and one new star where their
    /// timers have fired, then the notice to the host whether to end the game.
    pub fn step(&mut self, input: &FrameInput, rng: &mut rand::rngs::StdRng) -> (output:
        FrameOutput)
        requires
            old(self).wf(),
            old(self).can_step(*input),
        ensures
            final(self).wf(),
            is_frame(*old(self), *input, *final(self)),
            final(self).score.value >= old(self).score.value,
            output.score == final(self).score.value,
            output.exit_requested == input.quit_requested,
            output.events@ == old(self).simulate_events(*input) + created_events(
                final(self).store@.skip(old(self).settled(*input).len() as int),
            ),
    {
        let mut events = self.simulate(input);
        let ghost settled = self.store@;
        let enemies = spawn_enemy_over_time(
            &mut self.store,
            input.field,
            &self.enemy_spawn_timer,
            rng,
        );
        let ghost with_enemies = self.store@;
        let stars = spawn_stars_over_time(&mut self.store, input.field, &self.star_spawn_timer, rng);
        append(&mut events, &enemies);
        append(&mut events, &stars);
        proof {
            let after = self.store@;
            assert(after.take(with_enemies.len() as int) == with_enemies);
            assert(with_enemies.take(settled.len() as int) == settled);
            assert forall|j: int| 0 <= j < with_enemies.len() implies after[j]
                == with_enemies[j] by {
                assert(after.take(with_enemies.len() as int)[j] == after[j]);
            }
            assert forall|j: int| 0 <= j < settled.len() implies with_enemies[j]
                == settled[j] by {
                assert(with_enemies.take(settled.len() as int)[j] == with_enemies[j]);
            }
            assert(after.take(settled.len() as int) =~= settled);
            assert(created_events(with_enemies.skip(settled.len() as int)) + created_events(
                after.skip(with_enemies.len() as int),
            ) =~= created_events(after.skip(settled.len() as int)));
        }
        FrameOutput {
            events,
            score: self.score.value,
            exit_requested: exit_game(input.quit_requested),
        }
    }
}

/// The motion of one frame leaves the same entities in the same places of
/// the store, and the same player the only one.
pub proof fn lemma_motion_keeps_entities(entities: Seq<Entity>, input: FrameInput)
    ensures
        same_entities(entities, after_motion(entities, input)),
        sole(after_motion(entities, input), Kind::Player) == sole(entities, Kind::Player),
{
    let direction = input.intent.normalized();
    let field = input.field;
    let s1 = steered(entities, Kind::Player, direction, PLAYER_SPEED, input.dt);
    let s2 = drifted(s1, Kind::Roamer, ENEMY_SPEED, input.dt);
    let s3 = turned(s2, Kind::Roamer, ENEMY_RADIUS, field);
    let s4 = confined_kind(s3, Kind::Roamer, ENEMY_RADIUS, field);
    let s5 = confined_sole(s4, Kind::Player, PLAYER_RADIUS, field);
    lemma_passes_keep_entities(entities, Kind::Player, Kind::Player, direction, PLAYER_SPEED, input.dt, 0, 0, 0, field);
    lemma_passes_keep_entities(s1, Kind::Roamer, Kind::Roamer, direction, ENEMY_SPEED, input.dt, ENEMY_RADIUS, 0, 0, field);
    lemma_passes_keep_entities(s2, Kind::Roamer, Kind::Roamer, direction, ENEMY_SPEED, input.dt, ENEMY_RADIUS, 0, 0, field);
    lemma_passes_keep_entities(s3, Kind::Roamer, Kind::Roamer, direction, ENEMY_SPEED, input.dt, ENEMY_RADIUS, 0, 0, field);
    lemma_passes_keep_entities(s4, Kind::Player, Kind::Player, direction, PLAYER_SPEED, input.dt, PLAYER_RADIUS, 0, 0, field);
    lemma_same_entities_transitive(entities, s1, s2);
    lemma_same_entities_transitive(entities, s2, s3);
    lemma_same_entities_transitive(entities, s3, s4);
    lemma_same_entities_transitive(entities, s4, s5);
    lemma_same_entities_same_sole(entities, s5, Kind::Player);
}

/// The contact passes only take entities away: every entity that they leave
/// was there before, as it is.
pub proof fn lemma_contacts_only_remove(entities: Seq<Entity>)
    ensures
        forall|j: int|
            0 <= j < after_contacts(entities).len() ==> entities.contains(
                #[trigger] after_contacts(entities)[j],
            ),
{
    let struck = after_player_collision(entities);
    assert forall|i: int| 0 <= i < struck.len() implies entities.contains(
        #[trigger] struck[i],
    ) by {
        match sole(entities, Kind::Player) {
            Some(p) => {
                if lethal_contact(entities) {
                    lemma_destroyed_are_gone(entities, seq![entities[p].id]);
                }
            },
            None => {},
        }
    }
    let settled = after_pickups(struck);
    assert forall|j: int| 0 <= j < settled.len() implies entities.contains(
        #[trigger] settled[j],
    ) by {
        match sole(struck, Kind::Player) {
            Some(p) => {
                let miss = |e: Entity|
                    !in_contact(
                        e,
                        Kind::Collectible,
                        STAR_RADIUS,
                        struck[p].position,
                        PLAYER_RADIUS,
                    );
                assert(settled.contains(settled[j]));
                struck.lemma_filter_contains_rev(miss, settled[j]);
                let k = choose|k: int| 0 <= k < struck.len() && struck[k] == settled[j];
                assert(entities.contains(struck[k]));
            },
            None => {},
        }
    }
}

/// No frame makes a player: every player that a frame leaves was a player
/// before it, under the same identity.
pub proof fn lemma_frame_makes_no_player(before: Arena, input: FrameInput, after: Arena)
    requires
        is_frame(before, input, after),
    ensures
        forall|j: int|
            0 <= j < after.store@.len() && (#[trigger] after.store@[j]).kind == Kind::Player
                ==> exists|i: int|
                0 <= i < before.store@.len() && (#[trigger] before.store@[i]).kind
                    == Kind::Player && before.store@[i].id == after.store@[j].id,
{
    let moved = after_motion(before.store@, input);
    let settled = before.settled(input);
    lemma_motion_keeps_entities(before.store@, input);
    lemma_contacts_only_remove(moved);
    assert forall|j: int|
        0 <= j < after.store@.len() && (#[trigger] after.store@[j]).kind
            == Kind::Player implies exists|i: int|
        0 <= i < before.store@.len() && (#[trigger] before.store@[i]).kind == Kind::Player
            && before.store@[i].id == after.store@[j].id by {
        if j < settled.len() {
            assert(after.store@.take(settled.len() as int)[j] == after.store@[j]);
            assert(moved.contains(settled[j]));
            let k = choose|k: int| 0 <= k < moved.len() && moved[k] == settled[j];
            assert(before.store@[k].kind == Kind::Player && before.store@[k].id
                == after.store@[j].id);
        }
    }
}

/// There is never more than one player: a frame that starts with at most one
/// leaves at most one.
pub proof fn lemma_frame_keeps_one_player(before: Arena, input: FrameInput, after: Arena)
    requires
        is_frame(before, input, after),
        after.wf(),
        at_most_one(before.store@, Kind::Player),
    ensures
        at_most_one(after.store@, Kind::Player),
{
    lemma_frame_makes_no_player(before, input, after);
    let old_entities = before.store@;
    let new_entities = after.store@;
    assert forall|i: int, j: int| 0 <= i < j < new_entities.len() implies !((
    #[trigger] new_entities[i]).kind == Kind::Player && (#[trigger] new_entities[j]).kind
        == Kind::Player) by {
        if new_entities[i].kind == Kind::Player && new_entities[j].kind == Kind::Player {
            let a = choose|a: int|
                0 <= a < old_entities.len() && (#[trigger] old_entities[a]).kind == Kind::Player
                    && old_entities[a].id == new_entities[i].id;
            let b = choose|b: int|
                0 <= b < old_entities.len() && (#[trigger] old_entities[b]).kind == Kind::Player
                    && old_entities[b].id == new_entities[j].id;
            assert(new_entities[i].id != new_entities[j].id);
            if a < b {
                assert(!(old_entities[a].kind == Kind::Player && old_entities[b].kind
                    == Kind::Player));
            } else if b < a {
                assert(!(old_entities[b].kind == Kind::Player && old_entities[a].kind
                    == Kind::Player));
            }
        }
    }
}

/// Every frame leaves the confined kinds inside the field: in a field that
/// has room for them, every enemy that the motion and the contacts of a frame
/// leave lies in its band, and so does the player where there is but one,
/// wherever they were before and however far they moved.
pub proof fn lemma_frame_confines(entities: Seq<Entity>, input: FrameInput)
    requires
        ENEMY_SIZE <= input.field.width,
        ENEMY_SIZE <= input.field.height,
        PLAYER_SIZE <= input.field.width,
        PLAYER_SIZE <= input.field.height,
    ensures
        forall|j: int|
            0 <= j < after_contacts(after_motion(entities, input)).len() ==> {
                let e = #[trigger] after_contacts(after_motion(entities, input))[j];
                &&& e.kind == Kind::Roamer ==> !leaves_band(e, ENEMY_RADIUS, input.field)
                &&& e.kind == Kind::Player && sole(entities, Kind::Player) is Some ==> !leaves_band(
                    e,
                    PLAYER_RADIUS,
                    input.field,
                )
            },
{
    let field = input.field;
    let direction = input.intent.normalized();
    let s1 = steered(entities, Kind::Player, direction, PLAYER_SPEED, input.dt);
    let s2 = drifted(s1, Kind::Roamer, ENEMY_SPEED, input.dt);
    let s3 = turned(s2, Kind::Roamer, ENEMY_RADIUS, field);
    let s4 = confined_kind(s3, Kind::Roamer, ENEMY_RADIUS, field);
    let moved = after_motion(entities, input);
    assert(moved == confined_sole(s4, Kind::Player, PLAYER_RADIUS, field));
    lemma_motion_keeps_entities(entities, input);
    lemma_passes_keep_entities(s4, Kind::Player, Kind::Player, direction, PLAYER_SPEED, input.dt, PLAYER_RADIUS, 0, 0, field);
    lemma_same_entities_same_sole(s4, moved, Kind::Player);
    let confined = |e: Entity|
        {
            &&& e.kind == Kind::Roamer ==> !leaves_band(e, ENEMY_RADIUS, field)
            &&& e.kind == Kind::Player && sole(entities, Kind::Player) is Some ==> !leaves_band(
                e,
                PLAYER_RADIUS,
                field,
            )
        };
    assert forall|i: int| 0 <= i < moved.len() implies confined(#[trigger] moved[i]) by {
        assert(s4[i].kind == Kind::Roamer ==> !leaves_band(s4[i], ENEMY_RADIUS, field));
        match sole(s4, Kind::Player) {
            Some(p) => {
                if i == p {
                    assert(!leaves_band(moved[i], PLAYER_RADIUS, field));
                } else {
                    assert(moved[i] == s4[i]);
                    assert(s4[i].kind != Kind::Player);
                }
            },
            None => {
                assert(moved[i] == s4[i]);
            },
        }
    }
    lemma_contacts_only_remove(moved);
    let settled = after_contacts(moved);
    assert forall|j: int| 0 <= j < settled.len() implies confined(#[trigger] settled[j]) by {
        assert(moved.contains(settled[j]));
        let k = choose|k: int| 0 <= k < moved.len() && moved[k] == settled[j];
        assert(confined(moved[k]));
    }
}

/// The stars picked up in the first `count` frames of a run.
pub open spec fn pickups_in_run(states: Seq<Arena>, inputs: Seq<FrameInput>, count: int) -> int
    decreases count,
{
    if count <= 0 {
        0
    } else {
        pickups_in_run(states, inputs, count - 1) + states[count - 1].pickups(
            inputs[count - 1],
        ).len()
    }
}

/// The score counts the stars picked up: over any run of frames, each made
/// from the one before as `is_frame` says, the score has grown by one for
/// every star picked up, and by nothing else.
pub proof fn lemma_score_counts_pickups(states: Seq<Arena>, inputs: Seq<FrameInput>, count: int)
    requires
        states.len() == inputs.len() + 1,
        forall|k: int|
            0 <= k < inputs.len() ==> is_frame(#[trigger] states[k], inputs[k], states[k + 1]),
        0 <= count <= inputs.len(),
    ensures
        states[count].score.value == states[0].score.value + pickups_in_run(
            states,
            inputs,
            count,
        ),
    decreases count,
{
    if count > 0 {
        lemma_score_counts_pickups(states, inputs, count - 1);
        assert(is_frame(states[count - 1], inputs[count - 1], states[count - 1 + 1]));
    }
}

/// The score never goes down: over any run of frames, each made from the one
/// before as `is_frame` says, the score at a later frame is at least the
/// score at an earlier one.
pub proof fn lemma_score_monotone(
    states: Seq<Arena>,
    inputs: Seq<FrameInput>,
    earlier: int,
    later: int,
)
    requires
        states.len() == inputs.len() + 1,
        forall|k: int|
            0 <= k < inputs.len() ==> is_frame(#[trigger] states[k], inputs[k], states[k + 1]),
        0 <= earlier <= later < states.len(),
    ensures
        states[earlier].score.value <= states[later].score.value,
    decreases later - earlier,
{
    if earlier < later {
        lemma_score_monotone(states, inputs, earlier, later - 1);
        assert(is_frame(states[later - 1], inputs[later - 1], states[later - 1 + 1]));
    }
}

} // verus!
