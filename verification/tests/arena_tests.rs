use arena_sim::arena::confine_enemy;
use arena_sim::arena::confine_player;
use arena_sim::arena::enemy_movement;
use arena_sim::arena::exit_game;
use arena_sim::arena::player_collision;
use arena_sim::arena::player_movement;
use arena_sim::arena::player_star_collision;
use arena_sim::arena::spawn_enemy;
use arena_sim::arena::spawn_enemy_over_time;
use arena_sim::arena::spawn_player;
use arena_sim::arena::spawn_stars;
use arena_sim::arena::spawn_stars_over_time;
use arena_sim::arena::tick_enemy_spawn_timer;
use arena_sim::arena::tick_star_spawn_timer;
use arena_sim::arena::update_enemy_direction;
use arena_sim::arena::Arena;
use arena_sim::arena::EnemySpawnTimer;
use arena_sim::arena::Score;
use arena_sim::arena::StarSpawnTimer;
use arena_sim::arena::ENEMY_RADIUS;
use arena_sim::arena::ENEMY_SIZE;
use arena_sim::arena::ENEMY_SPAWN_TIME;
use arena_sim::arena::ENEMY_SPEED;
use arena_sim::arena::NUMBER_OF_ENEMIES;
use arena_sim::arena::NUMBER_OF_STARS;
use arena_sim::arena::PLAYER_RADIUS;
use arena_sim::arena::PLAYER_SIZE;
use arena_sim::arena::PLAYER_SPEED;
use arena_sim::arena::STAR_RADIUS;
use arena_sim::arena::STAR_SIZE;
use arena_sim::arena::STAR_SPAWN_TIME;
use arena_sim::event::Cause;
use arena_sim::event::Event;
use arena_sim::field::PlayField;
use arena_sim::frame::FrameInput;
use arena_sim::store::EntityId;
use arena_sim::store::EntityStore;
use arena_sim::store::Kind;
use arena_sim::timer::TimerMode;
use arena_sim::vector::Point;
use arena_sim::vector::Vec2;
use arena_sim::vector::UNIT;
use rand::rngs::StdRng;
use rand::SeedableRng;

fn at(x: i64, y: i64) -> Point {
    Point { x, y }
}

fn field() -> PlayField {
    PlayField::new(1_280_000, 720_000)
}

fn ids(store: &EntityStore) -> Vec<u64> {
    (0..store.len()).map(|i| store.entity_at(i).id.0).collect()
}

fn kinds(store: &EntityStore) -> Vec<Kind> {
    (0..store.len()).map(|i| store.entity_at(i).kind).collect()
}

fn input(dt: u64, intent: Vec2) -> FrameInput {
    FrameInput { dt, field: field(), intent, quit_requested: false }
}

#[test]
fn constants_are_in_thousandths_and_nanoseconds() {
    assert_eq!(PLAYER_SIZE, 64_000);
    assert_eq!(PLAYER_SPEED, 500_000);
    assert_eq!(NUMBER_OF_ENEMIES, 4);
    assert_eq!(ENEMY_SPEED, 250_000);
    assert_eq!(ENEMY_SIZE, 64_000);
    assert_eq!(NUMBER_OF_STARS, 10);
    assert_eq!(STAR_SIZE, 30_000);
    assert_eq!(STAR_SPAWN_TIME, 2_000_000_000);
    assert_eq!(ENEMY_SPAWN_TIME, 2_000_000_000);
    assert_eq!(PLAYER_RADIUS, 32_000);
    assert_eq!(ENEMY_RADIUS, 32_000);
    assert_eq!(STAR_RADIUS, 15_000);
}

#[test]
fn resources_start_at_zero() {
    assert_eq!(Score::default().value, 0);
    let stars = StarSpawnTimer::default();
    assert_eq!(stars.timer.period, 2_000_000_000);
    assert_eq!(stars.timer.mode, TimerMode::Repeating);
    assert_eq!(stars.timer.elapsed(), 0);
    assert!(!stars.timer.finished());
    let enemies = EnemySpawnTimer::default();
    assert_eq!(enemies.timer.period, 2_000_000_000);
    assert_eq!(enemies.timer.mode, TimerMode::Repeating);
    assert!(!enemies.timer.finished());
}

#[test]
fn spawn_player_puts_the_player_in_the_middle() {
    let mut store = EntityStore::new();
    let events = spawn_player(&mut store, field());
    assert_eq!(store.len(), 1);
    let player = store.entity_at(0);
    assert_eq!(player.kind, Kind::Player);
    assert_eq!(player.position, at(640_000, 360_000));
    assert_eq!(player.direction, Vec2::zero());
    assert_eq!(
        events,
        vec![Event::Created {
            id: EntityId(0),
            kind: Kind::Player,
            position: at(640_000, 360_000)
        }]
    );
}

#[test]
fn spawn_enemy_scatters_four_roamers_with_unit_directions() {
    let mut store = EntityStore::new();
    let mut rng = StdRng::seed_from_u64(7);
    let events = spawn_enemy(&mut store, field(), &mut rng);
    assert_eq!(store.len(), 4);
    assert_eq!(events.len(), 4);
    for i in 0..4 {
        let e = store.entity_at(i);
        assert_eq!(e.id, EntityId(i as u64));
        assert_eq!(e.kind, Kind::Roamer);
        assert!(0 <= e.position.x && e.position.x < 1_280_000);
        assert!(0 <= e.position.y && e.position.y < 720_000);
        assert!(0 <= e.direction.x && e.direction.x <= UNIT);
        assert!(0 <= e.direction.y && e.direction.y <= UNIT);
        let norm_sq = (e.direction.x as i64).pow(2) + (e.direction.y as i64).pow(2);
        assert!(norm_sq <= 1_000_000_000_000);
        assert!(norm_sq > 999_996_000_000);
        assert_eq!(events[i], Event::Created { id: e.id, kind: Kind::Roamer, position: e.position });
    }
}

#[test]
fn spawn_stars_scatters_ten_collectibles_without_direction() {
    let mut store = EntityStore::new();
    let mut rng = StdRng::seed_from_u64(8);
    let events = spawn_stars(&mut store, field(), &mut rng);
    assert_eq!(store.len(), 10);
    assert_eq!(events.len(), 10);
    for i in 0..10 {
        let e = store.entity_at(i);
        assert_eq!(e.kind, Kind::Collectible);
        assert_eq!(e.direction, Vec2::zero());
        assert!(0 <= e.position.x && e.position.x < 1_280_000);
        assert!(0 <= e.position.y && e.position.y < 720_000);
    }
}

#[test]
fn random_placement_stays_in_the_field_whatever_the_seed() {
    let small = PlayField::new(3, 2);
    for seed in 0..200u64 {
        let mut rng = StdRng::seed_from_u64(seed);
        let mut store = EntityStore::new();
        spawn_stars(&mut store, small, &mut rng);
        spawn_enemy(&mut store, small, &mut rng);
        for i in 0..store.len() {
            let p = store.entity_at(i).position;
            assert!(0 <= p.x && p.x < 3, "seed {} x {}", seed, p.x);
            assert!(0 <= p.y && p.y < 2, "seed {} y {}", seed, p.y);
        }
    }
}

#[test]
fn random_placement_reaches_every_cell_of_a_small_field() {
    let small = PlayField::new(3, 2);
    let mut seen = [[false; 2]; 3];
    let mut rng = StdRng::seed_from_u64(11);
    for _ in 0..40 {
        let mut store = EntityStore::new();
        spawn_stars(&mut store, small, &mut rng);
        for i in 0..store.len() {
            let p = store.entity_at(i).position;
            seen[p.x as usize][p.y as usize] = true;
        }
    }
    assert!(seen.iter().all(|column| column.iter().all(|cell| *cell)));
}

#[test]
fn random_placement_is_not_held_back_by_the_size_of_the_entity() {
    let narrow = PlayField::new(20_000, 20_000);
    let mut rng = StdRng::seed_from_u64(3);
    let mut store = EntityStore::new();
    spawn_enemy(&mut store, narrow, &mut rng);
    for i in 0..store.len() {
        let p = store.entity_at(i).position;
        assert!(p.x < 20_000 && p.y < 20_000);
        assert!(p.x < ENEMY_RADIUS as i64);
    }
}

#[test]
fn random_placement_in_a_field_without_extent_is_at_zero() {
    let mut rng = StdRng::seed_from_u64(5);
    let mut store = EntityStore::new();
    spawn_stars(&mut store, PlayField::new(0, 0), &mut rng);
    for i in 0..store.len() {
        assert_eq!(store.entity_at(i).position, at(0, 0));
    }
}

#[test]
fn same_seed_gives_the_same_placement() {
    let mut first = EntityStore::new();
    let mut second = EntityStore::new();
    spawn_enemy(&mut first, field(), &mut StdRng::seed_from_u64(99));
    spawn_enemy(&mut second, field(), &mut StdRng::seed_from_u64(99));
    for i in 0..4 {
        assert_eq!(first.entity_at(i), second.entity_at(i));
    }
}

#[test]
fn player_moves_along_an_axis_at_full_speed() {
    let mut store = EntityStore::new();
    store.create(Kind::Player, at(640_000, 360_000), Vec2::zero());
    player_movement(&mut store, Vec2::new(1, 0), 20_000_000);
    assert_eq!(store.entity_at(0).position, at(650_000, 360_000));
    player_movement(&mut store, Vec2::new(0, -1), 1_000_000_000);
    assert_eq!(store.entity_at(0).position, at(650_000, -140_000));
}

#[test]
fn player_moves_along_a_diagonal_no_faster() {
    let mut store = EntityStore::new();
    store.create(Kind::Player, at(0, 0), Vec2::zero());
    player_movement(&mut store, Vec2::new(-1, 1), 1_000_000_000);
    assert_eq!(store.entity_at(0).position, at(-353_553, 353_553));
}

#[test]
fn player_without_intent_or_time_stays_put() {
    let mut store = EntityStore::new();
    store.create(Kind::Player, at(5, 6), Vec2::zero());
    player_movement(&mut store, Vec2::zero(), 1_000_000_000);
    assert_eq!(store.entity_at(0).position, at(5, 6));
    player_movement(&mut store, Vec2::new(1, 1), 0);
    assert_eq!(store.entity_at(0).position, at(5, 6));
}

#[test]
fn player_movement_leaves_others_alone_and_tolerates_no_player() {
    let mut store = EntityStore::new();
    store.create(Kind::Roamer, at(5, 6), Vec2::new(UNIT, 0));
    player_movement(&mut store, Vec2::new(1, 0), 1_000_000_000);
    assert_eq!(store.entity_at(0).position, at(5, 6));
    store.create(Kind::Player, at(0, 0), Vec2::zero());
    store.create(Kind::Player, at(9, 9), Vec2::zero());
    player_movement(&mut store, Vec2::new(1, 0), 1_000_000_000);
    assert_eq!(store.entity_at(1).position, at(0, 0));
    assert_eq!(store.entity_at(2).position, at(9, 9));
}

#[test]
fn confine_player_brings_any_position_into_the_band() {
    let starts = [
        (at(-500_000, -3), at(32_000, 32_000)),
        (at(5_000_000, 8_000_000), at(1_248_000, 688_000)),
        (at(i64::MIN, i64::MAX), at(32_000, 688_000)),
        (at(31_999, 688_001), at(32_000, 688_000)),
        (at(32_000, 688_000), at(32_000, 688_000)),
        (at(640_000, 360_000), at(640_000, 360_000)),
    ];
    for (start, expected) in starts {
        let mut store = EntityStore::new();
        store.create(Kind::Player, start, Vec2::zero());
        confine_player(&mut store, field());
        assert_eq!(store.entity_at(0).position, expected);
    }
}

#[test]
fn confine_enemy_brings_every_enemy_into_the_band_and_no_one_else() {
    let mut store = EntityStore::new();
    store.create(Kind::Roamer, at(-1, 100_000), Vec2::new(UNIT, 0));
    store.create(Kind::Collectible, at(-1, -1), Vec2::zero());
    store.create(Kind::Roamer, at(1_279_999, 719_999), Vec2::new(0, UNIT));
    store.create(Kind::Player, at(-7, -7), Vec2::zero());
    confine_enemy(&mut store, field());
    assert_eq!(store.entity_at(0).position, at(32_000, 100_000));
    assert_eq!(store.entity_at(1).position, at(-1, -1));
    assert_eq!(store.entity_at(2).position, at(1_248_000, 688_000));
    assert_eq!(store.entity_at(3).position, at(-7, -7));
    assert_eq!(store.entity_at(0).direction, Vec2::new(UNIT, 0));
}

#[test]
fn enemies_move_along_their_own_directions() {
    let mut store = EntityStore::new();
    store.create(Kind::Roamer, at(100_000, 100_000), Vec2::new(600_000, -800_000));
    store.create(Kind::Collectible, at(1, 1), Vec2::zero());
    store.create(Kind::Roamer, at(0, 0), Vec2::new(-UNIT, 0));
    enemy_movement(&mut store, 20_000_000);
    assert_eq!(store.entity_at(0).position, at(103_000, 96_000));
    assert_eq!(store.entity_at(1).position, at(1, 1));
    assert_eq!(store.entity_at(2).position, at(-5_000, 0));
    enemy_movement(&mut store, 0);
    assert_eq!(store.entity_at(0).position, at(103_000, 96_000));
}

#[test]
fn enemies_turn_where_they_have_left_the_band() {
    let mut store = EntityStore::new();
    store.create(Kind::Roamer, at(31_999, 100_000), Vec2::new(-600_000, 800_000));
    store.create(Kind::Roamer, at(32_000, 688_000), Vec2::new(-600_000, 800_000));
    store.create(Kind::Roamer, at(1_248_001, 688_001), Vec2::new(600_000, 800_000));
    store.create(Kind::Roamer, at(640_000, -5), Vec2::new(0, -UNIT));
    store.create(Kind::Player, at(-5, -5), Vec2::zero());
    let events = update_enemy_direction(&mut store, field());
    assert_eq!(store.entity_at(0).direction, Vec2::new(600_000, 800_000));
    assert_eq!(store.entity_at(1).direction, Vec2::new(-600_000, 800_000));
    assert_eq!(store.entity_at(2).direction, Vec2::new(-600_000, -800_000));
    assert_eq!(store.entity_at(3).direction, Vec2::new(0, UNIT));
    assert_eq!(store.entity_at(0).position, at(31_999, 100_000));
    assert_eq!(store.entity_at(2).position, at(1_248_001, 688_001));
    assert_eq!(events, vec![Event::Sound { cause: Cause::BoundaryBounce }; 3]);
}

#[test]
fn lethal_contact_destroys_the_player_and_sounds_once() {
    let mut store = EntityStore::new();
    let player = store.create(Kind::Player, at(100_000, 100_000), Vec2::zero());
    store.create(Kind::Roamer, at(120_000, 100_000), Vec2::new(UNIT, 0));
    let events = player_collision(&mut store);
    assert_eq!(
        events,
        vec![Event::Destroyed { id: player }, Event::Sound { cause: Cause::FatalImpact }]
    );
    assert_eq!(kinds(&store), vec![Kind::Roamer]);
    assert!(!store.contains(player));
}

#[test]
fn distant_enemy_has_no_effect() {
    let mut store = EntityStore::new();
    store.create(Kind::Player, at(100_000, 100_000), Vec2::zero());
    store.create(Kind::Roamer, at(200_000, 100_000), Vec2::new(UNIT, 0));
    let events = player_collision(&mut store);
    assert!(events.is_empty());
    assert_eq!(kinds(&store), vec![Kind::Player, Kind::Roamer]);
}

#[test]
fn enemy_at_exactly_the_two_radii_has_no_effect() {
    let mut store = EntityStore::new();
    store.create(Kind::Player, at(100_000, 100_000), Vec2::zero());
    store.create(Kind::Roamer, at(164_000, 100_000), Vec2::new(UNIT, 0));
    assert!(player_collision(&mut store).is_empty());
    assert_eq!(store.len(), 2);
    store.set_position(1, at(163_999, 100_000));
    assert_eq!(player_collision(&mut store).len(), 2);
    assert_eq!(kinds(&store), vec![Kind::Roamer]);
}

#[test]
fn several_enemies_in_contact_still_sound_once() {
    let mut store = EntityStore::new();
    store.create(Kind::Roamer, at(90_000, 100_000), Vec2::new(UNIT, 0));
    let player = store.create(Kind::Player, at(100_000, 100_000), Vec2::zero());
    store.create(Kind::Roamer, at(120_000, 100_000), Vec2::new(UNIT, 0));
    store.create(Kind::Roamer, at(100_000, 130_000), Vec2::new(UNIT, 0));
    let events = player_collision(&mut store);
    assert_eq!(
        events,
        vec![Event::Destroyed { id: player }, Event::Sound { cause: Cause::FatalImpact }]
    );
    assert_eq!(ids(&store), vec![0, 2, 3]);
}

#[test]
fn contact_passes_tolerate_a_missing_player() {
    let mut store = EntityStore::new();
    store.create(Kind::Roamer, at(100_000, 100_000), Vec2::new(UNIT, 0));
    store.create(Kind::Collectible, at(100_000, 100_000), Vec2::zero());
    let mut score = Score::default();
    assert!(player_collision(&mut store).is_empty());
    assert!(player_star_collision(&mut store, &mut score).is_empty());
    assert_eq!(score.value, 0);
    assert_eq!(store.len(), 2);
    confine_player(&mut store, field());
    player_movement(&mut store, Vec2::new(1, 0), 1_000_000);
    assert_eq!(store.entity_at(0).position, at(100_000, 100_000));
}

#[test]
fn player_is_gone_after_lethal_contact_and_a_second_pass_does_nothing() {
    let mut store = EntityStore::new();
    store.create(Kind::Player, at(100_000, 100_000), Vec2::zero());
    store.create(Kind::Roamer, at(120_000, 100_000), Vec2::new(UNIT, 0));
    assert_eq!(player_collision(&mut store).len(), 2);
    assert!(player_collision(&mut store).is_empty());
    assert_eq!(kinds(&store), vec![Kind::Roamer]);
}

#[test]
fn each_star_in_contact_is_picked_up_and_counts_one_point() {
    let mut store = EntityStore::new();
    store.create(Kind::Collectible, at(100_000, 146_999), Vec2::zero());
    store.create(Kind::Player, at(100_000, 100_000), Vec2::zero());
    store.create(Kind::Collectible, at(100_000, 147_000), Vec2::zero());
    store.create(Kind::Collectible, at(130_000, 130_000), Vec2::zero());
    store.create(Kind::Roamer, at(100_000, 100_000), Vec2::new(UNIT, 0));
    store.create(Kind::Collectible, at(60_000, 100_000), Vec2::zero());
    store.create(Kind::Collectible, at(900_000, 100_000), Vec2::zero());
    let mut score = Score { value: 5 };
    let events = player_star_collision(&mut store, &mut score);
    assert_eq!(score.value, 8);
    assert_eq!(ids(&store), vec![1, 2, 4, 6]);
    assert_eq!(
        events,
        vec![
            Event::Destroyed { id: EntityId(0) },
            Event::Destroyed { id: EntityId(3) },
            Event::Destroyed { id: EntityId(5) },
            Event::Sound { cause: Cause::Pickup },
            Event::Sound { cause: Cause::Pickup },
            Event::Sound { cause: Cause::Pickup },
        ]
    );
}

#[test]
fn score_after_n_pickups_in_one_run_is_n() {
    let mut store = EntityStore::new();
    store.create(Kind::Player, at(0, 0), Vec2::zero());
    let mut score = Score::default();
    let n: u32 = 7;
    for k in 0..n {
        store.create(Kind::Collectible, at(1_000 * k as i64, 0), Vec2::zero());
        let before = score.value;
        player_star_collision(&mut store, &mut score);
        assert!(score.value >= before);
        assert_eq!(score.value, k + 1);
    }
    assert_eq!(score.value, n);
}

#[test]
fn pickup_pass_run_again_finds_nothing() {
    let mut store = EntityStore::new();
    store.create(Kind::Player, at(100_000, 100_000), Vec2::zero());
    let star = store.create(Kind::Collectible, at(110_000, 100_000), Vec2::zero());
    store.create(Kind::Collectible, at(500_000, 100_000), Vec2::zero());
    let mut score = Score::default();
    assert_eq!(player_star_collision(&mut store, &mut score).len(), 2);
    assert_eq!(score.value, 1);
    let again = player_star_collision(&mut store, &mut score);
    assert!(again.is_empty());
    assert_eq!(score.value, 1);
    assert_eq!(ids(&store), vec![0, 2]);
    assert!(!store.destroy(star));
    assert_eq!(ids(&store), vec![0, 2]);
    assert_eq!(score.value, 1);
}

#[test]
fn spawn_timers_tick_on_their_own() {
    let mut stars = StarSpawnTimer::default();
    let mut enemies = EnemySpawnTimer::default();
    tick_star_spawn_timer(&mut stars, 1_500_000_000);
    assert!(!stars.timer.finished());
    assert_eq!(enemies.timer.elapsed(), 0);
    tick_star_spawn_timer(&mut stars, 1_000_000_000);
    assert!(stars.timer.finished());
    assert_eq!(stars.timer.elapsed(), 500_000_000);
    tick_enemy_spawn_timer(&mut enemies, 2_000_000_000);
    assert!(enemies.timer.finished());
    assert_eq!(enemies.timer.elapsed(), 0);
}

#[test]
fn timers_bring_one_entity_when_they_have_fired_and_none_otherwise() {
    let mut store = EntityStore::new();
    let mut rng = StdRng::seed_from_u64(21);
    let mut stars = StarSpawnTimer::default();
    let mut enemies = EnemySpawnTimer::default();
    assert!(spawn_stars_over_time(&mut store, field(), &stars, &mut rng).is_empty());
    assert!(spawn_enemy_over_time(&mut store, field(), &enemies, &mut rng).is_empty());
    assert_eq!(store.len(), 0);
    tick_star_spawn_timer(&mut stars, 2_000_000_000);
    tick_enemy_spawn_timer(&mut enemies, 2_000_000_000);
    let new_enemy = spawn_enemy_over_time(&mut store, field(), &enemies, &mut rng);
    let new_star = spawn_stars_over_time(&mut store, field(), &stars, &mut rng);
    assert_eq!(kinds(&store), vec![Kind::Roamer, Kind::Collectible]);
    assert_eq!(new_enemy.len(), 1);
    assert_eq!(new_star.len(), 1);
    let star = store.entity_at(1);
    assert_eq!(new_star[0], Event::Created { id: star.id, kind: star.kind, position: star.position });
    assert!(0 <= star.position.x && star.position.x < 1_280_000);
    assert!(0 <= star.position.y && star.position.y < 720_000);
}

#[test]
fn exit_is_asked_for_when_the_input_asks() {
    assert!(exit_game(true));
    assert!(!exit_game(false));
}

#[test]
fn startup_creates_player_enemies_and_stars_in_that_order() {
    let mut arena = Arena::new();
    let mut rng = StdRng::seed_from_u64(1);
    let events = arena.startup(field(), &mut rng);
    assert_eq!(arena.store.len(), 15);
    assert_eq!(events.len(), 15);
    let all = kinds(&arena.store);
    assert_eq!(all[0], Kind::Player);
    assert!(all[1..5].iter().all(|k| *k == Kind::Roamer));
    assert!(all[5..].iter().all(|k| *k == Kind::Collectible));
    assert_eq!(ids(&arena.store), (0..15).collect::<Vec<u64>>());
    assert_eq!(arena.store.entity_at(0).position, at(640_000, 360_000));
    assert_eq!(arena.score.value, 0);
    for i in 0..15 {
        let e = arena.store.entity_at(i);
        assert_eq!(events[i], Event::Created { id: e.id, kind: e.kind, position: e.position });
    }
}

#[test]
fn one_frame_moves_confines_and_picks_up() {
    let mut arena = Arena::new();
    let mut rng = StdRng::seed_from_u64(1);
    arena.store.create(Kind::Player, at(640_000, 360_000), Vec2::zero());
    arena.store.create(Kind::Roamer, at(100_000, 100_000), Vec2::new(UNIT, 0));
    let star = arena.store.create(Kind::Collectible, at(650_000, 360_000), Vec2::zero());
    arena.store.create(Kind::Roamer, at(1_247_000, 10_000), Vec2::new(UNIT, -UNIT));
    let frame = input(20_000_000, Vec2::new(1, 0));
    assert!(arena.fits_step(&frame));
    let output = arena.step(&frame, &mut rng);
    assert_eq!(arena.store.entity_at(0).position, at(650_000, 360_000));
    assert_eq!(arena.store.entity_at(1).position, at(105_000, 100_000));
    assert_eq!(arena.store.entity_at(1).direction, Vec2::new(UNIT, 0));
    assert_eq!(arena.store.entity_at(2).position, at(1_248_000, 32_000));
    assert_eq!(arena.store.entity_at(2).direction, Vec2::new(-UNIT, UNIT));
    assert_eq!(ids(&arena.store), vec![0, 1, 3]);
    assert_eq!(arena.score.value, 1);
    assert_eq!(output.score, 1);
    assert!(!output.exit_requested);
    assert_eq!(
        output.events,
        vec![
            Event::Sound { cause: Cause::BoundaryBounce },
            Event::Destroyed { id: star },
            Event::Sound { cause: Cause::Pickup },
        ]
    );
    assert_eq!(arena.star_spawn_timer.timer.elapsed(), 20_000_000);
    assert_eq!(arena.enemy_spawn_timer.timer.elapsed(), 20_000_000);
}

#[test]
fn a_player_killed_in_a_frame_picks_nothing_up() {
    let mut arena = Arena::new();
    let mut rng = StdRng::seed_from_u64(1);
    let player = arena.store.create(Kind::Player, at(640_000, 360_000), Vec2::zero());
    arena.store.create(Kind::Roamer, at(660_000, 360_000), Vec2::new(0, UNIT));
    arena.store.create(Kind::Collectible, at(640_000, 360_000), Vec2::zero());
    let output = arena.step(&input(0, Vec2::zero()), &mut rng);
    assert_eq!(
        output.events,
        vec![Event::Destroyed { id: player }, Event::Sound { cause: Cause::FatalImpact }]
    );
    assert_eq!(output.score, 0);
    assert_eq!(kinds(&arena.store), vec![Kind::Roamer, Kind::Collectible]);
    let later = arena.step(&input(1_000_000, Vec2::new(1, 1)), &mut rng);
    assert!(later.events.is_empty());
    assert_eq!(later.score, 0);
    assert_eq!(arena.store.len(), 2);
}

#[test]
fn a_frame_of_no_duration_moves_nothing() {
    let mut arena = Arena::new();
    let mut rng = StdRng::seed_from_u64(4);
    arena.startup(field(), &mut rng);
    for i in 0..arena.store.len() {
        let e = arena.store.entity_at(i);
        if e.kind != Kind::Player {
            arena.store.set_position(i, at(100_000 + 70_000 * i as i64, 100_000));
        }
    }
    let before: Vec<_> = (0..arena.store.len()).map(|i| arena.store.entity_at(i)).collect();
    let output = arena.step(&input(0, Vec2::new(1, 1)), &mut rng);
    let after: Vec<_> = (0..arena.store.len()).map(|i| arena.store.entity_at(i)).collect();
    assert_eq!(before, after);
    assert!(output.events.is_empty());
}

#[test]
fn timers_bring_an_enemy_and_a_star_every_two_seconds() {
    let mut arena = Arena::new();
    let mut rng = StdRng::seed_from_u64(2);
    let mut counts = Vec::new();
    for _ in 0..9 {
        let frame = input(500_000_000, Vec2::zero());
        assert!(arena.fits_step(&frame));
        let output = arena.step(&frame, &mut rng);
        counts.push(output.events.iter().filter(|e| matches!(e, Event::Created { .. })).count());
    }
    assert_eq!(counts, vec![0, 0, 0, 2, 0, 0, 0, 2, 0]);
    assert_eq!(
        kinds(&arena.store),
        vec![Kind::Roamer, Kind::Collectible, Kind::Roamer, Kind::Collectible]
    );
}

#[test]
fn score_never_goes_down_over_a_run_of_frames() {
    let mut arena = Arena::new();
    let mut rng = StdRng::seed_from_u64(12);
    arena.startup(PlayField::new(300_000, 300_000), &mut rng);
    let small = PlayField::new(300_000, 300_000);
    let intents = [Vec2::new(1, 0), Vec2::new(0, 1), Vec2::new(-1, -1), Vec2::new(1, 1)];
    let mut last = 0;
    let mut destroyed_stars = 0;
    for k in 0..400usize {
        let frame = FrameInput {
            dt: 16_666_667,
            field: small,
            intent: intents[(k / 25) % 4],
            quit_requested: false,
        };
        assert!(arena.fits_step(&frame));
        let output = arena.step(&frame, &mut rng);
        assert!(output.score >= last);
        destroyed_stars += output
            .events
            .iter()
            .filter(|e| matches!(e, Event::Sound { cause: Cause::Pickup }))
            .count();
        last = output.score;
        assert_eq!(output.score as usize, destroyed_stars);
        let fresh: Vec<EntityId> = output
            .events
            .iter()
            .filter_map(|e| match e {
                Event::Created { id, .. } => Some(*id),
                _ => None,
            })
            .collect();
        for i in 0..arena.store.len() {
            let e = arena.store.entity_at(i);
            if (e.kind == Kind::Player || e.kind == Kind::Roamer) && !fresh.contains(&e.id) {
                assert!(32_000 <= e.position.x && e.position.x <= 268_000);
                assert!(32_000 <= e.position.y && e.position.y <= 268_000);
            }
        }
    }
    assert_eq!(arena.score.value, last);
}

#[test]
fn exit_request_is_handed_on() {
    let mut arena = Arena::new();
    let mut rng = StdRng::seed_from_u64(2);
    let mut frame = input(1_000, Vec2::zero());
    frame.quit_requested = true;
    assert!(arena.step(&frame, &mut rng).exit_requested);
}

#[test]
fn fits_step_refuses_a_frame_that_would_overflow() {
    let mut arena = Arena::new();
    arena.store.create(Kind::Roamer, at(i64::MAX, 0), Vec2::new(UNIT, 0));
    assert!(arena.fits_frame(&input(0, Vec2::zero())));
    assert!(!arena.fits_frame(&input(1_000_000, Vec2::zero())));
    assert!(!arena.fits_step(&input(1_000_000, Vec2::zero())));
    let mut full = Arena::new();
    full.store.create(Kind::Player, at(0, 0), Vec2::zero());
    full.store.create(Kind::Collectible, at(0, 0), Vec2::zero());
    full.score.value = u32::MAX;
    assert!(!full.fits_frame(&input(0, Vec2::zero())));
    full.score.value = u32::MAX - 1;
    assert!(full.fits_frame(&input(0, Vec2::zero())));
}

#[test]
fn entities_are_seen_as_what_their_kind_makes_them() {
    let mut store = EntityStore::new();
    store.create(Kind::Player, at(0, 0), Vec2::zero());
    store.create(Kind::Roamer, at(0, 0), Vec2::new(600_000, 800_000));
    store.create(Kind::Collectible, at(0, 0), Vec2::zero());
    let player = store.entity_at(0);
    let enemy = store.entity_at(1);
    let star = store.entity_at(2);
    assert_eq!(arena_sim::arena::Player::of(player), Some(arena_sim::arena::Player {}));
    assert_eq!(arena_sim::arena::Player::of(enemy), None);
    assert_eq!(
        arena_sim::arena::Enemy::of(enemy),
        Some(arena_sim::arena::Enemy { direction: Vec2::new(600_000, 800_000) })
    );
    assert_eq!(arena_sim::arena::Enemy::of(star), None);
    assert_eq!(arena_sim::arena::Star::of(star), Some(arena_sim::arena::Star {}));
    assert_eq!(arena_sim::arena::Star::of(player), None);
}
