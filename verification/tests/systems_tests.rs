use bomberus::components::Animation;
use bomberus::components::Animations;
use bomberus::components::AnimationType;
use bomberus::components::BombThink;
use bomberus::components::BombThinkState;
use bomberus::components::Direction;
use bomberus::components::Drawable;
use bomberus::components::Moveable;
use bomberus::components::Position;
use bomberus::components::AI;
use bomberus::components::AIType;
use bomberus::entity_system::Component;
use bomberus::entity_system::ComponentKind;
use bomberus::entity_system::Entity;
use bomberus::entity_system::EntitySystem;
use bomberus::systems::system_ai;
use bomberus::systems::system_animation;
use bomberus::systems::system_bomb_think;
use bomberus::systems::system_direction;
use bomberus::systems::system_moveable;

fn position_of(es: &EntitySystem, e: Entity) -> (i64, i64) {
    match es.component_for_entity(e, ComponentKind::Position).unwrap() {
        Component::Position(p) => (p.x, p.y),
        _ => panic!("wrong component kind"),
    }
}

fn direction_of(es: &EntitySystem, e: Entity) -> Direction {
    match es.component_for_entity(e, ComponentKind::Direction).unwrap() {
        Component::Direction(d) => *d,
        _ => panic!("wrong component kind"),
    }
}

fn animations_of(es: &EntitySystem, e: Entity) -> Animations {
    match es.component_for_entity(e, ComponentKind::Animations).unwrap() {
        Component::Animations(a) => a.clone(),
        _ => panic!("wrong component kind"),
    }
}

fn walking_animations(current: AnimationType) -> Animations {
    let three = |sx: i32| {
        Animation::new_with_frames(
            vec![
                Drawable::new(sx, 272, 15, 15, 1),
                Drawable::new(sx + 16, 272, 15, 15, 1),
                Drawable::new(sx + 32, 272, 15, 15, 1),
            ],
            5,
            false,
            false,
        )
    };
    Animations::new(
        current,
        vec![
            (AnimationType::WalkingDown, three(16)),
            (AnimationType::WalkingUp, three(0)),
            (AnimationType::WalkingRight, three(64)),
            (AnimationType::WalkingLeft, three(64)),
            (
                AnimationType::StandingDown,
                Animation::new_with_frames(vec![Drawable::new(16, 272, 15, 15, 1)], 0, false, false),
            ),
        ],
    )
}

#[test]
fn one_axis_full_speed_tick_moves_exactly_full_speed() {
    // Full speed is 400 pixels per second; one second at dx = 1 covers 400
    // pixels, which is 400_000 position units.
    let mut es = EntitySystem::new();
    let e = es.new_entity().unwrap();
    es.add_component_to_entity(e, Component::Position(Position::new(0, 0)))
        .unwrap();
    es.add_component_to_entity(e, Component::Moveable(Moveable::new(1000, 0)))
        .unwrap();
    let r = system_moveable(&mut es, 1000).unwrap();
    assert!(r.is_none());
    assert_eq!(position_of(&es, e), (400_000, 0));
}

#[test]
fn negative_axis_tick_moves_backwards() {
    let mut es = EntitySystem::new();
    let e = es.new_entity().unwrap();
    es.add_component_to_entity(e, Component::Position(Position::new(100_000, 100_000)))
        .unwrap();
    es.add_component_to_entity(e, Component::Moveable(Moveable::new(0, -1000)))
        .unwrap();
    system_moveable(&mut es, 500).unwrap();
    assert_eq!(position_of(&es, e), (100_000, -100_000));
}

#[test]
fn diagonal_tick_is_normalized_to_full_speed() {
    let mut es = EntitySystem::new();
    let e = es.new_entity().unwrap();
    es.add_component_to_entity(e, Component::Position(Position::new(0, 0)))
        .unwrap();
    es.add_component_to_entity(e, Component::Moveable(Moveable::new(1000, 1000)))
        .unwrap();
    system_moveable(&mut es, 1000).unwrap();
    let (x, y) = position_of(&es, e);
    assert_eq!((x, y), (282_800, 282_800));
    // The squared length stays within one per cent of (400 px)^2.
    let mag2 = (x as i128) * (x as i128) + (y as i128) * (y as i128);
    let target2 = 400_000i128 * 400_000i128;
    assert!(mag2 <= target2);
    assert!(100 * mag2 >= 99 * target2);
}

#[test]
fn moveable_without_position_is_a_fatal_frame_error() {
    let mut es = EntitySystem::new();
    let anchored = es.new_entity().unwrap();
    es.add_component_to_entity(anchored, Component::Position(Position::new(0, 0)))
        .unwrap();
    let loose = es.new_entity().unwrap();
    es.add_component_to_entity(loose, Component::Moveable(Moveable::new(1000, 0)))
        .unwrap();
    let r = system_moveable(&mut es, 16);
    assert!(r.is_err());
}

#[test]
fn missing_tables_make_systems_a_no_op() {
    let mut es = EntitySystem::new();
    assert!(system_moveable(&mut es, 16).unwrap().is_none());
    assert!(system_direction(&mut es, 16).unwrap().is_none());
    assert!(system_animation(&mut es, 16).unwrap().is_none());
    assert!(system_ai(&mut es, 16).unwrap().is_none());
    assert!(system_bomb_think(&mut es, 16).unwrap().is_none());
}

#[test]
fn direction_follows_cardinal_movement_and_is_idempotent() {
    let mut es = EntitySystem::new();
    let e = es.new_entity().unwrap();
    es.add_component_to_entity(e, Component::Moveable(Moveable::new(-1000, 0)))
        .unwrap();
    es.add_component_to_entity(e, Component::Direction(Direction::Down))
        .unwrap();
    system_direction(&mut es, 16).unwrap();
    assert_eq!(direction_of(&es, e), Direction::Left);
    system_direction(&mut es, 16).unwrap();
    assert_eq!(direction_of(&es, e), Direction::Left);
}

#[test]
fn diagonal_or_zero_movement_keeps_last_facing() {
    let mut es = EntitySystem::new();
    let e = es.new_entity().unwrap();
    es.add_component_to_entity(e, Component::Moveable(Moveable::new(1000, 1000)))
        .unwrap();
    es.add_component_to_entity(e, Component::Direction(Direction::Up))
        .unwrap();
    system_direction(&mut es, 16).unwrap();
    assert_eq!(direction_of(&es, e), Direction::Up);
    es.component_for_entity_mut(e, Component::Moveable(Moveable::new(0, 0)))
        .unwrap();
    system_direction(&mut es, 16).unwrap();
    assert_eq!(direction_of(&es, e), Direction::Up);
}

#[test]
fn animation_advances_frames_and_keeps_the_remainder() {
    // Three frames at five frames per second: half a second is 2.5 frame
    // periods, so the index advances twice and 100 ms remain.
    let mut es = EntitySystem::new();
    let e = es.new_entity().unwrap();
    es.add_component_to_entity(
        e,
        Component::Animations(walking_animations(AnimationType::WalkingDown)),
    )
    .unwrap();
    system_animation(&mut es, 500).unwrap();
    let a = animations_of(&es, e);
    assert_eq!(a.current_animation, AnimationType::WalkingDown);
    assert_eq!(a.current_frame, 2);
    assert_eq!(a.last_frame_time, 100);
}

#[test]
fn animation_frame_index_stays_in_range_for_huge_ticks() {
    let mut es = EntitySystem::new();
    let e = es.new_entity().unwrap();
    es.add_component_to_entity(
        e,
        Component::Animations(walking_animations(AnimationType::WalkingDown)),
    )
    .unwrap();
    system_animation(&mut es, u32::MAX).unwrap();
    let a = animations_of(&es, e);
    assert!(a.current_frame < 3);
    assert!(a.last_frame_time < 200);
    system_animation(&mut es, 1).unwrap();
    let a = animations_of(&es, e);
    assert!(a.current_frame < 3);
}

#[test]
fn changing_animation_resets_the_frame_in_the_same_tick() {
    let mut es = EntitySystem::new();
    let e = es.new_entity().unwrap();
    es.add_component_to_entity(
        e,
        Component::Animations(walking_animations(AnimationType::WalkingDown)),
    )
    .unwrap();
    es.add_component_to_entity(e, Component::Moveable(Moveable::new(0, 1000)))
        .unwrap();
    es.add_component_to_entity(e, Component::Direction(Direction::Down))
        .unwrap();
    // Walk down for half a second: frame index 2.
    system_animation(&mut es, 500).unwrap();
    assert_eq!(animations_of(&es, e).current_frame, 2);
    // Turn right: the variant changes and the index restarts at zero.
    es.component_for_entity_mut(e, Component::Moveable(Moveable::new(1000, 0)))
        .unwrap();
    system_direction(&mut es, 0).unwrap();
    system_animation(&mut es, 0).unwrap();
    let a = animations_of(&es, e);
    assert_eq!(a.current_animation, AnimationType::WalkingRight);
    assert_eq!(a.current_frame, 0);
}

#[test]
fn empty_animation_variant_is_left_untouched() {
    let mut es = EntitySystem::new();
    let e = es.new_entity().unwrap();
    es.add_component_to_entity(
        e,
        Component::Animations(walking_animations(AnimationType::Empty)),
    )
    .unwrap();
    system_animation(&mut es, 500).unwrap();
    let a = animations_of(&es, e);
    assert_eq!(a.current_animation, AnimationType::Empty);
    assert_eq!(a.current_frame, 0);
    assert_eq!(a.last_frame_time, 0);
}

#[test]
fn standing_pose_never_advances() {
    let mut es = EntitySystem::new();
    let e = es.new_entity().unwrap();
    es.add_component_to_entity(
        e,
        Component::Animations(walking_animations(AnimationType::StandingDown)),
    )
    .unwrap();
    system_animation(&mut es, 5000).unwrap();
    let a = animations_of(&es, e);
    assert_eq!(a.current_animation, AnimationType::StandingDown);
    assert_eq!(a.current_frame, 0);
}

#[test]
fn ai_timer_accumulates_elapsed_time() {
    let mut es = EntitySystem::new();
    let e = es.new_entity().unwrap();
    es.add_component_to_entity(e, Component::Ai(AI::new(AIType::Warrior)))
        .unwrap();
    system_ai(&mut es, 16).unwrap();
    system_ai(&mut es, 16).unwrap();
    match es.component_for_entity(e, ComponentKind::Ai).unwrap() {
        Component::Ai(a) => assert_eq!(a.last_think, 32),
        _ => panic!("wrong component kind"),
    }
}

#[test]
fn bomb_stays_spawned_until_the_fuse_runs_out() {
    let mut es = EntitySystem::new();
    let e = es.new_entity().unwrap();
    es.add_component_to_entity(e, Component::BombThink(BombThink::new()))
        .unwrap();
    let r = system_bomb_think(&mut es, 1900).unwrap();
    assert!(r.is_none());
    match es.component_for_entity(e, ComponentKind::BombThink).unwrap() {
        Component::BombThink(b) => {
            assert_eq!(b.state, BombThinkState::Spawned);
            assert_eq!(b.time_since_spawn, 1900);
        }
        _ => panic!("wrong component kind"),
    }
    system_bomb_think(&mut es, 200).unwrap();
    match es.component_for_entity(e, ComponentKind::BombThink).unwrap() {
        Component::BombThink(b) => {
            assert_eq!(b.state, BombThinkState::Exploding);
            assert_eq!(b.time_since_spawn, 2100);
        }
        _ => panic!("wrong component kind"),
    }
}

#[test]
fn update_order_feeds_animation_the_previous_facing() {
    // The reference frame order runs the animation system before the
    // direction system, so a turn shows in the animation one frame later.
    let mut es = EntitySystem::new();
    let e = es.new_entity().unwrap();
    es.add_component_to_entity(e, Component::Position(Position::new(0, 0)))
        .unwrap();
    es.add_component_to_entity(e, Component::Moveable(Moveable::new(1000, 0)))
        .unwrap();
    es.add_component_to_entity(e, Component::Direction(Direction::Down))
        .unwrap();
    es.add_component_to_entity(
        e,
        Component::Animations(walking_animations(AnimationType::StandingDown)),
    )
    .unwrap();
    let frame = |es: &mut EntitySystem| {
        system_moveable(es, 16).unwrap();
        system_animation(es, 16).unwrap();
        bomberus::systems::system_drawable(es, 16).unwrap();
        system_direction(es, 16).unwrap();
        system_ai(es, 16).unwrap();
        system_bomb_think(es, 16).unwrap();
    };
    frame(&mut es);
    // The animation saw the stale facing: walking, but still facing down.
    assert_eq!(animations_of(&es, e).current_animation, AnimationType::WalkingDown);
    assert_eq!(direction_of(&es, e), Direction::Right);
    frame(&mut es);
    assert_eq!(animations_of(&es, e).current_animation, AnimationType::WalkingRight);
}
