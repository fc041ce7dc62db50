use bomberus::components::Animation;
use bomberus::components::Animations;
use bomberus::components::AnimationType;
use bomberus::components::Drawable;
use bomberus::components::Position;
use bomberus::entity_system::Component;
use bomberus::entity_system::EntitySystem;
use bomberus::systems::system_drawable;
use bomberus::systems::RenderCommand;
use bomberus::GameError;
use bomberus::systems::SystemsError;

fn index_of(cmds: &[RenderCommand], id: u64) -> usize {
    cmds.iter().position(|c| c.id == id).unwrap()
}

#[test]
fn same_layer_draws_lower_y_first() {
    let mut es = EntitySystem::new();
    let low = es.new_entity().unwrap();
    es.add_component_to_entity(low, Component::Position(Position::new(0, 50_000)))
        .unwrap();
    es.add_component_to_entity(low, Component::Drawable(Drawable::new(0, 0, 16, 16, 1)))
        .unwrap();
    let high = es.new_entity().unwrap();
    es.add_component_to_entity(high, Component::Position(Position::new(0, 10_000)))
        .unwrap();
    es.add_component_to_entity(high, Component::Drawable(Drawable::new(0, 0, 16, 16, 1)))
        .unwrap();
    let cmds = system_drawable(&es, 16).unwrap();
    assert_eq!(cmds.len(), 2);
    assert!(index_of(&cmds, high.id()) < index_of(&cmds, low.id()));
}

#[test]
fn layers_draw_in_ascending_order() {
    let mut es = EntitySystem::new();
    let back = es.new_entity().unwrap();
    es.add_component_to_entity(back, Component::Position(Position::new(0, 90_000)))
        .unwrap();
    es.add_component_to_entity(back, Component::Drawable(Drawable::new(0, 0, 16, 16, 0)))
        .unwrap();
    let front = es.new_entity().unwrap();
    es.add_component_to_entity(front, Component::Position(Position::new(0, 10_000)))
        .unwrap();
    es.add_component_to_entity(front, Component::Drawable(Drawable::new(0, 0, 16, 16, 2)))
        .unwrap();
    let mid = es.new_entity().unwrap();
    es.add_component_to_entity(mid, Component::Position(Position::new(0, 50_000)))
        .unwrap();
    es.add_component_to_entity(mid, Component::Drawable(Drawable::new(0, 0, 16, 16, 1)))
        .unwrap();
    let cmds = system_drawable(&es, 16).unwrap();
    assert_eq!(cmds.len(), 3);
    assert!(index_of(&cmds, back.id()) < index_of(&cmds, mid.id()));
    assert!(index_of(&cmds, mid.id()) < index_of(&cmds, front.id()));
}

#[test]
fn commands_carry_zoomed_rectangles_and_pixel_centers() {
    let mut es = EntitySystem::new();
    let e = es.new_entity().unwrap();
    es.add_component_to_entity(e, Component::Position(Position::new(640_000, 360_500)))
        .unwrap();
    es.add_component_to_entity(e, Component::Drawable(Drawable::new(16, 208, 16, 16, 0)))
        .unwrap();
    let cmds = system_drawable(&es, 16).unwrap();
    assert_eq!(cmds.len(), 1);
    let c = &cmds[0];
    assert_eq!((c.src_x, c.src_y, c.src_w, c.src_h), (16, 208, 16, 16));
    assert_eq!((c.dest_w, c.dest_h), (32, 32));
    assert_eq!((c.dest_center_x, c.dest_center_y), (640, 360));
    assert!(!c.flip_horizontal && !c.flip_vertical);
}

#[test]
fn animated_sprites_draw_their_current_frame_with_flips() {
    let mut es = EntitySystem::new();
    let e = es.new_entity().unwrap();
    es.add_component_to_entity(e, Component::Position(Position::new(0, 0)))
        .unwrap();
    let anims = Animations::new(
        AnimationType::WalkingLeft,
        vec![(
            AnimationType::WalkingLeft,
            Animation::new_with_frames(
                vec![
                    Drawable::new(64, 272, 15, 15, 1),
                    Drawable::new(80, 272, 15, 15, 1),
                ],
                5,
                true,
                false,
            ),
        )],
    );
    es.add_component_to_entity(e, Component::Animations(anims))
        .unwrap();
    bomberus::systems::system_animation(&mut es, 200).unwrap();
    let cmds = system_drawable(&es, 16).unwrap();
    assert_eq!(cmds.len(), 1);
    let c = &cmds[0];
    assert_eq!((c.src_x, c.src_y), (80, 272));
    assert!(c.flip_horizontal);
    assert!(!c.flip_vertical);
}

#[test]
fn empty_animation_variant_is_not_drawn() {
    let mut es = EntitySystem::new();
    let e = es.new_entity().unwrap();
    es.add_component_to_entity(e, Component::Position(Position::new(0, 0)))
        .unwrap();
    let anims = Animations::new(AnimationType::Empty, vec![]);
    es.add_component_to_entity(e, Component::Animations(anims))
        .unwrap();
    let cmds = system_drawable(&es, 16).unwrap();
    assert!(cmds.is_empty());
}

#[test]
fn drawable_without_position_is_a_fatal_frame_error() {
    let mut es = EntitySystem::new();
    let e = es.new_entity().unwrap();
    es.add_component_to_entity(e, Component::Drawable(Drawable::new(0, 0, 16, 16, 0)))
        .unwrap();
    match system_drawable(&es, 16) {
        Err(GameError::SystemsError(SystemsError::Position(id))) => assert_eq!(id, e.id()),
        _ => panic!("expected a missing-position error"),
    }
}

#[test]
fn empty_store_renders_nothing() {
    let es = EntitySystem::new();
    let cmds = system_drawable(&es, 16).unwrap();
    assert!(cmds.is_empty());
}
