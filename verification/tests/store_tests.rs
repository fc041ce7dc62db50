use bomberus::components::Collidable;
use bomberus::components::Drawable;
use bomberus::components::Moveable;
use bomberus::components::Position;
use bomberus::entity_system::Component;
use bomberus::entity_system::ComponentKind;
use bomberus::entity_system::EntitySystem;
use bomberus::entity_system::EntitySystemError;
use bomberus::systems::SystemsError;
use bomberus::GameError;

#[test]
fn entity_ids_are_monotonic_and_never_reused() {
    let mut es = EntitySystem::new();
    let a = es.new_entity().unwrap();
    let b = es.new_entity_with_name("b".to_string()).unwrap();
    let c = es.new_entity().unwrap();
    assert_eq!(a.id(), 0);
    assert_eq!(b.id(), 1);
    assert_eq!(c.id(), 2);
    es.remove_entity(b).unwrap();
    let d = es.new_entity().unwrap();
    assert_eq!(d.id(), 3);
}

#[test]
fn name_lookup_finds_the_entity() {
    let mut es = EntitySystem::new();
    let _tile = es.new_entity_with_name("Tile".to_string()).unwrap();
    let player = es.new_entity_with_name("Player".to_string()).unwrap();
    let found = es.get_entity_for_name("Player".to_string()).unwrap();
    assert_eq!(found.id(), player.id());
    assert!(es.get_entity_for_name("Ghost".to_string()).is_err());
}

#[test]
fn reused_name_binds_the_newest_entity() {
    let mut es = EntitySystem::new();
    let _first = es.new_entity_with_name("Player".to_string()).unwrap();
    let second = es.new_entity_with_name("Player".to_string()).unwrap();
    let found = es.get_entity_for_name("Player".to_string()).unwrap();
    assert_eq!(found.id(), second.id());
}

#[test]
fn attach_then_detach_leaves_table_without_entity() {
    let mut es = EntitySystem::new();
    let e = es.new_entity().unwrap();
    es.add_component_to_entity(e, Component::Collidable(Collidable::new(16, 16)))
        .unwrap();
    let table = es
        .borrow_all_components_of_type(ComponentKind::Collidable)
        .unwrap();
    assert!(table.contains(e.id()));
    es.remove_component_from_entity(e, ComponentKind::Collidable)
        .unwrap();
    let table = es
        .borrow_all_components_of_type(ComponentKind::Collidable)
        .unwrap();
    assert!(!table.contains(e.id()));
    let second = es.remove_component_from_entity(e, ComponentKind::Collidable);
    assert!(second.is_err());
}

#[test]
fn borrow_of_a_never_created_table_reports_no_such_component() {
    let es = EntitySystem::new();
    match es.borrow_all_components_of_type(ComponentKind::Drawable) {
        Err(EntitySystemError::NoSuchComponent(ComponentKind::Drawable)) => {}
        _ => panic!("expected NoSuchComponent for a never-created table"),
    }
}

#[test]
fn attach_overwrites_existing_component() {
    let mut es = EntitySystem::new();
    let e = es.new_entity().unwrap();
    es.add_component_to_entity(e, Component::Position(Position::new(1, 2)))
        .unwrap();
    es.add_component_to_entity(e, Component::Position(Position::new(7, 8)))
        .unwrap();
    match es.component_for_entity(e, ComponentKind::Position).unwrap() {
        Component::Position(p) => {
            assert_eq!(p.x, 7);
            assert_eq!(p.y, 8);
        }
        _ => panic!("wrong component kind"),
    }
}

#[test]
fn component_write_back_requires_existing_component() {
    let mut es = EntitySystem::new();
    let e = es.new_entity().unwrap();
    let write = es.component_for_entity_mut(e, Component::Moveable(Moveable::new(0, 0)));
    assert!(write.is_err());
    es.add_component_to_entity(e, Component::Moveable(Moveable::new(0, 0)))
        .unwrap();
    es.component_for_entity_mut(e, Component::Moveable(Moveable::new(1000, 0)))
        .unwrap();
    match es.component_for_entity(e, ComponentKind::Moveable).unwrap() {
        Component::Moveable(m) => assert_eq!(m.dx, 1000),
        _ => panic!("wrong component kind"),
    }
}

#[test]
fn remove_entity_sweeps_components_from_all_tables() {
    let mut es = EntitySystem::new();
    let e = es.new_entity_with_name("Bomb".to_string()).unwrap();
    let other = es.new_entity().unwrap();
    es.add_component_to_entity(e, Component::Position(Position::new(0, 0)))
        .unwrap();
    es.add_component_to_entity(e, Component::Moveable(Moveable::new(0, 0)))
        .unwrap();
    es.add_component_to_entity(other, Component::Position(Position::new(5, 5)))
        .unwrap();
    es.remove_entity(e).unwrap();
    let positions = es
        .borrow_all_components_of_type(ComponentKind::Position)
        .unwrap();
    assert!(!positions.contains(e.id()));
    assert!(positions.contains(other.id()));
    let moveables = es
        .borrow_all_components_of_type(ComponentKind::Moveable)
        .unwrap();
    assert!(!moveables.contains(e.id()));
    assert!(es.get_entity_for_name("Bomb".to_string()).is_err());
    assert!(es.remove_entity(e).is_err());
}

#[test]
fn drawable_new_records_all_fields() {
    let d = Drawable::new(1, 2, 3, 4, 5);
    assert_eq!((d.x, d.y, d.w, d.h, d.layer), (1, 2, 3, 4, 5));
}

#[test]
fn game_error_wraps_store_and_system_errors() {
    let ge = GameError::from(EntitySystemError::NoSuchComponent(ComponentKind::Drawable));
    assert!(matches!(
        ge,
        GameError::EntitySystemError(EntitySystemError::NoSuchComponent(ComponentKind::Drawable))
    ));
    let ge = GameError::from(SystemsError::Moveable(7));
    assert!(matches!(ge, GameError::SystemsError(SystemsError::Moveable(7))));
}
