use gridsim::action::{Action, Outcome};
use gridsim::entity::Entity;
use gridsim::grid::{Direction, Location};
use gridsim::rng_buffer::{RngBuffer, BUFFER_SIZE};
use gridsim::world::{scale_sample, MoveError, OccupiedError, World};

fn entity(world: &World, x: usize, y: usize, facing: Direction) -> Entity {
    Entity { location: Location::at(x, y, world), facing }
}

fn position(e: &Entity) -> (usize, usize) {
    (e.location.x(), e.location.y())
}

#[test]
fn new_world_is_empty() {
    let world = World::new(6, 3);
    assert_eq!((world.width(), world.height()), (6, 3));
    assert_eq!(world.num_entities(), 0);
    assert!(world.iter_entities().is_empty());
    for y in 0..3 {
        for x in 0..6 {
            assert!(world.get_entity(&Location::at(x, y, &world)).is_none());
        }
    }
}

#[test]
fn place_then_get() {
    let mut world = World::new(6, 3);
    let e = entity(&world, 4, 2, Direction::South);
    assert_eq!(world.place_entity(e), Ok(()));
    let found = world.get_entity(&Location::at(4, 2, &world)).unwrap();
    assert_eq!(position(found), (4, 2));
    assert_eq!(found.facing, Direction::South);
    assert_eq!(world.entity_id_at(&Location::at(4, 2, &world)), Some(0));
    assert_eq!(world.entity_id_at(&Location::at(3, 2, &world)), None);
    assert_eq!(world.num_entities(), 1);
}

#[test]
fn placement_on_occupied_cell_is_rejected() {
    let mut world = World::new(6, 3);
    assert_eq!(world.place_entity(entity(&world, 1, 1, Direction::North)), Ok(()));
    assert_eq!(world.place_entity(entity(&world, 1, 1, Direction::West)), Err(OccupiedError));
    assert_eq!(world.num_entities(), 1);
    let kept = world.get_entity(&Location::at(1, 1, &world)).unwrap();
    assert_eq!(kept.facing, Direction::North);
    assert_eq!(world.entity_id_at(&Location::at(1, 1, &world)), Some(0));
    assert_eq!(world.place_entity(entity(&world, 2, 1, Direction::West)), Ok(()));
    assert_eq!(world.entity_id_at(&Location::at(2, 1, &world)), Some(1));
}

#[test]
fn move_entity_relocates() {
    let mut world = World::new(6, 3);
    world.place_entity(entity(&world, 0, 0, Direction::East)).unwrap();
    assert_eq!(world.move_entity(&Location::at(0, 0, &world), &Direction::Northwest), Ok(()));
    assert!(world.get_entity(&Location::at(0, 0, &world)).is_none());
    let moved = world.get_entity(&Location::at(5, 2, &world)).unwrap();
    assert_eq!(position(moved), (5, 2));
    assert_eq!(moved.facing, Direction::East);
    assert_eq!(position(&world.iter_entities()[0]), (5, 2));
}

#[test]
fn move_entity_errors_leave_world_unchanged() {
    let mut world = World::new(6, 3);
    world.place_entity(entity(&world, 2, 1, Direction::East)).unwrap();
    world.place_entity(entity(&world, 3, 1, Direction::East)).unwrap();
    assert_eq!(
        world.move_entity(&Location::at(0, 0, &world), &Direction::East),
        Err(MoveError::NoEntity)
    );
    assert_eq!(
        world.move_entity(&Location::at(2, 1, &world), &Direction::East),
        Err(MoveError::Occupied)
    );
    assert_eq!(world.entity_id_at(&Location::at(2, 1, &world)), Some(0));
    assert_eq!(world.entity_id_at(&Location::at(3, 1, &world)), Some(1));
    assert_eq!(position(&world.iter_entities()[0]), (2, 1));
}

#[test]
fn move_onto_own_cell_on_narrow_grid() {
    let mut world = World::new(1, 3);
    world.place_entity(entity(&world, 0, 1, Direction::East)).unwrap();
    assert_eq!(world.move_entity(&Location::at(0, 1, &world), &Direction::East), Ok(()));
    assert_eq!(world.entity_id_at(&Location::at(0, 1, &world)), Some(0));
}

#[test]
fn set_facing_turns_in_place() {
    let mut world = World::new(6, 3);
    world.place_entity(entity(&world, 2, 2, Direction::East)).unwrap();
    assert_eq!(world.set_facing(&Location::at(2, 2, &world), Direction::West), Ok(()));
    let e = world.get_entity(&Location::at(2, 2, &world)).unwrap();
    assert_eq!((position(e), e.facing), ((2, 2), Direction::West));
    assert_eq!(world.set_facing(&Location::at(1, 2, &world), Direction::West), Err(MoveError::NoEntity));
}

#[test]
fn entity_slices_cover_entities() {
    let mut world = World::new(6, 3);
    for x in 0..5 {
        world.place_entity(entity(&world, x, 0, Direction::East)).unwrap();
    }
    let parts = world.entity_slices(2);
    assert_eq!(parts.len(), 2);
    assert_eq!(parts[0].len(), 2);
    assert_eq!(parts[1].len(), 3);
    assert_eq!(position(&parts[1][0]), (2, 0));
}

#[test]
fn scale_sample_maps_to_range() {
    assert_eq!(scale_sample(0, 1800), 0);
    assert_eq!(scale_sample(0x8000_0000, 1800), 900);
    assert_eq!(scale_sample(0xffff_ffff, 1800), 1799);
    assert_eq!(scale_sample(0xffff_ffff, 1), 0);
}

#[test]
fn place_random_entity_uses_three_samples() {
    let mut values = vec![0u32; BUFFER_SIZE];
    values[2] = 0x8000_0000;
    values[3] = 0x4000_0000;
    let mut rng = RngBuffer::with_values(values);
    let mut world = World::new(10, 4);
    assert_eq!(world.place_random_entity(&mut rng), Ok(()));
    let e = world.iter_entities()[0];
    assert_eq!(e.location.y(), 2);
    assert_eq!(e.facing, Direction::East);
    assert!(e.location.x() < 10);
    assert_eq!(rng.next(), 0);
}

#[test]
fn place_random_entity_rejects_taken_cell() {
    let mut world = World::new(1, 1);
    let mut rng = RngBuffer::with_values(vec![7u32; BUFFER_SIZE]);
    assert_eq!(world.place_random_entity(&mut rng), Ok(()));
    assert_eq!(world.place_random_entity(&mut rng), Err(OccupiedError));
    assert_eq!(world.num_entities(), 1);
}

#[test]
fn determine_action_bands() {
    let world = World::new(4, 4);
    let e = entity(&world, 1, 1, Direction::Southwest);
    let cases: [(u32, Action); 6] = [
        (0, Action::Turn(Direction::East)),
        (214_748_364, Action::Turn(Direction::East)),
        (214_748_365, Action::Move(Direction::Southwest)),
        (0x8000_0000, Action::Move(Direction::Southwest)),
        (4_080_218_931, Action::Move(Direction::Southwest)),
        (4_080_218_932, Action::Wait),
    ];
    for (roll, expected) in cases {
        let mut values = vec![0x4000_0000u32; BUFFER_SIZE];
        values[1] = roll;
        let mut rng = RngBuffer::with_values(values);
        assert_eq!(e.determine_action(&world, &mut rng), expected);
    }
    let mut values = vec![0xffff_ffffu32; BUFFER_SIZE];
    values[1] = 0;
    values[2] = 0x2000_0000;
    let mut rng = RngBuffer::with_values(values);
    assert_eq!(e.determine_action(&world, &mut rng), Action::Turn(Direction::Northeast));
    assert_eq!(e.determine_action(&world, &mut rng), Action::Wait);
}

#[test]
fn entity_new_draws_facing() {
    let world = World::new(4, 4);
    let mut values = vec![0u32; BUFFER_SIZE];
    values[1] = 0xc000_0000;
    let mut rng = RngBuffer::with_values(values);
    let e = Entity::new(9, 6, &world, &mut rng);
    assert_eq!(position(&e), (1, 2));
    assert_eq!(e.facing, Direction::West);
    assert_eq!(e.pixel_color().value(), 0x00ff_ffff);
}

#[test]
fn conflicting_directions_of_actions() {
    assert_eq!(Action::Wait.conflicting_directions(), None);
    assert_eq!(Action::Turn(Direction::South).conflicting_directions(), None);
    assert_eq!(Action::Move(Direction::South).conflicting_directions(), Some(vec![Direction::South]));
}

#[test]
fn resolve_by_occupancy() {
    let mut world = World::new(6, 3);
    let a = entity(&world, 1, 1, Direction::East);
    world.place_entity(a).unwrap();
    world.place_entity(entity(&world, 2, 1, Direction::East)).unwrap();
    assert_eq!(Action::Wait.resolve(&a, &world), Outcome::Wait);
    assert_eq!(Action::Turn(Direction::North).resolve(&a, &world), Outcome::Turn(Direction::North));
    assert_eq!(Action::Move(Direction::East).resolve(&a, &world), Outcome::Blocked);
    assert_eq!(Action::Move(Direction::West).resolve(&a, &world), Outcome::Move(Direction::West));
}
