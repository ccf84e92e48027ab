use gridsim::entity::Entity;
use gridsim::graphics_window::{Color, PixelBuffer};
use gridsim::grid::{Direction, Location};
use gridsim::rng_buffer::{RngBuffer, BUFFER_SIZE};
use gridsim::world::World;
use gridsim::world_processor::{Conflict, WorldProcessor};

const MOVE_ROLL: u32 = 0x8000_0000;
const WAIT_ROLL: u32 = 0xffff_ffff;
const TURN_ROLL: u32 = 0;

fn rng_with(prefix: &[u32]) -> RngBuffer {
    let mut values = vec![MOVE_ROLL; BUFFER_SIZE];
    for (i, v) in prefix.iter().enumerate() {
        values[i + 1] = *v;
    }
    RngBuffer::with_values(values)
}

fn world_with(w: usize, h: usize, placed: &[(usize, usize, Direction)]) -> World {
    let mut world = World::new(w, h);
    for (x, y, facing) in placed {
        let e = Entity { location: Location::at(*x, *y, &world), facing: *facing };
        world.place_entity(e).unwrap();
    }
    world
}

fn positions(p: &WorldProcessor) -> Vec<(usize, usize, Direction)> {
    p.world().iter_entities().iter().map(|e| (e.location.x(), e.location.y(), e.facing)).collect()
}

fn assert_scratch_empty(p: &WorldProcessor) {
    let world = p.world();
    for y in 0..world.height() {
        for x in 0..world.width() {
            let l = Location::at(x, y, world);
            assert_eq!(p.action_at(&l), None);
            assert_eq!(p.conflict_at(&l), Conflict::none());
            assert_eq!(p.outcome_at(&l), None);
        }
    }
}

fn assert_consistent(p: &WorldProcessor) {
    let world = p.world();
    let mut occupied = 0;
    for y in 0..world.height() {
        for x in 0..world.width() {
            let l = Location::at(x, y, world);
            if let Some(id) = world.entity_id_at(&l) {
                occupied += 1;
                let e = world.iter_entities()[id];
                assert_eq!((e.location.x(), e.location.y()), (x, y));
            }
        }
    }
    assert_eq!(occupied, world.num_entities());
}

#[test]
fn symmetric_contention_blocks_both() {
    let world = world_with(20, 20, &[(5, 5, Direction::East), (7, 5, Direction::West)]);
    let mut p = WorldProcessor::init(world);
    let mut rng = rng_with(&[]);
    p.step(&mut rng);
    assert_eq!(positions(&p), vec![(5, 5, Direction::East), (7, 5, Direction::West)]);
    assert_scratch_empty(&p);
}

#[test]
fn lone_mover_moves() {
    let world = world_with(20, 20, &[(5, 5, Direction::East), (3, 3, Direction::North)]);
    let mut p = WorldProcessor::init(world);
    let mut rng = rng_with(&[]);
    p.step(&mut rng);
    assert_eq!(positions(&p), vec![(6, 5, Direction::East), (3, 2, Direction::North)]);
    p.step(&mut rng);
    assert_eq!(positions(&p), vec![(7, 5, Direction::East), (3, 1, Direction::North)]);
}

#[test]
fn move_east_wraps_around() {
    let world = world_with(10, 4, &[(9, 2, Direction::East)]);
    let mut p = WorldProcessor::init(world);
    let mut rng = rng_with(&[]);
    p.step(&mut rng);
    assert_eq!(positions(&p), vec![(0, 2, Direction::East)]);
}

#[test]
fn turn_is_never_blocked() {
    let world = world_with(
        20,
        20,
        &[(5, 5, Direction::East), (9, 9, Direction::East), (11, 9, Direction::West)],
    );
    let mut p = WorldProcessor::init(world);
    let mut rng = rng_with(&[TURN_ROLL, 0x8000_0000]);
    p.step(&mut rng);
    assert_eq!(
        positions(&p),
        vec![(5, 5, Direction::South), (9, 9, Direction::East), (11, 9, Direction::West)]
    );
}

#[test]
fn turn_towards_contested_cell_still_turns() {
    let world = world_with(20, 20, &[(6, 4, Direction::North), (5, 5, Direction::East), (7, 5, Direction::West)]);
    let mut p = WorldProcessor::init(world);
    let mut rng = rng_with(&[TURN_ROLL, 0x8000_0000]);
    p.step(&mut rng);
    assert_eq!(
        positions(&p),
        vec![(6, 4, Direction::South), (5, 5, Direction::East), (7, 5, Direction::West)]
    );
}

#[test]
fn occupied_target_blocks_even_when_resident_leaves() {
    let world = world_with(20, 20, &[(1, 1, Direction::East), (2, 1, Direction::East)]);
    let mut p = WorldProcessor::init(world);
    let mut rng = rng_with(&[]);
    p.step(&mut rng);
    assert_eq!(positions(&p), vec![(1, 1, Direction::East), (3, 1, Direction::East)]);
}

#[test]
fn waiting_resident_blocks() {
    let world = world_with(20, 20, &[(1, 1, Direction::East), (2, 1, Direction::North)]);
    let mut p = WorldProcessor::init(world);
    let mut rng = rng_with(&[MOVE_ROLL, WAIT_ROLL]);
    p.step(&mut rng);
    assert_eq!(positions(&p), vec![(1, 1, Direction::East), (2, 1, Direction::North)]);
}

#[test]
fn three_way_contention_blocks_all() {
    let world = world_with(
        20,
        20,
        &[(5, 4, Direction::South), (4, 5, Direction::East), (6, 6, Direction::Northwest), (0, 0, Direction::South)],
    );
    let mut p = WorldProcessor::init(world);
    let mut rng = rng_with(&[]);
    p.step(&mut rng);
    assert_eq!(
        positions(&p),
        vec![
            (5, 4, Direction::South),
            (4, 5, Direction::East),
            (6, 6, Direction::Northwest),
            (0, 1, Direction::South),
        ]
    );
    assert_scratch_empty(&p);
}

#[test]
fn self_target_on_narrow_grid_stays() {
    let world = world_with(1, 2, &[(0, 0, Direction::East)]);
    let mut p = WorldProcessor::init(world);
    let mut rng = rng_with(&[]);
    p.step(&mut rng);
    assert_eq!(positions(&p), vec![(0, 0, Direction::East)]);
    assert_scratch_empty(&p);
}

#[test]
fn ticks_conserve_entities_and_occupancy() {
    let mut world = World::new(12, 9);
    let mut rng = RngBuffer::with_values((0..BUFFER_SIZE as u32).map(|i| i.wrapping_mul(2_654_435_761)).collect());
    let mut placed = 0;
    while placed < 40 {
        if world.place_random_entity(&mut rng).is_ok() {
            placed += 1;
        }
    }
    let mut p = WorldProcessor::init(world);
    for _ in 0..50 {
        p.step(&mut rng);
        assert_eq!(p.world().num_entities(), 40);
        assert_consistent(&p);
        assert_scratch_empty(&p);
    }
}

#[test]
fn scratch_is_empty_after_step() {
    let world = world_with(8, 8, &[(0, 0, Direction::Southeast), (2, 2, Direction::Northwest), (7, 7, Direction::Southeast)]);
    let mut p = WorldProcessor::init(world);
    assert_scratch_empty(&p);
    let mut rng = rng_with(&[]);
    p.step(&mut rng);
    assert_scratch_empty(&p);
    assert_eq!(
        positions(&p),
        vec![(0, 0, Direction::Southeast), (2, 2, Direction::Northwest), (7, 7, Direction::Southeast)]
    );
}

#[test]
fn conflict_flags_count_directions() {
    let mut c = Conflict::none();
    assert!(!c.is_conflicted());
    c.add_from(&Direction::North);
    c.add_from(&Direction::North);
    assert!(!c.is_conflicted());
    c.add_from(&Direction::West);
    assert!(c.is_conflicted());
    c.clear();
    assert_eq!(c, Conflict::none());
}

#[test]
fn draw_paints_entities_white() {
    let world = world_with(4, 3, &[(1, 0, Direction::North), (3, 2, Direction::South)]);
    let p = WorldProcessor::init(world);
    let mut buffer = PixelBuffer::new(4, 3);
    buffer.clear(Color::new(9, 9, 9));
    p.draw(&mut buffer);
    let mut expected = vec![0u32; 12];
    expected[1] = 0x00ff_ffff;
    expected[11] = 0x00ff_ffff;
    assert_eq!(buffer.pixels(), expected.as_slice());
}
