use gridsim::grid::{Direction, Location};
use gridsim::lock_demo::{evens, odds, test_data};
use gridsim::multithreading::{slice, slice_bounds};
use gridsim::rng_buffer::{RngBuffer, BUFFER_SIZE};
use gridsim::world::World;

const ALL: [Direction; 8] = [
    Direction::North,
    Direction::Northeast,
    Direction::East,
    Direction::Southeast,
    Direction::South,
    Direction::Southwest,
    Direction::West,
    Direction::Northwest,
];

#[test]
fn direction_offsets() {
    let expected: [(isize, isize); 8] = [(0, -1), (1, -1), (1, 0), (1, 1), (0, 1), (-1, 1), (-1, 0), (-1, -1)];
    for (d, (dx, dy)) in ALL.iter().zip(expected.iter()) {
        assert_eq!(d.x(), *dx);
        assert_eq!(d.y(), *dy);
    }
}

#[test]
fn direction_from_roll_splits_range_in_eighths() {
    assert_eq!(Direction::from_roll(0), Direction::North);
    assert_eq!(Direction::from_roll(0x1fff_ffff), Direction::North);
    assert_eq!(Direction::from_roll(0x2000_0000), Direction::Northeast);
    assert_eq!(Direction::from_roll(0x4000_0000), Direction::East);
    assert_eq!(Direction::from_roll(0x8000_0000), Direction::South);
    assert_eq!(Direction::from_roll(0xdfff_ffff), Direction::West);
    assert_eq!(Direction::from_roll(0xffff_ffff), Direction::Northwest);
}

#[test]
fn direction_random_reads_next_sample() {
    let mut values = vec![0u32; BUFFER_SIZE];
    values[1] = 0x6000_0000;
    values[2] = 0xe000_0000;
    let mut rng = RngBuffer::with_values(values);
    assert_eq!(Direction::random(&mut rng), Direction::Southeast);
    assert_eq!(Direction::random(&mut rng), Direction::Northwest);
    assert_eq!(Direction::random(&mut rng), Direction::North);
}

#[test]
fn location_at_reduces_coordinates() {
    let world = World::new(10, 4);
    let l = Location::at(23, 9, &world);
    assert_eq!((l.x(), l.y(), l.index()), (3, 1, 13));
    let l = Location::at(9, 3, &world);
    assert_eq!((l.x(), l.y(), l.index()), (9, 3, 39));
}

#[test]
fn location_zero_is_origin() {
    let l = Location::zero();
    assert_eq!((l.x(), l.y(), l.index()), (0, 0, 0));
}

#[test]
fn add_wraps_around_every_edge() {
    let world = World::new(10, 4);
    let corner = Location::at(0, 0, &world);
    let l = world.add(&corner, &Direction::Northwest);
    assert_eq!((l.x(), l.y(), l.index()), (9, 3, 39));
    let far = Location::at(9, 3, &world);
    let l = world.add(&far, &Direction::Southeast);
    assert_eq!((l.x(), l.y(), l.index()), (0, 0, 0));
    let mid = Location::at(4, 2, &world);
    let l = world.add(&mid, &Direction::North);
    assert_eq!((l.x(), l.y(), l.index()), (4, 1, 14));
}

#[test]
fn add_east_from_last_column_wraps_to_first() {
    for (w, h, y) in [(10usize, 4usize, 2usize), (1, 1, 0), (7, 3, 0), (1800, 900, 899)] {
        let world = World::new(w, h);
        let l = world.add(&Location::at(w - 1, y, &world), &Direction::East);
        assert_eq!((l.x(), l.y()), (0, y));
    }
}

#[test]
fn slice_bounds_partition_evenly() {
    let bounds: Vec<(usize, usize)> = (0..10).map(|i| slice_bounds(25, 10, i)).collect();
    assert_eq!(bounds[0], (0, 2));
    assert_eq!(bounds[1], (2, 5));
    assert_eq!(bounds[9], (22, 25));
    for i in 1..10 {
        assert_eq!(bounds[i - 1].1, bounds[i].0);
    }
    assert_eq!(slice_bounds(0, 10, 3), (0, 0));
    assert_eq!(slice_bounds(3, 10, 9), (2, 3));
}

#[test]
fn slice_covers_vector_in_order() {
    let v: Vec<u32> = (0..7).collect();
    let parts = slice(&v, 3);
    assert_eq!(parts.len(), 3);
    assert_eq!(parts[0], &[0, 1]);
    assert_eq!(parts[1], &[2, 3]);
    assert_eq!(parts[2], &[4, 5, 6]);
    let empty: Vec<u32> = Vec::new();
    assert!(slice(&empty, 4).iter().all(|p| p.is_empty()));
}

#[test]
fn demo_index_patterns() {
    assert_eq!(evens(0), Vec::<usize>::new());
    assert_eq!(evens(7), vec![0, 2, 4, 6]);
    assert_eq!(evens(8), vec![0, 2, 4, 6]);
    assert_eq!(odds(1), Vec::<usize>::new());
    assert_eq!(odds(7), vec![1, 3, 5]);
    assert_eq!(odds(8), vec![1, 3, 5, 7]);
    let data = test_data(3);
    assert_eq!(data.len(), 3);
    assert!(data.iter().all(|d| d.0 == 0));
}
