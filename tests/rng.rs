use gridsim::rng_buffer::{RngBuffer, BUFFER_SIZE};

fn counting() -> RngBuffer {
    RngBuffer::with_values((0..BUFFER_SIZE as u32).collect())
}

#[test]
fn next_advances_before_reading() {
    let mut rng = counting();
    assert_eq!(rng.next(), 1);
    assert_eq!(rng.next(), 2);
    assert_eq!(rng.next(), 3);
}

#[test]
fn cursor_wraps_at_buffer_end() {
    let mut rng = counting();
    for _ in 0..BUFFER_SIZE - 1 {
        rng.next();
    }
    assert_eq!(rng.next(), 0);
    assert_eq!(rng.next(), 1);
}

#[test]
fn generate_next_advances_and_keeps_value() {
    let mut rng = counting();
    let fresh = rng.generate_next();
    for _ in 0..BUFFER_SIZE - 1 {
        rng.next();
    }
    assert_eq!(rng.next(), fresh);
    assert_eq!(rng.next(), 2);
}

#[test]
fn init_fills_whole_buffer() {
    let mut rng = RngBuffer::init();
    for _ in 0..BUFFER_SIZE + 3 {
        rng.next();
    }
}
