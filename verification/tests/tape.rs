use brainfuck::tape::Tape;

#[test]
fn fresh_tape_reads_zero_everywhere() {
    let t = Tape::new();
    assert_eq!(t.get(0), 0);
    assert_eq!(t.get(-1), 0);
    assert_eq!(t.get(123456), 0);
    assert_eq!(t.get(isize::MIN), 0);
    assert_eq!(t.get(isize::MAX), 0);
}

#[test]
fn get_returns_last_write_over_dense_range() {
    // A fixed pseudo-random write sequence, checked against a dense
    // reference array addressed by 16-bit index wraparound.
    let mut tape = Tape::new();
    let mut reference = vec![0u8; 65536];

    let mut x: u32 = 0x2545_f491;
    let mut writes: Vec<(i16, u8)> = Vec::new();
    for _ in 0..2000 {
        x ^= x << 13;
        x ^= x >> 17;
        x ^= x << 5;
        let index = (x >> 8) as u16 as i16;
        let value = x as u8;
        writes.push((index, value));
    }

    for &(index, value) in &writes {
        tape.set(index as isize, value);
        reference[index as u16 as usize] = value;
    }

    for i in i16::MIN..=i16::MAX {
        assert_eq!(tape.get(i as isize), reference[i as u16 as usize]);
    }
}

#[test]
fn set_far_below_lowest_touched_index() {
    let mut tape = Tape::new();
    tape.set(5, 1);
    tape.set(-100000, 7);
    assert_eq!(tape.get(-100000), 7);
    assert_eq!(tape.get(5), 1);
    assert_eq!(tape.get(-99999), 0);
    assert_eq!(tape.get(0), 0);
}

#[test]
fn get_out_of_window_does_not_disturb_later_reads() {
    let mut tape = Tape::new();
    tape.set(0, 9);
    // reads far outside the represented window return zero and change nothing
    assert_eq!(tape.get(1_000_000), 0);
    assert_eq!(tape.get(-1_000_000), 0);
    assert_eq!(tape.get(0), 9);
    assert_eq!(tape.get(1_000_000), 0);
}

#[test]
fn head_movement_and_cell_arithmetic() {
    let mut tape = Tape::new();
    tape.increment();
    tape.increment();
    assert_eq!(tape.read(), 2);
    tape.move_right();
    assert_eq!(tape.read(), 0);
    tape.decrement();
    assert_eq!(tape.read(), 255);
    tape.increment();
    assert_eq!(tape.read(), 0);
    tape.move_left();
    assert_eq!(tape.read(), 2);
    tape.write(200);
    assert_eq!(tape.read(), 200);
    tape.move_left();
    assert_eq!(tape.read(), 0);
    tape.decrement();
    assert_eq!(tape.read(), 255);
    assert_eq!(tape.get(-1), 255);
    assert_eq!(tape.get(0), 200);
    assert_eq!(tape.get(1), 0);
}

#[test]
fn wraparound_increment_at_255() {
    let mut tape = Tape::new();
    tape.write(255);
    tape.increment();
    assert_eq!(tape.read(), 0);
}

#[test]
fn default_is_fresh() {
    let t = Tape::default();
    assert_eq!(t.get(0), 0);
    assert_eq!(t.get(-5), 0);
}
