use bf_compiler::tape::{add_cell, shift_amount, shift_left, shift_right, sub_cell, Tape, TAPE_SIZE};

#[test]
fn the_tape_has_65535_cells() {
    assert_eq!(TAPE_SIZE, 65535);
}

#[test]
fn cells_wrap_upwards() {
    assert_eq!(add_cell(0, 3), 3);
    assert_eq!(add_cell(255, 1), 0);
    assert_eq!(add_cell(200, 100), 44);
    assert_eq!(add_cell(7, 0), 7);
}

#[test]
fn cells_wrap_downwards() {
    assert_eq!(sub_cell(3, 3), 0);
    assert_eq!(sub_cell(0, 1), 255);
    assert_eq!(sub_cell(10, 20), 246);
}

#[test]
fn increments_wrap_at_256() {
    let mut cell = 0u8;
    for _ in 0..256 {
        cell = add_cell(cell, 1);
    }
    assert_eq!(cell, 0);
    let mut cell = 0u8;
    for _ in 0..255 {
        cell = add_cell(cell, 1);
    }
    assert_eq!(sub_cell(cell, 1), 254);
}

#[test]
fn a_folded_count_is_the_run() {
    for start in [0u8, 1, 100, 255] {
        for times in [0u32, 1, 255, 256, 257, 1000] {
            let mut by_one = start;
            let mut back = start;
            for _ in 0..times {
                by_one = add_cell(by_one, 1);
                back = sub_cell(back, 1);
            }
            assert_eq!(add_cell(start, (times % 256) as u8), by_one);
            assert_eq!(sub_cell(start, (times % 256) as u8), back);
        }
    }
}

#[test]
fn the_pointer_moves_right_around_the_ring() {
    assert_eq!(shift_right(0, 1), 1);
    assert_eq!(shift_right(65534, 1), 0);
    assert_eq!(shift_right(0, 65535), 0);
    assert_eq!(shift_right(0, 65536), 1);
    assert_eq!(shift_right(0, 65536), shift_right(0, 1));
    assert_eq!(shift_right(123, 65535), 123);
    assert_eq!(shift_right(123, 65536), shift_right(123, 1));
    assert_eq!(shift_right(0, 200000), 3395);
    assert_eq!(shift_right(65534, u64::MAX), 65534);
}

#[test]
fn the_pointer_moves_left_around_the_ring() {
    assert_eq!(shift_left(1, 1), 0);
    assert_eq!(shift_left(0, 1), 65534);
    assert_eq!(shift_left(0, 65535), 0);
    assert_eq!(shift_left(5, 65536), 4);
    assert_eq!(shift_left(0, 200000), 62140);
    assert_eq!(shift_left(0, u64::MAX), 0);
}

#[test]
fn single_shifts_add_up_to_the_folded_shift() {
    for start in [0u64, 1, 65534] {
        for times in [0u64, 1, 2, 65534, 65535, 65536] {
            let mut right = start;
            let mut left = start;
            for _ in 0..times {
                right = shift_right(right, 1);
                left = shift_left(left, 1);
            }
            assert_eq!(shift_right(start, times), right);
            assert_eq!(shift_left(start, times), left);
        }
    }
}

#[test]
fn shift_amounts_are_reduced_to_the_tape() {
    assert_eq!(shift_amount(0), 0);
    assert_eq!(shift_amount(1), 1);
    assert_eq!(shift_amount(65534), 65534);
    assert_eq!(shift_amount(65535), 0);
    assert_eq!(shift_amount(65536), 1);
    assert_eq!(shift_amount(200000), 3395);
    for offset in [0u64, 17, 65534] {
        for n in [0u64, 1, 65535, 65536, 200000, u64::MAX] {
            let amount = shift_amount(n);
            assert_eq!((offset + amount) % TAPE_SIZE, shift_right(offset, n));
            assert_eq!((offset + TAPE_SIZE - amount) % TAPE_SIZE, shift_left(offset, n));
        }
    }
}

#[test]
fn a_new_tape_is_blank() {
    let tape = Tape::new();
    assert_eq!(tape.pointer(), 0);
    assert_eq!(tape.current(), 0);
    assert_eq!(tape.cell(0), Some(0));
    assert_eq!(tape.cell(65534), Some(0));
    assert_eq!(tape.cell(65535), None);
}

#[test]
fn tape_edits_touch_the_current_cell_only() {
    let tape = Tape::new().add(5).right(2).store(9).sub(10).left(1).add(1);
    assert_eq!(tape.pointer(), 1);
    assert_eq!(tape.cell(0), Some(5));
    assert_eq!(tape.cell(1), Some(1));
    assert_eq!(tape.cell(2), Some(255));
    assert_eq!(tape.cell(3), Some(0));
    assert_eq!(tape.current(), 1);
}

#[test]
fn the_tape_pointer_wraps() {
    assert_eq!(Tape::new().left(1).pointer(), 65534);
    assert_eq!(Tape::new().right(65535).pointer(), 0);
    assert_eq!(Tape::new().right(65536).pointer(), 1);
    let tape = Tape::new().left(1).add(7).right(1);
    assert_eq!(tape.pointer(), 0);
    assert_eq!(tape.cell(65534), Some(7));
}
