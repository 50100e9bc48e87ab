use bytetape::{Cells, Error};

#[test]
fn new_tape_is_one_zero_cell() {
    let cells = Cells::new();
    assert_eq!(cells.tape(), &vec![0u8]);
    assert_eq!(cells.index(), 0);
    assert_eq!(cells.value(), 0);
    assert!(cells.is_empty());
}

#[test]
fn increment_adds_one() {
    let mut cells = Cells::new();
    cells.increment_value();
    assert_eq!(cells.value(), 1);
    assert_eq!(cells.tape(), &vec![1u8]);
    assert!(!cells.is_empty());
    cells.increment_value();
    assert_eq!(cells.value(), 2);
}

#[test]
fn decrement_subtracts_one() {
    let mut cells = Cells::new();
    cells.increment_value();
    cells.increment_value();
    cells.increment_value();
    cells.decrement_value();
    assert_eq!(cells.value(), 2);
    assert_eq!(cells.tape(), &vec![2u8]);
}

#[test]
fn increment_wraps_from_255_to_0() {
    let mut cells = Cells::new();
    for expected in 1..=255u8 {
        cells.increment_value();
        assert_eq!(cells.value(), expected);
    }
    cells.increment_value();
    assert_eq!(cells.value(), 0);
    assert!(cells.is_empty());
    assert_eq!(cells.tape(), &vec![0u8]);
}

#[test]
fn decrement_wraps_from_0_to_255() {
    let mut cells = Cells::new();
    cells.decrement_value();
    assert_eq!(cells.value(), 255);
    assert!(!cells.is_empty());
    assert_eq!(cells.tape(), &vec![255u8]);
    cells.decrement_value();
    assert_eq!(cells.value(), 254);
}

#[test]
fn advancing_past_the_end_appends_one_zero_cell() {
    let mut cells = Cells::new();
    cells.increment_value();
    cells.increment_index();
    assert_eq!(cells.index(), 1);
    assert_eq!(cells.tape(), &vec![1u8, 0]);
    assert_eq!(cells.value(), 0);
    assert!(cells.is_empty());
    cells.increment_index();
    assert_eq!(cells.index(), 2);
    assert_eq!(cells.tape(), &vec![1u8, 0, 0]);
}

#[test]
fn advancing_within_the_tape_appends_nothing() {
    let mut cells = Cells::new();
    cells.increment_index();
    cells.increment_value();
    cells.increment_index();
    assert_eq!(cells.decrement_index(), Ok(()));
    assert_eq!(cells.decrement_index(), Ok(()));
    assert_eq!(cells.tape(), &vec![0u8, 1, 0]);
    cells.increment_index();
    assert_eq!(cells.index(), 1);
    assert_eq!(cells.value(), 1);
    assert_eq!(cells.tape(), &vec![0u8, 1, 0]);
}

#[test]
fn retreating_keeps_the_cells() {
    let mut cells = Cells::new();
    cells.increment_value();
    cells.increment_index();
    cells.decrement_value();
    assert_eq!(cells.decrement_index(), Ok(()));
    assert_eq!(cells.index(), 0);
    assert_eq!(cells.value(), 1);
    assert_eq!(cells.tape(), &vec![1u8, 255]);
}

#[test]
fn retreating_from_the_first_cell_fails() {
    let mut cells = Cells::new();
    cells.increment_value();
    assert_eq!(cells.decrement_index(), Err(Error::TapeUnderflow));
    assert_eq!(cells.index(), 0);
    assert_eq!(cells.value(), 1);
    assert_eq!(cells.tape(), &vec![1u8]);
    assert_eq!(cells.decrement_index(), Err(Error::TapeUnderflow));
    assert_eq!(cells.index(), 0);
}

#[test]
fn retreating_fails_again_after_coming_back_to_the_first_cell() {
    let mut cells = Cells::new();
    cells.increment_index();
    assert_eq!(cells.decrement_index(), Ok(()));
    assert_eq!(cells.decrement_index(), Err(Error::TapeUnderflow));
    assert_eq!(cells.tape(), &vec![0u8, 0]);
}

#[test]
fn tape_never_shrinks() {
    let mut cells = Cells::new();
    let mut longest = cells.tape().len();
    for round in 0..50usize {
        if round % 3 == 2 {
            let _ = cells.decrement_index();
        } else {
            cells.increment_index();
        }
        cells.increment_value();
        cells.read();
        cells.decrement_value();
        assert!(cells.tape().len() >= longest);
        longest = cells.tape().len();
    }
    assert_eq!(longest, 19);
}

#[test]
fn read_stores_zero() {
    let mut cells = Cells::new();
    cells.increment_index();
    cells.increment_value();
    cells.increment_value();
    cells.read();
    assert_eq!(cells.value(), 0);
    assert!(cells.is_empty());
    assert_eq!(cells.tape(), &vec![0u8, 0]);
    assert_eq!(cells.index(), 1);
}

#[test]
fn output_is_the_character_with_the_cells_code_point() {
    let mut cells = Cells::new();
    assert_eq!(cells.output(), '\0');
    cells.increment_value();
    cells.increment_value();
    assert_eq!(cells.output(), '\u{2}');
    for _ in 0..63 {
        cells.increment_value();
    }
    assert_eq!(cells.output(), 'A');
}

#[test]
fn output_of_a_high_byte_is_a_character_too() {
    let mut cells = Cells::new();
    cells.decrement_value();
    assert_eq!(cells.output(), '\u{ff}');
    for _ in 0..127 {
        cells.decrement_value();
    }
    assert_eq!(cells.value(), 128);
    assert_eq!(cells.output(), '\u{80}');
    assert_eq!(cells.output() as u32, 128);
}

#[test]
fn update_value_leaves_the_tape_as_it_is() {
    let mut cells = Cells::new();
    cells.increment_index();
    cells.increment_value();
    cells.update_value();
    assert_eq!(cells.value(), 1);
    assert_eq!(cells.index(), 1);
    assert_eq!(cells.tape(), &vec![0u8, 1]);
    assert!(!cells.is_empty());
}
