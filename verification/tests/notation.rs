use chess_engine::notation::{convert_notation_to_coords, read_square};
use chess_engine::piece::CoordinateSet;

#[test]
fn reads_a_letter_and_a_digit() {
    assert_eq!(convert_notation_to_coords(String::from("e2")), Ok(CoordinateSet::new(4, 2)));
    assert_eq!(convert_notation_to_coords(String::from("a0")), Ok(CoordinateSet::new(0, 0)));
    assert_eq!(convert_notation_to_coords(String::from("h7")), Ok(CoordinateSet::new(7, 7)));
}

#[test]
fn leaves_out_the_white_space_around_the_name() {
    assert_eq!(convert_notation_to_coords(String::from("  e2\n")), Ok(CoordinateSet::new(4, 2)));
    assert_eq!(convert_notation_to_coords(String::from("\tb5 \r\n")), Ok(CoordinateSet::new(1, 5)));
}

#[test]
fn does_not_read_behind_the_second_character() {
    assert_eq!(convert_notation_to_coords(String::from("c3xyz")), Ok(CoordinateSet::new(2, 3)));
}

#[test]
fn a_digit_above_the_board_is_read_as_it_stands() {
    assert_eq!(convert_notation_to_coords(String::from("a9")), Ok(CoordinateSet::new(0, 9)));
    assert!(CoordinateSet::new(0, 9).out_of_bounds());
}

#[test]
fn nothing_to_read() {
    assert_eq!(convert_notation_to_coords(String::new()), Err(String::from("No Input")));
    assert_eq!(convert_notation_to_coords(String::from(" \n")), Err(String::from("No Input")));
}

#[test]
fn a_file_that_is_none() {
    assert_eq!(
        convert_notation_to_coords(String::from("i2")),
        Err(String::from("Invalid X Position"))
    );
    assert_eq!(
        convert_notation_to_coords(String::from("E2")),
        Err(String::from("Invalid X Position"))
    );
    assert_eq!(
        convert_notation_to_coords(String::from("42")),
        Err(String::from("Invalid X Position"))
    );
}

#[test]
fn a_rank_that_is_none() {
    assert_eq!(
        convert_notation_to_coords(String::from("e")),
        Err(String::from("Invalid Y Position"))
    );
    assert_eq!(
        convert_notation_to_coords(String::from("ee")),
        Err(String::from("Invalid Y Position"))
    );
    assert_eq!(
        convert_notation_to_coords(String::from("e 2")),
        Err(String::from("Invalid Y Position"))
    );
}

#[test]
fn read_square_does_not_trim() {
    assert_eq!(read_square("g6"), Ok(CoordinateSet::new(6, 6)));
    assert_eq!(read_square(" g6"), Err(String::from("Invalid X Position")));
    assert_eq!(read_square(""), Err(String::from("No Input")));
}
