use reversi::{parse_position, MalformedPosition, Position};

fn at(row: usize, col: usize) -> Result<Position, MalformedPosition> {
    Ok(Position { row, col })
}

#[test]
fn two_numbers_and_a_comma() {
    assert_eq!(parse_position("3,5"), at(3, 5));
    assert_eq!(parse_position("1,2"), at(1, 2));
    assert_eq!(parse_position("0,0"), at(0, 0));
    assert_eq!(parse_position("12,345"), at(12, 345));
}

#[test]
fn row_comes_first() {
    assert_eq!(parse_position("7,2"), at(7, 2));
    assert_ne!(parse_position("7,2"), at(2, 7));
}

#[test]
fn leading_zeros_and_plus_signs() {
    assert_eq!(parse_position("003,05"), at(3, 5));
    assert_eq!(parse_position("+3,+5"), at(3, 5));
    assert_eq!(parse_position("+0,000"), at(0, 0));
}

#[test]
fn no_comma_is_malformed() {
    assert_eq!(parse_position(""), Err(MalformedPosition));
    assert_eq!(parse_position("3"), Err(MalformedPosition));
    assert_eq!(parse_position("35"), Err(MalformedPosition));
    assert_eq!(parse_position("3 5"), Err(MalformedPosition));
}

#[test]
fn more_than_one_comma_is_malformed() {
    assert_eq!(parse_position("1,2,3"), Err(MalformedPosition));
    assert_eq!(parse_position("1,2,"), Err(MalformedPosition));
    assert_eq!(parse_position(",1,2"), Err(MalformedPosition));
    assert_eq!(parse_position(",,"), Err(MalformedPosition));
}

#[test]
fn a_missing_number_is_malformed() {
    assert_eq!(parse_position(","), Err(MalformedPosition));
    assert_eq!(parse_position("3,"), Err(MalformedPosition));
    assert_eq!(parse_position(",5"), Err(MalformedPosition));
    assert_eq!(parse_position("+,5"), Err(MalformedPosition));
    assert_eq!(parse_position("3,+"), Err(MalformedPosition));
}

#[test]
fn anything_but_digits_is_malformed() {
    assert_eq!(parse_position("a,b"), Err(MalformedPosition));
    assert_eq!(parse_position("3,5x"), Err(MalformedPosition));
    assert_eq!(parse_position("-3,5"), Err(MalformedPosition));
    assert_eq!(parse_position("3,-5"), Err(MalformedPosition));
    assert_eq!(parse_position("3.0,5"), Err(MalformedPosition));
    assert_eq!(parse_position("++3,5"), Err(MalformedPosition));
    assert_eq!(parse_position("3+,5"), Err(MalformedPosition));
    assert_eq!(parse_position("\u{ff13},5"), Err(MalformedPosition));
    assert_eq!(parse_position("3,\u{0663}"), Err(MalformedPosition));
}

#[test]
fn white_space_is_malformed() {
    assert_eq!(parse_position(" 3,5"), Err(MalformedPosition));
    assert_eq!(parse_position("3, 5"), Err(MalformedPosition));
    assert_eq!(parse_position("3 ,5"), Err(MalformedPosition));
    assert_eq!(parse_position("3,5 "), Err(MalformedPosition));
    assert_eq!(parse_position("3,5\n"), Err(MalformedPosition));
}

#[test]
fn the_largest_number_is_read() {
    let text = format!("{},{}", usize::MAX, usize::MAX);
    assert_eq!(parse_position(&text), at(usize::MAX, usize::MAX));
    let padded = format!("000{},+{}", usize::MAX, usize::MAX - 1);
    assert_eq!(parse_position(&padded), at(usize::MAX, usize::MAX - 1));
}

#[test]
fn a_number_too_large_is_malformed() {
    let beyond = usize::MAX as u128 + 1;
    assert_eq!(parse_position(&format!("{},1", beyond)), Err(MalformedPosition));
    assert_eq!(parse_position(&format!("1,{}", beyond)), Err(MalformedPosition));
    assert_eq!(parse_position(&format!("{}0,1", usize::MAX)), Err(MalformedPosition));
    assert_eq!(parse_position(&format!("1,+{}0", usize::MAX)), Err(MalformedPosition));
    assert_eq!(
        parse_position("1,99999999999999999999999999999999999999999999"),
        Err(MalformedPosition)
    );
    assert_eq!(
        parse_position("99999999999999999999999999999999999999999999x,1"),
        Err(MalformedPosition)
    );
}

#[test]
fn what_is_written_is_read() {
    for (row, col) in [(0, 0), (3, 5), (10, 209), (usize::MAX, 1), (77, usize::MAX)] {
        let text = format!("{},{}", row, col);
        assert_eq!(parse_position(&text), at(row, col));
    }
}
