use aligned_table::aligner::{Aligner, Phase, UsageError};

fn cells(fields: &[&str]) -> Vec<Vec<u8>> {
    fields.iter().map(|f| f.as_bytes().to_vec()).collect()
}

fn text(bytes: Vec<u8>) -> String {
    String::from_utf8(bytes).unwrap()
}

#[test]
fn new_aligner_is_buffering_and_empty() {
    let aligner = Aligner::new(3, 1);
    assert_eq!(aligner.phase(), Phase::Buffering);
    assert_eq!(aligner.min_width(), 3);
    assert_eq!(aligner.pad(), 1);
    assert_eq!(aligner.row_count(), 0);
    assert_eq!(aligner.column_count(), 0);
    assert_eq!(aligner.column_width(0), None);
}

#[test]
fn write_keeps_the_running_width_of_every_column() {
    let mut aligner = Aligner::new(2, 2);
    assert_eq!(aligner.write(cells(&["a", "bb"])), Ok(()));
    assert_eq!(aligner.row_count(), 1);
    assert_eq!(aligner.column_count(), 2);
    assert_eq!(aligner.column_width(0), Some(1));
    assert_eq!(aligner.column_width(1), Some(2));
    assert_eq!(aligner.column_width(2), None);

    assert_eq!(aligner.write(cells(&["ccc", "d", "eeee"])), Ok(()));
    assert_eq!(aligner.row_count(), 2);
    assert_eq!(aligner.column_count(), 3);
    assert_eq!(aligner.column_width(0), Some(3));
    assert_eq!(aligner.column_width(1), Some(2));
    assert_eq!(aligner.column_width(2), Some(4));

    // A shorter row adds no width where it has no field.
    assert_eq!(aligner.write(cells(&["x"])), Ok(()));
    assert_eq!(aligner.column_count(), 3);
    assert_eq!(aligner.column_width(0), Some(3));
    assert_eq!(aligner.column_width(1), Some(2));
    assert_eq!(aligner.column_width(2), Some(4));
    assert_eq!(aligner.phase(), Phase::Buffering);
}

#[test]
fn column_width_counts_code_points_not_bytes() {
    let mut aligner = Aligner::new(0, 0);
    assert_eq!(aligner.write(cells(&["日本語", "x"])), Ok(()));
    assert_eq!(aligner.write(vec![b"\xff\xfe\xfd\xfc".to_vec()]), Ok(()));
    assert_eq!(aligner.column_width(0), Some(4));
    assert_eq!(aligner.write(cells(&["ééééé"])), Ok(()));
    assert_eq!(aligner.column_width(0), Some(5));
}

#[test]
fn flush_emits_the_table_and_empties_the_aligner() {
    let mut aligner = Aligner::new(2, 2);
    assert_eq!(aligner.write(cells(&["a", "bb"])), Ok(()));
    assert_eq!(aligner.write(cells(&["ccc", "d"])), Ok(()));
    let out = aligner.flush().unwrap();
    assert_eq!(text(out), "a    bb\nccc  d\n");
    assert_eq!(aligner.phase(), Phase::Flushed);
    assert_eq!(aligner.row_count(), 0);
    assert_eq!(aligner.column_count(), 0);
    assert_eq!(aligner.min_width(), 2);
    assert_eq!(aligner.pad(), 2);
}

#[test]
fn second_flush_is_refused() {
    let mut aligner = Aligner::new(2, 2);
    assert_eq!(aligner.write(cells(&["a", "b"])), Ok(()));
    assert_eq!(aligner.flush(), Ok(b"a   b\n".to_vec()));
    assert_eq!(aligner.flush(), Err(UsageError::AlreadyFlushed));
    assert_eq!(aligner.flush(), Err(UsageError::AlreadyFlushed));
    assert_eq!(aligner.phase(), Phase::Flushed);
}

#[test]
fn second_flush_of_an_empty_table_is_refused_too() {
    let mut aligner = Aligner::new(2, 2);
    assert_eq!(aligner.flush(), Ok(Vec::new()));
    assert_eq!(aligner.flush(), Err(UsageError::AlreadyFlushed));
}

#[test]
fn write_after_flush_is_refused_and_changes_nothing() {
    let mut aligner = Aligner::new(2, 2);
    assert_eq!(aligner.write(cells(&["a"])), Ok(()));
    assert!(aligner.flush().is_ok());
    assert_eq!(aligner.write(cells(&["b", "c"])), Err(UsageError::AlreadyFlushed));
    assert_eq!(aligner.row_count(), 0);
    assert_eq!(aligner.column_count(), 0);
    assert_eq!(aligner.phase(), Phase::Flushed);
    assert_eq!(aligner.flush(), Err(UsageError::AlreadyFlushed));
}

#[test]
fn empty_table_flushes_to_nothing() {
    let mut aligner = Aligner::new(2, 2);
    assert_eq!(aligner.flush(), Ok(Vec::new()));
}

#[test]
fn row_without_fields_is_a_bare_newline() {
    let mut aligner = Aligner::new(2, 2);
    assert_eq!(aligner.write(Vec::new()), Ok(()));
    assert_eq!(aligner.write(cells(&["a", "b"])), Ok(()));
    assert_eq!(aligner.write(Vec::new()), Ok(()));
    assert_eq!(text(aligner.flush().unwrap()), "\na   b\n\n");
}

#[test]
fn single_column_is_never_padded() {
    let mut aligner = Aligner::new(10, 4);
    assert_eq!(aligner.write(cells(&["a"])), Ok(()));
    assert_eq!(aligner.write(cells(&["bbb"])), Ok(()));
    assert_eq!(text(aligner.flush().unwrap()), "a\nbbb\n");
}

#[test]
fn min_width_is_a_floor_under_the_column_not_under_the_cell() {
    let mut aligner = Aligner::new(6, 1);
    assert_eq!(aligner.write(cells(&["a", "b", "c"])), Ok(()));
    assert_eq!(aligner.write(cells(&["dddddddd", "e", "f"])), Ok(()));
    // Column 0 is 8 wide, over the floor; column 1 is 1 wide, raised to 6.
    let expected = format!("a{}b{}c\ndddddddd{}e{}f\n", " ".repeat(8), " ".repeat(6), " ", " ".repeat(6));
    assert_eq!(text(aligner.flush().unwrap()), expected);
}

#[test]
fn no_floor_and_no_padding_leave_only_the_content() {
    let mut aligner = Aligner::new(0, 0);
    assert_eq!(aligner.write(cells(&["a", "bb", "c"])), Ok(()));
    assert_eq!(aligner.write(cells(&["dd", "e", "f"])), Ok(()));
    assert_eq!(text(aligner.flush().unwrap()), "a bbc\ndde f\n");
}

#[test]
fn no_padding_with_a_floor() {
    let mut aligner = Aligner::new(3, 0);
    assert_eq!(aligner.write(cells(&["a", "b"])), Ok(()));
    assert_eq!(text(aligner.flush().unwrap()), "a  b\n");
}

#[test]
fn last_field_is_bare_even_where_the_column_is_wider() {
    let mut aligner = Aligner::new(2, 2);
    assert_eq!(aligner.write(cells(&["a", "b"])), Ok(()));
    assert_eq!(aligner.write(cells(&["c", "dddddd", "e"])), Ok(()));
    // Column 1 is 6 wide because of the second row; the first row ends at "b".
    assert_eq!(text(aligner.flush().unwrap()), "a   b\nc   dddddd  e\n");
}

#[test]
fn last_field_of_a_short_row_widens_its_column() {
    let mut aligner = Aligner::new(2, 2);
    assert_eq!(aligner.write(cells(&["a", "bbbbbb"])), Ok(()));
    assert_eq!(aligner.write(cells(&["c", "d", "e"])), Ok(()));
    assert_eq!(aligner.column_width(1), Some(6));
    assert_eq!(text(aligner.flush().unwrap()), "a   bbbbbb\nc   d       e\n");
}

#[test]
fn ragged_rows_share_one_width_per_column() {
    let mut aligner = Aligner::new(2, 2);
    assert_eq!(aligner.write(cells(&["aaaa", "b", "c"])), Ok(()));
    assert_eq!(aligner.write(cells(&["d"])), Ok(()));
    assert_eq!(aligner.write(cells(&["e", "ffffff", "g"])), Ok(()));
    assert_eq!(
        text(aligner.flush().unwrap()),
        "aaaa  b       c\nd\ne     ffffff  g\n"
    );
}

#[test]
fn empty_fields_are_padded_like_any_other() {
    let mut aligner = Aligner::new(2, 2);
    assert_eq!(aligner.write(cells(&["", "b", ""])), Ok(()));
    assert_eq!(aligner.write(cells(&["a", "", "c"])), Ok(()));
    let expected = format!("{}b{}\na{}c\n", " ".repeat(4), " ".repeat(3), " ".repeat(7));
    assert_eq!(text(aligner.flush().unwrap()), expected);
}

#[test]
fn wide_text_is_padded_by_code_point() {
    let mut aligner = Aligner::new(2, 2);
    assert_eq!(aligner.write(cells(&["é", "x"])), Ok(()));
    assert_eq!(aligner.write(cells(&["eee", "y"])), Ok(()));
    assert_eq!(text(aligner.flush().unwrap()), "é    x\neee  y\n");
}

#[test]
fn malformed_fields_are_padded_by_byte() {
    let mut aligner = Aligner::new(2, 1);
    assert_eq!(aligner.write(vec![b"\xff\xff\xff".to_vec(), b"x".to_vec()]), Ok(()));
    assert_eq!(aligner.write(vec![b"a".to_vec(), b"y".to_vec()]), Ok(()));
    assert_eq!(aligner.flush(), Ok(b"\xff\xff\xff x\na   y\n".to_vec()));
}

#[test]
fn fields_are_emitted_byte_for_byte() {
    let mut aligner = Aligner::new(2, 2);
    assert_eq!(aligner.write(vec![b"a\tb".to_vec(), b"\"q\"".to_vec()]), Ok(()));
    assert_eq!(aligner.flush(), Ok(b"a\tb  \"q\"\n".to_vec()));
}

#[test]
fn nothing_is_emitted_before_flush() {
    let mut aligner = Aligner::new(2, 2);
    let written: Result<(), UsageError> = aligner.write(cells(&["a", "b"]));
    assert_eq!(written, Ok(()));
    assert_eq!(aligner.row_count(), 1);
    assert_eq!(aligner.phase(), Phase::Buffering);
}
