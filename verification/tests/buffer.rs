use its_extract::buffer::{
    room_for, take_encoded, MatchBuffer, BUFFER_CAPACITY, KEY_FIELD, ROW_WIDTH,
};
use its_extract::key_set::KeySet;

fn record(fields: &[&str]) -> Vec<String> {
    fields.iter().map(|f| f.to_string()).collect()
}

fn keys_of(keys: &[&str]) -> KeySet {
    let mut set = KeySet::new();
    for key in keys {
        set.insert(key.to_string());
    }
    set
}

fn empty_row() -> Vec<String> {
    record(&["", "", "", "", "", ""])
}

#[test]
fn the_buffer_has_30000_slots_of_6_fields() {
    assert_eq!(BUFFER_CAPACITY, 30000);
    assert_eq!(ROW_WIDTH, 6);
    assert_eq!(KEY_FIELD, 2);
    let buffer = MatchBuffer::new();
    assert_eq!(buffer.row(0), empty_row());
    assert_eq!(buffer.row(BUFFER_CAPACITY - 1), empty_row());
    assert_eq!(buffer.valid_rows(), 0);
}

#[test]
fn room_is_what_is_left_of_the_quota() {
    assert_eq!(room_for(288, 0), 288);
    assert_eq!(room_for(288, 280), 8);
    assert_eq!(room_for(288, 287), 1);
    assert_eq!(room_for(288, 288), 0);
    assert_eq!(room_for(288, 300), 0);
    assert_eq!(room_for(0, 0), 0);
    assert_eq!(room_for(30000, 0), 30000);
    assert_eq!(room_for(30001, 0), 30000);
    assert_eq!(room_for(1_000_000, 0), BUFFER_CAPACITY);
    assert_eq!(room_for(1_000_000, 999_000), 1000);
}

#[test]
fn filtered_fill_keeps_matching_records_in_order() {
    let keys = keys_of(&["A"]);
    let mut buffer = MatchBuffer::new();
    let batch = vec![
        record(&["1", "x", "A", "p", "q", "r"]),
        record(&["2", "x", "B", "p", "q", "r"]),
        record(&["3", "x", "A", "s", "t", "u"]),
    ];
    let n = buffer.fill_filtered(&batch, &keys, 288, 0);
    assert_eq!(n, 2);
    assert_eq!(buffer.row(0), record(&["1", "x", "A", "p", "q", "r"]));
    assert_eq!(buffer.row(1), record(&["3", "x", "A", "s", "t", "u"]));
    assert_eq!(buffer.row(2), empty_row());
    assert_eq!(buffer.valid_rows(), 2);
}

#[test]
fn filtered_fill_pads_short_records_and_cuts_long_ones() {
    let keys = keys_of(&["A"]);
    let mut buffer = MatchBuffer::new();
    let batch = vec![
        record(&["1", "x", "A"]),
        record(&["2", "y", "A", "p", "q", "r", "beyond", "more"]),
    ];
    assert_eq!(buffer.fill_filtered(&batch, &keys, 288, 0), 2);
    assert_eq!(buffer.row(0), record(&["1", "x", "A", "", "", ""]));
    assert_eq!(buffer.row(1), record(&["2", "y", "A", "p", "q", "r"]));
}

#[test]
fn filtered_fill_passes_over_records_without_a_key_field() {
    let keys = keys_of(&["A", ""]);
    let mut buffer = MatchBuffer::new();
    let batch = vec![
        record(&[]),
        record(&["A"]),
        record(&["A", "A"]),
        record(&["1", "x", "A"]),
    ];
    assert_eq!(buffer.fill_filtered(&batch, &keys, 576, 0), 1);
    assert_eq!(buffer.row(0), record(&["1", "x", "A", "", "", ""]));
    assert_eq!(buffer.valid_rows(), 1);
}

#[test]
fn filtered_fill_tests_the_third_field_only() {
    let keys = keys_of(&["A"]);
    let mut buffer = MatchBuffer::new();
    let batch = vec![
        record(&["A", "A", "B", "A", "A", "A"]),
        record(&["B", "B", "A", "B", "B", "B"]),
    ];
    assert_eq!(buffer.fill_filtered(&batch, &keys, 288, 0), 1);
    assert_eq!(buffer.row(0), record(&["B", "B", "A", "B", "B", "B"]));
}

#[test]
fn filtered_fill_clears_what_the_last_batch_left() {
    let keys = keys_of(&["A"]);
    let mut buffer = MatchBuffer::new();
    let first = vec![record(&["1", "x", "A"]), record(&["2", "x", "A"])];
    assert_eq!(buffer.fill_filtered(&first, &keys, 288, 0), 2);
    let second = vec![record(&["3", "x", "A"])];
    assert_eq!(buffer.fill_filtered(&second, &keys, 288, 2), 1);
    assert_eq!(buffer.row(0), record(&["3", "x", "A", "", "", ""]));
    assert_eq!(buffer.row(1), empty_row());
    assert_eq!(buffer.valid_rows(), 1);
    let none = vec![record(&["4", "x", "B"])];
    assert_eq!(buffer.fill_filtered(&none, &keys, 288, 3), 0);
    assert_eq!(buffer.row(0), empty_row());
    assert_eq!(buffer.valid_rows(), 0);
}

#[test]
fn filtered_fill_stops_when_the_quota_is_reached() {
    let keys = keys_of(&["A"]);
    let mut buffer = MatchBuffer::new();
    let batch: Vec<Vec<String>> = (0..10).map(|i| record(&[&format!("r{}", i), "x", "A"])).collect();
    assert_eq!(buffer.fill_filtered(&batch, &keys, 288, 285), 3);
    assert_eq!(buffer.row(2), record(&["r2", "x", "A", "", "", ""]));
    assert_eq!(buffer.row(3), empty_row());
    assert_eq!(buffer.fill_filtered(&batch, &keys, 288, 288), 0);
    assert_eq!(buffer.fill_filtered(&batch, &keys, 288, 1000), 0);
    assert_eq!(buffer.fill_filtered(&batch, &keys, 288, 0), 10);
}

#[test]
fn filtered_fill_stops_when_the_buffer_is_full() {
    let keys = keys_of(&["A"]);
    let mut buffer = MatchBuffer::new();
    let batch: Vec<Vec<String>> =
        (0..BUFFER_CAPACITY + 5).map(|i| record(&[&format!("r{}", i), "x", "A"])).collect();
    assert_eq!(buffer.fill_filtered(&batch, &keys, 1_000_000, 0), BUFFER_CAPACITY);
    assert_eq!(buffer.row(BUFFER_CAPACITY - 1), record(&["r29999", "x", "A", "", "", ""]));
    assert_eq!(buffer.valid_rows(), BUFFER_CAPACITY);
}

#[test]
fn filled_slots_form_a_prefix() {
    let keys = keys_of(&["A", "B"]);
    let mut buffer = MatchBuffer::new();
    let batch = vec![
        record(&["1", "x", "C"]),
        record(&["2", "x", "A"]),
        record(&["3", "x"]),
        record(&["4", "x", "B"]),
        record(&["5", "x", "C"]),
        record(&["6", "x", "A"]),
    ];
    let n = buffer.fill_filtered(&batch, &keys, 576, 0);
    assert_eq!(n, 3);
    for i in 0..n {
        assert!(!buffer.row(i)[0].is_empty());
    }
    for i in n..n + 50 {
        assert_eq!(buffer.row(i), empty_row());
    }
    assert_eq!(buffer.row(BUFFER_CAPACITY - 1), empty_row());
    assert_eq!(buffer.valid_rows(), n);
}

#[test]
fn a_kept_row_with_an_empty_first_field_ends_the_valid_prefix() {
    let keys = keys_of(&["A"]);
    let mut buffer = MatchBuffer::new();
    let batch = vec![
        record(&["1", "x", "A"]),
        record(&["", "x", "A"]),
        record(&["3", "x", "A"]),
    ];
    assert_eq!(buffer.fill_filtered(&batch, &keys, 288, 0), 3);
    assert_eq!(buffer.row(2), record(&["3", "x", "A", "", "", ""]));
    assert_eq!(buffer.valid_rows(), 1);
}

#[test]
fn unfiltered_fill_copies_every_record() {
    let mut buffer = MatchBuffer::new();
    let batch = vec![
        record(&["1", "x"]),
        record(&["2", "y", "B", "p", "q", "r", "beyond"]),
        record(&[]),
    ];
    assert_eq!(buffer.fill(&batch), 3);
    assert_eq!(buffer.row(0), record(&["1", "x", "", "", "", ""]));
    assert_eq!(buffer.row(1), record(&["2", "y", "B", "p", "q", "r"]));
    assert_eq!(buffer.row(2), empty_row());
    assert_eq!(buffer.valid_rows(), 2);
    assert_eq!(buffer.fill(&Vec::new()), 0);
    assert_eq!(buffer.row(0), empty_row());
}

#[test]
fn unfiltered_fill_takes_no_more_than_the_buffer_holds() {
    let mut buffer = MatchBuffer::new();
    let batch: Vec<Vec<String>> =
        (0..BUFFER_CAPACITY + 1).map(|i| record(&[&format!("r{}", i)])).collect();
    assert_eq!(buffer.fill(&batch), BUFFER_CAPACITY);
    assert_eq!(buffer.row(BUFFER_CAPACITY - 1)[0], "r29999");
}

#[test]
fn clear_empties_every_slot() {
    let mut buffer = MatchBuffer::new();
    let batch = vec![record(&["1", "x", "A"]), record(&["2", "x", "A"])];
    buffer.fill(&batch);
    buffer.clear();
    assert_eq!(buffer.row(0), empty_row());
    assert_eq!(buffer.row(1), empty_row());
    assert_eq!(buffer.valid_rows(), 0);
}

#[test]
fn rows_are_encoded_as_csv_lines() {
    let mut buffer = MatchBuffer::new();
    let batch = vec![
        record(&["20240101", "0000", "1030011501", "35.5", "12", "3"]),
        record(&["a,b", "say \"hi\"", "", "x", "y", "z"]),
    ];
    buffer.fill(&batch);
    let all = buffer.encode_rows(2).unwrap();
    assert_eq!(
        String::from_utf8(all).unwrap(),
        "20240101,0000,1030011501,35.5,12,3\n\"a,b\",\"say \"\"hi\"\"\",,x,y,z\n"
    );
    let one = buffer.encode_rows(1).unwrap();
    assert_eq!(String::from_utf8(one).unwrap(), "20240101,0000,1030011501,35.5,12,3\n");
    assert!(buffer.encode_rows(0).unwrap().is_empty());
}

#[test]
fn encoded_bytes_are_added_at_the_end_of_the_text() {
    let mut text = b"1,x,A,,,\n".to_vec();
    assert!(take_encoded(&mut text, Ok(b"2,x,A,,,\n".to_vec())).is_ok());
    assert_eq!(text, b"1,x,A,,,\n2,x,A,,,\n".to_vec());
    assert!(take_encoded(&mut text, Ok(Vec::new())).is_ok());
    assert_eq!(text, b"1,x,A,,,\n2,x,A,,,\n".to_vec());
}

#[test]
fn an_encoding_error_leaves_the_text_as_it_is() {
    let mut writer = csv::WriterBuilder::new().from_writer(Vec::new());
    writer.write_record(["a", "b"]).unwrap();
    let error = writer.write_record(["a"]).unwrap_err();
    let mut text = b"1,x,A,,,\n".to_vec();
    let taken = take_encoded(&mut text, Err(error));
    assert!(matches!(taken.unwrap_err().kind(), csv::ErrorKind::UnequalLengths { .. }));
    assert_eq!(text, b"1,x,A,,,\n".to_vec());
}
