use its_extract::paths::{extract_name, input_csv_path, output_csv_path, work_dir, zip_file_path};

#[test]
fn the_working_directory_lies_below_the_output_directory() {
    assert_eq!(work_dir("/home/its/extract"), "/home/its/extract/work");
    assert_eq!(work_dir(""), "/work");
}

#[test]
fn the_input_is_read_from_the_working_directory() {
    assert_eq!(
        input_csv_path("/home/its/extract", "20240101_5Min"),
        "/home/its/extract/work/20240101_5Min.csv"
    );
}

#[test]
fn the_output_is_written_below_the_output_directory() {
    assert_eq!(
        output_csv_path("/home/its/extract", "20240101_5Min"),
        "/home/its/extract/20240101_5Min.csv"
    );
    assert_eq!(output_csv_path("", ""), "/.csv");
}

#[test]
fn the_archive_lies_below_the_target_directory() {
    assert_eq!(zip_file_path("/home/its/data", "20240101_5Min"), "/home/its/data/20240101_5Min.zip");
}

#[test]
fn an_extract_is_named_by_its_day() {
    assert_eq!(extract_name("20240101"), "20240101_5Min");
}
