use csv_audit_tool::csv::backend::{
    append_row, inspect_contents, read_all_rows, read_header, read_rows, CsvFile,
};
use csv_audit_tool::csv::helpdir::{csv_files_among, has_csv_extension};
use csv_audit_tool::ui::dialogs::csv_info_message;

const PASSWORDS: &[u8] =
    b"username,password,service\nadmin,admin123,router\nuser1,Password!1,email\n";

fn strings(v: &[&str]) -> Vec<String> {
    v.iter().map(|s| s.to_string()).collect()
}

#[test]
fn test_inspect_csv_integration() {
    let contents: &[u8] =
        b"username,password,service\nadmin,admin123,router\nuser1,Password!1,email\n";
    let info = inspect_contents("passwords.csv".to_string(), contents.len() as u64, contents);
    assert_eq!(info.row_count, 2);
    assert!(info.size_bytes > 0);
}

#[test]
fn test_find_csv_files_integration() {
    // The regular files of the root and of its immediate subdirectories.
    let root = "test_find_csv_files_integration_dir";
    let candidates = vec![
        format!("{}/file1.csv", root),
        format!("{}/file2.txt", root),
        format!("{}/subdir/file3.csv", root),
    ];
    let found = csv_files_among(candidates);
    let expected = vec![format!("{}/file1.csv", root), format!("{}/subdir/file3.csv", root)];
    assert_eq!(found, expected);
}

#[test]
fn inspect_counts_data_rows() {
    let info = inspect_contents("/t/passwords.csv".to_string(), 72, PASSWORDS);
    assert_eq!(info.row_count, 2);
    assert_eq!(info.size_bytes, 72);
    assert_eq!(info.path, "/t/passwords.csv");
}

#[test]
fn inspect_counts_unreadable_records_too() {
    let info = inspect_contents("x.csv".to_string(), 0, b"a,b\n1,\xff\n2,3\n");
    assert_eq!(info.row_count, 2);
    let empty = inspect_contents("y.csv".to_string(), 0, b"");
    assert_eq!(empty.row_count, 0);
}

#[test]
fn header_is_the_first_record() {
    let h = read_header("p.csv", PASSWORDS).unwrap();
    assert_eq!(h, strings(&["username", "password", "service"]));
}

#[test]
fn header_error_names_the_file() {
    let err = read_header("bad.csv", b"a,\xff\n1,2\n").unwrap_err();
    assert!(err.starts_with("Failed to read headers from bad.csv: "));
}

#[test]
fn all_rows_are_read_without_the_header() {
    let rows = read_all_rows("p.csv", PASSWORDS).unwrap();
    assert_eq!(
        rows,
        vec![
            strings(&["admin", "admin123", "router"]),
            strings(&["user1", "Password!1", "email"]),
        ]
    );
}

#[test]
fn rows_of_uneven_length_are_kept() {
    let rows = read_all_rows("p.csv", b"a,b,c\n1\n1,2,3,4\n").unwrap();
    assert_eq!(rows, vec![strings(&["1"]), strings(&["1", "2", "3", "4"])]);
}

#[test]
fn selected_columns_are_kept_in_order() {
    let rows = read_rows("p.csv", PASSWORDS, Some(&[2, 0, 9])).unwrap();
    assert_eq!(
        rows,
        vec![strings(&["router", "admin"]), strings(&["email", "user1"])]
    );
}

#[test]
fn reading_stops_at_the_first_bad_record() {
    let err = read_all_rows("bad.csv", b"a,b\n1,2\n3,\xff\n5,6\n").unwrap_err();
    assert!(err.starts_with("Error reading CSV bad.csv: "));
}

#[test]
fn new_output_file_gets_the_header_first() {
    let (bytes, outcome) = append_row(false, &strings(&["a", "b"]), &strings(&["1", "2"]));
    assert_eq!(outcome, Ok(()));
    assert_eq!(bytes, b"a,b\n1,2\n".to_vec());
}

#[test]
fn existing_output_file_gets_the_row_only() {
    let (bytes, outcome) = append_row(true, &strings(&["a", "b"]), &strings(&["1", "2", "3"]));
    assert_eq!(outcome, Ok(()));
    assert_eq!(bytes, b"1,2,3\n".to_vec());
}

#[test]
fn fields_are_quoted_when_needed() {
    let (bytes, outcome) = append_row(true, &strings(&["a"]), &strings(&["x,y", "say \"hi\""]));
    assert_eq!(outcome, Ok(()));
    assert_eq!(bytes, b"\"x,y\",\"say \"\"hi\"\"\"\n".to_vec());
}

#[test]
fn row_longer_than_the_new_header_is_refused() {
    let (bytes, outcome) = append_row(false, &strings(&["a", "b"]), &strings(&["1", "2", "3"]));
    let err = outcome.unwrap_err();
    assert!(err.starts_with("Failed to write row: "));
    assert_eq!(bytes, b"a,b\n1,2,3".to_vec());
}

#[test]
fn label_shows_relative_path_rows_and_size() {
    let f = CsvFile { path: "/root/dir/sub/file.csv".to_string(), size_bytes: 10, row_count: 2 };
    assert_eq!(f.label("/root/dir"), "sub/file.csv (2 rows, 10 bytes)");
    assert_eq!(f.label("/elsewhere"), "/root/dir/sub/file.csv (2 rows, 10 bytes)");
}

#[test]
fn csv_extension_ignores_ascii_case() {
    assert!(has_csv_extension("a.csv"));
    assert!(has_csv_extension("dir/B.CSV"));
    assert!(has_csv_extension("c.CsV"));
    assert!(!has_csv_extension("a.csv.bak"));
    assert!(!has_csv_extension("notes.txt"));
    assert!(!has_csv_extension(".csv"));
    assert!(!has_csv_extension("csv"));
}

#[test]
fn csv_files_are_filtered_and_sorted() {
    let found = csv_files_among(strings(&["r/b.csv", "r/a.txt", "r/sub/c.CSV", "r/a.csv", "r/z.tsv"]));
    assert_eq!(found, strings(&["r/a.csv", "r/b.csv", "r/sub/c.CSV"]));
}

#[test]
fn csv_info_message_reports_the_file() {
    let f = CsvFile { path: "/d/p.csv".to_string(), size_bytes: 72, row_count: 2 };
    assert_eq!(
        csv_info_message(&f, None),
        "File loaded successfully!\n\nPath: /d/p.csv\nRows: 2\nSize: 72 bytes"
    );
    assert_eq!(
        csv_info_message(&f, Some("oops")),
        "File loaded successfully!\n\nPath: /d/p.csv\nRows: 2\nSize: 72 bytes\n\nHeader extraction error: oops"
    );
}

#[test]
fn csv_files_are_listed_in_path_order() {
    let found = csv_files_among(strings(&["z.csv", "a/b.csv", "a.csv", "a-b.csv"]));
    let mut expected: Vec<std::path::PathBuf> =
        ["z.csv", "a/b.csv", "a.csv", "a-b.csv"].iter().map(std::path::PathBuf::from).collect();
    expected.sort();
    let expected: Vec<String> = expected.iter().map(|p| p.to_string_lossy().into_owned()).collect();
    assert_eq!(found, expected);
}
