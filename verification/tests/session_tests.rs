use csv_audit_tool::csv::session::Session;
use csv_audit_tool::ui::menu::{restore_prompt, session_choice_label, session_original_path};

#[test]
fn session_file_sits_beside_the_csv() {
    assert_eq!(
        Session::session_path("/data/passwords.csv"),
        "/data/passwords.csv.session.json"
    );
    assert_eq!(Session::session_path("a.csv"), "a.csv.session.json");
}

#[test]
fn output_file_is_stamped_and_kept_in_the_same_directory() {
    assert_eq!(
        Session::make_output_path("passwords.csv", "2025-06-20_14-30-00"),
        "passwords_filtered_2025-06-20_14-30-00.csv"
    );
    assert_eq!(
        Session::make_output_path("/data/accounts.csv", "2025-06-20_14-30-00"),
        "/data/accounts_filtered_2025-06-20_14-30-00.csv"
    );
    assert_eq!(
        Session::make_output_path("/data/archive.tar.csv", "T"),
        "/data/archive.tar_filtered_T.csv"
    );
}

#[test]
fn new_session_starts_at_the_first_record() {
    let s = Session::new(
        "/data/a.csv".to_string(),
        "/data/a_filtered_T.csv".to_string(),
        vec![1, 3],
        10,
        "T".to_string(),
    );
    assert_eq!(s.original_path, "/data/a.csv");
    assert_eq!(s.output_path, "/data/a_filtered_T.csv");
    assert_eq!(s.editable_cols, vec![1, 3]);
    assert_eq!(s.current_index, 0);
    assert_eq!(s.total_rows, 10);
    assert_eq!(s.saved_count, 0);
    assert_eq!(s.discarded_count, 0);
    assert!(s.pending_edits.is_empty());
    assert_eq!(s.started_at, "T");
    assert_eq!(s.last_activity, "T");
}

#[test]
fn session_files_are_traced_back_to_their_csv() {
    assert_eq!(
        session_original_path("/tmp", "a.csv.session.json"),
        Some("/tmp/a.csv".to_string())
    );
    assert_eq!(session_original_path("/tmp", "notes.txt"), None);
    assert_eq!(session_original_path("/tmp", "a.session"), None);
}

#[test]
fn repeated_session_suffixes_are_all_trimmed() {
    assert_eq!(
        session_original_path("/tmp", "a.session.json.session.json"),
        Some("/tmp/a".to_string())
    );
}

#[test]
fn session_written_for_a_csv_is_found_for_it() {
    let original = "/work/accounts.csv";
    let written = Session::session_path(original);
    let name = written.rsplit('/').next().unwrap();
    assert_eq!(session_original_path("/work", name), Some(original.to_string()));
}

fn sample_session() -> Session {
    let mut s = Session::new(
        "/data/accounts.csv".to_string(),
        "/data/accounts_filtered_T0.csv".to_string(),
        vec![1],
        100,
        "T0".to_string(),
    );
    s.current_index = 42;
    s.saved_count = 30;
    s.discarded_count = 12;
    s.last_activity = "T1".to_string();
    s
}

#[test]
fn restore_prompt_describes_the_progress() {
    let msg = restore_prompt(&sample_session());
    assert_eq!(
        msg,
        "Found saved session:\n\n\
         Original file: /data/accounts.csv\n\
         Output file:   /data/accounts_filtered_T0.csv\n\
         Progress:      record 43 of 100\n\
         Saved:         30 records\n\
         Discarded:     12 records\n\
         Started:       T0\n\
         Last activity: T1\n\n\
         Would you like to restore this session?"
    );
}

#[test]
fn session_choice_names_the_file_and_record() {
    assert_eq!(
        session_choice_label(&sample_session()),
        "accounts.csv — record 43/100 — T1"
    );
}

#[test]
fn output_file_is_never_the_original() {
    for original in ["/data/accounts.csv", "accounts", ".hidden", "a.b.csv", "/data/x._filtered_T.csv"] {
        let out = Session::make_output_path(original, "2025-06-20_14-30-00");
        assert_ne!(out, original);
        let parent = std::path::Path::new(original).parent();
        assert_eq!(std::path::Path::new(&out).parent(), parent);
    }
}
