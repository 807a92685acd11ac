use csv_audit_tool::csv::session::Session;
use csv_audit_tool::ui::csv_work::{completion_message, ViewerState};
use csv_audit_tool::ui::csv_workflow::{is_blank_entry, selection_intro, FieldSelection};
use csv_audit_tool::csv::backend::CsvFile;

fn strings(v: &[&str]) -> Vec<String> {
    v.iter().map(|s| s.to_string()).collect()
}

fn sample() -> ViewerState {
    ViewerState::begin(
        "/data/pw.csv".to_string(),
        strings(&["username", "password", "service"]),
        vec![
            strings(&["admin", "admin123", "router"]),
            strings(&["user1", "Password!1"]),
        ],
        vec![1],
        "T0".to_string(),
    )
    .unwrap()
}

#[test]
fn no_rows_means_nothing_to_review() {
    let v = ViewerState::begin("/d/e.csv".to_string(), strings(&["a"]), vec![], vec![], "T".to_string());
    assert!(v.is_none());
}

#[test]
fn review_begins_at_the_first_record() {
    let v = sample();
    assert_eq!(v.session.current_index, 0);
    assert_eq!(v.session.total_rows, 2);
    assert_eq!(v.session.output_path, "/data/pw_filtered_T0.csv");
    assert_eq!(v.session.started_at, "T0");
    assert!(!v.is_complete());
}

#[test]
fn record_screen_shows_title_stats_and_fields() {
    let v = sample();
    let screen = v.current_record().unwrap();
    assert_eq!(screen.title, "Displaying record no 1 of 2");
    assert_eq!(screen.stats, "Saved: 0  |  Discarded: 0  |  Remaining: 2");
    assert!(screen.has_editable);
    assert_eq!(screen.fields.len(), 3);
    assert_eq!(screen.fields[0].label, "    username: ");
    assert_eq!(screen.fields[0].value, "admin");
    assert!(!screen.fields[0].editable);
    assert_eq!(screen.fields[1].label, "[*] password: ");
    assert_eq!(screen.fields[1].value, "admin123");
    assert!(screen.fields[1].editable);
    assert_eq!(screen.fields[2].col, 2);
}

#[test]
fn missing_fields_show_empty() {
    let mut v = sample();
    v.record_discarded("T1".to_string());
    let screen = v.current_record().unwrap();
    assert_eq!(screen.title, "Displaying record no 2 of 2");
    assert_eq!(screen.stats, "Saved: 0  |  Discarded: 1  |  Remaining: 1");
    assert_eq!(screen.fields[2].value, "");
}

#[test]
fn saved_row_carries_only_editable_edits() {
    let v = sample();
    let edits = v.collect_edits(vec![Some("s3cret".to_string())]);
    assert_eq!(edits, vec![(1, "s3cret".to_string())]);
    assert_eq!(v.output_row(&edits), strings(&["admin", "s3cret", "router"]));
    let none = v.collect_edits(vec![None]);
    assert!(none.is_empty());
    assert_eq!(v.output_row(&none), strings(&["admin", "admin123", "router"]));
}

#[test]
fn edits_past_the_row_end_are_ignored() {
    let v = sample();
    let edits = vec![(7, "x".to_string()), (0, "root".to_string())];
    assert_eq!(v.output_row(&edits), strings(&["root", "admin123", "router"]));
}

#[test]
fn saving_and_discarding_advance_one_record() {
    let mut v = sample();
    v.record_saved("T1".to_string());
    assert_eq!(v.session.current_index, 1);
    assert_eq!(v.session.saved_count, 1);
    assert_eq!(v.session.discarded_count, 0);
    assert_eq!(v.session.last_activity, "T1");
    v.record_discarded("T2".to_string());
    assert_eq!(v.session.current_index, 2);
    assert_eq!(v.session.saved_count, 1);
    assert_eq!(v.session.discarded_count, 1);
    assert_eq!(
        v.session.saved_count + v.session.discarded_count,
        v.session.current_index
    );
    assert!(v.is_complete());
    assert!(v.current_record().is_none());
}

#[test]
fn original_rows_are_never_modified() {
    let mut v = sample();
    let before = v.rows.clone();
    let edits = v.collect_edits(vec![Some("changed".to_string())]);
    let _ = v.output_row(&edits);
    v.pause(edits, "T1".to_string());
    v.record_saved("T2".to_string());
    assert_eq!(v.rows, before);
}

#[test]
fn pause_keeps_typed_values_for_resume() {
    let mut v = sample();
    let edits = v.collect_edits(vec![Some("typed".to_string())]);
    v.pause(edits, "T1".to_string());
    assert_eq!(v.session.current_index, 0);
    assert_eq!(v.session.pending_edits.get(&1), Some(&"typed".to_string()));
    let session = v.session.clone();
    let resumed = ViewerState::resume(v.headers.clone(), v.rows.clone(), session).ok().unwrap();
    let screen = resumed.current_record().unwrap();
    assert_eq!(screen.fields[1].value, "typed");
    assert_eq!(screen.fields[0].value, "admin");
}

#[test]
fn saving_clears_pending_edits() {
    let mut v = sample();
    let edits = v.collect_edits(vec![Some("typed".to_string())]);
    v.pause(edits, "T1".to_string());
    v.record_saved("T2".to_string());
    assert!(v.session.pending_edits.is_empty());
}

#[test]
fn finished_session_is_handed_back_on_resume() {
    let mut v = sample();
    v.record_saved("T1".to_string());
    v.record_saved("T2".to_string());
    let session = v.session.clone();
    let back = ViewerState::resume(v.headers.clone(), v.rows.clone(), session);
    match back {
        Err(s) => assert_eq!(s.current_index, 2),
        Ok(_) => panic!("expected the finished session back"),
    }
}

#[test]
fn completion_summary_lists_the_tallies() {
    let mut s = Session::new(
        "/data/accounts.csv".to_string(),
        "/data/accounts_filtered_2025-06-20_14-30-00.csv".to_string(),
        vec![],
        10,
        "2025-06-20_14-30-00".to_string(),
    );
    s.saved_count = 7;
    s.discarded_count = 3;
    s.current_index = 10;
    assert_eq!(
        completion_message(&s, "2025-06-20_14-45-12"),
        "All records have been processed!\n\n\
         Total records:  10\n\
         Saved:          7\n\
         Discarded:      3\n\n\
         Output file:\n  /data/accounts_filtered_2025-06-20_14-30-00.csv\n\n\
         Session started: 2025-06-20_14-30-00\n\
         Completed:       2025-06-20_14-45-12"
    );
}

#[test]
fn checking_a_column_clears_none() {
    let mut sel = FieldSelection::new(3);
    sel.set_none(true);
    assert!(sel.chosen_columns().is_empty());
    sel.set_field(2, true);
    assert!(!sel.none_selected);
    sel.set_field(0, true);
    assert_eq!(sel.chosen_columns(), vec![0, 2]);
    sel.set_field(2, false);
    assert_eq!(sel.chosen_columns(), vec![0]);
}

#[test]
fn ticking_none_clears_every_column() {
    let mut sel = FieldSelection::new(3);
    sel.set_field(1, true);
    sel.set_none(true);
    assert_eq!(sel.selected, vec![false, false, false]);
    assert!(sel.chosen_columns().is_empty());
    sel.set_none(false);
    assert!(sel.chosen_columns().is_empty());
}

#[test]
fn selection_intro_describes_the_file() {
    let f = CsvFile { path: "/d/pw.csv".to_string(), size_bytes: 72, row_count: 2 };
    assert_eq!(
        selection_intro(&f),
        "File : pw.csv\nRows : 2   Size : 72 bytes\n\nCheck the columns you want to make editable:"
    );
}

#[test]
fn blank_path_entries_are_recognised() {
    assert!(is_blank_entry(""));
    assert!(is_blank_entry(" \t\n"));
    assert!(!is_blank_entry("  a.csv "));
}

#[test]
fn failed_append_leaves_the_record_current() {
    let mut v = sample();
    let moved = v.after_append(&Err("disk full".to_string()), "T1".to_string());
    assert!(!moved);
    assert_eq!(v.session.current_index, 0);
    assert_eq!(v.session.saved_count, 0);
    assert_eq!(v.session.last_activity, "T0");
    let moved = v.after_append(&Ok(()), "T2".to_string());
    assert!(moved);
    assert_eq!(v.session.current_index, 1);
    assert_eq!(v.session.saved_count, 1);
    assert_eq!(v.session.last_activity, "T2");
}

#[test]
fn output_path_differs_from_the_reviewed_file() {
    let v = sample();
    assert_ne!(v.session.output_path, v.session.original_path);
}

#[test]
fn blank_entries_match_trim_for_every_character() {
    for u in 0u32..0x3100 {
        if let Some(c) = char::from_u32(u) {
            let s = c.to_string();
            assert_eq!(is_blank_entry(&s), s.trim().is_empty(), "U+{:04X}", u);
        }
    }
    assert!(is_blank_entry("\u{3000}\u{2028}"));
    assert!(!is_blank_entry("\u{200B}"));
}
