//! Review sessions: their state, file names and timestamps.
use vstd::prelude::*;

use std::collections::HashMap;

use crate::paths::{
    file_stem, join, parent, path_file_name, path_file_stem, path_joined, path_parent,
    plain_component, stem_of_name,
};
use crate::text::{
    decimal, digits_value, lemma_text_le_concat, lemma_text_le_refl,
    lemma_zero_pad_no_slash, lemma_zero_padded_decimal, lemma_zero_padded_order, no_slash, pow10,
    push_zero_padded, text_le, zero_pad,
};

use crate::calendar::{
    date_of_day, day_number, days_before_month, days_before_year, is_leap_year,
    lemma_date_of_day_number, lemma_dates_follow_days, lemma_every_day_has_a_date, lemma_months_fill_year, month_length,
    valid_date, year_length,
};

verus! {

/// Persistent progress of a review of one CSV file.
///
/// Every record before `current_index` has been saved or discarded;
/// `pending_edits` maps column indexes to values typed into the current record
/// before the user quit.
#[derive(Debug, Clone)]
pub struct Session {
    pub original_path: String,
    pub output_path: String,
    pub editable_cols: Vec<usize>,
    pub current_index: usize,
    pub total_rows: usize,
    pub saved_count: usize,
    pub discarded_count: usize,
    pub pending_edits: HashMap<usize, String>,
    pub started_at: String,
    pub last_activity: String,
}

/// The name of the session file kept for the CSV file at `original`.
pub open spec fn session_path_of(original: Seq<char>) -> Seq<char> {
    original + session_suffix()
}

/// The suffix that marks a session file.
pub open spec fn session_suffix() -> Seq<char> {
    seq!['.', 's', 'e', 's', 's', 'i', 'o', 'n', '.', 'j', 's', 'o', 'n']
}

/// The output file for the CSV file at `original`, stamped with `timestamp`:
/// `<stem>_filtered_<timestamp>.csv` in the directory of `original`.
pub open spec fn output_path_of(original: Seq<char>, timestamp: Seq<char>) -> Seq<char> {
    let stem = match path_file_stem(original) {
        Some(s) => s,
        None => Seq::empty(),
    };
    let dir = match path_parent(original) {
        Some(p) => p,
        None => seq!['.'],
    };
    path_joined(dir, stem + "_filtered_"@ + timestamp + ".csv"@)
}

/// The file name of the output for `original`: its stem, `_filtered_`, the
/// timestamp and `.csv`.
pub open spec fn output_name(original: Seq<char>, timestamp: Seq<char>) -> Seq<char> {
    match path_file_stem(original) {
        Some(s) => s + "_filtered_"@ + timestamp + ".csv"@,
        None => "_filtered_"@ + timestamp + ".csv"@,
    }
}

/// The output file goes in the original's directory: whenever the original path
/// has a parent, relative or absolute, the output path is that parent joined with
/// the output file name (the original's stem, `_filtered_`, the timestamp, `.csv`).
pub proof fn lemma_output_in_original_directory(original: Seq<char>, timestamp: Seq<char>)
    ensures
        path_parent(original) matches Some(dir) ==> output_path_of(original, timestamp)
            == path_joined(dir, output_name(original, timestamp)),
{
    if path_file_stem(original) is None {
        assert(Seq::<char>::empty() + "_filtered_"@ + timestamp + ".csv"@ =~= "_filtered_"@
            + timestamp + ".csv"@);
    }
}

/// The text of a timestamp taken `secs` seconds after 1970-01-01 00:00:00 UTC:
/// `YYYY-MM-DD_HH-MM-SS`.
pub open spec fn timestamp_text(secs: nat) -> Seq<char> {
    let date = date_of_day(secs / 86400);
    let time_of_day = secs % 86400;
    zero_pad(decimal(date.0 as nat), 4) + seq!['-'] + zero_pad(decimal(date.1 as nat), 2)
        + seq!['-'] + zero_pad(decimal(date.2 as nat), 2) + seq!['_']
        + zero_pad(decimal(time_of_day / 3600), 2) + seq!['-']
        + zero_pad(decimal((time_of_day % 3600) / 60), 2) + seq!['-']
        + zero_pad(decimal(time_of_day % 60), 2)
}

/// A timestamp text holds no `'/'`: it names no directory.
pub proof fn lemma_timestamp_no_slash(secs: nat)
    ensures
        no_slash(timestamp_text(secs)),
{
    let date = date_of_day(secs / 86400);
    let tod = secs % 86400;
    lemma_zero_pad_no_slash(date.0 as nat, 4);
    lemma_zero_pad_no_slash(date.1 as nat, 2);
    lemma_zero_pad_no_slash(date.2 as nat, 2);
    lemma_zero_pad_no_slash(tod / 3600, 2);
    lemma_zero_pad_no_slash((tod % 3600) / 60, 2);
    lemma_zero_pad_no_slash(tod % 60, 2);
}

/// A timestamp text reads back as the moment it stamps: its year, month and day
/// fields are the calendar date of the day, and its hour, minute and second fields
/// the time of day (for moments up to the year 9999).
pub proof fn lemma_timestamp_fields(secs: nat)
    requires
        date_of_day(secs / 86400).0 < 10000,
    ensures
        ({
            let t = timestamp_text(secs);
            let date = date_of_day(secs / 86400);
            let tod = secs % 86400;
            &&& t.len() == 19
            &&& digits_value(t.subrange(0, 4)) == date.0
            &&& digits_value(t.subrange(5, 7)) == date.1
            &&& digits_value(t.subrange(8, 10)) == date.2
            &&& digits_value(t.subrange(11, 13)) == tod / 3600
            &&& digits_value(t.subrange(14, 16)) == (tod % 3600) / 60
            &&& digits_value(t.subrange(17, 19)) == tod % 60
        }),
{
    let date = date_of_day(secs / 86400);
    let tod = secs % 86400;
    lemma_every_day_has_a_date(secs / 86400);
    reveal_with_fuel(pow10, 5);
    assert(pow10(4) == 10000 && pow10(2) == 100);
    lemma_zero_padded_decimal(date.0 as nat, 4);
    lemma_zero_padded_decimal(date.1 as nat, 2);
    lemma_zero_padded_decimal(date.2 as nat, 2);
    lemma_zero_padded_decimal(tod / 3600, 2);
    lemma_zero_padded_decimal((tod % 3600) / 60, 2);
    lemma_zero_padded_decimal(tod % 60, 2);
    let y = zero_pad(decimal(date.0 as nat), 4);
    let mo = zero_pad(decimal(date.1 as nat), 2);
    let d = zero_pad(decimal(date.2 as nat), 2);
    let h = zero_pad(decimal(tod / 3600), 2);
    let mi = zero_pad(decimal((tod % 3600) / 60), 2);
    let sc = zero_pad(decimal(tod % 60), 2);
    let t = timestamp_text(secs);
    assert(t == y + seq!['-'] + mo + seq!['-'] + d + seq!['_'] + h + seq!['-'] + mi + seq!['-'] + sc);
    assert(t.subrange(0, 4) =~= y);
    assert(t.subrange(5, 7) =~= mo);
    assert(t.subrange(8, 10) =~= d);
    assert(t.subrange(11, 13) =~= h);
    assert(t.subrange(14, 16) =~= mi);
    assert(t.subrange(17, 19) =~= sc);
}

/// Timestamps tell moments apart: two moments up to the year 9999 with the same
/// timestamp text are the same second. Sessions started at different seconds thus
/// write to differently named output files.
pub proof fn lemma_timestamps_tell_moments_apart(secs1: nat, secs2: nat)
    requires
        date_of_day(secs1 / 86400).0 < 10000,
        date_of_day(secs2 / 86400).0 < 10000,
        timestamp_text(secs1) == timestamp_text(secs2),
    ensures
        secs1 == secs2,
{
    lemma_timestamp_fields(secs1);
    lemma_timestamp_fields(secs2);
    let a = date_of_day(secs1 / 86400);
    let b = date_of_day(secs2 / 86400);
    lemma_every_day_has_a_date(secs1 / 86400);
    lemma_every_day_has_a_date(secs2 / 86400);
    assert(a == b);
    let t1 = secs1 % 86400;
    let t2 = secs2 % 86400;
    assert(t1 == (t1 / 3600) * 3600 + ((t1 % 3600) / 60) * 60 + t1 % 60);
    assert(t2 == (t2 / 3600) * 3600 + ((t2 % 3600) / 60) * 60 + t2 % 60);
    assert(secs1 == (secs1 / 86400) * 86400 + t1);
    assert(secs2 == (secs2 / 86400) * 86400 + t2);
}

/// A zero-padded field followed by the rest: ordered by the field, then by the rest.
proof fn lemma_field_then_rest(a: nat, b: nat, width: nat, r1: Seq<char>, r2: Seq<char>)
    requires
        1 <= width,
        a <= b < pow10(width),
        a == b ==> text_le(r1, r2),
    ensures
        text_le(zero_pad(decimal(a), width) + r1, zero_pad(decimal(b), width) + r2),
{
    lemma_zero_padded_order(a, b, width);
    lemma_zero_padded_decimal(a, width);
    lemma_zero_padded_decimal(b, width);
    lemma_text_le_concat(zero_pad(decimal(a), width), r1, zero_pad(decimal(b), width), r2);
}

/// A separator followed by the rest: ordered by the rest.
proof fn lemma_sep_then_rest(c: char, r1: Seq<char>, r2: Seq<char>)
    requires
        text_le(r1, r2),
    ensures
        text_le(seq![c] + r1, seq![c] + r2),
{
    lemma_text_le_refl(seq![c]);
    lemma_text_le_concat(seq![c], r1, seq![c], r2);
}

/// The timestamp text with its parts grouped from the right.
spec fn timestamp_right(y: nat, mo: nat, d: nat, h: nat, mi: nat, sc: nat) -> Seq<char> {
    zero_pad(decimal(y), 4) + (seq!['-'] + (zero_pad(decimal(mo), 2) + (seq!['-'] + (zero_pad(
        decimal(d),
        2,
    ) + (seq!['_'] + (zero_pad(decimal(h), 2) + (seq!['-'] + (zero_pad(decimal(mi), 2) + (
    seq!['-'] + zero_pad(decimal(sc), 2))))))))))
}

/// The texts of two stamps whose fields are in lexicographic order are in order.
proof fn lemma_stamp_texts_in_order(
    y1: nat, m1: nat, d1: nat, h1: nat, i1: nat, c1: nat,
    y2: nat, m2: nat, d2: nat, h2: nat, i2: nat, c2: nat,
)
    requires
        y1 <= y2 < 10000,
        m1 < 100 && m2 < 100 && d1 < 100 && d2 < 100,
        h1 < 100 && h2 < 100 && i1 < 100 && i2 < 100 && c1 < 100 && c2 < 100,
        y1 == y2 ==> m1 <= m2,
        y1 == y2 && m1 == m2 ==> d1 <= d2,
        y1 == y2 && m1 == m2 && d1 == d2 ==> h1 <= h2,
        y1 == y2 && m1 == m2 && d1 == d2 && h1 == h2 ==> i1 <= i2,
        y1 == y2 && m1 == m2 && d1 == d2 && h1 == h2 && i1 == i2 ==> c1 <= c2,
    ensures
        text_le(timestamp_right(y1, m1, d1, h1, i1, c1), timestamp_right(y2, m2, d2, h2, i2, c2)),
{
    reveal_with_fuel(pow10, 5);
    assert(pow10(4) == 10000 && pow10(2) == 100);
    let same_day = y1 == y2 && m1 == m2 && d1 == d2;
    let r6a = zero_pad(decimal(c1), 2);
    let r6b = zero_pad(decimal(c2), 2);
    if same_day && h1 == h2 && i1 == i2 {
        lemma_zero_padded_order(c1, c2, 2);
        lemma_sep_then_rest('-', r6a, r6b);
    }
    let r5a = seq!['-'] + r6a;
    let r5b = seq!['-'] + r6b;
    let r4a = zero_pad(decimal(i1), 2) + r5a;
    let r4b = zero_pad(decimal(i2), 2) + r5b;
    if same_day && h1 == h2 {
        lemma_field_then_rest(i1, i2, 2, r5a, r5b);
        lemma_sep_then_rest('-', r4a, r4b);
    }
    let r3a = seq!['-'] + r4a;
    let r3b = seq!['-'] + r4b;
    let r2a = zero_pad(decimal(h1), 2) + r3a;
    let r2b = zero_pad(decimal(h2), 2) + r3b;
    if same_day {
        lemma_field_then_rest(h1, h2, 2, r3a, r3b);
        lemma_sep_then_rest('_', r2a, r2b);
    }
    let r1a = seq!['_'] + r2a;
    let r1b = seq!['_'] + r2b;
    let q4a = zero_pad(decimal(d1), 2) + r1a;
    let q4b = zero_pad(decimal(d2), 2) + r1b;
    if y1 == y2 && m1 == m2 {
        lemma_field_then_rest(d1, d2, 2, r1a, r1b);
        lemma_sep_then_rest('-', q4a, q4b);
    }
    let q3a = seq!['-'] + q4a;
    let q3b = seq!['-'] + q4b;
    let q2a = zero_pad(decimal(m1), 2) + q3a;
    let q2b = zero_pad(decimal(m2), 2) + q3b;
    if y1 == y2 {
        lemma_field_then_rest(m1, m2, 2, q3a, q3b);
        lemma_sep_then_rest('-', q2a, q2b);
    }
    lemma_field_then_rest(y1, y2, 4, seq!['-'] + q2a, seq!['-'] + q2b);
}

/// Within one day, a later second has a later (hour, minute, second).
proof fn lemma_time_of_day_order(t1: nat, t2: nat)
    requires
        t1 <= t2 < 86400,
    ensures
        t1 / 3600 <= t2 / 3600,
        t1 / 3600 == t2 / 3600 ==> (t1 % 3600) / 60 <= (t2 % 3600) / 60,
        t1 / 3600 == t2 / 3600 && (t1 % 3600) / 60 == (t2 % 3600) / 60 ==> t1 % 60 <= t2 % 60,
        t1 / 3600 < 24 && (t2 % 3600) / 60 < 60 && (t1 % 3600) / 60 < 60,
{
}

/// Timestamps sort as the moments they stamp: for moments up to the year 9999, an
/// earlier second never gets a later text in string order. Output files named by
/// them therefore list in the order the sessions started.
pub proof fn lemma_timestamps_follow_time(secs1: nat, secs2: nat)
    requires
        secs1 <= secs2,
        date_of_day(secs1 / 86400).0 < 10000,
        date_of_day(secs2 / 86400).0 < 10000,
    ensures
        text_le(timestamp_text(secs1), timestamp_text(secs2)),
{
    let n1 = secs1 / 86400;
    let n2 = secs2 / 86400;
    let a = date_of_day(n1);
    let b = date_of_day(n2);
    lemma_every_day_has_a_date(n1);
    lemma_every_day_has_a_date(n2);
    lemma_dates_follow_days(n1, n2);
    let t1 = secs1 % 86400;
    let t2 = secs2 % 86400;
    assert(n1 <= n2);
    if a == b {
        assert(n1 == n2);
        lemma_time_of_day_order(t1, t2);
    }
    lemma_time_of_day_order(t1, t1);
    lemma_time_of_day_order(t2, t2);
    lemma_stamp_texts_in_order(
        a.0 as nat, a.1 as nat, a.2 as nat, t1 / 3600, (t1 % 3600) / 60, t1 % 60,
        b.0 as nat, b.1 as nat, b.2 as nat, t2 / 3600, (t2 % 3600) / 60, t2 % 60,
    );
    lemma_timestamp_regrouped(secs1);
    lemma_timestamp_regrouped(secs2);
}

/// Eleven parts joined left to right equal the same parts grouped from the right.
proof fn lemma_regroup(
    p1: Seq<char>, p2: Seq<char>, p3: Seq<char>, p4: Seq<char>, p5: Seq<char>, p6: Seq<char>,
    p7: Seq<char>, p8: Seq<char>, p9: Seq<char>, p10: Seq<char>, p11: Seq<char>,
)
    ensures
        p1 + p2 + p3 + p4 + p5 + p6 + p7 + p8 + p9 + p10 + p11 == p1 + (p2 + (p3 + (p4 + (p5 + (p6
            + (p7 + (p8 + (p9 + (p10 + p11))))))))),
{
    assert(p1 + p2 + p3 + p4 + p5 + p6 + p7 + p8 + p9 + p10 + p11 =~= p1 + (p2 + (p3 + (p4 + (p5
        + (p6 + (p7 + (p8 + (p9 + (p10 + p11))))))))));
}

/// The timestamp text is its parts grouped from the right.
proof fn lemma_timestamp_regrouped(secs: nat)
    ensures
        ({
            let date = date_of_day(secs / 86400);
            let t = secs % 86400;
            timestamp_text(secs) == timestamp_right(
                date.0 as nat,
                date.1 as nat,
                date.2 as nat,
                t / 3600,
                (t % 3600) / 60,
                t % 60,
            )
        }),
{
    let date = date_of_day(secs / 86400);
    let t = secs % 86400;
    lemma_regroup(
        zero_pad(decimal(date.0 as nat), 4),
        seq!['-'],
        zero_pad(decimal(date.1 as nat), 2),
        seq!['-'],
        zero_pad(decimal(date.2 as nat), 2),
        seq!['_'],
        zero_pad(decimal(t / 3600), 2),
        seq!['-'],
        zero_pad(decimal((t % 3600) / 60), 2),
        seq!['-'],
        zero_pad(decimal(t % 60), 2),
    );
}

/// The suffix of session file names.
pub fn session_suffix_str() -> (r: &'static str)
    ensures
        r@ == session_suffix(),
{
    let r = ".session.json";
    proof {
        reveal_strlit(".session.json");
    }
    r
}

/// Calls `SystemTime::now` and measures it from `UNIX_EPOCH` (0 when the clock reads
/// earlier). Claims nothing of the value, which depends on the clock.
#[verifier::external_body]
fn unix_seconds_now() -> u64 {
    std::time::SystemTime::now().duration_since(std::time::UNIX_EPOCH).unwrap_or_default().as_secs()
}

impl Session {
    /// Build the session file path from the original CSV path.
    /// e.g. `/data/passwords.csv` becomes `/data/passwords.csv.session.json`.
    pub fn session_path(original: &str) -> (r: String)
        ensures
            r@ == session_path_of(original@),
    {
        let mut p = String::from_str(original);
        p.append(session_suffix_str());
        p
    }

    /// Build the output CSV path with a timestamp.
    /// e.g. `passwords.csv` becomes `passwords_filtered_2025-06-20_14-30-00.csv`.
    pub fn make_output_path(original: &str, timestamp: &str) -> (r: String)
        ensures
            r@ == output_path_of(original@, timestamp@),
            no_slash(timestamp@) ==> r@ != original@,
            path_parent(original@) matches Some(dir) ==> r@ == path_joined(
                dir,
                output_name(original@, timestamp@),
            ),
    {
        let stem = file_stem(original);
        let mut name = match &stem {
            Some(s) => s.clone(),
            None => String::new(),
        };
        let dir = match parent(original) {
            Some(p) => p,
            None => String::from_str("."),
        };
        let ghost stem_text = name@;
        name.append("_filtered_");
        name.append(timestamp);
        name.append(".csv");
        proof {
            reveal_strlit(".");
            reveal_strlit("_filtered_");
            reveal_strlit(".csv");
        }
        assert(dir@ == match path_parent(original@) { Some(p) => p, None => seq!['.'] });
        assert(name@ == stem_text + "_filtered_"@ + timestamp@ + ".csv"@);
        let r = join(dir.as_str(), name.as_str());
        proof {
            lemma_output_in_original_directory(original@, timestamp@);
            if no_slash(timestamp@) {
                if stem is Some {
                    let n = path_file_name(original@).unwrap();
                    assert(no_slash(stem_text)) by {
                        assert forall|i: int| 0 <= i < stem_text.len() implies stem_text[i] != '/' by {
                            assert(stem_text[i] == n[i]);
                        }
                    }
                }
                assert(no_slash(name@)) by {
                    assert forall|i: int| 0 <= i < name@.len() implies name@[i] != '/' by {
                        if i >= stem_text.len() + 10 && i < stem_text.len() + 10 + timestamp@.len() {
                            assert(name@[i] == timestamp@[i - stem_text.len() - 10]);
                        }
                    }
                }
                assert(plain_component(name@)) by {
                    assert(name@.len() >= 14);
                }
                assert(path_file_name(r@) == Some(name@));
                if let Some(n) = path_file_name(original@) {
                    let s = stem_text;
                    assert(stem_of_name(n, s));
                    if n == name@ {
                        if s.len() == n.len() {
                            assert(false);
                        } else {
                            assert(n[s.len() as int] == '.');
                            assert(name@[s.len() as int] == '_');
                        }
                    }
                }
                assert(path_file_name(r@) != path_file_name(original@));
            }
        }
        r
    }

    /// Create a fresh session: nothing processed, nothing pending.
    pub fn new(
        original_path: String,
        output_path: String,
        editable_cols: Vec<usize>,
        total_rows: usize,
        timestamp: String,
    ) -> (r: Self)
        ensures
            r.original_path == original_path,
            r.output_path == output_path,
            r.editable_cols == editable_cols,
            r.current_index == 0,
            r.total_rows == total_rows,
            r.saved_count == 0,
            r.discarded_count == 0,
            r.pending_edits@ == Map::<usize, String>::empty(),
            r.started_at == timestamp,
            r.last_activity == timestamp,
    {
        Session {
            original_path,
            output_path,
            editable_cols,
            current_index: 0,
            total_rows,
            saved_count: 0,
            discarded_count: 0,
            pending_edits: HashMap::new(),
            started_at: timestamp.clone(),
            last_activity: timestamp,
        }
    }

    /// The current time as a timestamp text (`YYYY-MM-DD_HH-MM-SS`, UTC).
    pub fn timestamp_now() -> (r: String)
        ensures
            exists|secs: u64| r@ == timestamp_text(secs as nat),
            no_slash(r@),
    {
        let secs = unix_seconds_now();
        proof {
            lemma_timestamp_no_slash(secs as nat);
        }
        format_timestamp(secs)
    }
}

/// The timestamp text of the moment `secs` seconds after 1970-01-01 00:00:00 UTC.
pub fn format_timestamp(secs: u64) -> (r: String)
    ensures
        r@ == timestamp_text(secs as nat),
{
    let days = secs / 86400;
    let time_of_day = secs % 86400;
    let hours = time_of_day / 3600;
    let minutes = (time_of_day % 3600) / 60;
    let seconds = time_of_day % 60;
    let (year, month, day) = days_to_ymd(days);
    let mut s = String::new();
    push_zero_padded(&mut s, year, 4);
    s.append("-");
    push_zero_padded(&mut s, month, 2);
    s.append("-");
    push_zero_padded(&mut s, day, 2);
    s.append("_");
    push_zero_padded(&mut s, hours, 2);
    s.append("-");
    push_zero_padded(&mut s, minutes, 2);
    s.append("-");
    push_zero_padded(&mut s, seconds, 2);
    proof {
        reveal_strlit("-");
        reveal_strlit("_");
    }
    assert(s@ =~= timestamp_text(secs as nat));
    s
}

/// Gregorian leap-year test.
pub fn is_leap(y: u64) -> (r: bool)
    ensures
        r == is_leap_year(y as int),
{
    (y % 4 == 0 && y % 100 != 0) || y % 400 == 0
}

/// Converts a count of days since 1970-01-01 into a `(year, month, day)` date.
pub fn days_to_ymd(days: u64) -> (r: (u64, u64, u64))
    ensures
        valid_date(r.0 as int, r.1 as int, r.2 as int),
        day_number(r.0 as int, r.1 as int, r.2 as int) == days as int,
        (r.0 as int, r.1 as int, r.2 as int) == date_of_day(days as nat),
{
    let mut rest: u64 = days;
    let mut year: u64 = 1970;
    loop
        invariant
            1970 <= year,
            days_before_year(year as int) + rest == days,
            365 * (year - 1970) + rest <= days,
        ensures
            1970 <= year,
            days_before_year(year as int) + rest == days,
            rest < year_length(year as int),
        decreases rest,
    {
        let year_days: u64 = if is_leap(year) { 366 } else { 365 };
        if rest < year_days {
            break;
        }
        rest = rest - year_days;
        year = year + 1;
    }
    let leap = is_leap(year);
    let month_days: [u64; 12] = [
        31,
        if leap { 29 } else { 28 },
        31,
        30,
        31,
        30,
        31,
        31,
        30,
        31,
        30,
        31,
    ];
    let ghost rest_of_year = rest;
    proof {
        lemma_months_fill_year(year as int);
    }
    let mut month: u64 = 1;
    let mut i: usize = 0;
    while i < 12
        invariant
            month == i + 1,
            i <= 12,
            days_before_month(year as int, month as int) + rest == rest_of_year,
            rest_of_year < year_length(year as int),
            days_before_month(year as int, 13) == year_length(year as int),
            forall|k: int| 0 <= k < 12 ==> month_days[k] == month_length(year as int, k + 1),
        ensures
            1 <= month <= 12,
            days_before_month(year as int, month as int) + rest == rest_of_year,
            rest < month_length(year as int, month as int),
        decreases 12 - i,
    {
        let md = month_days[i];
        if rest < md {
            break;
        }
        if i == 11 {
            // December cannot be exceeded: the days left lie within this year.
            assert(days_before_month(year as int, 13) == days_before_month(year as int, 12)
                + month_length(year as int, 12));
            assert(false);
        }
        rest = rest - md;
        month = month + 1;
        i = i + 1;
    }
    let r = (year, month, rest + 1);
    proof {
        lemma_date_of_day_number(r.0 as int, r.1 as int, r.2 as int);
    }
    r
}

} // verus!
