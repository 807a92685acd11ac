//! Reviewing records one at a time: what is shown, saved, discarded and kept.
use vstd::prelude::*;

use crate::csv::backend::copy_row;
use crate::csv::session::{output_path_of, Session};
use crate::text::{decimal, ends_with, no_slash, push_decimal};

verus! {

/// One column of the record on screen.
#[derive(Debug)]
pub struct FieldRow {
    /// Index of the column.
    pub col: usize,
    /// Label shown before the value; editable columns are marked `[*]`.
    pub label: String,
    /// Value shown (for an editable column, the pending edit if there is one).
    pub value: String,
    /// Whether the value can be edited.
    pub editable: bool,
}

/// What the record dialog shows.
#[derive(Debug)]
pub struct RecordScreen {
    pub title: String,
    pub stats: String,
    pub fields: Vec<FieldRow>,
    pub has_editable: bool,
}

/// The state of a review: the CSV data and the session's progress.
pub struct ViewerState {
    pub headers: Vec<String>,
    pub rows: Vec<Vec<String>>,
    pub session: Session,
}

/// Title of the dialog showing record `idx` (from 0) of `total`.
pub open spec fn title_text(idx: nat, total: nat) -> Seq<char> {
    "Displaying record no "@ + decimal(idx + 1) + " of "@ + decimal(total)
}

/// Status bar of the record dialog.
pub open spec fn stats_text(saved: nat, discarded: nat, remaining: nat) -> Seq<char> {
    "Saved: "@ + decimal(saved) + "  |  Discarded: "@ + decimal(discarded) + "  |  Remaining: "@
        + decimal(remaining)
}

/// Label of a column in the record dialog.
pub open spec fn field_label(header: Seq<char>, editable: bool) -> Seq<char> {
    if editable {
        "[*] "@ + header + ": "@
    } else {
        "    "@ + header + ": "@
    }
}

/// Value shown for column `col` of `row`: the pending edit of an editable column,
/// else the row's value, else nothing.
pub open spec fn shown_value(
    row: Seq<String>,
    pending: Map<usize, String>,
    col: usize,
    editable: bool,
) -> Seq<char> {
    if editable && pending.contains_key(col) {
        pending[col]@
    } else if col < row.len() {
        row[col as int]@
    } else {
        Seq::empty()
    }
}

/// `f` shows column `i` of the current record of `v`.
pub open spec fn shows_field(f: FieldRow, v: ViewerState, i: int) -> bool {
    let idx = v.session.current_index as int;
    &&& f.col == i
    &&& f.editable == v.session.editable_cols@.contains(i as usize)
    &&& f.label@ == field_label(v.headers@[i]@, f.editable)
    &&& f.value@ == shown_value(v.rows@[idx]@, v.session.pending_edits@, i as usize, f.editable)
}

/// `screen` shows the current record of `v`.
pub open spec fn shows_record(screen: RecordScreen, v: ViewerState) -> bool {
    let idx = v.session.current_index as nat;
    let total = v.rows@.len();
    &&& idx < total
    &&& screen.title@ == title_text(idx, total)
    &&& screen.stats@ == stats_text(
        v.session.saved_count as nat,
        v.session.discarded_count as nat,
        (total - idx) as nat,
    )
    &&& screen.has_editable == (v.session.editable_cols@.len() > 0)
    &&& screen.fields@.len() == v.headers@.len()
    &&& forall|i: int| 0 <= i < v.headers@.len() ==> shows_field(#[trigger] screen.fields@[i], v, i)
}

/// The edits read from the editable columns `cols`, whose on-screen values are
/// `values` (`None` where none could be read), in column order.
pub open spec fn collected(cols: Seq<usize>, values: Seq<Option<String>>) -> Seq<(usize, String)>
    decreases cols.len(),
{
    if cols.len() == 0 || values.len() == 0 {
        Seq::empty()
    } else {
        let rest = collected(cols.drop_last(), values.drop_last());
        match values.last() {
            Some(v) => rest.push((cols.last(), v)),
            None => rest,
        }
    }
}

/// `row` with `edits` applied in order; edits of columns past its end are ignored.
pub open spec fn apply_edits(row: Seq<String>, edits: Seq<(usize, String)>) -> Seq<String>
    decreases edits.len(),
{
    if edits.len() == 0 {
        row
    } else {
        let r = apply_edits(row, edits.drop_last());
        let e = edits.last();
        if e.0 < r.len() { r.update(e.0 as int, e.1) } else { r }
    }
}

/// The pending edits recorded from `edits`: a later edit of a column wins.
pub open spec fn edits_map(edits: Seq<(usize, String)>) -> Map<usize, String>
    decreases edits.len(),
{
    if edits.len() == 0 {
        Map::empty()
    } else {
        edits_map(edits.drop_last()).insert(edits.last().0, edits.last().1)
    }
}

/// `new` is `old` with the current record saved (`saved`) or discarded at time `now`.
pub open spec fn advanced(old: Session, new: Session, saved: bool, now: Seq<char>) -> bool {
    &&& new.original_path == old.original_path
    &&& new.output_path == old.output_path
    &&& new.editable_cols == old.editable_cols
    &&& new.total_rows == old.total_rows
    &&& new.started_at == old.started_at
    &&& new.current_index == old.current_index + 1
    &&& new.saved_count == old.saved_count + (if saved { 1int } else { 0int })
    &&& new.discarded_count == old.discarded_count + (if saved { 0int } else { 1int })
    &&& new.pending_edits@ == Map::<usize, String>::empty()
    &&& new.last_activity@ == now
}

/// `new` is `old` left with `edits` pending at time `now`.
pub open spec fn paused(old: Session, new: Session, edits: Seq<(usize, String)>, now: Seq<char>) -> bool {
    &&& new.original_path == old.original_path
    &&& new.output_path == old.output_path
    &&& new.editable_cols == old.editable_cols
    &&& new.total_rows == old.total_rows
    &&& new.started_at == old.started_at
    &&& new.current_index == old.current_index
    &&& new.saved_count == old.saved_count
    &&& new.discarded_count == old.discarded_count
    &&& new.pending_edits@ == edits_map(edits)
    &&& new.last_activity@ == now
}

/// Whether `cols` contains `c`.
fn contains_col(cols: &Vec<usize>, c: usize) -> (r: bool)
    ensures
        r == cols@.contains(c),
{
    let mut i: usize = 0;
    while i < cols.len()
        invariant
            i <= cols@.len(),
            forall|k: int| 0 <= k < i ==> cols@[k] != c,
        decreases cols@.len() - i,
    {
        if cols[i] == c {
            assert(cols@[i as int] == c);
            return true;
        }
        i = i + 1;
    }
    false
}

impl ViewerState {
    /// Starts reviewing the CSV file `path` with the given header and rows, at
    /// time `timestamp`. There is nothing to review when there are no rows.
    pub fn begin(
        path: String,
        headers: Vec<String>,
        rows: Vec<Vec<String>>,
        editable_cols: Vec<usize>,
        timestamp: String,
    ) -> (r: Option<ViewerState>)
        ensures
            r is None <==> rows@.len() == 0,
            r matches Some(v) ==> {
                &&& v.headers == headers
                &&& v.rows == rows
                &&& v.session.original_path == path
                &&& v.session.output_path@ == output_path_of(path@, timestamp@)
                &&& no_slash(timestamp@) ==> v.session.output_path@ != path@
                &&& v.session.editable_cols == editable_cols
                &&& v.session.current_index == 0
                &&& v.session.total_rows == rows@.len()
                &&& v.session.saved_count == 0
                &&& v.session.discarded_count == 0
                &&& v.session.pending_edits@ == Map::<usize, String>::empty()
                &&& v.session.started_at == timestamp
                &&& v.session.last_activity == timestamp
            },
    {
        if rows.len() == 0 {
            return None;
        }
        let output_path = Session::make_output_path(path.as_str(), timestamp.as_str());
        let total = rows.len();
        let session = Session::new(path, output_path, editable_cols, total, timestamp);
        Some(ViewerState { headers, rows, session })
    }

    /// Resumes a saved session over the CSV data read again. A session whose
    /// records have all been processed is handed back.
    pub fn resume(headers: Vec<String>, rows: Vec<Vec<String>>, session: Session) -> (r: Result<
        ViewerState,
        Session,
    >)
        ensures
            match r {
                Ok(v) => session.current_index < rows@.len() && v.headers == headers && v.rows == rows
                    && v.session == session,
                Err(s) => session.current_index >= rows@.len() && s == session,
            },
    {
        if session.current_index >= rows.len() {
            Err(session)
        } else {
            Ok(ViewerState { headers, rows, session })
        }
    }

    /// Whether every record has been saved or discarded.
    pub fn is_complete(&self) -> (r: bool)
        ensures
            r == (self.session.current_index >= self.rows@.len()),
    {
        self.session.current_index >= self.rows.len()
    }

    /// What the record dialog shows for the current record, if one is left.
    pub fn current_record(&self) -> (r: Option<RecordScreen>)
        ensures
            match r {
                None => self.session.current_index >= self.rows@.len(),
                Some(screen) => shows_record(screen, *self),
            },
    {
        let idx = self.session.current_index;
        let total = self.rows.len();
        if idx >= total {
            return None;
        }
        let mut title = String::from_str("Displaying record no ");
        push_decimal(&mut title, (idx + 1) as u64);
        title.append(" of ");
        push_decimal(&mut title, total as u64);

        let mut stats = String::from_str("Saved: ");
        push_decimal(&mut stats, self.session.saved_count as u64);
        stats.append("  |  Discarded: ");
        push_decimal(&mut stats, self.session.discarded_count as u64);
        stats.append("  |  Remaining: ");
        push_decimal(&mut stats, (total - idx) as u64);

        let row = &self.rows[idx];
        let mut fields: Vec<FieldRow> = Vec::new();
        let mut i: usize = 0;
        while i < self.headers.len()
            invariant
                idx == self.session.current_index,
                idx < self.rows@.len(),
                *row == self.rows@[idx as int],
                i <= self.headers@.len(),
                fields@.len() == i,
                forall|k: int| 0 <= k < i ==> shows_field(#[trigger] fields@[k], *self, k),
            decreases self.headers@.len() - i,
        {
            let editable = contains_col(&self.session.editable_cols, i);
            let mut label = if editable {
                String::from_str("[*] ")
            } else {
                String::from_str("    ")
            };
            label.append(self.headers[i].as_str());
            label.append(": ");
            let pending = if editable {
                self.session.pending_edits.get(&i)
            } else {
                None
            };
            let value = match pending {
                Some(v) => v.clone(),
                None => if i < row.len() {
                    row[i].clone()
                } else {
                    String::new()
                },
            };
            let f = FieldRow { col: i, label, value, editable };
            assert(shows_field(f, *self, i as int));
            fields.push(f);
            i = i + 1;
        }
        let has_editable = self.session.editable_cols.len() > 0;
        Some(RecordScreen { title, stats, fields, has_editable })
    }

    /// The edits on screen: for each editable column in order, its value if one
    /// could be read (`values` holds one entry per editable column).
    pub fn collect_edits(&self, values: Vec<Option<String>>) -> (r: Vec<(usize, String)>)
        requires
            values@.len() == self.session.editable_cols@.len(),
        ensures
            r@ == collected(self.session.editable_cols@, values@),
    {
        let cols = &self.session.editable_cols;
        let mut out: Vec<(usize, String)> = Vec::new();
        let mut i: usize = 0;
        while i < cols.len()
            invariant
                values@.len() == cols@.len(),
                i <= cols@.len(),
                out@ == collected(cols@.take(i as int), values@.take(i as int)),
            decreases cols@.len() - i,
        {
            assert(cols@.take(i + 1).drop_last() =~= cols@.take(i as int));
            assert(values@.take(i + 1).drop_last() =~= values@.take(i as int));
            match &values[i] {
                Some(v) => {
                    out.push((cols[i], v.clone()));
                },
                None => {},
            }
            i = i + 1;
        }
        assert(cols@.take(cols@.len() as int) =~= cols@);
        assert(values@.take(values@.len() as int) =~= values@);
        out
    }

    /// The row written to the output file when saving the current record:
    /// the original row with `edits` applied.
    pub fn output_row(&self, edits: &Vec<(usize, String)>) -> (r: Vec<String>)
        requires
            self.session.current_index < self.rows@.len(),
        ensures
            r@ == apply_edits(self.rows@[self.session.current_index as int]@, edits@),
    {
        let mut row = copy_row(&self.rows[self.session.current_index]);
        let ghost original = row@;
        let mut i: usize = 0;
        while i < edits.len()
            invariant
                i <= edits@.len(),
                row@ == apply_edits(original, edits@.take(i as int)),
            decreases edits@.len() - i,
        {
            assert(edits@.take(i + 1).drop_last() =~= edits@.take(i as int));
            let col = edits[i].0;
            if col < row.len() {
                row.set(col, edits[i].1.clone());
            }
            i = i + 1;
        }
        assert(edits@.take(edits@.len() as int) =~= edits@);
        row
    }

    /// Records that the current record was written to the output file, at time `now`.
    pub fn record_saved(&mut self, now: String)
        requires
            old(self).session.current_index < old(self).rows.len(),
            old(self).session.saved_count < usize::MAX,
        ensures
            final(self).headers == old(self).headers,
            final(self).rows == old(self).rows,
            advanced(old(self).session, final(self).session, true, now@),
    {
        self.session.saved_count = self.session.saved_count + 1;
        self.session.current_index = self.session.current_index + 1;
        self.session.pending_edits.clear();
        self.session.last_activity = now;
    }

    /// Moves on after an attempt to append the current record to the output file:
    /// a successful append counts the record as saved at time `now`, a failed one
    /// leaves the review where it was. Returns whether the review moved on.
    pub fn after_append(&mut self, appended: &Result<(), String>, now: String) -> (moved: bool)
        requires
            appended is Ok ==> old(self).session.current_index < old(self).rows.len()
                && old(self).session.saved_count < usize::MAX,
        ensures
            moved == appended is Ok,
            final(self).headers == old(self).headers,
            final(self).rows == old(self).rows,
            moved ==> advanced(old(self).session, final(self).session, true, now@),
            !moved ==> final(self).session == old(self).session,
    {
        match appended {
            Ok(()) => {
                self.record_saved(now);
                true
            },
            Err(_) => false,
        }
    }

    /// Records that the current record was skipped, at time `now`.
    pub fn record_discarded(&mut self, now: String)
        requires
            old(self).session.current_index < usize::MAX,
            old(self).session.discarded_count < usize::MAX,
        ensures
            final(self).headers == old(self).headers,
            final(self).rows == old(self).rows,
            advanced(old(self).session, final(self).session, false, now@),
    {
        self.session.discarded_count = self.session.discarded_count + 1;
        self.session.current_index = self.session.current_index + 1;
        self.session.pending_edits.clear();
        self.session.last_activity = now;
    }

    /// Keeps `edits` as the pending edits of the current record and pauses, at time `now`.
    pub fn pause(&mut self, edits: Vec<(usize, String)>, now: String)
        ensures
            final(self).headers == old(self).headers,
            final(self).rows == old(self).rows,
            paused(old(self).session, final(self).session, edits@, now@),
    {
        self.session.pending_edits.clear();
        let mut i: usize = 0;
        while i < edits.len()
            invariant
                i <= edits@.len(),
                self.headers == old(self).headers,
                self.rows == old(self).rows,
                self.session.original_path == old(self).session.original_path,
                self.session.output_path == old(self).session.output_path,
                self.session.editable_cols == old(self).session.editable_cols,
                self.session.total_rows == old(self).session.total_rows,
                self.session.started_at == old(self).session.started_at,
                self.session.current_index == old(self).session.current_index,
                self.session.saved_count == old(self).session.saved_count,
                self.session.discarded_count == old(self).session.discarded_count,
                self.session.pending_edits@ == edits_map(edits@.take(i as int)),
            decreases edits@.len() - i,
        {
            assert(edits@.take(i + 1).drop_last() =~= edits@.take(i as int));
            self.session.pending_edits.insert(edits[i].0, edits[i].1.clone());
            i = i + 1;
        }
        assert(edits@.take(edits@.len() as int) =~= edits@);
        self.session.last_activity = now;
    }
}

/// The summary shown once every record has been processed.
pub open spec fn completion_text(session: Session, completed_at: Seq<char>) -> Seq<char> {
    "All records have been processed!\n\nTotal records:  "@ + decimal(session.total_rows as nat)
        + "\nSaved:          "@ + decimal(session.saved_count as nat) + "\nDiscarded:      "@
        + decimal(session.discarded_count as nat) + "\n\nOutput file:\n  "@ + session.output_path@
        + "\n\nSession started: "@ + session.started_at@ + "\nCompleted:       "@ + completed_at
}

/// The summary shown once every record of `session` has been processed, at `completed_at`.
pub fn completion_message(session: &Session, completed_at: &str) -> (r: String)
    ensures
        r@ == completion_text(*session, completed_at@),
{
    let mut s = String::from_str("All records have been processed!\n\nTotal records:  ");
    push_decimal(&mut s, session.total_rows as u64);
    s.append("\nSaved:          ");
    push_decimal(&mut s, session.saved_count as u64);
    s.append("\nDiscarded:      ");
    push_decimal(&mut s, session.discarded_count as u64);
    s.append("\n\nOutput file:\n  ");
    s.append(session.output_path.as_str());
    s.append("\n\nSession started: ");
    s.append(session.started_at.as_str());
    s.append("\nCompleted:       ");
    s.append(completed_at);
    s
}

/// The status bar's Remaining figure counts the records not yet saved or
/// discarded: the bar ends with `Remaining: ` and the number of rows from the
/// current record to the last, whatever the split between saved and discarded.
pub proof fn lemma_remaining_counts_unprocessed_records(screen: RecordScreen, v: ViewerState)
    requires
        shows_record(screen, v),
    ensures
        ends_with(
            screen.stats@,
            "  |  Remaining: "@ + decimal((v.rows@.len() - v.session.current_index) as nat),
        ),
        v.session.current_index < v.rows@.len(),
{
    let tail = "  |  Remaining: "@ + decimal((v.rows@.len() - v.session.current_index) as nat);
    let head = "Saved: "@ + decimal(v.session.saved_count as nat) + "  |  Discarded: "@ + decimal(
        v.session.discarded_count as nat,
    );
    assert(screen.stats@ =~= head + tail);
    assert((head + tail).subrange((head + tail).len() - tail.len(), (head + tail).len() as int)
        =~= tail);
}

/// The record dialog shows the current record as it is in the file, except where
/// an edit is pending in an editable column: each column's value is the record's
/// field (empty past the record's end), or the pending edit; its title counts the
/// record from one, out of all rows.
pub proof fn lemma_screen_shows_current_record(screen: RecordScreen, v: ViewerState, i: int)
    requires
        shows_record(screen, v),
        0 <= i < v.headers@.len(),
    ensures
        ({
            let row = v.rows@[v.session.current_index as int]@;
            let f = screen.fields@[i];
            let pending = v.session.pending_edits@;
            &&& f.col == i
            &&& f.editable <==> v.session.editable_cols@.contains(i as usize)
            &&& f.editable && pending.contains_key(i as usize) ==> f.value@ == pending[i as usize]@
            &&& !(f.editable && pending.contains_key(i as usize)) && i < row.len() ==> f.value@
                == row[i]@
            &&& !(f.editable && pending.contains_key(i as usize)) && i >= row.len() ==> f.value@.len()
                == 0
            &&& ends_with(f.label@, v.headers@[i]@ + ": "@)
        }),
        ends_with(screen.title@, " of "@ + decimal(v.rows@.len())),
        screen.title@.subrange(0, 21) == "Displaying record no "@,
{
    let f = screen.fields@[i];
    assert(shows_field(f, v, i));
    let tail = v.headers@[i]@ + ": "@;
    let lead = if f.editable { "[*] "@ } else { "    "@ };
    assert(f.label@ =~= lead + tail);
    assert((lead + tail).subrange((lead + tail).len() - tail.len(), (lead + tail).len() as int)
        =~= tail);
    let t_tail = " of "@ + decimal(v.rows@.len());
    let t_head = "Displaying record no "@ + decimal(v.session.current_index as nat + 1);
    assert(screen.title@ =~= t_head + t_tail);
    assert((t_head + t_tail).subrange((t_head + t_tail).len() - t_tail.len(), (t_head
        + t_tail).len() as int) =~= t_tail);
    reveal_strlit("Displaying record no ");
    assert(screen.title@.subrange(0, 21) =~= "Displaying record no "@);
}

/// No column occurs twice in `cols`.
pub open spec fn distinct_cols(cols: Seq<usize>) -> bool {
    forall|a: int, b: int| 0 <= a < b < cols.len() ==> cols[a] != cols[b]
}

/// Applying edits keeps the number of fields.
proof fn lemma_apply_edits_len(row: Seq<String>, edits: Seq<(usize, String)>)
    ensures
        apply_edits(row, edits).len() == row.len(),
    decreases edits.len(),
{
    if edits.len() > 0 {
        lemma_apply_edits_len(row, edits.drop_last());
    }
}

/// A field that no edit names keeps its value.
proof fn lemma_apply_edits_untouched(row: Seq<String>, edits: Seq<(usize, String)>, j: int)
    requires
        0 <= j < row.len(),
        forall|k: int| 0 <= k < edits.len() ==> #[trigger] edits[k].0 != j,
    ensures
        apply_edits(row, edits)[j] == row[j],
    decreases edits.len(),
{
    if edits.len() > 0 {
        assert(edits.last() == edits[edits.len() - 1]);
        lemma_apply_edits_untouched(row, edits.drop_last(), j);
        lemma_apply_edits_len(row, edits.drop_last());
    }
}

/// Every collected edit names one of the editable columns.
proof fn lemma_collected_columns(cols: Seq<usize>, values: Seq<Option<String>>)
    requires
        values.len() == cols.len(),
    ensures
        forall|k: int| 0 <= k < collected(cols, values).len()
            ==> cols.contains(#[trigger] collected(cols, values)[k].0),
    decreases cols.len(),
{
    if cols.len() > 0 {
        let rest = collected(cols.drop_last(), values.drop_last());
        lemma_collected_columns(cols.drop_last(), values.drop_last());
        assert forall|k: int| 0 <= k < collected(cols, values).len()
            implies cols.contains(#[trigger] collected(cols, values)[k].0) by {
            if k < rest.len() {
                let c = rest[k].0;
                let w = choose|w: int| 0 <= w < cols.drop_last().len() && cols.drop_last()[w] == c;
                assert(cols[w] == c);
            } else {
                assert(cols[cols.len() - 1] == cols.last());
            }
        }
    }
}

/// The value read for an editable column is the last edit collected for it.
proof fn lemma_collected_value(
    row: Seq<String>,
    cols: Seq<usize>,
    values: Seq<Option<String>>,
    k: int,
)
    requires
        values.len() == cols.len(),
        distinct_cols(cols),
        0 <= k < cols.len(),
        values[k] is Some,
        cols[k] < row.len(),
    ensures
        apply_edits(row, collected(cols, values))[cols[k] as int] == values[k].unwrap(),
        edits_map(collected(cols, values)).contains_key(cols[k]),
        edits_map(collected(cols, values))[cols[k]] == values[k].unwrap(),
    decreases cols.len(),
{
    let n = cols.len() - 1;
    let rest = collected(cols.drop_last(), values.drop_last());
    lemma_apply_edits_len(row, rest);
    assert(cols.last() == cols[n] && values.last() == values[n]);
    let edits = collected(cols, values);
    let r = apply_edits(row, rest);
    if k < n {
        assert(cols.drop_last()[k] == cols[k] && values.drop_last()[k] == values[k]);
        lemma_collected_value(row, cols.drop_last(), values.drop_last(), k);
        assert(cols[n] != cols[k]);
        match values.last() {
            Some(v) => {
                assert(edits == rest.push((cols.last(), v)));
                assert(edits.drop_last() =~= rest);
                assert(apply_edits(row, edits) == (if cols[n] < r.len() {
                    r.update(cols[n] as int, v)
                } else {
                    r
                }));
            },
            None => {
                assert(edits == rest);
            },
        }
    } else {
        let v = values[k].unwrap();
        assert(edits == rest.push((cols.last(), v)));
        assert(edits.drop_last() =~= rest);
        assert(apply_edits(row, edits) == r.update(cols[n] as int, v));
    }
}

/// Saving writes the original record with only its editable columns changed:
/// every other column keeps its value, and each editable column whose value
/// was read holds that value.
pub proof fn lemma_saved_row_changes_only_editable_columns(
    row: Seq<String>,
    cols: Seq<usize>,
    values: Seq<Option<String>>,
)
    requires
        values.len() == cols.len(),
        distinct_cols(cols),
    ensures
        apply_edits(row, collected(cols, values)).len() == row.len(),
        forall|j: int|
            0 <= j < row.len() && !cols.contains(j as usize)
                ==> #[trigger] apply_edits(row, collected(cols, values))[j] == row[j],
        forall|k: int|
            0 <= k < cols.len() && values[k] is Some && cols[k] < row.len()
                ==> apply_edits(row, collected(cols, values))[#[trigger] cols[k] as int]
                == values[k].unwrap(),
{
    let edits = collected(cols, values);
    lemma_apply_edits_len(row, edits);
    lemma_collected_columns(cols, values);
    assert forall|j: int| 0 <= j < row.len() && !cols.contains(j as usize)
        implies #[trigger] apply_edits(row, edits)[j] == row[j] by {
        assert forall|k: int| 0 <= k < edits.len() implies #[trigger] edits[k].0 != j by {
            assert(cols.contains(edits[k].0));
        }
        lemma_apply_edits_untouched(row, edits, j);
    }
    assert forall|k: int| 0 <= k < cols.len() && values[k] is Some && cols[k] < row.len()
        implies apply_edits(row, edits)[#[trigger] cols[k] as int] == values[k].unwrap() by {
        lemma_collected_value(row, cols, values, k);
    }
}

/// Pausing keeps what was typed: resuming the paused session shows, in each
/// editable column whose value was read, that value again, at the same record.
pub proof fn lemma_pause_then_resume_shows_typed_values(
    before: Session,
    after: Session,
    row: Seq<String>,
    values: Seq<Option<String>>,
    now: Seq<char>,
    k: int,
)
    requires
        values.len() == before.editable_cols@.len(),
        distinct_cols(before.editable_cols@),
        paused(before, after, collected(before.editable_cols@, values), now),
        0 <= k < values.len(),
        values[k] is Some,
    ensures
        after.current_index == before.current_index,
        after.editable_cols@.contains(before.editable_cols@[k]),
        shown_value(row, after.pending_edits@, before.editable_cols@[k], true)
            == values[k].unwrap()@,
{
    let cols = before.editable_cols@;
    let filler = Seq::new((cols[k] + 1) as nat, |i: int| values[k].unwrap());
    lemma_collected_value(filler, cols, values, k);
    assert(after.editable_cols@[k] == cols[k]);
}

/// Every step of a review accounts for each processed record exactly once:
/// saving or discarding moves on by one record and counts it in one tally,
/// pausing moves nothing; so `saved + discarded == current index` is kept.
pub proof fn lemma_tallies_follow_progress(
    before: Session,
    after: Session,
    saved: bool,
    edits: Seq<(usize, String)>,
    now: Seq<char>,
)
    requires
        before.saved_count + before.discarded_count == before.current_index,
        advanced(before, after, saved, now) || paused(before, after, edits, now),
    ensures
        after.saved_count + after.discarded_count == after.current_index,
        after.current_index == before.current_index || after.current_index
            == before.current_index + 1,
{
}

} // verus!
