//! Reading and writing CSV data, delegated to the `csv` crate.
//!
//! Files are read and written by the caller; this module works on their contents.
use vstd::prelude::*;

use crate::paths::{path_relative_to, relative_to};
use crate::text::{decimal, push_decimal};

verus! {

/// Metadata about a discovered CSV file.
#[derive(Debug, Clone)]
pub struct CsvFile {
    /// Path to the file.
    pub path: String,
    /// File size in bytes.
    pub size_bytes: u64,
    /// Number of data records (the header excluded).
    pub row_count: usize,
}

/// The header record that a `csv::Reader` (headers expected, flexible record
/// lengths) reads from `contents`, or the text of its error.
pub uninterp spec fn csv_header_record(contents: Seq<u8>) -> Result<Seq<Seq<char>>, Seq<char>>;

/// The data records, in order, that the same reader's `records()` yields from
/// `contents`: each the record's fields or the text of its error.
pub uninterp spec fn csv_data_records(contents: Seq<u8>) -> Seq<Result<Seq<Seq<char>>, Seq<char>>>;

/// What a `csv::Writer` (record lengths checked, no automatic header) holds after being handed `records`
/// one by one until the first refused one: the bytes it would flush, and the index
/// and error text of the refused record, if any.
pub uninterp spec fn csv_write_outcome(records: Seq<Seq<Seq<char>>>) -> (Seq<u8>, Option<(nat, Seq<char>)>);

/// The texts of a sequence of strings.
pub open spec fn texts(v: Seq<String>) -> Seq<Seq<char>> {
    v.map_values(|s: String| s@)
}

/// The texts of a sequence of rows.
pub open spec fn rows_texts(v: Seq<Vec<String>>) -> Seq<Seq<Seq<char>>> {
    v.map_values(|r: Vec<String>| texts(r@))
}

/// The text form of a record read by the `csv` crate.
pub open spec fn record_text(r: Result<Vec<String>, String>) -> Result<Seq<Seq<char>>, Seq<char>> {
    match r {
        Ok(fields) => Ok(texts(fields@)),
        Err(e) => Err(e@),
    }
}

/// The text form of a refusal reported by the `csv` writer.
pub open spec fn refusal_text(f: Option<(usize, String)>) -> Option<(nat, Seq<char>)> {
    match f {
        Some((k, e)) => Some((k as nat, e@)),
        None => None,
    }
}

/// The writer refuses exactly the first record whose number of fields differs
/// from that of the first record.
pub open spec fn refuses_first_mismatch(
    records: Seq<Seq<Seq<char>>>,
    failure: Option<(nat, Seq<char>)>,
) -> bool {
    match failure {
        None => forall|i: int| 0 < i < records.len() ==> #[trigger] records[i].len() == records[0].len(),
        Some((k, _)) => {
            &&& 0 < k < records.len()
            &&& records[k as int].len() != records[0].len()
            &&& forall|i: int| 0 < i < k ==> #[trigger] records[i].len() == records[0].len()
        },
    }
}

/// Calls `csv::Reader::headers` on a reader over `contents` (headers expected, flexible
/// lengths); claims that the fields, or the error's text, are what `csv_header_record` names.
#[verifier::external_body]
fn read_header_record(contents: &[u8]) -> (r: Result<Vec<String>, String>)
    ensures
        record_text(r) == csv_header_record(contents@),
{
    let mut rdr = ::csv::ReaderBuilder::new().has_headers(true).flexible(true).from_reader(contents);
    match rdr.headers() {
        Ok(h) => Ok(h.iter().map(|f| f.to_string()).collect()),
        Err(e) => Err(e.to_string()),
    }
}

/// Collects `csv::Reader::records` of a reader over `contents` (headers expected, flexible
/// lengths); claims that the records, or their errors' texts, are what `csv_data_records` names.
#[verifier::external_body]
fn read_data_records(contents: &[u8]) -> (r: Vec<Result<Vec<String>, String>>)
    ensures
        r@.map_values(|x: Result<Vec<String>, String>| record_text(x)) == csv_data_records(contents@),
{
    let mut rdr = ::csv::ReaderBuilder::new().has_headers(true).flexible(true).from_reader(contents);
    rdr.records()
        .map(|r| r.map(|rec| rec.iter().map(|f| f.to_string()).collect()).map_err(|e| e.to_string()))
        .collect()
}

/// Calls `csv::Writer::write_record` on a fresh writer into memory for each of `records`
/// until one is refused, then `flush`. Claims that the bytes and the refusal are what
/// `csv_write_outcome` names, and, as the writer's source shows (a writer that is not
/// flexible checks field counts; writing into a `Vec` never fails), that the record
/// refused, if any, is the first whose field count differs from the first record's.
#[verifier::external_body]
fn write_records(records: &Vec<Vec<String>>) -> (r: (Vec<u8>, Option<(usize, String)>))
    ensures
        (r.0@, refusal_text(r.1)) == csv_write_outcome(rows_texts(records@)),
        refuses_first_mismatch(rows_texts(records@), refusal_text(r.1)),
{
    let mut wtr = ::csv::WriterBuilder::new().has_headers(false).from_writer(Vec::new());
    let mut refused = None;
    for (k, rec) in records.iter().enumerate() {
        if let Err(e) = wtr.write_record(rec) {
            refused = Some((k, e.to_string()));
            break;
        }
    }
    let _ = wtr.flush();
    (wtr.get_ref().clone(), refused)
}

/// The fields of `record` at the indexes `cols`, in that order; indexes past the
/// end of the record are skipped.
pub open spec fn select_fields(record: Seq<Seq<char>>, cols: Seq<usize>) -> Seq<Seq<char>>
    decreases cols.len(),
{
    if cols.len() == 0 {
        Seq::empty()
    } else {
        let rest = select_fields(record, cols.drop_last());
        let c = cols.last();
        if c < record.len() { rest.push(record[c as int]) } else { rest }
    }
}

/// The row kept from `record`: all of it, or the selected columns.
pub open spec fn row_of(record: Seq<Seq<char>>, cols: Option<Seq<usize>>) -> Seq<Seq<char>> {
    match cols {
        Some(c) => select_fields(record, c),
        None => record,
    }
}

/// The rows kept from `records`, or the error text of the first record that failed.
pub open spec fn gather_rows(
    records: Seq<Result<Seq<Seq<char>>, Seq<char>>>,
    cols: Option<Seq<usize>>,
) -> Result<Seq<Seq<Seq<char>>>, Seq<char>>
    decreases records.len(),
{
    if records.len() == 0 {
        Ok(Seq::empty())
    } else {
        match gather_rows(records.drop_last(), cols) {
            Err(e) => Err(e),
            Ok(rows) => match records.last() {
                Err(e) => Err(e),
                Ok(rec) => Ok(rows.push(row_of(rec, cols))),
            },
        }
    }
}

/// What reading the data rows of the CSV file `path` with contents `contents` gives.
pub open spec fn read_rows_result(
    path: Seq<char>,
    contents: Seq<u8>,
    cols: Option<Seq<usize>>,
) -> Result<Seq<Seq<Seq<char>>>, Seq<char>> {
    match gather_rows(csv_data_records(contents), cols) {
        Ok(rows) => Ok(rows),
        Err(e) => Err("Error reading CSV "@ + path + ": "@ + e),
    }
}

/// What reading the header of the CSV file `path` with contents `contents` gives.
pub open spec fn read_header_result(path: Seq<char>, contents: Seq<u8>) -> Result<Seq<Seq<char>>, Seq<char>> {
    match csv_header_record(contents) {
        Ok(h) => Ok(h),
        Err(e) => Err("Failed to read headers from "@ + path + ": "@ + e),
    }
}

/// The text form of a list of rows, or of an error message.
pub open spec fn rows_result_text(r: Result<Vec<Vec<String>>, String>) -> Result<Seq<Seq<Seq<char>>>, Seq<char>> {
    match r {
        Ok(rows) => Ok(rows_texts(rows@)),
        Err(e) => Err(e@),
    }
}

/// The text form of a header record, or of an error message.
pub open spec fn header_result_text(r: Result<Vec<String>, String>) -> Result<Seq<Seq<char>>, Seq<char>> {
    match r {
        Ok(h) => Ok(texts(h@)),
        Err(e) => Err(e@),
    }
}

/// The columns of `cols` that lie inside a record of `n` fields, in selection order.
pub open spec fn in_range_cols(cols: Seq<usize>, n: nat) -> Seq<usize> {
    cols.filter(|c: usize| c < n)
}

/// `row` is what reading `record` gives: the record's fields, all of them unchanged
/// without a selection `cols`, else the field at each in-range selected index, in
/// selection order.
pub open spec fn row_reads_record(
    row: Seq<Seq<char>>,
    record: Result<Seq<Seq<char>>, Seq<char>>,
    cols: Option<Seq<usize>>,
) -> bool {
    match record {
        Err(_) => false,
        Ok(rec) => match cols {
            None => row == rec,
            Some(c) => {
                &&& row.len() == in_range_cols(c, rec.len()).len()
                &&& forall|k: int| 0 <= k < row.len() ==> #[trigger] row[k] == rec[in_range_cols(
                    c,
                    rec.len(),
                )[k] as int]
            },
        },
    }
}

/// Selecting columns keeps, in selection order, the field at every selected index
/// inside the record, whatever indexes before it were skipped: the row is the
/// in-range indexes mapped to their fields.
pub proof fn lemma_selected_fields_are_the_in_range_columns(record: Seq<Seq<char>>, cols: Seq<usize>)
    ensures
        select_fields(record, cols).len() == in_range_cols(cols, record.len()).len(),
        forall|k: int|
            0 <= k < select_fields(record, cols).len() ==> #[trigger] select_fields(record, cols)[k]
                == record[in_range_cols(cols, record.len())[k] as int],
    decreases cols.len(),
{
    reveal_with_fuel(Seq::<_>::filter, 1);
    if cols.len() > 0 {
        lemma_selected_fields_are_the_in_range_columns(record, cols.drop_last());
        let kept = in_range_cols(cols, record.len());
        let before = in_range_cols(cols.drop_last(), record.len());
        let rest = select_fields(record, cols.drop_last());
        assert(kept == (if cols.last() < record.len() { before.push(cols.last()) } else { before }));
        if cols.last() < record.len() {
            assert forall|k: int| 0 <= k < rest.len() + 1 implies #[trigger] rest.push(
                record[cols.last() as int],
            )[k] == record[kept[k] as int] by {
                if k < rest.len() {
                    assert(kept[k] == before[k]);
                }
            }
        }
    }
}

/// Reading record by record: the rows come out when every record is readable,
/// one row per record, each the whole record (no selection) or its in-range
/// selected columns.
pub proof fn lemma_rows_follow_records(
    records: Seq<Result<Seq<Seq<char>>, Seq<char>>>,
    cols: Option<Seq<usize>>,
)
    ensures
        gather_rows(records, cols) is Ok <==> forall|i: int| 0 <= i < records.len() ==> #[trigger] records[i] is Ok,
        gather_rows(records, cols) matches Ok(rows) ==> {
            &&& rows.len() == records.len()
            &&& forall|i: int| 0 <= i < records.len() ==> row_reads_record(rows[i], #[trigger] records[i], cols)
        },
    decreases records.len(),
{
    if records.len() > 0 {
        let init = records.drop_last();
        lemma_rows_follow_records(init, cols);
        assert forall|i: int| 0 <= i < init.len() implies #[trigger] init[i] == records[i] by {}
        if let Ok(rec) = records.last() {
            if let Some(c) = cols {
                lemma_selected_fields_are_the_in_range_columns(rec, c);
            }
        }
        if gather_rows(records, cols) is Ok {
            assert(gather_rows(init, cols) is Ok);
        }
        if forall|i: int| 0 <= i < records.len() ==> #[trigger] records[i] is Ok {
            assert forall|i: int| 0 <= i < init.len() implies #[trigger] init[i] is Ok by {
                assert(records[i] is Ok);
            }
            assert(records[records.len() - 1] is Ok);
        }
        if let Ok(rows) = gather_rows(records, cols) {
            let prev = gather_rows(init, cols)->Ok_0;
            assert(rows == prev.push(row_of(records.last()->Ok_0, cols)));
            assert forall|i: int| 0 <= i < records.len() implies row_reads_record(rows[i], #[trigger] records[i], cols) by {
                if i < init.len() {
                    assert(init[i] == records[i]);
                    assert(rows[i] == prev[i]);
                } else {
                    assert(records[i] == records.last());
                }
            }
        }
    }
}

/// What reading a CSV file gives, record by record: `Ok` exactly when every data
/// record is readable, with one row per record holding the record's fields (all
/// of them, unchanged, without a selection; the in-range selected ones, in
/// selection order, with one).
pub proof fn lemma_read_rows_by_record(path: Seq<char>, contents: Seq<u8>, cols: Option<Seq<usize>>)
    ensures
        read_rows_result(path, contents, cols) is Ok <==> forall|i: int|
            0 <= i < csv_data_records(contents).len() ==> #[trigger] csv_data_records(contents)[i] is Ok,
        read_rows_result(path, contents, cols) matches Ok(rows) ==> {
            let recs = csv_data_records(contents);
            &&& rows.len() == recs.len()
            &&& forall|i: int| 0 <= i < recs.len() ==> row_reads_record(rows[i], #[trigger] recs[i], cols)
        },
{
    lemma_rows_follow_records(csv_data_records(contents), cols);
}

/// Once a record has failed, reading further records does not change the outcome.
proof fn lemma_gather_error_sticks(
    records: Seq<Result<Seq<Seq<char>>, Seq<char>>>,
    cols: Option<Seq<usize>>,
    n: int,
    m: int,
)
    requires
        0 <= n <= m <= records.len(),
        gather_rows(records.take(n), cols) is Err,
    ensures
        gather_rows(records.take(m), cols) == gather_rows(records.take(n), cols),
    decreases m - n,
{
    if m > n {
        lemma_gather_error_sticks(records, cols, n, m - 1);
        assert(records.take(m).drop_last() =~= records.take(m - 1));
    }
}

/// A copy of a row.
pub fn copy_row(row: &Vec<String>) -> (r: Vec<String>)
    ensures
        r@ == row@,
{
    let mut out: Vec<String> = Vec::new();
    let mut i: usize = 0;
    while i < row.len()
        invariant
            i <= row@.len(),
            out@ == row@.take(i as int),
        decreases row@.len() - i,
    {
        out.push(row[i].clone());
        assert(out@ =~= row@.take(i + 1));
        i = i + 1;
    }
    assert(row@.take(row@.len() as int) =~= row@);
    out
}

/// The fields of `record` at the indexes `cols`, skipping indexes past its end.
fn select_columns(record: &Vec<String>, cols: &[usize]) -> (r: Vec<String>)
    ensures
        texts(r@) == select_fields(texts(record@), cols@),
{
    let mut out: Vec<String> = Vec::new();
    let mut i: usize = 0;
    while i < cols.len()
        invariant
            i <= cols@.len(),
            texts(out@) == select_fields(texts(record@), cols@.take(i as int)),
        decreases cols@.len() - i,
    {
        let c = cols[i];
        assert(cols@.take(i + 1).drop_last() =~= cols@.take(i as int));
        if c < record.len() {
            out.push(record[c].clone());
            assert(texts(out@) =~= select_fields(texts(record@), cols@.take(i as int)).push(record@[c as int]@));
        }
        i = i + 1;
    }
    assert(cols@.take(cols@.len() as int) =~= cols@);
    out
}

/// Reads the data rows (the header excluded) of the CSV file `path`, whose
/// contents are `contents`, keeping all columns or only `selected_cols`.
/// Fails with the error of the first record that cannot be read.
pub fn read_rows(path: &str, contents: &[u8], selected_cols: Option<&[usize]>) -> (r: Result<
    Vec<Vec<String>>,
    String,
>)
    ensures
        rows_result_text(r) == read_rows_result(
            path@,
            contents@,
            match selected_cols {
                Some(c) => Some(c@),
                None => None,
            },
        ),
{
    let ghost cols = match selected_cols {
        Some(c) => Some(c@),
        None => None,
    };
    let records = read_data_records(contents);
    let ghost recs = records@.map_values(|x: Result<Vec<String>, String>| record_text(x));
    let mut rows: Vec<Vec<String>> = Vec::new();
    let mut i: usize = 0;
    assert(recs.take(0) =~= Seq::<Result<Seq<Seq<char>>, Seq<char>>>::empty());
    assert(rows_texts(rows@) =~= Seq::<Seq<Seq<char>>>::empty());
    while i < records.len()
        invariant
            i <= records@.len(),
            recs == records@.map_values(|x: Result<Vec<String>, String>| record_text(x)),
            recs == csv_data_records(contents@),
            cols == match selected_cols {
                Some(c) => Some(c@),
                None => None,
            },
            gather_rows(recs.take(i as int), cols) == Ok::<_, Seq<char>>(rows_texts(rows@)),
        decreases records@.len() - i,
    {
        assert(recs.take(i + 1).drop_last() =~= recs.take(i as int));
        assert(recs.take(i + 1).last() == record_text(records@[i as int]));
        match &records[i] {
            Err(e) => {
                proof {
                    lemma_gather_error_sticks(recs, cols, i + 1, recs.len() as int);
                    assert(recs.take(recs.len() as int) =~= recs);
                }
                let mut msg = String::from_str("Error reading CSV ");
                msg.append(path);
                msg.append(": ");
                msg.append(e.as_str());
                return Err(msg);
            },
            Ok(fields) => {
                let row = match selected_cols {
                    Some(c) => select_columns(fields, c),
                    None => copy_row(fields),
                };
                assert(texts(row@) == row_of(texts(fields@), cols));
                let ghost prev = rows@;
                rows.push(row);
                assert(rows_texts(rows@) =~= rows_texts(prev).push(texts(row@)));
            },
        }
        i = i + 1;
    }
    assert(recs.take(records@.len() as int) =~= recs);
    Ok(rows)
}

/// Reads all data rows, every column kept.
pub fn read_all_rows(path: &str, contents: &[u8]) -> (r: Result<Vec<Vec<String>>, String>)
    ensures
        rows_result_text(r) == read_rows_result(path@, contents@, None),
{
    read_rows(path, contents, None)
}

/// Reads the header row of the CSV file `path`, whose contents are `contents`.
pub fn read_header(path: &str, contents: &[u8]) -> (r: Result<Vec<String>, String>)
    ensures
        header_result_text(r) == read_header_result(path@, contents@),
{
    match read_header_record(contents) {
        Ok(h) => Ok(h),
        Err(e) => {
            let mut msg = String::from_str("Failed to read headers from ");
            msg.append(path);
            msg.append(": ");
            msg.append(e.as_str());
            Err(msg)
        },
    }
}

/// Describes the CSV file `path` of `size_bytes` bytes whose contents are
/// `contents`: its row count counts every data record, readable or not.
pub fn inspect_contents(path: String, size_bytes: u64, contents: &[u8]) -> (r: CsvFile)
    ensures
        r.path == path,
        r.size_bytes == size_bytes,
        r.row_count == csv_data_records(contents@).len(),
{
    let records = read_data_records(contents);
    CsvFile { path, size_bytes, row_count: records.len() }
}

/// The records written when appending `row` to an output file: the header comes
/// first when the file does not exist yet.
pub open spec fn appended_records(file_exists: bool, headers: Seq<Seq<char>>, row: Seq<Seq<char>>) -> Seq<
    Seq<Seq<char>>,
> {
    if file_exists { seq![row] } else { seq![headers, row] }
}

/// What appending `row` to an output file does: the bytes that go to the end of
/// the file, and the outcome.
pub open spec fn append_outcome(file_exists: bool, headers: Seq<Seq<char>>, row: Seq<Seq<char>>) -> (Seq<
    u8,
>, Result<(), Seq<char>>) {
    let written = csv_write_outcome(appended_records(file_exists, headers, row));
    (written.0, match written.1 {
        None => Ok(()),
        Some((k, e)) => if !file_exists && k == 0 {
            Err("Failed to write header: "@ + e)
        } else {
            Err("Failed to write row: "@ + e)
        },
    })
}

/// The text form of an outcome.
pub open spec fn unit_result_text(r: Result<(), String>) -> Result<(), Seq<char>> {
    match r {
        Ok(()) => Ok(()),
        Err(e) => Err(e@),
    }
}

/// Encodes `row` for appending to an output CSV file, preceded by `headers`
/// when the file does not exist yet. Returns the bytes to append (written even
/// when a record is refused) and the outcome.
pub fn append_row(file_exists: bool, headers: &Vec<String>, row: &Vec<String>) -> (r: (Vec<u8>, Result<
    (),
    String,
>))
    ensures
        (r.0@, unit_result_text(r.1)) == append_outcome(file_exists, texts(headers@), texts(row@)),
        !file_exists && headers@.len() == row@.len() ==> r.1 is Ok,
        file_exists ==> r.1 is Ok,
{
    let mut records: Vec<Vec<String>> = Vec::new();
    if !file_exists {
        records.push(copy_row(headers));
    }
    records.push(copy_row(row));
    assert(rows_texts(records@) =~= appended_records(file_exists, texts(headers@), texts(row@)));
    let (bytes, refused) = write_records(&records);
    let outcome = match refused {
        None => Ok(()),
        Some((k, e)) => {
            if !file_exists && k == 0 {
                let mut msg = String::from_str("Failed to write header: ");
                msg.append(e.as_str());
                Err(msg)
            } else {
                let mut msg = String::from_str("Failed to write row: ");
                msg.append(e.as_str());
                Err(msg)
            }
        },
    };
    (bytes, outcome)
}

/// The label of a CSV file in the file picker: its path relative to `root`
/// (or whole, if outside `root`), its row count and its size.
pub open spec fn label_text(path: Seq<char>, root: Seq<char>, row_count: nat, size_bytes: nat) -> Seq<char> {
    let rel = match path_relative_to(path, root) {
        Some(r) => r,
        None => path,
    };
    rel + " ("@ + decimal(row_count) + " rows, "@ + decimal(size_bytes) + " bytes)"@
}

impl CsvFile {
    /// Display label shown in the file picker (relative path, row count, size).
    pub fn label(&self, root: &str) -> (r: String)
        ensures
            r@ == label_text(self.path@, root@, self.row_count as nat, self.size_bytes as nat),
    {
        let mut s = match relative_to(self.path.as_str(), root) {
            Some(rel) => rel,
            None => self.path.clone(),
        };
        s.append(" (");
        push_decimal(&mut s, self.row_count as u64);
        s.append(" rows, ");
        push_decimal(&mut s, self.size_bytes);
        s.append(" bytes)");
        s
    }
}

} // verus!
