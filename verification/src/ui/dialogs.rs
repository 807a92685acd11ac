//! Texts of the reusable dialogs.
use vstd::prelude::*;

use crate::csv::backend::CsvFile;
use crate::text::{decimal, push_decimal};

verus! {

/// The message shown after a CSV file was opened, with an optional error.
pub open spec fn csv_info_text(info: CsvFile, extra: Option<Seq<char>>) -> Seq<char> {
    let base = "File loaded successfully!\n\nPath: "@ + info.path@ + "\nRows: "@ + decimal(
        info.row_count as nat,
    ) + "\nSize: "@ + decimal(info.size_bytes as nat) + " bytes"@;
    match extra {
        Some(err) => base + "\n\nHeader extraction error: "@ + err,
        None => base,
    }
}

/// The message shown after the CSV file `info` was opened, with `extra` if an
/// error followed.
pub fn csv_info_message(info: &CsvFile, extra: Option<&str>) -> (r: String)
    ensures
        r@ == csv_info_text(
            *info,
            match extra {
                Some(e) => Some(e@),
                None => None,
            },
        ),
{
    let mut msg = String::from_str("File loaded successfully!\n\nPath: ");
    msg.append(info.path.as_str());
    msg.append("\nRows: ");
    push_decimal(&mut msg, info.row_count as u64);
    msg.append("\nSize: ");
    push_decimal(&mut msg, info.size_bytes);
    msg.append(" bytes");
    match extra {
        Some(err) => {
            msg.append("\n\nHeader extraction error: ");
            msg.append(err);
        },
        None => {},
    }
    msg
}

} // verus!
