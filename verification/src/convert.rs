//! The whole CSV conversion, from input bytes to rendered text: split the
//! rows, pair them with the header, render the records. The result is a
//! function of the input and the format: success exactly when the splitter
//! accepts the bytes and the rows are consistent, the text pinned on
//! success, the offending row pinned on failure.

use crate::error::Error;
use crate::records::csv_rows_of;
use crate::records::csv_split_ok;
use crate::records::data_of;
use crate::records::header_of;
use crate::records::parse_records;
use crate::records::rows_consistent;
use crate::render::json_pretty_of;
use crate::render::render_records;
use crate::render::yaml_of;
use crate::render::OutputFormat;
use vstd::prelude::*;

verus! {

/// Converts CSV input bytes into the chosen output format. Succeeds
/// exactly when the splitter accepts the bytes and every data row matches
/// the header's field count, and then the text renders exactly the input's
/// records, keys in header order. Inconsistent input fails with the index
/// of the first offending row; input the splitter refuses is reported as
/// row zero. Two runs on the same input and format are thereby bound to
/// the same outcome, and runs in the two formats succeed or fail alike.
pub fn csv_convert(input: &[u8], format: OutputFormat) -> (r: Result<String, Error>)
    ensures
        r is Ok <==> csv_split_ok(input@) && rows_consistent(csv_rows_of(input@)),
        r matches Ok(s) ==> (format is Json ==> s@ == json_pretty_of(
            header_of(csv_rows_of(input@)),
            data_of(csv_rows_of(input@)),
        )) && (format is Yaml ==> s@ == yaml_of(
            header_of(csv_rows_of(input@)),
            data_of(csv_rows_of(input@)),
        )),
        r == Err::<String, Error>(Error::Parse(0)) <==> !csv_split_ok(input@),
        r matches Err(e) ==> e matches Error::Parse(_),
        r matches Err(e) ==> (e matches Error::Parse(i) ==> (i >= 1 ==> csv_split_ok(input@)
            && !rows_consistent(csv_rows_of(input@)) && csv_rows_of(input@)[i as int].len()
            != csv_rows_of(input@)[0].len() && (forall|j: int|
            1 <= j < i ==> #[trigger] csv_rows_of(input@)[j].len() == csv_rows_of(
                input@,
            )[0].len()))),
{
    match parse_records(input) {
        Err(e) => Err(e),
        Ok(rs) => render_records(&rs, format),
    }
}

} // verus!
