//! CSV records: the row splitter of the csv crate behind a trusted
//! wrapper, and the verified mapper that pairs every data row with the
//! header row positionally, rejecting the first row whose field count
//! differs.

use crate::error::Error;
use vstd::prelude::*;

verus! {

/// The ordered records of one CSV file: the header row's column names and
/// one row of field values per record, each pairing with the header by
/// position. A duplicate column name is kept as it stands; downstream
/// object formats then retain the last occurrence's value.
pub struct RecordSet {
    /// Column names, in file order.
    pub header: Vec<String>,
    /// One row of field values per record, in file order.
    pub rows: Vec<Vec<String>>,
}

impl RecordSet {
    /// Every record holds exactly one value per column name.
    pub open spec fn well_formed(self) -> bool {
        forall|i: int|
            0 <= i < self.rows@.len() ==> #[trigger] self.rows@[i]@.len() == self.header@.len()
    }
}

/// Split rows are structurally consistent: every data row has as many
/// fields as the header row.
pub open spec fn rows_consistent(rows: Seq<Seq<Seq<char>>>) -> bool {
    forall|i: int| 1 <= i < rows.len() ==> #[trigger] rows[i].len() == rows[0].len()
}

/// The header row of split rows; empty for an empty file.
pub open spec fn header_of(rows: Seq<Seq<Seq<char>>>) -> Seq<Seq<char>> {
    if rows.len() == 0 {
        Seq::<Seq<char>>::empty()
    } else {
        rows[0]
    }
}

/// The data rows of split rows: everything after the header.
pub open spec fn data_of(rows: Seq<Seq<Seq<char>>>) -> Seq<Seq<Seq<char>>> {
    if rows.len() == 0 {
        Seq::<Seq<Seq<char>>>::empty()
    } else {
        rows.skip(1)
    }
}

/// What the row splitter of the csv crate returns on given input bytes:
/// the rows and their fields, quoting and line endings already resolved.
/// The split depends on the bytes alone.
pub uninterp spec fn csv_rows_of(b: Seq<u8>) -> Seq<Seq<Seq<char>>>;

/// Whether the row splitter of the csv crate accepts given input bytes.
/// With row lengths unchecked, the reader refuses only bytes it cannot
/// read as text, so acceptance too depends on the bytes alone.
pub uninterp spec fn csv_split_ok(b: Seq<u8>) -> bool;

/// Relies on csv::ReaderBuilder and csv::Reader: reading every record with
/// headers off and row lengths unchecked splits the input into its rows
/// and fields. The reader's only failure under this configuration is input
/// it cannot read as text, decided by the bytes alone.
#[verifier::external_body]
fn split_csv(input: &[u8]) -> (r: Result<Vec<Vec<String>>, Error>)
    ensures
        r is Ok <==> csv_split_ok(input@),
        r matches Ok(rows) ==> rows.deep_view() == csv_rows_of(input@),
        r matches Err(e) ==> e == Error::Parse(0),
{
    let mut reader = csv::ReaderBuilder::new().has_headers(false).flexible(true).from_reader(
        input,
    );
    let mut rows: Vec<Vec<String>> = Vec::new();
    for record in reader.records() {
        match record {
            Ok(rec) => rows.push(rec.iter().map(|field| field.to_string()).collect()),
            Err(_) => return Err(Error::Parse(0)),
        }
    }
    Ok(rows)
}

proof fn lemma_row_view(v: Vec<Vec<String>>, i: int)
    requires
        0 <= i < v@.len(),
    ensures
        v.deep_view()[i] == v@[i].deep_view(),
        v.deep_view()[i].len() == v@[i]@.len(),
{
    assert(v.deep_view()[i] == v@[i].deep_view());
    assert(v@[i].deep_view().len() == v@[i]@.len());
}

/// Builds the record set from split rows: the first row is the header and
/// each later row is one record, paired with the header by position. The
/// first data row whose field count differs from the header's is reported
/// by its row index and nothing is kept; a header-only or empty file
/// yields the empty record set.
#[verifier::loop_isolation(false)]
pub fn records_from_rows(rows: Vec<Vec<String>>) -> (r: Result<RecordSet, Error>)
    ensures
        r matches Ok(rs) ==> rows_consistent(rows.deep_view()) && rs.well_formed()
            && rs.header.deep_view() == header_of(rows.deep_view()) && rs.rows.deep_view()
            == data_of(rows.deep_view()),
        r matches Err(e) ==> !rows_consistent(rows.deep_view()) && (e matches Error::Parse(i) && 1
            <= i < rows@.len() && rows.deep_view()[i as int].len() != rows.deep_view()[0].len() && (
        forall|j: int|
            1 <= j < i ==> #[trigger] rows.deep_view()[j].len() == rows.deep_view()[0].len())),
{
    let ghost rv = rows.deep_view();
    proof {
        assert(rv.len() == rows@.len());
    }
    let mut rest = rows;
    if rest.len() == 0 {
        let rs = RecordSet { header: Vec::new(), rows: Vec::new() };
        proof {
            assert(rs.header.deep_view() =~= header_of(rv));
            assert(rs.rows.deep_view() =~= data_of(rv));
        }
        return Ok(rs);
    }
    let header = rest.remove(0);
    proof {
        assert(header.deep_view() == rv[0]);
        assert(rest.deep_view() =~= rv.skip(1));
    }
    let mut i: usize = 0;
    while i < rest.len()
        invariant
            rest.deep_view() == rv.skip(1),
            rv.len() == rest@.len() + 1,
            header.deep_view() == rv[0],
            i <= rest@.len(),
            forall|k: int| 0 <= k < i ==> #[trigger] rest@[k]@.len() == header@.len(),
        decreases rest@.len() - i,
    {
        if rest[i].len() != header.len() {
            proof {
                lemma_row_view(rest, i as int);
                assert(rv[i + 1] == rest.deep_view()[i as int]);
                assert(rv[i + 1].len() == rest@[i as int]@.len());
                assert(header.deep_view().len() == header@.len());
                assert(rv[0].len() == header@.len());
                assert forall|j: int| 1 <= j < i + 1 implies #[trigger] rv[j].len()
                    == rv[0].len() by {
                    lemma_row_view(rest, j - 1);
                    assert(rv[j] == rest.deep_view()[j - 1]);
                    assert(rest@[j - 1]@.len() == header@.len());
                }
                assert(!rows_consistent(rv));
            }
            return Err(Error::Parse(i + 1));
        }
        i = i + 1;
    }
    proof {
        assert(header.deep_view().len() == header@.len());
        assert forall|j: int| 1 <= j < rv.len() implies #[trigger] rv[j].len() == rv[0].len() by {
            lemma_row_view(rest, j - 1);
            assert(rv[j] == rest.deep_view()[j - 1]);
            assert(rest@[j - 1]@.len() == header@.len());
        }
        assert(rows_consistent(rv));
        assert(rest.deep_view() =~= data_of(rv));
    }
    Ok(RecordSet { header, rows: rest })
}

/// Splits CSV input into rows and builds its record set. Succeeds exactly
/// when the splitter accepts the bytes and the rows are structurally
/// consistent, and then the record set mirrors the split rows exactly; a
/// field-count mismatch is reported by the index of the first offending
/// row, and input the splitter refuses is reported as row zero.
pub fn parse_records(input: &[u8]) -> (r: Result<RecordSet, Error>)
    ensures
        r is Ok <==> csv_split_ok(input@) && rows_consistent(csv_rows_of(input@)),
        r matches Ok(rs) ==> rs.well_formed() && rs.header.deep_view() == header_of(
            csv_rows_of(input@),
        ) && rs.rows.deep_view() == data_of(csv_rows_of(input@)),
        r == Err::<RecordSet, Error>(Error::Parse(0)) <==> !csv_split_ok(input@),
        r matches Err(e) ==> e matches Error::Parse(_),
        r matches Err(e) ==> (e matches Error::Parse(i) ==> (i >= 1 ==> csv_split_ok(input@)
            && !rows_consistent(csv_rows_of(input@)) && csv_rows_of(input@)[i as int].len()
            != csv_rows_of(input@)[0].len() && (forall|j: int|
            1 <= j < i ==> #[trigger] csv_rows_of(input@)[j].len() == csv_rows_of(
                input@,
            )[0].len()))),
{
    match split_csv(input) {
        Err(e) => Err(e),
        Ok(rows) => records_from_rows(rows),
    }
}

} // verus!
