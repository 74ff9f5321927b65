//! Rendering a record set into its textual output format: a pretty-printed
//! JSON array of objects, or a YAML sequence of mappings, keys in header
//! order in both. The serializers of serde_json and serde_yaml do the
//! formatting behind trusted wrappers; for a fixed record set and format
//! the rendered text is fixed.

use crate::error::Error;
use crate::records::RecordSet;
use vstd::prelude::*;

verus! {

/// The textual format records are rendered to.
#[derive(Clone, Copy, Debug, PartialEq, Eq, Structural)]
pub enum OutputFormat {
    /// A pretty-printed array of one flat string-valued object per record.
    Json,
    /// A sequence of one flat string-valued mapping per record.
    Yaml,
}

impl Default for OutputFormat {
    /// The format used when the conversion's format flag is absent.
    fn default() -> (r: Self)
        ensures
            r == OutputFormat::Json,
    {
        OutputFormat::Json
    }
}

/// What serde_json's pretty printer returns for records with this header
/// and these rows; for fixed arguments the text is fixed.
pub uninterp spec fn json_pretty_of(header: Seq<Seq<char>>, rows: Seq<Seq<Seq<char>>>) -> Seq<
    char,
>;

/// What serde_yaml's serializer returns for records with this header and
/// these rows; for fixed arguments the text is fixed.
pub uninterp spec fn yaml_of(header: Seq<Seq<char>>, rows: Seq<Seq<Seq<char>>>) -> Seq<char>;

/// Relies on serde_json::to_string_pretty over an array holding one object
/// per record, keys inserted in header order and preserved (a repeated key
/// keeps its last value); the text depends on the header and rows alone,
/// and serializing string-valued objects to an in-memory buffer does not
/// fail.
#[verifier::external_body]
fn render_json(rs: &RecordSet) -> (r: Result<String, Error>)
    ensures
        r is Ok,
        r matches Ok(s) ==> s@ == json_pretty_of(rs.header.deep_view(), rs.rows.deep_view()),
{
    let array = serde_json::Value::Array(
        rs.rows.iter().map(
            |row: &Vec<String>|
                serde_json::Value::Object(
                    rs.header.iter().cloned().zip(
                        row.iter().map(|v| serde_json::Value::String(v.clone())),
                    ).collect(),
                ),
        ).collect(),
    );
    serde_json::to_string_pretty(&array).map_err(|_| Error::Serialize)
}

/// Relies on serde_yaml::to_string over a sequence holding one mapping per
/// record, keys inserted in header order and preserved (a repeated key
/// keeps its last value); the text depends on the header and rows alone,
/// and serializing this shallow sequence of string-valued mappings does
/// not fail.
#[verifier::external_body]
fn render_yaml(rs: &RecordSet) -> (r: Result<String, Error>)
    ensures
        r is Ok,
        r matches Ok(s) ==> s@ == yaml_of(rs.header.deep_view(), rs.rows.deep_view()),
{
    let sequence = serde_yaml::Value::Sequence(
        rs.rows.iter().map(
            |row: &Vec<String>|
                serde_yaml::Value::Mapping(
                    rs.header.iter().cloned().map(serde_yaml::Value::String).zip(
                        row.iter().cloned().map(serde_yaml::Value::String),
                    ).collect(),
                ),
        ).collect(),
    );
    serde_yaml::to_string(&sequence).map_err(|_| Error::Serialize)
}

/// Renders a record set into the chosen format. Rendering succeeds on
/// every record set, and for a fixed record set and format the output
/// text is fixed. The serialization error kind of the error model stays in
/// the result type for the process boundary, but never arises here.
pub fn render_records(rs: &RecordSet, format: OutputFormat) -> (r: Result<String, Error>)
    ensures
        r is Ok,
        r matches Ok(s) ==> (format is Json ==> s@ == json_pretty_of(
            rs.header.deep_view(),
            rs.rows.deep_view(),
        )) && (format is Yaml ==> s@ == yaml_of(rs.header.deep_view(), rs.rows.deep_view())),
{
    match format {
        OutputFormat::Json => render_json(rs),
        OutputFormat::Yaml => render_yaml(rs),
    }
}

} // verus!
