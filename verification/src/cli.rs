//! The command-line model: the options each subcommand carries, and the
//! parsers for the two format flags. Argument collection itself stays at
//! the process boundary; these types carry the parsed choices into the
//! library.

use crate::b64::Base64Format;
use crate::render::OutputFormat;
use vstd::prelude::*;

verus! {

/// The options of the csv subcommand: where to read, where to write, and
/// the output format.
#[derive(Debug)]
pub struct CsvOpts {
    /// Path of the CSV input, or the stdin sentinel.
    pub input: String,
    /// Path the rendered text is written to.
    pub output: String,
    /// The format the records are rendered in.
    pub format: OutputFormat,
}

/// The options of one Base64 operation: where to read and which alphabet.
#[derive(Debug)]
pub struct Base64Opts {
    /// Path of the input, or the stdin sentinel.
    pub input: String,
    /// The alphabet and padding policy.
    pub format: Base64Format,
}

/// The Base64 subcommand: encode bytes to text, or decode text to bytes.
#[derive(Debug)]
pub enum Base64SubCommand {
    Encode(Base64Opts),
    Decode(Base64Opts),
}

/// One invocation's subcommand.
#[derive(Debug)]
pub enum SubCommand {
    Csv(CsvOpts),
    Base64(Base64SubCommand),
}

/// A parsed command line: exactly one subcommand per invocation.
#[derive(Debug)]
pub struct Opts {
    pub cmd: SubCommand,
}

/// Parses the value of the csv subcommand's format flag: `json` or `yaml`,
/// and nothing else.
pub fn parse_output_format(token: &str) -> (r: Option<OutputFormat>)
    ensures
        r == Some(OutputFormat::Json) <==> token@ == "json"@,
        r == Some(OutputFormat::Yaml) <==> token@ == "yaml"@,
        r is None <==> (token@ != "json"@ && token@ != "yaml"@),
{
    proof {
        reveal_strlit("json");
        reveal_strlit("yaml");
        assert("json"@[0] != "yaml"@[0]);
    }
    let t: String = token.to_owned();
    if t == "json".to_owned() {
        Some(OutputFormat::Json)
    } else if t == "yaml".to_owned() {
        Some(OutputFormat::Yaml)
    } else {
        None
    }
}

/// Parses the value of the base64 subcommands' format flag: `standard` or
/// `urlsafe`, and nothing else.
pub fn parse_base64_format(token: &str) -> (r: Option<Base64Format>)
    ensures
        r == Some(Base64Format::Standard) <==> token@ == "standard"@,
        r == Some(Base64Format::UrlSafe) <==> token@ == "urlsafe"@,
        r is None <==> (token@ != "standard"@ && token@ != "urlsafe"@),
{
    proof {
        reveal_strlit("standard");
        reveal_strlit("urlsafe");
        assert("standard"@[0] != "urlsafe"@[0]);
    }
    let t: String = token.to_owned();
    if t == "standard".to_owned() {
        Some(Base64Format::Standard)
    } else if t == "urlsafe".to_owned() {
        Some(Base64Format::UrlSafe)
    } else {
        None
    }
}

} // verus!
