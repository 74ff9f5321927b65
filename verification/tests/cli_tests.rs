use rcli::b64::Base64Format;
use rcli::cli::parse_base64_format;
use rcli::cli::parse_output_format;
use rcli::error::Error;
use rcli::is_stdin_path;
use rcli::render::OutputFormat;

#[test]
fn dash_selects_stdin() {
    assert!(is_stdin_path("-"));
}

#[test]
fn other_paths_are_files() {
    assert!(!is_stdin_path("input.csv"));
    assert!(!is_stdin_path("--"));
    assert!(!is_stdin_path(""));
    assert!(!is_stdin_path(" -"));
}

#[test]
fn output_format_tokens() {
    assert_eq!(parse_output_format("json"), Some(OutputFormat::Json));
    assert_eq!(parse_output_format("yaml"), Some(OutputFormat::Yaml));
    assert_eq!(parse_output_format("toml"), None);
    assert_eq!(parse_output_format("JSON"), None);
    assert_eq!(parse_output_format(""), None);
}

#[test]
fn base64_format_tokens() {
    assert_eq!(parse_base64_format("standard"), Some(Base64Format::Standard));
    assert_eq!(parse_base64_format("urlsafe"), Some(Base64Format::UrlSafe));
    assert_eq!(parse_base64_format("nopad"), None);
    assert_eq!(parse_base64_format(""), None);
}

#[test]
fn default_formats() {
    assert_eq!(OutputFormat::default(), OutputFormat::Json);
    assert_eq!(Base64Format::default(), Base64Format::Standard);
}

#[test]
fn error_messages_name_their_kind() {
    assert_eq!(Error::Io.message(), "input or output failure");
    assert_eq!(Error::Parse(3).message(), "malformed CSV row");
    assert_eq!(
        Error::Codec.message(),
        "invalid base64 input for the selected alphabet"
    );
    assert_eq!(
        Error::Encoding.message(),
        "decoded bytes are not valid UTF-8 text"
    );
    assert_eq!(Error::Serialize.message(), "failed to serialize records");
}
