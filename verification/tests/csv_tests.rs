use rcli::convert::csv_convert;
use rcli::error::Error;
use rcli::records::parse_records;
use rcli::records::records_from_rows;
use rcli::render::OutputFormat;

fn json_record(pairs: &[(&str, &str)]) -> serde_json::Value {
    let mut map = serde_json::Map::new();
    for (key, value) in pairs {
        map.insert((*key).to_string(), serde_json::Value::String((*value).to_string()));
    }
    serde_json::Value::Object(map)
}

#[test]
fn csv_to_json_basic() {
    let out = csv_convert(b"name,score\nAlice,10\nBob,20\n", OutputFormat::Json).unwrap();
    let expected = serde_json::to_string_pretty(&serde_json::Value::Array(vec![
        json_record(&[("name", "Alice"), ("score", "10")]),
        json_record(&[("name", "Bob"), ("score", "20")]),
    ]))
    .unwrap();
    assert_eq!(out, expected);
}

#[test]
fn csv_to_yaml_basic() {
    let out = csv_convert(b"name,score\nAlice,10\nBob,20\n", OutputFormat::Yaml).unwrap();
    let mut first = serde_yaml::Mapping::new();
    first.insert(
        serde_yaml::Value::String("name".to_string()),
        serde_yaml::Value::String("Alice".to_string()),
    );
    first.insert(
        serde_yaml::Value::String("score".to_string()),
        serde_yaml::Value::String("10".to_string()),
    );
    let mut second = serde_yaml::Mapping::new();
    second.insert(
        serde_yaml::Value::String("name".to_string()),
        serde_yaml::Value::String("Bob".to_string()),
    );
    second.insert(
        serde_yaml::Value::String("score".to_string()),
        serde_yaml::Value::String("20".to_string()),
    );
    let expected = serde_yaml::to_string(&serde_yaml::Value::Sequence(vec![
        serde_yaml::Value::Mapping(first),
        serde_yaml::Value::Mapping(second),
    ]))
    .unwrap();
    assert_eq!(out, expected);
}

#[test]
fn header_only_is_empty_array() {
    let out = csv_convert(b"name,score\n", OutputFormat::Json).unwrap();
    let expected = serde_json::to_string_pretty(&serde_json::Value::Array(Vec::new())).unwrap();
    assert_eq!(out, expected);
}

#[test]
fn header_only_is_empty_yaml_sequence() {
    let out = csv_convert(b"name,score\n", OutputFormat::Yaml).unwrap();
    let expected =
        serde_yaml::to_string(&serde_yaml::Value::Sequence(Vec::new())).unwrap();
    assert_eq!(out, expected);
}

#[test]
fn field_count_mismatch_is_parse_error() {
    let out = csv_convert(b"a,b\n1,2,3\n", OutputFormat::Json);
    assert_eq!(out, Err(Error::Parse(1)));
}

#[test]
fn later_mismatch_reports_its_row() {
    let out = csv_convert(b"a,b\n1,2\n3\n", OutputFormat::Json);
    assert_eq!(out, Err(Error::Parse(2)));
}

#[test]
fn parse_records_keeps_order_and_counts() {
    let rs = parse_records(b"name,score\nAlice,10\nBob,20\n").unwrap();
    assert_eq!(rs.header, vec!["name".to_string(), "score".to_string()]);
    assert_eq!(rs.rows.len(), 2);
    assert_eq!(rs.rows[0], vec!["Alice".to_string(), "10".to_string()]);
    assert_eq!(rs.rows[1], vec!["Bob".to_string(), "20".to_string()]);
}

#[test]
fn records_from_rows_empty_input() {
    let rs = records_from_rows(Vec::new()).unwrap();
    assert!(rs.header.is_empty());
    assert!(rs.rows.is_empty());
}

#[test]
fn records_from_rows_reports_first_mismatch() {
    let rows = vec![
        vec!["a".to_string(), "b".to_string()],
        vec!["1".to_string(), "2".to_string()],
        vec!["3".to_string()],
        vec!["4".to_string()],
    ];
    assert_eq!(records_from_rows(rows).err(), Some(Error::Parse(2)));
}

#[test]
fn quoted_fields_are_split_by_the_csv_reader() {
    let out = csv_convert(b"name\n\"a,b\"\n", OutputFormat::Json).unwrap();
    let expected = serde_json::to_string_pretty(&serde_json::Value::Array(vec![json_record(
        &[("name", "a,b")],
    )]))
    .unwrap();
    assert_eq!(out, expected);
}

#[test]
fn duplicate_header_keeps_last_value() {
    let out = csv_convert(b"a,a\n1,2\n", OutputFormat::Json).unwrap();
    let expected =
        serde_json::to_string_pretty(&serde_json::Value::Array(vec![json_record(&[("a", "2")])]))
            .unwrap();
    assert_eq!(out, expected);
}

#[test]
fn crlf_rows_are_accepted() {
    let out = csv_convert(b"name,score\r\nAlice,10\r\n", OutputFormat::Json).unwrap();
    let expected = serde_json::to_string_pretty(&serde_json::Value::Array(vec![json_record(&[
        ("name", "Alice"),
        ("score", "10"),
    ])]))
    .unwrap();
    assert_eq!(out, expected);
}

#[test]
fn json_keys_follow_header_order() {
    let out = csv_convert(b"b,a\n1,2\n", OutputFormat::Json).unwrap();
    assert_eq!(out, "[\n  {\n    \"b\": \"1\",\n    \"a\": \"2\"\n  }\n]");
}

#[test]
fn yaml_keys_follow_header_order() {
    let out = csv_convert(b"b,a\n1,2\n", OutputFormat::Yaml).unwrap();
    assert_eq!(out, "- b: '1'\n  a: '2'\n");
}
