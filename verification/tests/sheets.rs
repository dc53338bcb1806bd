use clap::{Arg, ArgMatches, Command};
use gws::cli::CliArgs;
use gws::discovery::{RestDescription, RestMethod, RestResource};
use gws::error::GwsError;
use gws::json::JsonValue;
use gws::sheets::{
    build_append_request, build_read_request, flatten_rows, parse_append_args, parse_read_args,
    AppendConfig, ReadConfig,
};

fn cli_args(matches: &ArgMatches, names: &[&str]) -> CliArgs {
    let mut args = CliArgs::new();
    for name in names {
        if let Ok(Some(v)) = matches.try_get_one::<String>(name) {
            args.insert(name, v);
        }
    }
    args
}

/// The serde_json form of a value, to serialize it.
fn to_serde(v: &JsonValue) -> serde_json::Value {
    match v {
        JsonValue::Null => serde_json::Value::Null,
        JsonValue::Bool(b) => serde_json::Value::Bool(*b),
        JsonValue::Number(n) => serde_json::from_str(n).unwrap(),
        JsonValue::Str(s) => serde_json::Value::String(s.clone()),
        JsonValue::Array(items) => serde_json::Value::Array(items.iter().map(to_serde).collect()),
        JsonValue::Object(members) => {
            let mut map = serde_json::Map::new();
            for (k, v) in members {
                map.insert(k.clone(), to_serde(v));
            }
            serde_json::Value::Object(map)
        }
    }
}

fn make_mock_doc() -> RestDescription {
    let methods = vec![
        (
            "append".to_string(),
            RestMethod {
                scopes: vec!["https://scope".to_string()],
                ..Default::default()
            },
        ),
        (
            "get".to_string(),
            RestMethod {
                scopes: vec!["https://scope".to_string()],
                ..Default::default()
            },
        ),
    ];
    let mut values_res = RestResource::default();
    values_res.methods = methods;
    let mut spreadsheets_res = RestResource::default();
    spreadsheets_res.resources.push(("values".to_string(), values_res));
    RestDescription {
        resources: vec![("spreadsheets".to_string(), spreadsheets_res)],
        ..Default::default()
    }
}

fn make_matches_append(args: &[&str]) -> CliArgs {
    let cmd = Command::new("test")
        .arg(Arg::new("spreadsheet").long("spreadsheet"))
        .arg(Arg::new("values").long("values"))
        .arg(Arg::new("json-values").long("json-values"));
    let matches = cmd.try_get_matches_from(args).unwrap();
    cli_args(&matches, &["spreadsheet", "values", "json-values"])
}

fn make_matches_read(args: &[&str]) -> CliArgs {
    let cmd = Command::new("test")
        .arg(Arg::new("spreadsheet").long("spreadsheet"))
        .arg(Arg::new("range").long("range"));
    let matches = cmd.try_get_matches_from(args).unwrap();
    cli_args(&matches, &["spreadsheet", "range"])
}

#[test]
fn test_build_append_request() {
    let doc = make_mock_doc();
    let config = AppendConfig {
        spreadsheet_id: "123".to_string(),
        values: vec!["a".to_string(), "b".to_string(), "c".to_string()],
    };
    let (params, body, scopes) = build_append_request(&config, &doc).unwrap();
    let params = to_serde(&params).to_string();
    let body = to_serde(&body).to_string();

    assert!(params.contains("123"));
    assert!(params.contains("USER_ENTERED"));
    assert!(body.contains("a"));
    assert!(body.contains("b"));
    assert_eq!(scopes[0], "https://scope");
}

#[test]
fn test_build_read_request() {
    let doc = make_mock_doc();
    let config = ReadConfig {
        spreadsheet_id: "123".to_string(),
        range: "A1:B2".to_string(),
    };
    let (params, scopes) = build_read_request(&config, &doc).unwrap();
    let params = to_serde(&params).to_string();

    assert!(params.contains("123"));
    assert!(params.contains("A1:B2"));
    assert_eq!(scopes[0], "https://scope");
}

#[test]
fn test_parse_append_args() {
    let matches = make_matches_append(&["test", "--spreadsheet", "123", "--values", "a,b,c"]);
    let config = parse_append_args(&matches);
    assert_eq!(config.spreadsheet_id, "123");
    assert_eq!(config.values, vec!["a", "b", "c"]);
}

#[test]
fn test_parse_read_args() {
    let matches = make_matches_read(&["test", "--spreadsheet", "123", "--range", "A1:B2"]);
    let config = parse_read_args(&matches);
    assert_eq!(config.spreadsheet_id, "123");
    assert_eq!(config.range, "A1:B2");
}

#[test]
fn append_request_exact_json() {
    let doc = make_mock_doc();
    let config = AppendConfig {
        spreadsheet_id: "s1".to_string(),
        values: vec!["x".to_string(), "".to_string()],
    };
    let (params, body, _) = build_append_request(&config, &doc).unwrap();
    assert_eq!(
        to_serde(&params),
        serde_json::from_str::<serde_json::Value>(
            r#"{"spreadsheetId":"s1","range":"A1","valueInputOption":"USER_ENTERED"}"#
        )
        .unwrap()
    );
    assert_eq!(to_serde(&body).to_string(), r#"{"values":[["x",""]]}"#);
}

#[test]
fn append_and_read_requests_need_the_methods() {
    let doc = RestDescription::default();
    let config = AppendConfig { spreadsheet_id: "s".to_string(), values: vec![] };
    match build_append_request(&config, &doc) {
        Err(GwsError::Discovery(m)) => assert_eq!(m, "Resource 'spreadsheets' not found"),
        _ => panic!("expected a discovery error"),
    }
    let mut sheets = RestResource::default();
    sheets.resources.push(("values".to_string(), RestResource::default()));
    let doc = RestDescription { resources: vec![("spreadsheets".to_string(), sheets)], ..Default::default() };
    let read = ReadConfig { spreadsheet_id: "s".to_string(), range: "A1".to_string() };
    match build_read_request(&read, &doc) {
        Err(GwsError::Discovery(m)) => assert_eq!(m, "Method 'spreadsheets.values.get' not found"),
        _ => panic!("expected a discovery error"),
    }
}

#[test]
fn append_values_from_json_rows_are_flattened() {
    let matches = make_matches_append(&[
        "test",
        "--spreadsheet",
        "1",
        "--json-values",
        r#"[["a","b"],["c","d"]]"#,
    ]);
    assert_eq!(parse_append_args(&matches).values, vec!["a", "b", "c", "d"]);
}

#[test]
fn append_values_from_single_json_row() {
    let matches = make_matches_append(&["test", "--spreadsheet", "1", "--json-values", r#"["x","y"]"#]);
    assert_eq!(parse_append_args(&matches).values, vec!["x", "y"]);
}

#[test]
fn append_values_from_invalid_json_are_empty_and_json_wins_over_values() {
    let matches = make_matches_append(&[
        "test",
        "--spreadsheet",
        "1",
        "--values",
        "p,q",
        "--json-values",
        "not json",
    ]);
    assert!(parse_append_args(&matches).values.is_empty());
    let matches = make_matches_append(&["test", "--spreadsheet", "1"]);
    assert!(parse_append_args(&matches).values.is_empty());
}

#[test]
fn comma_values_rejoin_to_the_argument() {
    let text = "a,,b c,";
    let matches = make_matches_append(&["test", "--spreadsheet", "1", "--values", text]);
    let values = parse_append_args(&matches).values;
    assert_eq!(values, vec!["a", "", "b c", ""]);
    assert_eq!(values.join(","), text);
}

#[test]
fn flatten_rows_keeps_order() {
    let rows = vec![
        vec!["1".to_string()],
        vec![],
        vec!["2".to_string(), "3".to_string()],
    ];
    assert_eq!(flatten_rows(rows), vec!["1", "2", "3"]);
}
