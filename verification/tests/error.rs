use gws::error::{error_label, error_summary_lines, exit_code_documentation, GwsError};
use gws::json::JsonValue;
use gws::text::{colorize, sanitize_for_terminal};

/// An unexpected failure without causes.
fn other(message: &str) -> GwsError {
    GwsError::Other { message: message.to_string(), chain: message.to_string() }
}

/// The serde_json form of a value, to read it by index.
fn to_serde(v: &JsonValue) -> serde_json::Value {
    match v {
        JsonValue::Null => serde_json::Value::Null,
        JsonValue::Bool(b) => serde_json::Value::Bool(*b),
        JsonValue::Number(n) => serde_json::from_str(n).unwrap(),
        JsonValue::Str(s) => serde_json::Value::String(s.clone()),
        JsonValue::Array(items) => serde_json::Value::Array(items.iter().map(to_serde).collect()),
        JsonValue::Object(members) => {
            let mut map = serde_json::Map::new();
            for (k, v) in members {
                map.insert(k.clone(), to_serde(v));
            }
            serde_json::Value::Object(map)
        }
    }
}

#[test]
fn test_exit_code_api() {
    let err = GwsError::Api {
        code: 404,
        message: "Not Found".to_string(),
        reason: "notFound".to_string(),
        enable_url: None,
    };
    assert_eq!(err.exit_code(), GwsError::EXIT_CODE_API);
}

#[test]
fn test_exit_code_auth() {
    assert_eq!(
        GwsError::Auth("bad token".to_string()).exit_code(),
        GwsError::EXIT_CODE_AUTH
    );
}

#[test]
fn test_exit_code_validation() {
    assert_eq!(
        GwsError::Validation("missing arg".to_string()).exit_code(),
        GwsError::EXIT_CODE_VALIDATION
    );
}

#[test]
fn test_exit_code_discovery() {
    assert_eq!(
        GwsError::Discovery("fetch failed".to_string()).exit_code(),
        GwsError::EXIT_CODE_DISCOVERY
    );
}

#[test]
fn test_exit_code_other() {
    assert_eq!(
        other("oops").exit_code(),
        GwsError::EXIT_CODE_OTHER
    );
}

#[test]
fn test_exit_codes_are_distinct() {
    let codes = [
        GwsError::EXIT_CODE_API,
        GwsError::EXIT_CODE_AUTH,
        GwsError::EXIT_CODE_VALIDATION,
        GwsError::EXIT_CODE_DISCOVERY,
        GwsError::EXIT_CODE_OTHER,
    ];
    let unique: std::collections::HashSet<i32> = codes.iter().copied().collect();
    assert_eq!(
        unique.len(),
        codes.len(),
        "exit codes must be distinct: {codes:?}"
    );
}

#[test]
fn test_error_to_json_api() {
    let err = GwsError::Api {
        code: 404,
        message: "Not Found".to_string(),
        reason: "notFound".to_string(),
        enable_url: None,
    };
    let json = to_serde(&err.to_json());
    assert_eq!(json["error"]["code"], 404);
    assert_eq!(json["error"]["message"], "Not Found");
    assert_eq!(json["error"]["reason"], "notFound");
    assert!(json["error"]["enable_url"].is_null());
}

#[test]
fn test_error_to_json_validation() {
    let err = GwsError::Validation("Invalid input".to_string());
    let json = to_serde(&err.to_json());
    assert_eq!(json["error"]["code"], 400);
    assert_eq!(json["error"]["message"], "Invalid input");
    assert_eq!(json["error"]["reason"], "validationError");
}

#[test]
fn test_error_to_json_auth() {
    let err = GwsError::Auth("Token expired".to_string());
    let json = to_serde(&err.to_json());
    assert_eq!(json["error"]["code"], 401);
    assert_eq!(json["error"]["message"], "Token expired");
    assert_eq!(json["error"]["reason"], "authError");
}

#[test]
fn test_error_to_json_discovery() {
    let err = GwsError::Discovery("Failed to fetch doc".to_string());
    let json = to_serde(&err.to_json());
    assert_eq!(json["error"]["code"], 500);
    assert_eq!(json["error"]["message"], "Failed to fetch doc");
    assert_eq!(json["error"]["reason"], "discoveryError");
}

#[test]
fn test_error_to_json_other() {
    let err = other("Something went wrong");
    let json = to_serde(&err.to_json());
    assert_eq!(json["error"]["code"], 500);
    assert_eq!(json["error"]["message"], "Something went wrong");
    assert_eq!(json["error"]["reason"], "internalError");
}

#[test]
fn test_error_to_json_access_not_configured_with_url() {
    let err = GwsError::Api {
        code: 403,
        message: "Gmail API has not been used in project 549352339482 before or it is disabled. Enable it by visiting https://console.developers.google.com/apis/api/gmail.googleapis.com/overview?project=549352339482 then retry.".to_string(),
        reason: "accessNotConfigured".to_string(),
        enable_url: Some("https://console.developers.google.com/apis/api/gmail.googleapis.com/overview?project=549352339482".to_string()),
    };
    let json = to_serde(&err.to_json());
    assert_eq!(json["error"]["code"], 403);
    assert_eq!(json["error"]["reason"], "accessNotConfigured");
    assert_eq!(
        json["error"]["enable_url"],
        "https://console.developers.google.com/apis/api/gmail.googleapis.com/overview?project=549352339482"
    );
}

#[test]
fn test_error_to_json_access_not_configured_without_url() {
    let err = GwsError::Api {
        code: 403,
        message: "API not enabled.".to_string(),
        reason: "accessNotConfigured".to_string(),
        enable_url: None,
    };
    let json = to_serde(&err.to_json());
    assert_eq!(json["error"]["code"], 403);
    assert_eq!(json["error"]["reason"], "accessNotConfigured");
    assert!(json["error"]["enable_url"].is_null());
}

#[test]
fn test_colorize_respects_no_color_env() {
    // With colours switched off (as NO_COLOR asks), the text comes back plain.
    let result = colorize("hello", "31", false);
    assert_eq!(result, "hello");
}

#[test]
fn test_error_label_contains_variant_name() {
    let api_err = GwsError::Api {
        code: 400,
        message: "bad".to_string(),
        reason: "r".to_string(),
        enable_url: None,
    };
    let label = error_label(&api_err, true);
    assert!(label.contains("error[api]:"));

    let auth_err = GwsError::Auth("fail".to_string());
    assert!(error_label(&auth_err, true).contains("error[auth]:"));

    let val_err = GwsError::Validation("bad input".to_string());
    assert!(error_label(&val_err, true).contains("error[validation]:"));

    let disc_err = GwsError::Discovery("missing".to_string());
    assert!(error_label(&disc_err, true).contains("error[discovery]:"));

    let other_err = other("oops");
    assert!(error_label(&other_err, true).contains("error:"));
}

#[test]
fn test_sanitize_for_terminal_strips_control_chars() {
    let input = "normal \x1b[31mred text\x1b[0m end";
    let sanitized = sanitize_for_terminal(input);
    assert_eq!(sanitized, "normal [31mred text[0m end");
    assert!(!sanitized.contains('\x1b'));

    let input2 = "line1\nline2\ttab";
    assert_eq!(sanitize_for_terminal(input2), "line1\nline2\ttab");

    let input3 = "hello\x07bell\x08backspace";
    assert_eq!(sanitize_for_terminal(input3), "hellobellbackspace");
}

#[test]
fn colorize_wraps_in_ansi_codes_when_enabled() {
    assert_eq!(colorize("hello", "31", true), "\x1b[31mhello\x1b[0m");
}

#[test]
fn error_label_colours_validation_yellow_and_others_red() {
    let val_err = GwsError::Validation("x".to_string());
    assert_eq!(error_label(&val_err, true), "\x1b[33merror[validation]:\x1b[0m");
    let auth_err = GwsError::Auth("x".to_string());
    assert_eq!(error_label(&auth_err, true), "\x1b[31merror[auth]:\x1b[0m");
    assert_eq!(error_label(&auth_err, false), "error[auth]:");
}

#[test]
fn error_summary_is_label_and_sanitized_message() {
    let err = GwsError::Validation("bad\x1b[0m input".to_string());
    let lines = error_summary_lines(&err, false);
    assert_eq!(lines, vec!["error[validation]: bad[0m input".to_string()]);
}

#[test]
fn error_summary_guides_when_api_not_enabled() {
    let err = GwsError::Api {
        code: 403,
        message: "API not enabled.".to_string(),
        reason: "accessNotConfigured".to_string(),
        enable_url: Some("https://console.example/enable".to_string()),
    };
    let lines = error_summary_lines(&err, false);
    assert_eq!(lines.len(), 4);
    assert_eq!(lines[0], "");
    assert_eq!(
        lines[1],
        "error[api]: hint: API not enabled for your GCP project."
    );
    assert_eq!(lines[2], "      Enable it at: https://console.example/enable");

    let without_url = GwsError::Api {
        code: 403,
        message: "API not enabled.".to_string(),
        reason: "accessNotConfigured".to_string(),
        enable_url: None,
    };
    let lines = error_summary_lines(&without_url, false);
    assert!(lines[2].contains("Library to enable the required API."));
}

#[test]
fn error_json_has_code_message_reason_only_without_url() {
    let err = GwsError::Api {
        code: 429,
        message: "Slow down".to_string(),
        reason: "rateLimitExceeded".to_string(),
        enable_url: None,
    };
    let json = to_serde(&err.to_json());
    assert_eq!(
        json.to_string(),
        r#"{"error":{"code":429,"message":"Slow down","reason":"rateLimitExceeded"}}"#
    );
}

#[test]
fn error_to_string_is_its_message() {
    assert_eq!(GwsError::Auth("expired".to_string()).to_string(), "expired");
    let api = GwsError::Api {
        code: 500,
        message: "boom".to_string(),
        reason: "backendError".to_string(),
        enable_url: None,
    };
    assert_eq!(api.to_string(), "boom");
}

#[test]
fn exit_code_table_lists_success_and_each_variant() {
    let table = exit_code_documentation();
    let codes: Vec<i32> = table.iter().map(|(c, _)| *c).collect();
    assert_eq!(codes, vec![0, 1, 2, 3, 4, 5]);
    assert_eq!(table[0].1, "Success");
}

#[test]
fn other_error_displays_its_message_and_reports_its_chain() {
    let err = GwsError::Other {
        message: "Failed to load config".to_string(),
        chain: "Failed to load config: file not found".to_string(),
    };
    assert_eq!(err.to_string(), "Failed to load config");
    let json = to_serde(&err.to_json());
    assert_eq!(json["error"]["message"], "Failed to load config: file not found");
    assert_eq!(
        error_summary_lines(&err, false),
        vec!["error: Failed to load config".to_string()]
    );
}
