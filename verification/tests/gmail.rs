use base64::engine::general_purpose::{STANDARD, URL_SAFE};
use base64::Engine;
use clap::{Arg, ArgAction, ArgMatches, Command};
use gws::cli::CliArgs;
use gws::discovery::{RestDescription, RestMethod, RestResource};
use gws::error::GwsError;
use gws::gmail::forward::{
    build_forward_message, build_forward_subject, create_forward_raw_message, forward_subject_for, offline_original,
    parse_forward_args, ForwardEnvelope,
};
use gws::gmail::message::{
    build_raw_send_body, build_references, encode_header_value, sanitize_header_value,
    send_body_with, wrap_encoded_word, MessageBuilder, ThreadingHeaders,
};
use gws::gmail::original::{
    append_address_list_header_value, extract_plain_text_body, parse_original_message,
    OriginalMessage,
};
use gws::gmail::request::{fetch_failed_error, resolve_send_method, send_credentials, AuthMethod};
use gws::gmail::send::{build_send_message, parse_send_args};
use gws::json::JsonValue;

/// The string values given for `names`, as the library reads arguments.
fn cli_args(matches: &ArgMatches, names: &[&str]) -> CliArgs {
    let mut args = CliArgs::new();
    for name in names {
        if let Ok(Some(v)) = matches.try_get_one::<String>(name) {
            args.insert(name, v);
        }
    }
    args
}

fn s(v: &str) -> JsonValue {
    JsonValue::Str(v.to_string())
}

fn obj(members: Vec<(&str, JsonValue)>) -> JsonValue {
    JsonValue::Object(members.into_iter().map(|(k, v)| (k.to_string(), v)).collect())
}

fn header(name: &str, value: &str) -> JsonValue {
    obj(vec![("name", s(name)), ("value", s(value))])
}

fn get_str<'a>(v: &'a JsonValue, key: &str) -> Option<&'a str> {
    v.get(key).and_then(|x| x.as_str())
}

fn original(references: &str, message_id: &str, cc: &str) -> OriginalMessage {
    OriginalMessage {
        thread_id: "t1".to_string(),
        message_id_header: message_id.to_string(),
        references: references.to_string(),
        from: "alice@example.com".to_string(),
        reply_to: "".to_string(),
        to: "bob@example.com".to_string(),
        cc: cc.to_string(),
        subject: "Hello".to_string(),
        date: "Mon, 1 Jan 2026 00:00:00 +0000".to_string(),
        body_text: "Original content".to_string(),
    }
}

// --- forward ---

#[test]
fn test_build_forward_subject_without_prefix() {
    assert_eq!(build_forward_subject("Hello"), "Fwd: Hello");
}

#[test]
fn test_build_forward_subject_with_prefix() {
    assert_eq!(build_forward_subject("Fwd: Hello"), "Fwd: Hello");
}

#[test]
fn test_build_forward_subject_case_insensitive() {
    assert_eq!(build_forward_subject("FWD: Hello"), "FWD: Hello");
}

#[test]
fn test_create_forward_raw_message_without_body() {
    let original = original("", "<abc@example.com>", "");
    let envelope = ForwardEnvelope {
        to: "dave@example.com",
        cc: None,
        bcc: None,
        from: None,
        subject: "Fwd: Hello",
        body: None,
    };
    let raw = create_forward_raw_message(&envelope, &original);

    assert!(raw.contains("To: dave@example.com"));
    assert!(raw.contains("Subject: Fwd: Hello"));
    assert!(raw.contains("In-Reply-To: <abc@example.com>"));
    assert!(raw.contains("References: <abc@example.com>"));
    assert!(raw.contains("---------- Forwarded message ---------"));
    assert!(raw.contains("From: alice@example.com"));
    assert!(raw.contains("To: bob@example.com\r\n\r\nOriginal content"));
    assert!(!raw.ends_with("----------"));
}

#[test]
fn test_create_forward_raw_message_with_all_optional_headers() {
    let original = original("", "<abc@example.com>", "carol@example.com");
    let envelope = ForwardEnvelope {
        to: "dave@example.com",
        cc: Some("eve@example.com"),
        bcc: Some("secret@example.com"),
        from: Some("alias@example.com"),
        subject: "Fwd: Hello",
        body: Some("FYI see below"),
    };
    let raw = create_forward_raw_message(&envelope, &original);

    assert!(raw.contains("Cc: eve@example.com"));
    assert!(raw.contains("Bcc: secret@example.com"));
    assert!(raw.contains("From: alias@example.com"));
    assert!(raw.contains("FYI see below"));
    assert!(raw.contains("Cc: carol@example.com"));
}

#[test]
fn test_create_forward_raw_message_references_chain() {
    let original = original(
        "<msg-0@example.com> <msg-1@example.com>",
        "<msg-2@example.com>",
        "",
    );
    let envelope = ForwardEnvelope {
        to: "dave@example.com",
        cc: None,
        bcc: None,
        from: None,
        subject: "Fwd: Hello",
        body: None,
    };
    let raw = create_forward_raw_message(&envelope, &original);

    assert!(raw.contains("In-Reply-To: <msg-2@example.com>"));
    assert!(
        raw.contains("References: <msg-0@example.com> <msg-1@example.com> <msg-2@example.com>")
    );
}

fn make_forward_matches(args: &[&str]) -> CliArgs {
    let cmd = Command::new("test")
        .arg(Arg::new("message-id").long("message-id"))
        .arg(Arg::new("to").long("to"))
        .arg(Arg::new("from").long("from"))
        .arg(Arg::new("cc").long("cc"))
        .arg(Arg::new("bcc").long("bcc"))
        .arg(Arg::new("body").long("body"))
        .arg(Arg::new("dry-run").long("dry-run").action(ArgAction::SetTrue));
    let matches = cmd.try_get_matches_from(args).unwrap();
    cli_args(&matches, &["message-id", "to", "from", "cc", "bcc", "body"])
}

#[test]
fn test_parse_forward_args() {
    let matches =
        make_forward_matches(&["test", "--message-id", "abc123", "--to", "dave@example.com"]);
    let config = parse_forward_args(&matches);
    assert_eq!(config.message_id, "abc123");
    assert_eq!(config.to, "dave@example.com");
    assert!(config.cc.is_none());
    assert!(config.bcc.is_none());
    assert!(config.body_text.is_none());
}

#[test]
fn test_parse_forward_args_with_all_options() {
    let matches = make_forward_matches(&[
        "test",
        "--message-id",
        "abc123",
        "--to",
        "dave@example.com",
        "--cc",
        "eve@example.com",
        "--bcc",
        "secret@example.com",
        "--body",
        "FYI",
    ]);
    let config = parse_forward_args(&matches);
    assert_eq!(config.cc.unwrap(), "eve@example.com");
    assert_eq!(config.bcc.unwrap(), "secret@example.com");
    assert_eq!(config.body_text.unwrap(), "FYI");

    let matches = make_forward_matches(&[
        "test",
        "--message-id",
        "abc123",
        "--to",
        "dave@example.com",
        "--cc",
        "",
        "--bcc",
        "  ",
    ]);
    let config = parse_forward_args(&matches);
    assert!(config.cc.is_none());
    assert!(config.bcc.is_none());
}

#[test]
fn forward_subject_lowercase_prefix_kept() {
    assert_eq!(build_forward_subject("fwd: hi"), "fwd: hi");
    assert_eq!(build_forward_subject("Re: hi"), "Fwd: Re: hi");
}

#[test]
fn forward_message_threads_on_original_and_prefixes_subject() {
    let matches = make_forward_matches(&[
        "test",
        "--message-id",
        "m1",
        "--to",
        "dave@example.com",
        "--from",
        "  me@example.com  ",
    ]);
    let config = parse_forward_args(&matches);
    assert_eq!(config.from.as_deref(), Some("me@example.com"));
    let original = original("<r0@x>", "<m1@x>", "");
    let raw = build_forward_message(&config, &original);
    assert!(raw.starts_with("To: dave@example.com\r\nSubject: Fwd: Hello\r\nIn-Reply-To: <m1@x>\r\nReferences: <r0@x> <m1@x>\r\n"));
    assert!(raw.contains("\r\nFrom: me@example.com\r\n"));
}

#[test]
fn dry_run_placeholder_names_the_message() {
    let placeholder = OriginalMessage::dry_run_placeholder("abc");
    assert_eq!(placeholder.thread_id, "thread-abc");
    assert_eq!(placeholder.message_id_header, "<abc@example.com>");
    assert_eq!(placeholder.subject, "Original subject");
    assert_eq!(placeholder.references, "");
}

// --- messages ---

#[test]
fn test_build_raw_send_body_with_thread_id() {
    let body = build_raw_send_body("raw message", Some("thread-123"));
    assert_eq!(get_str(&body, "raw"), Some(URL_SAFE.encode("raw message").as_str()));
    assert_eq!(get_str(&body, "threadId"), Some("thread-123"));
}

#[test]
fn test_build_raw_send_body_without_thread_id() {
    let body = build_raw_send_body("raw message", None);
    assert_eq!(get_str(&body, "raw"), Some(URL_SAFE.encode("raw message").as_str()));
    assert!(body.get("threadId").is_none());
}

#[test]
fn raw_send_body_is_encoded_not_copied() {
    let body = build_raw_send_body("To: a@b\r\n\r\nhi", None);
    assert_ne!(get_str(&body, "raw"), Some("To: a@b\r\n\r\nhi"));
    assert_eq!(get_str(&body, "raw"), Some("VG86IGFAYg0KDQpoaQ=="));
}

#[test]
fn test_append_address_list_header_value() {
    let mut header_value = String::new();
    append_address_list_header_value(&mut header_value, "alice@example.com");
    append_address_list_header_value(&mut header_value, "bob@example.com");
    append_address_list_header_value(&mut header_value, "");
    assert_eq!(header_value, "alice@example.com, bob@example.com");
}

#[test]
fn test_parse_original_message_concatenates_repeated_address_and_reference_headers() {
    let msg = obj(vec![
        ("threadId", s("thread-123")),
        ("snippet", s("Snippet fallback")),
        (
            "payload",
            obj(vec![
                ("mimeType", s("text/html")),
                (
                    "headers",
                    JsonValue::Array(vec![
                        header("From", "alice@example.com"),
                        header("Reply-To", "team@example.com"),
                        header("Reply-To", "owner@example.com"),
                        header("To", "bob@example.com"),
                        header("To", "carol@example.com"),
                        header("Cc", "dave@example.com"),
                        header("Cc", "erin@example.com"),
                        header("Subject", "Hello"),
                        header("Date", "Fri, 6 Mar 2026 12:00:00 +0000"),
                        header("Message-ID", "<msg@example.com>"),
                        header("References", "<ref-1@example.com>"),
                        header("References", "<ref-2@example.com>"),
                    ]),
                ),
                (
                    "body",
                    obj(vec![("data", s(&URL_SAFE.encode("<p>HTML only</p>")))]),
                ),
            ]),
        ),
    ]);

    let original = parse_original_message(&msg);

    assert_eq!(original.thread_id, "thread-123");
    assert_eq!(original.from, "alice@example.com");
    assert_eq!(original.reply_to, "team@example.com, owner@example.com");
    assert_eq!(original.to, "bob@example.com, carol@example.com");
    assert_eq!(original.cc, "dave@example.com, erin@example.com");
    assert_eq!(original.subject, "Hello");
    assert_eq!(original.date, "Fri, 6 Mar 2026 12:00:00 +0000");
    assert_eq!(original.message_id_header, "<msg@example.com>");
    assert_eq!(original.references, "<ref-1@example.com> <ref-2@example.com>");
    assert_eq!(original.body_text, "Snippet fallback");
}

#[test]
fn plain_text_body_is_decoded_from_first_plain_part() {
    let payload = obj(vec![
        ("mimeType", s("multipart/alternative")),
        (
            "parts",
            JsonValue::Array(vec![
                obj(vec![
                    ("mimeType", s("text/html")),
                    ("body", obj(vec![("data", s(&URL_SAFE.encode("<b>x</b>")))])),
                ]),
                obj(vec![
                    ("mimeType", s("text/plain")),
                    ("body", obj(vec![("data", s(&URL_SAFE.encode("Hello plain")))])),
                ]),
            ]),
        ),
    ]);
    assert_eq!(extract_plain_text_body(&payload), Some("Hello plain".to_string()));

    let bad = obj(vec![
        ("mimeType", s("text/plain")),
        ("body", obj(vec![("data", s("%%%"))])),
    ]);
    assert_eq!(extract_plain_text_body(&bad), None);

    let not_utf8 = obj(vec![
        ("mimeType", s("text/plain")),
        ("body", obj(vec![("data", s(&URL_SAFE.encode([0xffu8, 0xfe])))])),
    ]);
    assert_eq!(extract_plain_text_body(&not_utf8), None);
}

#[test]
fn message_id_header_accepts_both_spellings() {
    let msg = obj(vec![(
        "payload",
        obj(vec![(
            "headers",
            JsonValue::Array(vec![header("Message-Id", "<lower@x>")]),
        )]),
    )]);
    let original = parse_original_message(&msg);
    assert_eq!(original.message_id_header, "<lower@x>");
    assert_eq!(original.thread_id, "");
    assert_eq!(original.body_text, "");
}

#[test]
fn test_sanitize_header_value_strips_crlf() {
    assert_eq!(
        sanitize_header_value("alice@example.com\r\nBcc: evil@attacker.com"),
        "alice@example.comBcc: evil@attacker.com"
    );
    assert_eq!(sanitize_header_value("normal value"), "normal value");
    assert_eq!(sanitize_header_value("bare\nnewline"), "barenewline");
    assert_eq!(sanitize_header_value("bare\rreturn"), "barereturn");
}

#[test]
fn test_encode_header_value_ascii() {
    assert_eq!(encode_header_value("Hello World"), "Hello World");
}

#[test]
fn test_encode_header_value_non_ascii_short() {
    let encoded = encode_header_value("Solar — Quote");
    assert_eq!(encoded, "=?UTF-8?B?U29sYXIg4oCUIFF1b3Rl?=");
}

#[test]
fn test_encode_header_value_non_ascii_long_folds() {
    let long_subject = "This is a very long subject line that contains non-ASCII characters like — and it must be folded to respect the 75-character line limit of RFC 2047.";
    let encoded = encode_header_value(long_subject);

    assert!(encoded.contains("\r\n "), "Encoded string should be folded");
    let parts: Vec<&str> = encoded.split("\r\n ").collect();
    assert!(parts.len() > 1, "Should be multiple parts");
    for part in &parts {
        assert!(part.starts_with("=?UTF-8?B?"));
        assert!(part.ends_with("?="));
        assert!(part.len() <= 75, "Part too long: {} chars", part.len());
    }
}

#[test]
fn test_encode_header_value_multibyte_boundary() {
    let subject = format!("{}€€€", "A".repeat(43));
    let encoded = encode_header_value(&subject);
    for part in encoded.split("\r\n ") {
        let b64 = part.trim_start_matches("=?UTF-8?B?").trim_end_matches("?=");
        let decoded = STANDARD.decode(b64).expect("valid base64");
        String::from_utf8(decoded).expect("each chunk must be valid UTF-8");
    }
}

#[test]
fn encoded_words_decode_back_to_the_value() {
    let subject = "Grüße aus Köln — ünïcödé everywhere in this rather long subject line";
    let encoded = encode_header_value(subject);
    let mut decoded = String::new();
    for part in encoded.split("\r\n ") {
        let b64 = part.trim_start_matches("=?UTF-8?B?").trim_end_matches("?=");
        decoded.push_str(&String::from_utf8(STANDARD.decode(b64).unwrap()).unwrap());
    }
    assert_eq!(decoded, subject);
}

#[test]
fn test_message_builder_basic() {
    let raw = MessageBuilder {
        to: "test@example.com",
        subject: "Hello",
        from: None,
        cc: None,
        bcc: None,
        threading: None,
    }
    .build("World");

    assert!(raw.contains("To: test@example.com"));
    assert!(raw.contains("Subject: Hello"));
    assert!(raw.contains("MIME-Version: 1.0"));
    assert!(raw.contains("Content-Type: text/plain; charset=utf-8"));
    assert!(raw.contains("\r\n\r\nWorld"));
    assert!(!raw.contains("From:"));
    assert!(!raw.contains("Cc:"));
    assert!(!raw.contains("Bcc:"));
    assert!(!raw.contains("In-Reply-To:"));
    assert!(!raw.contains("References:"));
}

#[test]
fn test_message_builder_all_optional_headers() {
    let raw = MessageBuilder {
        to: "alice@example.com",
        subject: "Re: Hello",
        from: Some("alias@example.com"),
        cc: Some("carol@example.com"),
        bcc: Some("secret@example.com"),
        threading: Some(ThreadingHeaders {
            in_reply_to: "<abc@example.com>",
            references: "<abc@example.com>",
        }),
    }
    .build("Reply body");

    assert!(raw.contains("To: alice@example.com"));
    assert!(raw.contains("Subject: Re: Hello"));
    assert!(raw.contains("From: alias@example.com"));
    assert!(raw.contains("Cc: carol@example.com"));
    assert!(raw.contains("Bcc: secret@example.com"));
    assert!(raw.contains("In-Reply-To: <abc@example.com>"));
    assert!(raw.contains("References: <abc@example.com>"));
    assert!(raw.contains("Reply body"));
}

#[test]
fn test_message_builder_non_ascii_subject() {
    let raw = MessageBuilder {
        to: "test@example.com",
        subject: "Solar — Quote Request",
        from: None,
        cc: None,
        bcc: None,
        threading: None,
    }
    .build("Body");

    assert!(raw.contains("=?UTF-8?B?"));
    assert!(!raw.contains("Solar — Quote Request"));
}

#[test]
fn test_message_builder_sanitizes_crlf_injection() {
    let raw = MessageBuilder {
        to: "alice@example.com\r\nBcc: evil@attacker.com",
        subject: "Hello",
        from: None,
        cc: None,
        bcc: None,
        threading: None,
    }
    .build("Body");

    let header_section = raw.split("\r\n\r\n").next().unwrap();
    let header_lines: Vec<&str> = header_section.split("\r\n").collect();
    assert!(
        !header_lines.iter().any(|l| l.starts_with("Bcc:")),
        "No Bcc header should exist"
    );
}

#[test]
fn test_message_builder_sanitizes_optional_headers() {
    let raw = MessageBuilder {
        to: "alice@example.com",
        subject: "Hello",
        from: Some("sender@example.com\r\nBcc: evil@attacker.com"),
        cc: Some("carol@example.com\r\nX-Injected: yes"),
        bcc: None,
        threading: None,
    }
    .build("Body");

    let header_section = raw.split("\r\n\r\n").next().unwrap();
    let header_lines: Vec<&str> = header_section.split("\r\n").collect();
    assert!(
        !header_lines.iter().any(|l| l.starts_with("X-Injected:")),
        "Injected header via Cc should not exist"
    );
    assert!(
        header_lines.iter().filter(|l| l.starts_with("Bcc:")).count() == 0,
        "Injected Bcc via From should not exist"
    );
}

#[test]
fn message_builder_exact_layout() {
    let raw = MessageBuilder {
        to: "a@x",
        subject: "S",
        from: Some("f@x"),
        cc: None,
        bcc: Some("b@x"),
        threading: None,
    }
    .build("Body");
    assert_eq!(
        raw,
        "To: a@x\r\nSubject: S\r\nMIME-Version: 1.0\r\nContent-Type: text/plain; charset=utf-8\r\nFrom: f@x\r\nBcc: b@x\r\n\r\nBody"
    );
}

#[test]
fn test_build_references_empty() {
    assert_eq!(build_references("", "<msg-1@example.com>"), "<msg-1@example.com>");
}

#[test]
fn test_build_references_with_existing() {
    assert_eq!(
        build_references("<msg-0@example.com>", "<msg-1@example.com>"),
        "<msg-0@example.com> <msg-1@example.com>"
    );
}

fn gmail_doc() -> RestDescription {
    let send_method = RestMethod {
        http_method: "POST".to_string(),
        path: "gmail/v1/users/{userId}/messages/send".to_string(),
        ..Default::default()
    };
    let mut messages = RestResource::default();
    messages.methods.push(("send".to_string(), send_method));
    let mut users = RestResource::default();
    users.resources.push(("messages".to_string(), messages));
    let mut doc = RestDescription::default();
    doc.resources = vec![("users".to_string(), users)];
    doc
}

#[test]
fn test_resolve_send_method_finds_gmail_send_method() {
    let doc = gmail_doc();
    let resolved = resolve_send_method(&doc).unwrap();
    assert_eq!(resolved.http_method, "POST");
    assert_eq!(resolved.path, "gmail/v1/users/{userId}/messages/send");
}

#[test]
fn resolve_send_method_reports_each_missing_level() {
    let empty = RestDescription::default();
    match resolve_send_method(&empty) {
        Err(GwsError::Discovery(m)) => assert_eq!(m, "Resource 'users' not found"),
        _ => panic!("expected a discovery error"),
    }
    let mut doc = RestDescription::default();
    doc.resources.push(("users".to_string(), RestResource::default()));
    match resolve_send_method(&doc) {
        Err(GwsError::Discovery(m)) => assert_eq!(m, "Resource 'users.messages' not found"),
        _ => panic!("expected a discovery error"),
    }
    let mut users = RestResource::default();
    users.resources.push(("messages".to_string(), RestResource::default()));
    let mut doc = RestDescription::default();
    doc.resources.push(("users".to_string(), users));
    match resolve_send_method(&doc) {
        Err(GwsError::Discovery(m)) => assert_eq!(m, "Method 'users.messages.send' not found"),
        _ => panic!("expected a discovery error"),
    }
}

#[test]
fn credentials_fall_back_only_on_dry_run() {
    match send_credentials(Ok("tok".to_string()), false) {
        Ok((Some(t), AuthMethod::OAuth)) => assert_eq!(t, "tok"),
        _ => panic!("expected the token"),
    }
    match send_credentials(Err("no creds".to_string()), true) {
        Ok((None, AuthMethod::Unauthenticated)) => {}
        _ => panic!("expected no credentials"),
    }
    match send_credentials(Err("no creds".to_string()), false) {
        Err(GwsError::Auth(m)) => assert_eq!(m, "Gmail auth failed: no creds"),
        _ => panic!("expected an auth error"),
    }
}

#[test]
fn fetch_failure_is_an_api_error() {
    match fetch_failed_error(404, "m1", "gone") {
        GwsError::Api { code, message, reason, enable_url } => {
            assert_eq!(code, 404);
            assert_eq!(message, "Failed to fetch message m1: gone");
            assert_eq!(reason, "fetchFailed");
            assert!(enable_url.is_none());
        }
        _ => panic!("expected an API error"),
    }
}

// --- send ---

fn make_matches_send(args: &[&str]) -> CliArgs {
    let cmd = Command::new("test")
        .arg(Arg::new("to").long("to"))
        .arg(Arg::new("subject").long("subject"))
        .arg(Arg::new("body").long("body"))
        .arg(Arg::new("cc").long("cc"))
        .arg(Arg::new("bcc").long("bcc"));
    let matches = cmd.try_get_matches_from(args).unwrap();
    cli_args(&matches, &["to", "subject", "body", "cc", "bcc"])
}

#[test]
fn test_parse_send_args() {
    let matches = make_matches_send(&[
        "test",
        "--to",
        "me@example.com",
        "--subject",
        "Hi",
        "--body",
        "Body",
    ]);
    let config = parse_send_args(&matches);
    assert_eq!(config.to, "me@example.com");
    assert_eq!(config.subject, "Hi");
    assert_eq!(config.body_text, "Body");
    assert!(config.cc.is_none());
    assert!(config.bcc.is_none());
}

#[test]
fn test_parse_send_args_with_cc_and_bcc() {
    let matches = make_matches_send(&[
        "test",
        "--to",
        "me@example.com",
        "--subject",
        "Hi",
        "--body",
        "Body",
        "--cc",
        "carol@example.com",
        "--bcc",
        "secret@example.com",
    ]);
    let config = parse_send_args(&matches);
    assert_eq!(config.cc.unwrap(), "carol@example.com");
    assert_eq!(config.bcc.unwrap(), "secret@example.com");

    let matches = make_matches_send(&[
        "test",
        "--to",
        "me@example.com",
        "--subject",
        "Hi",
        "--body",
        "Body",
        "--cc",
        "  ",
        "--bcc",
        "",
    ]);
    let config = parse_send_args(&matches);
    assert!(config.cc.is_none());
    assert!(config.bcc.is_none());
}

#[test]
fn send_message_is_built_from_arguments() {
    let matches = make_matches_send(&[
        "test", "--to", "me@x", "--subject", "Hi", "--body", "Body", "--cc", " c@x ",
    ]);
    let config = parse_send_args(&matches);
    let raw = build_send_message(&config);
    assert_eq!(
        raw,
        "To: me@x\r\nSubject: Hi\r\nMIME-Version: 1.0\r\nContent-Type: text/plain; charset=utf-8\r\nCc: c@x\r\n\r\nBody"
    );
}

#[test]
fn forward_subject_follows_the_lowercase_form() {
    assert_eq!(forward_subject_for("FwD: x", "fwd: x"), "FwD: x");
    assert_eq!(forward_subject_for("FwD: x", "FwD: x"), "Fwd: FwD: x");
}

#[test]
fn encoded_word_wraps_base64() {
    assert_eq!(wrap_encoded_word("QQ=="), "=?UTF-8?B?QQ==?=");
}

#[test]
fn send_body_carries_encoded_message_and_thread() {
    let body = send_body_with("abc".to_string(), Some("t9"));
    assert_eq!(get_str(&body, "raw"), Some("abc"));
    assert_eq!(get_str(&body, "threadId"), Some("t9"));
    let body = send_body_with("abc".to_string(), None);
    assert!(body.get("threadId").is_none());
}

#[test]
fn encoded_header_value_is_ascii() {
    for v in ["Solar — Quote", "ü", "plain", "日本語のとても長い件名を書いてみると折り返しが必要になります"] {
        assert!(encode_header_value(v).is_ascii(), "{v}");
    }
}

#[test]
fn built_message_splits_at_first_blank_line() {
    let raw = MessageBuilder {
        to: "a@x\r\n\r\nInjected: body",
        subject: "Solar — Quote Request",
        from: Some("f@x\n"),
        cc: None,
        bcc: None,
        threading: None,
    }
    .build("Body\r\n\r\nmore");
    let (head, body) = raw.split_once("\r\n\r\n").unwrap();
    assert_eq!(body, "Body\r\n\r\nmore");
    assert!(head.starts_with("To: a@xInjected: body\r\nSubject: =?UTF-8?B?"));
    assert!(!raw.contains("Solar — Quote Request"));
}

#[test]
fn dry_run_forwards_the_placeholder_without_fetching() {
    let o = offline_original(true, "m7").unwrap();
    assert_eq!(o.thread_id, "thread-m7");
    assert!(offline_original(false, "m7").is_none());
}

#[test]
fn header_fields_come_in_order() {
    let raw = MessageBuilder {
        to: "a@x",
        subject: "Grüße aus Köln, eine sehr lange Betreffzeile, die gefaltet werden muss, ja",
        from: Some("f@x"),
        cc: Some("c@x"),
        bcc: Some("b@x"),
        threading: Some(ThreadingHeaders { in_reply_to: "<1@x>", references: "<0@x> <1@x>" }),
    }
    .build("Body");
    let head = raw.split("\r\n\r\n").next().unwrap();
    let fields: Vec<&str> = head
        .split("\r\n")
        .filter(|l| !l.starts_with(' '))
        .map(|l| l.split(':').next().unwrap())
        .collect();
    assert_eq!(
        fields,
        vec!["To", "Subject", "In-Reply-To", "References", "MIME-Version", "Content-Type", "From", "Cc", "Bcc"]
    );
    assert!(head.contains("\r\n "));
}
