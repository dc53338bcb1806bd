//! The library's error type, its exit codes and its machine-readable form.
use vstd::prelude::*;
use crate::json::{Json, JsonValue, member, members_view, lemma_members_view, lemma_get_first, lemma_get_absent,
    lemma_get_single};
use crate::text::{owned, str_eq, colorize, colorized, decimal, decimal_string,
    sanitize_for_terminal, terminal_sanitized};

verus! {

/// An error as the command line reports it.
///
/// `Other` is an unexpected failure: `message` is its own message (what it
/// displays), `chain` the message followed by its causes, as the JSON report
/// gives it.
#[derive(Debug)]
pub enum GwsError {
    Api { code: u16, message: String, reason: String, enable_url: Option<String> },
    Validation(String),
    Auth(String),
    Discovery(String),
    Other { message: String, chain: String },
}

impl GwsError {
    /// Exit code for [`GwsError::Api`] variants.
    pub const EXIT_CODE_API: i32 = 1;
    /// Exit code for [`GwsError::Auth`] variants.
    pub const EXIT_CODE_AUTH: i32 = 2;
    /// Exit code for [`GwsError::Validation`] variants.
    pub const EXIT_CODE_VALIDATION: i32 = 3;
    /// Exit code for [`GwsError::Discovery`] variants.
    pub const EXIT_CODE_DISCOVERY: i32 = 4;
    /// Exit code for [`GwsError::Other`] variants.
    pub const EXIT_CODE_OTHER: i32 = 5;

    /// The exit code of each variant.
    pub open spec fn spec_exit_code(&self) -> i32 {
        match self {
            GwsError::Api { .. } => GwsError::EXIT_CODE_API,
            GwsError::Auth(_) => GwsError::EXIT_CODE_AUTH,
            GwsError::Validation(_) => GwsError::EXIT_CODE_VALIDATION,
            GwsError::Discovery(_) => GwsError::EXIT_CODE_DISCOVERY,
            GwsError::Other { .. } => GwsError::EXIT_CODE_OTHER,
        }
    }

    /// Map each error variant to a stable, documented exit code.
    ///
    /// | Code | Meaning                                      |
    /// |------|----------------------------------------------|
    /// |  0   | Success (never returned here)                |
    /// |  1   | API error — Google returned an error response |
    /// |  2   | Auth error — credentials missing or invalid  |
    /// |  3   | Validation error — bad arguments or input    |
    /// |  4   | Discovery error — could not fetch API schema |
    /// |  5   | Internal error — unexpected failure          |
    pub fn exit_code(&self) -> (res: i32)
        ensures
            res == self.spec_exit_code(),
    {
        match self {
            GwsError::Api { .. } => GwsError::EXIT_CODE_API,
            GwsError::Auth(_) => GwsError::EXIT_CODE_AUTH,
            GwsError::Validation(_) => GwsError::EXIT_CODE_VALIDATION,
            GwsError::Discovery(_) => GwsError::EXIT_CODE_DISCOVERY,
            GwsError::Other { .. } => GwsError::EXIT_CODE_OTHER,
        }
    }

    /// The human-readable message: the text each variant carries.
    pub open spec fn spec_message(&self) -> Seq<char> {
        match self {
            GwsError::Api { message, .. } => message@,
            GwsError::Validation(m) => m@,
            GwsError::Auth(m) => m@,
            GwsError::Discovery(m) => m@,
            GwsError::Other { message, .. } => message@,
        }
    }

    /// The human-readable message of the error.
    pub fn to_string(&self) -> (res: String)
        ensures
            res@ == self.spec_message(),
    {
        match self {
            GwsError::Api { message, .. } => message.clone(),
            GwsError::Validation(m) => m.clone(),
            GwsError::Auth(m) => m.clone(),
            GwsError::Discovery(m) => m.clone(),
            GwsError::Other { message, .. } => message.clone(),
        }
    }

    /// The JSON report of the error: `{"error": {...}}` with the HTTP-like
    /// code, the message and the reason, and `enable_url` when one is known.
    pub open spec fn spec_json(&self) -> Json {
        Json::Object(seq![("error"@, Json::Object(self.spec_error_members()))])
    }

    /// The members of the inner `error` object.
    pub open spec fn spec_error_members(&self) -> Seq<(Seq<char>, Json)> {
        match self {
            GwsError::Api { code, message, reason, enable_url } => {
                let base = error_members(decimal(*code as nat), message@, reason@);
                match enable_url {
                    Some(url) => base.push(("enable_url"@, Json::Str(url@))),
                    None => base,
                }
            },
            GwsError::Validation(m) => error_members("400"@, m@, "validationError"@),
            GwsError::Auth(m) => error_members("401"@, m@, "authError"@),
            GwsError::Discovery(m) => error_members("500"@, m@, "discoveryError"@),
            GwsError::Other { chain, .. } => error_members("500"@, chain@, "internalError"@),
        }
    }

    /// The machine-readable JSON form of the error.
    pub fn to_json(&self) -> (res: JsonValue)
        ensures
            res@ == self.spec_json(),
    {
        let inner = match self {
            GwsError::Api { code, message, reason, enable_url } => {
                let mut members = error_member_list(
                    decimal_string(*code as u64),
                    message.as_str(),
                    reason.as_str(),
                );
                match enable_url {
                    Some(url) => {
                        let ghost before = members@;
                        members.push(member("enable_url", JsonValue::string(url.as_str())));
                        proof {
                            lemma_members_view(before);
                            lemma_members_view(members@);
                            assert(members_view(members@) =~= members_view(before).push(
                                ("enable_url"@, Json::Str(url@)),
                            ));
                        }
                    },
                    None => {},
                }
                members
            },
            GwsError::Validation(m) => error_member_list(owned("400"), m.as_str(), "validationError"),
            GwsError::Auth(m) => error_member_list(owned("401"), m.as_str(), "authError"),
            GwsError::Discovery(m) => error_member_list(owned("500"), m.as_str(), "discoveryError"),
            GwsError::Other { chain, .. } => error_member_list(owned("500"), chain.as_str(), "internalError"),
        };
        let outer = vec![member("error", JsonValue::object(inner))];
        proof {
            lemma_members_view(outer@);
            assert(members_view(outer@) =~= seq![("error"@, Json::Object(self.spec_error_members()))]);
        }
        JsonValue::object(outer)
    }
}

/// The code, message and reason members of an error report.
pub open spec fn error_members(code: Seq<char>, message: Seq<char>, reason: Seq<char>) -> Seq<
    (Seq<char>, Json),
> {
    seq![("code"@, Json::Number(code)), ("message"@, Json::Str(message)), ("reason"@, Json::Str(reason))]
}

fn error_member_list(code: String, message: &str, reason: &str) -> (res: Vec<(String, JsonValue)>)
    ensures
        members_view(res@) == error_members(code@, message@, reason@),
{
    let res = vec![
        member("code", JsonValue::Number(code)),
        member("message", JsonValue::string(message)),
        member("reason", JsonValue::string(reason)),
    ];
    proof {
        lemma_members_view(res@);
        assert(members_view(res@) =~= error_members(res@[0].1->Number_0@, message@, reason@));
    }
    res
}

/// The exit codes and their meanings, for usage text.
pub fn exit_code_documentation() -> (res: Vec<(i32, &'static str)>)
    ensures
        res@.len() == 6,
        res@[0].0 == 0 && res@[0].1@ == "Success"@,
        res@[1].0 == GwsError::EXIT_CODE_API && res@[1].1@
            == "API error  — Google returned an error response"@,
        res@[2].0 == GwsError::EXIT_CODE_AUTH && res@[2].1@
            == "Auth error — credentials missing or invalid"@,
        res@[3].0 == GwsError::EXIT_CODE_VALIDATION && res@[3].1@
            == "Validation — bad arguments or input"@,
        res@[4].0 == GwsError::EXIT_CODE_DISCOVERY && res@[4].1@
            == "Discovery  — could not fetch API schema"@,
        res@[5].0 == GwsError::EXIT_CODE_OTHER && res@[5].1@ == "Internal   — unexpected failure"@,
{
    vec![
        (0, "Success"),
        (GwsError::EXIT_CODE_API, "API error  — Google returned an error response"),
        (GwsError::EXIT_CODE_AUTH, "Auth error — credentials missing or invalid"),
        (GwsError::EXIT_CODE_VALIDATION, "Validation — bad arguments or input"),
        (GwsError::EXIT_CODE_DISCOVERY, "Discovery  — could not fetch API schema"),
        (GwsError::EXIT_CODE_OTHER, "Internal   — unexpected failure"),
    ]
}

/// Distinct variants have distinct exit codes, all between 1 and 5.
pub proof fn exit_codes_distinct(a: GwsError, b: GwsError)
    ensures
        1 <= a.spec_exit_code() <= 5,
        a.spec_exit_code() == b.spec_exit_code() <==> same_variant(&a, &b),
{
}

/// Both errors are of the same variant.
pub open spec fn same_variant(a: &GwsError, b: &GwsError) -> bool {
    ||| (a is Api && b is Api)
    ||| (a is Auth && b is Auth)
    ||| (a is Validation && b is Validation)
    ||| (a is Discovery && b is Discovery)
    ||| (a is Other && b is Other)
}

/// The label text of each variant.
pub open spec fn label_text(err: &GwsError) -> Seq<char> {
    match err {
        GwsError::Api { .. } => "error[api]:"@,
        GwsError::Auth(_) => "error[auth]:"@,
        GwsError::Validation(_) => "error[validation]:"@,
        GwsError::Discovery(_) => "error[discovery]:"@,
        GwsError::Other { .. } => "error:"@,
    }
}

/// The colour of each variant's label: yellow for validation, red otherwise.
pub open spec fn label_color(err: &GwsError) -> Seq<char> {
    match err {
        GwsError::Validation(_) => "33"@,
        _ => "31"@,
    }
}

/// A label for the given error variant, coloured when `color` is set.
pub fn error_label(err: &GwsError, color: bool) -> (res: String)
    ensures
        res@ == colorized(label_text(err), label_color(err), color),
{
    match err {
        GwsError::Api { .. } => colorize("error[api]:", "31", color),
        GwsError::Auth(_) => colorize("error[auth]:", "31", color),
        GwsError::Validation(_) => colorize("error[validation]:", "33", color),
        GwsError::Discovery(_) => colorize("error[discovery]:", "31", color),
        GwsError::Other { .. } => colorize("error:", "31", color),
    }
}

/// The error is an API error whose reason is `accessNotConfigured`.
pub open spec fn is_access_not_configured(err: &GwsError) -> bool {
    match err {
        GwsError::Api { reason, .. } => reason@ == "accessNotConfigured"@,
        _ => false,
    }
}

/// The lines written to standard error for an error: guidance for an API
/// that is not enabled, otherwise the label and the sanitized message.
pub open spec fn summary_lines(err: &GwsError, color: bool) -> Seq<Seq<char>> {
    let label = colorized(label_text(err), label_color(err), color);
    if is_access_not_configured(err) {
        let url_line = match err {
            GwsError::Api { enable_url: Some(url), .. } => "      Enable it at: "@ + url@,
            _ => "      Visit the GCP Console → APIs & Services → Library to enable the required API."@,
        };
        seq![
            Seq::empty(),
            label + " "@ + colorized("hint:"@, "36"@, color) + " API not enabled for your GCP project."@,
            url_line,
            "      After enabling, wait a few seconds and retry your command."@,
        ]
    } else {
        seq![label + " "@ + terminal_sanitized(err.spec_message())]
    }
}

/// The lines to write to standard error when reporting `err` (the JSON
/// report goes to standard output).
pub fn error_summary_lines(err: &GwsError, color: bool) -> (res: Vec<String>)
    ensures
        views_of(res@) == summary_lines(err, color),
{
    let label = error_label(err, color);
    if let GwsError::Api { reason, enable_url, .. } = err {
        if str_eq(reason.as_str(), "accessNotConfigured") {
            let hint = colorize("hint:", "36", color);
            let mut second = label.clone();
            second.append(" ");
            second.append(hint.as_str());
            second.append(" API not enabled for your GCP project.");
            let third = match enable_url {
                Some(url) => {
                    let mut line = owned("      Enable it at: ");
                    line.append(url.as_str());
                    line
                },
                None => owned(
                    "      Visit the GCP Console → APIs & Services → Library to enable the required API.",
                ),
            };
            let res = vec![
                String::new(),
                second,
                third,
                owned("      After enabling, wait a few seconds and retry your command."),
            ];
            proof {
                assert(views_of(res@) =~= summary_lines(err, color));
            }
            return res;
        }
    }
    let mut line = label;
    line.append(" ");
    let message = err.to_string();
    let clean = sanitize_for_terminal(message.as_str());
    line.append(clean.as_str());
    let res = vec![line];
    proof {
        assert(views_of(res@) =~= summary_lines(err, color));
    }
    res
}

/// The views of a sequence of strings.
pub open spec fn views_of(v: Seq<String>) -> Seq<Seq<char>> {
    v.map_values(|x: String| x@)
}


/// What the JSON report of each error says: under `error`, the HTTP-like code
/// (the API's own code, 400 for validation, 401 for auth, 500 otherwise), the
/// message (for an unexpected failure, the message with its causes), the
/// reason (the API's own, or one fixed per variant), and `enable_url` exactly
/// when an API error knows one.
pub proof fn error_report_fields(e: GwsError)
    ensures
        e.spec_json().get("error"@) is Some,
        e.spec_json().get("error"@)->0.get("code"@) == Some(
            Json::Number(
                match e {
                    GwsError::Api { code, .. } => decimal(code as nat),
                    GwsError::Validation(_) => "400"@,
                    GwsError::Auth(_) => "401"@,
                    GwsError::Discovery(_) => "500"@,
                    GwsError::Other { .. } => "500"@,
                },
            ),
        ),
        e.spec_json().get("error"@)->0.get("message"@) == Some(
            Json::Str(
                match e {
                    GwsError::Other { chain, .. } => chain@,
                    _ => e.spec_message(),
                },
            ),
        ),
        e.spec_json().get("error"@)->0.get("reason"@) == Some(
            Json::Str(
                match e {
                    GwsError::Api { reason, .. } => reason@,
                    GwsError::Validation(_) => "validationError"@,
                    GwsError::Auth(_) => "authError"@,
                    GwsError::Discovery(_) => "discoveryError"@,
                    GwsError::Other { .. } => "internalError"@,
                },
            ),
        ),
        e.spec_json().get("error"@)->0.get("enable_url"@) == match e {
            GwsError::Api { enable_url: Some(url), .. } => Some(Json::Str(url@)),
            _ => None,
        },
{
    reveal_strlit("code");
    reveal_strlit("message");
    reveal_strlit("reason");
    reveal_strlit("enable_url");
    let members = e.spec_error_members();
    lemma_get_single("error"@, Json::Object(members), "error"@);
    let (c, m, r) = match e {
        GwsError::Api { code, message, reason, .. } => (decimal(code as nat), message@, reason@),
        GwsError::Validation(x) => ("400"@, x@, "validationError"@),
        GwsError::Auth(x) => ("401"@, x@, "authError"@),
        GwsError::Discovery(x) => ("500"@, x@, "discoveryError"@),
        GwsError::Other { chain, .. } => ("500"@, chain@, "internalError"@),
    };
    let base = error_members(c, m, r);
    assert("code"@.len() != "message"@.len());
    assert("code"@.len() != "reason"@.len());
    assert("message"@.len() != "reason"@.len());
    assert("enable_url"@.len() != "code"@.len());
    assert("enable_url"@.len() != "message"@.len());
    assert("enable_url"@.len() != "reason"@.len());
    lemma_get_first(members, "code"@, 0);
    lemma_get_first(members, "message"@, 1);
    lemma_get_first(members, "reason"@, 2);
    match e {
        GwsError::Api { enable_url: Some(url), .. } => {
            lemma_get_first(members, "enable_url"@, 3);
        },
        _ => {
            lemma_get_absent(members, "enable_url"@);
        },
    }
}

} // verus!
