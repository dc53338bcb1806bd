//! Preparing Gmail API requests: the send method, credentials, and errors.
use vstd::prelude::*;
use crate::discovery::{RestDescription, RestMethod, method_lookup, resolve_method};
use crate::error::GwsError;
use crate::json::{Json, JsonValue, member, members_view, lemma_members_view};
use crate::text::owned;

verus! {

/// Finds `users.messages.send` in the Gmail Discovery Document.
pub fn resolve_send_method(doc: &RestDescription) -> (res: Result<&RestMethod, GwsError>)
    ensures
        match res {
            Ok(method) => method_lookup(*doc, "users"@, "messages"@, "send"@) == Ok::<
                RestMethod,
                Seq<char>,
            >(*method),
            Err(e) => e is Discovery && method_lookup(*doc, "users"@, "messages"@, "send"@) == Err::<
                RestMethod,
                Seq<char>,
            >(e.spec_message()),
        },
{
    resolve_method(doc, "users", "messages", "send")
}

/// How a request is authorized.
#[derive(PartialEq, Eq, Structural, Clone, Copy, Debug)]
pub enum AuthMethod {
    OAuth,
    /// No credentials: the request goes out unauthenticated.
    Unauthenticated,
}

/// The credentials a send proceeds with, given the outcome of asking for a
/// token (its error message on failure): the token with OAuth; without
/// credentials on a dry run; otherwise an authentication error.
pub fn send_credentials(token: Result<String, String>, dry_run: bool) -> (res: Result<
    (Option<String>, AuthMethod),
    GwsError,
>)
    ensures
        match token {
            Ok(t) => res matches Ok((Some(r), m)) && r@ == t@ && m == AuthMethod::OAuth,
            Err(e) => if dry_run {
                res matches Ok((None, m)) && m == AuthMethod::Unauthenticated
            } else {
                res matches Err(GwsError::Auth(msg)) && msg@ == "Gmail auth failed: "@ + e@
            },
        },
{
    match token {
        Ok(t) => Ok((Some(t), AuthMethod::OAuth)),
        Err(_) if dry_run => Ok((None, AuthMethod::Unauthenticated)),
        Err(e) => {
            let mut msg = owned("Gmail auth failed: ");
            msg.append(e.as_str());
            Err(GwsError::Auth(msg))
        },
    }
}

/// The error for a message fetch that the API answered with a failure status.
pub fn fetch_failed_error(status: u16, message_id: &str, body: &str) -> (res: GwsError)
    ensures
        res matches GwsError::Api { code, message, reason, enable_url } && code == status
            && message@ == "Failed to fetch message "@ + message_id@ + ": "@ + body@
            && reason@ == "fetchFailed"@ && enable_url is None,
{
    let mut message = owned("Failed to fetch message ");
    message.append(message_id);
    message.append(": ");
    message.append(body);
    GwsError::Api { code: status, message, reason: owned("fetchFailed"), enable_url: None }
}

/// The query parameters of `users.messages.send`: the authenticated user.
pub fn send_params() -> (res: JsonValue)
    ensures
        res@ == Json::Object(seq![("userId"@, Json::Str("me"@))]),
{
    let members = vec![member("userId", JsonValue::string("me"))];
    proof {
        lemma_members_view(members@);
        assert(members_view(members@) =~= seq![("userId"@, Json::Str("me"@))]);
    }
    JsonValue::object(members)
}

} // verus!
