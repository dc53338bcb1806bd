//! The `+forward` command: a fetched message forwarded to new recipients.
use vstd::prelude::*;
use crate::cli::{CliArgs, optional_trimmed, opt_string_view, parse_optional_trimmed};
use crate::gmail::message::{MessageBuilder, MessageModel, ThreadingHeaders, build_references,
    references_chain, opt_view};
use crate::gmail::original::{OriginalMessage, placeholder_fields};
use crate::text::{owned, is_prefix, lowercased, to_lowercase, starts_with};

verus! {

/// The arguments of `+forward`.
pub struct ForwardConfig {
    pub message_id: String,
    pub to: String,
    pub from: Option<String>,
    pub cc: Option<String>,
    pub bcc: Option<String>,
    pub body_text: Option<String>,
}

/// The envelope of a forward: recipients, sender, subject and optional note.
pub struct ForwardEnvelope<'a> {
    pub to: &'a str,
    pub cc: Option<&'a str>,
    pub bcc: Option<&'a str>,
    pub from: Option<&'a str>,
    pub subject: &'a str,
    pub body: Option<&'a str>,
}

/// The subject of a forward: unchanged when it already starts with `fwd:`
/// in any letter case, else prefixed with `Fwd: `.
pub open spec fn forward_subject(original_subject: Seq<char>) -> Seq<char> {
    if is_prefix("fwd:"@, lowercased(original_subject)) {
        original_subject
    } else {
        "Fwd: "@ + original_subject
    }
}

/// Builds the subject of a forward.
pub fn build_forward_subject(original_subject: &str) -> (res: String)
    ensures
        res@ == forward_subject(original_subject@),
{
    let lower = to_lowercase(original_subject);
    forward_subject_for(original_subject, lower.as_str())
}

/// The subject of a forward, given the lowercase form of the original
/// subject: unchanged when that form starts with `fwd:`, else prefixed with
/// `Fwd: `.
pub fn forward_subject_for(original_subject: &str, lowered: &str) -> (res: String)
    ensures
        res@ == if is_prefix("fwd:"@, lowered@) {
            original_subject@
        } else {
            "Fwd: "@ + original_subject@
        },
{
    if starts_with(lowered, "fwd:") {
        owned(original_subject)
    } else {
        let mut out = owned("Fwd: ");
        out.append(original_subject);
        out
    }
}

/// The quoted block of a forwarded message: a separator line, the original
/// sender, date, subject and recipients (CC only when there were any), a
/// blank line, then the original body.
pub open spec fn forwarded_block(original: &OriginalMessage) -> Seq<char> {
    "---------- Forwarded message ---------\r\n"@ + "From: "@ + original.from@ + "\r\n"@ + "Date: "@
        + original.date@ + "\r\n"@ + "Subject: "@ + original.subject@ + "\r\n"@ + "To: "@
        + original.to@ + "\r\n"@ + (if original.cc@.len() == 0 {
        Seq::empty()
    } else {
        "Cc: "@ + original.cc@ + "\r\n"@
    }) + "\r\n"@ + original.body_text@
}

/// Formats the original message as a forwarded block.
pub fn format_forwarded_message(original: &OriginalMessage) -> (res: String)
    ensures
        res@ == forwarded_block(original),
{
    let mut out = owned("---------- Forwarded message ---------\r\n");
    out.append("From: ");
    out.append(original.from.as_str());
    out.append("\r\n");
    out.append("Date: ");
    out.append(original.date.as_str());
    out.append("\r\n");
    out.append("Subject: ");
    out.append(original.subject.as_str());
    out.append("\r\n");
    out.append("To: ");
    out.append(original.to.as_str());
    out.append("\r\n");
    let ghost before_cc = out@;
    if !original.cc.as_str().is_empty() {
        out.append("Cc: ");
        out.append(original.cc.as_str());
        out.append("\r\n");
    }
    proof {
        if original.cc@.len() == 0 {
            assert(before_cc + Seq::<char>::empty() == before_cc);
        }
    }
    out.append("\r\n");
    out.append(original.body_text.as_str());
    out
}

/// The envelope of a forward: threaded on the original message.
pub open spec fn forward_model(envelope: &ForwardEnvelope, original: &OriginalMessage) -> MessageModel {
    MessageModel {
        to: envelope.to@,
        subject: envelope.subject@,
        from: opt_view(envelope.from),
        cc: opt_view(envelope.cc),
        bcc: opt_view(envelope.bcc),
        threading: Some(
            (
                original.message_id_header@,
                references_chain(original.references@, original.message_id_header@),
            ),
        ),
    }
}

/// The body of a forward: the note, a blank line and the forwarded block,
/// or the block alone.
pub open spec fn forward_body(note: Option<Seq<char>>, original: &OriginalMessage) -> Seq<char> {
    match note {
        Some(n) => n + "\r\n"@ + "\r\n"@ + forwarded_block(original),
        None => forwarded_block(original),
    }
}

/// The raw RFC 2822 message of a forward.
pub fn create_forward_raw_message(envelope: &ForwardEnvelope, original: &OriginalMessage) -> (res: String)
    requires
        envelope.to@.len() > 0,
    ensures
        res@ == forward_model(envelope, original).spec_build(
            forward_body(opt_view(envelope.body), original),
        ),
{
    let references = build_references(original.references.as_str(), original.message_id_header.as_str());
    let builder = MessageBuilder {
        to: envelope.to,
        subject: envelope.subject,
        from: envelope.from,
        cc: envelope.cc,
        bcc: envelope.bcc,
        threading: Some(
            ThreadingHeaders {
                in_reply_to: original.message_id_header.as_str(),
                references: references.as_str(),
            },
        ),
    };
    let forwarded_block = format_forwarded_message(original);
    let body = match envelope.body {
        Some(note) => {
            let mut b = owned(note);
            b.append("\r\n");
            b.append("\r\n");
            b.append(forwarded_block.as_str());
            b
        },
        None => forwarded_block,
    };
    builder.build(body.as_str())
}

/// Reads the arguments of `+forward`; `message-id` and `to` are required.
pub fn parse_forward_args(matches: &CliArgs) -> (res: ForwardConfig)
    requires
        matches.arg("message-id"@) is Some,
        matches.arg("to"@) is Some,
    ensures
        matches.arg("message-id"@) == Some(res.message_id@),
        matches.arg("to"@) == Some(res.to@),
        opt_string_view(res.from) == optional_trimmed(matches, "from"@),
        opt_string_view(res.cc) == optional_trimmed(matches, "cc"@),
        opt_string_view(res.bcc) == optional_trimmed(matches, "bcc"@),
        opt_string_view(res.body_text) == matches.arg("body"@),
{
    ForwardConfig {
        message_id: owned(matches.get_one("message-id").unwrap().as_str()),
        to: owned(matches.get_one("to").unwrap().as_str()),
        from: parse_optional_trimmed(matches, "from"),
        cc: parse_optional_trimmed(matches, "cc"),
        bcc: parse_optional_trimmed(matches, "bcc"),
        body_text: match matches.get_one("body") {
            Some(b) => Some(owned(b.as_str())),
            None => None,
        },
    }
}

/// The forward that `+forward` sends, once the original message is known:
/// its subject gets the `Fwd:` prefix, the configured recipients and note
/// are used, and it is threaded on the original.
pub fn build_forward_message(config: &ForwardConfig, original: &OriginalMessage) -> (res: String)
    requires
        config.to@.len() > 0,
    ensures
        res@ == (MessageModel {
            to: config.to@,
            subject: forward_subject(original.subject@),
            from: opt_string_view(config.from),
            cc: opt_string_view(config.cc),
            bcc: opt_string_view(config.bcc),
            threading: Some(
                (
                    original.message_id_header@,
                    references_chain(original.references@, original.message_id_header@),
                ),
            ),
        }).spec_build(forward_body(opt_string_view(config.body_text), original)),
{
    let subject = build_forward_subject(original.subject.as_str());
    let envelope = ForwardEnvelope {
        to: config.to.as_str(),
        cc: as_opt_str(&config.cc),
        bcc: as_opt_str(&config.bcc),
        from: as_opt_str(&config.from),
        subject: subject.as_str(),
        body: as_opt_str(&config.body_text),
    };
    create_forward_raw_message(&envelope, original)
}

fn as_opt_str(value: &Option<String>) -> (res: Option<&str>)
    ensures
        opt_view(res) == opt_string_view(*value),
{
    match value {
        Some(v) => Some(v.as_str()),
        None => None,
    }
}

/// The message a forward starts from when no network is used: on a dry run
/// the placeholder for the message (and no token is asked for); otherwise
/// none, and the message has to be fetched.
pub fn offline_original(dry_run: bool, message_id: &str) -> (res: Option<OriginalMessage>)
    ensures
        dry_run ==> (res matches Some(o) && o@ == placeholder_fields(message_id@)),
        !dry_run ==> res is None,
{
    if dry_run {
        Some(OriginalMessage::dry_run_placeholder(message_id))
    } else {
        None
    }
}


/// The layout of the forwarded block, line by line: the separator line, then
/// the original's `From:`, `Date:`, `Subject:` and `To:` lines in that order,
/// then a `Cc:` line exactly when the original had a CC, then a blank line,
/// and last the original body, each at the place where the one before it ends.
pub proof fn forwarded_block_layout(original: OriginalMessage)
    ensures
        ({
            let b = forwarded_block(&original);
            let sep = "---------- Forwarded message ---------\r\n"@;
            let from_line = "From: "@ + original.from@ + "\r\n"@;
            let date_line = "Date: "@ + original.date@ + "\r\n"@;
            let subject_line = "Subject: "@ + original.subject@ + "\r\n"@;
            let to_line = "To: "@ + original.to@ + "\r\n"@;
            let cc_line = "Cc: "@ + original.cc@ + "\r\n"@;
            let at_from = sep.len() as int;
            let at_date = at_from + from_line.len();
            let at_subject = at_date + date_line.len();
            let at_to = at_subject + subject_line.len();
            let at_cc = at_to + to_line.len();
            let at_blank = if original.cc@.len() == 0 { at_cc } else { at_cc + cc_line.len() };
            &&& b.take(at_from) == sep
            &&& b.subrange(at_from, at_date) == from_line
            &&& b.subrange(at_date, at_subject) == date_line
            &&& b.subrange(at_subject, at_to) == subject_line
            &&& b.subrange(at_to, at_cc) == to_line
            &&& original.cc@.len() != 0 ==> b.subrange(at_cc, at_blank) == cc_line
            &&& b.skip(at_blank) == "\r\n"@ + original.body_text@
        }),
{
    let b = forwarded_block(&original);
    let sep = "---------- Forwarded message ---------\r\n"@;
    let from_line = "From: "@ + original.from@ + "\r\n"@;
    let date_line = "Date: "@ + original.date@ + "\r\n"@;
    let subject_line = "Subject: "@ + original.subject@ + "\r\n"@;
    let to_line = "To: "@ + original.to@ + "\r\n"@;
    let cc_line = "Cc: "@ + original.cc@ + "\r\n"@;
    let cc_part = if original.cc@.len() == 0 { Seq::<char>::empty() } else { cc_line };
    let tail = "\r\n"@ + original.body_text@;
    let at_from = sep.len() as int;
    let at_date = at_from + from_line.len();
    let at_subject = at_date + date_line.len();
    let at_to = at_subject + subject_line.len();
    let at_cc = at_to + to_line.len();
    let at_blank = at_cc + cc_part.len();
    assert(b =~= sep + from_line + date_line + subject_line + to_line + cc_part + tail);
    assert(b.take(at_from) =~= sep);
    assert(b.subrange(at_from, at_date) =~= from_line);
    assert(b.subrange(at_date, at_subject) =~= date_line);
    assert(b.subrange(at_subject, at_to) =~= subject_line);
    assert(b.subrange(at_to, at_cc) =~= to_line);
    assert(b.subrange(at_cc, at_blank) =~= cc_part);
    assert(b.skip(at_blank) =~= tail);
}

} // verus!
