//! The `+send` command: a new message to the given recipients.
use vstd::prelude::*;
use crate::cli::{CliArgs, optional_trimmed, opt_string_view, parse_optional_trimmed};
use crate::gmail::message::{MessageBuilder, MessageModel, without_line_breaks, optional_header, optional_line,
    mime_lines,
    field_lines, header_field_starts, header_fields_in_order};
use crate::text::is_prefix;
use crate::text::owned;

verus! {

/// The arguments of `+send`.
pub struct SendConfig {
    pub to: String,
    pub subject: String,
    pub body_text: String,
    pub cc: Option<String>,
    pub bcc: Option<String>,
}

/// Reads the arguments of `+send`; `to`, `subject` and `body` are required.
pub fn parse_send_args(matches: &CliArgs) -> (res: SendConfig)
    requires
        matches.arg("to"@) is Some,
        matches.arg("subject"@) is Some,
        matches.arg("body"@) is Some,
    ensures
        matches.arg("to"@) == Some(res.to@),
        matches.arg("subject"@) == Some(res.subject@),
        matches.arg("body"@) == Some(res.body_text@),
        opt_string_view(res.cc) == optional_trimmed(matches, "cc"@),
        opt_string_view(res.bcc) == optional_trimmed(matches, "bcc"@),
{
    let to = owned(matches.get_one("to").unwrap().as_str());
    let subject = owned(matches.get_one("subject").unwrap().as_str());
    let body_text = owned(matches.get_one("body").unwrap().as_str());
    let cc = parse_optional_trimmed(matches, "cc");
    let bcc = parse_optional_trimmed(matches, "bcc");
    SendConfig { to, subject, body_text, cc, bcc }
}

/// The envelope of a new message from `+send` arguments.
pub open spec fn send_envelope(config: &SendConfig) -> MessageModel {
    MessageModel {
        to: config.to@,
        subject: config.subject@,
        from: None,
        cc: opt_string_view(config.cc),
        bcc: opt_string_view(config.bcc),
        threading: None,
    }
}

/// The raw RFC 2822 message that `+send` sends.
pub fn build_send_message(config: &SendConfig) -> (res: String)
    requires
        config.to@.len() > 0,
    ensures
        res@ == send_envelope(config).spec_build(config.body_text@),
{
    let builder = MessageBuilder {
        to: config.to.as_str(),
        subject: config.subject.as_str(),
        from: None,
        cc: match &config.cc {
            Some(c) => Some(c.as_str()),
            None => None,
        },
        bcc: match &config.bcc {
            Some(b) => Some(b.as_str()),
            None => None,
        },
        threading: None,
    };
    builder.build(config.body_text.as_str())
}


/// `--bcc` reaches the message: with a BCC, the last header line of the built
/// message is `Bcc: ` and the BCC (line breaks taken out), just before the
/// blank line and the body; with none, no header field of it is a `Bcc` field.
pub proof fn send_message_bcc(config: SendConfig)
    ensures
        ({
            let m = send_envelope(&config);
            let msg = m.spec_build(config.body_text@);
            match config.bcc {
                Some(b) => {
                    let tail = "\r\n"@ + "Bcc: "@ + without_line_breaks(b@) + "\r\n"@ + "\r\n"@
                        + config.body_text@;
                    &&& m.header_lines().last() == "Bcc: "@ + without_line_breaks(b@)
                    &&& tail.len() <= msg.len()
                    &&& msg.skip(msg.len() - tail.len()) == tail
                },
                None => forall|i: int|
                    0 <= i < field_lines(m.header_lines()).len() ==> !is_prefix(
                        "Bcc: "@,
                        #[trigger] field_lines(m.header_lines())[i],
                    ),
            }
        }),
{
    let m = send_envelope(&config);
    let msg = m.spec_build(config.body_text@);
    match config.bcc {
        Some(b) => {
            let m2 = MessageModel { bcc: None, ..m };
            let ob = optional_header("Bcc: "@, m.bcc);
            assert(ob == "\r\n"@ + "Bcc: "@ + without_line_breaks(b@));
            assert(m.spec_headers() =~= m2.spec_headers() + ob);
            let tail = ob + "\r\n"@ + "\r\n"@ + config.body_text@;
            assert(msg =~= m2.spec_headers() + tail);
            assert(msg.skip(msg.len() - tail.len()) =~= tail);
        },
        None => {
            reveal_strlit("To: ");
            reveal_strlit("Subject: ");
            reveal_strlit("MIME-Version: ");
            reveal_strlit("Content-Type: ");
            reveal_strlit("Cc: ");
            reveal_strlit("Bcc: ");
            header_fields_in_order(m);
            let starts = header_field_starts(m);
            let fl = field_lines(m.header_lines());
            assert forall|i: int| 0 <= i < starts.len() implies #[trigger] starts[i].len() > 0
                && starts[i][0] != 'B' by {
                if m.cc is Some {
                    assert(starts =~= seq!["To: "@, "Subject: "@, "MIME-Version: "@, "Content-Type: "@, "Cc: "@]);
                } else {
                    assert(starts =~= seq!["To: "@, "Subject: "@, "MIME-Version: "@, "Content-Type: "@]);
                }
            }
            assert forall|i: int| 0 <= i < fl.len() implies !is_prefix("Bcc: "@, #[trigger] fl[i]) by {
                assert(is_prefix(starts[i], fl[i]));
                assert(starts[i].len() > 0 && starts[i][0] != 'B');
                assert(fl[i].subrange(0, starts[i].len() as int)[0] == fl[i][0]);
                if is_prefix("Bcc: "@, fl[i]) {
                    assert(fl[i].subrange(0, 5)[0] == fl[i][0]);
                }
            }
        },
    }
}


/// The message `+send` builds is addressed as asked: its first header line is
/// `To: ` and the recipients, a CC gives a `Cc: ` line (the last one, or the
/// one before the `Bcc: ` line), and the body follows the blank line that
/// ends the headers.
pub proof fn send_message_fields(config: SendConfig)
    ensures
        ({
            let m = send_envelope(&config);
            let lines = m.header_lines();
            let msg = m.spec_build(config.body_text@);
            let tail = "\r\n"@ + "\r\n"@ + config.body_text@;
            &&& lines[0] == "To: "@ + without_line_breaks(config.to@)
            &&& tail.len() <= msg.len()
            &&& msg.skip(msg.len() - tail.len()) == tail
            &&& config.cc matches Some(c) ==> lines[lines.len() - 1 - (if config.bcc is Some {
                1int
            } else {
                0int
            })] == "Cc: "@ + without_line_breaks(c@)
        }),
{
    let m = send_envelope(&config);
    let lines = m.header_lines();
    let msg = m.spec_build(config.body_text@);
    let tail = "\r\n"@ + "\r\n"@ + config.body_text@;
    assert(msg =~= m.spec_headers() + tail);
    assert(msg.skip(msg.len() - tail.len()) =~= tail);
    let before = m.to_subject_lines() + m.threading_lines() + mime_lines() + optional_line("From: "@, m.from);
    let cl = optional_line("Cc: "@, m.cc);
    let bl = optional_line("Bcc: "@, m.bcc);
    assert(lines =~= before + cl + bl);
    assert(lines[0] == m.to_subject_lines()[0]);
}

} // verus!
