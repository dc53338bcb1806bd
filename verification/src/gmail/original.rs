//! Reading a fetched Gmail message: its headers, its plain-text body and the
//! fields that replies and forwards quote.
use vstd::prelude::*;
use vstd::utf8::{encode_utf8, valid_utf8, decode_utf8};
use crate::codec::{decode_url_safe, base64_url_safe_decoded, utf8_string};
use crate::json::{Json, JsonValue, items_view, member_index, lemma_member_index, lemma_items_view};
use crate::text::{owned, str_eq};

verus! {

/// The fields of a message that replies and forwards use.
pub struct OriginalMessage {
    pub thread_id: String,
    pub message_id_header: String,
    pub references: String,
    pub from: String,
    pub reply_to: String,
    pub to: String,
    pub cc: String,
    pub subject: String,
    pub date: String,
    pub body_text: String,
}

/// The model of [`OriginalMessage`]: the characters of each field.
pub struct MessageFields {
    pub thread_id: Seq<char>,
    pub message_id_header: Seq<char>,
    pub references: Seq<char>,
    pub from: Seq<char>,
    pub reply_to: Seq<char>,
    pub to: Seq<char>,
    pub cc: Seq<char>,
    pub subject: Seq<char>,
    pub date: Seq<char>,
    pub body_text: Seq<char>,
}

impl View for OriginalMessage {
    type V = MessageFields;

    open spec fn view(&self) -> MessageFields {
        MessageFields {
            thread_id: self.thread_id@,
            message_id_header: self.message_id_header@,
            references: self.references@,
            from: self.from@,
            reply_to: self.reply_to@,
            to: self.to@,
            cc: self.cc@,
            subject: self.subject@,
            date: self.date@,
            body_text: self.body_text@,
        }
    }
}

/// `s` followed by `suffix`.
fn concat2(s: &str, suffix: &str) -> (res: String)
    ensures
        res@ == s@ + suffix@,
{
    let mut out = owned(s);
    out.append(suffix);
    out
}

/// The fields of the placeholder message used for `--dry-run`.
pub open spec fn placeholder_fields(message_id: Seq<char>) -> MessageFields {
    MessageFields {
        thread_id: "thread-"@ + message_id,
        message_id_header: "<"@ + message_id + "@example.com>"@,
        references: Seq::empty(),
        from: "sender@example.com"@,
        reply_to: Seq::empty(),
        to: "you@example.com"@,
        cc: Seq::empty(),
        subject: "Original subject"@,
        date: "Thu, 1 Jan 2026 00:00:00 +0000"@,
        body_text: "Original message body"@,
    }
}

impl OriginalMessage {
    /// Placeholder used for `--dry-run` to avoid requiring auth/network.
    pub fn dry_run_placeholder(message_id: &str) -> (res: Self)
        ensures
            res@ == placeholder_fields(message_id@),
    {
        let id_open = concat2("<", message_id);
        OriginalMessage {
            thread_id: concat2("thread-", message_id),
            message_id_header: concat2(id_open.as_str(), "@example.com>"),
            references: String::new(),
            from: owned("sender@example.com"),
            reply_to: String::new(),
            to: owned("you@example.com"),
            cc: String::new(),
            subject: owned("Original subject"),
            date: owned("Thu, 1 Jan 2026 00:00:00 +0000"),
            body_text: owned("Original message body"),
        }
    }
}

/// Header values gathered from a message's header list.
pub struct ParsedMessageHeaders {
    pub from: String,
    pub reply_to: String,
    pub to: String,
    pub cc: String,
    pub subject: String,
    pub date: String,
    pub message_id_header: String,
    pub references: String,
}

/// The model of [`ParsedMessageHeaders`].
pub struct HeaderFields {
    pub from: Seq<char>,
    pub reply_to: Seq<char>,
    pub to: Seq<char>,
    pub cc: Seq<char>,
    pub subject: Seq<char>,
    pub date: Seq<char>,
    pub message_id_header: Seq<char>,
    pub references: Seq<char>,
}

impl View for ParsedMessageHeaders {
    type V = HeaderFields;

    open spec fn view(&self) -> HeaderFields {
        HeaderFields {
            from: self.from@,
            reply_to: self.reply_to@,
            to: self.to@,
            cc: self.cc@,
            subject: self.subject@,
            date: self.date@,
            message_id_header: self.message_id_header@,
            references: self.references@,
        }
    }
}

/// No header seen yet: every value empty.
pub open spec fn no_headers() -> HeaderFields {
    HeaderFields {
        from: Seq::empty(),
        reply_to: Seq::empty(),
        to: Seq::empty(),
        cc: Seq::empty(),
        subject: Seq::empty(),
        date: Seq::empty(),
        message_id_header: Seq::empty(),
        references: Seq::empty(),
    }
}

impl ParsedMessageHeaders {
    /// Every value empty.
    pub fn new() -> (res: Self)
        ensures
            res@ == no_headers(),
    {
        ParsedMessageHeaders {
            from: String::new(),
            reply_to: String::new(),
            to: String::new(),
            cc: String::new(),
            subject: String::new(),
            date: String::new(),
            message_id_header: String::new(),
            references: String::new(),
        }
    }
}

/// A repeated header's value joined to the earlier ones with a space.
pub open spec fn appended_value(existing: Seq<char>, value: Seq<char>) -> Seq<char> {
    if existing.len() > 0 {
        existing + " "@ + value
    } else {
        value
    }
}

/// A repeated address-list header's non-empty value joined to the earlier
/// ones with `", "`.
pub open spec fn appended_address(existing: Seq<char>, value: Seq<char>) -> Seq<char> {
    if value.len() == 0 {
        existing
    } else if existing.len() > 0 {
        existing + ", "@ + value
    } else {
        value
    }
}

/// Appends a repeated header value, separated by a space.
pub fn append_header_value(existing: &mut String, value: &str)
    ensures
        final(existing)@ == appended_value(old(existing)@, value@),
{
    if !existing.as_str().is_empty() {
        existing.append(" ");
    }
    existing.append(value);
    proof {
        assert(Seq::<char>::empty() + value@ == value@);
    }
}

/// Appends a repeated address-list header value, separated by `", "`;
/// an empty value changes nothing.
pub fn append_address_list_header_value(existing: &mut String, value: &str)
    ensures
        final(existing)@ == appended_address(old(existing)@, value@),
{
    if value.is_empty() {
        return;
    }
    if !existing.as_str().is_empty() {
        existing.append(", ");
    }
    existing.append(value);
    proof {
        assert(Seq::<char>::empty() + value@ == value@);
    }
}

/// The effect of one header on the gathered values: single-valued headers
/// keep the last value, address lists and references accumulate.
pub open spec fn apply_header(h: HeaderFields, name: Seq<char>, value: Seq<char>) -> HeaderFields {
    if name == "From"@ {
        HeaderFields { from: value, ..h }
    } else if name == "Reply-To"@ {
        HeaderFields { reply_to: appended_address(h.reply_to, value), ..h }
    } else if name == "To"@ {
        HeaderFields { to: appended_address(h.to, value), ..h }
    } else if name == "Cc"@ {
        HeaderFields { cc: appended_address(h.cc, value), ..h }
    } else if name == "Subject"@ {
        HeaderFields { subject: value, ..h }
    } else if name == "Date"@ {
        HeaderFields { date: value, ..h }
    } else if name == "Message-ID"@ || name == "Message-Id"@ {
        HeaderFields { message_id_header: value, ..h }
    } else if name == "References"@ {
        HeaderFields { references: appended_value(h.references, value), ..h }
    } else {
        h
    }
}

/// The values gathered from a header list, each header read as its `name`
/// and `value` strings (missing ones read as empty).
pub open spec fn parsed_headers(headers: Seq<Json>) -> HeaderFields
    decreases headers.len(),
{
    if headers.len() == 0 {
        no_headers()
    } else {
        apply_header(
            parsed_headers(headers.drop_last()),
            headers.last().str_or_empty("name"@),
            headers.last().str_or_empty("value"@),
        )
    }
}

/// Gathers the header values that replies and forwards use.
pub fn parse_message_headers(headers: &[JsonValue]) -> (res: ParsedMessageHeaders)
    ensures
        res@ == parsed_headers(items_view(headers@)),
{
    let mut parsed = ParsedMessageHeaders::new();
    let mut i: usize = 0;
    proof {
        lemma_items_view(headers@);
    }
    while i < headers.len()
        invariant
            i <= headers@.len(),
            items_view(headers@).len() == headers@.len(),
            forall|j: int| 0 <= j < headers@.len() ==> #[trigger] items_view(headers@)[j] == headers@[j]@,
            parsed@ == parsed_headers(items_view(headers@).take(i as int)),
        decreases headers.len() - i,
    {
        let header = &headers[i];
        let name = header.str_or_empty("name");
        let value = header.str_or_empty("value");
        let ghost before = parsed@;
        if str_eq(name.as_str(), "From") {
            parsed.from = owned(value.as_str());
        } else if str_eq(name.as_str(), "Reply-To") {
            append_address_list_header_value(&mut parsed.reply_to, value.as_str());
        } else if str_eq(name.as_str(), "To") {
            append_address_list_header_value(&mut parsed.to, value.as_str());
        } else if str_eq(name.as_str(), "Cc") {
            append_address_list_header_value(&mut parsed.cc, value.as_str());
        } else if str_eq(name.as_str(), "Subject") {
            parsed.subject = owned(value.as_str());
        } else if str_eq(name.as_str(), "Date") {
            parsed.date = owned(value.as_str());
        } else if str_eq(name.as_str(), "Message-ID") || str_eq(name.as_str(), "Message-Id") {
            parsed.message_id_header = owned(value.as_str());
        } else if str_eq(name.as_str(), "References") {
            append_header_value(&mut parsed.references, value.as_str());
        }
        proof {
            let hv = items_view(headers@);
            assert(hv.take(i + 1).drop_last() == hv.take(i as int));
            assert(hv.take(i + 1).last() == headers@[i as int]@);
            assert(parsed@ == apply_header(before, name@, value@));
        }
        i = i + 1;
    }
    proof {
        assert(items_view(headers@).take(headers@.len() as int) == items_view(headers@));
    }
    parsed
}

/// The plain-text body of a payload: a `text/plain` part's base64url data
/// decoded as UTF-8, else the first sub-part that has one.
pub open spec fn plain_text(p: Json) -> Option<Seq<char>>
    decreases p, 0int,
{
    if p.str_or_empty("mimeType"@) == "text/plain"@ {
        match p.get("body"@) {
            Some(b) => match b.get("data"@) {
                Some(d) => match d.as_str() {
                    Some(text) => match base64_url_safe_decoded(encode_utf8(text)) {
                        Some(bytes) => if valid_utf8(bytes) {
                            Some(decode_utf8(bytes))
                        } else {
                            None
                        },
                        None => None,
                    },
                    None => None,
                },
                None => None,
            },
            None => None,
        }
    } else {
        match p {
            Json::Object(members) => {
                let i = member_index(members, "parts"@);
                if 0 <= i < members.len() {
                    match members[i].1 {
                        Json::Array(parts) => {
                            proof {
                                assert(decreases_to!(p => members));
                                assert(decreases_to!(members => members[i]));
                                assert(decreases_to!(members[i] => members[i].1));
                                assert(decreases_to!(members[i].1 => parts));
                            }
                            first_plain_text(parts, 0)
                        },
                        _ => None,
                    }
                } else {
                    None
                }
            },
            _ => None,
        }
    }
}

/// The plain-text body of the first part, from index `i` on, that has one.
pub open spec fn first_plain_text(parts: Seq<Json>, i: int) -> Option<Seq<char>>
    decreases parts, parts.len() - i,
{
    if 0 <= i < parts.len() {
        match plain_text(parts[i]) {
            Some(t) => Some(t),
            None => first_plain_text(parts, i + 1),
        }
    } else {
        None
    }
}

/// Scanning parts from `start`: the first part with a plain-text body gives it.
proof fn lemma_first_plain_text_at(parts: Seq<Json>, start: int, i: int)
    requires
        0 <= start <= i < parts.len(),
        plain_text(parts[i]) is Some,
        forall|j: int| start <= j < i ==> #[trigger] plain_text(parts[j]) is None,
    ensures
        first_plain_text(parts, start) == plain_text(parts[i]),
    decreases i - start,
{
    if start < i {
        assert(plain_text(parts[start]) is None);
        lemma_first_plain_text_at(parts, start + 1, i);
    }
    assert(first_plain_text(parts, start) == match plain_text(parts[start]) {
        Some(t) => Some(t),
        None => first_plain_text(parts, start + 1),
    });
}

/// Scanning parts from `start` where none has a plain-text body finds none.
proof fn lemma_first_plain_text_none(parts: Seq<Json>, start: int)
    requires
        0 <= start,
        forall|j: int| start <= j < parts.len() ==> #[trigger] plain_text(parts[j]) is None,
    ensures
        first_plain_text(parts, start) is None,
    decreases parts.len() - start,
{
    if start < parts.len() {
        assert(plain_text(parts[start]) is None);
        lemma_first_plain_text_none(parts, start + 1);
        assert(first_plain_text(parts, start) == match plain_text(parts[start]) {
            Some(t) => Some(t),
            None => first_plain_text(parts, start + 1),
        });
    }
}

/// A payload that is not itself `text/plain` has, as its plain-text body,
/// that of the first of its parts that has one, whatever that part's own
/// MIME type: a multipart part is searched in turn.
pub proof fn plain_text_from_first_part(p: Json, parts: Seq<Json>, i: int)
    requires
        p.str_or_empty("mimeType"@) != "text/plain"@,
        p.get("parts"@) == Some(Json::Array(parts)),
        0 <= i < parts.len(),
        plain_text(parts[i]) is Some,
        forall|j: int| 0 <= j < i ==> #[trigger] plain_text(parts[j]) is None,
    ensures
        plain_text(p) == plain_text(parts[i]),
{
    lemma_member_index(p->Object_0, "parts"@);
    lemma_first_plain_text_at(parts, 0, i);
}

/// A payload that is not itself `text/plain`, none of whose parts has a
/// plain-text body, has none.
pub proof fn plain_text_absent_from_parts(p: Json, parts: Seq<Json>)
    requires
        p.str_or_empty("mimeType"@) != "text/plain"@,
        p.get("parts"@) == Some(Json::Array(parts)),
        forall|j: int| 0 <= j < parts.len() ==> #[trigger] plain_text(parts[j]) is None,
    ensures
        plain_text(p) is None,
{
    lemma_member_index(p->Object_0, "parts"@);
    lemma_first_plain_text_none(parts, 0);
}

/// Two levels down: a `text/plain` part inside a multipart part inside a
/// multipart payload (a message with an attachment, say) gives the payload's
/// plain-text body, when no part before either of them has one.
pub proof fn plain_text_nested(p: Json, parts: Seq<Json>, i: int, sub: Seq<Json>, k: int)
    requires
        p.str_or_empty("mimeType"@) != "text/plain"@,
        p.get("parts"@) == Some(Json::Array(parts)),
        0 <= i < parts.len(),
        forall|j: int| 0 <= j < i ==> #[trigger] plain_text(parts[j]) is None,
        parts[i].str_or_empty("mimeType"@) != "text/plain"@,
        parts[i].get("parts"@) == Some(Json::Array(sub)),
        0 <= k < sub.len(),
        sub[k].str_or_empty("mimeType"@) == "text/plain"@,
        plain_text(sub[k]) is Some,
        forall|j: int| 0 <= j < k ==> #[trigger] plain_text(sub[j]) is None,
    ensures
        plain_text(p) == plain_text(sub[k]),
{
    plain_text_from_first_part(parts[i], sub, k);
    plain_text_from_first_part(p, parts, i);
}

} // verus!

verus! {

/// The value of `get` lies inside the object: a smaller value.
proof fn lemma_get_decreases(p: Json, key: Seq<char>)
    requires
        p.get(key) is Some,
    ensures
        decreases_to!(p => p.get(key)->Some_0),
{
    let members = p->Object_0;
    lemma_member_index(members, key);
    let i = member_index(members, key);
    assert(decreases_to!(p => members));
    assert(decreases_to!(members => members[i]));
    assert(decreases_to!(members[i] => members[i].1));
}

/// Finds the plain-text body of a message payload, searching sub-parts in order.
pub fn extract_plain_text_body(payload: &JsonValue) -> (res: Option<String>)
    ensures
        match res {
            Some(s) => plain_text(payload@) == Some(s@),
            None => plain_text(payload@) is None,
        },
    decreases payload@,
{
    let mime_type = payload.str_or_empty("mimeType");
    if str_eq(mime_type.as_str(), "text/plain") {
        if let Some(body) = payload.get("body") {
            if let Some(data) = body.get("data") {
                if let Some(text) = data.as_str() {
                    if let Some(decoded) = decode_url_safe(text.as_bytes()) {
                        return utf8_string(decoded);
                    }
                }
            }
        }
        return None;
    }
    if let Some(parts_value) = payload.get("parts") {
        if let Some(parts) = parts_value.as_array() {
            let ghost pv = items_view(parts@);
            proof {
                lemma_items_view(parts@);
                let members = payload@->Object_0;
                lemma_member_index(members, "parts"@);
                assert(payload@.get("parts"@) == Some(parts_value@));
                assert(parts_value@ == Json::Array(pv));
            }
            let mut i: usize = 0;
            while i < parts.len()
                invariant
                    i <= parts.len(),
                    pv == items_view(parts@),
                    pv.len() == parts.len(),
                    forall|j: int| 0 <= j < parts.len() ==> #[trigger] pv[j] == parts@[j]@,
                    plain_text(payload@) == first_plain_text(pv, i as int),
                    payload@.get("parts"@) == Some(Json::Array(pv)),
                    payload@.str_or_empty("mimeType"@) != "text/plain"@,
                decreases parts.len() - i,
            {
                proof {
                    lemma_get_decreases(payload@, "parts"@);
                    assert(decreases_to!(Json::Array(pv) => pv));
                    assert(decreases_to!(pv => pv[i as int]));
                }
                if let Some(text) = extract_plain_text_body(&parts[i]) {
                    return Some(text);
                }
                i = i + 1;
            }
        }
    }
    None
}

/// The model of the message that a fetched `format=full` message yields.
pub open spec fn original_of(msg: Json) -> MessageFields {
    let snippet = msg.str_or_empty("snippet"@);
    let headers = match msg.get("payload"@) {
        Some(p) => match p.get("headers"@) {
            Some(h) => match h.as_array() {
                Some(items) => parsed_headers(items),
                None => no_headers(),
            },
            None => no_headers(),
        },
        None => no_headers(),
    };
    let body = match msg.get("payload"@) {
        Some(p) => match plain_text(p) {
            Some(t) => t,
            None => snippet,
        },
        None => snippet,
    };
    MessageFields {
        thread_id: msg.str_or_empty("threadId"@),
        message_id_header: headers.message_id_header,
        references: headers.references,
        from: headers.from,
        reply_to: headers.reply_to,
        to: headers.to,
        cc: headers.cc,
        subject: headers.subject,
        date: headers.date,
        body_text: body,
    }
}

/// Reads the fields that replies and forwards use from a fetched message.
pub fn parse_original_message(msg: &JsonValue) -> (res: OriginalMessage)
    ensures
        res@ == original_of(msg@),
{
    let thread_id = msg.str_or_empty("threadId");
    let snippet = msg.str_or_empty("snippet");
    let mut parsed_headers = ParsedMessageHeaders::new();
    let mut body_text = snippet;
    if let Some(payload) = msg.get("payload") {
        if let Some(headers) = payload.get("headers") {
            if let Some(items) = headers.as_array() {
                parsed_headers = parse_message_headers(items.as_slice());
            }
        }
        if let Some(text) = extract_plain_text_body(payload) {
            body_text = text;
        }
    }
    OriginalMessage {
        thread_id,
        message_id_header: parsed_headers.message_id_header,
        references: parsed_headers.references,
        from: parsed_headers.from,
        reply_to: parsed_headers.reply_to,
        to: parsed_headers.to,
        cc: parsed_headers.cc,
        subject: parsed_headers.subject,
        date: parsed_headers.date,
        body_text,
    }
}

} // verus!
