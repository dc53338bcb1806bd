//! RFC 2822 message construction with header sanitization and RFC 2047
//! encoding of non-ASCII header values.
use vstd::prelude::*;
use vstd::utf8::{encode_utf8, decode_utf8, is_ascii_chars, char_is_scalar};
use crate::codec::{encode_standard, encode_url_safe, base64_standard, base64_url_safe, padded_base64_len, is_base64_char,
    base64_decoded, base64_round_trip};
use crate::json::{Json, JsonValue, member, members_view, lemma_members_view};
use crate::text::{push_char, owned, join_spec, is_prefix, lemma_join_push};

verus! {

/// The characters of `s` other than CR and LF, in order.
pub open spec fn without_line_breaks(s: Seq<char>) -> Seq<char>
    decreases s.len(),
{
    if s.len() == 0 {
        s
    } else if s.last() == '\r' || s.last() == '\n' {
        without_line_breaks(s.drop_last())
    } else {
        without_line_breaks(s.drop_last()).push(s.last())
    }
}

/// No CR or LF occurs in `s`.
pub open spec fn no_line_breaks(s: Seq<char>) -> bool {
    forall|i: int| 0 <= i < s.len() ==> #[trigger] s[i] != '\r' && s[i] != '\n'
}

pub proof fn lemma_without_line_breaks(s: Seq<char>)
    ensures
        no_line_breaks(without_line_breaks(s)),
        without_line_breaks(s).len() <= s.len(),
    decreases s.len(),
{
    if s.len() > 0 {
        lemma_without_line_breaks(s.drop_last());
        let rest = without_line_breaks(s.drop_last());
        if !(s.last() == '\r' || s.last() == '\n') {
            assert forall|i: int| 0 <= i < rest.len() + 1 implies #[trigger] rest.push(s.last())[i]
                != '\r' && rest.push(s.last())[i] != '\n' by {
                if i < rest.len() {
                    assert(rest.push(s.last())[i] == rest[i]);
                }
            }
        }
    }
}

/// Strip CR and LF characters to prevent header injection attacks.
pub fn sanitize_header_value(value: &str) -> (res: String)
    ensures
        res@ == without_line_breaks(value@),
        no_line_breaks(res@),
{
    proof {
        lemma_without_line_breaks(value@);
    }
    let mut out = String::new();
    for c in it: value.chars()
        invariant
            it.seq() == value@,
            out@ == without_line_breaks(value@.take(it.index() as int)),
    {
        proof {
            assert(value@.take(it.index() + 1).drop_last() == value@.take(it.index() as int));
        }
        if c != '\r' && c != '\n' {
            push_char(&mut out, c);
        }
    }
    proof {
        assert(value@.take(value@.len() as int) == value@);
    }
    out
}

/// Largest number of UTF-8 bytes that one RFC 2047 encoded-word carries:
/// 45 bytes give 60 base64 characters, and with `=?UTF-8?B?` and `?=` the
/// word stays under the 75-character limit.
pub const MAX_RAW_LEN: usize = 45;

/// The number of UTF-8 bytes of a character sequence.
pub open spec fn utf8_len(s: Seq<char>) -> nat {
    encode_utf8(s).len()
}

/// Greedy split of `rest` into chunks of at most `MAX_RAW_LEN` UTF-8 bytes,
/// continuing the chunk `cur`; a chunk is cut only before a character that
/// would make it too long, and never left empty.
pub open spec fn chunks_from(rest: Seq<char>, cur: Seq<char>) -> Seq<Seq<char>>
    decreases rest.len(),
{
    if rest.len() == 0 {
        if cur.len() == 0 {
            Seq::empty()
        } else {
            seq![cur]
        }
    } else if utf8_len(cur) + utf8_len(seq![rest[0]]) > MAX_RAW_LEN && cur.len() > 0 {
        seq![cur] + chunks_from(rest.drop_first(), seq![rest[0]])
    } else {
        chunks_from(rest.drop_first(), cur.push(rest[0]))
    }
}

/// The chunks of a header value, cut at character boundaries.
pub open spec fn header_chunks(s: Seq<char>) -> Seq<Seq<char>> {
    chunks_from(s, Seq::empty())
}

/// The RFC 2047 encoded-word carrying one chunk.
pub open spec fn encoded_word(chunk: Seq<char>) -> Seq<char> {
    "=?UTF-8?B?"@ + base64_standard(encode_utf8(chunk)) + "?="@
}

/// The encoded-words of a header value, one per chunk.
pub open spec fn encoded_words(s: Seq<char>) -> Seq<Seq<char>> {
    header_chunks(s).map_values(|c: Seq<char>| encoded_word(c))
}

/// An ASCII value unchanged; otherwise its encoded-words folded with CRLF
/// and a space.
pub open spec fn encoded_header_value(s: Seq<char>) -> Seq<char> {
    if is_ascii_chars(s) {
        s
    } else {
        join_spec(encoded_words(s), "\r\n "@)
    }
}

pub proof fn lemma_encode_utf8_concat(a: Seq<char>, b: Seq<char>)
    ensures
        encode_utf8(a + b) == encode_utf8(a) + encode_utf8(b),
    decreases a.len(),
{
    if a.len() > 0 {
        lemma_encode_utf8_concat(a.drop_first(), b);
        assert((a + b).drop_first() == a.drop_first() + b);
        assert(encode_utf8(a) + encode_utf8(b) =~= encode_scalar_first(a) + (encode_utf8(
            a.drop_first(),
        ) + encode_utf8(b)));
    }
}

spec fn encode_scalar_first(a: Seq<char>) -> Seq<u8>
    recommends
        a.len() > 0,
{
    vstd::utf8::encode_scalar(a[0] as u32)
}

pub proof fn lemma_utf8_len_char(c: char)
    ensures
        utf8_len(seq![c]) == vstd::utf8::encode_scalar(c as u32).len(),
        1 <= utf8_len(seq![c]) <= 4,
        (c as u32) <= 0x7f ==> utf8_len(seq![c]) == 1,
        0x7f < (c as u32) <= 0x7ff ==> utf8_len(seq![c]) == 2,
        0x7ff < (c as u32) <= 0xffff ==> utf8_len(seq![c]) == 3,
        0xffff < (c as u32) ==> utf8_len(seq![c]) == 4,
{
    char_is_scalar(c);
    assert(seq![c].drop_first() =~= Seq::<char>::empty());
    assert(encode_utf8(Seq::<char>::empty()) =~= Seq::<u8>::empty());
    assert(encode_utf8(seq![c]) =~= vstd::utf8::encode_scalar(c as u32) + encode_utf8(
        Seq::<char>::empty(),
    ));
}

/// The UTF-8 byte length of one character.
fn char_utf8_len(c: char) -> (n: usize)
    ensures
        n == utf8_len(seq![c]),
        1 <= n <= 4,
{
    proof {
        lemma_utf8_len_char(c);
    }
    let u = c as u32;
    if u <= 0x7f {
        1
    } else if u <= 0x7ff {
        2
    } else if u <= 0xffff {
        3
    } else {
        4
    }
}

/// Chunking keeps every character in order, makes no empty chunk, and keeps
/// each chunk within `MAX_RAW_LEN` bytes.
pub proof fn lemma_chunks_from(rest: Seq<char>, cur: Seq<char>)
    requires
        utf8_len(cur) <= MAX_RAW_LEN,
    ensures
        chunks_from(rest, cur).flatten() == cur + rest,
        forall|i: int|
            0 <= i < chunks_from(rest, cur).len() ==> #[trigger] chunks_from(rest, cur)[i].len() > 0
                && utf8_len(chunks_from(rest, cur)[i]) <= MAX_RAW_LEN,
    decreases rest.len(),
{
    if rest.len() == 0 {
        if cur.len() == 0 {
            assert(cur + rest =~= Seq::<char>::empty());
        } else {
            assert(seq![cur].flatten() == cur + seq![cur].drop_first().flatten());
            assert(cur + rest =~= cur);
        }
    } else {
        let c = rest[0];
        lemma_encode_utf8_concat(cur, seq![c]);
        lemma_utf8_len_char(c);
        if utf8_len(cur) + utf8_len(seq![c]) > MAX_RAW_LEN && cur.len() > 0 {
            lemma_chunks_from(rest.drop_first(), seq![c]);
            let tail = chunks_from(rest.drop_first(), seq![c]);
            let all = seq![cur] + tail;
            assert(all.drop_first() == tail);
            assert(all.flatten() == cur + tail.flatten());
            assert(cur + rest =~= cur + (seq![c] + rest.drop_first()));
            assert forall|i: int| 0 <= i < all.len() implies #[trigger] all[i].len() > 0
                && utf8_len(all[i]) <= MAX_RAW_LEN by {
                if i > 0 {
                    assert(all[i] == tail[i - 1]);
                }
            }
        } else {
            assert(cur.push(c) == cur + seq![c]);
            lemma_chunks_from(rest.drop_first(), cur.push(c));
            assert(cur + rest =~= cur.push(c) + rest.drop_first());
        }
    }
}

/// RFC 2047 encode a header value if it contains non-ASCII characters.
/// Uses standard Base64 (RFC 2045) and folds at the 75-char encoded-word limit.
pub fn encode_header_value(value: &str) -> (res: String)
    ensures
        res@ == encoded_header_value(value@),
        header_chunks(value@).flatten() == value@,
        !is_ascii_chars(value@) ==> encoded_words(value@).len() > 0,
        !is_ascii_chars(value@) ==> forall|i: int|
            0 <= i < encoded_words(value@).len() ==> {
                &&& #[trigger] encoded_words(value@)[i].len() <= 75
                &&& no_line_breaks(encoded_words(value@)[i])
            },
{
    proof {
        lemma_chunks_from(value@, Seq::empty());
        assert(Seq::<char>::empty() + value@ == value@);
    }
    if value.is_ascii() {
        return owned(value);
    }
    let mut words: Vec<String> = Vec::new();
    let mut cur = String::new();
    let mut cur_len: usize = 0;
    let ghost chunks: Seq<Seq<char>> = Seq::empty();
    proof {
        assert(value@.skip(0) == value@);
        assert(encode_utf8(Seq::<char>::empty()) == Seq::<u8>::empty());
    }
    for c in it: value.chars()
        invariant
            it.seq() == value@,
            cur_len == utf8_len(cur@),
            cur_len <= MAX_RAW_LEN,
            chunks + chunks_from(value@.skip(it.index() as int), cur@) == header_chunks(value@),
            words@.len() == chunks.len(),
            forall|j: int| 0 <= j < chunks.len() ==> #[trigger] words@[j]@ == encoded_word(chunks[j]),
            forall|j: int|
                0 <= j < chunks.len() ==> #[trigger] words@[j]@.len() <= 75 && no_line_breaks(
                    words@[j]@,
                ) && is_ascii_chars(words@[j]@),
    {
        let n = char_utf8_len(c);
        let ghost rest = value@.skip(it.index() as int);
        proof {
            assert(rest[0] == c);
            assert(rest.drop_first() == value@.skip(it.index() + 1));
            lemma_encode_utf8_concat(cur@, seq![c]);
        }
        if cur_len + n > MAX_RAW_LEN && cur_len > 0 {
            proof {
                assert(cur@.len() > 0);
                chunks = chunks.push(cur@);
                assert(seq![cur@] + chunks_from(rest.drop_first(), seq![c]) == chunks_from(rest, cur@));
            }
            let word = encoded_word_of(cur.as_str(), cur_len);
            words.push(word);
            cur = String::new();
            push_char(&mut cur, c);
            cur_len = n;
            proof {
                assert(cur@ =~= seq![c]);
            }
        } else {
            let ghost old_cur = cur@;
            proof {
                if cur_len == 0 {
                    assert(cur@.len() == 0) by {
                        if cur@.len() > 0 {
                            vstd::utf8::char_is_scalar(cur@[0]);
                            assert(encode_utf8(cur@).len() > 0);
                        }
                    }
                }
            }
            push_char(&mut cur, c);
            cur_len = cur_len + n;
            proof {
                assert(cur@ == old_cur.push(c));
                assert(old_cur.push(c) =~= old_cur + seq![c]);
            }
        }
    }
    proof {
        assert(value@.skip(value@.len() as int) == Seq::<char>::empty());
    }
    if cur_len > 0 {
        proof {
            chunks = chunks.push(cur@);
            assert(cur@.len() > 0);
        }
        let word = encoded_word_of(cur.as_str(), cur_len);
        words.push(word);
    } else {
        proof {
            assert(cur@.len() == 0) by {
                if cur@.len() > 0 {
                    vstd::utf8::char_is_scalar(cur@[0]);
                }
            }
        }
    }
    proof {
        assert(chunks == header_chunks(value@));
        assert(crate::text::views(words@) =~= encoded_words(value@));
        assert forall|i: int| 0 <= i < encoded_words(value@).len() implies {
            &&& #[trigger] encoded_words(value@)[i].len() <= 75
            &&& no_line_breaks(encoded_words(value@)[i])
        } by {
            assert(encoded_words(value@)[i] == words@[i]@);
        }
        if chunks.len() == 0 {
            assert(value@ =~= Seq::<char>::empty()) by {
                assert(Seq::<Seq<char>>::empty().flatten() == Seq::<char>::empty());
            }
            assert(is_ascii_chars(value@));
        }
        reveal_strlit("\r\n ");
        assert forall|c: int| 0 <= c < "\r\n "@.len() implies '\0' <= #[trigger] "\r\n "@[c] <= '\u{7f}' by {}
        lemma_join_ascii(crate::text::views(words@), "\r\n "@);
    }
    crate::text::join(&words, "\r\n ")
}

/// Joining ASCII pieces with an ASCII separator gives ASCII text.
proof fn lemma_join_ascii(parts: Seq<Seq<char>>, sep: Seq<char>)
    requires
        is_ascii_chars(sep),
        forall|i: int| 0 <= i < parts.len() ==> is_ascii_chars(#[trigger] parts[i]),
    ensures
        is_ascii_chars(join_spec(parts, sep)),
    decreases parts.len(),
{
    if parts.len() > 1 {
        let init = parts.drop_last();
        assert forall|i: int| 0 <= i < init.len() implies is_ascii_chars(#[trigger] init[i]) by {
            assert(init[i] == parts[i]);
        }
        lemma_join_ascii(init, sep);
        let a = join_spec(init, sep);
        let b = parts.last();
        assert(is_ascii_chars(b)) by {
            assert(b == parts[parts.len() - 1]);
        }
        let j = a + sep + b;
        assert forall|k: int| 0 <= k < j.len() implies '\0' <= #[trigger] j[k] <= '\u{7f}' by {
            if k < a.len() {
                assert(j[k] == a[k]);
            } else if k < a.len() + sep.len() {
                assert(j[k] == sep[k - a.len()]);
            } else {
                assert(j[k] == b[k - a.len() - sep.len()]);
            }
        }
    } else if parts.len() == 1 {
        assert(is_ascii_chars(parts[0]));
    }
}

/// The RFC 2047 encoded-word around base64 text of UTF-8 bytes.
pub fn wrap_encoded_word(b64: &str) -> (res: String)
    ensures
        res@ == "=?UTF-8?B?"@ + b64@ + "?="@,
{
    let mut word = owned("=?UTF-8?B?");
    word.append(b64);
    word.append("?=");
    word
}

fn encoded_word_of(chunk: &str, len: usize) -> (res: String)
    requires
        len == utf8_len(chunk@),
        len <= MAX_RAW_LEN,
    ensures
        res@ == encoded_word(chunk@),
        res@.len() <= 72,
        no_line_breaks(res@),
        is_ascii_chars(res@),
{
    let bytes = chunk.as_bytes();
    let b64 = encode_standard(bytes);
    proof {
        crate::codec::lemma_base64_shape(bytes@, false);
    }
    let word = wrap_encoded_word(b64.as_str());
    proof {
        reveal_strlit("=?UTF-8?B?");
        reveal_strlit("?=");
        let p = "=?UTF-8?B?"@;
        let q = "?="@;
        assert(word@ == p + b64@ + q);
        assert forall|i: int| 0 <= i < word@.len() implies #[trigger] word@[i] != '\r' && word@[i]
            != '\n' && '\0' <= word@[i] <= '\u{7f}' by {
            if i < p.len() {
                assert(word@[i] == p[i]);
            } else if i < p.len() + b64@.len() {
                assert(word@[i] == b64@[i - p.len()]);
                assert(is_base64_char(b64@[i - p.len()]));
            } else {
                assert(word@[i] == q[i - p.len() - b64@.len()]);
            }
        }
    }
    word
}

} // verus!

verus! {

/// Every line is non-empty and holds no CR or LF.
pub open spec fn clean_lines(ls: Seq<Seq<char>>) -> bool {
    forall|i: int| 0 <= i < ls.len() ==> #[trigger] ls[i].len() > 0 && no_line_breaks(ls[i])
}

/// No line begins with `Bcc:`.
pub open spec fn no_bcc_line(ls: Seq<Seq<char>>) -> bool {
    forall|i: int| 0 <= i < ls.len() ==> !is_prefix("Bcc:"@, #[trigger] ls[i])
}

proof fn lemma_lines_concat(a: Seq<Seq<char>>, b: Seq<Seq<char>>)
    ensures
        clean_lines(a) && clean_lines(b) ==> clean_lines(a + b),
        no_bcc_line(a) && no_bcc_line(b) ==> no_bcc_line(a + b),
{
    if clean_lines(a) && clean_lines(b) {
        assert forall|i: int| 0 <= i < (a + b).len() implies #[trigger] (a + b)[i].len() > 0
            && no_line_breaks((a + b)[i]) by {
            if i >= a.len() {
                assert((a + b)[i] == b[i - a.len()]);
            }
        }
    }
    if no_bcc_line(a) && no_bcc_line(b) {
        assert forall|i: int| 0 <= i < (a + b).len() implies !is_prefix(
            "Bcc:"@,
            #[trigger] (a + b)[i],
        ) by {
            if i >= a.len() {
                assert((a + b)[i] == b[i - a.len()]);
            }
        }
    }
}

proof fn lemma_no_line_breaks_concat(a: Seq<char>, b: Seq<char>)
    requires
        no_line_breaks(a),
        no_line_breaks(b),
    ensures
        no_line_breaks(a + b),
{
    assert forall|i: int| 0 <= i < (a + b).len() implies #[trigger] (a + b)[i] != '\r' && (a
        + b)[i] != '\n' by {
        if i < a.len() {
            assert((a + b)[i] == a[i]);
        } else {
            assert((a + b)[i] == b[i - a.len()]);
        }
    }
}

/// A line made of a literal name and a sanitized value: clean, and it begins
/// with the name's first character.
proof fn lemma_header_line(name: Seq<char>, value: Seq<char>)
    requires
        name.len() > 0,
        no_line_breaks(name),
    ensures
        clean_lines(seq![name + without_line_breaks(value)]),
        name[0] != 'B' ==> no_bcc_line(seq![name + without_line_breaks(value)]),
{
    lemma_without_line_breaks(value);
    lemma_no_line_breaks_concat(name, without_line_breaks(value));
    let line = name + without_line_breaks(value);
    assert(line[0] == name[0]);
    reveal_strlit("Bcc:");
    if is_prefix("Bcc:"@, line) {
        assert(line.subrange(0, 4)[0] == line[0]);
    }
}

/// Joining folded lines with CRLF is the first text followed by the words
/// joined with CRLF and a space.
proof fn lemma_folded_join(first: Seq<char>, words: Seq<Seq<char>>)
    requires
        words.len() > 0,
    ensures
        join_spec(folded_lines(first, words), "\r\n"@) == first + join_spec(words, "\r\n "@),
    decreases words.len(),
{
    reveal_strlit("\r\n");
    reveal_strlit("\r\n ");
    reveal_strlit(" ");
    if words.len() == 1 {
        assert(folded_lines(first, words) =~= seq![first + words[0]]);
    } else {
        let w1 = words.drop_last();
        lemma_folded_join(first, w1);
        assert(folded_lines(first, words) =~= folded_lines(first, w1).push(" "@ + words.last()));
        lemma_join_push(folded_lines(first, w1), " "@ + words.last(), "\r\n"@);
        assert(w1.push(words.last()) == words);
        lemma_join_push(w1, words.last(), "\r\n "@);
        assert("\r\n "@ == "\r\n"@ + " "@);
    }
}

/// `In-Reply-To` and `References` values for threading a reply or forward.
pub struct ThreadingHeaders<'a> {
    pub in_reply_to: &'a str,
    pub references: &'a str,
}

/// Shared builder for RFC 2822 email messages.
///
/// Handles header construction with CRLF sanitization and RFC 2047
/// encoding of non-ASCII subjects. Each command owns its body assembly
/// (quoted reply, forwarded block, plain body) and passes it to `build()`.
pub struct MessageBuilder<'a> {
    pub to: &'a str,
    pub subject: &'a str,
    pub from: Option<&'a str>,
    pub cc: Option<&'a str>,
    pub bcc: Option<&'a str>,
    pub threading: Option<ThreadingHeaders<'a>>,
}

/// The model of a message's envelope: the header values, unsanitized.
pub struct MessageModel {
    pub to: Seq<char>,
    pub subject: Seq<char>,
    pub from: Option<Seq<char>>,
    pub cc: Option<Seq<char>>,
    pub bcc: Option<Seq<char>>,
    /// `In-Reply-To` and `References`.
    pub threading: Option<(Seq<char>, Seq<char>)>,
}

/// The characters of an optional string.
pub open spec fn opt_view(value: Option<&str>) -> Option<Seq<char>> {
    match value {
        Some(v) => Some(v@),
        None => None,
    }
}

impl<'a> View for MessageBuilder<'a> {
    type V = MessageModel;

    open spec fn view(&self) -> MessageModel {
        MessageModel {
            to: self.to@,
            subject: self.subject@,
            from: opt_view(self.from),
            cc: opt_view(self.cc),
            bcc: opt_view(self.bcc),
            threading: match self.threading {
                Some(t) => Some((t.in_reply_to@, t.references@)),
                None => None,
            },
        }
    }
}

/// `"\r\n" + name + sanitized value` for a header that is present, else nothing.
pub open spec fn optional_header(name: Seq<char>, value: Option<Seq<char>>) -> Seq<char> {
    match value {
        Some(v) => "\r\n"@ + name + without_line_breaks(v),
        None => Seq::empty(),
    }
}

/// The line `name + sanitized value` for a header that is present.
pub open spec fn optional_line(name: Seq<char>, value: Option<Seq<char>>) -> Seq<Seq<char>> {
    match value {
        Some(v) => seq![name + without_line_breaks(v)],
        None => Seq::empty(),
    }
}

/// The lines of a folded header: the first word after `first`, every later
/// word on a continuation line that starts with a space.
pub open spec fn folded_lines(first: Seq<char>, words: Seq<Seq<char>>) -> Seq<Seq<char>> {
    seq![first + words[0]] + words.drop_first().map_values(|w: Seq<char>| " "@ + w)
}

impl MessageModel {
    /// The header section, without the blank line that ends it.
    pub open spec fn spec_headers(&self) -> Seq<char> {
        "To: "@ + without_line_breaks(self.to) + "\r\n"@ + "Subject: "@ + encoded_header_value(
            without_line_breaks(self.subject),
        ) + match self.threading {
            Some(t) => "\r\n"@ + "In-Reply-To: "@ + without_line_breaks(t.0) + "\r\n"@
                + "References: "@ + without_line_breaks(t.1),
            None => Seq::empty(),
        } + "\r\n"@ + "MIME-Version: 1.0"@ + "\r\n"@ + "Content-Type: text/plain; charset=utf-8"@
            + optional_header("From: "@, self.from) + optional_header("Cc: "@, self.cc)
            + optional_header("Bcc: "@, self.bcc)
    }

    /// The complete message: headers, a blank line, then the body.
    pub open spec fn spec_build(&self, body: Seq<char>) -> Seq<char> {
        self.spec_headers() + "\r\n"@ + "\r\n"@ + body
    }

    /// The lines of the subject header.
    pub open spec fn subject_lines(&self) -> Seq<Seq<char>> {
        let s = without_line_breaks(self.subject);
        if is_ascii_chars(s) {
            seq!["Subject: "@ + s]
        } else {
            folded_lines("Subject: "@, encoded_words(s))
        }
    }

    /// The header lines, in order: one line per header field, and one more
    /// per continuation of a folded subject.
    pub open spec fn header_lines(&self) -> Seq<Seq<char>> {
        self.to_subject_lines() + self.threading_lines() + mime_lines() + optional_line(
            "From: "@,
            self.from,
        ) + optional_line("Cc: "@, self.cc) + optional_line("Bcc: "@, self.bcc)
    }

    proof fn lemma_header_lines(&self)
        requires
            self.to.len() > 0,
            !is_ascii_chars(without_line_breaks(self.subject)) ==> encoded_words(
                without_line_breaks(self.subject),
            ).len() > 0,
            !is_ascii_chars(without_line_breaks(self.subject)) ==> forall|i: int|
                0 <= i < encoded_words(without_line_breaks(self.subject)).len() ==> {
                    &&& #[trigger] encoded_words(without_line_breaks(self.subject))[i].len() <= 75
                    &&& no_line_breaks(encoded_words(without_line_breaks(self.subject))[i])
                },
        ensures
            self.spec_headers() == join_spec(self.header_lines(), "\r\n"@),
            forall|i: int|
                0 <= i < self.header_lines().len() ==> #[trigger] self.header_lines()[i].len() > 0
                    && no_line_breaks(self.header_lines()[i]),
            (exists|i: int|
                0 <= i < self.header_lines().len() && is_prefix(
                    "Bcc:"@,
                    #[trigger] self.header_lines()[i],
                )) <==> self.bcc is Some,
    {
        let crlf = "\r\n"@;
        reveal_strlit("From: ");
        reveal_strlit("Cc: ");
        reveal_strlit("Bcc: ");
        reveal_strlit("Bcc:");
        let as_ = self.to_subject_lines();
        let p1 = self.lemma_to_subject();
        let ast = as_ + self.threading_lines();
        let p2 = self.lemma_threading(as_, p1);
        let astm = ast + mime_lines();
        let p3 = lemma_mime(ast, p2);
        let f = optional_line("From: "@, self.from);
        let c = optional_line("Cc: "@, self.cc);
        let b = optional_line("Bcc: "@, self.bcc);
        self.lemma_optional(astm, "From: "@, self.from);
        self.lemma_optional(astm + f, "Cc: "@, self.cc);
        lemma_lines_concat(astm, f);
        lemma_lines_concat(astm + f, c);
        let before_b = astm + f + c;
        self.lemma_optional(before_b, "Bcc: "@, self.bcc);
        lemma_lines_concat(before_b, b);
        assert(self.header_lines() =~= before_b + b);
        match self.bcc {
            Some(v) => {
                let last = before_b.len() as int;
                assert(self.header_lines()[last] == "Bcc: "@ + without_line_breaks(v));
                assert(self.header_lines()[last].subrange(0, 4) =~= "Bcc:"@);
            },
            None => {
                assert(before_b + b == before_b);
            },
        }
        assert(self.spec_headers() =~= p3 + optional_header("From: "@, self.from) + optional_header(
            "Cc: "@,
            self.cc,
        ) + optional_header("Bcc: "@, self.bcc));
    }

    /// The `To` line followed by the subject lines.
    pub open spec fn to_subject_lines(&self) -> Seq<Seq<char>> {
        seq!["To: "@ + without_line_breaks(self.to)] + self.subject_lines()
    }

    /// The threading lines, when threading headers are set.
    pub open spec fn threading_lines(&self) -> Seq<Seq<char>> {
        match self.threading {
            Some(t) => seq![
                "In-Reply-To: "@ + without_line_breaks(t.0),
                "References: "@ + without_line_breaks(t.1),
            ],
            None => Seq::empty(),
        }
    }

    proof fn lemma_to_subject(&self) -> (p: Seq<char>)
        requires
            !is_ascii_chars(without_line_breaks(self.subject)) ==> encoded_words(
                without_line_breaks(self.subject),
            ).len() > 0,
            !is_ascii_chars(without_line_breaks(self.subject)) ==> forall|i: int|
                0 <= i < encoded_words(without_line_breaks(self.subject)).len() ==> {
                    &&& #[trigger] encoded_words(without_line_breaks(self.subject))[i].len() <= 75
                    &&& no_line_breaks(encoded_words(without_line_breaks(self.subject))[i])
                },
        ensures
            p == "To: "@ + without_line_breaks(self.to) + "\r\n"@ + "Subject: "@
                + encoded_header_value(without_line_breaks(self.subject)),
            join_spec(self.to_subject_lines(), "\r\n"@) == p,
            self.to_subject_lines().len() > 0,
            clean_lines(self.to_subject_lines()),
            no_bcc_line(self.to_subject_lines()),
    {
        let crlf = "\r\n"@;
        let s = without_line_breaks(self.subject);
        reveal_strlit("To: ");
        reveal_strlit("Subject: ");
        reveal_strlit("Bcc:");
        reveal_strlit(" ");
        lemma_without_line_breaks(s);
        let a = seq!["To: "@ + without_line_breaks(self.to)];
        lemma_header_line("To: "@, self.to);
        let sl = self.subject_lines();
        if is_ascii_chars(s) {
            lemma_header_line("Subject: "@, self.subject);
        } else {
            let ws = encoded_words(s);
            lemma_folded_join("Subject: "@, ws);
            lemma_no_line_breaks_concat("Subject: "@, ws[0]);
            assert forall|i: int| 0 <= i < sl.len() implies #[trigger] sl[i].len() > 0
                && no_line_breaks(sl[i]) && !is_prefix("Bcc:"@, sl[i]) by {
                if i == 0 {
                    assert(sl[0] == "Subject: "@ + ws[0]);
                    assert(sl[0][0] == 'S');
                    if is_prefix("Bcc:"@, sl[i]) {
                        assert(sl[i].subrange(0, 4)[0] == sl[i][0]);
                    }
                } else {
                    assert(sl[i] == " "@ + ws[i]);
                    lemma_no_line_breaks_concat(" "@, ws[i]);
                    assert(sl[i][0] == ' ');
                    if is_prefix("Bcc:"@, sl[i]) {
                        assert(sl[i].subrange(0, 4)[0] == sl[i][0]);
                    }
                }
            }
        }
        assert(join_spec(sl, crlf) == "Subject: "@ + encoded_header_value(s));
        crate::text::lemma_join_concat(a, sl, crlf);
        lemma_lines_concat(a, sl);
        assert(join_spec(a, crlf) == a[0]);
        let p = "To: "@ + without_line_breaks(self.to) + crlf + "Subject: "@ + encoded_header_value(s);
        assert(join_spec(a + sl, crlf) =~= p);
        p
    }

    proof fn lemma_threading(&self, ls: Seq<Seq<char>>, p: Seq<char>) -> (q: Seq<char>)
        requires
            ls.len() > 0,
            join_spec(ls, "\r\n"@) == p,
            clean_lines(ls),
            no_bcc_line(ls),
        ensures
            q == p + match self.threading {
                Some(t) => "\r\n"@ + "In-Reply-To: "@ + without_line_breaks(t.0)
                    + "\r\n"@ + "References: "@ + without_line_breaks(t.1),
                None => Seq::empty(),
            },
            join_spec(ls + self.threading_lines(), "\r\n"@) == q,
            clean_lines(ls + self.threading_lines()),
            no_bcc_line(ls + self.threading_lines()),
    {
        let crlf = "\r\n"@;
        let t = self.threading_lines();
        reveal_strlit("In-Reply-To: ");
        reveal_strlit("References: ");
        match self.threading {
            Some(th) => {
                let l1 = "In-Reply-To: "@ + without_line_breaks(th.0);
                let l2 = "References: "@ + without_line_breaks(th.1);
                lemma_header_line("In-Reply-To: "@, th.0);
                lemma_header_line("References: "@, th.1);
                lemma_lines_concat(seq![l1], seq![l2]);
                assert(t == seq![l1] + seq![l2]);
                assert(t.drop_last() =~= seq![l1]);
                crate::text::lemma_join_concat(ls, t, crlf);
                lemma_lines_concat(ls, t);
                assert(join_spec(t, crlf) == join_spec(t.drop_last(), crlf) + crlf + t.last());
                let q = p + (crlf + l1 + crlf + l2);
                assert(join_spec(ls + t, crlf) =~= q);
                q
            },
            None => {
                assert(ls + t == ls);
                assert(p + Seq::<char>::empty() == p);
                p
            },
        }
    }

    /// Appending an optional header line extends the joined text by the
    /// optional header text.
    proof fn lemma_optional(&self, ls: Seq<Seq<char>>, name: Seq<char>, value: Option<Seq<char>>)
        requires
            ls.len() > 0,
            name.len() > 0,
            no_line_breaks(name),
        ensures
            join_spec(ls + optional_line(name, value), "\r\n"@) == join_spec(ls, "\r\n"@)
                + optional_header(name, value),
            clean_lines(optional_line(name, value)),
            name[0] != 'B' ==> no_bcc_line(optional_line(name, value)),
    {
        match value {
            Some(v) => {
                crate::text::lemma_join_concat(ls, optional_line(name, value), "\r\n"@);
                lemma_header_line(name, v);
            },
            None => {
                assert(ls + optional_line(name, value) == ls);
            },
        }
    }
}

impl<'a> MessageBuilder<'a> {
    /// Build the complete RFC 2822 message (headers + blank line + body).
    ///
    /// Header values cannot inject headers: the header section is exactly
    /// the builder's header lines joined with CRLF, none of them holds a CR
    /// or LF, and a `Bcc:` line is there exactly when `bcc` is set.
    pub fn build(&self, body: &str) -> (res: String)
        requires
            self.to@.len() > 0,
        ensures
            res@ == self@.spec_build(body@),
            res@ == join_spec(self@.header_lines(), "\r\n"@) + "\r\n"@ + "\r\n"@ + body@,
            forall|i: int|
                0 <= i < self@.header_lines().len() ==> #[trigger] self@.header_lines()[i].len() > 0
                    && no_line_breaks(self@.header_lines()[i]),
            (exists|i: int|
                0 <= i < self@.header_lines().len() && is_prefix(
                    "Bcc:"@,
                    #[trigger] self@.header_lines()[i],
                )) <==> self@.bcc is Some,
            ({
                let h = join_spec(self@.header_lines(), "\r\n"@);
                &&& blank_line_at(res@, h.len() as int)
                &&& forall|k: int| 0 <= k < h.len() ==> !#[trigger] blank_line_at(res@, k)
                &&& res@.subrange(0, h.len() as int) == h
                &&& res@.skip(h.len() as int + 4) == body@
            }),
    {
        let to = sanitize_header_value(self.to);
        let subject = sanitize_header_value(self.subject);
        let encoded_subject = encode_header_value(subject.as_str());
        let mut out = owned("To: ");
        out.append(to.as_str());
        out.append("\r\n");
        out.append("Subject: ");
        out.append(encoded_subject.as_str());
        if let Some(threading) = &self.threading {
            let in_reply_to = sanitize_header_value(threading.in_reply_to);
            let references = sanitize_header_value(threading.references);
            out.append("\r\n");
            out.append("In-Reply-To: ");
            out.append(in_reply_to.as_str());
            out.append("\r\n");
            out.append("References: ");
            out.append(references.as_str());
        }
        out.append("\r\n");
        out.append("MIME-Version: 1.0");
        out.append("\r\n");
        out.append("Content-Type: text/plain; charset=utf-8");
        append_optional_header(&mut out, "From: ", self.from);
        append_optional_header(&mut out, "Cc: ", self.cc);
        // The Gmail API reads the Bcc header to route to those recipients,
        // then strips it before delivery.
        append_optional_header(&mut out, "Bcc: ", self.bcc);
        out.append("\r\n");
        out.append("\r\n");
        out.append(body);
        proof {
            self@.lemma_header_lines();
            lemma_split_at_blank(self@.header_lines(), body@);
        }
        out
    }

}

/// A blank line (CRLF CRLF) starts at position `i` of `s`.
pub open spec fn blank_line_at(s: Seq<char>, i: int) -> bool {
    &&& 0 <= i
    &&& i + 4 <= s.len()
    &&& s[i] == '\r'
    &&& s[i + 1] == '\n'
    &&& s[i + 2] == '\r'
    &&& s[i + 3] == '\n'
}

/// A header section of clean lines, a blank line and a body: the first
/// blank line is the one after the header section.
proof fn lemma_split_at_blank(lines: Seq<Seq<char>>, body: Seq<char>)
    requires
        lines.len() > 0,
        forall|i: int| 0 <= i < lines.len() ==> #[trigger] lines[i].len() > 0 && no_line_breaks(lines[i]),
    ensures
        ({
            let h = join_spec(lines, "\r\n"@);
            let r = h + "\r\n"@ + "\r\n"@ + body;
            &&& blank_line_at(r, h.len() as int)
            &&& forall|k: int| 0 <= k < h.len() ==> !#[trigger] blank_line_at(r, k)
            &&& r.subrange(0, h.len() as int) == h
            &&& r.skip(h.len() as int + 4) == body
        }),
{
    let h = join_spec(lines, "\r\n"@);
    reveal_strlit("\r\n");
    assert("\r\n"@ =~= seq!['\r', '\n']);
    lemma_join_no_blank(lines);
    let r = h + "\r\n"@ + "\r\n"@ + body;
    let hl = h.len() as int;
    assert(r.subrange(0, hl) =~= h);
    assert(r.skip(hl + 4) =~= body);
    assert(r[hl] == '\r');
    assert(r[hl + 1] == '\n');
    assert(r[hl + 2] == '\r');
    assert(r[hl + 3] == '\n');
    assert forall|k: int| 0 <= k < h.len() implies !#[trigger] blank_line_at(r, k) by {
        if k + 4 <= h.len() {
            assert(r[k] == h[k] && r[k + 1] == h[k + 1] && r[k + 2] == h[k + 2] && r[k + 3] == h[k + 3]);
            assert(!blank_line_at(h, k));
        } else if k == h.len() - 1 {
            assert(r[k] == h.last());
        } else if k == h.len() - 2 {
            assert(r[k + 1] == h.last());
        } else {
            assert(k == h.len() - 3);
        }
    }
}

/// Non-empty lines without CR or LF, joined with CRLF, hold no blank line
/// and end in neither CR nor LF.
proof fn lemma_join_no_blank(parts: Seq<Seq<char>>)
    requires
        parts.len() > 0,
        forall|i: int| 0 <= i < parts.len() ==> #[trigger] parts[i].len() > 0 && no_line_breaks(parts[i]),
    ensures
        join_spec(parts, "\r\n"@).len() > 0,
        join_spec(parts, "\r\n"@).last() != '\r',
        join_spec(parts, "\r\n"@).last() != '\n',
        forall|k: int| !#[trigger] blank_line_at(join_spec(parts, "\r\n"@), k),
    decreases parts.len(),
{
    reveal_strlit("\r\n");
    assert("\r\n"@ =~= seq!['\r', '\n']);
    if parts.len() == 1 {
        let x = parts[0];
        assert(join_spec(parts, "\r\n"@) == x);
        assert(x[x.len() - 1] == x.last());
        assert forall|k: int| !#[trigger] blank_line_at(x, k) by {
            if blank_line_at(x, k) {
                assert(x[k] == '\r');
            }
        }
    } else {
        let init = parts.drop_last();
        assert forall|i: int| 0 <= i < init.len() implies #[trigger] init[i].len() > 0 && no_line_breaks(init[i]) by {
            assert(init[i] == parts[i]);
        }
        lemma_join_no_blank(init);
        let a = join_spec(init, "\r\n"@);
        let x = parts.last();
        assert(x == parts[parts.len() - 1]);
        let j = a + "\r\n"@ + x;
        assert(join_spec(parts, "\r\n"@) == j);
        let n = a.len() as int;
        assert(a[n - 1] == a.last());
        assert(j[n - 1] == a[n - 1]);
        assert(j[n] == '\r');
        assert(j[n + 1] == '\n');
        assert(j[n + 2] == x[0]);
        assert(j.last() == x[x.len() - 1]);
        assert forall|k: int| !#[trigger] blank_line_at(j, k) by {
            if blank_line_at(j, k) {
                if k + 4 <= n {
                    assert(j[k] == a[k] && j[k + 1] == a[k + 1] && j[k + 2] == a[k + 2] && j[k + 3] == a[k + 3]);
                    assert(blank_line_at(a, k));
                } else if k >= n + 2 {
                    assert(j[k] == x[k - n - 2]);
                } else if k == n + 1 {
                } else if k == n {
                } else if k == n - 1 {
                } else if k == n - 2 {
                    assert(j[k + 1] == a[n - 1]);
                } else {
                    assert(k == n - 3);
                }
            }
        }
    }
}

/// The MIME version and content type lines.
pub open spec fn mime_lines() -> Seq<Seq<char>> {
    seq!["MIME-Version: 1.0"@, "Content-Type: text/plain; charset=utf-8"@]
}

proof fn lemma_mime(ls: Seq<Seq<char>>, p: Seq<char>) -> (q: Seq<char>)
    requires
        ls.len() > 0,
        join_spec(ls, "\r\n"@) == p,
        clean_lines(ls),
        no_bcc_line(ls),
    ensures
        q == p + "\r\n"@ + "MIME-Version: 1.0"@ + "\r\n"@ + "Content-Type: text/plain; charset=utf-8"@,
        join_spec(ls + mime_lines(), "\r\n"@) == q,
        clean_lines(ls + mime_lines()),
        no_bcc_line(ls + mime_lines()),
{
    let crlf = "\r\n"@;
    let m = mime_lines();
    let m1 = "MIME-Version: 1.0"@;
    let m2 = "Content-Type: text/plain; charset=utf-8"@;
    reveal_strlit("MIME-Version: 1.0");
    reveal_strlit("Content-Type: text/plain; charset=utf-8");
    assert(m.drop_last() =~= seq![m1]);
    lemma_header_line(m1, Seq::empty());
    lemma_header_line(m2, Seq::empty());
    assert(without_line_breaks(Seq::<char>::empty()) == Seq::<char>::empty());
    assert(m1 + Seq::<char>::empty() == m1);
    assert(m2 + Seq::<char>::empty() == m2);
    lemma_lines_concat(seq![m1], seq![m2]);
    assert(seq![m1] + seq![m2] == m);
    crate::text::lemma_join_concat(ls, m, crlf);
    lemma_lines_concat(ls, m);
    assert(join_spec(m, crlf) == join_spec(m.drop_last(), crlf) + crlf + m.last());
    let q = p + crlf + m1 + crlf + m2;
    assert(join_spec(ls + m, crlf) =~= q);
    q
}

/// Appends `"\r\n" + name + sanitized value` when the value is present.
fn append_optional_header(out: &mut String, name: &str, value: Option<&str>)
    ensures
        final(out)@ == old(out)@ + optional_header(name@, opt_view(value)),
{
    if let Some(v) = value {
        let clean = sanitize_header_value(v);
        out.append("\r\n");
        out.append(name);
        out.append(clean.as_str());
    }
}

} // verus!

verus! {

/// The `References` value of a reply or forward: the original message ID
/// alone when there were no references, else appended to the chain.
pub open spec fn references_chain(original_references: Seq<char>, original_message_id: Seq<char>) -> Seq<char> {
    if original_references.len() == 0 {
        original_message_id
    } else {
        original_references + " "@ + original_message_id
    }
}

/// Build the References header value. Returns just the message ID when there
/// are no prior references, or appends it to the existing chain.
pub fn build_references(original_references: &str, original_message_id: &str) -> (res: String)
    ensures
        res@ == references_chain(original_references@, original_message_id@),
{
    if original_references.is_empty() {
        owned(original_message_id)
    } else {
        let mut out = owned(original_references);
        out.append(" ");
        out.append(original_message_id);
        out
    }
}

/// The request body of `users.messages.send`: the raw message, base64url
/// encoded, and the thread when one is given.
pub open spec fn raw_send_body(raw_message: Seq<char>, thread_id: Option<Seq<char>>) -> Json {
    let raw = ("raw"@, Json::Str(base64_url_safe(encode_utf8(raw_message))));
    match thread_id {
        Some(t) => Json::Object(seq![raw, ("threadId"@, Json::Str(t))]),
        None => Json::Object(seq![raw]),
    }
}

/// Build the JSON request body for `users.messages.send`, base64-encoding
/// the raw RFC 2822 message and optionally including a threadId.
pub fn build_raw_send_body(raw_message: &str, thread_id: Option<&str>) -> (res: JsonValue)
    requires
        padded_base64_len(encode_utf8(raw_message@).len()) <= usize::MAX,
    ensures
        res@ == raw_send_body(
            raw_message@,
            match thread_id {
                Some(t) => Some(t@),
                None => None,
            },
        ),
{
    let raw = encode_url_safe(raw_message.as_bytes());
    send_body_with(raw, thread_id)
}

/// The request body of `users.messages.send` around the already encoded
/// raw message, with the thread when one is given.
pub fn send_body_with(encoded: String, thread_id: Option<&str>) -> (res: JsonValue)
    ensures
        res@ == match thread_id {
            Some(t) => Json::Object(seq![("raw"@, Json::Str(encoded@)), ("threadId"@, Json::Str(t@))]),
            None => Json::Object(seq![("raw"@, Json::Str(encoded@))]),
        },
{
    let ghost e = encoded@;
    let mut body = vec![member("raw", JsonValue::Str(encoded))];
    if let Some(thread_id) = thread_id {
        body.push(member("threadId", JsonValue::string(thread_id)));
    }
    proof {
        lemma_members_view(body@);
        assert(members_view(body@) =~= match thread_id {
            Some(t) => seq![("raw"@, Json::Str(e)), ("threadId"@, Json::Str(t@))],
            None => seq![("raw"@, Json::Str(e))],
        });
    }
    JsonValue::object(body)
}

/// The lines that begin a header field: every line but those that continue
/// the previous one with a leading space.
pub open spec fn field_lines(lines: Seq<Seq<char>>) -> Seq<Seq<char>>
    decreases lines.len(),
{
    if lines.len() == 0 {
        Seq::empty()
    } else {
        let rest = field_lines(lines.drop_last());
        if lines.last().len() > 0 && lines.last()[0] == ' ' {
            rest
        } else {
            rest.push(lines.last())
        }
    }
}

/// How each header field of a message begins, in the order `build` writes
/// them: `To`, `Subject`, `In-Reply-To` and `References` when threaded,
/// `MIME-Version`, `Content-Type`, then `From`, `Cc` and `Bcc` when set.
pub open spec fn header_field_starts(m: MessageModel) -> Seq<Seq<char>> {
    seq!["To: "@, "Subject: "@] + (if m.threading is Some {
        seq!["In-Reply-To: "@, "References: "@]
    } else {
        Seq::empty()
    }) + seq!["MIME-Version: "@, "Content-Type: "@] + (if m.from is Some {
        seq!["From: "@]
    } else {
        Seq::empty()
    }) + (if m.cc is Some {
        seq!["Cc: "@]
    } else {
        Seq::empty()
    }) + (if m.bcc is Some {
        seq!["Bcc: "@]
    } else {
        Seq::empty()
    })
}

/// Each line begins with the start at the same position, and there are as
/// many lines as starts.
pub open spec fn lines_begin_with(lines: Seq<Seq<char>>, starts: Seq<Seq<char>>) -> bool {
    &&& lines.len() == starts.len()
    &&& forall|i: int| 0 <= i < lines.len() ==> is_prefix(#[trigger] starts[i], lines[i])
}

proof fn lemma_field_lines_concat(a: Seq<Seq<char>>, b: Seq<Seq<char>>)
    ensures
        field_lines(a + b) == field_lines(a) + field_lines(b),
    decreases b.len(),
{
    if b.len() == 0 {
        assert(a + b =~= a);
        assert(field_lines(a) + field_lines(b) =~= field_lines(a));
    } else {
        assert((a + b).drop_last() =~= a + b.drop_last());
        assert((a + b).last() == b.last());
        lemma_field_lines_concat(a, b.drop_last());
        if !(b.last().len() > 0 && b.last()[0] == ' ') {
            assert(field_lines(a) + field_lines(b.drop_last()).push(b.last()) =~= (field_lines(a)
                + field_lines(b.drop_last())).push(b.last()));
        }
    }
}

proof fn lemma_begin_concat(
    a: Seq<Seq<char>>,
    pa: Seq<Seq<char>>,
    b: Seq<Seq<char>>,
    pb: Seq<Seq<char>>,
)
    requires
        lines_begin_with(a, pa),
        lines_begin_with(b, pb),
    ensures
        lines_begin_with(a + b, pa + pb),
{
    assert forall|i: int| 0 <= i < (a + b).len() implies is_prefix(#[trigger] (pa + pb)[i], (a + b)[i]) by {
        if i < a.len() {
            assert((pa + pb)[i] == pa[i] && (a + b)[i] == a[i]);
        } else {
            assert((pa + pb)[i] == pb[i - a.len()] && (a + b)[i] == b[i - a.len()]);
        }
    }
}

/// A line `start + v` whose start does not begin with a space is a field
/// line that begins with `start`.
proof fn lemma_one_field(start: Seq<char>, v: Seq<char>)
    requires
        start.len() > 0,
        start[0] != ' ',
    ensures
        field_lines(seq![start + v]) == seq![start + v],
        lines_begin_with(seq![start + v], seq![start]),
{
    let l = start + v;
    assert(l[0] == start[0]);
    assert(l.len() > 0);
    assert(seq![l].last() == l);
    assert(seq![l].drop_last() =~= Seq::<Seq<char>>::empty());
    assert(field_lines(seq![l].drop_last()) == Seq::<Seq<char>>::empty());
    assert(!(seq![l].last().len() > 0 && seq![l].last()[0] == ' '));
    assert(Seq::<Seq<char>>::empty().push(start + v) =~= seq![start + v]);
    assert((start + v).subrange(0, start.len() as int) =~= start);
}

proof fn lemma_continuations(words: Seq<Seq<char>>)
    ensures
        field_lines(words.map_values(|w: Seq<char>| " "@ + w)) == Seq::<Seq<char>>::empty(),
    decreases words.len(),
{
    reveal_strlit(" ");
    let m = words.map_values(|w: Seq<char>| " "@ + w);
    if words.len() > 0 {
        assert(m.drop_last() =~= words.drop_last().map_values(|w: Seq<char>| " "@ + w));
        lemma_continuations(words.drop_last());
        assert(m.last() == " "@ + words.last());
        assert(m.last()[0] == ' ');
    }
}

proof fn lemma_optional_field(start: Seq<char>, value: Option<Seq<char>>)
    requires
        start.len() > 0,
        start[0] != ' ',
    ensures
        lines_begin_with(
            field_lines(optional_line(start, value)),
            if value is Some {
                seq![start]
            } else {
                Seq::empty()
            },
        ),
{
    match value {
        Some(v) => lemma_one_field(start, without_line_breaks(v)),
        None => {},
    }
}

/// The header section of a built message holds exactly its fields, in
/// order: the lines that do not continue a folded subject begin with `To`,
/// `Subject`, `In-Reply-To` and `References` when threaded, `MIME-Version`,
/// `Content-Type`, then `From`, `Cc` and `Bcc` when set.
pub proof fn header_fields_in_order(m: MessageModel)
    ensures
        lines_begin_with(field_lines(m.header_lines()), header_field_starts(m)),
{
    reveal_strlit("To: ");
    reveal_strlit("Subject: ");
    reveal_strlit("In-Reply-To: ");
    reveal_strlit("References: ");
    reveal_strlit("MIME-Version: ");
    reveal_strlit("Content-Type: ");
    reveal_strlit("MIME-Version: 1.0");
    reveal_strlit("Content-Type: text/plain; charset=utf-8");
    reveal_strlit("From: ");
    reveal_strlit("Cc: ");
    reveal_strlit("Bcc: ");
    // To and Subject.
    let to_line = seq!["To: "@ + without_line_breaks(m.to)];
    lemma_one_field("To: "@, without_line_breaks(m.to));
    let s = without_line_breaks(m.subject);
    let subj = m.subject_lines();
    if is_ascii_chars(s) {
        lemma_one_field("Subject: "@, s);
    } else {
        let words = encoded_words(s);
        let first = seq!["Subject: "@ + words[0]];
        let rest = words.drop_first().map_values(|w: Seq<char>| " "@ + w);
        assert(subj == first + rest);
        lemma_one_field("Subject: "@, words[0]);
        lemma_continuations(words.drop_first());
        lemma_field_lines_concat(first, rest);
        assert(field_lines(subj) =~= first);
    }
    assert(lines_begin_with(field_lines(subj), seq!["Subject: "@]));
    let ts = m.to_subject_lines();
    assert(ts == to_line + subj);
    lemma_field_lines_concat(to_line, subj);
    lemma_begin_concat(field_lines(to_line), seq!["To: "@], field_lines(subj), seq!["Subject: "@]);
    assert(seq!["To: "@] + seq!["Subject: "@] =~= seq!["To: "@, "Subject: "@]);
    // Threading.
    let th = m.threading_lines();
    let pth = if m.threading is Some {
        seq!["In-Reply-To: "@, "References: "@]
    } else {
        Seq::<Seq<char>>::empty()
    };
    match m.threading {
        Some(t) => {
            let a = seq!["In-Reply-To: "@ + without_line_breaks(t.0)];
            let b = seq!["References: "@ + without_line_breaks(t.1)];
            assert(th =~= a + b);
            lemma_one_field("In-Reply-To: "@, without_line_breaks(t.0));
            lemma_one_field("References: "@, without_line_breaks(t.1));
            lemma_field_lines_concat(a, b);
            lemma_begin_concat(field_lines(a), seq!["In-Reply-To: "@], field_lines(b), seq!["References: "@]);
            assert(seq!["In-Reply-To: "@] + seq!["References: "@] =~= pth);
        },
        None => {
            assert(field_lines(th) =~= Seq::<Seq<char>>::empty());
        },
    }
    assert(lines_begin_with(field_lines(th), pth));
    // MIME lines.
    let ml = mime_lines();
    let m1 = seq!["MIME-Version: 1.0"@];
    let m2 = seq!["Content-Type: text/plain; charset=utf-8"@];
    assert("MIME-Version: 1.0"@ =~= "MIME-Version: "@ + "1.0"@) by {
        reveal_strlit("1.0");
    }
    assert("Content-Type: text/plain; charset=utf-8"@ =~= "Content-Type: "@ + "text/plain; charset=utf-8"@) by {
        reveal_strlit("text/plain; charset=utf-8");
    }
    lemma_one_field("MIME-Version: "@, "1.0"@);
    lemma_one_field("Content-Type: "@, "text/plain; charset=utf-8"@);
    assert(ml =~= m1 + m2);
    lemma_field_lines_concat(m1, m2);
    lemma_begin_concat(field_lines(m1), seq!["MIME-Version: "@], field_lines(m2), seq!["Content-Type: "@]);
    assert(seq!["MIME-Version: "@] + seq!["Content-Type: "@] =~= seq!["MIME-Version: "@, "Content-Type: "@]);
    // Optional fields.
    let f = optional_line("From: "@, m.from);
    let c = optional_line("Cc: "@, m.cc);
    let b = optional_line("Bcc: "@, m.bcc);
    lemma_optional_field("From: "@, m.from);
    lemma_optional_field("Cc: "@, m.cc);
    lemma_optional_field("Bcc: "@, m.bcc);
    // All together.
    let pf = if m.from is Some { seq!["From: "@] } else { Seq::<Seq<char>>::empty() };
    let pc = if m.cc is Some { seq!["Cc: "@] } else { Seq::<Seq<char>>::empty() };
    let pb = if m.bcc is Some { seq!["Bcc: "@] } else { Seq::<Seq<char>>::empty() };
    lemma_field_lines_concat(ts, th);
    lemma_begin_concat(field_lines(ts), seq!["To: "@, "Subject: "@], field_lines(th), pth);
    lemma_field_lines_concat(ts + th, ml);
    lemma_begin_concat(field_lines(ts + th), seq!["To: "@, "Subject: "@] + pth, field_lines(ml), seq!["MIME-Version: "@, "Content-Type: "@]);
    let p3 = seq!["To: "@, "Subject: "@] + pth + seq!["MIME-Version: "@, "Content-Type: "@];
    lemma_field_lines_concat(ts + th + ml, f);
    lemma_begin_concat(field_lines(ts + th + ml), p3, field_lines(f), pf);
    lemma_field_lines_concat(ts + th + ml + f, c);
    lemma_begin_concat(field_lines(ts + th + ml + f), p3 + pf, field_lines(c), pc);
    lemma_field_lines_concat(ts + th + ml + f + c, b);
    lemma_begin_concat(field_lines(ts + th + ml + f + c), p3 + pf + pc, field_lines(b), pb);
    assert(m.header_lines() == ts + th + ml + f + c + b);
    assert(header_field_starts(m) == p3 + pf + pc + pb);
}

/// The encoded-words of a header value carry it whole: each holds, between
/// `=?UTF-8?B?` and `?=`, base64 that decodes to the UTF-8 bytes of one
/// non-empty chunk of at most `MAX_RAW_LEN` bytes, and the chunks in order
/// make up the value.
pub proof fn encoded_words_decode(value: Seq<char>)
    ensures
        header_chunks(value).flatten() == value,
        encoded_words(value).len() == header_chunks(value).len(),
        forall|i: int|
            0 <= i < header_chunks(value).len() ==> {
                let chunk = #[trigger] header_chunks(value)[i];
                let inner = base64_standard(encode_utf8(chunk));
                &&& chunk.len() > 0
                &&& utf8_len(chunk) <= MAX_RAW_LEN
                &&& encoded_words(value)[i] == "=?UTF-8?B?"@ + inner + "?="@
                &&& decode_utf8(base64_decoded(inner, false)) == chunk
            },
{
    assert(encode_utf8(Seq::<char>::empty()) == Seq::<u8>::empty());
    lemma_chunks_from(value, Seq::empty());
    assert(Seq::<char>::empty() + value == value);
    assert forall|i: int| 0 <= i < header_chunks(value).len() implies {
        let chunk = #[trigger] header_chunks(value)[i];
        let inner = base64_standard(encode_utf8(chunk));
        &&& chunk.len() > 0
        &&& utf8_len(chunk) <= MAX_RAW_LEN
        &&& encoded_words(value)[i] == "=?UTF-8?B?"@ + inner + "?="@
        &&& decode_utf8(base64_decoded(inner, false)) == chunk
    } by {
        let chunk = header_chunks(value)[i];
        base64_round_trip(encode_utf8(chunk), false);
        vstd::utf8::encode_utf8_decode_utf8(chunk);
    }
}

} // verus!
