//! Base64 and UTF-8 conversions, through the `base64` crate and std.
use vstd::prelude::*;
use vstd::utf8::{valid_utf8, decode_utf8};
use base64::Engine;

verus! {

/// A character of the standard or URL-safe base64 alphabet, or the padding `=`.
pub open spec fn is_base64_char(c: char) -> bool {
    ||| ('A' <= c && c <= 'Z')
    ||| ('a' <= c && c <= 'z')
    ||| ('0' <= c && c <= '9')
    ||| c == '+' || c == '/' || c == '-' || c == '_' || c == '='
}

/// The length of padded base64 text for `n` bytes.
pub open spec fn padded_base64_len(n: nat) -> nat {
    4 * ((n + 2) / 3)
}

/// The base64 digit of a 6-bit value (RFC 4648): `A`-`Z`, `a`-`z`, `0`-`9`,
/// then `+` and `/`, or `-` and `_` in the URL-safe alphabet.
pub open spec fn base64_digit(v: int, url_safe: bool) -> char {
    if v < 26 {
        (65 + v) as char
    } else if v < 52 {
        (97 + v - 26) as char
    } else if v < 62 {
        (48 + v - 52) as char
    } else if v == 62 {
        if url_safe { '-' } else { '+' }
    } else {
        if url_safe { '_' } else { '/' }
    }
}

/// Padded base64 (RFC 4648): each group of three bytes becomes four digits;
/// a final group of one or two bytes becomes two or three digits padded with
/// `=` to four.
#[verifier::opaque]
pub open spec fn base64_of(bytes: Seq<u8>, url_safe: bool) -> Seq<char>
    decreases bytes.len(),
{
    if bytes.len() == 0 {
        Seq::empty()
    } else if bytes.len() == 1 {
        let x = bytes[0] as int;
        seq![base64_digit(x / 4, url_safe), base64_digit((x % 4) * 16, url_safe), '=', '=']
    } else if bytes.len() == 2 {
        let x = bytes[0] as int;
        let y = bytes[1] as int;
        seq![
            base64_digit(x / 4, url_safe),
            base64_digit((x % 4) * 16 + y / 16, url_safe),
            base64_digit((y % 16) * 4, url_safe),
            '=',
        ]
    } else {
        let x = bytes[0] as int;
        let y = bytes[1] as int;
        let z = bytes[2] as int;
        seq![
            base64_digit(x / 4, url_safe),
            base64_digit((x % 4) * 16 + y / 16, url_safe),
            base64_digit((y % 16) * 4 + z / 64, url_safe),
            base64_digit(z % 64, url_safe),
        ] + base64_of(bytes.skip(3), url_safe)
    }
}

/// What `base64::engine::general_purpose::STANDARD` encodes the bytes to:
/// padded base64 with the standard alphabet.
pub open spec fn base64_standard(bytes: Seq<u8>) -> Seq<char> {
    base64_of(bytes, false)
}

/// What `base64::engine::general_purpose::URL_SAFE` encodes the bytes to:
/// padded base64 with the URL-safe alphabet.
pub open spec fn base64_url_safe(bytes: Seq<u8>) -> Seq<char> {
    base64_of(bytes, true)
}

/// The 6-bit value of a base64 digit.
pub open spec fn base64_digit_value(c: char, url_safe: bool) -> int {
    if 'A' <= c && c <= 'Z' {
        c as int - 65
    } else if 'a' <= c && c <= 'z' {
        c as int - 97 + 26
    } else if '0' <= c && c <= '9' {
        c as int - 48 + 52
    } else if c == (if url_safe { '-' } else { '+' }) {
        62
    } else {
        63
    }
}

/// Decoding of padded base64 text: each group of four characters gives
/// three bytes, or one or two where the group ends in padding.
pub open spec fn base64_decoded(text: Seq<char>, url_safe: bool) -> Seq<u8>
    decreases text.len(),
{
    if text.len() < 4 {
        Seq::empty()
    } else {
        let a = base64_digit_value(text[0], url_safe);
        let b = base64_digit_value(text[1], url_safe);
        let c = base64_digit_value(text[2], url_safe);
        let d = base64_digit_value(text[3], url_safe);
        let x = (a * 4 + b / 16) as u8;
        let y = ((b % 16) * 16 + c / 4) as u8;
        let z = ((c % 4) * 64 + d) as u8;
        let group = if text[2] == '=' {
            seq![x]
        } else if text[3] == '=' {
            seq![x, y]
        } else {
            seq![x, y, z]
        };
        group + base64_decoded(text.skip(4), url_safe)
    }
}

proof fn lemma_base64_digit(v: int, url_safe: bool)
    requires
        0 <= v < 64,
    ensures
        base64_digit_value(base64_digit(v, url_safe), url_safe) == v,
        is_base64_char(base64_digit(v, url_safe)),
        base64_digit(v, url_safe) != '=',
{
}

/// Base64 text has the padded length and only alphabet and padding characters.
pub proof fn lemma_base64_shape(bytes: Seq<u8>, url_safe: bool)
    ensures
        base64_of(bytes, url_safe).len() == padded_base64_len(bytes.len()),
        forall|i: int|
            0 <= i < base64_of(bytes, url_safe).len() ==> is_base64_char(
                #[trigger] base64_of(bytes, url_safe)[i],
            ),
    decreases bytes.len(),
{
    reveal(base64_of);
    let t = base64_of(bytes, url_safe);
    if bytes.len() == 1 {
        let x = bytes[0] as int;
        lemma_base64_digit(x / 4, url_safe);
        lemma_base64_digit((x % 4) * 16, url_safe);
    } else if bytes.len() == 2 {
        let x = bytes[0] as int;
        let y = bytes[1] as int;
        lemma_base64_digit(x / 4, url_safe);
        lemma_base64_digit((x % 4) * 16 + y / 16, url_safe);
        lemma_base64_digit((y % 16) * 4, url_safe);
    } else if bytes.len() >= 3 {
        let x = bytes[0] as int;
        let y = bytes[1] as int;
        let z = bytes[2] as int;
        let a = x / 4;
        let b = (x % 4) * 16 + y / 16;
        let c = (y % 16) * 4 + z / 64;
        let d = z % 64;
        lemma_base64_digit(a, url_safe);
        lemma_base64_digit(b, url_safe);
        lemma_base64_digit(c, url_safe);
        lemma_base64_digit(d, url_safe);
        lemma_base64_shape(bytes.skip(3), url_safe);
        let head = seq![
            base64_digit(a, url_safe),
            base64_digit(b, url_safe),
            base64_digit(c, url_safe),
            base64_digit(d, url_safe),
        ];
        let tail = base64_of(bytes.skip(3), url_safe);
        assert(t == head + tail);
        assert forall|i: int| 0 <= i < t.len() implies is_base64_char(#[trigger] t[i]) by {
            if i >= 4 {
                assert(t[i] == tail[i - 4]);
            }
        }
    }
}

/// Decoding base64 gives back the bytes that were encoded.
pub proof fn base64_round_trip(bytes: Seq<u8>, url_safe: bool)
    ensures
        base64_decoded(base64_of(bytes, url_safe), url_safe) == bytes,
    decreases bytes.len(),
{
    reveal(base64_of);
    let t = base64_of(bytes, url_safe);
    if bytes.len() == 0 {
    } else if bytes.len() == 1 {
        let x = bytes[0] as int;
        lemma_base64_digit(x / 4, url_safe);
        lemma_base64_digit((x % 4) * 16, url_safe);
        assert(t.len() == 4 && t[2] == '=');
        assert(t.skip(4) =~= Seq::<char>::empty());
        assert(base64_decoded(t.skip(4), url_safe) == Seq::<u8>::empty());
        assert((((x / 4) * 4 + ((x % 4) * 16) / 16) as u8) == bytes[0]);
        assert(base64_decoded(t, url_safe) =~= seq![bytes[0]]);
    } else if bytes.len() == 2 {
        let x = bytes[0] as int;
        let y = bytes[1] as int;
        lemma_base64_digit(x / 4, url_safe);
        lemma_base64_digit((x % 4) * 16 + y / 16, url_safe);
        lemma_base64_digit((y % 16) * 4, url_safe);
        assert(t.len() == 4 && t[2] != '=' && t[3] == '=');
        assert(t.skip(4) =~= Seq::<char>::empty());
        assert(base64_decoded(t.skip(4), url_safe) == Seq::<u8>::empty());
        assert((((x / 4) * 4 + ((x % 4) * 16 + y / 16) / 16) as u8) == bytes[0]);
        assert((((((x % 4) * 16 + y / 16) % 16) * 16 + ((y % 16) * 4) / 4) as u8) == bytes[1]);
        assert(base64_decoded(t, url_safe) =~= seq![bytes[0], bytes[1]]);
    } else {
        let x = bytes[0] as int;
        let y = bytes[1] as int;
        let z = bytes[2] as int;
        let a = x / 4;
        let b = (x % 4) * 16 + y / 16;
        let c = (y % 16) * 4 + z / 64;
        let d = z % 64;
        lemma_base64_digit(a, url_safe);
        lemma_base64_digit(b, url_safe);
        lemma_base64_digit(c, url_safe);
        lemma_base64_digit(d, url_safe);
        base64_round_trip(bytes.skip(3), url_safe);
        let head = seq![
            base64_digit(a, url_safe),
            base64_digit(b, url_safe),
            base64_digit(c, url_safe),
            base64_digit(d, url_safe),
        ];
        assert(t == head + base64_of(bytes.skip(3), url_safe));
        assert(t.skip(4) =~= base64_of(bytes.skip(3), url_safe));
        assert(((a * 4 + b / 16) as u8) == bytes[0]);
        assert((((b % 16) * 16 + c / 4) as u8) == bytes[1]);
        assert((((c % 4) * 64 + d) as u8) == bytes[2]);
        assert(seq![bytes[0], bytes[1], bytes[2]] + bytes.skip(3) =~= bytes);
    }
}

/// What `base64::engine::general_purpose::URL_SAFE` decodes the text to, or
/// `None` where it reports a decode error.
pub uninterp spec fn base64_url_safe_decoded(text: Seq<u8>) -> Option<Seq<u8>>;

/// `STANDARD.encode` (`base64` crate): the contract claims the result is
/// padded base64 of the bytes with the standard alphabet (`base64_standard`).
/// The crate panics when the padded length overflows `usize`.
#[verifier::external_body]
pub(crate) fn encode_standard(bytes: &[u8]) -> (res: String)
    requires
        padded_base64_len(bytes@.len()) <= usize::MAX,
    ensures
        res@ == base64_standard(bytes@),
{
    base64::engine::general_purpose::STANDARD.encode(bytes)
}

/// `URL_SAFE.encode` (`base64` crate): the contract claims the result is
/// padded base64 of the bytes with the URL-safe alphabet (`base64_url_safe`).
/// The crate panics when the padded length overflows `usize`.
#[verifier::external_body]
pub(crate) fn encode_url_safe(bytes: &[u8]) -> (res: String)
    requires
        padded_base64_len(bytes@.len()) <= usize::MAX,
    ensures
        res@ == base64_url_safe(bytes@),
{
    base64::engine::general_purpose::URL_SAFE.encode(bytes)
}

/// `URL_SAFE.decode` (`base64` crate). The contract claims only that the
/// outcome is the one named by `base64_url_safe_decoded` of the input bytes.
#[verifier::external_body]
pub(crate) fn decode_url_safe(text: &[u8]) -> (res: Option<Vec<u8>>)
    ensures
        match res {
            Some(bytes) => base64_url_safe_decoded(text@) == Some(bytes@),
            None => base64_url_safe_decoded(text@) is None,
        },
{
    base64::engine::general_purpose::URL_SAFE.decode(text).ok()
}

/// `String::from_utf8`: succeeds exactly on valid UTF-8, and the string then
/// holds the decoded characters.
#[verifier::external_body]
pub(crate) fn utf8_string(bytes: Vec<u8>) -> (res: Option<String>)
    ensures
        res is Some <==> valid_utf8(bytes@),
        res matches Some(s) ==> s@ == decode_utf8(bytes@),
{
    String::from_utf8(bytes).ok()
}

} // verus!
