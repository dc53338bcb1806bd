//! Character-level string utilities shared by the rest of the library.
use vstd::prelude::*;

verus! {

/// `String::push`: appends one character.
#[verifier::external_body]
pub(crate) fn push_char(s: &mut String, c: char)
    ensures
        final(s)@ == old(s)@.push(c),
{
    s.push(c);
}

/// A character with the Unicode `White_Space` property (the definition of
/// white space that `char::is_whitespace` and `str::trim` use).
pub open spec fn is_white_space(c: char) -> bool {
    ||| ('\t' <= c && c <= '\r')
    ||| c == ' '
    ||| c == '\u{85}'
    ||| c == '\u{a0}'
    ||| c == '\u{1680}'
    ||| ('\u{2000}' <= c && c <= '\u{200a}')
    ||| c == '\u{2028}'
    ||| c == '\u{2029}'
    ||| c == '\u{202f}'
    ||| c == '\u{205f}'
    ||| c == '\u{3000}'
}

/// The string without its leading and trailing white space.
pub open spec fn trimmed(s: Seq<char>) -> Seq<char>
    decreases s.len(),
{
    if s.len() == 0 {
        s
    } else if is_white_space(s[0]) {
        trimmed(s.drop_first())
    } else if is_white_space(s.last()) {
        trimmed(s.drop_last())
    } else {
        s
    }
}

/// `str::trim`: per its documentation, the slice with leading and trailing
/// white space (the Unicode `White_Space` property) removed.
#[verifier::external_body]
pub(crate) fn trim(s: &str) -> (res: &str)
    ensures
        res@ == trimmed(s@),
{
    s.trim()
}

/// `str::to_lowercase`: the Unicode lowercase mapping of a string.
pub uninterp spec fn lowercased(s: Seq<char>) -> Seq<char>;

/// Calls `str::to_lowercase`; its result is named `lowercased` of the argument.
#[verifier::external_body]
pub(crate) fn to_lowercase(s: &str) -> (res: String)
    ensures
        res@ == lowercased(s@),
{
    s.to_lowercase()
}

/// A copy of the string as an owned `String`.
pub fn owned(s: &str) -> (res: String)
    ensures
        res@ == s@,
{
    s.to_owned()
}

/// The characters of a string, in order.
pub fn chars_of(s: &str) -> (res: Vec<char>)
    ensures
        res@ == s@,
{
    let mut out: Vec<char> = Vec::new();
    for c in it: s.chars()
        invariant
            it.seq() == s@,
            out@ == s@.take(it.index() as int),
    {
        proof {
            assert(s@.take(it.index() + 1) == s@.take(it.index() as int).push(c));
        }
        out.push(c);
    }
    proof {
        assert(s@.take(s@.len() as int) == s@);
    }
    out
}

/// Whether two strings hold the same characters.
pub fn str_eq(a: &str, b: &str) -> (res: bool)
    ensures
        res == (a@ == b@),
{
    let ca = chars_of(a);
    let cb = chars_of(b);
    if ca.len() != cb.len() {
        return false;
    }
    let mut i: usize = 0;
    while i < ca.len()
        invariant
            ca@ == a@,
            cb@ == b@,
            ca.len() == cb.len(),
            i <= ca.len(),
            forall|j: int| 0 <= j < i ==> ca@[j] == cb@[j],
        decreases ca.len() - i,
    {
        if ca[i] != cb[i] {
            return false;
        }
        i = i + 1;
    }
    proof {
        assert(ca@ =~= cb@);
    }
    true
}

/// `prefix` is a prefix of `s`.
pub open spec fn is_prefix(prefix: Seq<char>, s: Seq<char>) -> bool {
    prefix.len() <= s.len() && s.subrange(0, prefix.len() as int) == prefix
}

/// Whether `s` begins with `prefix`.
pub fn starts_with(s: &str, prefix: &str) -> (res: bool)
    ensures
        res == is_prefix(prefix@, s@),
{
    let cs = chars_of(s);
    let cp = chars_of(prefix);
    if cp.len() > cs.len() {
        return false;
    }
    let mut i: usize = 0;
    while i < cp.len()
        invariant
            cs@ == s@,
            cp@ == prefix@,
            cp.len() <= cs.len(),
            i <= cp.len(),
            forall|j: int| 0 <= j < i ==> cs@[j] == cp@[j],
        decreases cp.len() - i,
    {
        if cs[i] != cp[i] {
            proof {
                assert(s@.subrange(0, prefix@.len() as int)[i as int] != prefix@[i as int]);
            }
            return false;
        }
        i = i + 1;
    }
    proof {
        assert(s@.subrange(0, prefix@.len() as int) =~= prefix@);
    }
    true
}

/// The pieces of `s` between occurrences of `sep`, as `str::split` with a
/// character pattern yields them (an empty string gives one empty piece).
pub open spec fn split_spec(s: Seq<char>, sep: char) -> Seq<Seq<char>>
    decreases s.len(),
{
    if s.len() == 0 {
        seq![Seq::empty()]
    } else {
        let rest = split_spec(s.drop_last(), sep);
        if s.last() == sep {
            rest.push(Seq::empty())
        } else {
            rest.update(rest.len() - 1, rest.last().push(s.last()))
        }
    }
}

/// The views of a vector of strings.
pub open spec fn views(v: Seq<String>) -> Seq<Seq<char>> {
    v.map_values(|x: String| x@)
}

pub proof fn lemma_split_nonempty(s: Seq<char>, sep: char)
    ensures
        split_spec(s, sep).len() >= 1,
    decreases s.len(),
{
    if s.len() > 0 {
        lemma_split_nonempty(s.drop_last(), sep);
    }
}

/// Splits `s` at every occurrence of `sep`.
pub fn split_char(s: &str, sep: char) -> (res: Vec<String>)
    ensures
        views(res@) == split_spec(s@, sep),
{
    let mut out: Vec<String> = Vec::new();
    let mut cur = String::new();
    for c in it: s.chars()
        invariant
            it.seq() == s@,
            views(out@).push(cur@) == split_spec(s@.take(it.index() as int), sep),
    {
        let ghost before = s@.take(it.index() as int);
        proof {
            assert(s@.take(it.index() + 1).drop_last() == before);
            lemma_split_nonempty(before, sep);
        }
        if c == sep {
            let done = cur;
            out.push(done);
            cur = String::new();
            proof {
                assert(views(out@) == views(out@).push(cur@).drop_last());
                assert(views(out@).push(cur@) =~= split_spec(before, sep).push(Seq::empty()));
            }
        } else {
            push_char(&mut cur, c);
            proof {
                assert(views(out@).push(cur@) =~= split_spec(before, sep).update(
                    split_spec(before, sep).len() - 1,
                    split_spec(before, sep).last().push(c),
                ));
            }
        }
    }
    let last = cur;
    out.push(last);
    proof {
        assert(s@.take(s@.len() as int) == s@);
    }
    out
}

/// The pieces joined with `sep` between neighbours.
pub open spec fn join_spec(parts: Seq<Seq<char>>, sep: Seq<char>) -> Seq<char>
    decreases parts.len(),
{
    if parts.len() == 0 {
        Seq::empty()
    } else if parts.len() == 1 {
        parts[0]
    } else {
        join_spec(parts.drop_last(), sep) + sep + parts.last()
    }
}

/// Joins the strings with `sep` between neighbours.
pub fn join(parts: &Vec<String>, sep: &str) -> (res: String)
    ensures
        res@ == join_spec(views(parts@), sep@),
{
    let mut out = String::new();
    let mut i: usize = 0;
    while i < parts.len()
        invariant
            i <= parts.len(),
            out@ == join_spec(views(parts@).take(i as int), sep@),
        decreases parts.len() - i,
    {
        proof {
            assert(views(parts@).take(i + 1).drop_last() == views(parts@).take(i as int));
        }
        if i > 0 {
            out.append(sep);
        }
        out.append(parts[i].as_str());
        i = i + 1;
    }
    proof {
        assert(views(parts@).take(parts.len() as int) == views(parts@));
    }
    out
}

/// Joining the pieces of a split with the separator gives back the string.
pub proof fn lemma_join_split(s: Seq<char>, sep: char)
    ensures
        join_spec(split_spec(s, sep), seq![sep]) == s,
    decreases s.len(),
{
    if s.len() > 0 {
        let rest = split_spec(s.drop_last(), sep);
        lemma_join_split(s.drop_last(), sep);
        lemma_split_nonempty(s.drop_last(), sep);
        if s.last() == sep {
            assert(rest.push(Seq::empty()).drop_last() == rest);
        } else {
            let upd = rest.update(rest.len() - 1, rest.last().push(s.last()));
            if rest.len() == 1 {
                assert(s == s.drop_last().push(s.last()));
            } else {
                assert(upd.drop_last() == rest.drop_last());
                assert(s =~= s.drop_last().push(s.last()));
                assert(join_spec(rest, seq![sep]) == join_spec(rest.drop_last(), seq![sep])
                    + seq![sep] + rest.last());
            }
        }
    }
}

/// The decimal digits of a natural number, most significant first.
pub open spec fn decimal(n: nat) -> Seq<char>
    decreases n,
{
    if n < 10 {
        seq![digit_char(n)]
    } else {
        decimal(n / 10).push(digit_char(n % 10))
    }
}

pub open spec fn digit_char(d: nat) -> char {
    if d == 0 { '0' }
    else if d == 1 { '1' }
    else if d == 2 { '2' }
    else if d == 3 { '3' }
    else if d == 4 { '4' }
    else if d == 5 { '5' }
    else if d == 6 { '6' }
    else if d == 7 { '7' }
    else if d == 8 { '8' }
    else { '9' }
}

fn digit(d: u64) -> (c: char)
    requires
        d < 10,
    ensures
        c == digit_char(d as nat),
{
    if d == 0 { '0' }
    else if d == 1 { '1' }
    else if d == 2 { '2' }
    else if d == 3 { '3' }
    else if d == 4 { '4' }
    else if d == 5 { '5' }
    else if d == 6 { '6' }
    else if d == 7 { '7' }
    else if d == 8 { '8' }
    else { '9' }
}

/// The decimal representation of `n`.
pub fn decimal_string(n: u64) -> (res: String)
    ensures
        res@ == decimal(n as nat),
    decreases n,
{
    if n < 10 {
        let mut s = String::new();
        push_char(&mut s, digit(n));
        s
    } else {
        let mut s = decimal_string(n / 10);
        push_char(&mut s, digit(n % 10));
        s
    }
}

} // verus!

verus! {

/// A character of Unicode general category Cc (control codes), as
/// `char::is_control` is documented.
pub open spec fn is_control_char(c: char) -> bool {
    (c as u32) < 0x20 || (0x7f <= (c as u32) && (c as u32) <= 0x9f)
}

/// Whether a character is kept by `sanitize_for_terminal`.
pub open spec fn terminal_safe(c: char) -> bool {
    !is_control_char(c) || c == '\n' || c == '\t'
}

/// The characters of `s` that `sanitize_for_terminal` keeps, in order.
pub open spec fn terminal_sanitized(s: Seq<char>) -> Seq<char>
    decreases s.len(),
{
    if s.len() == 0 {
        s
    } else if terminal_safe(s.last()) {
        terminal_sanitized(s.drop_last()).push(s.last())
    } else {
        terminal_sanitized(s.drop_last())
    }
}

/// Removes control characters other than newline and tab, so that text
/// printed to a terminal cannot carry escape sequences.
pub fn sanitize_for_terminal(s: &str) -> (res: String)
    ensures
        res@ == terminal_sanitized(s@),
        forall|i: int| 0 <= i < res@.len() ==> terminal_safe(#[trigger] res@[i]),
{
    proof {
        lemma_terminal_sanitized_safe(s@);
    }
    let mut out = String::new();
    for c in it: s.chars()
        invariant
            it.seq() == s@,
            out@ == terminal_sanitized(s@.take(it.index() as int)),
    {
        proof {
            assert(s@.take(it.index() + 1).drop_last() == s@.take(it.index() as int));
        }
        let code = c as u32;
        let control = code < 0x20 || (0x7f <= code && code <= 0x9f);
        if !control || c == '\n' || c == '\t' {
            push_char(&mut out, c);
        }
    }
    proof {
        assert(s@.take(s@.len() as int) == s@);
    }
    out
}

/// Sanitizing leaves no character that a terminal reads as a control code,
/// other than newline and tab.
pub proof fn lemma_terminal_sanitized_safe(s: Seq<char>)
    ensures
        forall|i: int|
            0 <= i < terminal_sanitized(s).len() ==> terminal_safe(
                #[trigger] terminal_sanitized(s)[i],
            ),
    decreases s.len(),
{
    if s.len() > 0 {
        lemma_terminal_sanitized_safe(s.drop_last());
        let rest = terminal_sanitized(s.drop_last());
        if terminal_safe(s.last()) {
            assert forall|i: int| 0 <= i < rest.len() + 1 implies terminal_safe(
                #[trigger] rest.push(s.last())[i],
            ) by {
                if i < rest.len() {
                    assert(rest.push(s.last())[i] == rest[i]);
                }
            }
        }
    }
}

/// `text` wrapped in the ANSI colour escape `code` when colour is enabled.
pub open spec fn colorized(text: Seq<char>, code: Seq<char>, enabled: bool) -> Seq<char> {
    if enabled {
        "\x1b["@ + code + "m"@ + text + "\x1b[0m"@
    } else {
        text
    }
}

/// Wraps `text` in an ANSI colour escape when `enabled` (the caller decides
/// from the environment and the terminal whether colour is wanted).
pub fn colorize(text: &str, code: &str, enabled: bool) -> (res: String)
    ensures
        res@ == colorized(text@, code@, enabled),
{
    if enabled {
        let mut out = owned("\x1b[");
        out.append(code);
        out.append("m");
        out.append(text);
        out.append("\x1b[0m");
        out
    } else {
        owned(text)
    }
}

} // verus!

verus! {

pub proof fn lemma_join_push(parts: Seq<Seq<char>>, x: Seq<char>, sep: Seq<char>)
    requires
        parts.len() > 0,
    ensures
        join_spec(parts.push(x), sep) == join_spec(parts, sep) + sep + x,
{
    assert(parts.push(x).drop_last() == parts);
}

/// `s` holds no `c`.
pub open spec fn free_of(s: Seq<char>, c: char) -> bool {
    forall|i: int| 0 <= i < s.len() ==> #[trigger] s[i] != c
}

/// A string without the separator splits into itself alone.
pub proof fn lemma_split_free(n: Seq<char>, sep: char)
    requires
        free_of(n, sep),
    ensures
        split_spec(n, sep) == seq![n],
    decreases n.len(),
{
    if n.len() > 0 {
        assert(free_of(n.drop_last(), sep)) by {
            assert forall|c: int| 0 <= c < n.drop_last().len() implies #[trigger] n.drop_last()[c]
                != sep by {
                assert(n.drop_last()[c] == n[c]);
            }
        }
        lemma_split_free(n.drop_last(), sep);
        assert(n.last() == n[n.len() - 1]);
        assert(n.drop_last().push(n.last()) =~= n);
        let rest = seq![n.drop_last()];
        assert(rest.update(0, rest.last().push(n.last())) =~= seq![n]);
    } else {
        assert(n =~= Seq::<char>::empty());
    }
}

/// Appending the separator and a piece without it adds that piece to the split.
pub proof fn lemma_split_push(s: Seq<char>, sep: char, n: Seq<char>)
    requires
        free_of(n, sep),
    ensures
        split_spec(s + seq![sep] + n, sep) == split_spec(s, sep).push(n),
    decreases n.len(),
{
    if n.len() == 0 {
        assert(s + seq![sep] + n =~= s.push(sep));
        assert((s.push(sep)).drop_last() == s);
        assert(n =~= Seq::<char>::empty());
    } else {
        assert(free_of(n.drop_last(), sep)) by {
            assert forall|c: int| 0 <= c < n.drop_last().len() implies #[trigger] n.drop_last()[c]
                != sep by {
                assert(n.drop_last()[c] == n[c]);
            }
        }
        assert(n.last() == n[n.len() - 1]);
        lemma_split_push(s, sep, n.drop_last());
        let t = s + seq![sep] + n;
        assert(t.drop_last() =~= s + seq![sep] + n.drop_last());
        assert(t.last() == n.last());
        lemma_split_nonempty(s, sep);
        let prev = split_spec(s, sep).push(n.drop_last());
        assert(n.drop_last().push(n.last()) =~= n);
        assert(prev.update(prev.len() - 1, prev.last().push(n.last())) =~= split_spec(s, sep).push(n));
    }
}

/// Joining two non-empty lists is joining each and putting the separator between.
pub proof fn lemma_join_concat(a: Seq<Seq<char>>, b: Seq<Seq<char>>, sep: Seq<char>)
    requires
        a.len() > 0,
        b.len() > 0,
    ensures
        join_spec(a + b, sep) == join_spec(a, sep) + sep + join_spec(b, sep),
    decreases b.len(),
{
    if b.len() == 1 {
        assert(a + b == a.push(b[0]));
        lemma_join_push(a, b[0], sep);
    } else {
        let b1 = b.drop_last();
        lemma_join_concat(a, b1, sep);
        assert(a + b == (a + b1).push(b.last()));
        lemma_join_push(a + b1, b.last(), sep);
        lemma_join_push(b1, b.last(), sep);
        assert(b1.push(b.last()) == b);
    }
}

} // verus!

verus! {

/// Byte sequences in lexicographic order: `a` sorts before or with `b`.
pub open spec fn bytes_le(a: Seq<u8>, b: Seq<u8>) -> bool
    decreases a.len(),
{
    if a.len() == 0 {
        true
    } else if b.len() == 0 {
        false
    } else if a[0] != b[0] {
        a[0] < b[0]
    } else {
        bytes_le(a.drop_first(), b.drop_first())
    }
}

/// Strings in the order of `str`'s `Ord`: lexicographic by UTF-8 bytes.
pub open spec fn str_le(a: Seq<char>, b: Seq<char>) -> bool {
    bytes_le(vstd::utf8::encode_utf8(a), vstd::utf8::encode_utf8(b))
}

/// `sorted` holds the strings of `items`, each as often, in `str` order.
pub open spec fn is_sorted_permutation(sorted: Seq<Seq<char>>, items: Seq<Seq<char>>) -> bool {
    &&& sorted.to_multiset() == items.to_multiset()
    &&& forall|i: int, j: int| 0 <= i < j < sorted.len() ==> str_le(sorted[i], sorted[j])
}

/// `slice::sort` on strings: the same strings, each as often, ordered as
/// `String`'s `Ord` orders them (lexicographically by bytes).
#[verifier::external_body]
pub(crate) fn sort_strings(v: &mut Vec<String>)
    ensures
        is_sorted_permutation(views(final(v)@), views(old(v)@)),
{
    v.sort();
}

} // verus!
