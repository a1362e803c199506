//! Character-level helpers shared by the rest of the crate: conversion between
//! strings and character vectors, the ordering of names, and the clean-up of
//! raw log text.

use vstd::prelude::*;
use vstd::utf8::{
    decode_utf8, encode_utf8, encode_utf8_decode_utf8, encode_utf8_valid_utf8, valid_utf8,
};

verus! {

/// The escape character that introduces a terminal control sequence.
pub const ESC: char = '\x1b';

/// Whether `c` is a control character: one of U+0000 to U+001F or of U+007F
/// to U+009F, which is what `char::is_control` holds of.
pub open spec fn char_is_control(c: char) -> bool {
    c <= '\u{1f}' || ('\u{7f}' <= c && c <= '\u{9f}')
}

/// Whether `c` is white space, which is what `char::is_whitespace` holds of:
/// the space, U+0009 to U+000D, U+0085, U+00A0, U+1680, U+2000 to U+200A,
/// U+2028, U+2029, U+202F, U+205F and U+3000.
pub open spec fn char_is_whitespace(c: char) -> bool {
    c == ' ' || ('\t' <= c && c <= '\r') || c == '\u{85}' || c == '\u{a0}' || c == '\u{1680}' || (
    '\u{2000}' <= c && c <= '\u{200a}') || c == '\u{2028}' || c == '\u{2029}' || c == '\u{202f}'
        || c == '\u{205f}' || c == '\u{3000}'
}

/// What `String::from_utf8_lossy` makes of `bytes`.
pub uninterp spec fn lossy_text(bytes: Seq<u8>) -> Seq<char>;

/// The text read from `bytes`: the text that they encode where they are
/// UTF-8, else what `String::from_utf8_lossy` makes of them.
pub open spec fn utf8_lossy(bytes: Seq<u8>) -> Seq<char> {
    if valid_utf8(bytes) {
        decode_utf8(bytes)
    } else {
        lossy_text(bytes)
    }
}

/// The bytes that encode a text are read back as that text.
pub proof fn law_encoded_text_is_read_back(text: Seq<char>)
    ensures
        utf8_lossy(encode_utf8(text)) == text,
{
    encode_utf8_valid_utf8(text);
    encode_utf8_decode_utf8(text);
}

/// `String::push`: the string afterwards is the string before followed by `c`.
#[verifier::external_body]
pub(crate) fn push_char(s: &mut String, c: char)
    ensures
        final(s)@ == old(s)@.push(c),
{
    s.push(c);
}

/// Whether `c` is a control character.
pub fn is_control(c: char) -> (r: bool)
    ensures
        r == char_is_control(c),
{
    c <= '\u{1f}' || ('\u{7f}' <= c && c <= '\u{9f}')
}

/// Whether `c` is white space.
pub fn is_whitespace(c: char) -> (r: bool)
    ensures
        r == char_is_whitespace(c),
{
    c == ' ' || ('\t' <= c && c <= '\r') || c == '\u{85}' || c == '\u{a0}' || c == '\u{1680}' || (
    '\u{2000}' <= c && c <= '\u{200a}') || c == '\u{2028}' || c == '\u{2029}' || c == '\u{202f}'
        || c == '\u{205f}' || c == '\u{3000}'
}

/// `String::from_utf8_lossy`: the decoded text is a function of the bytes
/// alone, and bytes that are UTF-8 give the text that they encode.
#[verifier::external_body]
pub(crate) fn decode_lossy(bytes: &[u8]) -> (s: String)
    ensures
        s@ == lossy_text(bytes@),
        s@ == utf8_lossy(bytes@),
{
    String::from_utf8_lossy(bytes).into_owned()
}

/// Lexicographic order on character sequences, by code point; a proper prefix
/// comes before the longer sequence.
pub open spec fn name_le(a: Seq<char>, b: Seq<char>) -> bool
    decreases a.len(),
{
    if a.len() == 0 {
        true
    } else if b.len() == 0 {
        false
    } else if a[0] != b[0] {
        a[0] < b[0]
    } else {
        name_le(a.drop_first(), b.drop_first())
    }
}

/// Any two names are comparable.
pub proof fn lemma_name_le_total(a: Seq<char>, b: Seq<char>)
    ensures
        name_le(a, b) || name_le(b, a),
    decreases a.len(),
{
    if a.len() > 0 && b.len() > 0 && a[0] == b[0] {
        lemma_name_le_total(a.drop_first(), b.drop_first());
    }
}

/// The order of names is transitive.
pub proof fn lemma_name_le_transitive(a: Seq<char>, b: Seq<char>, c: Seq<char>)
    requires
        name_le(a, b),
        name_le(b, c),
    ensures
        name_le(a, c),
    decreases a.len(),
{
    if a.len() > 0 && b.len() > 0 && c.len() > 0 && a[0] == b[0] && b[0] == c[0] {
        lemma_name_le_transitive(a.drop_first(), b.drop_first(), c.drop_first());
    }
}

/// Every name is at most itself.
pub proof fn law_name_le_reflexive(a: Seq<char>)
    ensures
        name_le(a, a),
    decreases a.len(),
{
    if a.len() > 0 {
        law_name_le_reflexive(a.drop_first());
    }
}

/// Names that are at most each other are equal.
pub proof fn law_name_le_antisymmetric(a: Seq<char>, b: Seq<char>)
    requires
        name_le(a, b),
        name_le(b, a),
    ensures
        a == b,
    decreases a.len(),
{
    if a.len() > 0 && b.len() > 0 {
        law_name_le_antisymmetric(a.drop_first(), b.drop_first());
        assert(a =~= seq![a[0]] + a.drop_first());
        assert(b =~= seq![b[0]] + b.drop_first());
    } else {
        assert(a =~= b);
    }
}

/// Whether `a` comes before `b` in the order of names, or is `b`.
pub fn str_le(a: &str, b: &str) -> (r: bool)
    ensures
        r == name_le(a@, b@),
{
    let x = chars_of(a);
    let y = chars_of(b);
    let mut i: usize = 0;
    assert(x@.skip(0) =~= x@ && y@.skip(0) =~= y@);
    while i < x.len() && i < y.len()
        invariant
            i <= x@.len(),
            i <= y@.len(),
            x@ == a@,
            y@ == b@,
            name_le(x@.skip(i as int), y@.skip(i as int)) == name_le(x@, y@),
        decreases x@.len() - i,
    {
        let ghost rest_x = x@.skip(i as int);
        let ghost rest_y = y@.skip(i as int);
        assert(rest_x[0] == x@[i as int] && rest_y[0] == y@[i as int]);
        if x[i] != y[i] {
            assert(name_le(rest_x, rest_y) == (rest_x[0] < rest_y[0]));
            return x[i] < y[i];
        }
        assert(name_le(rest_x, rest_y) == name_le(rest_x.drop_first(), rest_y.drop_first()));
        assert(rest_x.drop_first() =~= x@.skip(i + 1));
        assert(rest_y.drop_first() =~= y@.skip(i + 1));
        i += 1;
    }
    proof {
        if i == x@.len() {
            assert(x@.skip(i as int).len() == 0);
        } else {
            assert(x@.skip(i as int).len() > 0 && y@.skip(i as int).len() == 0);
        }
    }
    i == x.len()
}

/// The characters of `s`, in order.
pub fn chars_of(s: &str) -> (v: Vec<char>)
    ensures
        v@ == s@,
{
    let mut v: Vec<char> = Vec::new();
    for c in it: s.chars()
        invariant
            it.seq() == s@,
            v@ == s@.take(it.index()),
    {
        v.push(c);
    }
    v
}

/// The string made of the characters of `v`, in order.
pub fn string_of(v: &Vec<char>) -> (s: String)
    ensures
        s@ == v@,
{
    let mut s = String::new();
    let mut i: usize = 0;
    while i < v.len()
        invariant
            i <= v.len(),
            s@ == v@.take(i as int),
        decreases v.len() - i,
    {
        push_char(&mut s, v[i]);
        i += 1;
    }
    s
}

/// Whether `c` is one of the letters `a` to `z` or `A` to `Z`.
pub open spec fn is_ascii_letter(c: char) -> bool {
    ('a' <= c && c <= 'z') || ('A' <= c && c <= 'Z')
}

/// Tests `is_ascii_letter`.
pub fn ascii_letter(c: char) -> (r: bool)
    ensures
        r == is_ascii_letter(c),
{
    (c >= 'a' && c <= 'z') || (c >= 'A' && c <= 'Z')
}

/// What is left of `s` from position `i` on once control sequences are taken
/// out. A sequence starts with `ESC [` and ends with the first ASCII letter
/// after it (or with the text); `in_sequence` says that position `i` lies
/// inside one. An `ESC` that starts no sequence is dropped alone.
pub open spec fn strip_ansi_from(s: Seq<char>, i: int, in_sequence: bool) -> Seq<char>
    decreases s.len() - i,
{
    if i < 0 || i >= s.len() {
        Seq::empty()
    } else if in_sequence {
        strip_ansi_from(s, i + 1, !is_ascii_letter(s[i]))
    } else if s[i] != ESC {
        seq![s[i]] + strip_ansi_from(s, i + 1, false)
    } else if i + 1 < s.len() && s[i + 1] == '[' {
        strip_ansi_from(s, i + 2, true)
    } else {
        strip_ansi_from(s, i + 1, false)
    }
}

/// `s` without its terminal control sequences.
pub open spec fn strip_ansi(s: Seq<char>) -> Seq<char> {
    strip_ansi_from(s, 0, false)
}

/// Stripped text holds no escape character.
pub proof fn lemma_strip_ansi_has_no_escape(s: Seq<char>, i: int, in_sequence: bool)
    ensures
        !strip_ansi_from(s, i, in_sequence).contains(ESC),
    decreases s.len() - i,
{
    let out = strip_ansi_from(s, i, in_sequence);
    if i < 0 || i >= s.len() {
    } else if in_sequence {
        lemma_strip_ansi_has_no_escape(s, i + 1, !is_ascii_letter(s[i]));
    } else if s[i] != ESC {
        lemma_strip_ansi_has_no_escape(s, i + 1, false);
        let rest = strip_ansi_from(s, i + 1, false);
        assert forall|k: int| 0 <= k < out.len() implies out[k] != ESC by {
            if k > 0 {
                assert(out[k] == rest[k - 1]);
                assert(rest.contains(rest[k - 1]));
            }
        }
    } else if i + 1 < s.len() && s[i + 1] == '[' {
        lemma_strip_ansi_has_no_escape(s, i + 2, true);
    } else {
        lemma_strip_ansi_has_no_escape(s, i + 1, false);
    }
}

/// Text without control sequences is left as it is.
pub proof fn law_strip_ansi_keeps_plain_text(s: Seq<char>, i: int)
    requires
        0 <= i <= s.len(),
        !s.contains(ESC),
    ensures
        strip_ansi_from(s, i, false) == s.skip(i),
    decreases s.len() - i,
{
    if i < s.len() {
        assert(s.contains(s[i]));
        law_strip_ansi_keeps_plain_text(s, i + 1);
        assert(s.skip(i) =~= seq![s[i]] + s.skip(i + 1));
    } else {
        assert(s.skip(i) =~= Seq::<char>::empty());
    }
}

/// Removes terminal control sequences from `s`: each `ESC [` up to and
/// including the next ASCII letter, and every other `ESC` by itself.
pub fn strip_ansi_codes(s: &str) -> (result: String)
    ensures
        result@ == strip_ansi(s@),
        !result@.contains(ESC),
{
    let v = chars_of(s);
    let out = strip_ansi_chars(&v);
    string_of(&out)
}

/// `strip_ansi_codes` on characters.
pub fn strip_ansi_chars(v: &Vec<char>) -> (out: Vec<char>)
    ensures
        out@ == strip_ansi(v@),
        !out@.contains(ESC),
{
    let mut out: Vec<char> = Vec::new();
    let mut i: usize = 0;
    let mut in_sequence = false;
    while i < v.len()
        invariant
            i <= v.len(),
            out@ + strip_ansi_from(v@, i as int, in_sequence) == strip_ansi(v@),
        decreases v.len() - i,
    {
        let c = v[i];
        let ghost before = out@;
        if in_sequence {
            in_sequence = !ascii_letter(c);
            i += 1;
        } else if c != ESC {
            out.push(c);
            i += 1;
            assert(out@ + strip_ansi_from(v@, i as int, false) =~= before + (seq![c]
                + strip_ansi_from(v@, i as int, false)));
        } else if i + 1 < v.len() && v[i + 1] == '[' {
            in_sequence = true;
            i += 2;
        } else {
            i += 1;
        }
    }
    proof {
        assert(out@ + Seq::<char>::empty() =~= out@);
        lemma_strip_ansi_has_no_escape(v@, 0, false);
    }
    out
}

/// Whether the renderer keeps `c`: every character but the control
/// characters, and of these the carriage return, the line feed and the tab,
/// which `expanded` turns into spaces or nothing.
pub open spec fn is_kept(c: char) -> bool {
    !char_is_control(c) || c == '\r' || c == '\n' || c == '\t'
}

/// What a kept character becomes: a carriage return vanishes, a line feed
/// becomes one space, a tab four spaces, anything else stays.
pub open spec fn expanded(c: char) -> Seq<char> {
    if c == '\r' {
        Seq::empty()
    } else if c == '\n' {
        seq![' ']
    } else if c == '\t' {
        seq![' ', ' ', ' ', ' ']
    } else {
        seq![c]
    }
}

/// `s` with the characters that are not kept taken out and the others expanded.
pub open spec fn normalized(s: Seq<char>) -> Seq<char>
    decreases s.len(),
{
    if s.len() == 0 {
        Seq::empty()
    } else if is_kept(s.last()) {
        normalized(s.drop_last()) + expanded(s.last())
    } else {
        normalized(s.drop_last())
    }
}

/// A log line as the renderer shows it: control sequences removed, then
/// control characters dropped and line breaks and tabs turned into spaces.
pub open spec fn sanitized(s: Seq<char>) -> Seq<char> {
    normalized(strip_ansi(s))
}

/// Normalized text holds no control character.
pub proof fn lemma_normalized_has_no_control(s: Seq<char>)
    ensures
        forall|i: int| 0 <= i < normalized(s).len() ==> !char_is_control(#[trigger] normalized(s)[i]),
    decreases s.len(),
{
    if s.len() > 0 {
        let front = normalized(s.drop_last());
        lemma_normalized_has_no_control(s.drop_last());
        let out = normalized(s);
        assert forall|i: int| 0 <= i < out.len() implies !char_is_control(#[trigger] out[i]) by {
            if i < front.len() {
                assert(out[i] == front[i]);
            } else {
                assert(is_kept(s.last()));
                assert(out[i] == expanded(s.last())[i - front.len()]);
            }
        }
    }
}

/// A cleaned line holds no control character: no line break, no tab and no
/// escape character.
pub proof fn law_sanitized_has_no_control(s: Seq<char>)
    ensures
        forall|i: int| 0 <= i < sanitized(s).len() ==> !char_is_control(#[trigger] sanitized(s)[i]),
{
    lemma_normalized_has_no_control(strip_ansi(s));
}

/// Text without control characters stays as it is when its control
/// characters are dropped.
pub proof fn lemma_normalized_keeps_clean_text(s: Seq<char>)
    requires
        forall|i: int| 0 <= i < s.len() ==> !char_is_control(#[trigger] s[i]),
    ensures
        normalized(s) == s,
    decreases s.len(),
{
    if s.len() > 0 {
        let front = s.drop_last();
        assert forall|i: int| 0 <= i < front.len() implies !char_is_control(
            #[trigger] front[i],
        ) by {
            assert(front[i] == s[i]);
        }
        lemma_normalized_keeps_clean_text(front);
        assert(!char_is_control(s[s.len() - 1]));
        assert(front + seq![s.last()] =~= s);
    }
}

/// A line without control characters is shown as it is.
pub proof fn law_sanitized_keeps_clean_text(s: Seq<char>)
    requires
        forall|i: int| 0 <= i < s.len() ==> !char_is_control(#[trigger] s[i]),
    ensures
        sanitized(s) == s,
{
    assert(!s.contains(ESC)) by {
        if s.contains(ESC) {
            let k = choose|k: int| 0 <= k < s.len() && s[k] == ESC;
            assert(char_is_control(s[k]));
        }
    }
    law_strip_ansi_keeps_plain_text(s, 0);
    assert(s.skip(0) =~= s);
    lemma_normalized_keeps_clean_text(s);
}

/// Cleans a log line for display; see `sanitized`.
pub fn sanitize(line: &str) -> (result: String)
    ensures
        result@ == sanitized(line@),
{
    let v = chars_of(line);
    let out = sanitize_chars(&v);
    string_of(&out)
}

/// `sanitize` on characters.
pub fn sanitize_chars(v: &Vec<char>) -> (out: Vec<char>)
    ensures
        out@ == sanitized(v@),
{
    let stripped = strip_ansi_chars(v);
    let mut out: Vec<char> = Vec::new();
    let mut i: usize = 0;
    while i < stripped.len()
        invariant
            i <= stripped.len(),
            out@ == normalized(stripped@.take(i as int)),
        decreases stripped.len() - i,
    {
        let c = stripped[i];
        let ghost before = out@;
        proof {
            let next = stripped@.take(i + 1);
            assert(next.drop_last() =~= stripped@.take(i as int));
            assert(next.last() == c);
        }
        if !is_control(c) || c == '\r' || c == '\n' || c == '\t' {
            if c == '\r' {
                assert(out@ =~= before + expanded(c));
            } else if c == '\n' {
                out.push(' ');
                assert(out@ =~= before + expanded(c));
            } else if c == '\t' {
                out.push(' ');
                out.push(' ');
                out.push(' ');
                out.push(' ');
                assert(out@ =~= before + expanded(c));
            } else {
                out.push(c);
                assert(out@ =~= before + expanded(c));
            }
        }
        i += 1;
    }
    assert(stripped@.take(stripped.len() as int) =~= stripped@);
    out
}

/// `s` without the white space at its end.
pub open spec fn trimmed_end(s: Seq<char>) -> Seq<char>
    decreases s.len(),
{
    if s.len() > 0 && char_is_whitespace(s.last()) {
        trimmed_end(s.drop_last())
    } else {
        s
    }
}

/// Trimmed text is a prefix of the text it came from and does not end in white space.
pub proof fn law_trimmed_end(s: Seq<char>)
    ensures
        trimmed_end(s).len() <= s.len(),
        trimmed_end(s) == s.take(trimmed_end(s).len() as int),
        trimmed_end(s).len() > 0 ==> !char_is_whitespace(trimmed_end(s).last()),
        forall|k: int| trimmed_end(s).len() <= k < s.len() ==> char_is_whitespace(s[k]),
    decreases s.len(),
{
    if s.len() > 0 && char_is_whitespace(s.last()) {
        law_trimmed_end(s.drop_last());
        let t = trimmed_end(s);
        assert(s.drop_last().take(t.len() as int) =~= s.take(t.len() as int));
        assert forall|k: int| t.len() <= k < s.len() implies char_is_whitespace(s[k]) by {
            if k < s.len() - 1 {
                assert(s[k] == s.drop_last()[k]);
            }
        }
    } else {
        assert(s.take(s.len() as int) =~= s);
    }
}

/// The characters of `v` without the white space at the end.
pub fn trim_end_chars(v: &Vec<char>) -> (out: Vec<char>)
    ensures
        out@ == trimmed_end(v@),
{
    let mut n: usize = v.len();
    assert(v@.take(n as int) =~= v@);
    while n > 0 && is_whitespace(v[n - 1])
        invariant
            n <= v.len(),
            trimmed_end(v@.take(n as int)) == trimmed_end(v@),
        decreases n,
    {
        proof {
            let cur = v@.take(n as int);
            assert(cur.last() == v@[n - 1]);
            assert(cur.drop_last() =~= v@.take(n - 1));
        }
        n -= 1;
    }
    proof {
        assert(v@.take(v.len() as int) =~= v@);
        let cur = v@.take(n as int);
        if n > 0 {
            assert(cur.last() == v@[n - 1]);
        }
        assert(trimmed_end(cur) == cur);
    }
    let mut out: Vec<char> = Vec::new();
    let mut i: usize = 0;
    while i < n
        invariant
            i <= n <= v.len(),
            out@ == v@.take(i as int),
        decreases n - i,
    {
        out.push(v[i]);
        i += 1;
    }
    out
}

} // verus!
