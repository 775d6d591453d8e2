//! Text as sequences of characters: splitting, trimming and joining, with the
//! few functions of the standard library that the rest of the crate relies on.

use vstd::prelude::*;
use vstd::utf8::{decode_utf8, is_ascii_chars, valid_utf8};

verus! {

// ---------------------------------------------------------------------------
// Models
// ---------------------------------------------------------------------------

/// The characters of an optional text.
pub open spec fn opt_text(o: Option<String>) -> Option<Seq<char>> {
    match o {
        Some(s) => Some(s@),
        None => None,
    }
}

/// The texts of a list, each as its characters.
pub open spec fn texts(v: Seq<String>) -> Seq<Seq<char>> {
    v.map_values(|s: String| s@)
}

/// The Unicode `White_Space` property.
pub open spec fn is_white(c: char) -> bool {
    ||| '\u{9}' <= c <= '\u{d}'
    ||| c == ' '
    ||| c == '\u{85}'
    ||| c == '\u{a0}'
    ||| c == '\u{1680}'
    ||| '\u{2000}' <= c <= '\u{200a}'
    ||| c == '\u{2028}'
    ||| c == '\u{2029}'
    ||| c == '\u{202f}'
    ||| c == '\u{205f}'
    ||| c == '\u{3000}'
}

/// The pieces of `s` between the separators `sep`: one more than there are
/// separators, so the empty text has one empty piece.
pub open spec fn pieces(s: Seq<char>, sep: char) -> Seq<Seq<char>>
    decreases s.len(),
{
    if s.len() == 0 {
        seq![Seq::empty()]
    } else {
        let before = pieces(s.drop_last(), sep);
        if s.last() == sep {
            before.push(Seq::empty())
        } else {
            before.drop_last().push(before.last().push(s.last()))
        }
    }
}

/// The maximal runs of characters that are not white space.
pub open spec fn words(s: Seq<char>) -> Seq<Seq<char>>
    decreases s.len(),
{
    if s.len() == 0 {
        Seq::empty()
    } else {
        let before = words(s.drop_last());
        if is_white(s.last()) {
            before
        } else if s.len() == 1 || is_white(s[s.len() - 2]) {
            before.push(seq![s.last()])
        } else {
            before.drop_last().push(before.last().push(s.last()))
        }
    }
}

/// The parts of a list one after the other, with `sep` between them.
pub open spec fn joined(parts: Seq<Seq<char>>, sep: Seq<char>) -> Seq<char>
    decreases parts.len(),
{
    if parts.len() == 0 {
        Seq::empty()
    } else if parts.len() == 1 {
        parts[0]
    } else {
        joined(parts.drop_last(), sep) + sep + parts.last()
    }
}

/// `s` with every run of white space made one space, and none at either end.
pub open spec fn collapsed(s: Seq<char>) -> Seq<char> {
    joined(words(s), seq![' '])
}

/// `s` without the pairs of colons, taken from left to right.
pub open spec fn without_colon_pairs(s: Seq<char>) -> Seq<char>
    decreases s.len(),
{
    if s.len() == 0 {
        Seq::empty()
    } else if s.len() >= 2 && s[0] == ':' && s[1] == ':' {
        without_colon_pairs(s.skip(2))
    } else {
        seq![s[0]] + without_colon_pairs(s.skip(1))
    }
}

/// `s` without its leading white space.
pub open spec fn trimmed_start(s: Seq<char>) -> Seq<char>
    decreases s.len(),
{
    if s.len() > 0 && is_white(s[0]) {
        trimmed_start(s.skip(1))
    } else {
        s
    }
}

/// `s` without its trailing white space.
pub open spec fn trimmed_end(s: Seq<char>) -> Seq<char>
    decreases s.len(),
{
    if s.len() > 0 && is_white(s.last()) {
        trimmed_end(s.drop_last())
    } else {
        s
    }
}

/// `s` without the white space at its ends.
pub open spec fn trimmed(s: Seq<char>) -> Seq<char> {
    trimmed_end(trimmed_start(s))
}

/// Whether `s` starts with `prefix`.
pub open spec fn has_prefix(s: Seq<char>, prefix: Seq<char>) -> bool {
    prefix.len() <= s.len() && s.take(prefix.len() as int) == prefix
}

/// Whether `a` comes before `b` in the order of their characters.
pub open spec fn text_less(a: Seq<char>, b: Seq<char>) -> bool
    decreases a.len(),
{
    if b.len() == 0 {
        false
    } else if a.len() == 0 {
        true
    } else if a[0] != b[0] {
        a[0] < b[0]
    } else {
        text_less(a.skip(1), b.skip(1))
    }
}

/// No text comes before itself.
pub proof fn lemma_text_less_irreflexive(a: Seq<char>)
    ensures
        !text_less(a, a),
    decreases a.len(),
{
    if a.len() > 0 {
        lemma_text_less_irreflexive(a.skip(1));
    }
}

/// The order of texts is transitive.
pub proof fn lemma_text_less_transitive(a: Seq<char>, b: Seq<char>, c: Seq<char>)
    requires
        text_less(a, b),
        text_less(b, c),
    ensures
        text_less(a, c),
    decreases a.len(),
{
    if a.len() > 0 && a[0] == b[0] && b[0] == c[0] {
        lemma_text_less_transitive(a.skip(1), b.skip(1), c.skip(1));
    }
}

/// Of two different texts, one comes before the other.
pub proof fn lemma_text_less_total(a: Seq<char>, b: Seq<char>)
    ensures
        text_less(a, b) || a == b || text_less(b, a),
    decreases a.len(),
{
    if a.len() > 0 && b.len() > 0 && a[0] == b[0] {
        lemma_text_less_total(a.skip(1), b.skip(1));
        if a.skip(1) == b.skip(1) {
            assert(a =~= seq![a[0]] + a.skip(1));
            assert(b =~= seq![b[0]] + b.skip(1));
        }
    } else if a.len() == 0 && b.len() == 0 {
        assert(a =~= b);
    }
}

/// The lower-case form of an ASCII character; other characters stay.
pub open spec fn ascii_lower(c: char) -> char {
    if 'A' <= c <= 'Z' {
        (c as u32 + 32) as char
    } else {
        c
    }
}

/// The decimal digits of `n`.
pub open spec fn digits(n: nat) -> Seq<char>
    decreases n,
{
    if n < 10 {
        seq![(n + 48) as char]
    } else {
        digits(n / 10).push((n % 10 + 48) as char)
    }
}

/// The decimal form of `n`, with a minus sign where it is negative.
pub open spec fn decimal(n: int) -> Seq<char> {
    if n < 0 {
        seq!['-'] + digits((-n) as nat)
    } else {
        digits(n as nat)
    }
}

// ---------------------------------------------------------------------------
// The standard library
// ---------------------------------------------------------------------------

/// What `str::to_lowercase` makes of a text with characters beyond ASCII: Unicode's
/// lower-case mapping, with the cases that depend on the characters around.
pub uninterp spec fn unicode_lowercased(s: Seq<char>) -> Seq<char>;

/// What `String::from_utf8_lossy` makes of bytes that are not valid: each invalid part
/// becomes a replacement character.
pub uninterp spec fn repaired(bytes: Seq<u8>) -> Seq<char>;

/// A text with its ASCII letters in lower case.
pub open spec fn lowered(s: Seq<char>) -> Seq<char> {
    s.map_values(|c: char| ascii_lower(c))
}

/// A text in lower case.
pub open spec fn lowercased(s: Seq<char>) -> Seq<char> {
    if is_ascii_chars(s) {
        lowered(s)
    } else {
        unicode_lowercased(s)
    }
}

/// The text that bytes encode, with replacement characters where they are invalid.
pub open spec fn lossy(bytes: Seq<u8>) -> Seq<char> {
    if valid_utf8(bytes) {
        decode_utf8(bytes)
    } else {
        repaired(bytes)
    }
}

/// Whether a character is one that lists of tags are written with: a comma, a colon,
/// or white space.
pub open spec fn is_mark(c: char) -> bool {
    c == ',' || c == ':' || is_white(c)
}

/// The marks of a text, with one letter for what stands between two of them.
pub open spec fn outline(s: Seq<char>) -> Seq<char>
    decreases s.len(),
{
    if s.len() == 0 {
        Seq::empty()
    } else {
        let before = outline(s.drop_last());
        if is_mark(s.last()) {
            before.push(s.last())
        } else if before.len() > 0 && before.last() == 'x' {
            before
        } else {
            before.push('x')
        }
    }
}

/// Whether a text and all its parts are in lower case.
pub open spec fn is_settled(s: Seq<char>) -> bool {
    forall|a: int, b: int|
        0 <= a <= b <= s.len() ==> lowercased(#[trigger] s.subrange(a, b)) == s.subrange(a, b)
}

/// `String::push` appends one character.
pub assume_specification[ String::push ](s: &mut String, c: char)
    ensures
        final(s)@ == old(s)@.push(c),
;

/// `char::is_whitespace` tests the Unicode `White_Space` property.
pub assume_specification[ char::is_whitespace ](c: char) -> (r: bool)
    ensures
        r == is_white(c),
;

/// `str::to_lowercase` depends on the text alone, and on ASCII text lowers each
/// letter. Commas, colons and white space have no case: they stay, and no letter
/// becomes one or vanishes. What is in lower case stays as it is.
pub assume_specification[ str::to_lowercase ](s: &str) -> (r: String)
    ensures
        is_ascii_chars(s@) ==> r@ == lowered(s@),
        !is_ascii_chars(s@) ==> r@ == unicode_lowercased(s@),
        outline(r@) == outline(s@),
        is_settled(r@),
;

/// `String::from_utf8_lossy` gives the text that valid bytes encode. What it makes of
/// others depends on them alone.
#[verifier::external_body]
pub(crate) fn lossy_text(bytes: &[u8]) -> (r: String)
    ensures
        valid_utf8(bytes@) ==> r@ == decode_utf8(bytes@),
        !valid_utf8(bytes@) ==> r@ == repaired(bytes@),
{
    String::from_utf8_lossy(bytes).into_owned()
}

/// `String::from_utf8` accepts exactly the valid bytes and decodes them.
#[verifier::external_body]
pub(crate) fn utf8_text(bytes: Vec<u8>) -> (r: Option<String>)
    ensures
        r is Some <==> valid_utf8(bytes@),
        r matches Some(s) ==> s@ == decode_utf8(bytes@),
{
    String::from_utf8(bytes).ok()
}

// ---------------------------------------------------------------------------
// Characters and texts
// ---------------------------------------------------------------------------

/// The characters of `s`.
pub fn chars_of(s: &str) -> (r: Vec<char>)
    ensures
        r@ == s@,
{
    let mut out: Vec<char> = Vec::new();
    for c in it: s.chars()
        invariant
            it.seq() == s@,
            out@ == s@.take(it.index()),
    {
        out.push(c);
    }
    out
}

/// Whether two texts have the same characters.
pub fn same_text(a: &str, b: &str) -> (r: bool)
    ensures
        r == (a@ == b@),
{
    let x = chars_of(a);
    let y = chars_of(b);
    if x.len() != y.len() {
        return false;
    }
    let mut i: usize = 0;
    while i < x.len()
        invariant
            x@ == a@,
            y@ == b@,
            i <= x@.len() == y@.len(),
            forall|k: int| 0 <= k < i ==> x@[k] == #[trigger] y@[k],
        decreases x@.len() - i,
    {
        if x[i] != y[i] {
            assert(a@[i as int] != b@[i as int]);
            return false;
        }
        i += 1;
    }
    assert(x@ =~= y@);
    true
}

/// Whether `a` comes before `b` in the order of their characters.
pub fn precedes(a: &str, b: &str) -> (r: bool)
    ensures
        r == text_less(a@, b@),
{
    let x = chars_of(a);
    let y = chars_of(b);
    let mut i: usize = 0;
    assert(x@.skip(0) =~= x@);
    assert(y@.skip(0) =~= y@);
    while i < x.len() && i < y.len() && x[i] == y[i]
        invariant
            i <= x@.len(),
            i <= y@.len(),
            text_less(x@.skip(i as int), y@.skip(i as int)) == text_less(x@, y@),
        decreases x@.len() - i,
    {
        assert(x@.skip(i as int).skip(1) =~= x@.skip(i + 1));
        assert(y@.skip(i as int).skip(1) =~= y@.skip(i + 1));
        i += 1;
    }
    i < y.len() && (i == x.len() || x[i] < y[i])
}

/// The text made of the characters `from..to` of `chars`.
pub fn text_between(chars: &Vec<char>, from: usize, to: usize) -> (r: String)
    requires
        from <= to <= chars@.len(),
    ensures
        r@ == chars@.subrange(from as int, to as int),
{
    let mut out = String::new();
    let mut i: usize = from;
    while i < to
        invariant
            from <= i <= to <= chars@.len(),
            out@ == chars@.subrange(from as int, i as int),
        decreases to - i,
    {
        out.push(chars[i]);
        i += 1;
        assert(chars@.subrange(from as int, i as int) == chars@.subrange(
            from as int,
            i - 1,
        ).push(chars@[i - 1]));
    }
    out
}

/// The text made of the characters of `chars`.
pub fn text_of(chars: &Vec<char>) -> (r: String)
    ensures
        r@ == chars@,
{
    let r = text_between(chars, 0, chars.len());
    assert(chars@.subrange(0, chars@.len() as int) == chars@);
    r
}

/// `n` in decimal, appended to `out`.
fn push_digits(n: u64, out: &mut String)
    ensures
        final(out)@ == old(out)@ + digits(n as nat),
    decreases n,
{
    if n >= 10 {
        push_digits(n / 10, out);
    }
    let d: u8 = (n % 10) as u8;
    out.push((d + 48) as char);
    assert(out@ == old(out)@ + digits(n as nat));
}

/// `n` in decimal.
pub fn decimal_text(n: i64) -> (r: String)
    ensures
        r@ == decimal(n as int),
{
    let mut out = String::new();
    if n < 0 {
        out.push('-');
        let m: i128 = -(n as i128);
        push_digits(m as u64, &mut out);
    } else {
        push_digits(n as u64, &mut out);
    }
    assert(out@ == decimal(n as int));
    out
}

/// A count in decimal.
pub fn count_text(n: usize) -> (r: String)
    ensures
        r@ == decimal(n as int),
{
    let mut out = String::new();
    push_digits(n as u64, &mut out);
    assert(out@ == decimal(n as int));
    out
}

/// Three texts one after the other.
pub fn concat3(a: &str, b: &str, c: &str) -> (r: String)
    ensures
        r@ == a@ + b@ + c@,
{
    let mut out = a.to_owned();
    out.append(b);
    out.append(c);
    out
}

/// The parts of a list one after the other, with `sep` between them.
pub fn join(parts: &Vec<String>, sep: &str) -> (r: String)
    ensures
        r@ == joined(texts(parts@), sep@),
{
    let mut out = String::new();
    let mut i: usize = 0;
    while i < parts.len()
        invariant
            i <= parts@.len(),
            out@ == joined(texts(parts@).take(i as int), sep@),
        decreases parts@.len() - i,
    {
        let ghost before = texts(parts@).take(i as int);
        if i > 0 {
            out.append(sep);
        }
        out.append(parts[i].as_str());
        i += 1;
        assert(texts(parts@).take(i as int).drop_last() == before);
        assert(texts(parts@).take(i as int).last() == parts@[i - 1]@);
    }
    assert(texts(parts@).take(parts@.len() as int) == texts(parts@));
    out
}

/// Whether the characters `from..` of `s` start with `prefix`.
pub fn starts_with(s: &Vec<char>, prefix: &Vec<char>) -> (r: bool)
    ensures
        r == has_prefix(s@, prefix@),
{
    if prefix.len() > s.len() {
        return false;
    }
    let mut i: usize = 0;
    while i < prefix.len()
        invariant
            i <= prefix@.len() <= s@.len(),
            s@.take(i as int) == prefix@.take(i as int),
        decreases prefix@.len() - i,
    {
        if s[i] != prefix[i] {
            assert(s@.take(prefix@.len() as int)[i as int] != prefix@[i as int]);
            return false;
        }
        i += 1;
        assert(s@.take(i as int) == s@.take(i - 1).push(s@[i - 1]));
        assert(prefix@.take(i as int) == prefix@.take(i - 1).push(prefix@[i - 1]));
    }
    assert(prefix@.take(prefix@.len() as int) == prefix@);
    true
}

/// The words of `s`, one space apart.
pub fn collapse(s: &Vec<char>) -> (r: Vec<char>)
    ensures
        r@ == collapsed(s@),
{
    let mut out: Vec<char> = Vec::new();
    let mut i: usize = 0;
    while i < s.len()
        invariant
            i <= s@.len(),
            out@ == collapsed(s@.take(i as int)),
            (out@.len() == 0) == (words(s@.take(i as int)).len() == 0),
            i > 0 && !is_white(s@[i - 1]) ==> words(s@.take(i as int)).len() > 0,
            forall|k: int|
                0 <= k < words(s@.take(i as int)).len() ==> (#[trigger] words(s@.take(i as int))[k]).len() > 0,
        decreases s@.len() - i,
    {
        let ghost before = words(s@.take(i as int));
        let c = s[i];
        let white = c.is_whitespace();
        let first = i == 0 || s[i - 1].is_whitespace();
        if !white {
            if first && out.len() > 0 {
                out.push(' ');
            }
            out.push(c);
        }
        i += 1;
        proof {
            let t = s@.take(i as int);
            assert(t.drop_last() == s@.take(i - 1));
            let after = words(t);
            if white {
                assert(after == before);
            } else if first {
                assert(after == before.push(seq![c]));
                assert(after.drop_last() == before);
                assert(out@ == joined(after, seq![' ']));
            } else {
                assert(t[t.len() - 2] == s@[i - 2]);
                assert(after == before.drop_last().push(before.last().push(c)));
                assert(after.drop_last() == before.drop_last());
                assert(out@ == joined(after, seq![' ']));
            }
        }
    }
    assert(s@.take(s@.len() as int) == s@);
    out
}

/// `s` without its pairs of colons.
pub fn drop_colon_pairs(s: &Vec<char>) -> (r: Vec<char>)
    ensures
        r@ == without_colon_pairs(s@),
{
    let mut out: Vec<char> = Vec::new();
    let mut i: usize = 0;
    assert(s@.skip(0) == s@);
    while i < s.len()
        invariant
            i <= s@.len(),
            out@ + without_colon_pairs(s@.skip(i as int)) == without_colon_pairs(s@),
        decreases s@.len() - i,
    {
        let ghost rest = s@.skip(i as int);
        if s.len() - i >= 2 && s[i] == ':' && s[i + 1] == ':' {
            i += 2;
            assert(rest.skip(2) == s@.skip(i as int));
        } else {
            let ghost before = out@;
            out.push(s[i]);
            i += 1;
            assert(rest.skip(1) == s@.skip(i as int));
            assert(before + (seq![rest[0]] + without_colon_pairs(rest.skip(1))) == out@
                + without_colon_pairs(s@.skip(i as int)));
        }
    }
    assert(s@.skip(i as int) == Seq::<char>::empty());
    assert(out@ + Seq::<char>::empty() == out@);
    out
}

/// The pieces of `s` between the separators `sep`.
pub fn split(s: &Vec<char>, sep: char) -> (r: Vec<Vec<char>>)
    ensures
        r@.len() == pieces(s@, sep).len(),
        forall|k: int| 0 <= k < r@.len() ==> (#[trigger] r@[k])@ == pieces(s@, sep)[k],
{
    let mut out: Vec<Vec<char>> = Vec::new();
    let mut cur: Vec<char> = Vec::new();
    let mut i: usize = 0;
    assert(s@.take(0) == Seq::<char>::empty());
    while i < s.len()
        invariant
            i <= s@.len(),
            pieces(s@.take(i as int), sep).len() == out@.len() + 1,
            pieces(s@.take(i as int), sep).last() == cur@,
            forall|k: int|
                0 <= k < out@.len() ==> (#[trigger] out@[k])@ == pieces(s@.take(i as int), sep)[k],
        decreases s@.len() - i,
    {
        let ghost before = pieces(s@.take(i as int), sep);
        let c = s[i];
        i += 1;
        assert(s@.take(i as int).drop_last() == s@.take(i - 1));
        if c == sep {
            let mut fresh: Vec<char> = Vec::new();
            std::mem::swap(&mut cur, &mut fresh);
            out.push(fresh);
        } else {
            cur.push(c);
        }
    }
    assert(s@.take(s@.len() as int) == s@);
    out.push(cur);
    out
}

/// `s` without the white space at its ends.
pub fn trim(s: &Vec<char>) -> (r: Vec<char>)
    ensures
        r@ == trimmed(s@),
{
    let mut from: usize = 0;
    assert(s@.skip(0) == s@);
    while from < s.len() && s[from].is_whitespace()
        invariant
            from <= s@.len(),
            trimmed_start(s@.skip(from as int)) == trimmed_start(s@),
        decreases s@.len() - from,
    {
        from += 1;
        assert(s@.skip(from - 1).skip(1) == s@.skip(from as int));
    }
    let ghost left = s@.skip(from as int);
    assert(trimmed_start(s@) == left);
    let mut to: usize = s.len();
    assert(s@.subrange(from as int, to as int) == left);
    while to > from && s[to - 1].is_whitespace()
        invariant
            from <= to <= s@.len(),
            trimmed_end(s@.subrange(from as int, to as int)) == trimmed_end(left),
        decreases to,
    {
        to -= 1;
        assert(s@.subrange(from as int, to + 1).drop_last() == s@.subrange(from as int, to as int));
    }
    let mut out: Vec<char> = Vec::new();
    let mut i: usize = from;
    while i < to
        invariant
            from <= i <= to <= s@.len(),
            out@ == s@.subrange(from as int, i as int),
        decreases to - i,
    {
        out.push(s[i]);
        i += 1;
        assert(s@.subrange(from as int, i as int) == s@.subrange(from as int, i - 1).push(s@[i - 1]));
    }
    out
}

// ---------------------------------------------------------------------------
// What the parts of a text are made of
// ---------------------------------------------------------------------------

/// Whether every character of a text is of a kind.
pub open spec fn made_of(s: Seq<char>, kind: spec_fn(char) -> bool) -> bool {
    forall|i: int| 0 <= i < s.len() ==> kind(#[trigger] s[i])
}

/// The ASCII characters.
pub open spec fn ascii_kind() -> spec_fn(char) -> bool {
    |c: char| '\0' <= c <= '\u{7f}'
}

/// Whether two colons stand side by side.
pub open spec fn has_colon_pair(s: Seq<char>) -> bool {
    exists|i: int| 0 <= i < s.len() - 1 && #[trigger] s[i] == ':' && s[i + 1] == ':'
}

/// Whether `p` is a part of `s` without gaps.
pub open spec fn is_part(p: Seq<char>, s: Seq<char>) -> bool {
    exists|a: int, b: int| 0 <= a <= b <= s.len() && p == #[trigger] s.subrange(a, b)
}

/// A part is made of what the whole is made of, and has no pair of colons where the
/// whole has none.
pub proof fn lemma_part(p: Seq<char>, s: Seq<char>, kind: spec_fn(char) -> bool)
    requires
        is_part(p, s),
    ensures
        made_of(s, kind) ==> made_of(p, kind),
        !has_colon_pair(s) ==> !has_colon_pair(p),
{
    let (a, b) = choose|a: int, b: int|
        0 <= a <= b <= s.len() && p == #[trigger] s.subrange(a, b);
    if made_of(s, kind) {
        assert forall|i: int| 0 <= i < p.len() implies kind(#[trigger] p[i]) by {
            assert(p[i] == s[a + i]);
        }
    }
    if has_colon_pair(p) {
        let i = choose|i: int| 0 <= i < p.len() - 1 && #[trigger] p[i] == ':' && p[i + 1] == ':';
        assert(p[i] == s[a + i]);
        assert(p[i + 1] == s[a + i + 1]);
    }
}

/// Taking out the pairs of colons leaves none, and adds no character.
pub proof fn lemma_without_colon_pairs(s: Seq<char>, kind: spec_fn(char) -> bool)
    ensures
        !has_colon_pair(without_colon_pairs(s)),
        made_of(s, kind) ==> made_of(without_colon_pairs(s), kind),
        s.len() > 0 && s[0] != ':' ==> without_colon_pairs(s).len() > 0 && without_colon_pairs(s)[0]
            == s[0],
    decreases s.len(),
{
    let r = without_colon_pairs(s);
    if s.len() == 0 {
    } else if s.len() >= 2 && s[0] == ':' && s[1] == ':' {
        lemma_without_colon_pairs(s.skip(2), kind);
        if made_of(s, kind) {
            assert forall|i: int| 0 <= i < s.skip(2).len() implies kind(#[trigger] s.skip(2)[i]) by {
                assert(s.skip(2)[i] == s[i + 2]);
            }
        }
    } else {
        let rest = s.skip(1);
        lemma_without_colon_pairs(rest, kind);
        let t = without_colon_pairs(rest);
        assert(r == seq![s[0]] + t);
        if made_of(s, kind) {
            assert forall|i: int| 0 <= i < rest.len() implies kind(#[trigger] rest[i]) by {
                assert(rest[i] == s[i + 1]);
            }
            assert forall|i: int| 0 <= i < r.len() implies kind(#[trigger] r[i]) by {
                if i == 0 {
                    assert(r[0] == s[0]);
                } else {
                    assert(r[i] == t[i - 1]);
                }
            }
        }
        if has_colon_pair(r) {
            let i = choose|i: int| 0 <= i < r.len() - 1 && #[trigger] r[i] == ':' && r[i + 1] == ':';
            if i == 0 {
                assert(r[1] == t[0]);
                assert(rest.len() > 0);
                assert(rest[0] == s[1]);
            } else {
                assert(t[i - 1] == ':' && t[i] == ':');
            }
        }
    }
}

/// The pieces of a text are parts of it and hold no separator.
pub proof fn lemma_pieces(s: Seq<char>, sep: char)
    ensures
        pieces(s, sep).len() > 0,
        forall|k: int|
            0 <= k < pieces(s, sep).len() ==> is_part(#[trigger] pieces(s, sep)[k], s)
                && !pieces(s, sep)[k].contains(sep),
        pieces(s, sep).last().len() <= s.len(),
        pieces(s, sep).last() == s.subrange(s.len() - pieces(s, sep).last().len(), s.len() as int),
    decreases s.len(),
{
    let now = pieces(s, sep);
    if s.len() == 0 {
        assert(now[0] =~= s.subrange(0, 0));
        assert(is_part(now[0], s));
    } else {
        let rest = s.drop_last();
        lemma_pieces(rest, sep);
        let before = pieces(rest, sep);
        let tail = before.last();
        assert(now.last() =~= s.subrange(s.len() - now.last().len(), s.len() as int));
        assert forall|k: int| 0 <= k < now.len() implies is_part(#[trigger] now[k], s)
            && !now[k].contains(sep) by {
            if k == now.len() - 1 {
                assert(now[k] == s.subrange(s.len() - now.last().len(), s.len() as int));
                if s.last() != sep && now[k].contains(sep) {
                    let i = choose|i: int| 0 <= i < now[k].len() && now[k][i] == sep;
                    assert(tail[i] == sep);
                    assert(before[before.len() - 1].contains(sep));
                }
            } else {
                assert(now[k] == before[k]);
                let (a, b) = choose|a: int, b: int|
                    0 <= a <= b <= rest.len() && before[k] == #[trigger] rest.subrange(a, b);
                assert(rest.subrange(a, b) =~= s.subrange(a, b));
            }
        }
    }
}

/// How a text without stray white space grows with the text.
pub proof fn lemma_collapsed_step(s: Seq<char>)
    requires
        s.len() > 0,
    ensures
        ({
            let before = collapsed(s.drop_last());
            let c = s.last();
            collapsed(s) == if is_white(c) {
                before
            } else if s.len() == 1 || is_white(s[s.len() - 2]) {
                if before.len() == 0 {
                    seq![c]
                } else {
                    before.push(' ').push(c)
                }
            } else {
                before.push(c)
            }
        }),
        !is_white(s.last()) ==> collapsed(s).len() > 0 && collapsed(s).last() == s.last(),
        (collapsed(s).len() == 0) == (words(s).len() == 0),
        forall|k: int| 0 <= k < words(s).len() ==> (#[trigger] words(s)[k]).len() > 0,
    decreases s.len(),
{
    let rest = s.drop_last();
    let w = words(rest);
    let c = s.last();
    let now = words(s);
    if rest.len() > 0 {
        lemma_collapsed_step(rest);
    }
    if is_white(c) {
    } else if s.len() == 1 || is_white(s[s.len() - 2]) {
        assert(now == w.push(seq![c]));
        assert(now.drop_last() =~= w);
        assert(collapsed(s) =~= if w.len() == 0 {
            seq![c]
        } else {
            collapsed(rest).push(' ').push(c)
        });
    } else {
        assert(rest.last() == s[s.len() - 2]);
        assert(w.len() > 0);
        assert(now == w.drop_last().push(w.last().push(c)));
        assert(now.drop_last() =~= w.drop_last());
        assert(collapsed(s) =~= collapsed(rest).push(c));
    }
}

/// A text without stray white space is made of spaces and of what the text is made
/// of, and has no pair of colons where the text has none.
pub proof fn lemma_collapsed(s: Seq<char>, kind: spec_fn(char) -> bool)
    ensures
        kind(' ') && made_of(s, kind) ==> made_of(collapsed(s), kind),
        !has_colon_pair(s) ==> !has_colon_pair(collapsed(s)),
    decreases s.len(),
{
    if s.len() > 0 {
        let rest = s.drop_last();
        let before = collapsed(rest);
        let now = collapsed(s);
        let c = s.last();
        assert(is_part(rest, s)) by {
            assert(rest =~= s.subrange(0, s.len() - 1));
        }
        lemma_part(rest, s, kind);
        lemma_collapsed(rest, kind);
        lemma_collapsed_step(s);
        if kind(' ') && made_of(s, kind) {
            assert(kind(s[s.len() - 1]));
            assert forall|i: int| 0 <= i < now.len() implies kind(#[trigger] now[i]) by {
                if i < before.len() {
                    assert(now[i] == before[i]);
                }
            }
        }
        if !has_colon_pair(s) && has_colon_pair(now) {
            let i = choose|i: int|
                0 <= i < now.len() - 1 && #[trigger] now[i] == ':' && now[i + 1] == ':';
            if i + 1 < before.len() {
                assert(before[i] == ':' && before[i + 1] == ':');
            } else {
                assert(s.len() > 1);
                lemma_collapsed_step(rest);
                assert(s[s.len() - 2] == ':' && s[s.len() - 2 + 1] == ':');
            }
        }
    } else {
        assert(words(s) =~= Seq::<Seq<char>>::empty());
    }
}

/// A trimmed text is a part of the text.
pub proof fn lemma_trimmed(s: Seq<char>)
    ensures
        is_part(trimmed(s), s),
    decreases s.len(),
{
    if s.len() > 0 && is_white(s[0]) {
        lemma_trimmed(s.skip(1));
        let rest = s.skip(1);
        let (a, b) = choose|a: int, b: int|
            0 <= a <= b <= rest.len() && trimmed(rest) == #[trigger] rest.subrange(a, b);
        assert(rest.subrange(a, b) =~= s.subrange(a + 1, b + 1));
    } else {
        lemma_trimmed_end(s);
    }
}

proof fn lemma_trimmed_end(s: Seq<char>)
    ensures
        is_part(trimmed_end(s), s),
    decreases s.len(),
{
    if s.len() > 0 && is_white(s.last()) {
        let rest = s.drop_last();
        lemma_trimmed_end(rest);
        let (a, b) = choose|a: int, b: int|
            0 <= a <= b <= rest.len() && trimmed_end(rest) == #[trigger] rest.subrange(a, b);
        assert(rest.subrange(a, b) =~= s.subrange(a, b));
    } else {
        assert(s =~= s.subrange(0, s.len() as int));
    }
}

} // verus!
