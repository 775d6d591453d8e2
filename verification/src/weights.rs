//! The weights of groups in prompts: `0.5::tag a, tag b::`.

use crate::text::{chars_of, has_colon_pair, is_white};
use vstd::prelude::*;

verus! {

// ---------------------------------------------------------------------------
// Where a weight stands
// ---------------------------------------------------------------------------

/// Whether `\d` of the `regex` crate matches a character beyond ASCII: the decimal
/// digits of other scripts.
pub uninterp spec fn unicode_digit(c: char) -> bool;

/// Whether a character is a decimal digit. None is white space.
pub open spec fn is_digit(c: char) -> bool {
    if c <= '\u{7f}' {
        '0' <= c <= '9'
    } else {
        unicode_digit(c) && !is_white(c)
    }
}

/// How many decimal digits a text starts with.
pub open spec fn digit_run(s: Seq<char>) -> nat
    decreases s.len(),
{
    if s.len() > 0 && is_digit(s[0]) {
        1 + digit_run(s.skip(1))
    } else {
        0
    }
}

/// How long the number is that a text starts with: digits, and a dot with digits
/// after it where there are some.
pub open spec fn number_len(s: Seq<char>) -> nat {
    let whole = digit_run(s);
    let part = digit_run(s.skip(whole as int + 1));
    if whole > 0 && whole < s.len() && s[whole as int] == '.' && part > 0 {
        whole + 1 + part
    } else {
        whole
    }
}

/// Whether a text starts with a number and two colons.
pub open spec fn starts_group(s: Seq<char>) -> bool {
    let n = number_len(s) as int;
    n > 0 && n + 2 <= s.len() && s[n] == ':' && s[n + 1] == ':'
}

/// Whether a token opens at the character `i`: only white space stands between it
/// and the start of the text, a comma or a pair of colons.
pub open spec fn opens_token(s: Seq<char>, i: int) -> bool
    decreases i,
{
    ||| i <= 0
    ||| s[i - 1] == ','
    ||| i >= 2 && s[i - 1] == ':' && s[i - 2] == ':'
    ||| is_white(s[i - 1]) && opens_token(s, i - 1)
}

/// Whether a weight stands at the character `i`: a number and two colons. Inside a
/// group it has to open a token; otherwise the colons close the group, and the number
/// is that of a tag, as in `1::year 2025::`.
pub open spec fn is_weight_at(s: Seq<char>, i: int, open: bool) -> bool {
    starts_group(s.skip(i)) && (!open || opens_token(s, i))
}

/// Whether a pair of colons stands at the character `i`.
pub open spec fn is_pair_at(s: Seq<char>, i: int) -> bool {
    i + 1 < s.len() && s[i] == ':' && s[i + 1] == ':'
}

/// The characters from `i` on that belong to no weight. A weight opens a group, and
/// a pair of colons without one closes it.
pub open spec fn kept_from(s: Seq<char>, i: int, open: bool) -> Seq<char>
    decreases s.len() - i,
{
    if i < 0 || i >= s.len() {
        Seq::empty()
    } else if is_weight_at(s, i, open) {
        kept_from(s, i + number_len(s.skip(i)) + 2, true)
    } else {
        seq![s[i]] + kept_from(s, i + 1, open && !is_pair_at(s, i))
    }
}

/// A text without the weights of its groups.
pub open spec fn without_weights(s: Seq<char>) -> Seq<char> {
    kept_from(s, 0, false)
}

// ---------------------------------------------------------------------------
// regex
// ---------------------------------------------------------------------------

/// A number and two colons.
pub const WEIGHT_PATTERN: &'static str = r"\d+(?:\.\d+)?::";

/// A compiled pattern, carried from one of the functions below to the other.
#[verifier::external_type_specification]
#[verifier::external_body]
pub struct ExRegex(regex::Regex);

/// What `regex::Regex::new` makes of a pattern, if it accepts it.
pub uninterp spec fn compiled(pattern: Seq<char>) -> Option<regex::Regex>;

/// `regex::Regex::new`. The result depends on the pattern alone; the pattern of the
/// weights is accepted.
#[verifier::external_body]
fn compile(pattern: &str) -> (r: Option<regex::Regex>)
    ensures
        r == compiled(pattern@),
        pattern@ == WEIGHT_PATTERN@ ==> r is Some,
{
    regex::Regex::new(pattern).ok()
}

/// Where the first number with two colons behind it starts; the end of the text where
/// there is none.
pub open spec fn first_group(s: Seq<char>) -> int
    decreases s.len(),
{
    if s.len() == 0 || starts_group(s) {
        0
    } else {
        1 + first_group(s.skip(1))
    }
}

/// `regex::Regex::find`, with the pattern of the weights: what stands before the first
/// match, the match, and what follows it. The match is the first number with two
/// colons behind it; beyond ASCII a digit is what `\d` matches, and no white space.
#[verifier::external_body]
fn find_group(re: &regex::Regex, text: &str) -> (r: Option<(String, String, String)>)
    requires
        compiled(WEIGHT_PATTERN@) == Some(*re),
    ensures
        r is Some <==> first_group(text@) < text@.len(),
        r matches Some(m) ==> {
            let start = first_group(text@);
            let end = start + number_len(text@.skip(start)) + 2;
            &&& m.0@ == text@.take(start)
            &&& m.1@ == text@.subrange(start, end)
            &&& m.2@ == text@.skip(end)
            &&& m.1@[0] > '\u{7f}' ==> unicode_digit(m.1@[0])
        },
{
    re.find(text).map(
        |m|
            (
                text[..m.start()].to_owned(),
                m.as_str().to_owned(),
                text[m.end()..].to_owned(),
            ),
    )
}

// ---------------------------------------------------------------------------
// Taking weights out
// ---------------------------------------------------------------------------

/// Whether a token opens at the character `i`.
fn opens_at(s: &Vec<char>, i: usize) -> (r: bool)
    requires
        i <= s@.len(),
    ensures
        r == opens_token(s@, i as int),
{
    let mut k: usize = i;
    while k > 0 && s[k - 1] != ',' && !(k >= 2 && s[k - 1] == ':' && s[k - 2] == ':')
        && s[k - 1].is_whitespace()
        invariant
            k <= i <= s@.len(),
            opens_token(s@, k as int) == opens_token(s@, i as int),
        decreases k,
    {
        k -= 1;
    }
    k == 0 || s[k - 1] == ',' || (k >= 2 && s[k - 1] == ':' && s[k - 2] == ':')
}

/// Whether two colons stand side by side.
fn contains_pair(text: &str) -> (r: bool)
    ensures
        r == has_colon_pair(text@),
{
    let s = chars_of(text);
    let mut i: usize = 0;
    while s.len() - i > 1
        invariant
            s@ == text@,
            i <= s@.len(),
            forall|k: int| 0 <= k < i && k + 1 < s@.len() ==> !(#[trigger] s@[k] == ':' && s@[k + 1] == ':'),
        decreases s@.len() - i,
    {
        if s[i] == ':' && s[i + 1] == ':' {
            assert(text@[i as int] == ':' && text@[i + 1] == ':');
            return true;
        }
        i += 1;
    }
    false
}

/// Takes the weights of groups out of a text.
pub fn strip_weights(text: &str) -> (r: String)
    ensures
        r@ == without_weights(text@),
{
    let all = chars_of(text);
    let total: usize = all.len();
    let ghost s = text@;
    let re = match compile(WEIGHT_PATTERN) {
        Some(re) => re,
        None => {
            return text.to_owned();
        },
    };
    let mut out = String::new();
    let mut rest = text.to_owned();
    let mut at: usize = 0;
    let mut open = false;
    assert(s.skip(0) =~= s);
    assert(out@ + kept_from(s, 0, false) =~= without_weights(s));
    loop
        invariant_except_break
            all@ == s,
            total == s.len(),
            compiled(WEIGHT_PATTERN@) == Some(re),
            at <= s.len(),
            rest@ == s.skip(at as int),
            out@ + kept_from(s, at as int, open) == without_weights(s),
        ensures
            out@ == without_weights(s),
        decreases s.len() - at,
    {
        match find_group(&re, rest.as_str()) {
            None => {
                proof {
                    lemma_first_group(s, at as int);
                    lemma_kept_to(s, at as int, s.len() as int, open);
                    assert(s.subrange(at as int, s.len() as int) =~= s.skip(at as int));
                    assert(s.skip(at as int) + Seq::<char>::empty() =~= s.skip(at as int));
                }
                out.append(rest.as_str());
                break;
            },
            Some((before, found, after)) => {
                let ghost start = at + first_group(rest@);
                let ghost n = number_len(s.skip(start)) as int;
                proof {
                    lemma_first_group(s, at as int);
                    assert(rest@.skip(first_group(rest@)) =~= s.skip(start));
                    assert(before@ =~= s.subrange(at as int, start));
                    assert(found@ =~= s.subrange(start, start + n + 2));
                    assert(after@ =~= s.skip(start + n + 2));
                    lemma_kept_to(s, at as int, start, open);
                }
                let k: usize = at + chars_of(before.as_str()).len();
                let inside = open && !contains_pair(before.as_str());
                let ghost done = out@;
                out.append(before.as_str());
                assert(done + (before@ + kept_from(s, start, inside)) =~= out@ + kept_from(
                    s,
                    start,
                    inside,
                ));
                let length: usize = chars_of(found.as_str()).len();
                if inside && !opens_at(&all, k) {
                    let ghost done = out@;
                    out.append(found.as_str());
                    proof {
                        lemma_kept_number(s, start);
                        assert(done + (found@ + kept_from(s, start + n + 2, false)) =~= out@
                            + kept_from(s, start + n + 2, false));
                    }
                    open = false;
                } else {
                    open = true;
                }
                at = k + length;
                rest = after;
            },
        }
    }
    out
}

/// The first number with two colons behind it, seen from inside a text.
proof fn lemma_first_group(s: Seq<char>, i: int)
    requires
        0 <= i <= s.len(),
    ensures
        0 <= first_group(s.skip(i)) <= s.len() - i,
        forall|j: int|
            i <= j < i + first_group(s.skip(i)) ==> !starts_group(#[trigger] s.skip(j)),
        i + first_group(s.skip(i)) < s.len() ==> starts_group(s.skip(i + first_group(s.skip(i)))),
    decreases s.len() - i,
{
    let rest = s.skip(i);
    if rest.len() > 0 && !starts_group(rest) {
        assert(rest.skip(1) =~= s.skip(i + 1));
        lemma_first_group(s, i + 1);
    }
}

/// What is kept up to the next number with two colons behind it: everything.
proof fn lemma_kept_to(s: Seq<char>, i: int, k: int, open: bool)
    requires
        0 <= i <= k <= s.len(),
        forall|j: int| i <= j < k ==> !starts_group(#[trigger] s.skip(j)),
        k < s.len() ==> s[k] != ':',
    ensures
        kept_from(s, i, open) == s.subrange(i, k) + kept_from(
            s,
            k,
            open && !has_colon_pair(s.subrange(i, k)),
        ),
    decreases k - i,
{
    let part = s.subrange(i, k);
    if i == k {
        assert(part =~= Seq::<char>::empty());
        assert(part + kept_from(s, k, open) =~= kept_from(s, k, open));
    } else {
        let next = open && !is_pair_at(s, i);
        lemma_kept_to(s, i + 1, k, next);
        let rest = s.subrange(i + 1, k);
        assert(!starts_group(s.skip(i)));
        assert(has_colon_pair(part) == (is_pair_at(s, i) || has_colon_pair(rest))) by {
            if is_pair_at(s, i) {
                assert(i + 1 < k);
                assert(part[0] == ':' && part[0int + 1] == ':');
            }
            if has_colon_pair(rest) {
                let j = choose|j: int|
                    0 <= j < rest.len() - 1 && #[trigger] rest[j] == ':' && rest[j + 1] == ':';
                assert(part[j + 1] == ':' && part[j + 1 + 1] == ':');
            }
            if has_colon_pair(part) {
                let j = choose|j: int|
                    0 <= j < part.len() - 1 && #[trigger] part[j] == ':' && part[j + 1] == ':';
                if j > 0 {
                    assert(rest[j - 1] == ':' && rest[j - 1 + 1] == ':');
                }
            }
        }
        assert(seq![s[i]] + (rest + kept_from(s, k, open && !has_colon_pair(part))) =~= part
            + kept_from(s, k, open && !has_colon_pair(part)));
    }
}

/// The characters of a number are digits and a dot.
pub proof fn lemma_number_chars(s: Seq<char>)
    ensures
        number_len(s) <= s.len(),
        forall|j: int| 0 <= j < number_len(s) ==> is_digit(#[trigger] s[j]) || s[j] == '.',
        number_len(s) > 0 ==> is_digit(s[0]) && is_digit(s[number_len(s) - 1]),
{
    lemma_digit_run(s);
    let whole = digit_run(s) as int;
    if whole < s.len() {
        let rest = s.skip(whole + 1);
        lemma_digit_run(rest);
        assert forall|j: int| 0 <= j < number_len(s) implies is_digit(#[trigger] s[j]) || s[j] == '.' by {
            if j > whole {
                assert(rest[j - whole - 1] == s[j]);
            }
        }
        let part = digit_run(rest) as int;
        if part > 0 {
            assert(rest[part - 1] == s[whole + part]);
        }
    }
}

proof fn lemma_digit_run(s: Seq<char>)
    ensures
        digit_run(s) <= s.len(),
        forall|j: int| 0 <= j < digit_run(s) ==> is_digit(#[trigger] s[j]),
    decreases s.len(),
{
    if s.len() > 0 && is_digit(s[0]) {
        lemma_digit_run(s.skip(1));
        assert forall|j: int| 0 <= j < digit_run(s) implies is_digit(#[trigger] s[j]) by {
            if j > 0 {
                assert(s.skip(1)[j - 1] == s[j]);
            }
        }
    }
}

/// Inside a group, a number that opens no token stays, and the colons behind it close
/// the group.
proof fn lemma_kept_number(s: Seq<char>, k: int)
    requires
        0 <= k < s.len(),
        starts_group(s.skip(k)),
        !opens_token(s, k),
    ensures
        kept_from(s, k, true) == s.subrange(k, k + number_len(s.skip(k)) + 2) + kept_from(
            s,
            k + number_len(s.skip(k)) + 2,
            false,
        ),
{
    let rest = s.skip(k);
    let n = number_len(rest) as int;
    lemma_number_chars(rest);
    assert forall|j: int| k <= j < k + n implies is_digit(#[trigger] s[j]) || s[j] == '.' by {
        assert(rest[j - k] == s[j]);
    }
    assert(rest[n] == s[k + n] && rest[n + 1] == s[k + n + 1]);
    lemma_kept_digits(s, k, k + n);
    let colons = k + n;
    let end = k + n + 2;
    lemma_no_number(s, colons);
    lemma_no_number(s, colons + 1);
    assert(kept_from(s, colons + 1, false) =~= seq![':'] + kept_from(s, end, false));
    assert(kept_from(s, colons, true) =~= seq![':'] + kept_from(s, colons + 1, false));
    assert(s.subrange(k, end) =~= s.subrange(k, colons) + seq![':', ':']);
    assert(s.subrange(k, colons) + (seq![':'] + (seq![':'] + kept_from(s, end, false))) =~= s.subrange(
        k,
        end,
    ) + kept_from(s, end, false));
}

proof fn lemma_no_number(s: Seq<char>, i: int)
    requires
        0 <= i < s.len(),
        s[i] == ':',
    ensures
        !starts_group(s.skip(i)),
{
    assert(s.skip(i)[0] == ':');
    assert(digit_run(s.skip(i)) == 0);
}

proof fn lemma_kept_digits(s: Seq<char>, i: int, end: int)
    requires
        0 <= i <= end < s.len(),
        i < end ==> !opens_token(s, i),
        forall|j: int| i <= j < end ==> is_digit(#[trigger] s[j]) || s[j] == '.',
        s[end] == ':',
    ensures
        kept_from(s, i, true) == s.subrange(i, end) + kept_from(s, end, true),
    decreases end - i,
{
    if i == end {
        assert(s.subrange(i, end) =~= Seq::<char>::empty());
        assert(s.subrange(i, end) + kept_from(s, end, true) =~= kept_from(s, end, true));
    } else {
        assert(is_digit(s[i]) || s[i] == '.');
        assert(!opens_token(s, i + 1));
        lemma_kept_digits(s, i + 1, end);
        assert(seq![s[i]] + (s.subrange(i + 1, end) + kept_from(s, end, true)) =~= s.subrange(
            i,
            end,
        ) + kept_from(s, end, true));
    }
}

} // verus!
