//! Which image a request for a picture is about.

use crate::text::{chars_of, decimal, digits, text_between};
use vstd::prelude::*;

verus! {

/// The value of decimal digits.
pub open spec fn digits_value(s: Seq<char>) -> nat
    decreases s.len(),
{
    if s.len() == 0 {
        0
    } else {
        digits_value(s.drop_last()) * 10 + (s.last() as nat - '0' as nat) as nat
    }
}

/// Whether a text is made of decimal digits, one at least.
pub open spec fn all_digits(s: Seq<char>) -> bool {
    s.len() > 0 && forall|i: int| 0 <= i < s.len() ==> '0' <= #[trigger] s[i] <= '9'
}

/// The integer that a text denotes: digits, with a sign in front or not.
pub open spec fn integer_in(s: Seq<char>) -> Option<int> {
    if s.len() > 0 && s[0] == '-' && all_digits(s.skip(1)) {
        Some(-(digits_value(s.skip(1)) as int))
    } else if s.len() > 0 && s[0] == '+' && all_digits(s.skip(1)) {
        Some(digits_value(s.skip(1)) as int)
    } else if all_digits(s) {
        Some(digits_value(s) as int)
    } else {
        None
    }
}

/// The integer that a text denotes, where an `i64` holds it.
pub open spec fn small_integer_in(s: Seq<char>) -> Option<i64> {
    match integer_in(s) {
        Some(n) => if i64::MIN <= n <= i64::MAX {
            Some(n as i64)
        } else {
            None
        },
        None => None,
    }
}

/// `str::parse` for `i64` takes digits with a sign in front or not, and nothing
/// else, where the type holds the number.
#[verifier::external_body]
fn parse_integer(s: &str) -> (r: Option<i64>)
    ensures
        r == small_integer_in(s@),
{
    s.parse().ok()
}

/// `s` without the slashes at its front.
pub open spec fn without_slashes(s: Seq<char>) -> Seq<char>
    decreases s.len(),
{
    if s.len() > 0 && s[0] == '/' {
        without_slashes(s.skip(1))
    } else {
        s
    }
}

/// Whether a text ends in `.jpg`.
pub open spec fn ends_in_jpg(s: Seq<char>) -> bool {
    let n = s.len();
    n >= 4 && s[n - 4] == '.' && s[n - 3] == 'j' && s[n - 2] == 'p' && s[n - 1] == 'g'
}

/// `s` without the endings `.jpg`.
pub open spec fn without_jpg(s: Seq<char>) -> Seq<char>
    decreases s.len(),
{
    if ends_in_jpg(s) {
        without_jpg(s.take(s.len() - 4))
    } else {
        s
    }
}

/// Where the text after the leading slashes starts.
fn after_slashes(c: &Vec<char>) -> (r: usize)
    ensures
        r <= c@.len(),
        c@.skip(r as int) == without_slashes(c@),
{
    let mut i: usize = 0;
    assert(c@.skip(0) =~= c@);
    while i < c.len() && c[i] == '/'
        invariant
            i <= c@.len(),
            without_slashes(c@.skip(i as int)) == without_slashes(c@),
        decreases c@.len() - i,
    {
        assert(c@.skip(i as int).skip(1) =~= c@.skip(i + 1));
        i += 1;
    }
    i
}

/// The number of the image whose thumbnail is asked for: the path of the request
/// without leading slashes and the ending.
pub fn thumb_id(path: &str) -> (r: Option<i64>)
    ensures
        r == small_integer_in(without_jpg(without_slashes(path@))),
{
    let c = chars_of(path);
    let from = after_slashes(&c);
    let ghost rest = c@.skip(from as int);
    let mut to: usize = c.len();
    assert(rest.take(rest.len() as int) =~= rest);
    while to - from >= 4 && c[to - 4] == '.' && c[to - 3] == 'j' && c[to - 2] == 'p' && c[to - 1]
        == 'g'
        invariant
            from <= to <= c@.len(),
            rest == c@.skip(from as int),
            without_jpg(rest.take(to - from)) == without_jpg(rest),
        decreases to,
    {
        assert(rest.take(to - from).take(to - from - 4) =~= rest.take(to - from - 4));
        to -= 4;
    }
    let s = text_between(&c, from, to);
    assert(s@ =~= rest.take(to - from));
    parse_integer(s.as_str())
}

/// The number of the image whose file is asked for: the path of the request
/// without leading slashes.
pub fn image_id(path: &str) -> (r: Option<i64>)
    ensures
        r == small_integer_in(without_slashes(path@)),
{
    let c = chars_of(path);
    let from = after_slashes(&c);
    let s = text_between(&c, from, c.len());
    assert(s@ =~= c@.skip(from as int));
    parse_integer(s.as_str())
}

/// The decimal digits of a number denote it.
proof fn lemma_digits(n: nat)
    ensures
        all_digits(digits(n)),
        digits_value(digits(n)) == n,
    decreases n,
{
    if n < 10 {
        reveal_with_fuel(digits_value, 2);
        assert(digits(n).drop_last() =~= Seq::<char>::empty());
    } else {
        lemma_digits(n / 10);
        let front = digits(n / 10);
        assert(digits(n).drop_last() =~= front);
        assert forall|i: int| 0 <= i < digits(n).len() implies '0' <= #[trigger] digits(n)[i] <= '9' by {
            if i < front.len() {
                assert(digits(n)[i] == front[i]);
            }
        }
    }
}

/// The name under which a thumbnail is kept, as the path of a request, leads back
/// to the image.
pub proof fn law_thumb_names_lead_back(id: i64)
    ensures
        small_integer_in(
            without_jpg(without_slashes(seq!['/'] + (decimal(id as int) + ".jpg"@))),
        ) == Some(id),
{
    reveal_strlit(".jpg");
    let text = decimal(id as int);
    let n: nat = if id < 0 {
        (-(id as int)) as nat
    } else {
        id as nat
    };
    lemma_digits(n);
    let name = text + ".jpg"@;
    let path = seq!['/'] + name;
    assert(path.skip(1) =~= name);
    assert('0' <= digits(n)[0] <= '9');
    assert(name[0] == text[0]);
    assert(without_slashes(path) == name) by {
        reveal_with_fuel(without_slashes, 2);
    }
    assert(name.take(name.len() - 4) =~= text);
    assert('0' <= digits(n)[digits(n).len() - 1] <= '9');
    assert(text.last() == digits(n).last());
    assert(without_jpg(name) == text) by {
        reveal_with_fuel(without_jpg, 2);
    }
    if id < 0 {
        assert(text.skip(1) =~= digits(n));
    }
}

/// `n` slashes.
pub open spec fn slashes(n: nat) -> Seq<char> {
    Seq::new(n, |i: int| '/')
}

/// Slashes at the front do not count, however many there are.
pub proof fn law_leading_slashes_do_not_count(n: nat, rest: Seq<char>)
    requires
        rest.len() > 0 ==> rest[0] != '/',
    ensures
        without_slashes(slashes(n) + rest) == rest,
    decreases n,
{
    let all = slashes(n) + rest;
    if n == 0 {
        assert(all =~= rest);
    } else {
        let m = (n - 1) as nat;
        law_leading_slashes_do_not_count(m, rest);
        assert(all[0] == '/');
        assert(all.skip(1) =~= slashes(m) + rest);
    }
}

/// The ending of thumbnails does not count, and nothing else is taken off.
pub proof fn law_thumbnail_endings_do_not_count(s: Seq<char>)
    ensures
        without_jpg(s + ".jpg"@) == without_jpg(s),
        s.len() < 4 ==> without_jpg(s) == s,
        s.len() >= 4 && s.skip(s.len() - 4) != ".jpg"@ ==> without_jpg(s) == s,
{
    reveal_strlit(".jpg");
    let all = s + ".jpg"@;
    let n = all.len() as int;
    assert(all[n - 4] == '.' && all[n - 3] == 'j' && all[n - 2] == 'p' && all[n - 1] == 'g');
    assert(all.take(n - 4) =~= s);
    if s.len() >= 4 && ends_in_jpg(s) {
        assert(s.skip(s.len() - 4) =~= ".jpg"@);
    }
}

/// A request for the file of an image is about the image whose number it holds,
/// however many slashes stand before it.
pub proof fn law_image_numbers_lead_back(n: nat, id: i64)
    ensures
        small_integer_in(without_slashes(slashes(n) + decimal(id as int))) == Some(id),
{
    let text = decimal(id as int);
    let m: nat = if id < 0 {
        (-(id as int)) as nat
    } else {
        id as nat
    };
    lemma_digits(m);
    assert('0' <= digits(m)[0] <= '9');
    assert(text[0] == '-' || text[0] == digits(m)[0]);
    law_leading_slashes_do_not_count(n, text);
    if id < 0 {
        assert(text.skip(1) =~= digits(m));
    }
}

} // verus!
