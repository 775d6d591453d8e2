//! Texts without stray white space, and the outline that lowering a text keeps.

use crate::text::{
    collapsed, has_colon_pair, is_mark, is_part, is_white, lemma_collapsed_step, outline, trimmed,
    trimmed_end, trimmed_start, words,
};
use vstd::prelude::*;

verus! {

/// Whether white space stands in a text only as single spaces, and not first.
pub open spec fn is_spaced(s: Seq<char>) -> bool {
    &&& s.len() > 0 ==> !is_white(s[0])
    &&& forall|i: int| 0 <= i < s.len() && is_white(#[trigger] s[i]) ==> s[i] == ' '
    &&& forall|i: int|
        0 <= i < s.len() - 1 && is_white(#[trigger] s[i]) ==> !is_white(s[i + 1])
}

/// Whether a text has no stray white space.
pub open spec fn is_tidy(s: Seq<char>) -> bool {
    is_spaced(s) && (s.len() > 0 ==> !is_white(s.last()))
}

/// Single spaces stay when stray white space is taken out, but for one at the end.
pub proof fn lemma_spaced_stays(s: Seq<char>)
    requires
        is_spaced(s),
    ensures
        collapsed(s) == if s.len() > 0 && is_white(s.last()) {
            s.drop_last()
        } else {
            s
        },
    decreases s.len(),
{
    if s.len() == 0 {
        assert(words(s) =~= Seq::<Seq<char>>::empty());
        assert(collapsed(s) =~= s);
    } else {
        let rest = s.drop_last();
        assert forall|i: int| 0 <= i < rest.len() && is_white(#[trigger] rest[i]) implies rest[i]
            == ' ' by {
            assert(rest[i] == s[i]);
        }
        assert forall|i: int| 0 <= i < rest.len() - 1 && is_white(#[trigger] rest[i]) implies !is_white(
            rest[i + 1],
        ) by {
            assert(rest[i] == s[i]);
        }
        assert(is_spaced(rest));
        lemma_spaced_stays(rest);
        lemma_collapsed_step(s);
        if rest.len() > 0 {
            assert(rest.last() == s[s.len() - 2]);
        }
        assert(collapsed(s) =~= if is_white(s.last()) {
            rest
        } else {
            s
        });
    }
}

/// Taking stray white space out leaves none.
pub proof fn lemma_collapsed_is_tidy(s: Seq<char>)
    ensures
        is_tidy(collapsed(s)),
    decreases s.len(),
{
    let now = collapsed(s);
    if s.len() == 0 {
        assert(words(s) =~= Seq::<Seq<char>>::empty());
    } else {
        let rest = s.drop_last();
        let before = collapsed(rest);
        lemma_collapsed_is_tidy(rest);
        lemma_collapsed_step(s);
        assert forall|i: int| 0 <= i < now.len() && is_white(#[trigger] now[i]) implies now[i]
            == ' ' by {
            if i < before.len() {
                assert(now[i] == before[i]);
            }
        }
        assert forall|i: int| 0 <= i < now.len() - 1 && is_white(#[trigger] now[i]) implies !is_white(
            now[i + 1],
        ) by {
            if i < before.len() {
                assert(now[i] == before[i]);
                if i + 1 < before.len() {
                    assert(now[i + 1] == before[i + 1]);
                }
            }
        }
        if before.len() > 0 {
            assert(now[0] == before[0]);
        }
    }
}

/// A trimmed text has no white space at its ends.
pub proof fn lemma_trimmed_ends(s: Seq<char>)
    ensures
        trimmed(s).len() > 0 ==> !is_white(trimmed(s)[0]) && !is_white(trimmed(s).last()),
{
    lemma_trimmed_start(s);
    lemma_trimmed_end(trimmed_start(s));
}

proof fn lemma_trimmed_start(s: Seq<char>)
    ensures
        trimmed_start(s).len() > 0 ==> !is_white(trimmed_start(s)[0]),
    decreases s.len(),
{
    if s.len() > 0 && is_white(s[0]) {
        lemma_trimmed_start(s.skip(1));
    }
}

proof fn lemma_trimmed_end(s: Seq<char>)
    ensures
        trimmed_end(s).len() > 0 ==> !is_white(trimmed_end(s).last()) && trimmed_end(s)[0] == s[0],
    decreases s.len(),
{
    if s.len() > 0 && is_white(s.last()) {
        lemma_trimmed_end(s.drop_last());
    }
}

/// A part of a tidy text that has no white space at its ends is tidy.
pub proof fn lemma_part_is_tidy(p: Seq<char>, s: Seq<char>)
    requires
        is_tidy(s),
        is_part(p, s),
        p.len() > 0 ==> !is_white(p[0]) && !is_white(p.last()),
    ensures
        is_tidy(p),
{
    let (a, b) = choose|a: int, b: int|
        0 <= a <= b <= s.len() && p == #[trigger] s.subrange(a, b);
    assert forall|i: int| 0 <= i < p.len() implies #[trigger] p[i] == s[a + i] by {}
    assert forall|i: int| 0 <= i < p.len() && is_white(#[trigger] p[i]) implies p[i] == ' ' by {
        assert(is_white(s[a + i]));
    }
    assert forall|i: int| 0 <= i < p.len() - 1 && is_white(#[trigger] p[i]) implies !is_white(
        p[i + 1],
    ) by {
        assert(is_white(s[a + i]));
        assert(p[i + 1] == s[a + i + 1]);
    }
}

// ---------------------------------------------------------------------------
// Outlines
// ---------------------------------------------------------------------------

/// Texts of one outline have the same commas, pairs of colons and white space.
pub proof fn lemma_same_outline(a: Seq<char>, b: Seq<char>)
    requires
        outline(a) == outline(b),
    ensures
        a.contains(',') == b.contains(','),
        has_colon_pair(a) == has_colon_pair(b),
        is_tidy(a) == is_tidy(b),
        (a.len() == 0) == (b.len() == 0),
{
    lemma_outline(a);
    lemma_outline(b);
}

/// The letter for what stands between marks, or the mark.
spec fn traced(c: char) -> char {
    if is_mark(c) {
        c
    } else {
        'x'
    }
}

proof fn lemma_outline(s: Seq<char>)
    ensures
        (outline(s).len() == 0) == (s.len() == 0),
        s.len() > 0 ==> outline(s).last() == traced(s.last()),
        outline(s).contains(',') == s.contains(','),
        has_colon_pair(outline(s)) == has_colon_pair(s),
        is_spaced(outline(s)) == is_spaced(s),
    decreases s.len(),
{
    let now = outline(s);
    if s.len() == 0 {
        assert(now =~= s);
    } else {
        let rest = s.drop_last();
        let c = s.last();
        let before = outline(rest);
        lemma_outline(rest);
        assert(s =~= rest.push(c));
        lemma_push(rest, c);
        lemma_push(before, traced(c));
        if now != before.push(traced(c)) {
            assert(now == before);
            assert(before.last() == 'x');
            assert(before.push('x').contains(',') == before.contains(','));
        }
    }
}

/// How what is asked of a text grows with the text.
proof fn lemma_push(s: Seq<char>, c: char)
    ensures
        s.push(c).contains(',') == (s.contains(',') || c == ','),
        has_colon_pair(s.push(c)) == (has_colon_pair(s) || (s.len() > 0 && s.last() == ':' && c
            == ':')),
        is_spaced(s.push(c)) == (is_spaced(s) && (is_white(c) ==> c == ' ' && s.len() > 0
            && !is_white(s.last()))),
{
    let t = s.push(c);
    let n = s.len() as int;
    assert(t[n] == c);
    assert forall|i: int| 0 <= i < n implies #[trigger] t[i] == s[i] by {}
    assert(t.contains(',') == (s.contains(',') || c == ',')) by {
        if s.contains(',') {
            let i = choose|i: int| 0 <= i < s.len() && s[i] == ',';
            assert(t[i] == ',');
        }
        if t.contains(',') {
            let i = choose|i: int| 0 <= i < t.len() && t[i] == ',';
            assert(i < n ==> s[i] == ',');
        }
    }
    assert(has_colon_pair(t) == (has_colon_pair(s) || (n > 0 && s.last() == ':' && c == ':'))) by {
        if has_colon_pair(s) {
            let i = choose|i: int| 0 <= i < s.len() - 1 && #[trigger] s[i] == ':' && s[i + 1] == ':';
            assert(t[i] == ':' && t[i + 1] == ':');
        }
        if n > 0 && s.last() == ':' && c == ':' {
            assert(t[n - 1] == ':' && t[n - 1 + 1] == ':');
        }
        if has_colon_pair(t) {
            let i = choose|i: int| 0 <= i < t.len() - 1 && #[trigger] t[i] == ':' && t[i + 1] == ':';
            assert(s[i] == ':');
            assert(i + 1 < n ==> s[i + 1] == ':');
        }
    }
    lemma_spaced_push(s, c);
}

proof fn lemma_spaced_push(s: Seq<char>, c: char)
    ensures
        is_spaced(s.push(c)) == (is_spaced(s) && (is_white(c) ==> c == ' ' && s.len() > 0
            && !is_white(s.last()))),
{
    let t = s.push(c);
    let n = s.len() as int;
    assert(t[n] == c);
    assert forall|i: int| 0 <= i < n implies #[trigger] t[i] == s[i] by {}
    if is_spaced(t) {
        assert forall|i: int| 0 <= i < s.len() && is_white(#[trigger] s[i]) implies s[i] == ' ' by {
            assert(t[i] == s[i]);
        }
        assert forall|i: int| 0 <= i < s.len() - 1 && is_white(#[trigger] s[i]) implies !is_white(
            s[i + 1],
        ) by {
            assert(is_white(t[i]));
            assert(t[i + 1] == s[i + 1]);
        }
        if n > 0 {
            assert(t[0] == s[0]);
        }
        if is_white(c) && n > 0 && is_white(s.last()) {
            assert(is_white(t[n - 1]));
            assert(!is_white(t[n - 1 + 1]));
        }
    }
    if is_spaced(s) && (is_white(c) ==> c == ' ' && s.len() > 0 && !is_white(s.last())) {
        assert forall|i: int| 0 <= i < t.len() && is_white(#[trigger] t[i]) implies t[i] == ' ' by {
            if i < n {
                assert(is_white(s[i]));
            }
        }
        assert forall|i: int| 0 <= i < t.len() - 1 && is_white(#[trigger] t[i]) implies !is_white(
            t[i + 1],
        ) by {
            assert(is_white(s[i]));
            if i + 1 < n {
                assert(t[i + 1] == s[i + 1]);
            }
        }
        if n > 0 {
            assert(t[0] == s[0]);
        }
    }
}

} // verus!
