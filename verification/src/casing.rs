//! The case of letters does not matter in prompts.

use crate::tags::{normalized, tokens_of};
use crate::text::{
    ascii_kind, ascii_lower, collapsed, is_white, lemma_collapsed, lemma_collapsed_step,
    lemma_pieces, lowercased, lowered, made_of, pieces, without_colon_pairs, words,
};
use crate::weights::{
    digit_run, is_digit, is_pair_at, is_weight_at, kept_from, number_len, opens_token,
    starts_group, without_weights,
};
use vstd::prelude::*;
use vstd::utf8::is_ascii_chars;

verus! {

/// Lowering an ASCII character keeps what it is in a prompt.
proof fn lemma_lower_keeps(c: char)
    requires
        c <= '\u{7f}',
    ensures
        ascii_lower(c) <= '\u{7f}',
        is_digit(ascii_lower(c)) == is_digit(c),
        is_white(ascii_lower(c)) == is_white(c),
        ascii_lower(c) == ':' <==> c == ':',
        ascii_lower(c) == ',' <==> c == ',',
        ascii_lower(c) == '.' <==> c == '.',
        ascii_lower(ascii_lower(c)) == ascii_lower(c),
        c == ' ' ==> ascii_lower(c) == ' ',
{
}

proof fn lemma_at(s: Seq<char>, i: int)
    requires
        is_ascii_chars(s),
        0 <= i < s.len(),
    ensures
        lowered(s)[i] == ascii_lower(s[i]),
        s[i] <= '\u{7f}',
        is_digit(lowered(s)[i]) == is_digit(s[i]),
        is_white(lowered(s)[i]) == is_white(s[i]),
        lowered(s)[i] == ':' <==> s[i] == ':',
        lowered(s)[i] == ',' <==> s[i] == ',',
        lowered(s)[i] == '.' <==> s[i] == '.',
{
    assert('\0' <= s[i] <= '\u{7f}');
    lemma_lower_keeps(s[i]);
}

proof fn lemma_skip(s: Seq<char>, i: int)
    requires
        is_ascii_chars(s),
        0 <= i <= s.len(),
    ensures
        lowered(s).skip(i) == lowered(s.skip(i)),
        is_ascii_chars(s.skip(i)),
{
    assert(lowered(s).skip(i) =~= lowered(s.skip(i)));
    assert forall|k: int| 0 <= k < s.skip(i).len() implies '\0' <= #[trigger] s.skip(i)[k]
        <= '\u{7f}' by {
        assert(s.skip(i)[k] == s[i + k]);
    }
}

proof fn lemma_digit_run(s: Seq<char>)
    requires
        is_ascii_chars(s),
    ensures
        digit_run(lowered(s)) == digit_run(s),
        digit_run(s) <= s.len(),
    decreases s.len(),
{
    if s.len() > 0 {
        lemma_at(s, 0);
        lemma_skip(s, 1);
        lemma_digit_run(s.skip(1));
    }
}

proof fn lemma_number(s: Seq<char>)
    requires
        is_ascii_chars(s),
    ensures
        number_len(lowered(s)) == number_len(s),
        starts_group(lowered(s)) == starts_group(s),
        number_len(s) <= s.len(),
{
    lemma_digit_run(s);
    let whole = digit_run(s) as int;
    if whole < s.len() {
        lemma_at(s, whole);
        lemma_skip(s, whole + 1);
        lemma_digit_run(s.skip(whole + 1));
    }
    let n = number_len(s) as int;
    if n + 2 <= s.len() {
        lemma_at(s, n);
        lemma_at(s, n + 1);
    }
}

proof fn lemma_opens(s: Seq<char>, i: int)
    requires
        is_ascii_chars(s),
        0 <= i <= s.len(),
    ensures
        opens_token(lowered(s), i) == opens_token(s, i),
    decreases i,
{
    if i > 0 {
        lemma_at(s, i - 1);
        if i >= 2 {
            lemma_at(s, i - 2);
        }
        lemma_opens(s, i - 1);
    }
}

proof fn lemma_kept(s: Seq<char>, i: int, open: bool)
    requires
        is_ascii_chars(s),
        0 <= i,
    ensures
        kept_from(lowered(s), i, open) == lowered(kept_from(s, i, open)),
        is_ascii_chars(kept_from(s, i, open)),
    decreases s.len() - i,
{
    let low = lowered(s);
    if i >= s.len() {
        assert(kept_from(low, i, open) =~= lowered(kept_from(s, i, open)));
    } else {
        lemma_skip(s, i);
        lemma_number(s.skip(i));
        lemma_opens(s, i);
        lemma_at(s, i);
        if i + 1 < s.len() {
            lemma_at(s, i + 1);
        }
        assert(is_weight_at(low, i, open) == is_weight_at(s, i, open));
        assert(is_pair_at(low, i) == is_pair_at(s, i));
        if is_weight_at(s, i, open) {
            lemma_kept(s, i + number_len(s.skip(i)) + 2, true);
        } else {
            let next = open && !is_pair_at(s, i);
            lemma_kept(s, i + 1, next);
            let rest = kept_from(s, i + 1, next);
            assert(seq![low[i]] + lowered(rest) =~= lowered(seq![s[i]] + rest));
            let all = seq![s[i]] + rest;
            assert forall|k: int| 0 <= k < all.len() implies '\0' <= #[trigger] all[k]
                <= '\u{7f}' by {
                if k > 0 {
                    assert(all[k] == rest[k - 1]);
                }
            }
        }
    }
}

proof fn lemma_pairs(s: Seq<char>)
    requires
        is_ascii_chars(s),
    ensures
        without_colon_pairs(lowered(s)) == lowered(without_colon_pairs(s)),
        is_ascii_chars(without_colon_pairs(s)),
    decreases s.len(),
{
    let low = lowered(s);
    if s.len() == 0 {
        assert(without_colon_pairs(low) =~= lowered(without_colon_pairs(s)));
    } else {
        lemma_at(s, 0);
        lemma_skip(s, 1);
        if s.len() >= 2 {
            lemma_at(s, 1);
            lemma_skip(s, 2);
        }
        if s.len() >= 2 && s[0] == ':' && s[1] == ':' {
            lemma_pairs(s.skip(2));
        } else {
            lemma_pairs(s.skip(1));
            let rest = without_colon_pairs(s.skip(1));
            assert(seq![low[0]] + lowered(rest) =~= lowered(seq![s[0]] + rest));
            let all = seq![s[0]] + rest;
            assert forall|k: int| 0 <= k < all.len() implies '\0' <= #[trigger] all[k]
                <= '\u{7f}' by {
                if k > 0 {
                    assert(all[k] == rest[k - 1]);
                }
            }
        }
    }
}

proof fn lemma_front(s: Seq<char>)
    requires
        is_ascii_chars(s),
        s.len() > 0,
    ensures
        lowered(s).drop_last() == lowered(s.drop_last()),
        is_ascii_chars(s.drop_last()),
{
    assert(lowered(s).drop_last() =~= lowered(s.drop_last()));
    assert forall|k: int| 0 <= k < s.drop_last().len() implies '\0' <= #[trigger] s.drop_last()[k]
        <= '\u{7f}' by {
        assert(s.drop_last()[k] == s[k]);
    }
}

proof fn lemma_pieces_lowered(s: Seq<char>)
    requires
        is_ascii_chars(s),
    ensures
        pieces(lowered(s), ',').len() == pieces(s, ',').len(),
        forall|k: int|
            0 <= k < pieces(s, ',').len() ==> #[trigger] pieces(lowered(s), ',')[k] == lowered(
                pieces(s, ',')[k],
            ) && is_ascii_chars(pieces(s, ',')[k]),
    decreases s.len(),
{
    let low = lowered(s);
    if s.len() == 0 {
        assert(lowered(Seq::<char>::empty()) =~= Seq::<char>::empty());
        assert(low =~= s);
    } else {
        let rest = s.drop_last();
        lemma_front(s);
        lemma_pieces_lowered(rest);
        lemma_pieces(rest, ',');
        lemma_at(s, s.len() - 1);
        let a = pieces(rest, ',');
        let b = pieces(lowered(rest), ',');
        let now = pieces(s, ',');
        let then_low = pieces(low, ',');
        assert(low.last() == ascii_lower(s.last()));
        assert forall|k: int| 0 <= k < now.len() implies #[trigger] then_low[k] == lowered(now[k])
            && is_ascii_chars(now[k]) by {
            if s.last() == ',' {
                if k < a.len() {
                    assert(then_low[k] == b[k]);
                } else {
                    assert(lowered(Seq::<char>::empty()) =~= Seq::<char>::empty());
                }
            } else {
                let m = a.len() - 1;
                assert(b[m] == lowered(a[m]));
                if k < m {
                    assert(then_low[k] == b[k]);
                } else {
                    assert(lowered(a[m].push(s.last())) =~= lowered(a[m]).push(low.last()));
                    let grown = a[m].push(s.last());
                    assert forall|j: int| 0 <= j < grown.len() implies '\0' <= #[trigger] grown[j]
                        <= '\u{7f}' by {
                        if j < a[m].len() {
                            assert(grown[j] == a[m][j]);
                        }
                    }
                }
            }
        }
    }
}

proof fn lemma_collapsed_lowered(s: Seq<char>)
    requires
        is_ascii_chars(s),
    ensures
        collapsed(lowered(s)) == lowered(collapsed(s)),
    decreases s.len(),
{
    let low = lowered(s);
    if s.len() == 0 {
        assert(words(s) =~= Seq::<Seq<char>>::empty());
        assert(words(low) =~= Seq::<Seq<char>>::empty());
        assert(collapsed(low) =~= lowered(collapsed(s)));
    } else {
        let rest = s.drop_last();
        lemma_front(s);
        lemma_collapsed_lowered(rest);
        lemma_collapsed_step(s);
        lemma_collapsed_step(low);
        lemma_at(s, s.len() - 1);
        if s.len() >= 2 {
            lemma_at(s, s.len() - 2);
        }
        let before = collapsed(rest);
        let c = s.last();
        assert(lowered(before).len() == before.len());
        assert(low.last() == ascii_lower(c));
        assert(ascii_lower(' ') == ' ');
        assert(lowered(seq![c]) =~= seq![ascii_lower(c)]);
        assert(lowered(before.push(' ').push(c)) =~= lowered(before).push(' ').push(ascii_lower(c)));
        assert(lowered(before.push(c)) =~= lowered(before).push(ascii_lower(c)));
    }
}

proof fn lemma_token_lowered(piece: Seq<char>)
    requires
        is_ascii_chars(piece),
    ensures
        lowercased(collapsed(lowered(piece))) == lowercased(collapsed(piece)),
{
    let plain = collapsed(piece);
    lemma_collapsed_lowered(piece);
    assert(made_of(piece, ascii_kind())) by {
        assert forall|i: int| 0 <= i < piece.len() implies ascii_kind()(#[trigger] piece[i]) by {}
    }
    lemma_collapsed(piece, ascii_kind());
    assert(is_ascii_chars(plain)) by {
        assert forall|i: int| 0 <= i < plain.len() implies '\0' <= #[trigger] plain[i] <= '\u{7f}' by {
            assert(ascii_kind()(plain[i]));
        }
    }
    let low = lowered(plain);
    assert(is_ascii_chars(low)) by {
        assert forall|i: int| 0 <= i < low.len() implies '\0' <= #[trigger] low[i] <= '\u{7f}' by {
            lemma_lower_keeps(plain[i]);
            assert(low[i] == ascii_lower(plain[i]));
        }
    }
    assert(lowered(low) =~= low) by {
        assert forall|i: int| 0 <= i < low.len() implies #[trigger] lowered(low)[i] == low[i] by {
            lemma_lower_keeps(plain[i]);
            assert(low[i] == ascii_lower(plain[i]));
        }
    }
}

/// Whether two texts differ in nothing but the case of their letters.
pub open spec fn same_letters(a: Seq<char>, b: Seq<char>) -> bool {
    a.len() == b.len() && forall|i: int|
        0 <= i < a.len() ==> ascii_lower(#[trigger] a[i]) == ascii_lower(b[i])
}

/// Two ASCII texts that differ in nothing but the case of their letters have the same
/// tags.
pub proof fn law_case_does_not_matter(a: Seq<char>, b: Seq<char>, source: Seq<char>)
    requires
        is_ascii_chars(a),
        is_ascii_chars(b),
        same_letters(a, b),
    ensures
        normalized(a, source) == normalized(b, source),
{
    assert(lowered(a) =~= lowered(b)) by {
        assert forall|i: int| 0 <= i < a.len() implies #[trigger] lowered(a)[i] == lowered(b)[i] by {
            assert(ascii_lower(a[i]) == ascii_lower(b[i]));
        }
    }
    lemma_lowered_text(a, source);
    lemma_lowered_text(b, source);
}

proof fn lemma_lowered_text(text: Seq<char>, source: Seq<char>)
    requires
        is_ascii_chars(text),
    ensures
        normalized(lowered(text), source) == normalized(text, source),
{
    lemma_kept(text, 0, false);
    let plain = without_weights(text);
    lemma_pairs(plain);
    let flat = without_colon_pairs(plain);
    lemma_pieces_lowered(flat);
    let tokens = tokens_of(plain);
    let others = tokens_of(without_weights(lowered(text)));
    assert(others =~= tokens) by {
        assert forall|k: int| 0 <= k < tokens.len() implies #[trigger] others[k] == tokens[k] by {
            let piece = pieces(flat, ',')[k];
            assert(pieces(lowered(flat), ',')[k] == lowered(piece));
            lemma_token_lowered(piece);
        }
    }
}

} // verus!
