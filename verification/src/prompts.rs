//! What holds of prompts as lists of tags: a list that was normalized stays as it
//! is, lists are joined by commas, and a weight around a list changes nothing.

use crate::tags::{
    ARTIST_PREFIX, has_name, is_name, lemma_has_name, names_of, normalized, tags_of, token_tag,
    tokens_of, TagModel,
};
use crate::text::{
    collapsed, has_colon_pair, has_prefix, is_white, joined, lowercased, lowered, pieces,
    without_colon_pairs, words,
};
use crate::text::lemma_pieces;
use crate::tidy::lemma_spaced_stays;
use crate::weights::{
    digit_run, is_digit, is_pair_at, is_weight_at, kept_from, lemma_number_chars, number_len,
    opens_token, starts_group, without_weights,
};
use vstd::prelude::*;

verus! {

// ---------------------------------------------------------------------------
// A normalized list stays
// ---------------------------------------------------------------------------

/// Different names that are no artists', written as a list, are normalized to
/// themselves.
pub proof fn lemma_list_stays(names: Seq<Seq<char>>, source: Seq<char>)
    requires
        forall|k: int| 0 <= k < names.len() ==> is_name(#[trigger] names[k]),
        forall|k: int| 0 <= k < names.len() ==> !has_prefix(#[trigger] names[k], ARTIST_PREFIX@),
        forall|i: int, j: int|
            0 <= i < j < names.len() ==> #[trigger] names[i] != #[trigger] names[j],
    ensures
        names_of(normalized(joined(names, ", "@), source)) == names,
{
    let list = joined(names, ", "@);
    lemma_list(names);
    lemma_no_weights(list, 0, false);
    assert(list.skip(0) =~= list);
    lemma_no_colon_pairs(list);
    if names.len() == 0 {
        assert(list =~= Seq::<char>::empty());
        let tokens = tokens_of(list);
        lemma_blank_token();
        assert(tokens =~= seq![Seq::<char>::empty()]);
        assert(tokens.drop_last() =~= Seq::<Seq<char>>::empty());
        assert(tags_of(tokens.drop_last(), source) =~= Seq::<TagModel>::empty());
        assert(names_of(normalized(list, source)) =~= names);
    } else {
        lemma_list_tokens(names);
        lemma_names_stay(names, source);
    }
}

/// A list of names has no pair of colons.
pub proof fn lemma_list(names: Seq<Seq<char>>)
    requires
        forall|k: int| 0 <= k < names.len() ==> is_name(#[trigger] names[k]),
    ensures
        !has_colon_pair(joined(names, ", "@)),
    decreases names.len(),
{
    reveal_strlit(", ");
    if names.len() > 1 {
        let rest = names.drop_last();
        assert forall|k: int| 0 <= k < rest.len() implies is_name(#[trigger] rest[k]) by {
            assert(rest[k] == names[k]);
        }
        lemma_list(rest);
        let a = joined(rest, ", "@);
        let b = names.last();
        let all = joined(names, ", "@);
        assert(is_name(names[names.len() - 1]));
        assert(all == a + ", "@ + b);
        if has_colon_pair(all) {
            let i = choose|i: int|
                0 <= i < all.len() - 1 && #[trigger] all[i] == ':' && all[i + 1] == ':';
            if i + 1 < a.len() {
                assert(a[i] == ':' && a[i + 1] == ':');
            } else if i >= a.len() + 2 {
                let j = i - a.len() - 2;
                assert(b[j] == ':' && b[j + 1] == ':');
            }
        }
    } else if names.len() == 1 {
        assert(is_name(names[0]));
    }
}

/// A text without a pair of colons has no weights.
pub proof fn lemma_no_weights(s: Seq<char>, i: int, open: bool)
    requires
        !has_colon_pair(s),
        0 <= i <= s.len(),
    ensures
        kept_from(s, i, open) == s.skip(i),
    decreases s.len() - i,
{
    if i < s.len() {
        if starts_group(s.skip(i)) {
            let n = number_len(s.skip(i)) as int;
            assert(s.skip(i)[n] == s[i + n]);
            assert(s.skip(i)[n + 1] == s[i + n + 1]);
        }
        lemma_no_weights(s, i + 1, open && !is_pair_at(s, i));
        assert(seq![s[i]] + s.skip(i + 1) =~= s.skip(i));
    } else {
        assert(s.skip(i) =~= Seq::<char>::empty());
    }
}

pub proof fn lemma_no_colon_pairs(s: Seq<char>)
    requires
        !has_colon_pair(s),
    ensures
        without_colon_pairs(s) == s,
    decreases s.len(),
{
    if s.len() > 0 {
        let rest = s.skip(1);
        if has_colon_pair(rest) {
            let i = choose|i: int|
                0 <= i < rest.len() - 1 && #[trigger] rest[i] == ':' && rest[i + 1] == ':';
            assert(s[i + 1] == ':' && s[i + 1 + 1] == ':');
        }
        lemma_no_colon_pairs(rest);
        assert(seq![s[0]] + rest =~= s);
    } else {
        assert(s =~= Seq::<char>::empty());
    }
}

proof fn lemma_blank_token()
    ensures
        lowercased(collapsed(Seq::<char>::empty())) == Seq::<char>::empty(),
        pieces(Seq::<char>::empty(), ',') == seq![Seq::<char>::empty()],
{
    let none = Seq::<char>::empty();
    assert(words(none) =~= Seq::<Seq<char>>::empty());
    assert(collapsed(none) =~= none);
    assert(lowered(none) =~= none);
}

/// What follows the last separator is the last piece.
proof fn lemma_last_piece(a: Seq<char>, sep: char, b: Seq<char>)
    requires
        !b.contains(sep),
    ensures
        pieces(a + seq![sep] + b, sep) == pieces(a, sep).push(b),
    decreases b.len(),
{
    let s = a + seq![sep] + b;
    if b.len() == 0 {
        assert(s.drop_last() =~= a);
        assert(b =~= Seq::<char>::empty());
    } else {
        let c = b.drop_last();
        assert(!c.contains(sep)) by {
            if c.contains(sep) {
                let i = choose|i: int| 0 <= i < c.len() && c[i] == sep;
                assert(b[i] == sep);
            }
        }
        lemma_last_piece(a, sep, c);
        assert(s.drop_last() =~= a + seq![sep] + c);
        assert(s.last() == b[b.len() - 1]);
        let before = pieces(a, sep).push(c);
        assert(before.drop_last() =~= pieces(a, sep));
        assert(c.push(b.last()) =~= b);
    }
}

/// A text without the separator is its only piece.
proof fn lemma_one_piece(s: Seq<char>, sep: char)
    requires
        !s.contains(sep),
    ensures
        pieces(s, sep) == seq![s],
    decreases s.len(),
{
    if s.len() > 0 {
        let rest = s.drop_last();
        assert(!rest.contains(sep)) by {
            if rest.contains(sep) {
                let i = choose|i: int| 0 <= i < rest.len() && rest[i] == sep;
                assert(s[i] == sep);
            }
        }
        lemma_one_piece(rest, sep);
        assert(s.last() == s[s.len() - 1]);
        assert(rest.push(s.last()) =~= s);
        assert(pieces(s, sep) =~= seq![s]);
    } else {
        assert(s =~= Seq::<char>::empty());
    }
}

/// A name, with a space before it or not, is a token as it stands.
proof fn lemma_name_token(name: Seq<char>)
    requires
        is_name(name),
    ensures
        lowercased(collapsed(name)) == name,
        lowercased(collapsed(seq![' '] + name)) == name,
{
    lemma_spaced_stays(name);
    lemma_leading_space(name);
}

proof fn lemma_leading_space(s: Seq<char>)
    ensures
        words(seq![' '] + s) == words(s),
    decreases s.len(),
{
    let t = seq![' '] + s;
    if s.len() == 0 {
        assert(t.drop_last() =~= Seq::<char>::empty());
        assert(words(t.drop_last()) =~= Seq::<Seq<char>>::empty());
    } else {
        lemma_leading_space(s.drop_last());
        assert(t.drop_last() =~= seq![' '] + s.drop_last());
        assert(t.last() == s.last());
        if s.len() > 1 {
            assert(t[t.len() - 2] == s[s.len() - 2]);
        } else {
            assert(t[t.len() - 2] == ' ');
        }
    }
}

/// The tokens of a list of names are the names.
pub proof fn lemma_list_tokens(names: Seq<Seq<char>>)
    requires
        names.len() > 0,
        forall|k: int| 0 <= k < names.len() ==> is_name(#[trigger] names[k]),
    ensures
        tokens_of(joined(names, ", "@)) == names,
{
    let list = joined(names, ", "@);
    lemma_list(names);
    lemma_no_colon_pairs(list);
    lemma_list_pieces(names);
    let tokens = tokens_of(list);
    assert forall|k: int| 0 <= k < names.len() implies tokens[k] == #[trigger] names[k] by {
        lemma_name_token(names[k]);
    }
    assert(tokens =~= names);
}

proof fn lemma_list_pieces(names: Seq<Seq<char>>)
    requires
        names.len() > 0,
        forall|k: int| 0 <= k < names.len() ==> is_name(#[trigger] names[k]),
    ensures
        pieces(joined(names, ", "@), ',').len() == names.len(),
        forall|k: int|
            0 <= k < names.len() ==> #[trigger] pieces(joined(names, ", "@), ',')[k] == if k == 0 {
                names[k]
            } else {
                seq![' '] + names[k]
            },
    decreases names.len(),
{
    reveal_strlit(", ");
    let list = joined(names, ", "@);
    if names.len() == 1 {
        assert(is_name(names[0]));
        lemma_one_piece(names[0], ',');
    } else {
        let rest = names.drop_last();
        let last = names.last();
        assert forall|k: int| 0 <= k < rest.len() implies is_name(#[trigger] rest[k]) by {
            assert(rest[k] == names[k]);
        }
        lemma_list_pieces(rest);
        assert(is_name(names[names.len() - 1]));
        let b = seq![' '] + last;
        assert(!b.contains(',')) by {
            if b.contains(',') {
                let i = choose|i: int| 0 <= i < b.len() && b[i] == ',';
                assert(last[i - 1] == ',');
            }
        }
        let a = joined(rest, ", "@);
        assert(list =~= a + seq![','] + b);
        lemma_last_piece(a, ',', b);
        let before = pieces(a, ',');
        assert forall|k: int| 0 <= k < names.len() implies #[trigger] pieces(list, ',')[k] == if k
            == 0 {
            names[k]
        } else {
            seq![' '] + names[k]
        } by {
            if k < rest.len() {
                assert(pieces(list, ',')[k] == before[k]);
                assert(rest[k] == names[k]);
            }
        }
    }
}

/// Different names that are no artists' are the names of the tags that they stand
/// for.
proof fn lemma_names_stay(names: Seq<Seq<char>>, source: Seq<char>)
    requires
        forall|k: int| 0 <= k < names.len() ==> is_name(#[trigger] names[k]),
        forall|k: int| 0 <= k < names.len() ==> !has_prefix(#[trigger] names[k], ARTIST_PREFIX@),
        forall|i: int, j: int|
            0 <= i < j < names.len() ==> #[trigger] names[i] != #[trigger] names[j],
    ensures
        names_of(tags_of(names, source)) == names,
    decreases names.len(),
{
    let now = tags_of(names, source);
    if names.len() == 0 {
        assert(names_of(now) =~= names);
    } else {
        let rest = names.drop_last();
        let name = names.last();
        assert forall|k: int| 0 <= k < rest.len() implies #[trigger] rest[k] == names[k] by {}
        lemma_names_stay(rest, source);
        let before = tags_of(rest, source);
        assert(name == names[names.len() - 1]);
        assert(!has_name(before, name)) by {
            lemma_has_name(before, name);
            if rest.contains(name) {
                let k = choose|k: int| 0 <= k < rest.len() && rest[k] == name;
                assert(names[k] == names[names.len() - 1]);
            }
        }
        let t = token_tag(name, source);
        assert(t is Some && (t->0).0 == name);
        let tag = TagModel { name, category: (t->0).1, source };
        assert(now == before.push(tag));
        assert(names_of(before.push(tag)) =~= names_of(before).push(name));
        assert(rest.push(name) =~= names);
    }
}

// ---------------------------------------------------------------------------
// Lists are joined by commas
// ---------------------------------------------------------------------------

/// Whether a group is open at the end of a text, if one was or was not at the
/// character `i`.
pub open spec fn open_from(s: Seq<char>, i: int, open: bool) -> bool
    decreases s.len() - i,
{
    if i < 0 || i >= s.len() {
        open
    } else if is_weight_at(s, i, open) {
        open_from(s, i + number_len(s.skip(i)) + 2, true)
    } else {
        open_from(s, i + 1, open && !is_pair_at(s, i))
    }
}

/// The tags of `b` whose names are not those of tags in `a`.
pub open spec fn new_tags(a: Seq<TagModel>, b: Seq<TagModel>) -> Seq<TagModel>
    decreases b.len(),
{
    if b.len() == 0 {
        Seq::empty()
    } else {
        let before = new_tags(a, b.drop_last());
        if has_name(a, b.last().name) {
            before
        } else {
            before.push(b.last())
        }
    }
}

/// Two lists with a comma between them have the tags of the first, and then those of
/// the second that are new. A group that the first leaves open must not matter to the
/// numbers in the second.
pub proof fn law_joined_lists(a: Seq<char>, b: Seq<char>, source: Seq<char>)
    requires
        open_from(a, 0, false) ==> kept_from(b, 0, true) == kept_from(b, 0, false),
    ensures
        normalized(a + seq![','] + b, source) == normalized(a, source) + new_tags(
            normalized(a, source),
            normalized(b, source),
        ),
{
    let x = without_weights(a);
    let y = without_weights(b);
    lemma_kept_joined(a, b, 0, false);
    lemma_pairs_joined(x, y);
    lemma_pieces_joined(without_colon_pairs(x), without_colon_pairs(y));
    assert(tokens_of(x + seq![','] + y) =~= tokens_of(x) + tokens_of(y));
    lemma_tags_joined(tokens_of(x), tokens_of(y), source);
}

/// What is kept of two lists with a comma between them.
proof fn lemma_kept_joined(a: Seq<char>, b: Seq<char>, i: int, open: bool)
    requires
        0 <= i <= a.len(),
    ensures
        kept_from(a + seq![','] + b, i, open) == kept_from(a, i, open) + seq![','] + kept_from(
            b,
            0,
            open_from(a, i, open),
        ),
    decreases a.len() - i,
{
    let all = a + seq![','] + b;
    let tail = seq![','] + b;
    if i == a.len() {
        let after = all.skip(i);
        assert(after =~= tail);
        assert(digit_run(after) == 0);
        assert(all[i] == ',');
        lemma_kept_behind(a, b, 0, open);
        assert(kept_from(a, i, open) =~= Seq::<char>::empty());
        assert(Seq::<char>::empty() + seq![','] =~= seq![',']);
    } else {
        let rest = a.skip(i);
        assert(all.skip(i) =~= rest + tail);
        lemma_number_before(rest, tail);
        lemma_opens_before(a, tail, i);
        assert(a + tail =~= all);
        let n = number_len(rest) as int;
        assert(starts_group(all.skip(i)) == starts_group(rest)) by {
            if n + 2 <= rest.len() {
                assert((rest + tail)[n] == rest[n]);
                assert((rest + tail)[n + 1] == rest[n + 1]);
            } else {
                assert((rest + tail)[rest.len() as int] == ',');
            }
        }
        assert(all[i] == a[i]);
        assert(is_pair_at(all, i) == is_pair_at(a, i)) by {
            assert(i + 1 < a.len() ==> all[i + 1] == a[i + 1]);
            assert(all[a.len() as int] == ',');
        }
        if is_weight_at(a, i, open) {
            lemma_kept_joined(a, b, i + n + 2, true);
        } else {
            let next = open && !is_pair_at(a, i);
            lemma_kept_joined(a, b, i + 1, next);
            let more = kept_from(b, 0, open_from(a, i, open));
            assert(seq![a[i]] + (kept_from(a, i + 1, next) + seq![','] + more) =~= (seq![a[i]]
                + kept_from(a, i + 1, next)) + seq![','] + more);
        }
    }
}

/// What is kept behind the comma does not depend on what stands before it.
proof fn lemma_kept_behind(a: Seq<char>, b: Seq<char>, j: int, open: bool)
    requires
        0 <= j <= b.len(),
    ensures
        kept_from(a + seq![','] + b, a.len() + 1 + j, open) == kept_from(b, j, open),
    decreases b.len() - j,
{
    let all = a + seq![','] + b;
    let at = a.len() + 1 + j;
    if j < b.len() {
        assert(all.skip(at) =~= b.skip(j));
        assert(all[at] == b[j]);
        lemma_opens_behind(a, b, j);
        assert(is_pair_at(all, at) == is_pair_at(b, j)) by {
            assert(j + 1 < b.len() ==> all[at + 1] == b[j + 1]);
        }
        if is_weight_at(b, j, open) {
            lemma_number_chars(b.skip(j));
            lemma_kept_behind(a, b, j + number_len(b.skip(j)) + 2, true);
        } else {
            lemma_kept_behind(a, b, j + 1, open && !is_pair_at(b, j));
        }
    }
}

proof fn lemma_opens_before(a: Seq<char>, b: Seq<char>, i: int)
    requires
        0 <= i <= a.len(),
    ensures
        opens_token(a + b, i) == opens_token(a, i),
    decreases i,
{
    if i > 0 {
        assert((a + b)[i - 1] == a[i - 1]);
        if i >= 2 {
            assert((a + b)[i - 2] == a[i - 2]);
        }
        lemma_opens_before(a, b, i - 1);
    }
}

proof fn lemma_opens_behind(a: Seq<char>, b: Seq<char>, j: int)
    requires
        0 <= j <= b.len(),
    ensures
        opens_token(a + seq![','] + b, a.len() + 1 + j) == opens_token(b, j),
    decreases j,
{
    let all = a + seq![','] + b;
    let at = a.len() + 1 + j;
    if j == 0 {
        assert(all[at - 1] == ',');
    } else {
        assert(all[at - 1] == b[j - 1]);
        if j >= 2 {
            assert(all[at - 2] == b[j - 2]);
        } else {
            assert(all[at - 2] == ',');
        }
        lemma_opens_behind(a, b, j - 1);
    }
}

/// The number that a text starts with stays when a comma or a colon follows the text.
proof fn lemma_number_before(a: Seq<char>, b: Seq<char>)
    requires
        b.len() > 0,
        b[0] == ':' || b[0] == ',',
    ensures
        number_len(a + b) == number_len(a),
        number_len(a) <= a.len(),
{
    let all = a + b;
    lemma_digits_before(a, b);
    let whole = digit_run(a) as int;
    if whole < a.len() {
        lemma_digits_before(a.skip(whole + 1), b);
        assert(all.skip(whole + 1) =~= a.skip(whole + 1) + b);
    }
}

proof fn lemma_digits_before(a: Seq<char>, b: Seq<char>)
    requires
        b.len() > 0,
        !is_digit(b[0]),
    ensures
        digit_run(a + b) == digit_run(a),
        digit_run(a) <= a.len(),
    decreases a.len(),
{
    if a.len() > 0 {
        lemma_digits_before(a.skip(1), b);
        assert((a + b).skip(1) =~= a.skip(1) + b);
    } else {
        assert(a + b =~= b);
    }
}

proof fn lemma_pairs_joined(a: Seq<char>, b: Seq<char>)
    ensures
        without_colon_pairs(a + seq![','] + b) == without_colon_pairs(a) + seq![','] + without_colon_pairs(
            b,
        ),
    decreases a.len(),
{
    let all = a + seq![','] + b;
    let more = seq![','] + without_colon_pairs(b);
    if a.len() == 0 {
        assert(all.skip(1) =~= b);
        assert(without_colon_pairs(a) =~= Seq::<char>::empty());
        assert(without_colon_pairs(all) =~= without_colon_pairs(a) + seq![','] + without_colon_pairs(
            b,
        ));
    } else if a.len() >= 2 && a[0] == ':' && a[1] == ':' {
        lemma_pairs_joined(a.skip(2), b);
        assert(all.skip(2) =~= a.skip(2) + seq![','] + b);
    } else {
        lemma_pairs_joined(a.skip(1), b);
        assert(all.skip(1) =~= a.skip(1) + seq![','] + b);
        assert(all[0] == a[0]);
        assert(a.len() == 1 ==> all[1] == ',');
        assert(seq![a[0]] + (without_colon_pairs(a.skip(1)) + seq![','] + without_colon_pairs(b))
            =~= (seq![a[0]] + without_colon_pairs(a.skip(1))) + seq![','] + without_colon_pairs(b));
    }
}

proof fn lemma_pieces_joined(a: Seq<char>, b: Seq<char>)
    ensures
        pieces(a + seq![','] + b, ',') == pieces(a, ',') + pieces(b, ','),
    decreases b.len(),
{
    let all = a + seq![','] + b;
    let x = pieces(a, ',');
    if b.len() == 0 {
        assert(all.drop_last() =~= a);
        assert(pieces(all, ',') =~= x + pieces(b, ','));
    } else {
        let rest = b.drop_last();
        lemma_pieces_joined(a, rest);
        lemma_pieces(rest, ',');
        let y = pieces(rest, ',');
        assert(all.drop_last() =~= a + seq![','] + rest);
        assert(all.last() == b.last());
        assert((x + y).last() == y.last());
        assert((x + y).drop_last() =~= x + y.drop_last());
        assert(pieces(all, ',') =~= x + pieces(b, ','));
    }
}

proof fn lemma_tags_joined(a: Seq<Seq<char>>, b: Seq<Seq<char>>, source: Seq<char>)
    ensures
        tags_of(a + b, source) == tags_of(a, source) + new_tags(
            tags_of(a, source),
            tags_of(b, source),
        ),
    decreases b.len(),
{
    let x = tags_of(a, source);
    let now = tags_of(b, source);
    if b.len() == 0 {
        assert(a + b =~= a);
        assert(x + new_tags(x, now) =~= x);
    } else {
        let rest = b.drop_last();
        lemma_tags_joined(a, rest, source);
        let y = tags_of(rest, source);
        let before = x + new_tags(x, y);
        assert((a + b).drop_last() =~= a + rest);
        assert((a + b).last() == b.last());
        if let Some((name, category)) = token_tag(b.last(), source) {
            let tag = TagModel { name, category, source };
            lemma_new_names(x, y, name);
            if !has_name(y, name) {
                assert(now == y.push(tag));
                assert(y.push(tag).drop_last() =~= y);
                assert(x + new_tags(x, y).push(tag) =~= before.push(tag));
            }
        }
    }
}

proof fn lemma_new_names(a: Seq<TagModel>, b: Seq<TagModel>, name: Seq<char>)
    ensures
        has_name(a + new_tags(a, b), name) == (has_name(a, name) || has_name(b, name)),
    decreases b.len(),
{
    let all = a + new_tags(a, b);
    if b.len() == 0 {
        assert(all =~= a);
    } else {
        let rest = b.drop_last();
        let tag = b.last();
        lemma_new_names(a, rest, name);
        assert(b =~= rest.push(tag));
        lemma_name_push(rest, tag, name);
        if !has_name(a, tag.name) {
            assert(all =~= (a + new_tags(a, rest)).push(tag));
            lemma_name_push(a + new_tags(a, rest), tag, name);
        }
    }
}

proof fn lemma_name_push(tags: Seq<TagModel>, tag: TagModel, name: Seq<char>)
    ensures
        has_name(tags.push(tag), name) == (has_name(tags, name) || tag.name == name),
{
    let now = tags.push(tag);
    if has_name(tags, name) {
        let k = choose|k: int| 0 <= k < tags.len() && (#[trigger] tags[k]).name == name;
        assert(now[k].name == name);
    }
    if tag.name == name {
        assert(now[tags.len() as int].name == name);
    }
    if has_name(now, name) {
        let k = choose|k: int| 0 <= k < now.len() && (#[trigger] now[k]).name == name;
        assert(k < tags.len() ==> tags[k].name == name);
    }
}

// ---------------------------------------------------------------------------
// A weight changes nothing
// ---------------------------------------------------------------------------

/// Whether a text is a number as weights have it.
pub open spec fn is_number(w: Seq<char>) -> bool {
    w.len() > 0 && number_len(w) == w.len()
}

/// A list with pairs of colons around it.
pub open spec fn enclosed(list: Seq<char>) -> Seq<char> {
    seq![':', ':'] + list + seq![':', ':']
}

/// A list as a group with a weight.
pub open spec fn weighted(w: Seq<char>, list: Seq<char>) -> Seq<char> {
    w + enclosed(list)
}

/// Whether the last token of a list is a number, which would become a weight before
/// closing colons: that of `a, 5` is, that of `year 2025` is not.
pub open spec fn ends_in_bare_number(list: Seq<char>) -> bool {
    exists|i: int|
        0 <= i < list.len() && number_len(#[trigger] list.skip(i)) == list.len() - i && opens_token(
            enclosed(list),
            i + 2,
        )
}

/// A weight around a list changes nothing: the list in a group has the tags that it
/// has alone. The list has no pairs of colons of its own, and ends in neither a colon
/// nor a number that would become a weight.
pub proof fn law_group_weight_changes_nothing(w: Seq<char>, list: Seq<char>, source: Seq<char>)
    requires
        is_number(w),
        !has_colon_pair(list),
        list.len() > 0 ==> list.last() != ':',
        !ends_in_bare_number(list),
    ensures
        normalized(weighted(w, list), source) == normalized(list, source),
{
    let all = weighted(w, list);
    let n = w.len() as int;
    lemma_number_before(w, enclosed(list));
    assert(all.skip(0) =~= all);
    assert(all[n] == ':' && all[n + 1] == ':');
    assert(is_weight_at(all, 0, false));
    lemma_kept_of_group(w, list, 0);
    assert(list.skip(0) =~= list);
    lemma_no_weights(list, 0, false);
    lemma_closing_colons(list);
}

/// In particular a weight changes nothing around a list without pairs of colons that
/// ends in neither a digit nor a colon.
pub proof fn law_weight_around_plain_list(w: Seq<char>, list: Seq<char>, source: Seq<char>)
    requires
        is_number(w),
        !has_colon_pair(list),
        list.len() > 0 ==> list.last() != ':' && !is_digit(list.last()),
    ensures
        normalized(weighted(w, list), source) == normalized(list, source),
{
    assert forall|i: int| 0 <= i < list.len() implies number_len(#[trigger] list.skip(i))
        != list.len() - i by {
        let rest = list.skip(i);
        lemma_number_chars(rest);
        assert(rest[rest.len() - 1] == list.last());
    }
    law_group_weight_changes_nothing(w, list, source);
}

/// Whether a token opens inside a group does not depend on the weight.
proof fn lemma_opens_in_group(w: Seq<char>, list: Seq<char>, i: int)
    requires
        0 <= i <= list.len(),
    ensures
        opens_token(weighted(w, list), w.len() + 2 + i) == opens_token(enclosed(list), i + 2),
    decreases i,
{
    let n = w.len() as int;
    let a = weighted(w, list);
    let b = enclosed(list);
    assert(a[n + 2 + i - 1] == b[i + 1]);
    assert(a[n + 2 + i - 2] == b[i]);
    if i > 0 {
        lemma_opens_in_group(w, list, i - 1);
    }
}

/// What is kept of a group: the list, and the closing colons.
proof fn lemma_kept_of_group(w: Seq<char>, list: Seq<char>, i: int)
    requires
        !has_colon_pair(list),
        list.len() > 0 ==> list.last() != ':',
        !ends_in_bare_number(list),
        0 <= i <= list.len(),
    ensures
        kept_from(weighted(w, list), w.len() + 2 + i, true) == list.skip(i) + seq![':', ':'],
    decreases list.len() - i,
{
    let n = w.len() as int;
    let a = weighted(w, list);
    let at = n + 2 + i;
    let colons = seq![':', ':'];
    let rest = list.skip(i);
    assert(a.skip(at) =~= rest + colons);
    if i == list.len() {
        assert(rest =~= Seq::<char>::empty());
        assert(a.skip(at) =~= colons);
        assert(digit_run(colons) == 0);
        assert(a.skip(at + 1) =~= seq![':']);
        assert(digit_run(seq![':']) == 0);
        assert(kept_from(a, at + 2, false) =~= Seq::<char>::empty());
        assert(kept_from(a, at + 1, false) =~= seq![':']);
        assert(kept_from(a, at, true) =~= colons);
        assert(rest + colons =~= colons);
    } else {
        lemma_number_before(rest, colons);
        lemma_opens_in_group(w, list, i);
        let m = number_len(rest) as int;
        let tail = rest + colons;
        if starts_group(tail) {
            if m + 1 < rest.len() {
                assert(list[i + m] == ':' && list[i + m + 1] == ':');
            } else if m + 1 == rest.len() {
                assert(list[i + m] == ':');
            }
            assert(number_len(list.skip(i)) == list.len() - i);
        }
        assert(!is_weight_at(a, at, true));
        assert(a[at] == list[i]);
        assert(!is_pair_at(a, at)) by {
            if i + 1 < list.len() {
                assert(a[at + 1] == list[i + 1]);
                assert(!(list[i] == ':' && list[i + 1] == ':'));
            }
        }
        lemma_kept_of_group(w, list, i + 1);
        assert(seq![list[i]] + (list.skip(i + 1) + colons) =~= rest + colons);
    }
}

/// A pair of colons at the end is taken out with the others.
proof fn lemma_closing_colons(s: Seq<char>)
    ensures
        without_colon_pairs(s + seq![':', ':']) == without_colon_pairs(s),
    decreases s.len(),
{
    let colons = seq![':', ':'];
    let all = s + colons;
    if s.len() == 0 {
        assert(all =~= colons);
        assert(all.skip(2) =~= Seq::<char>::empty());
        assert(without_colon_pairs(all) == without_colon_pairs(all.skip(2)));
        assert(s =~= Seq::<char>::empty());
    } else if s.len() == 1 {
        assert(s.skip(1) =~= Seq::<char>::empty());
        if s[0] == ':' {
            assert(all.skip(2) =~= s);
        } else {
            lemma_closing_colons(s.skip(1));
            assert(all.skip(1) =~= s.skip(1) + colons);
        }
    } else if s[0] == ':' && s[1] == ':' {
        lemma_closing_colons(s.skip(2));
        assert(all.skip(2) =~= s.skip(2) + colons);
    } else {
        lemma_closing_colons(s.skip(1));
        assert(all.skip(1) =~= s.skip(1) + colons);
    }
}

// ---------------------------------------------------------------------------
// A weight behind a text
// ---------------------------------------------------------------------------

/// Before a weight that stands behind a text without pairs of colons, all is kept.
proof fn lemma_kept_before_weight(a: Seq<char>, b: Seq<char>, i: int)
    requires
        !has_colon_pair(a),
        a.len() > 0 ==> a.last() != ':' && a.last() != '.' && !is_digit(a.last()),
        b.len() > 0,
        is_digit(b[0]),
        0 <= i <= a.len(),
    ensures
        kept_from(a + b, i, false) == a.skip(i) + kept_from(a + b, a.len() as int, false),
    decreases a.len() - i,
{
    let all = a + b;
    if i == a.len() {
        assert(a.skip(i) =~= Seq::<char>::empty());
        assert(Seq::<char>::empty() + kept_from(all, i, false) =~= kept_from(all, i, false));
    } else {
        let rest = a.skip(i);
        assert(all.skip(i) =~= rest + b);
        lemma_number_stays(rest, b);
        let n = number_len(rest) as int;
        assert(rest.last() == a.last());
        assert(!starts_group(all.skip(i))) by {
            if starts_group(all.skip(i)) {
                assert(n < rest.len());
                if n + 1 < rest.len() {
                    assert((rest + b)[n] == a[i + n]);
                    assert((rest + b)[n + 1] == a[i + n + 1]);
                    assert(a[i + n] == ':' && a[i + n + 1] == ':');
                } else {
                    assert((rest + b)[n] == rest.last());
                }
            }
        }
        lemma_kept_before_weight(a, b, i + 1);
        assert(all[i] == a[i]);
        assert(seq![a[i]] + (a.skip(i + 1) + kept_from(all, a.len() as int, false)) =~= rest
            + kept_from(all, a.len() as int, false));
    }
}

/// The number that a text starts with stays where the text ends in neither a digit nor
/// a dot, whatever follows.
proof fn lemma_number_stays(a: Seq<char>, b: Seq<char>)
    requires
        a.len() > 0,
        a.last() != '.',
        !is_digit(a.last()),
    ensures
        number_len(a + b) == number_len(a),
        number_len(a) < a.len(),
{
    lemma_digits_stay(a, b);
    let whole = digit_run(a) as int;
    if whole + 1 < a.len() {
        let rest = a.skip(whole + 1);
        assert(rest.last() == a.last());
        lemma_digits_stay(rest, b);
        assert((a + b).skip(whole + 1) =~= rest + b);
    } else {
        assert(a[whole] == a.last());
    }
}

proof fn lemma_digits_stay(a: Seq<char>, b: Seq<char>)
    requires
        a.len() > 0,
        !is_digit(a.last()),
    ensures
        digit_run(a + b) == digit_run(a),
        digit_run(a) < a.len(),
    decreases a.len(),
{
    if a.len() == 1 {
        assert((a + b)[0] == a[0]);
    } else if is_digit(a[0]) {
        assert(a.skip(1).last() == a.last());
        lemma_digits_stay(a.skip(1), b);
        assert((a + b).skip(1) =~= a.skip(1) + b);
    }
}

/// What is kept of a group does not depend on what stands before it.
proof fn lemma_kept_of_group_behind(a: Seq<char>, w: Seq<char>, list: Seq<char>, i: int)
    requires
        !has_colon_pair(list),
        list.len() > 0 ==> list.last() != ':',
        !ends_in_bare_number(list),
        0 <= i <= list.len(),
    ensures
        kept_from(a + weighted(w, list), a.len() + w.len() + 2 + i, true) == list.skip(i)
            + seq![':', ':'],
{
    assert(a + weighted(w, list) =~= weighted(a + w, list));
    lemma_kept_of_group(a + w, list, i);
}

/// A weight counts wherever it stands outside a group, also in the middle of a token:
/// behind a text that ends in neither a digit, a dot nor a colon, a group with a weight
/// has the tags that its list has there without one.
#[verifier::rlimit(30)]
pub proof fn law_weight_behind_a_text_changes_nothing(
    a: Seq<char>,
    w: Seq<char>,
    list: Seq<char>,
    source: Seq<char>,
)
    requires
        !has_colon_pair(a),
        a.len() > 0 ==> a.last() != ':' && a.last() != '.' && !is_digit(a.last()),
        is_number(w),
        !has_colon_pair(list),
        list.len() > 0 ==> list.last() != ':',
        !ends_in_bare_number(list),
    ensures
        normalized(a + weighted(w, list), source) == normalized(a + list, source),
{
    let colons = seq![':', ':'];
    let group = weighted(w, list);
    let all = a + group;
    let n = a.len() as int;
    lemma_starts_with_digit(w);
    assert(group[0] == w[0]);
    lemma_kept_before_weight(a, group, 0);
    assert(a.skip(0) =~= a);
    assert(all.skip(n) =~= w + (colons + (list + colons)));
    lemma_weight_step(all, n, false, w, list + colons);
    lemma_kept_of_group_behind(a, w, list, 0);
    assert(list.skip(0) =~= list);
    let both = a + list;
    assert(a + (list + colons) =~= both + colons);
    lemma_closing_colons(both);
    lemma_no_pair_between(a, list);
    lemma_no_weights(both, 0, false);
    assert(both.skip(0) =~= both);
}

/// A number starts with a digit.
proof fn lemma_starts_with_digit(w: Seq<char>)
    requires
        is_number(w),
    ensures
        is_digit(w[0]),
{
    if !is_digit(w[0]) {
        assert(digit_run(w) == 0);
    }
}

proof fn lemma_no_pair_between(a: Seq<char>, list: Seq<char>)
    requires
        !has_colon_pair(a),
        a.len() > 0 ==> a.last() != ':',
        !has_colon_pair(list),
    ensures
        !has_colon_pair(a + list),
{
    let both = a + list;
    if has_colon_pair(both) {
        let i = choose|i: int|
            0 <= i < both.len() - 1 && #[trigger] both[i] == ':' && both[i + 1] == ':';
        if i + 1 < a.len() {
            assert(a[i] == ':' && a[i + 1] == ':');
        } else if i >= a.len() {
            assert(list[i - a.len()] == ':' && list[i - a.len() + 1] == ':');
        }
    }
}

// ---------------------------------------------------------------------------
// Weights inside a group
// ---------------------------------------------------------------------------

/// Inside a group, a text without pairs of colons that a comma follows is kept.
proof fn lemma_kept_inside(w: Seq<char>, a: Seq<char>, b: Seq<char>, i: int)
    requires
        !has_colon_pair(a),
        b.len() > 0,
        b[0] == ',',
        0 <= i <= a.len(),
    ensures
        kept_from(w + a + b, w.len() + i, true) == a.skip(i) + kept_from(
            w + a + b,
            (w.len() + a.len()) as int,
            true,
        ),
    decreases a.len() - i,
{
    let all = w + a + b;
    let at = w.len() + i;
    let end = (w.len() + a.len()) as int;
    let more = kept_from(all, end, true);
    if i == a.len() {
        assert(a.skip(i) =~= Seq::<char>::empty());
        assert(Seq::<char>::empty() + more =~= more);
    } else {
        let rest = a.skip(i);
        assert(all.skip(at) =~= rest + b);
        lemma_number_before(rest, b);
        let n = number_len(rest) as int;
        assert(!starts_group(all.skip(at))) by {
            if starts_group(all.skip(at)) {
                if n + 1 < rest.len() {
                    assert((rest + b)[n] == a[i + n] && (rest + b)[n + 1] == a[i + n + 1]);
                    assert(a[i + n] == ':' && a[i + n + 1] == ':');
                } else {
                    assert((rest + b)[rest.len() as int] == ',');
                }
            }
        }
        assert(all[at] == a[i]);
        assert(!is_pair_at(all, at)) by {
            if i + 1 < a.len() {
                assert(all[at + 1] == a[i + 1]);
                assert(!(a[i] == ':' && a[i + 1] == ':'));
            } else {
                assert(all[at + 1] == ',');
            }
        }
        lemma_kept_inside(w, a, b, i + 1);
        assert(seq![a[i]] + (a.skip(i + 1) + more) =~= rest + more);
    }
}

/// White space is kept, inside a group and outside.
proof fn lemma_kept_white(s: Seq<char>, i: int, to: int)
    requires
        0 <= i <= to <= s.len(),
        forall|k: int| i <= k < to ==> is_white(#[trigger] s[k]),
    ensures
        kept_from(s, i, true) == s.subrange(i, to) + kept_from(s, to, true),
    decreases to - i,
{
    let more = kept_from(s, to, true);
    if i == to {
        assert(s.subrange(i, to) =~= Seq::<char>::empty());
        assert(Seq::<char>::empty() + more =~= more);
    } else {
        assert(is_white(s[i]));
        assert(s.skip(i)[0] == s[i]);
        assert(digit_run(s.skip(i)) == 0);
        lemma_kept_white(s, i + 1, to);
        assert(seq![s[i]] + (s.subrange(i + 1, to) + more) =~= s.subrange(i, to) + more);
    }
}

/// A token opens behind a comma and white space.
proof fn lemma_opens_behind_white(s: Seq<char>, from: int, i: int)
    requires
        0 < from <= i <= s.len(),
        s[from - 1] == ',',
        forall|k: int| from <= k < i ==> is_white(#[trigger] s[k]),
    ensures
        opens_token(s, i),
    decreases i - from,
{
    if i > from {
        assert(is_white(s[i - 1]));
        lemma_opens_behind_white(s, from, i - 1);
    }
}

/// A weight that counts is passed over, and opens a group.
proof fn lemma_weight_step(s: Seq<char>, i: int, open: bool, v: Seq<char>, rest: Seq<char>)
    requires
        is_number(v),
        0 <= i < s.len(),
        s.skip(i) == v + (seq![':', ':'] + rest),
        !open || opens_token(s, i),
    ensures
        kept_from(s, i, open) == kept_from(s, i + v.len() + 2, true),
{
    let m = v.len() as int;
    let tail = seq![':', ':'] + rest;
    let here = v + tail;
    lemma_number_before(v, tail);
    assert(here[m] == tail[0] && here[m + 1] == tail[1]);
    assert(is_weight_at(s, i, open));
}

/// A list behind a weight, a comma and white space in a group.
spec fn nested(w: Seq<char>, a: Seq<char>, space: Seq<char>, group: Seq<char>) -> Seq<char> {
    w + seq![':', ':'] + (a + seq![','] + space + group)
}

/// What is kept of a group up to the weight inside it.
#[verifier::rlimit(30)]
proof fn lemma_kept_of_nested(w: Seq<char>, a: Seq<char>, space: Seq<char>, group: Seq<char>)
    requires
        is_number(w),
        !has_colon_pair(a),
        forall|k: int| 0 <= k < space.len() ==> is_white(#[trigger] space[k]),
        group.len() > 0,
    ensures
        without_weights(nested(w, a, space, group)) == a + seq![','] + space + kept_from(
            nested(w, a, space, group),
            (w.len() + 2 + a.len() + 1 + space.len()) as int,
            true,
        ),
        opens_token(
            nested(w, a, space, group),
            (w.len() + 2 + a.len() + 1 + space.len()) as int,
        ),
        nested(w, a, space, group) == w + seq![':', ':'] + a + seq![','] + space + group,
{
    let colons = seq![':', ':'];
    let all = nested(w, a, space, group);
    let inner = a + seq![','] + space + group;
    let front = w + colons;
    let tail = seq![','] + space + group;
    let n = w.len() as int;
    assert(all.skip(0) =~= w + (colons + inner));
    lemma_weight_step(all, 0, false, w, inner);
    assert(all =~= front + a + tail);
    lemma_kept_inside(front, a, tail, 0);
    assert(a.skip(0) =~= a);
    let at = (front.len() + a.len()) as int;
    assert(all[at] == ',');
    assert(all.skip(at)[0] == ',');
    assert(digit_run(all.skip(at)) == 0);
    let from = at + 1;
    let to = from + space.len();
    assert forall|k: int| from <= k < to implies is_white(#[trigger] all[k]) by {
        assert(all[k] == space[k - from]);
    }
    lemma_kept_white(all, from, to);
    assert(all.subrange(from, to) =~= space);
    lemma_opens_behind_white(all, from, to);
    let more = kept_from(all, to, true);
    assert(kept_from(all, at, true) == seq![','] + (space + more));
    assert(a + (seq![','] + (space + more)) =~= a + seq![','] + space + more);
    assert(all =~= front + a + seq![','] + space + group);
}

/// A weight inside a group counts where it opens a token: a group in which a list
/// follows a comma and white space with a weight of its own has the tags that it has
/// without that weight.
#[verifier::rlimit(30)]
pub proof fn law_weight_inside_a_group_changes_nothing(
    w: Seq<char>,
    a: Seq<char>,
    space: Seq<char>,
    v: Seq<char>,
    list: Seq<char>,
    source: Seq<char>,
)
    requires
        is_number(w),
        is_number(v),
        !has_colon_pair(a),
        forall|k: int| 0 <= k < space.len() ==> is_white(#[trigger] space[k]),
        !has_colon_pair(list),
        list.len() > 0 ==> list.last() != ':',
        !ends_in_bare_number(list),
    ensures
        normalized(
            w + seq![':', ':'] + (a + seq![','] + space + weighted(v, list)),
            source,
        ) == normalized(a + seq![','] + space + list, source),
{
    let colons = seq![':', ':'];
    let group = weighted(v, list);
    let all = nested(w, a, space, group);
    let before = w + colons + a + seq![','] + space;
    let to = before.len() as int;
    lemma_kept_of_nested(w, a, space, group);
    assert(all.skip(to) =~= v + (colons + (list + colons)));
    lemma_weight_step(all, to, true, v, list + colons);
    lemma_kept_of_group_behind(before, v, list, 0);
    assert(list.skip(0) =~= list);
    let plain = a + seq![','] + space + list;
    assert(a + seq![','] + space + (list + colons) =~= plain + colons);
    lemma_closing_colons(plain);
    lemma_no_pair_joined(a, space, list);
    lemma_no_weights(plain, 0, false);
    assert(plain.skip(0) =~= plain);
}

proof fn lemma_no_pair_joined(a: Seq<char>, space: Seq<char>, list: Seq<char>)
    requires
        !has_colon_pair(a),
        forall|k: int| 0 <= k < space.len() ==> is_white(#[trigger] space[k]),
        !has_colon_pair(list),
    ensures
        !has_colon_pair(a + seq![','] + space + list),
{
    let plain = a + seq![','] + space + list;
    if has_colon_pair(plain) {
        let i = choose|i: int|
            0 <= i < plain.len() - 1 && #[trigger] plain[i] == ':' && plain[i + 1] == ':';
        let n = a.len() as int;
        let m = n + 1 + space.len();
        if i + 1 < n {
            assert(a[i] == ':' && a[i + 1] == ':');
        } else if i + 1 == n {
            assert(plain[i + 1] == ',');
        } else if i == n {
            assert(plain[i] == ',');
        } else if i < m {
            assert(plain[i] == space[i - n - 1]);
            assert(is_white(space[i - n - 1]));
        } else {
            assert(list[i - m] == ':' && list[i - m + 1] == ':');
        }
    }
}

/// A weight directly behind a weight counts too.
#[verifier::rlimit(30)]
pub proof fn law_weight_behind_a_weight_changes_nothing(
    w: Seq<char>,
    v: Seq<char>,
    list: Seq<char>,
    source: Seq<char>,
)
    requires
        is_number(w),
        is_number(v),
        !has_colon_pair(list),
        list.len() > 0 ==> list.last() != ':',
        !ends_in_bare_number(list),
    ensures
        normalized(w + seq![':', ':'] + weighted(v, list), source) == normalized(list, source),
{
    let colons = seq![':', ':'];
    let group = weighted(v, list);
    let all = w + colons + group;
    let front = w + colons;
    let n = w.len() as int;
    assert(all.skip(0) =~= w + (colons + group));
    lemma_weight_step(all, 0, false, w, group);
    assert(all.skip(n + 2) =~= v + (colons + (list + colons)));
    assert(all[n] == ':' && all[n + 1] == ':');
    assert(opens_token(all, n + 2));
    lemma_weight_step(all, n + 2, true, v, list + colons);
    assert(front.len() == n + 2);
    lemma_kept_of_group_behind(front, v, list, 0);
    assert(list.skip(0) =~= list);
    lemma_closing_colons(list);
    lemma_no_weights(list, 0, false);
}

} // verus!
