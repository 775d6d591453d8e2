//! What holds of the categories that the tags of prompts are filed under.

use crate::prompts::{lemma_list, lemma_list_tokens, lemma_no_colon_pairs, lemma_no_weights};
use crate::tags::{
    ARTIST_PREFIX, has_name, is_name, normalized, tags_of, token_tag, tokens_of, TagModel,
};
use crate::text::{
    ascii_lower, collapsed, has_colon_pair, is_part, is_white, joined, lowercased, lowered, pieces,
    trimmed, trimmed_end, trimmed_start, without_colon_pairs, words,
};
use crate::text::{ascii_kind, lemma_collapsed, lemma_collapsed_step, lemma_pieces, made_of};
use crate::weights::without_weights;
use vstd::prelude::*;
use vstd::utf8::is_ascii_chars;

verus! {

/// Whether a token starts with the seven characters that mark an artist.
pub open spec fn is_marked(token: Seq<char>) -> bool {
    token.len() >= 7 && token.take(7) == "artist:"@
}

/// Whether a token gives the name: it is the name, or marks it as an artist's.
pub open spec fn gives(token: Seq<char>, name: Seq<char>) -> bool {
    if is_marked(token) {
        trimmed(token.skip(7)) == name
    } else {
        token == name
    }
}

/// Whether the first token that gives a name is the one at `j`.
pub open spec fn first_gives(tokens: Seq<Seq<char>>, name: Seq<char>, j: int) -> bool {
    &&& 0 <= j < tokens.len()
    &&& gives(tokens[j], name)
    &&& forall|i: int| 0 <= i < j ==> !gives(#[trigger] tokens[i], name)
}

/// Whether a tag is filed as the first token that gives its name says.
pub open spec fn is_filed_by(tag: TagModel, tokens: Seq<Seq<char>>, j: int) -> bool {
    &&& tag.name.len() > 0
    &&& first_gives(tokens, tag.name, j)
    &&& tag.category == "artist"@ <==> is_marked(tokens[j])
    &&& tag.category != "artist"@ && tag.source == "char"@ ==> tag.category == "char"@
    &&& tag.category != "artist"@ && tag.source != "char"@ ==> tag.category == "general"@
}

proof fn lemma_words_differ()
    ensures
        "artist"@ != "char"@,
        "artist"@ != "general"@,
        "artist:"@.len() == 7,
        ARTIST_PREFIX@ == "artist:"@,
{
    reveal_strlit("artist");
    reveal_strlit("char");
    reveal_strlit("general");
    reveal_strlit("artist:");
    assert("artist"@.len() == 6);
    assert("char"@.len() == 4);
    assert("general"@.len() == 7);
}

/// What a token stands for, said of what it gives.
proof fn lemma_token(token: Seq<char>, source: Seq<char>)
    ensures
        match token_tag(token, source) {
            Some((name, category)) => {
                &&& name.len() > 0
                &&& gives(token, name)
                &&& category == "artist"@ <==> is_marked(token)
                &&& category != "artist"@ && source == "char"@ ==> category == "char"@
                &&& category != "artist"@ && source != "char"@ ==> category == "general"@
            },
            None => forall|name: Seq<char>| #[trigger] gives(token, name) ==> name.len() == 0,
        },
{
    lemma_words_differ();
}

/// The tags of tokens, said of the first token that gives each name.
proof fn lemma_filed(tokens: Seq<Seq<char>>, source: Seq<char>)
    ensures
        forall|k: int|
            0 <= k < tags_of(tokens, source).len() ==> (#[trigger] tags_of(tokens, source)[k]).source
                == source && exists|j: int|
                is_filed_by(tags_of(tokens, source)[k], tokens, j),
        forall|i: int, name: Seq<char>|
            0 <= i < tokens.len() && name.len() > 0 && #[trigger] gives(tokens[i], name)
                ==> exists|k: int|
                0 <= k < tags_of(tokens, source).len() && (#[trigger] tags_of(
                    tokens,
                    source,
                )[k]).name == name,
        forall|a: int, b: int, i: int, j: int|
            0 <= a < b < tags_of(tokens, source).len() && #[trigger] is_filed_by(
                tags_of(tokens, source)[a],
                tokens,
                i,
            ) && #[trigger] is_filed_by(tags_of(tokens, source)[b], tokens, j) ==> i < j,
    decreases tokens.len(),
{
    let now = tags_of(tokens, source);
    if tokens.len() > 0 {
        let rest = tokens.drop_last();
        let last = tokens.len() - 1;
        let token = tokens.last();
        let before = tags_of(rest, source);
        lemma_filed(rest, source);
        lemma_token(token, source);
        assert forall|k: int| 0 <= k < before.len() implies exists|j: int|
            is_filed_by(#[trigger] before[k], tokens, j) && j < last by {
            let j = choose|j: int| is_filed_by(before[k], rest, j);
            assert forall|i: int| 0 <= i < j implies !gives(#[trigger] tokens[i], before[k].name) by {
                assert(rest[i] == tokens[i]);
            }
            assert(is_filed_by(before[k], tokens, j));
        }
        assert forall|k: int| 0 <= k < now.len() implies (#[trigger] now[k]).source == source
            && exists|j: int| is_filed_by(now[k], tokens, j) by {
            if k < before.len() {
                assert(now[k] == before[k]);
            } else {
                assert(!has_name(before, now[k].name));
                assert forall|i: int| 0 <= i < last implies !gives(
                    #[trigger] tokens[i],
                    now[k].name,
                ) by {
                    assert(rest[i] == tokens[i]);
                    if gives(rest[i], now[k].name) {
                        let h = choose|h: int|
                            0 <= h < before.len() && (#[trigger] before[h]).name == now[k].name;
                        assert(has_name(before, now[k].name));
                    }
                }
                assert(is_filed_by(now[k], tokens, last));
            }
        }
        assert forall|i: int, name: Seq<char>|
            0 <= i < tokens.len() && name.len() > 0 && #[trigger] gives(
                tokens[i],
                name,
            ) implies exists|k: int| 0 <= k < now.len() && (#[trigger] now[k]).name == name by {
            if i < last {
                assert(gives(rest[i], name));
                let k = choose|k: int| 0 <= k < before.len() && (#[trigger] before[k]).name == name;
                assert(now[k].name == name);
            } else {
                let t = token_tag(token, source);
                assert(t is Some);
                assert((t->0).0 == name);
                if has_name(before, name) {
                    let k = choose|k: int|
                        0 <= k < before.len() && (#[trigger] before[k]).name == name;
                    assert(now[k].name == name);
                } else {
                    assert(now[before.len() as int].name == name);
                }
            }
        }
        assert forall|a: int, b: int, i: int, j: int|
            0 <= a < b < now.len() && #[trigger] is_filed_by(now[a], tokens, i)
                && #[trigger] is_filed_by(now[b], tokens, j) implies i < j by {
            assert(now[a] == before[a]);
            let m = choose|m: int| is_filed_by(before[a], tokens, m) && m < last;
            assert(i == m) by {
                if i < m {
                    assert(gives(tokens[i], now[a].name));
                } else if m < i {
                    assert(gives(tokens[m], now[a].name));
                }
            }
            assert(i < last);
            assert(is_filed_by(before[a], rest, i)) by {
                assert forall|h: int| 0 <= h < i implies !gives(#[trigger] rest[h], before[a].name) by {
                    assert(rest[h] == tokens[h]);
                }
            }
            if b < before.len() {
                let n = choose|n: int| is_filed_by(before[b], tokens, n) && n < last;
                assert(j == n) by {
                    if j < n {
                        assert(gives(tokens[j], now[b].name));
                    } else if n < j {
                        assert(gives(tokens[n], now[b].name));
                    }
                }
                assert(is_filed_by(before[b], rest, j)) by {
                    assert forall|h: int| 0 <= h < j implies !gives(
                        #[trigger] rest[h],
                        before[b].name,
                    ) by {
                        assert(rest[h] == tokens[h]);
                    }
                }
            } else {
                if j < last {
                    assert(rest[j] == tokens[j]);
                    assert(gives(rest[j], now[b].name));
                    let h = choose|h: int|
                        0 <= h < before.len() && (#[trigger] before[h]).name == now[b].name;
                    assert(has_name(before, now[b].name));
                }
            }
        }
    }
}

/// A tag is an artist's exactly where the first token that gives its name starts with
/// `artist:`. Any other is a character's where the prompt is one's, and general
/// elsewhere.
pub proof fn law_artists_are_marked(text: Seq<char>, source: Seq<char>, k: int) -> (j: int)
    requires
        0 <= k < normalized(text, source).len(),
    ensures
        normalized(text, source)[k].source == source,
        is_filed_by(normalized(text, source)[k], tokens_of(without_weights(text)), j),
{
    let tokens = tokens_of(without_weights(text));
    lemma_filed(tokens, source);
    choose|j: int| is_filed_by(normalized(text, source)[k], tokens, j)
}

/// Every token that gives a name has a tag.
pub proof fn law_every_token_has_its_tag(
    text: Seq<char>,
    source: Seq<char>,
    i: int,
    name: Seq<char>,
) -> (k: int)
    requires
        0 <= i < tokens_of(without_weights(text)).len(),
        gives(tokens_of(without_weights(text))[i], name),
        name.len() > 0,
    ensures
        0 <= k < normalized(text, source).len(),
        normalized(text, source)[k].name == name,
{
    let tokens = tokens_of(without_weights(text));
    lemma_filed(tokens, source);
    choose|k: int| 0 <= k < normalized(text, source).len() && normalized(text, source)[k].name == name
}

/// Tags stand in the order of the first tokens that give their names.
pub proof fn law_tags_keep_the_order_of_tokens(
    text: Seq<char>,
    source: Seq<char>,
    a: int,
    b: int,
    i: int,
    j: int,
)
    requires
        0 <= a < b < normalized(text, source).len(),
        first_gives(tokens_of(without_weights(text)), normalized(text, source)[a].name, i),
        first_gives(tokens_of(without_weights(text)), normalized(text, source)[b].name, j),
    ensures
        i < j,
{
    let tokens = tokens_of(without_weights(text));
    lemma_filed(tokens, source);
    let m = law_artists_are_marked(text, source, a);
    let n = law_artists_are_marked(text, source, b);
    lemma_first_is_one(tokens, normalized(text, source)[a].name, i, m);
    lemma_first_is_one(tokens, normalized(text, source)[b].name, j, n);
}

proof fn lemma_first_is_one(tokens: Seq<Seq<char>>, name: Seq<char>, i: int, j: int)
    requires
        first_gives(tokens, name, i),
        first_gives(tokens, name, j),
    ensures
        i == j,
{
    if i < j {
        assert(gives(tokens[i], name));
    } else if j < i {
        assert(gives(tokens[j], name));
    }
}

// ---------------------------------------------------------------------------
// Texts that mark no artist
// ---------------------------------------------------------------------------

/// Whether the characters from `i` on are those that mark an artist, in any case.
pub open spec fn marks_artist_at(s: Seq<char>, i: int) -> bool {
    &&& 0 <= i
    &&& i + 7 <= s.len()
    &&& s[i] == 'a' || s[i] == 'A'
    &&& s[i + 1] == 'r' || s[i + 1] == 'R'
    &&& s[i + 2] == 't' || s[i + 2] == 'T'
    &&& s[i + 3] == 'i' || s[i + 3] == 'I'
    &&& s[i + 4] == 's' || s[i + 4] == 'S'
    &&& s[i + 5] == 't' || s[i + 5] == 'T'
    &&& s[i + 6] == ':'
}

/// What stands at the end of a text without stray white space, and has no white space
/// itself, stands at the end of the text.
proof fn lemma_word_at_end(s: Seq<char>, n: int)
    requires
        s.len() > 0,
        !is_white(s.last()),
        0 <= n <= collapsed(s).len(),
        forall|i: int|
            collapsed(s).len() - n <= i < collapsed(s).len() ==> !is_white(
                #[trigger] collapsed(s)[i],
            ),
    ensures
        n <= s.len(),
        forall|i: int|
            0 <= i < n ==> #[trigger] s[s.len() - n + i] == collapsed(s)[collapsed(s).len() - n + i],
    decreases s.len(),
{
    let now = collapsed(s);
    lemma_collapsed_step(s);
    if n >= 2 {
        let rest = s.drop_last();
        let before = collapsed(rest);
        assert(!is_white(now[now.len() - 2]));
        if s.len() == 1 {
            assert(words(rest) =~= Seq::<Seq<char>>::empty());
            assert(before =~= Seq::<char>::empty());
        }
        assert(s.len() > 1 && !is_white(s[s.len() - 2]));
        assert(now == before.push(s.last()));
        assert forall|i: int| before.len() - (n - 1) <= i < before.len() implies !is_white(
            #[trigger] before[i],
        ) by {
            assert(now[i] == before[i]);
        }
        lemma_word_at_end(rest, n - 1);
        assert forall|i: int| 0 <= i < n implies #[trigger] s[s.len() - n + i] == now[now.len() - n
            + i] by {
            if i < n - 1 {
                assert(rest[rest.len() - (n - 1) + i] == before[before.len() - (n - 1) + i]);
            }
        }
    }
}

/// What has no white space and stands in a text without stray white space stands in
/// the text.
proof fn lemma_word_inside(s: Seq<char>, at: int, n: int) -> (from: int)
    requires
        0 <= at,
        0 < n,
        at + n <= collapsed(s).len(),
        forall|i: int| at <= i < at + n ==> !is_white(#[trigger] collapsed(s)[i]),
    ensures
        0 <= from,
        from + n <= s.len(),
        forall|i: int| 0 <= i < n ==> #[trigger] s[from + i] == collapsed(s)[at + i],
    decreases s.len(),
{
    let now = collapsed(s);
    if s.len() == 0 {
        assert(words(s) =~= Seq::<Seq<char>>::empty());
        assert(now =~= Seq::<char>::empty());
        0
    } else {
        let rest = s.drop_last();
        let before = collapsed(rest);
        lemma_collapsed_step(s);
        if s.len() == 1 {
            assert(words(rest) =~= Seq::<Seq<char>>::empty());
            assert(before =~= Seq::<char>::empty());
        }
        if at + n <= before.len() {
            assert forall|i: int| at <= i < at + n implies !is_white(#[trigger] before[i]) by {
                assert(now[i] == before[i]);
            }
            let from = lemma_word_inside(rest, at, n);
            assert forall|i: int| 0 <= i < n implies #[trigger] s[from + i] == now[at + i] by {
                assert(rest[from + i] == before[at + i]);
            }
            from
        } else {
            assert(!is_white(s.last()));
            assert(at + n == now.len()) by {
                if at + n < now.len() {
                    assert(now == before.push(' ').push(s.last()));
                    assert(now[at + n - 1] == ' ');
                    assert(is_white(' '));
                }
            }
            lemma_word_at_end(s, n);
            let from = s.len() - n;
            assert forall|i: int| 0 <= i < n implies #[trigger] s[from + i] == now[at + i] by {
                assert(s[s.len() - n + i] == now[now.len() - n + i]);
            }
            from
        }
    }
}

/// A token that marks an artist comes from a piece that does.
proof fn lemma_marked_piece(piece: Seq<char>) -> (from: int)
    requires
        is_ascii_chars(piece),
        is_marked(lowercased(collapsed(piece))),
    ensures
        marks_artist_at(piece, from),
{
    let plain = collapsed(piece);
    lemma_collapsed(piece, ascii_kind());
    assert(made_of(piece, ascii_kind())) by {
        assert forall|i: int| 0 <= i < piece.len() implies ascii_kind()(
            #[trigger] piece[i],
        ) by {}
    }
    assert(is_ascii_chars(plain)) by {
        assert forall|i: int| 0 <= i < plain.len() implies '\0' <= #[trigger] plain[i] <= '\u{7f}' by {
            assert(ascii_kind()(plain[i]));
        }
    }
    let token = lowered(plain);
    assert(token.len() == plain.len());
    reveal_strlit("artist:");
    let mark = "artist:"@;
    assert forall|i: int| 0 <= i < 7 implies ascii_lower(#[trigger] plain[i]) == mark[i] by {
        assert(token[i] == ascii_lower(plain[i]));
        assert(token.take(7)[i] == token[i]);
    }
    assert forall|i: int| 0 <= i < 7 implies !is_white(#[trigger] plain[i]) by {
        assert(ascii_lower(plain[i]) == mark[i]);
    }
    let from = lemma_word_inside(piece, 0, 7);
    assert(forall|i: int| 0 <= i < 7 ==> #[trigger] piece[from + i] == plain[0 + i]);
    assert(piece[from + 0] == plain[0]);
    assert(piece[from + 1] == plain[1]);
    assert(piece[from + 2] == plain[2]);
    assert(piece[from + 3] == plain[3]);
    assert(piece[from + 4] == plain[4]);
    assert(piece[from + 5] == plain[5]);
    assert(piece[from + 6] == plain[6]);
    lemma_lower_is(plain[0], 'a', 'A');
    lemma_lower_is(plain[1], 'r', 'R');
    lemma_lower_is(plain[2], 't', 'T');
    lemma_lower_is(plain[3], 'i', 'I');
    lemma_lower_is(plain[4], 's', 'S');
    lemma_lower_is(plain[5], 't', 'T');
    assert(plain[6] == ':');
    from
}

proof fn lemma_lower_is(c: char, low: char, high: char)
    requires
        ascii_lower(c) == low,
        'a' <= low <= 'z',
        high as u32 + 32 == low as u32,
    ensures
        c == low || c == high,
{
}

/// The tags of an ASCII text in which `artist:` does not stand, in any case, once its
/// weights and pairs of colons are taken out, are all characters' where the prompt is
/// one's, and general elsewhere.
pub proof fn law_unmarked_texts_have_no_artists(text: Seq<char>, source: Seq<char>, k: int)
    requires
        is_ascii_chars(without_colon_pairs(without_weights(text))),
        forall|i: int| !#[trigger] marks_artist_at(without_colon_pairs(without_weights(text)), i),
        0 <= k < normalized(text, source).len(),
    ensures
        source == "char"@ ==> normalized(text, source)[k].category == "char"@,
        source != "char"@ ==> normalized(text, source)[k].category == "general"@,
{
    let flat = without_colon_pairs(without_weights(text));
    let j = law_artists_are_marked(text, source, k);
    let tokens = tokens_of(without_weights(text));
    let all = pieces(flat, ',');
    lemma_pieces(flat, ',');
    lemma_words_differ();
    if is_marked(tokens[j]) {
        let piece = all[j];
        assert(tokens[j] == lowercased(collapsed(piece)));
        assert(is_part(piece, flat));
        let (a, b) = choose|a: int, b: int|
            0 <= a <= b <= flat.len() && piece == #[trigger] flat.subrange(a, b);
        assert(is_ascii_chars(piece)) by {
            assert forall|i: int| 0 <= i < piece.len() implies '\0' <= #[trigger] piece[i]
                <= '\u{7f}' by {
                assert(piece[i] == flat[a + i]);
            }
        }
        let from = lemma_marked_piece(piece);
        assert(piece[from] == flat[a + from]);
        assert(piece[from + 1] == flat[a + from + 1]);
        assert(piece[from + 2] == flat[a + from + 2]);
        assert(piece[from + 3] == flat[a + from + 3]);
        assert(piece[from + 4] == flat[a + from + 4]);
        assert(piece[from + 5] == flat[a + from + 5]);
        assert(piece[from + 6] == flat[a + from + 6]);
        assert(marks_artist_at(flat, a + from));
    }
}

/// In particular those of an ASCII text without pairs of colons in which `artist:`
/// does not stand, in any case.
pub proof fn law_plain_texts_have_no_artists(text: Seq<char>, source: Seq<char>, k: int)
    requires
        is_ascii_chars(text),
        !has_colon_pair(text),
        forall|i: int| !#[trigger] marks_artist_at(text, i),
        0 <= k < normalized(text, source).len(),
    ensures
        source == "char"@ ==> normalized(text, source)[k].category == "char"@,
        source != "char"@ ==> normalized(text, source)[k].category == "general"@,
{
    lemma_no_weights(text, 0, false);
    assert(text.skip(0) =~= text);
    lemma_no_colon_pairs(text);
    law_unmarked_texts_have_no_artists(text, source, k);
}

// ---------------------------------------------------------------------------
// Lists of names
// ---------------------------------------------------------------------------

/// The name in an entry of a list: what follows the mark of an artist, or the entry.
pub open spec fn entry_name(entry: Seq<char>) -> Seq<char> {
    if is_marked(entry) {
        entry.skip(7)
    } else {
        entry
    }
}

/// Whether an entry of a list is written as a name, or as one behind the mark of an
/// artist.
pub open spec fn is_entry(entry: Seq<char>) -> bool {
    &&& is_name(entry)
    &&& entry_name(entry).len() > 0
    &&& !is_white(entry_name(entry)[0])
}

/// The tag of an entry.
pub open spec fn entry_tag(entry: Seq<char>, source: Seq<char>) -> TagModel {
    TagModel {
        name: entry_name(entry),
        category: if is_marked(entry) {
            "artist"@
        } else if source == "char"@ {
            "char"@
        } else {
            "general"@
        },
        source,
    }
}

/// A list of different names, some of them marked as artists', with commas between
/// them, has exactly the tags of its entries, in their order.
pub proof fn law_lists_keep_their_names(entries: Seq<Seq<char>>, source: Seq<char>)
    requires
        entries.len() > 0,
        forall|k: int| 0 <= k < entries.len() ==> is_entry(#[trigger] entries[k]),
        forall|i: int, j: int|
            0 <= i < j < entries.len() ==> entry_name(#[trigger] entries[i]) != entry_name(
                #[trigger] entries[j],
            ),
    ensures
        normalized(joined(entries, ", "@), source) == Seq::new(
            entries.len(),
            |k: int| entry_tag(entries[k], source),
        ),
{
    let list = joined(entries, ", "@);
    assert forall|k: int| 0 <= k < entries.len() implies is_name(#[trigger] entries[k]) by {
        assert(is_entry(entries[k]));
    }
    lemma_list(entries);
    lemma_no_weights(list, 0, false);
    assert(list.skip(0) =~= list);
    lemma_no_colon_pairs(list);
    lemma_list_tokens(entries);
    lemma_entries(entries, source);
}

proof fn lemma_entries(entries: Seq<Seq<char>>, source: Seq<char>)
    requires
        forall|k: int| 0 <= k < entries.len() ==> is_entry(#[trigger] entries[k]),
        forall|i: int, j: int|
            0 <= i < j < entries.len() ==> entry_name(#[trigger] entries[i]) != entry_name(
                #[trigger] entries[j],
            ),
    ensures
        tags_of(entries, source) == Seq::new(
            entries.len(),
            |k: int| entry_tag(entries[k], source),
        ),
    decreases entries.len(),
{
    let all = Seq::new(entries.len(), |k: int| entry_tag(entries[k], source));
    if entries.len() == 0 {
        assert(tags_of(entries, source) =~= all);
    } else {
        let rest = entries.drop_last();
        let last = entries.len() - 1;
        let entry = entries[last];
        assert forall|k: int| 0 <= k < rest.len() implies #[trigger] rest[k] == entries[k] by {}
        lemma_entries(rest, source);
        let before = tags_of(rest, source);
        lemma_words_differ();
        assert(is_entry(entry));
        let name = entry_name(entry);
        if is_marked(entry) {
            assert(name.last() == entry.last());
            assert(trimmed_start(name) == name);
            assert(trimmed_end(name) == name);
        }
        let t = token_tag(entry, source);
        assert(t == Some((name, entry_tag(entry, source).category)));
        assert(!has_name(before, name)) by {
            if has_name(before, name) {
                let k = choose|k: int| 0 <= k < before.len() && (#[trigger] before[k]).name == name;
                assert(before[k] == entry_tag(rest[k], source));
                assert(entry_name(entries[k]) != entry_name(entries[last]));
            }
        }
        assert(before.push(entry_tag(entry, source)) =~= all);
    }
}

} // verus!
