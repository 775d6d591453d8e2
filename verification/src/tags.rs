//! Prompts as danbooru-style tags.

use crate::prompts::lemma_list_stays;
use crate::text::{
    chars_of, collapse, collapsed, drop_colon_pairs, has_colon_pair, has_prefix, is_settled,
    joined, lowercased, pieces, same_text, split, starts_with, text_of, trim, trimmed,
    without_colon_pairs,
};
use crate::text::{
    ascii_kind, lemma_collapsed, lemma_part, lemma_pieces, lemma_trimmed,
    lemma_without_colon_pairs, made_of,
};
use crate::tidy::{
    is_tidy, lemma_collapsed_is_tidy, lemma_part_is_tidy, lemma_same_outline, lemma_trimmed_ends,
};
use crate::weights::{strip_weights, without_weights};
use vstd::prelude::*;

verus! {

/// A tag of an image.
pub struct Tag {
    pub name: String,
    /// `general`, `artist` or `char`.
    pub category: String,
    /// `base`, `char`, `negative` or `user`.
    pub source: String,
}

/// The mathematical form of a tag.
pub struct TagModel {
    pub name: Seq<char>,
    pub category: Seq<char>,
    pub source: Seq<char>,
}

impl Tag {
    /// The mathematical form.
    pub open spec fn model(self) -> TagModel {
        TagModel { name: self.name@, category: self.category@, source: self.source@ }
    }
}

/// The mathematical form of a list of tags.
pub open spec fn tag_models(v: Seq<Tag>) -> Seq<TagModel> {
    v.map_values(|t: Tag| t.model())
}

/// The prefix of an artist's name.
pub const ARTIST_PREFIX: &'static str = "artist:";

/// The name and category of the tag that a token of a prompt stands for. An empty
/// token, or an artist's prefix alone, stands for none.
pub open spec fn token_tag(token: Seq<char>, source: Seq<char>) -> Option<(Seq<char>, Seq<char>)> {
    let (name, category) = if has_prefix(token, ARTIST_PREFIX@) {
        (trimmed(token.skip(ARTIST_PREFIX@.len() as int)), "artist"@)
    } else if source == "char"@ {
        (token, "char"@)
    } else {
        (token, "general"@)
    };
    if token.len() == 0 || name.len() == 0 {
        None
    } else {
        Some((name, category))
    }
}

/// Whether a text can be a token: it has no commas, no pairs of colons and no stray
/// white space, and is in lower case, as are its parts.
pub open spec fn is_token(token: Seq<char>) -> bool {
    &&& !token.contains(',')
    &&& !has_colon_pair(token)
    &&& is_tidy(token)
    &&& is_settled(token)
}

/// Whether a text can be the name of a tag: it is not empty, is free of what prompts
/// are written with, commas between tags, colons in pairs and stray white space, and
/// is in lower case.
pub open spec fn is_name(name: Seq<char>) -> bool {
    &&& name.len() > 0
    &&& !name.contains(',')
    &&& !has_colon_pair(name)
    &&& is_tidy(name)
    &&& lowercased(name) == name
}

/// Whether a tag of the list has the given name.
pub open spec fn has_name(tags: Seq<TagModel>, name: Seq<char>) -> bool {
    exists|k: int| 0 <= k < tags.len() && (#[trigger] tags[k]).name == name
}

/// The tags of the tokens, in their order, each name once.
pub open spec fn tags_of(tokens: Seq<Seq<char>>, source: Seq<char>) -> Seq<TagModel>
    decreases tokens.len(),
{
    if tokens.len() == 0 {
        Seq::empty()
    } else {
        let before = tags_of(tokens.drop_last(), source);
        match token_tag(tokens.last(), source) {
            Some((name, category)) => if has_name(before, name) {
                before
            } else {
                before.push(TagModel { name, category, source })
            },
            None => before,
        }
    }
}

/// The tokens of a prompt from which the weights were taken: what stands between
/// its commas, without stray white space and in lower case.
pub open spec fn tokens_of(text: Seq<char>) -> Seq<Seq<char>> {
    pieces(without_colon_pairs(text), ',').map_values(|p: Seq<char>| lowercased(collapsed(p)))
}

/// The tags of a prompt from which the weights were taken.
pub open spec fn plain_tags(text: Seq<char>, source: Seq<char>) -> Seq<TagModel> {
    tags_of(tokens_of(text), source)
}

/// The tags of a prompt.
pub open spec fn normalized(text: Seq<char>, source: Seq<char>) -> Seq<TagModel> {
    plain_tags(without_weights(text), source)
}

/// Whether a tag of the list has the given name.
fn contains_name(tags: &Vec<Tag>, name: &str) -> (r: bool)
    ensures
        r == has_name(tag_models(tags@), name@),
{
    let mut i: usize = 0;
    while i < tags.len()
        invariant
            i <= tags@.len(),
            forall|k: int| 0 <= k < i ==> (#[trigger] tags@[k]).name@ != name@,
        decreases tags@.len() - i,
    {
        if same_text(tags[i].name.as_str(), name) {
            assert(tag_models(tags@)[i as int].name == name@);
            return true;
        }
        i += 1;
    }
    assert forall|k: int| 0 <= k < tag_models(tags@).len() implies (#[trigger] tag_models(
        tags@,
    )[k]).name != name@ by {
        assert(tags@[k].name@ != name@);
    }
    false
}

/// The token that a piece of a prompt stands for.
fn token_of(piece: &Vec<char>) -> (r: String)
    requires
        !piece@.contains(','),
        !has_colon_pair(piece@),
    ensures
        r@ == lowercased(collapsed(piece@)),
        is_token(r@),
{
    let plain = text_of(&collapse(piece));
    let r = plain.as_str().to_lowercase();
    proof {
        lemma_plain_piece(piece@);
        lemma_same_outline(r@, plain@);
    }
    r
}

proof fn lemma_plain_piece(piece: Seq<char>)
    requires
        !piece.contains(','),
        !has_colon_pair(piece),
    ensures
        !collapsed(piece).contains(','),
        !has_colon_pair(collapsed(piece)),
        is_tidy(collapsed(piece)),
{
    let plain = collapsed(piece);
    let other = |c: char| c != ',';
    assert(made_of(piece, other)) by {
        assert forall|i: int| 0 <= i < piece.len() implies other(#[trigger] piece[i]) by {
            if piece[i] == ',' {
                assert(piece.contains(','));
            }
        }
    }
    lemma_collapsed(piece, other);
    lemma_collapsed_is_tidy(piece);
    if plain.contains(',') {
        let i = choose|i: int| 0 <= i < plain.len() && plain[i] == ',';
        assert(other(plain[i]));
    }
}

/// The name and category of the tag that a token stands for.
fn read_token(token: String, source: &str) -> (r: Option<(String, String)>)
    ensures
        match r {
            Some(t) => token_tag(token@, source@) == Some((t.0@, t.1@)),
            None => token_tag(token@, source@) is None,
        },
{
    if token.as_str().is_empty() {
        return None;
    }
    let token_chars = chars_of(token.as_str());
    let prefix = chars_of(ARTIST_PREFIX);
    if starts_with(&token_chars, &prefix) {
        let mut rest: Vec<char> = Vec::new();
        let mut i: usize = prefix.len();
        while i < token_chars.len()
            invariant
                prefix@.len() <= i <= token_chars@.len(),
                rest@ == token_chars@.subrange(prefix@.len() as int, i as int),
            decreases token_chars@.len() - i,
        {
            rest.push(token_chars[i]);
            i += 1;
            assert(token_chars@.subrange(prefix@.len() as int, i as int) == token_chars@.subrange(
                prefix@.len() as int,
                i - 1,
            ).push(token_chars@[i - 1]));
        }
        assert(rest@ == token_chars@.skip(prefix@.len() as int));
        let name = trim(&rest);
        if name.len() == 0 {
            return None;
        }
        Some((text_of(&name), "artist".to_owned()))
    } else if same_text(source, "char") {
        Some((token, "char".to_owned()))
    } else {
        Some((token, "general".to_owned()))
    }
}

/// The pieces of a prompt have no commas and no pairs of colons.
proof fn lemma_plain_pieces(text: Seq<char>)
    ensures
        forall|k: int|
            0 <= k < pieces(without_colon_pairs(text), ',').len() ==> {
                &&& !(#[trigger] pieces(without_colon_pairs(text), ',')[k]).contains(',')
                &&& !has_colon_pair(pieces(without_colon_pairs(text), ',')[k])
            },
{
    let flat = without_colon_pairs(text);
    let all = pieces(flat, ',');
    lemma_without_colon_pairs(text, ascii_kind());
    lemma_pieces(flat, ',');
    assert forall|k: int| 0 <= k < all.len() implies !(#[trigger] all[k]).contains(',')
        && !has_colon_pair(all[k]) by {
        lemma_part(all[k], flat, ascii_kind());
    }
}

/// The name of the tag that a token stands for can be one.
proof fn lemma_token_name(token: Seq<char>, source: Seq<char>)
    requires
        is_token(token),
    ensures
        token_tag(token, source) matches Some(t) ==> is_name(t.0),
{
    let n = ARTIST_PREFIX@.len() as int;
    if has_prefix(token, ARTIST_PREFIX@) {
        let rest = token.skip(n);
        let name = trimmed(rest);
        lemma_trimmed(rest);
        lemma_trimmed_ends(rest);
        let (a, b) = choose|a: int, b: int|
            0 <= a <= b <= rest.len() && name == #[trigger] rest.subrange(a, b);
        assert(name =~= token.subrange(a + n, b + n));
        lemma_part(name, token, ascii_kind());
        lemma_part_is_tidy(name, token);
        assert(!name.contains(',')) by {
            if name.contains(',') {
                let i = choose|i: int| 0 <= i < name.len() && name[i] == ',';
                assert(token[a + n + i] == ',');
            }
        }
    } else {
        assert(token =~= token.subrange(0, token.len() as int));
    }
}

/// The tags of a prompt have different names, none of them empty, and the source
/// that they were read with. Tags of characters are filed under characters, but for
/// artists.
pub proof fn law_tags_are_distinct(text: Seq<char>, source: Seq<char>)
    ensures
        forall|i: int, j: int|
            0 <= i < j < normalized(text, source).len() ==> (#[trigger] normalized(
                text,
                source,
            )[i]).name != (#[trigger] normalized(text, source)[j]).name,
        forall|i: int|
            0 <= i < normalized(text, source).len() ==> is_filed(
                #[trigger] normalized(text, source)[i],
                source,
            ),
{
    lemma_tags_of(tokens_of(without_weights(text)), source);
}

/// Whether a tag has a name, the source, and a category that goes with it.
pub open spec fn is_filed(tag: TagModel, source: Seq<char>) -> bool {
    &&& tag.name.len() > 0
    &&& tag.source == source
    &&& tag.category == "artist"@ || tag.category == if source == "char"@ {
        "char"@
    } else {
        "general"@
    }
}

/// The names of tags.
pub open spec fn names_of(tags: Seq<TagModel>) -> Seq<Seq<char>> {
    tags.map_values(|t: TagModel| t.name)
}

/// The same text gives the same names wherever it comes from, so that what a user
/// writes merges with what prompts say.
pub proof fn law_names_do_not_depend_on_source(text: Seq<char>, a: Seq<char>, b: Seq<char>)
    ensures
        names_of(normalized(text, a)) == names_of(normalized(text, b)),
{
    lemma_same_names(tokens_of(without_weights(text)), a, b);
}

proof fn lemma_same_names(tokens: Seq<Seq<char>>, a: Seq<char>, b: Seq<char>)
    ensures
        names_of(tags_of(tokens, a)) == names_of(tags_of(tokens, b)),
    decreases tokens.len(),
{
    if tokens.len() > 0 {
        let rest = tokens.drop_last();
        lemma_same_names(rest, a, b);
        let x = tags_of(rest, a);
        let y = tags_of(rest, b);
        assert forall|name: Seq<char>| has_name(x, name) == has_name(y, name) by {
            lemma_has_name(x, name);
            lemma_has_name(y, name);
        }
        let s = token_tag(tokens.last(), a);
        let t = token_tag(tokens.last(), b);
        assert((s is Some) == (t is Some));
        if s is Some {
            let name = (s->0).0;
            assert((t->0).0 == name);
            assert(has_name(x, name) == has_name(y, name));
            if !has_name(x, name) {
                let m = TagModel { name, category: (s->0).1, source: a };
                let n = TagModel { name, category: (t->0).1, source: b };
                assert(tags_of(tokens, a) == x.push(m));
                assert(tags_of(tokens, b) == y.push(n));
                assert(names_of(x.push(m)) =~= names_of(x).push(name));
                assert(names_of(y.push(n)) =~= names_of(y).push(name));
            }
        }
    } else {
        assert(names_of(tags_of(tokens, a)) =~= names_of(tags_of(tokens, b)));
    }
}

/// A list has a name where it stands among its names.
pub proof fn lemma_has_name(tags: Seq<TagModel>, name: Seq<char>)
    ensures
        has_name(tags, name) == names_of(tags).contains(name),
{
    if has_name(tags, name) {
        let k = choose|k: int| 0 <= k < tags.len() && (#[trigger] tags[k]).name == name;
        assert(names_of(tags)[k] == name);
    }
    if names_of(tags).contains(name) {
        let k = choose|k: int| 0 <= k < names_of(tags).len() && names_of(tags)[k] == name;
        assert(tags[k].name == name);
    }
}

/// The names of a list are different, and its tags are filed.
pub proof fn lemma_tags_of(tokens: Seq<Seq<char>>, source: Seq<char>)
    ensures
        forall|i: int, j: int|
            0 <= i < j < tags_of(tokens, source).len() ==> (#[trigger] tags_of(
                tokens,
                source,
            )[i]).name != (#[trigger] tags_of(tokens, source)[j]).name,
        forall|i: int|
            0 <= i < tags_of(tokens, source).len() ==> is_filed(
                #[trigger] tags_of(tokens, source)[i],
                source,
            ),
    decreases tokens.len(),
{
    if tokens.len() > 0 {
        lemma_tags_of(tokens.drop_last(), source);
        let before = tags_of(tokens.drop_last(), source);
        let now = tags_of(tokens, source);
        assert forall|i: int, j: int| 0 <= i < j < now.len() implies (#[trigger] now[i]).name != (
        #[trigger] now[j]).name by {
            if j == before.len() {
                assert(now[i] == before[i]);
            }
        }
    }
}

/// The tags of a prompt from which the weights were taken.
pub fn tags_of_plain(text: &str, source: &str) -> (r: Vec<Tag>)
    ensures
        tag_models(r@) == plain_tags(text@, source@),
        forall|k: int| 0 <= k < r@.len() ==> is_name((#[trigger] r@[k]).name@),
{
    let flat = drop_colon_pairs(&chars_of(text));
    let parts = split(&flat, ',');
    let ghost all = pieces(flat@, ',');
    let ghost tokens = tokens_of(text@);
    let mut out: Vec<Tag> = Vec::new();
    let mut i: usize = 0;
    assert(tag_models(out@) == tags_of(tokens.take(0), source@));
    proof {
        lemma_plain_pieces(text@);
    }
    while i < parts.len()
        invariant
            all == pieces(without_colon_pairs(text@), ','),
            tokens == tokens_of(text@),
            forall|k: int|
                0 <= k < all.len() ==> !(#[trigger] all[k]).contains(',') && !has_colon_pair(all[k]),
            forall|k: int| 0 <= k < out@.len() ==> is_name((#[trigger] out@[k]).name@),
            i <= parts@.len(),
            parts@.len() == all.len(),
            forall|k: int| 0 <= k < parts@.len() ==> (#[trigger] parts@[k])@ == all[k],
            tag_models(out@) == tags_of(tokens.take(i as int), source@),
        decreases parts@.len() - i,
    {
        let ghost before = out@;
        assert(parts@[i as int]@ == all[i as int]);
        let token = token_of(&parts[i]);
        assert(token@ == tokens[i as int]);
        proof {
            lemma_token_name(token@, source@);
        }
        let read = read_token(token, source);
        i += 1;
        assert(tokens.take(i as int).drop_last() == tokens.take(i - 1));
        if let Some((name, category)) = read {
            if !contains_name(&out, name.as_str()) {
                let tag = Tag { name, category, source: source.to_owned() };
                out.push(tag);
                assert(tag_models(out@) == tag_models(before).push(tag.model()));
            }
        }
    }
    assert(tokens.take(tokens.len() as int) == tokens);
    out
}

/// Whether no tag of a list has a name with the artist's prefix.
pub open spec fn is_unprefixed(tags: Seq<TagModel>) -> bool {
    forall|k: int|
        0 <= k < tags.len() ==> !has_prefix((#[trigger] tags[k]).name, ARTIST_PREFIX@)
}

/// The tags of a prompt fragment: takes out the weight syntax
/// (`0.5::tag a, tag b::`), splits at commas, lowers case, and files names with
/// the prefix `artist:` under the artists. A number that belongs to a tag stays:
/// `1::year 2025::` is the tag `year 2025`.
///
/// Normalizing is done once: the names, written as a list, are normalized to the same
/// names, unless one starts with the artist's prefix itself.
pub fn normalize_tags(text: &str, source: &str) -> (r: Vec<Tag>)
    ensures
        tag_models(r@) == normalized(text@, source@),
        forall|k: int| 0 <= k < r@.len() ==> is_name((#[trigger] r@[k]).name@),
        is_unprefixed(tag_models(r@)) ==> names_of(
            normalized(joined(names_of(tag_models(r@)), ", "@), source@),
        ) == names_of(tag_models(r@)),
{
    let plain = strip_weights(text);
    let r = tags_of_plain(plain.as_str(), source);
    proof {
        let tags = tag_models(r@);
        let names = names_of(tags);
        lemma_tags_of(tokens_of(plain@), source@);
        assert forall|k: int| 0 <= k < names.len() implies is_name(#[trigger] names[k]) by {
            assert(names[k] == r@[k].name@);
        }
        assert forall|i: int, j: int| 0 <= i < j < names.len() implies #[trigger] names[i]
            != #[trigger] names[j] by {
            assert(names[i] == tags[i].name);
            assert(names[j] == tags[j].name);
        }
        if is_unprefixed(tags) {
            assert forall|k: int| 0 <= k < names.len() implies !has_prefix(
                #[trigger] names[k],
                ARTIST_PREFIX@,
            ) by {
                assert(names[k] == tags[k].name);
            }
            lemma_list_stays(names, source@);
        }
    }
    r
}

} // verus!
