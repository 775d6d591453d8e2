//! What holds of the metadata in a file, said of the keywords and texts in it and of
//! the members of its comment.

use crate::json::{first_for, json_document, JsonModel};
use crate::nai::{
    alpha_bit, alpha_byte, alpha_bytes, character_tags, commented, hidden_metadata, hidden_payload,
    metadata_of, parsed, stealth_of, text_members, NaiMetadata, NaiModel,
};
use crate::pixels::Bitmap;
use crate::png::{be32, chunks_from, entries_of, header_of, is_png};
use crate::store::ParsedFile;
use crate::tags::{normalized, TagModel};
use crate::text::opt_text;
use vstd::prelude::*;
use vstd::utf8::encode_utf8;

verus! {

/// Whether the pair with the index `k` is the first with the given key.
pub open spec fn is_first<V>(pairs: Seq<(Seq<char>, V)>, key: Seq<char>, k: int) -> bool {
    &&& 0 <= k < pairs.len()
    &&& pairs[k].0 == key
    &&& forall|j: int| 0 <= j < k ==> (#[trigger] pairs[j]).0 != key
}

/// Whether no pair has the given key.
pub open spec fn lacks<V>(pairs: Seq<(Seq<char>, V)>, key: Seq<char>) -> bool {
    forall|j: int| 0 <= j < pairs.len() ==> (#[trigger] pairs[j]).0 != key
}

/// Whether the first pair with the given key has the given value.
pub open spec fn says<V>(pairs: Seq<(Seq<char>, V)>, key: Seq<char>, value: V) -> bool {
    exists|k: int| #[trigger] is_first(pairs, key, k) && pairs[k].1 == value
}

proof fn lemma_first<V>(pairs: Seq<(Seq<char>, V)>, key: Seq<char>)
    ensures
        lacks(pairs, key) ==> first_for(pairs, key) is None,
        forall|k: int| #[trigger]
            is_first(pairs, key, k) ==> first_for(pairs, key) == Some(pairs[k].1),
        forall|v: V| #[trigger] says(pairs, key, v) <==> first_for(pairs, key) == Some(v),
        lacks(pairs, key) <==> first_for(pairs, key) is None,
    decreases pairs.len(),
{
    if pairs.len() > 0 {
        let rest = pairs.skip(1);
        lemma_first(rest, key);
        assert forall|j: int| 0 <= j < rest.len() implies #[trigger] rest[j] == pairs[j + 1] by {}
        if pairs[0].0 == key {
            assert(is_first(pairs, key, 0));
            assert(!lacks(pairs, key));
            assert forall|k: int| #[trigger] is_first(pairs, key, k) implies k == 0 by {
                if k > 0 {
                    assert(pairs[0].0 != key);
                }
            }
        } else {
            assert forall|k: int| #[trigger] is_first(pairs, key, k) implies is_first(
                rest,
                key,
                k - 1,
            ) by {
                assert forall|j: int| 0 <= j < k - 1 implies (#[trigger] rest[j]).0 != key by {
                    assert(pairs[j + 1].0 != key);
                }
            }
            assert forall|k: int| #[trigger] is_first(rest, key, k) implies is_first(
                pairs,
                key,
                k + 1,
            ) by {
                assert(rest[k] == pairs[k + 1]);
                assert forall|j: int| 0 <= j < k + 1 implies (#[trigger] pairs[j]).0 != key by {
                    if j > 0 {
                        assert(rest[j - 1].0 != key);
                    }
                }
            }
            assert(lacks(pairs, key) <==> lacks(rest, key)) by {
                if lacks(rest, key) {
                    assert forall|j: int| 0 <= j < pairs.len() implies (#[trigger] pairs[j]).0
                        != key by {
                        if j > 0 {
                            assert(rest[j - 1].0 != key);
                        }
                    }
                }
                if lacks(pairs, key) {
                    assert forall|j: int| 0 <= j < rest.len() implies (#[trigger] rest[j]).0
                        != key by {
                        assert(pairs[j + 1].0 != key);
                    }
                }
            }
            assert forall|v: V| #[trigger] says(pairs, key, v) <==> first_for(pairs, key) == Some(
                v,
            ) by {
                if says(pairs, key, v) {
                    let k = choose|k: int| #[trigger] is_first(pairs, key, k) && pairs[k].1 == v;
                    assert(is_first(rest, key, k - 1));
                }
                if first_for(pairs, key) == Some(v) {
                    assert(says(rest, key, v));
                    let k = choose|k: int| #[trigger] is_first(rest, key, k) && rest[k].1 == v;
                    assert(is_first(pairs, key, k + 1));
                }
            }
        }
    }
}

// ---------------------------------------------------------------------------
// Numbers and texts in a comment
// ---------------------------------------------------------------------------

/// Whether `r` is the integer in the first member with the given name, whatever the
/// integer is; nothing where the member is no integer or there is none.
pub open spec fn is_int_member(
    members: Seq<(Seq<char>, JsonModel)>,
    name: Seq<char>,
    r: Option<i64>,
) -> bool {
    &&& lacks(members, name) ==> r is None
    &&& forall|k: int| #[trigger]
        is_first(members, name, k) ==> match members[k].1 {
            JsonModel::Number(Some(n), _) => r == Some(n),
            _ => r is None,
        }
}

/// Whether `r` is the floating-point number, in decimal, in the first member with the
/// given name; nothing where the member is no number or there is none.
pub open spec fn is_real_member(
    members: Seq<(Seq<char>, JsonModel)>,
    name: Seq<char>,
    r: Option<Seq<char>>,
) -> bool {
    &&& lacks(members, name) ==> r is None
    &&& forall|k: int| #[trigger]
        is_first(members, name, k) ==> match members[k].1 {
            JsonModel::Number(_, Some(x)) => r == Some(x),
            _ => r is None,
        }
}

/// Whether `r` is the text in the first member with the given name; nothing where the
/// member is no text or there is none.
pub open spec fn is_text_member(
    members: Seq<(Seq<char>, JsonModel)>,
    name: Seq<char>,
    r: Option<Seq<char>>,
) -> bool {
    &&& lacks(members, name) ==> r is None
    &&& forall|k: int| #[trigger]
        is_first(members, name, k) ==> match members[k].1 {
            JsonModel::Text(s) => r == Some(s),
            _ => r is None,
        }
}

/// Whether a file's texts are from NovelAI and carry a comment that is the JSON object
/// with the given members.
pub open spec fn has_comment(
    texts: Seq<(Seq<char>, Seq<char>)>,
    comment: Seq<char>,
    members: Seq<(Seq<char>, JsonModel)>,
) -> bool {
    &&& says(texts, "Software"@, "NovelAI"@)
    &&& says(texts, "Comment"@, comment)
    &&& json_document(comment) == Some(JsonModel::Object(members))
}

/// The seed, the steps, the sampler and the guidance scale of a file are those that the
/// members of its comment give, whatever their values.
pub proof fn law_comment_members_are_read(
    width: u32,
    height: u32,
    texts: Seq<(Seq<char>, Seq<char>)>,
    comment: Seq<char>,
    members: Seq<(Seq<char>, JsonModel)>,
)
    requires
        has_comment(texts, comment, members),
    ensures
        ({
            let m = metadata_of(width, height, texts);
            &&& is_int_member(members, "seed"@, m.seed)
            &&& is_int_member(members, "steps"@, m.steps)
            &&& is_text_member(members, "sampler"@, m.sampler)
            &&& is_real_member(members, "scale"@, m.scale)
            &&& m.comment_json == Some(comment)
        }),
{
    lemma_first(texts, "Software"@);
    lemma_first(texts, "Comment"@);
    lemma_first(members, "seed"@);
    lemma_first(members, "steps"@);
    lemma_first(members, "sampler"@);
    lemma_first(members, "scale"@);
}

/// What a comment says does not depend on what was known of the file before, and its
/// origin, size and model stay.
pub proof fn law_comments_count_whatever_was_known(
    base: NaiModel,
    members: Seq<(Seq<char>, JsonModel)>,
    comment: Seq<char>,
    description: Option<Seq<char>>,
)
    ensures
        ({
            let m = commented(base, JsonModel::Object(members), comment, description);
            &&& is_int_member(members, "seed"@, m.seed)
            &&& is_int_member(members, "steps"@, m.steps)
            &&& is_text_member(members, "sampler"@, m.sampler)
            &&& is_real_member(members, "scale"@, m.scale)
            &&& m.comment_json == Some(comment)
            &&& m.is_novelai == base.is_novelai
            &&& m.width == base.width
            &&& m.height == base.height
            &&& m.model == base.model
        }),
{
    lemma_first(members, "seed"@);
    lemma_first(members, "steps"@);
    lemma_first(members, "sampler"@);
    lemma_first(members, "scale"@);
}

/// A comment that is JSON but no object has no members: the description is the prompt,
/// and the text of the comment is kept.
pub proof fn law_other_documents_have_no_members(
    width: u32,
    height: u32,
    texts: Seq<(Seq<char>, Seq<char>)>,
    comment: Seq<char>,
    c: JsonModel,
    description: Seq<char>,
)
    requires
        says(texts, "Software"@, "NovelAI"@),
        says(texts, "Comment"@, comment),
        json_document(comment) == Some(c),
        c !is Object,
    ensures
        ({
            let m = metadata_of(width, height, texts);
            &&& m.seed is None && m.sampler is None && m.steps is None && m.scale is None
            &&& m.raw_negative is None
            &&& m.comment_json == Some(comment)
            &&& says(texts, "Description"@, description) ==> m.raw_prompt == Some(description)
                && m.tags == normalized(description, "base"@)
            &&& lacks(texts, "Description"@) ==> m.raw_prompt is None && m.tags.len() == 0
        }),
{
    lemma_first(texts, "Software"@);
    lemma_first(texts, "Comment"@);
    lemma_first(texts, "Description"@);
    assert(character_tags(Seq::<JsonModel>::empty()) =~= Seq::<TagModel>::empty());
    assert(normalized(description, "base"@) + Seq::<TagModel>::empty() =~= normalized(
        description,
        "base"@,
    ));
}

// ---------------------------------------------------------------------------
// Origin, size and model
// ---------------------------------------------------------------------------

/// A file is from NovelAI exactly where its first text on the software says so; it has
/// the size that was read, and the first text on the source as its model. Other files
/// have their size alone.
pub proof fn law_origin_and_size(width: u32, height: u32, texts: Seq<(Seq<char>, Seq<char>)>)
    ensures
        ({
            let m = metadata_of(width, height, texts);
            &&& m.width == width && m.height == height
            &&& m.is_novelai <==> says(texts, "Software"@, "NovelAI"@)
            &&& m.is_novelai ==> (lacks(texts, "Source"@) ==> m.model is None) && (forall|k: int|
                #[trigger]
                is_first(texts, "Source"@, k) ==> m.model == Some(texts[k].1))
            &&& !m.is_novelai ==> has_no_more(m) && m.model is None
        }),
{
    lemma_first(texts, "Software"@);
    lemma_first(texts, "Source"@);
}

/// Whether metadata has neither numbers, texts nor tags.
pub open spec fn has_no_more(m: NaiModel) -> bool {
    &&& m.seed is None && m.sampler is None && m.steps is None && m.scale is None
    &&& m.raw_prompt is None && m.raw_negative is None && m.comment_json is None
    &&& m.tags.len() == 0
}

/// A comment that is not JSON says nothing.
pub proof fn law_broken_comments_say_nothing(
    width: u32,
    height: u32,
    texts: Seq<(Seq<char>, Seq<char>)>,
    comment: Seq<char>,
)
    requires
        says(texts, "Comment"@, comment),
        json_document(comment) is None,
    ensures
        has_no_more(metadata_of(width, height, texts)),
{
    lemma_first(texts, "Comment"@);
}

/// A file without a comment has its prompt in the description, and nothing else.
pub proof fn law_old_files_are_described(
    width: u32,
    height: u32,
    texts: Seq<(Seq<char>, Seq<char>)>,
    description: Seq<char>,
)
    requires
        says(texts, "Software"@, "NovelAI"@),
        lacks(texts, "Comment"@),
    ensures
        ({
            let m = metadata_of(width, height, texts);
            &&& m.seed is None && m.sampler is None && m.steps is None && m.scale is None
            &&& m.raw_negative is None && m.comment_json is None
            &&& says(texts, "Description"@, description) ==> m.raw_prompt == Some(description)
                && m.tags == normalized(description, "base"@)
            &&& lacks(texts, "Description"@) ==> m.raw_prompt is None && m.tags.len() == 0
        }),
{
    lemma_first(texts, "Software"@);
    lemma_first(texts, "Comment"@);
    lemma_first(texts, "Description"@);
}

// ---------------------------------------------------------------------------
// Prompts
// ---------------------------------------------------------------------------

/// Whether the first member with the given name is an object with the given members.
pub open spec fn holds_object(
    members: Seq<(Seq<char>, JsonModel)>,
    name: Seq<char>,
    inner: Seq<(Seq<char>, JsonModel)>,
) -> bool {
    says(members, name, JsonModel::Object(inner))
}

/// Whether a comment has the structured caption with the given members under a name.
pub open spec fn has_caption(
    members: Seq<(Seq<char>, JsonModel)>,
    name: Seq<char>,
    caption: Seq<(Seq<char>, JsonModel)>,
) -> bool {
    exists|outer: Seq<(Seq<char>, JsonModel)>| #[trigger]
        holds_object(members, name, outer) && holds_object(outer, "caption"@, caption)
}

/// Whether a comment has the given base caption under a name.
pub open spec fn has_base(
    members: Seq<(Seq<char>, JsonModel)>,
    name: Seq<char>,
    text: Seq<char>,
) -> bool {
    exists|caption: Seq<(Seq<char>, JsonModel)>| #[trigger]
        has_caption(members, name, caption) && says(
            caption,
            "base_caption"@,
            JsonModel::Text(text),
        )
}

proof fn lemma_caption(members: Seq<(Seq<char>, JsonModel)>, name: Seq<char>)
    ensures
        forall|caption: Seq<(Seq<char>, JsonModel)>| #[trigger]
            has_caption(members, name, caption) <==> JsonModel::Object(members).inside(
                name,
                "caption"@,
            ) == Some(JsonModel::Object(caption)),
{
    let c = JsonModel::Object(members);
    lemma_first(members, name);
    assert forall|caption: Seq<(Seq<char>, JsonModel)>| #[trigger]
        has_caption(members, name, caption) <==> c.inside(name, "caption"@) == Some(
            JsonModel::Object(caption),
        ) by {
        if has_caption(members, name, caption) {
            let outer = choose|outer: Seq<(Seq<char>, JsonModel)>| #[trigger]
                holds_object(members, name, outer) && holds_object(outer, "caption"@, caption);
            assert(says(members, name, JsonModel::Object(outer)));
            lemma_first(outer, "caption"@);
            assert(says(outer, "caption"@, JsonModel::Object(caption)));
        }
        if c.inside(name, "caption"@) == Some(JsonModel::Object(caption)) {
            let v = c.get(name)->0;
            let outer = v->Object_0;
            assert(v == JsonModel::Object(outer));
            assert(says(members, name, v));
            lemma_first(outer, "caption"@);
            assert(says(outer, "caption"@, JsonModel::Object(caption)));
            assert(holds_object(members, name, outer));
        }
    }
}

proof fn lemma_base(members: Seq<(Seq<char>, JsonModel)>, name: Seq<char>)
    ensures
        forall|text: Seq<char>| #[trigger]
            has_base(members, name, text) <==> (match JsonModel::Object(members).inside(
                name,
                "caption"@,
            ) {
                Some(v4) => v4.text_at("base_caption"@),
                None => None,
            }) == Some(text),
{
    let c = JsonModel::Object(members);
    lemma_caption(members, name);
    assert forall|text: Seq<char>| #[trigger] has_base(members, name, text) <==> (match c.inside(
        name,
        "caption"@,
    ) {
        Some(v4) => v4.text_at("base_caption"@),
        None => None,
    }) == Some(text) by {
        if has_base(members, name, text) {
            let caption = choose|caption: Seq<(Seq<char>, JsonModel)>| #[trigger]
                has_caption(members, name, caption) && says(
                    caption,
                    "base_caption"@,
                    JsonModel::Text(text),
                );
            lemma_first(caption, "base_caption"@);
        }
        if let Some(v4) = c.inside(name, "caption"@) {
            if v4.text_at("base_caption"@) == Some(text) {
                let caption = v4->Object_0;
                assert(v4 == JsonModel::Object(caption));
                assert(has_caption(members, name, caption));
                lemma_first(caption, "base_caption"@);
                assert(says(caption, "base_caption"@, v4.get("base_caption"@)->0));
            }
        }
    }
}

/// Whether a comment has a text under a name.
pub open spec fn has_text(
    members: Seq<(Seq<char>, JsonModel)>,
    name: Seq<char>,
    text: Seq<char>,
) -> bool {
    says(members, name, JsonModel::Text(text))
}

/// The prompt of a file is the base caption of its comment; where there is none, the
/// plain prompt; where there is none either, the description.
pub proof fn law_prompts_are_found(
    width: u32,
    height: u32,
    texts: Seq<(Seq<char>, Seq<char>)>,
    comment: Seq<char>,
    members: Seq<(Seq<char>, JsonModel)>,
    text: Seq<char>,
)
    requires
        has_comment(texts, comment, members),
    ensures
        ({
            let prompt = metadata_of(width, height, texts).raw_prompt;
            let structured = exists|s: Seq<char>| #[trigger] has_base(members, "v4_prompt"@, s);
            let plain = exists|s: Seq<char>| #[trigger] has_text(members, "prompt"@, s);
            &&& has_base(members, "v4_prompt"@, text) ==> prompt == Some(text)
            &&& !structured && has_text(members, "prompt"@, text) ==> prompt == Some(text)
            &&& !structured && !plain && says(texts, "Description"@, text) ==> prompt == Some(text)
            &&& !structured && !plain && lacks(texts, "Description"@) ==> prompt is None
        }),
{
    lemma_first(texts, "Software"@);
    lemma_first(texts, "Comment"@);
    lemma_first(texts, "Description"@);
    lemma_base(members, "v4_prompt"@);
    lemma_text(members, "prompt"@);
    let c = JsonModel::Object(members);
    if let Some(v4) = c.inside("v4_prompt"@, "caption"@) {
        if let Some(s) = v4.text_at("base_caption"@) {
            assert(has_base(members, "v4_prompt"@, s));
        }
    }
    if let Some(s) = c.text_at("prompt"@) {
        assert(has_text(members, "prompt"@, s));
    }
}

proof fn lemma_text(members: Seq<(Seq<char>, JsonModel)>, name: Seq<char>)
    ensures
        forall|s: Seq<char>| #[trigger]
            has_text(members, name, s) <==> JsonModel::Object(members).text_at(name) == Some(s),
{
    lemma_first(members, name);
    assert forall|s: Seq<char>| #[trigger] has_text(members, name, s) <==> JsonModel::Object(
        members,
    ).text_at(name) == Some(s) by {
        assert(says(members, name, JsonModel::Text(s)) <==> first_for(members, name) == Some(
            JsonModel::Text(s),
        ));
    }
}

/// The negative prompt of a file is the base caption of its negative prompt; where
/// there is none, the unwanted content; where there is none either, the plain negative
/// prompt.
pub proof fn law_negative_prompts_are_found(
    width: u32,
    height: u32,
    texts: Seq<(Seq<char>, Seq<char>)>,
    comment: Seq<char>,
    members: Seq<(Seq<char>, JsonModel)>,
    text: Seq<char>,
)
    requires
        has_comment(texts, comment, members),
    ensures
        ({
            let negative = metadata_of(width, height, texts).raw_negative;
            let structured = exists|s: Seq<char>| #[trigger]
                has_base(members, "v4_negative_prompt"@, s);
            let unwanted = exists|s: Seq<char>| #[trigger] has_text(members, "uc"@, s);
            let plain = exists|s: Seq<char>| #[trigger] has_text(members, "negative_prompt"@, s);
            &&& has_base(members, "v4_negative_prompt"@, text) ==> negative == Some(text)
            &&& !structured && has_text(members, "uc"@, text) ==> negative == Some(text)
            &&& !structured && !unwanted && has_text(members, "negative_prompt"@, text) ==> negative
                == Some(text)
            &&& !structured && !unwanted && !plain ==> negative is None
        }),
{
    lemma_first(texts, "Software"@);
    lemma_first(texts, "Comment"@);
    lemma_base(members, "v4_negative_prompt"@);
    lemma_text(members, "uc"@);
    lemma_text(members, "negative_prompt"@);
    let c = JsonModel::Object(members);
    if let Some(v4) = c.inside("v4_negative_prompt"@, "caption"@) {
        if let Some(s) = v4.text_at("base_caption"@) {
            assert(has_base(members, "v4_negative_prompt"@, s));
        }
    }
    if let Some(s) = c.text_at("uc"@) {
        assert(has_text(members, "uc"@, s));
    }
    if let Some(s) = c.text_at("negative_prompt"@) {
        assert(has_text(members, "negative_prompt"@, s));
    }
}

// ---------------------------------------------------------------------------
// Tags
// ---------------------------------------------------------------------------

/// The tags of the prompt come first, filed as those of the base prompt; then those of
/// the captions of characters, where there are any.
pub proof fn law_tags_come_from_prompts(
    width: u32,
    height: u32,
    texts: Seq<(Seq<char>, Seq<char>)>,
    comment: Seq<char>,
    members: Seq<(Seq<char>, JsonModel)>,
    caption: Seq<(Seq<char>, JsonModel)>,
    items: Seq<JsonModel>,
)
    requires
        has_comment(texts, comment, members),
    ensures
        ({
            let m = metadata_of(width, height, texts);
            let base = match m.raw_prompt {
                Some(p) => normalized(p, "base"@),
                None => Seq::<TagModel>::empty(),
            };
            &&& has_caption(members, "v4_prompt"@, caption) && says(
                caption,
                "char_captions"@,
                JsonModel::Array(items),
            ) ==> m.tags == base + character_tags(items)
            &&& has_caption(members, "v4_prompt"@, caption) && lacks(caption, "char_captions"@)
                ==> m.tags == base
            &&& has_caption(members, "v4_prompt"@, caption) && (forall|k: int| #[trigger]
                is_first(caption, "char_captions"@, k) ==> caption[k].1 !is Array) ==> m.tags == base
            &&& lacks(members, "v4_prompt"@) ==> m.tags == base
        }),
{
    lemma_first(texts, "Software"@);
    lemma_first(texts, "Comment"@);
    lemma_caption(members, "v4_prompt"@);
    lemma_first(members, "v4_prompt"@);
    lemma_first(caption, "char_captions"@);
    let m = metadata_of(width, height, texts);
    let base = match m.raw_prompt {
        Some(p) => normalized(p, "base"@),
        None => Seq::<TagModel>::empty(),
    };
    if let Some(list) = first_for(caption, "char_captions"@) {
        assert(says(caption, "char_captions"@, list));
    }
    assert(character_tags(Seq::<JsonModel>::empty()) =~= Seq::<TagModel>::empty());
    assert(base + Seq::<TagModel>::empty() =~= base);
}

/// The caption of a further character adds its tags, filed as those of a character; an
/// item without one, or that is no object, adds none.
pub proof fn law_characters_add_their_tags(
    items: Seq<JsonModel>,
    members: Seq<(Seq<char>, JsonModel)>,
    text: Seq<char>,
    other: JsonModel,
)
    ensures
        character_tags(Seq::<JsonModel>::empty()).len() == 0,
        has_text(members, "char_caption"@, text) ==> character_tags(
            items.push(JsonModel::Object(members)),
        ) == character_tags(items) + normalized(text, "char"@),
        (forall|s: Seq<char>| !#[trigger] has_text(members, "char_caption"@, s)) ==> character_tags(
            items.push(JsonModel::Object(members)),
        ) == character_tags(items),
        other !is Object ==> character_tags(items.push(other)) == character_tags(items),
{
    let now = items.push(JsonModel::Object(members));
    lemma_text(members, "char_caption"@);
    assert(now.drop_last() =~= items);
    assert(items.push(other).drop_last() =~= items);
    if let Some(s) = JsonModel::Object(members).text_at("char_caption"@) {
        assert(has_text(members, "char_caption"@, s));
    }
    assert(character_tags(items) + Seq::<TagModel>::empty() =~= character_tags(items));
}

// ---------------------------------------------------------------------------
// Files
// ---------------------------------------------------------------------------

/// What the text chunks of a file say counts, where they are from NovelAI; the header
/// gives its size.
pub proof fn law_text_chunks_count_first(data: Seq<u8>)
    requires
        is_png(data),
        says(entries_of(chunks_from(data, 8)), "Software"@, "NovelAI"@),
    ensures
        ({
            let header = header_of(chunks_from(data, 8));
            parsed(data) == Some(
                metadata_of(header.width, header.height, entries_of(chunks_from(data, 8))),
            )
        }),
{
    lemma_first(entries_of(chunks_from(data, 8)), "Software"@);
}

/// Where the text chunks are not from NovelAI, the copy that an image with alpha hides
/// counts, if it carries one; else the size is all there is.
pub proof fn law_hidden_copy_counts_next(data: Seq<u8>)
    requires
        is_png(data),
        !says(entries_of(chunks_from(data, 8)), "Software"@, "NovelAI"@),
    ensures
        ({
            let header = header_of(chunks_from(data, 8));
            let hidden = stealth_of(data, header.width, header.height);
            let alpha = header.color_type == 4 || header.color_type == 6;
            &&& alpha && hidden is Some ==> parsed(data) == hidden
            &&& !alpha || hidden is None ==> (parsed(data) matches Some(m) && !m.is_novelai
                && has_no_more(m) && m.model is None && m.width == header.width && m.height
                == header.height)
        }),
{
    lemma_first(entries_of(chunks_from(data, 8)), "Software"@);
}

/// A hidden document counts where it is an object whose texts are from NovelAI; they
/// are read as those of text chunks, and members that are no texts are passed over.
pub proof fn law_hidden_members_are_texts(
    members: Seq<(Seq<char>, JsonModel)>,
    key: Seq<char>,
    value: JsonModel,
)
    ensures
        text_members(Seq::<(Seq<char>, JsonModel)>::empty()).len() == 0,
        text_members(members.push((key, value))) == match value {
            JsonModel::Text(s) => text_members(members).push((key, s)),
            _ => text_members(members),
        },
{
    assert(members.push((key, value)).drop_last() =~= members);
}

/// The bits that an image hides go down its columns, from the left: the bit for column
/// `x` and row `y` is the lowest of the alpha byte there.
pub proof fn law_hidden_bits_go_down_columns(img: Bitmap, x: int, y: int)
    requires
        0 <= x < img.width,
        0 <= y < img.height,
    ensures
        alpha_bit(img, x * img.height + y) == img.pixels[4 * (y * img.width + x) + 3] & 1,
{
    let h = img.height as int;
    vstd::arithmetic::div_mod::lemma_fundamental_div_mod_converse(x * h + y, h, x, y);
}

/// What an image hides is told only where the hidden bytes start with one of the two
/// marks and the length that follows is that of the payload in bits, a positive
/// multiple of eight that the image has room for; the payload follows byte by byte.
pub proof fn law_only_marked_images_hide_a_payload(img: Bitmap, compressed: bool, payload: Seq<u8>)
    requires
        hidden_payload(img) == Some((compressed, payload)),
    ensures
        compressed ==> alpha_bytes(img, 0, 15) == encode_utf8("stealth_pngcomp"@),
        !compressed ==> alpha_bytes(img, 0, 15) == encode_utf8("stealth_pnginfo"@),
        payload.len() > 0,
        8 * payload.len() == be32(alpha_bytes(img, 120, 4), 0),
        152 + 8 * payload.len() <= img.width * img.height,
        forall|k: int|
            0 <= k < payload.len() ==> #[trigger] payload[k] == alpha_byte(img, 152 + 8 * k),
{
}

/// A bit of a hidden byte counts for half of the one before it.
pub proof fn law_hidden_bytes_have_the_highest_bit_first(img: Bitmap, at: int)
    ensures
        alpha_byte(img, at) as int == 128 * alpha_bit(img, at) + 64 * alpha_bit(img, at + 1) + 32
            * alpha_bit(img, at + 2) + 16 * alpha_bit(img, at + 3) + 8 * alpha_bit(img, at + 4) + 4
            * alpha_bit(img, at + 5) + 2 * alpha_bit(img, at + 6) + alpha_bit(img, at + 7),
        alpha_bit(img, at) <= 1,
{
    assert forall|b: u8| #[trigger] (b & 1) <= 1 by {
        assert(b & 1 <= 1) by (bit_vector);
    }
}

/// A hidden document counts exactly where it is an object whose first text on the
/// software names NovelAI, and is then read like the texts of a file.
pub proof fn law_hidden_documents_are_read_like_texts(width: u32, height: u32, doc: JsonModel)
    ensures
        doc matches JsonModel::Object(members) ==> {
            let texts = text_members(members);
            &&& says(texts, "Software"@, "NovelAI"@) ==> hidden_metadata(width, height, doc) == Some(
                metadata_of(width, height, texts),
            )
            &&& !says(texts, "Software"@, "NovelAI"@) ==> hidden_metadata(width, height, doc) is None
        },
        doc !is Object ==> hidden_metadata(width, height, doc) is None,
{
    if let JsonModel::Object(members) = doc {
        lemma_first(text_members(members), "Software"@);
    }
}

/// What is said of the mathematical form of metadata is said of its fields, and the
/// form of a file that was read has the file's path, size and time.
pub proof fn law_forms_have_their_fields(m: NaiMetadata, f: ParsedFile)
    ensures
        m.meta().is_novelai == m.is_novelai,
        m.meta().width == m.width,
        m.meta().height == m.height,
        m.meta().model == opt_text(m.model),
        m.meta().seed == m.seed,
        m.meta().sampler == opt_text(m.sampler),
        m.meta().steps == m.steps,
        m.meta().scale == opt_text(m.scale),
        m.meta().raw_prompt == opt_text(m.raw_prompt),
        m.meta().raw_negative == opt_text(m.raw_negative),
        m.meta().comment_json == opt_text(m.comment_json),
        m.meta().tags.len() == m.tags@.len(),
        forall|k: int|
            0 <= k < m.tags@.len() ==> (#[trigger] m.meta().tags[k]).name == m.tags@[k].name@
                && m.meta().tags[k].category == m.tags@[k].category@ && m.meta().tags[k].source
                == m.tags@[k].source@,
        f.model().path == f.path@,
        f.model().size == f.size,
        f.model().mtime == f.mtime,
        f.meta is None ==> f.model().meta is None,
        f.meta is Some ==> f.model().meta == Some(f.meta->0.meta()),
{
}

} // verus!
