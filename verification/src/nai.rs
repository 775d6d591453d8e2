//! NovelAI metadata in PNG files: in the text chunks, or hidden in the lowest bits
//! of the alpha channel.

use crate::json::{first_for, json_document, parse_json, Json, JsonModel};
use crate::pixels::{decode, decoded_image, rgba8, rgba8_content, Bitmap, Rgba8};
use crate::png::{
    be32, be_bytes, chunks_from, entries_of, header_of, is_png, lemma_be_bytes, pair_texts,
    read_be32, read_png_chunks,
};
use crate::tags::{normalize_tags, normalized, tag_models, Tag, TagModel};
use crate::text::{opt_text, same_text, utf8_text};
use vstd::prelude::*;
use vstd::utf8::{
    decode_utf8, encode_utf8, encode_utf8_decode_utf8, encode_utf8_valid_utf8, is_ascii_chars,
    is_ascii_chars_encode_utf8, valid_utf8,
};

verus! {

// ---------------------------------------------------------------------------
// Metadata
// ---------------------------------------------------------------------------

/// What a PNG file tells of itself.
pub struct NaiMetadata {
    pub is_novelai: bool,
    pub width: u32,
    pub height: u32,
    pub model: Option<String>,
    pub seed: Option<i64>,
    pub sampler: Option<String>,
    pub steps: Option<i64>,
    /// The guidance scale, a floating-point number, in decimal.
    pub scale: Option<String>,
    pub raw_prompt: Option<String>,
    pub raw_negative: Option<String>,
    pub comment_json: Option<String>,
    pub tags: Vec<Tag>,
}

/// The mathematical form of the metadata.
pub struct NaiModel {
    pub is_novelai: bool,
    pub width: u32,
    pub height: u32,
    pub model: Option<Seq<char>>,
    pub seed: Option<i64>,
    pub sampler: Option<Seq<char>>,
    pub steps: Option<i64>,
    pub scale: Option<Seq<char>>,
    pub raw_prompt: Option<Seq<char>>,
    pub raw_negative: Option<Seq<char>>,
    pub comment_json: Option<Seq<char>>,
    pub tags: Seq<TagModel>,
}

impl NaiMetadata {
    /// The mathematical form.
    pub open spec fn meta(self) -> NaiModel {
        NaiModel {
            is_novelai: self.is_novelai,
            width: self.width,
            height: self.height,
            model: opt_text(self.model),
            seed: self.seed,
            sampler: opt_text(self.sampler),
            steps: self.steps,
            scale: opt_text(self.scale),
            raw_prompt: opt_text(self.raw_prompt),
            raw_negative: opt_text(self.raw_negative),
            comment_json: opt_text(self.comment_json),
            tags: tag_models(self.tags@),
        }
    }
}

/// The mathematical form of optional metadata.
pub open spec fn opt_meta(o: Option<NaiMetadata>) -> Option<NaiModel> {
    match o {
        Some(m) => Some(m.meta()),
        None => None,
    }
}

/// Metadata with the given origin, size and model, and nothing else.
pub open spec fn bare(
    is_novelai: bool,
    width: u32,
    height: u32,
    model: Option<Seq<char>>,
) -> NaiModel {
    NaiModel {
        is_novelai,
        width,
        height,
        model,
        seed: None,
        sampler: None,
        steps: None,
        scale: None,
        raw_prompt: None,
        raw_negative: None,
        comment_json: None,
        tags: Seq::empty(),
    }
}

impl Default for NaiMetadata {
    fn default() -> (r: Self)
        ensures
            r.meta() == bare(false, 0, 0, None),
    {
        let r = NaiMetadata {
            is_novelai: false,
            width: 0,
            height: 0,
            model: None,
            seed: None,
            sampler: None,
            steps: None,
            scale: None,
            raw_prompt: None,
            raw_negative: None,
            comment_json: None,
            tags: Vec::new(),
        };
        assert(r.meta().tags == Seq::<TagModel>::empty());
        r
    }
}

/// The first of two that there is.
pub open spec fn either<T>(a: Option<T>, b: Option<T>) -> Option<T> {
    match a {
        Some(_) => a,
        None => b,
    }
}

/// The prompt of a comment: the structured base caption of newer files, else the
/// plain prompt, else the description.
pub open spec fn prompt_of(c: JsonModel, description: Option<Seq<char>>) -> Option<Seq<char>> {
    let caption = match c.inside("v4_prompt"@, "caption"@) {
        Some(v4) => v4.text_at("base_caption"@),
        None => None,
    };
    either(either(caption, c.text_at("prompt"@)), description)
}

/// The negative prompt of a comment.
pub open spec fn negative_of(c: JsonModel) -> Option<Seq<char>> {
    let caption = match c.inside("v4_negative_prompt"@, "caption"@) {
        Some(v4) => v4.text_at("base_caption"@),
        None => None,
    };
    either(either(caption, c.text_at("uc"@)), c.text_at("negative_prompt"@))
}

/// The captions of the characters, one item each.
pub open spec fn characters_of(c: JsonModel) -> Seq<JsonModel> {
    match c.inside("v4_prompt"@, "caption"@) {
        Some(v4) => match v4.get("char_captions"@) {
            Some(list) => match list.as_array() {
                Some(items) => items,
                None => Seq::empty(),
            },
            None => Seq::empty(),
        },
        None => Seq::empty(),
    }
}

/// The tags of the character captions, caption by caption.
pub open spec fn character_tags(items: Seq<JsonModel>) -> Seq<TagModel>
    decreases items.len(),
{
    if items.len() == 0 {
        Seq::empty()
    } else {
        character_tags(items.drop_last()) + (match items.last().text_at("char_caption"@) {
            Some(caption) => normalized(caption, "char"@),
            None => Seq::empty(),
        })
    }
}

/// The tags of an optional prompt.
pub open spec fn prompt_tags(prompt: Option<Seq<char>>) -> Seq<TagModel> {
    match prompt {
        Some(p) => normalized(p, "base"@),
        None => Seq::empty(),
    }
}

/// `base` with what the comment `c`, whose text is `comment`, says.
pub open spec fn commented(
    base: NaiModel,
    c: JsonModel,
    comment: Seq<char>,
    description: Option<Seq<char>>,
) -> NaiModel {
    let prompt = prompt_of(c, description);
    NaiModel {
        seed: c.int_at("seed"@),
        sampler: c.text_at("sampler"@),
        steps: c.int_at("steps"@),
        scale: c.real_at("scale"@),
        raw_prompt: prompt,
        raw_negative: negative_of(c),
        comment_json: Some(comment),
        tags: prompt_tags(prompt) + character_tags(characters_of(c)),
        ..base
    }
}

/// The metadata in a file's keywords and texts. Only files whose software is
/// NovelAI have more than a size. One that carries a comment is read from it, if it
/// is JSON; one that carries none has its prompt in the description.
pub open spec fn metadata_of(
    width: u32,
    height: u32,
    texts: Seq<(Seq<char>, Seq<char>)>,
) -> NaiModel {
    let is_novelai = first_for(texts, "Software"@) == Some("NovelAI"@);
    let base = bare(true, width, height, first_for(texts, "Source"@));
    let description = first_for(texts, "Description"@);
    if !is_novelai {
        bare(false, width, height, None)
    } else {
        match first_for(texts, "Comment"@) {
            Some(comment) => match json_document(comment) {
                Some(c) => commented(base, c, comment, description),
                None => base,
            },
            None => NaiModel {
                raw_prompt: description,
                tags: prompt_tags(description),
                ..base
            },
        }
    }
}

/// The text of the first pair with the given keyword.
fn find_text(pairs: &Vec<(String, String)>, key: &str) -> (r: Option<String>)
    ensures
        opt_text(r) == first_for(pair_texts(pairs@), key@),
{
    let ghost all = pair_texts(pairs@);
    let mut i: usize = 0;
    assert(all.skip(0) == all);
    while i < pairs.len()
        invariant
            i <= pairs@.len(),
            all == pair_texts(pairs@),
            first_for(all.skip(i as int), key@) == first_for(all, key@),
        decreases pairs@.len() - i,
    {
        assert(all.skip(i as int)[0] == (pairs@[i as int].0@, pairs@[i as int].1@));
        if same_text(pairs[i].0.as_str(), key) {
            return Some(pairs[i].1.clone());
        }
        assert(all.skip(i as int).skip(1) == all.skip(i + 1));
        i += 1;
    }
    None
}

/// The first of two texts that there is.
fn or_text(a: Option<String>, b: Option<String>) -> (r: Option<String>)
    ensures
        opt_text(r) == either(opt_text(a), opt_text(b)),
{
    match a {
        Some(s) => Some(s),
        None => b,
    }
}

/// The caption under two names.
fn base_caption(c: &Json, outer: &str) -> (r: Option<String>)
    ensures
        opt_text(r) == (match c.model().inside(outer@, "caption"@) {
            Some(v4) => v4.text_at("base_caption"@),
            None => None,
        }),
{
    match c.inside(outer, "caption") {
        Some(v4) => v4.text_at("base_caption"),
        None => None,
    }
}

/// The tags of the character captions in `items`, after those in `tags`.
fn add_character_tags(items: &Vec<Json>, tags: &mut Vec<Tag>)
    ensures
        tag_models(final(tags)@) == tag_models(old(tags)@) + character_tags(
            Json::Array(*items).model()->Array_0,
        ),
{
    let ghost all = Json::Array(*items).model()->Array_0;
    let ghost start = tag_models(tags@);
    let mut i: usize = 0;
    assert(start + character_tags(all.take(0)) == start);
    while i < items.len()
        invariant
            i <= items@.len(),
            all == Json::Array(*items).model()->Array_0,
            tag_models(tags@) == start + character_tags(all.take(i as int)),
        decreases items@.len() - i,
    {
        let ghost before = tags@;
        let caption = items[i].text_at("char_caption");
        assert(all[i as int] == items@[i as int].model());
        i += 1;
        assert(all.take(i as int).drop_last() == all.take(i - 1));
        if let Some(text) = caption {
            let mut more = normalize_tags(text.as_str(), "char");
            let ghost added = more@;
            tags.append(&mut more);
            assert(tag_models(before + added) == tag_models(before) + tag_models(added));
        }
        assert(tag_models(tags@) == start + character_tags(all.take(i as int)));
    }
    assert(all.take(all.len() as int) == all);
}

/// `base` with what the comment `c`, whose text is `comment`, says.
pub fn with_comment(
    base: NaiMetadata,
    c: &Json,
    comment: String,
    description: Option<String>,
) -> (r: NaiMetadata)
    ensures
        r.meta() == commented(base.meta(), c.model(), comment@, opt_text(description)),
{
    let prompt = or_text(
        or_text(base_caption(c, "v4_prompt"), c.text_at("prompt")),
        description,
    );
    let mut tags: Vec<Tag> = match &prompt {
        Some(p) => normalize_tags(p.as_str(), "base"),
        None => Vec::new(),
    };
    assert(tag_models(tags@) == prompt_tags(opt_text(prompt)));
    if let Some(v4) = c.inside("v4_prompt", "caption") {
        if let Some(list) = v4.get("char_captions") {
            if let Json::Array(items) = list {
                add_character_tags(items, &mut tags);
            }
        }
    }
    assert(tag_models(tags@) == prompt_tags(opt_text(prompt)) + character_tags(
        characters_of(c.model()),
    ));
    let negative = or_text(
        or_text(base_caption(c, "v4_negative_prompt"), c.text_at("uc")),
        c.text_at("negative_prompt"),
    );
    NaiMetadata {
        seed: c.int_at("seed"),
        sampler: c.text_at("sampler"),
        steps: c.int_at("steps"),
        scale: c.real_at("scale"),
        raw_prompt: prompt,
        raw_negative: negative,
        comment_json: Some(comment),
        tags,
        is_novelai: base.is_novelai,
        width: base.width,
        height: base.height,
        model: base.model,
    }
}

/// The metadata in a file's keywords and texts.
pub fn from_texts(width: u32, height: u32, texts: &Vec<(String, String)>) -> (r: NaiMetadata)
    ensures
        r.meta() == metadata_of(width, height, pair_texts(texts@)),
{
    let mut meta = NaiMetadata::default();
    meta.width = width;
    meta.height = height;
    meta.is_novelai = match find_text(texts, "Software") {
        Some(s) => same_text(s.as_str(), "NovelAI"),
        None => false,
    };
    if !meta.is_novelai {
        return meta;
    }
    meta.model = find_text(texts, "Source");
    let description = find_text(texts, "Description");
    match find_text(texts, "Comment") {
        Some(comment) => match parse_json(comment.as_str()) {
            Some(c) => with_comment(meta, &c, comment, description),
            None => meta,
        },
        None => {
            if let Some(d) = &description {
                meta.tags = normalize_tags(d.as_str(), "base");
            }
            meta.raw_prompt = description;
            meta
        },
    }
}

// ---------------------------------------------------------------------------
// Metadata in the alpha channel
// ---------------------------------------------------------------------------
//
// The lowest bit of each alpha byte, column by column from the left and from top
// to bottom in each, packed into bytes with the highest bit first:
//   15 bytes  "stealth_pngcomp" (gzip) or "stealth_pnginfo" (plain)
//    4 bytes  big-endian length of the payload in bits
//   payload   a JSON object with the keywords and texts of the text chunks

/// The bit with the given index in the alpha channel.
pub open spec fn alpha_bit(img: Bitmap, i: int) -> u8 {
    img.alpha(i / (img.height as int), i % (img.height as int)) & 1
}

/// The byte whose highest bit has the index `at`.
pub open spec fn alpha_byte(img: Bitmap, at: int) -> u8 {
    (128 * alpha_bit(img, at) + 64 * alpha_bit(img, at + 1) + 32 * alpha_bit(img, at + 2) + 16
        * alpha_bit(img, at + 3) + 8 * alpha_bit(img, at + 4) + 4 * alpha_bit(img, at + 5) + 2
        * alpha_bit(img, at + 6) + alpha_bit(img, at + 7)) as u8
}

/// The `n` bytes from the bit `at` on.
pub open spec fn alpha_bytes(img: Bitmap, at: int, n: nat) -> Seq<u8> {
    Seq::new(n, |k: int| alpha_byte(img, at + 8 * k))
}

/// Whether the hidden payload is compressed, and the payload.
pub open spec fn hidden_payload(img: Bitmap) -> Option<(bool, Seq<u8>)> {
    let magic = alpha_bytes(img, 0, 15);
    let compressed = magic == encode_utf8("stealth_pngcomp"@);
    let bits = be32(alpha_bytes(img, 120, 4), 0);
    if img.area() < 120 || (!compressed && magic != encode_utf8("stealth_pnginfo"@)) {
        None
    } else if img.area() < 152 || bits == 0 || bits % 8 != 0 || img.area() < 152 + bits {
        None
    } else {
        Some((compressed, alpha_bytes(img, 152, (bits / 8) as nat)))
    }
}

/// The text that `flate2::read::GzDecoder` unpacks, if the bytes are a gzip
/// member of valid UTF-8.
pub uninterp spec fn gunzipped(data: Seq<u8>) -> Option<Seq<char>>;

/// `flate2::read::GzDecoder`, read to its end as text. The result depends on the
/// bytes alone.
#[verifier::external_body]
fn gunzip(data: &[u8]) -> (r: Option<String>)
    ensures
        opt_text(r) == gunzipped(data@),
{
    let mut out = String::new();
    std::io::Read::read_to_string(&mut flate2::read::GzDecoder::new(data), &mut out).ok()?;
    Some(out)
}

/// Reads bytes from the lowest bits of the alpha channel, the highest bit first.
pub struct AlphaLsbReader<'a> {
    pub img: &'a Rgba8,
    pub bit: u64,
}

impl<'a> AlphaLsbReader<'a> {
    /// The image is whole and the position lies in it.
    pub open spec fn wf(self) -> bool {
        self.img@.wf() && self.bit <= self.img@.area()
    }

    /// The next bit.
    fn read_bit(&mut self) -> (r: u8)
        requires
            old(self).wf(),
            old(self).bit < old(self).img@.area(),
        ensures
            final(self).wf(),
            final(self).img == old(self).img,
            final(self).bit == old(self).bit + 1,
            r == alpha_bit(old(self).img@, old(self).bit as int),
            r <= 1,
    {
        let w: u64 = self.img.width as u64;
        let h: u64 = self.img.height as u64;
        proof {
            lemma_column_of_bit(self.bit as int, w as int, h as int);
            lemma_area_fits(w as int, h as int, self.img.pixels.len() as int);
        }
        let x: u64 = self.bit / h;
        let y: u64 = self.bit % h;
        let at: u64 = 4 * (y * w + x) + 3;
        let v: u8 = self.img.pixels[at as usize];
        self.bit = self.bit + 1;
        assert(v & 1 <= 1) by (bit_vector);
        v & 1
    }

    /// The next `n` bytes; none where the image does not hold as many.
    pub fn read_bytes(&mut self, n: usize) -> (r: Option<Vec<u8>>)
        requires
            old(self).wf(),
        ensures
            final(self).wf(),
            final(self).img == old(self).img,
            r is Some <==> old(self).bit + 8 * n <= old(self).img@.area(),
            r matches Some(v) ==> v@ == alpha_bytes(old(self).img@, old(self).bit as int, n as nat)
                && final(self).bit == old(self).bit + 8 * n,
            r is None ==> final(self).bit == old(self).bit,
    {
        proof {
            lemma_area_fits(
                self.img.width as int,
                self.img.height as int,
                self.img.pixels.len() as int,
            );
        }
        let total: u64 = (self.img.width as u64) * (self.img.height as u64);
        if n as u64 > (total - self.bit) / 8 {
            return None;
        }
        let ghost start = self.bit as int;
        let ghost img = self.img@;
        let mut out: Vec<u8> = Vec::new();
        let mut i: usize = 0;
        while i < n
            invariant
                i <= n,
                self.wf(),
                self.img@ == img,
                self.img == old(self).img,
                self.bit == start + 8 * i,
                start + 8 * n <= img.area(),
                out@ == alpha_bytes(img, start, i as nat),
            decreases n - i,
        {
            let b0: u8 = self.read_bit();
            let b1: u8 = self.read_bit();
            let b2: u8 = self.read_bit();
            let b3: u8 = self.read_bit();
            let b4: u8 = self.read_bit();
            let b5: u8 = self.read_bit();
            let b6: u8 = self.read_bit();
            let b7: u8 = self.read_bit();
            out.push(128 * b0 + 64 * b1 + 32 * b2 + 16 * b3 + 8 * b4 + 4 * b5 + 2 * b6 + b7);
            i += 1;
            assert(alpha_bytes(img, start, i as nat) == alpha_bytes(img, start, (i - 1) as nat).push(
                alpha_byte(img, start + 8 * (i - 1)),
            ));
        }
        Some(out)
    }
}

proof fn lemma_area_fits(w: int, h: int, len: int)
    requires
        0 <= w <= u32::MAX,
        0 <= h <= u32::MAX,
        4 * (w * h) <= len <= usize::MAX,
    ensures
        0 <= w * h <= u64::MAX / 4,
{
    assert(0 <= w * h) by (nonlinear_arith)
        requires
            0 <= w,
            0 <= h,
    ;
}

proof fn lemma_column_of_bit(bit: int, w: int, h: int)
    requires
        0 <= bit < w * h,
        0 <= w <= u32::MAX,
        0 <= h <= u32::MAX,
    ensures
        0 < h,
        0 <= bit / h < w,
        0 <= bit % h < h,
        0 <= (bit % h) * w + bit / h < w * h,
        0 <= (bit % h) * w <= w * h,
{
    assert(0 < h) by (nonlinear_arith)
        requires
            0 <= bit < w * h,
            0 <= w,
            0 <= h,
    ;
    let x = bit / h;
    let y = bit % h;
    assert(bit == x * h + y && 0 <= y < h) by (nonlinear_arith)
        requires
            h > 0,
            x == bit / h,
            y == bit % h,
    ;
    assert(0 <= x < w) by (nonlinear_arith)
        requires
            bit == x * h + y,
            0 <= y < h,
            0 <= bit < w * h,
            h > 0,
    ;
    assert(0 <= y * w && y * w + x < w * h) by (nonlinear_arith)
        requires
            0 <= y <= h - 1,
            0 <= x < w,
    ;
}

/// Whether the bytes are those of a text.
fn is_bytes_of(bytes: &Vec<u8>, s: &str) -> (r: bool)
    ensures
        r == (bytes@ == encode_utf8(s@)),
{
    let other = s.as_bytes();
    if bytes.len() != other.len() {
        return false;
    }
    let mut i: usize = 0;
    while i < bytes.len()
        invariant
            i <= bytes@.len() == other@.len(),
            other@ == encode_utf8(s@),
            forall|k: int| 0 <= k < i ==> bytes@[k] == other@[k],
        decreases bytes@.len() - i,
    {
        if bytes[i] != other[i] {
            return false;
        }
        i += 1;
    }
    assert(bytes@ == other@);
    true
}

/// Reads the hidden payload of an image.
pub fn read_hidden_payload(img: &Rgba8) -> (r: Option<(bool, Vec<u8>)>)
    requires
        img@.wf(),
    ensures
        match r {
            Some(p) => hidden_payload(img@) == Some((p.0, p.1@)),
            None => hidden_payload(img@) is None,
        },
{
    proof {
        lemma_area_fits(img.width as int, img.height as int, img.pixels.len() as int);
    }
    let mut reader = AlphaLsbReader { img, bit: 0 };
    let magic = match reader.read_bytes(15) {
        Some(m) => m,
        None => {
            return None;
        },
    };
    let compressed = is_bytes_of(&magic, "stealth_pngcomp");
    if !compressed && !is_bytes_of(&magic, "stealth_pnginfo") {
        return None;
    }
    let length = match reader.read_bytes(4) {
        Some(l) => l,
        None => {
            return None;
        },
    };
    let bits = read_be32(length.as_slice(), 0);
    if bits == 0 || bits % 8 != 0 {
        return None;
    }
    match reader.read_bytes((bits / 8) as usize) {
        Some(payload) => Some((compressed, payload)),
        None => None,
    }
}

/// The keywords with texts among the members of an object.
pub open spec fn text_members(members: Seq<(Seq<char>, JsonModel)>) -> Seq<(Seq<char>, Seq<char>)>
    decreases members.len(),
{
    if members.len() == 0 {
        Seq::empty()
    } else {
        let before = text_members(members.drop_last());
        match members.last().1.as_text() {
            Some(s) => before.push((members.last().0, s)),
            None => before,
        }
    }
}

/// The metadata in a hidden document, if it is an object and from NovelAI.
pub open spec fn hidden_metadata(width: u32, height: u32, doc: JsonModel) -> Option<NaiModel> {
    match doc {
        JsonModel::Object(members) => {
            let m = metadata_of(width, height, text_members(members));
            if m.is_novelai {
                Some(m)
            } else {
                None
            }
        },
        _ => None,
    }
}

/// The text of a hidden payload.
pub open spec fn payload_text(compressed: bool, payload: Seq<u8>) -> Option<Seq<char>> {
    if compressed {
        gunzipped(payload)
    } else if valid_utf8(payload) {
        Some(decode_utf8(payload))
    } else {
        None
    }
}

/// The metadata hidden in an image with the given alpha channel.
pub open spec fn metadata_in_alpha(width: u32, height: u32, img: Bitmap) -> Option<NaiModel> {
    match hidden_payload(img) {
        Some((compressed, payload)) => match payload_text(compressed, payload) {
            Some(text) => match json_document(text) {
                Some(doc) => hidden_metadata(width, height, doc),
                None => None,
            },
            None => None,
        },
        None => None,
    }
}

/// The metadata hidden in a file's alpha channel: only images of eight-bit
/// colours with alpha carry any.
pub open spec fn stealth_of(data: Seq<u8>, width: u32, height: u32) -> Option<NaiModel> {
    match decoded_image(data) {
        Some(img) => match rgba8_content(img) {
            Some(bitmap) => metadata_in_alpha(width, height, bitmap),
            None => None,
        },
        None => None,
    }
}

/// The keywords with texts among the members of an object.
fn collect_texts(members: &Vec<(String, Json)>) -> (r: Vec<(String, String)>)
    ensures
        pair_texts(r@) == text_members(Json::Object(*members).model()->Object_0),
{
    let ghost all = Json::Object(*members).model()->Object_0;
    let mut out: Vec<(String, String)> = Vec::new();
    let mut i: usize = 0;
    assert(pair_texts(out@) == text_members(all.take(0)));
    while i < members.len()
        invariant
            i <= members@.len(),
            all == Json::Object(*members).model()->Object_0,
            pair_texts(out@) == text_members(all.take(i as int)),
        decreases members@.len() - i,
    {
        let ghost before = out@;
        let text = members[i].1.as_text();
        assert(all[i as int] == (members@[i as int].0@, members@[i as int].1.model()));
        if let Some(s) = text {
            let pair = (members[i].0.clone(), s);
            out.push(pair);
            assert(pair_texts(out@) == pair_texts(before).push((pair.0@, pair.1@)));
        }
        i += 1;
        assert(all.take(i as int).drop_last() == all.take(i - 1));
    }
    assert(all.take(all.len() as int) == all);
    out
}

/// The metadata in a hidden document.
pub fn from_hidden_document(width: u32, height: u32, doc: &Json) -> (r: Option<NaiMetadata>)
    ensures
        opt_meta(r) == hidden_metadata(width, height, doc.model()),
{
    match doc {
        Json::Object(members) => {
            let texts = collect_texts(members);
            let meta = from_texts(width, height, &texts);
            if meta.is_novelai {
                Some(meta)
            } else {
                None
            }
        },
        _ => None,
    }
}

/// The metadata hidden in an image.
pub fn from_alpha(width: u32, height: u32, img: &Rgba8) -> (r: Option<NaiMetadata>)
    requires
        img@.wf(),
    ensures
        opt_meta(r) == metadata_in_alpha(width, height, img@),
{
    let (compressed, payload) = match read_hidden_payload(img) {
        Some(p) => p,
        None => {
            return None;
        },
    };
    let text = if compressed {
        gunzip(payload.as_slice())
    } else {
        utf8_text(payload)
    };
    match text {
        Some(t) => match parse_json(t.as_str()) {
            Some(doc) => from_hidden_document(width, height, &doc),
            None => None,
        },
        None => None,
    }
}

/// Recovers metadata from the alpha channel of a PNG file without text chunks.
/// Decodes the pixels, so it is for files whose header has an alpha channel and
/// whose chunks said nothing.
pub fn parse_stealth(data: &[u8], width: u32, height: u32) -> (r: Option<NaiMetadata>)
    ensures
        opt_meta(r) == stealth_of(data@, width, height),
{
    match decode(data) {
        Some(img) => match rgba8(img) {
            Some(bitmap) => from_alpha(width, height, &bitmap),
            None => None,
        },
        None => None,
    }
}

/// The metadata of a PNG file: what its chunks say, or, where they do not name
/// NovelAI and the colour type has alpha, what the alpha channel hides.
pub open spec fn parsed(data: Seq<u8>) -> Option<NaiModel> {
    if !is_png(data) {
        None
    } else {
        let header = header_of(chunks_from(data, 8));
        let meta = metadata_of(header.width, header.height, entries_of(chunks_from(data, 8)));
        if !meta.is_novelai && (header.color_type == 4 || header.color_type == 6) {
            either(stealth_of(data, header.width, header.height), Some(meta))
        } else {
            Some(meta)
        }
    }
}

/// Reads the metadata of a PNG file. A file that is not from NovelAI has its
/// dimensions only, so that it can still be indexed.
pub fn parse(data: &[u8]) -> (r: Option<NaiMetadata>)
    ensures
        opt_meta(r) == parsed(data@),
{
    let (width, height, color_type, texts) = match read_png_chunks(data) {
        Some(p) => p,
        None => {
            return None;
        },
    };
    let meta = from_texts(width, height, &texts);
    if !meta.is_novelai && (color_type == 4 || color_type == 6) {
        if let Some(stealth) = parse_stealth(data, width, height) {
            return Some(stealth);
        }
    }
    Some(meta)
}

/// A PNG file that does not come from NovelAI has its size and nothing else, so
/// that it can still be indexed.
pub proof fn law_foreign_files_have_size_only(data: Seq<u8>)
    ensures
        parsed(data) matches Some(m) ==> !m.is_novelai ==> m == bare(
            false,
            m.width,
            m.height,
            None,
        ),
        is_png(data) <==> parsed(data) is Some,
{
    let header = header_of(chunks_from(data, 8));
    let meta = metadata_of(header.width, header.height, entries_of(chunks_from(data, 8)));
    if let Some(m) = stealth_of(data, header.width, header.height) {
        assert(m.is_novelai);
    }
}

// ---------------------------------------------------------------------------
// What is hidden can be read back
// ---------------------------------------------------------------------------

/// The bytes that say that a payload is hidden, and whether it is compressed.
pub open spec fn magic_of(compressed: bool) -> Seq<u8> {
    encode_utf8(
        if compressed {
            "stealth_pngcomp"@
        } else {
            "stealth_pnginfo"@
        },
    )
}

/// The bytes under which a payload is hidden.
pub open spec fn hidden_stream(compressed: bool, payload: Seq<u8>) -> Seq<u8> {
    magic_of(compressed) + be_bytes(8 * payload.len() as int) + payload
}

/// The bit with the given index in a stream of bytes, the highest of each first.
pub open spec fn stream_bit(stream: Seq<u8>, i: int) -> u8 {
    (stream[i / 8] >> ((7 - i % 8) as u8)) & 1
}

/// Whether the alpha channel of an image carries a stream of bytes.
pub open spec fn carries(img: Bitmap, stream: Seq<u8>) -> bool {
    &&& 8 * stream.len() <= img.area()
    &&& forall|i: int|
        0 <= i < 8 * stream.len() ==> #[trigger] alpha_bit(img, i) == stream_bit(stream, i)
}

proof fn lemma_byte_of_bits(b: u8)
    ensures
        128 * ((b >> 7u8) & 1) + 64 * ((b >> 6u8) & 1) + 32 * ((b >> 5u8) & 1) + 16 * ((b >> 4u8)
            & 1) + 8 * ((b >> 3u8) & 1) + 4 * ((b >> 2u8) & 1) + 2 * ((b >> 1u8) & 1) + ((b >> 0u8)
            & 1) == b,
{
    assert(128 * ((b >> 7u8) & 1) + 64 * ((b >> 6u8) & 1) + 32 * ((b >> 5u8) & 1) + 16 * ((b
        >> 4u8) & 1) + 8 * ((b >> 3u8) & 1) + 4 * ((b >> 2u8) & 1) + 2 * ((b >> 1u8) & 1) + ((b
        >> 0u8) & 1) == b) by (bit_vector);
}

/// A byte of a stream is where its bits are.
proof fn lemma_carried_byte(img: Bitmap, stream: Seq<u8>, k: int)
    requires
        carries(img, stream),
        0 <= k < stream.len(),
    ensures
        alpha_byte(img, 8 * k) == stream[k],
{
    let b = stream[k];
    assert forall|j: int| 0 <= j < 8 implies #[trigger] alpha_bit(img, 8 * k + j) == (b >> ((7 - j)
        as u8)) & 1 by {
        assert((8 * k + j) / 8 == k);
        assert((8 * k + j) % 8 == j);
        assert(alpha_bit(img, 8 * k + j) == stream_bit(stream, 8 * k + j));
    }
    lemma_byte_of_bits(b);
    assert(alpha_bit(img, 8 * k + 0) == (b >> 7u8) & 1);
    assert(alpha_bit(img, 8 * k + 1) == (b >> 6u8) & 1);
    assert(alpha_bit(img, 8 * k + 2) == (b >> 5u8) & 1);
    assert(alpha_bit(img, 8 * k + 3) == (b >> 4u8) & 1);
    assert(alpha_bit(img, 8 * k + 4) == (b >> 3u8) & 1);
    assert(alpha_bit(img, 8 * k + 5) == (b >> 2u8) & 1);
    assert(alpha_bit(img, 8 * k + 6) == (b >> 1u8) & 1);
    assert(alpha_bit(img, 8 * k + 7) == (b >> 0u8) & 1);
}

proof fn lemma_magic()
    ensures
        magic_of(true).len() == 15,
        magic_of(false).len() == 15,
        magic_of(true) != magic_of(false),
{
    reveal_strlit("stealth_pngcomp");
    reveal_strlit("stealth_pnginfo");
    assert(is_ascii_chars("stealth_pngcomp"@));
    assert(is_ascii_chars("stealth_pnginfo"@));
    is_ascii_chars_encode_utf8("stealth_pngcomp"@);
    is_ascii_chars_encode_utf8("stealth_pnginfo"@);
    assert("stealth_pngcomp"@[11] as u8 == encode_utf8("stealth_pngcomp"@)[11]);
    assert("stealth_pnginfo"@[11] as u8 == encode_utf8("stealth_pnginfo"@)[11]);
}

/// A payload that an image carries in its alpha channel is read back as it was
/// hidden, and so is whether it is compressed.
pub proof fn law_hidden_payload_is_read_back(img: Bitmap, compressed: bool, payload: Seq<u8>)
    requires
        carries(img, hidden_stream(compressed, payload)),
        payload.len() > 0,
        8 * payload.len() <= u32::MAX,
    ensures
        hidden_payload(img) == Some((compressed, payload)),
{
    let stream = hidden_stream(compressed, payload);
    let length = be_bytes(8 * payload.len() as int);
    lemma_stream_parts(compressed, payload);
    lemma_carried_part(img, stream, 0, magic_of(compressed));
    lemma_carried_part(img, stream, 15, length);
    lemma_carried_part(img, stream, 19, payload);
    lemma_be_bytes(8 * payload.len() as int);
    lemma_payload_of(img, compressed, length, payload);
}

/// Where the parts of a hidden stream stand in it.
proof fn lemma_stream_parts(compressed: bool, payload: Seq<u8>)
    ensures
        ({
            let stream = hidden_stream(compressed, payload);
            let length = be_bytes(8 * payload.len() as int);
            &&& magic_of(compressed).len() == 15
            &&& length.len() == 4
            &&& stream.len() == 19 + payload.len()
            &&& stream.subrange(0, 15) == magic_of(compressed)
            &&& stream.subrange(15, 19) == length
            &&& stream.subrange(19, 19int + payload.len()) == payload
        }),
{
    lemma_magic();
    lemma_three_parts(magic_of(compressed), be_bytes(8 * payload.len() as int), payload);
}

proof fn lemma_three_parts(a: Seq<u8>, b: Seq<u8>, c: Seq<u8>)
    ensures
        (a + b + c).subrange(0, a.len() as int) == a,
        (a + b + c).subrange(a.len() as int, (a.len() + b.len()) as int) == b,
        (a + b + c).subrange(
            (a.len() + b.len()) as int,
            (a.len() + b.len() + c.len()) as int,
        ) == c,
{
    assert((a + b + c).subrange(0, a.len() as int) =~= a);
    assert((a + b + c).subrange(a.len() as int, (a.len() + b.len()) as int) =~= b);
    assert((a + b + c).subrange(
        (a.len() + b.len()) as int,
        (a.len() + b.len() + c.len()) as int,
    ) =~= c);
}

/// What the parts of a hidden stream come to.
proof fn lemma_payload_of(img: Bitmap, compressed: bool, length: Seq<u8>, payload: Seq<u8>)
    requires
        alpha_bytes(img, 0, 15) == magic_of(compressed),
        alpha_bytes(img, 120, 4) == length,
        be32(length, 0) == 8 * payload.len(),
        alpha_bytes(img, 152, payload.len()) == payload,
        payload.len() > 0,
        152 + 8 * payload.len() <= img.area(),
    ensures
        hidden_payload(img) == Some((compressed, payload)),
{
    lemma_magic();
    let bits = be32(length, 0);
    assert(bits % 8 == 0 && bits / 8 == payload.len());
}

/// A part of a stream is where its bits are.
proof fn lemma_carried_part(img: Bitmap, stream: Seq<u8>, at: int, part: Seq<u8>)
    requires
        carries(img, stream),
        0 <= at,
        at + part.len() <= stream.len(),
        stream.subrange(at, at + part.len()) == part,
    ensures
        alpha_bytes(img, 8 * at, part.len()) == part,
{
    let bytes = alpha_bytes(img, 8 * at, part.len());
    assert forall|k: int| 0 <= k < part.len() implies bytes[k] == part[k] by {
        lemma_carried_byte(img, stream, at + k);
        assert(8 * at + 8 * k == 8 * (at + k));
        assert(stream.subrange(at, at + part.len())[k] == stream[at + k]);
    }
    assert(bytes =~= part);
}

/// What is hidden without compression is read back: an image that carries a text in
/// its alpha channel has the metadata that the text says.
pub proof fn law_hidden_text_is_read_back(
    width: u32,
    height: u32,
    img: Bitmap,
    text: Seq<char>,
)
    requires
        carries(img, hidden_stream(false, encode_utf8(text))),
        text.len() > 0,
        8 * encode_utf8(text).len() <= u32::MAX,
    ensures
        metadata_in_alpha(width, height, img) == match json_document(text) {
            Some(doc) => hidden_metadata(width, height, doc),
            None => None,
        },
{
    let payload = encode_utf8(text);
    encode_utf8_valid_utf8(text);
    encode_utf8_decode_utf8(text);
    assert(payload.len() > 0) by {
        if payload.len() == 0 {
            assert(decode_utf8(payload).len() == 0);
        }
    }
    law_hidden_payload_is_read_back(img, false, payload);
}

/// The members of an object that holds keywords and texts.
pub open spec fn as_members(texts: Seq<(Seq<char>, Seq<char>)>) -> Seq<(Seq<char>, JsonModel)> {
    texts.map_values(|t: (Seq<char>, Seq<char>)| (t.0, JsonModel::Text(t.1)))
}

/// A hidden document says what text chunks with its members would say.
pub proof fn law_hidden_document_mirrors_texts(
    width: u32,
    height: u32,
    texts: Seq<(Seq<char>, Seq<char>)>,
)
    ensures
        hidden_metadata(width, height, JsonModel::Object(as_members(texts))) == if metadata_of(
            width,
            height,
            texts,
        ).is_novelai {
            Some(metadata_of(width, height, texts))
        } else {
            None
        },
{
    lemma_text_members(texts);
}

proof fn lemma_text_members(texts: Seq<(Seq<char>, Seq<char>)>)
    ensures
        text_members(as_members(texts)) == texts,
    decreases texts.len(),
{
    let members = as_members(texts);
    if texts.len() > 0 {
        assert(members.drop_last() =~= as_members(texts.drop_last()));
        lemma_text_members(texts.drop_last());
        assert(text_members(members) =~= texts);
    } else {
        assert(text_members(members) =~= texts);
    }
}

} // verus!
