//! What PNG files tell of themselves.

use nai_gallery::json::parse_json;
use nai_gallery::nai::{
    from_alpha, from_hidden_document, from_texts, parse, parse_stealth, read_hidden_payload,
    AlphaLsbReader,
};
use nai_gallery::pixels::Rgba8;
use nai_gallery::png::read_png_chunks;
use std::io::Write;

fn encode_png(img: image::DynamicImage) -> Vec<u8> {
    let mut buf = std::io::Cursor::new(Vec::new());
    img.write_to(&mut buf, image::ImageFormat::Png).unwrap();
    buf.into_inner()
}

fn gzip(text: &str) -> Vec<u8> {
    let mut gz = flate2::write::GzEncoder::new(Vec::new(), flate2::Compression::default());
    gz.write_all(text.as_bytes()).unwrap();
    gz.finish().unwrap()
}

fn stream_of(magic: &[u8], payload: &[u8]) -> Vec<u8> {
    let mut stream = magic.to_vec();
    stream.extend_from_slice(&((payload.len() as u32) * 8).to_be_bytes());
    stream.extend_from_slice(payload);
    stream
}

fn embed(img: &mut image::RgbaImage, stream: &[u8]) {
    let height = img.height();
    assert!((stream.len() as u32) * 8 <= img.width() * height, "test image too small");
    for (i, byte) in stream.iter().enumerate() {
        for bit in 0..8 {
            let idx = (i * 8 + bit) as u32;
            let (x, y) = (idx / height, idx % height);
            let px = img.get_pixel_mut(x, y);
            px[3] = (px[3] & !1) | ((byte >> (7 - bit)) & 1);
        }
    }
}

fn document() -> String {
    let mut members = serde_json::Map::new();
    let mut put = |k: &str, v: &str| {
        members.insert(k.to_string(), serde_json::Value::String(v.to_string()));
    };
    put("Software", "NovelAI");
    put("Source", "Stable Diffusion XL C1E1DE52");
    put("Description", "1girl, smile");
    put(
        "Comment",
        r#"{"prompt":"1girl, smile","uc":"lowres, bad hands","seed":42,"sampler":"k_euler","steps":28,"scale":5.0}"#,
    );
    serde_json::Value::Object(members).to_string()
}

fn canvas(w: u32, h: u32) -> image::RgbaImage {
    image::RgbaImage::from_pixel(w, h, image::Rgba([120, 130, 140, 255]))
}

fn raw(img: &image::RgbaImage) -> Rgba8 {
    Rgba8 { width: img.width(), height: img.height(), pixels: img.as_raw().clone() }
}

fn chunk(kind: &[u8; 4], body: &[u8]) -> Vec<u8> {
    let mut out = (body.len() as u32).to_be_bytes().to_vec();
    out.extend_from_slice(kind);
    out.extend_from_slice(body);
    out.extend_from_slice(&[0, 0, 0, 0]);
    out
}

fn header(w: u32, h: u32, color_type: u8) -> Vec<u8> {
    let mut body = w.to_be_bytes().to_vec();
    body.extend_from_slice(&h.to_be_bytes());
    body.extend_from_slice(&[8, color_type, 0, 0, 0]);
    chunk(b"IHDR", &body)
}

fn text(key: &str, value: &str) -> Vec<u8> {
    let mut body = key.as_bytes().to_vec();
    body.push(0);
    body.extend_from_slice(value.as_bytes());
    chunk(b"tEXt", &body)
}

fn file(chunks: &[Vec<u8>]) -> Vec<u8> {
    let mut out = b"\x89PNG\r\n\x1a\n".to_vec();
    for c in chunks {
        out.extend_from_slice(c);
    }
    out
}

fn pairs(list: &[(&str, &str)]) -> Vec<(String, String)> {
    list.iter().map(|(k, v)| (k.to_string(), v.to_string())).collect()
}

#[test]
fn stealth_metadata_roundtrip() {
    let payload = document();
    let gz = gzip(&payload);
    let stream = stream_of(b"stealth_pngcomp", &gz);
    let mut img = canvas(64, 64);
    embed(&mut img, &stream);
    let data = encode_png(image::DynamicImage::ImageRgba8(img));

    let meta = parse(&data).expect("valid png");
    assert!(meta.is_novelai);
    assert_eq!(meta.seed, Some(42));
    assert_eq!(meta.raw_prompt.as_deref(), Some("1girl, smile"));
    assert_eq!(meta.raw_negative.as_deref(), Some("lowres, bad hands"));
    assert_eq!(meta.sampler.as_deref(), Some("k_euler"));
    assert!(meta.tags.iter().any(|t| t.name == "smile"));
    assert_eq!(meta.steps, Some(28));
    assert_eq!(meta.scale.as_deref(), Some("5"));
    assert_eq!(meta.model.as_deref(), Some("Stable Diffusion XL C1E1DE52"));
    assert_eq!((meta.width, meta.height), (64, 64));
}

#[test]
fn plain_rgba_png_without_stealth_stays_non_nai() {
    let img = image::RgbaImage::from_pixel(16, 16, image::Rgba([1, 2, 3, 255]));
    let meta = parse(&encode_png(image::DynamicImage::ImageRgba8(img))).expect("valid png");
    assert!(!meta.is_novelai);
    assert_eq!((meta.width, meta.height), (16, 16));
}

#[test]
fn stealth_without_compression_is_read() {
    let payload = document();
    let mut img = canvas(64, 48);
    embed(&mut img, &stream_of(b"stealth_pnginfo", payload.as_bytes()));
    let data = encode_png(image::DynamicImage::ImageRgba8(img));
    let meta = parse_stealth(&data, 7, 9).unwrap();
    assert_eq!(meta.seed, Some(42));
    assert_eq!((meta.width, meta.height), (7, 9));
}

#[test]
fn hidden_payload_is_read_back() {
    for magic in [b"stealth_pngcomp", b"stealth_pnginfo"] {
        let mut img = canvas(13, 31);
        let payload = [0u8, 1, 0x80, 0xff, 0x55];
        embed(&mut img, &stream_of(magic, &payload));
        let (compressed, found) = read_hidden_payload(&raw(&img)).unwrap();
        assert_eq!(compressed, magic == b"stealth_pngcomp");
        assert_eq!(found, payload);
    }
}

#[test]
fn hidden_payload_needs_magic_room_and_length() {
    // another magic
    let mut img = canvas(32, 32);
    embed(&mut img, &stream_of(b"stealth_pngother", b"x"));
    assert!(read_hidden_payload(&raw(&img)).is_none());
    // no room for the magic
    assert!(read_hidden_payload(&raw(&canvas(7, 17))).is_none());
    // no room for the length
    let mut img = canvas(10, 12);
    embed(&mut img, b"stealth_pnginfo");
    assert!(read_hidden_payload(&raw(&img)).is_none());
    // a length of zero, one that is no whole byte, one that is too long
    for bits in [0u32, 9, 8 * 1000] {
        let mut img = canvas(32, 32);
        let mut stream = b"stealth_pnginfo".to_vec();
        stream.extend_from_slice(&bits.to_be_bytes());
        embed(&mut img, &stream);
        assert!(read_hidden_payload(&raw(&img)).is_none());
    }
}

#[test]
fn hidden_text_must_be_json_text_from_novelai() {
    let cases: [(&[u8], &[u8]); 5] = [
        (b"stealth_pnginfo", b"\xff\xfe"),
        (b"stealth_pnginfo", b"not json"),
        (b"stealth_pnginfo", b"[1]"),
        (b"stealth_pnginfo", br#"{"Software":"other"}"#),
        (b"stealth_pngcomp", br#"{"Software":"NovelAI"}"#),
    ];
    for (magic, payload) in cases {
        let mut img = canvas(64, 64);
        embed(&mut img, &stream_of(magic, payload));
        assert!(from_alpha(1, 1, &raw(&img)).is_none());
    }
    let mut img = canvas(64, 64);
    embed(&mut img, &stream_of(b"stealth_pnginfo", br#"{"Software":"NovelAI","Other":3}"#));
    assert!(from_alpha(1, 1, &raw(&img)).unwrap().is_novelai);
}

#[test]
fn alpha_bits_go_down_the_columns() {
    let mut img = canvas(3, 4);
    // the first column holds 1010, the second 0101
    for (x, y, bit) in [(0, 0, 1), (0, 1, 0), (0, 2, 1), (0, 3, 0), (1, 0, 0), (1, 1, 1), (1, 2, 0), (1, 3, 1)] {
        img.get_pixel_mut(x, y)[3] = 254 | bit;
    }
    let r = raw(&img);
    let mut reader = AlphaLsbReader { img: &r, bit: 0 };
    assert_eq!(reader.read_bytes(1), Some(vec![0b1010_0101]));
    assert_eq!(reader.bit, 8);
    assert_eq!(reader.read_bytes(1), None);
    assert_eq!(reader.bit, 8);
}

#[test]
fn sixteen_bit_images_hide_nothing() {
    let img = image::ImageBuffer::<image::Rgba<u16>, Vec<u16>>::from_pixel(8, 8, image::Rgba([1, 2, 3, 4]));
    let data = encode_png(image::DynamicImage::ImageRgba16(img));
    assert!(parse_stealth(&data, 8, 8).is_none());
    assert!(!parse(&data).unwrap().is_novelai);
    assert!(parse_stealth(b"not an image", 8, 8).is_none());
}

#[test]
fn chunks_are_walked_to_the_end_mark() {
    let data = file(&[
        header(640, 480, 2),
        text("Software", "NovelAI"),
        chunk(b"teXt", b"a\0b"),
        chunk(b"IEND", b""),
        text("Late", "x"),
    ]);
    let (w, h, color, texts) = read_png_chunks(&data).unwrap();
    assert_eq!((w, h, color), (640, 480, 2));
    assert_eq!(texts, pairs(&[("Software", "NovelAI")]));
}

#[test]
fn broken_chunks_end_the_walk() {
    let mut data = file(&[header(3, 5, 6), text("A", "b")]);
    data.extend_from_slice(&[0, 0, 0, 9]);
    data.extend_from_slice(b"tEXtk\0v");
    let (w, h, color, texts) = read_png_chunks(&data).unwrap();
    assert_eq!((w, h, color), (3, 5, 6));
    assert_eq!(texts, pairs(&[("A", "b")]));
    // a header that is too short says nothing
    let (w, h, color, _) = read_png_chunks(&file(&[chunk(b"IHDR", &[0, 0, 0, 1, 0, 0, 0, 1, 8])])).unwrap();
    assert_eq!((w, h, color), (0, 0, 0));
    assert!(read_png_chunks(b"\x89PNG\r\n\x1a").is_none());
    assert!(read_png_chunks(b"GIF89a..").is_none());
}

#[test]
fn a_chunk_that_is_cut_off_is_ignored() {
    let whole = file(&[header(3, 5, 6), text("A", "b")]);
    let alone = read_png_chunks(&whole).unwrap();
    let next = text("Late", "a longer text");
    for n in 0..next.len() {
        let mut data = whole.clone();
        data.extend_from_slice(&next[..n]);
        assert_eq!(read_png_chunks(&data).unwrap(), alone);
    }
    let mut data = whole.clone();
    data.extend_from_slice(&next);
    assert_eq!(read_png_chunks(&data).unwrap().3, pairs(&[("A", "b"), ("Late", "a longer text")]));
}

#[test]
fn international_texts_are_read_where_plain() {
    let data = file(&[
        chunk(b"iTXt", b"key\0\0\0en\0translated\0value"),
        chunk(b"iTXt", b"packed\0\x01\0en\0t\0value"),
        chunk(b"iTXt", b"short\0\0"),
        chunk(b"iTXt", b"one\0\0\0en\0rest"),
        chunk(b"tEXt", b"no zero"),
    ]);
    let (_, _, _, texts) = read_png_chunks(&data).unwrap();
    assert_eq!(texts, pairs(&[("key", "value")]));
}

#[test]
fn invalid_text_is_replaced() {
    let (_, _, _, texts) = read_png_chunks(&file(&[chunk(b"tEXt", b"k\xff\0v\xe9")])).unwrap();
    assert_eq!(texts, pairs(&[("k\u{fffd}", "v\u{fffd}")]));
}

#[test]
fn foreign_files_have_their_size_only() {
    let data = file(&[
        header(20, 30, 2),
        text("Software", "Editor"),
        text("Source", "camera"),
        text("Description", "a, b"),
    ]);
    let meta = parse(&data).unwrap();
    assert!(!meta.is_novelai);
    assert_eq!((meta.width, meta.height), (20, 30));
    assert_eq!(meta.model, None);
    assert_eq!(meta.raw_prompt, None);
    assert!(meta.tags.is_empty());
}

#[test]
fn old_files_have_their_prompt_in_the_description() {
    let data = file(&[
        header(1, 1, 2),
        text("Software", "NovelAI"),
        text("Source", "V1"),
        text("Description", "Cat, artist: Someone"),
    ]);
    let meta = parse(&data).unwrap();
    assert_eq!(meta.model.as_deref(), Some("V1"));
    assert_eq!(meta.raw_prompt.as_deref(), Some("Cat, artist: Someone"));
    assert_eq!(meta.raw_negative, None);
    assert_eq!(meta.comment_json, None);
    let names: Vec<&str> = meta.tags.iter().map(|t| t.name.as_str()).collect();
    assert_eq!(names, vec!["cat", "someone"]);
}

#[test]
fn structured_prompts_name_characters() {
    let comment = r#"{"prompt":"old","seed":-3,"scale":6.5,"steps":28.5,
        "v4_prompt":{"caption":{"base_caption":"1girl, Rain","char_captions":[
            {"char_caption":"girl, red hair"},{"other":1},{"char_caption":"girl, sword"}]}},
        "v4_negative_prompt":{"caption":{"base_caption":"lowres"}},"uc":"unused"}"#;
    let meta = from_texts(2, 3, &pairs(&[("Software", "NovelAI"), ("Comment", comment)]));
    assert_eq!(meta.seed, Some(-3));
    assert_eq!(meta.scale.as_deref(), Some("6.5"));
    assert_eq!(meta.steps, None);
    assert_eq!(meta.sampler, None);
    assert_eq!(meta.raw_prompt.as_deref(), Some("1girl, Rain"));
    assert_eq!(meta.raw_negative.as_deref(), Some("lowres"));
    assert_eq!(meta.comment_json.as_deref(), Some(comment));
    let tags: Vec<(&str, &str)> =
        meta.tags.iter().map(|t| (t.name.as_str(), t.source.as_str())).collect();
    // each caption is read for itself
    assert_eq!(
        tags,
        vec![
            ("1girl", "base"),
            ("rain", "base"),
            ("girl", "char"),
            ("red hair", "char"),
            ("girl", "char"),
            ("sword", "char")
        ]
    );
}

#[test]
fn comments_fall_back() {
    let base = [("Software", "NovelAI"), ("Description", "from, description")];
    // without a prompt, the description
    let meta = from_texts(1, 1, &pairs(&[base[0], base[1], ("Comment", r#"{"negative_prompt":"bad"}"#)]));
    assert_eq!(meta.raw_prompt.as_deref(), Some("from, description"));
    assert_eq!(meta.raw_negative.as_deref(), Some("bad"));
    assert_eq!(meta.tags.len(), 2);
    // a comment that is not JSON says nothing
    let meta = from_texts(1, 1, &pairs(&[base[0], base[1], ("Comment", "{")]));
    assert_eq!(meta.raw_prompt, None);
    assert!(meta.tags.is_empty());
    assert!(meta.is_novelai);
    // the first of two texts counts
    let meta = from_texts(1, 1, &pairs(&[base[0], ("Source", "a"), ("Source", "b")]));
    assert_eq!(meta.model.as_deref(), Some("a"));
}

#[test]
fn json_values_are_read_by_kind() {
    let j = parse_json(r#"{"a":{"b":{"c":"x"}},"n":7,"big":18446744073709551615,"f":2.0,"t":true,"z":null}"#).unwrap();
    assert_eq!(j.int_at("n"), Some(7));
    assert_eq!(j.int_at("big"), None);
    assert_eq!(j.int_at("f"), None);
    assert_eq!(j.real_at("f").as_deref(), Some("2"));
    assert_eq!(j.real_at("n").as_deref(), Some("7"));
    assert_eq!(j.text_at("n"), None);
    assert_eq!(j.inside("a", "b").and_then(|v| v.text_at("c")).as_deref(), Some("x"));
    assert!(j.get("missing").is_none());
    assert!(parse_json("[1,").is_none());
    assert!(from_hidden_document(1, 1, &j).is_none());
}

#[test]
fn hidden_documents_mirror_text_chunks() {
    let list = [("Software", "NovelAI"), ("Source", "V3"), ("Description", "sky, sea"), ("Title", "t")];
    let mut members = serde_json::Map::new();
    for (k, v) in list {
        members.insert(k.to_string(), serde_json::Value::String(v.to_string()));
    }
    let doc = parse_json(&serde_json::Value::Object(members).to_string()).unwrap();
    let hidden = from_hidden_document(4, 5, &doc).unwrap();
    let plain = from_texts(4, 5, &pairs(&list));
    assert_eq!(hidden.model, plain.model);
    assert_eq!(hidden.raw_prompt, plain.raw_prompt);
    assert_eq!(hidden.tags.len(), 2);
    assert_eq!(plain.tags.len(), 2);
    assert_eq!((hidden.width, hidden.height), (4, 5));
}
