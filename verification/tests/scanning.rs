//! Scans: what is read, what it holds, and how it enters the index.

use nai_gallery::db;
use nai_gallery::nai::{self, NaiMetadata};
use nai_gallery::scanner::{
    fill_size, make_thumbnail, plan_scan, probe_dimensions, read_image, should_report, FoundFile,
    KnownFile, THUMB_MAX_DIM,
};
use nai_gallery::sql::{Db, DbError};
use nai_gallery::store::{
    forget_files, indexed_files, insert_image, known_files, numbers_of, store_hashes, store_scan,
    unhashed_images, ParsedFile,
};
use nai_gallery::tags::normalize_tags;

fn ok<T>(r: Result<T, DbError>) -> T {
    match r {
        Ok(v) => v,
        Err(DbError::Sqlite(e)) => panic!("{e}"),
        Err(DbError::NoRows) => panic!("no rows"),
        Err(DbError::Column) => panic!("column"),
    }
}

fn mem_db() -> Db {
    ok(db::open(rusqlite::Connection::open_in_memory().unwrap()))
}

fn number(db: &mut Db, sql: &str) -> i64 {
    ok(db.query_row(sql, &vec![]))
}

fn encode(w: u32, h: u32, format: image::ImageFormat) -> Vec<u8> {
    let img = image::DynamicImage::ImageRgb8(image::RgbImage::new(w, h));
    let mut buf = std::io::Cursor::new(Vec::new());
    img.write_to(&mut buf, format).unwrap();
    buf.into_inner()
}

fn known(path: &str, size: i64, mtime: i64, width: i64) -> KnownFile {
    KnownFile { path: path.to_string(), size, mtime, width }
}

fn found(path: &str, size: i64, mtime: i64) -> FoundFile {
    FoundFile { path: path.to_string(), size, mtime }
}

fn paths(list: &[FoundFile]) -> Vec<&str> {
    list.iter().map(|f| f.path.as_str()).collect()
}

fn file(path: &str, meta: Option<NaiMetadata>) -> ParsedFile {
    ParsedFile { path: path.to_string(), size: 11, mtime: 22, meta }
}

fn meta(prompt: &str) -> NaiMetadata {
    NaiMetadata {
        is_novelai: true,
        width: 832,
        height: 1216,
        model: Some("m".into()),
        seed: Some(7),
        sampler: Some("s".into()),
        steps: Some(28),
        scale: Some("5.5".into()),
        raw_prompt: Some(prompt.into()),
        raw_negative: Some("n".into()),
        comment_json: Some("{}".into()),
        tags: normalize_tags(prompt, "base"),
    }
}

#[test]
fn probe_reads_dims_of_misnamed_formats() {
    // a JPEG or WebP saved with a .png extension fails the signature check
    // but must still yield real dimensions
    let jpg = encode(30, 60, image::ImageFormat::Jpeg);
    assert!(nai::parse(&jpg).is_none());
    assert_eq!(probe_dimensions(&jpg), Some((30, 60)));

    let webp = encode(40, 20, image::ImageFormat::WebP);
    assert!(nai::parse(&webp).is_none());
    assert_eq!(probe_dimensions(&webp), Some((40, 20)));
}

#[test]
fn misnamed_files_get_their_size() {
    let m = read_image(&encode(30, 60, image::ImageFormat::Jpeg)).unwrap();
    assert_eq!((m.width, m.height), (30, 60));
    assert!(!m.is_novelai);
    let m = read_image(&encode(5, 6, image::ImageFormat::Png)).unwrap();
    assert_eq!((m.width, m.height), (5, 6));
    assert!(read_image(b"nothing").is_none());
    assert_eq!(probe_dimensions(b"nothing"), None);
    // a PNG whose chunks tell no size, and that cannot be probed either
    let m = read_image(b"\x89PNG\r\n\x1a\n").unwrap();
    assert_eq!((m.width, m.height), (0, 0));
}

#[test]
fn sizes_are_filled_in_where_lacking() {
    let m = fill_size(Some(meta("a")), Some((1, 2))).unwrap();
    assert_eq!((m.width, m.height), (832, 1216));
    let mut flat = meta("a");
    flat.height = 0;
    let m = fill_size(Some(flat), Some((1, 2))).unwrap();
    assert_eq!((m.width, m.height, m.seed), (1, 2, Some(7)));
    let mut flat = meta("a");
    flat.width = 0;
    assert_eq!(fill_size(Some(flat), None).unwrap().width, 0);
    assert!(fill_size(None, None).is_none());
    assert_eq!(fill_size(None, Some((3, 4))).unwrap().width, 3);
}

#[test]
fn thumbnails_keep_the_shape_within_bounds() {
    let thumb = make_thumbnail(&encode(100, 200, image::ImageFormat::Png)).unwrap();
    let img = image::load_from_memory(&thumb).unwrap();
    assert_eq!(img.height(), img.width() * 2);
    assert!(img.width().max(img.height()) <= THUMB_MAX_DIM);
    assert_eq!(image::guess_format(&thumb).unwrap(), image::ImageFormat::Jpeg);
    assert!(make_thumbnail(&encode(64, 32, image::ImageFormat::WebP)).is_some());
    assert!(make_thumbnail(b"not an image").is_none());
    let wide = make_thumbnail(&encode(2000, 10, image::ImageFormat::Png)).unwrap();
    assert_eq!(probe_dimensions(&wide), Some((512, 3)));
}

#[test]
fn thumbnails_are_made_only_where_sums_fit() {
    let mut buf = std::io::Cursor::new(Vec::new());
    let deep: image::ImageBuffer<image::Luma<u16>, Vec<u16>> = image::ImageBuffer::new(34_000_000, 1);
    image::DynamicImage::ImageLuma16(deep).write_to(&mut buf, image::ImageFormat::Png).unwrap();
    assert!(make_thumbnail(&buf.into_inner()).is_none());
    let mut buf = std::io::Cursor::new(Vec::new());
    let deep: image::ImageBuffer<image::Luma<u16>, Vec<u16>> = image::ImageBuffer::new(600, 900);
    image::DynamicImage::ImageLuma16(deep).write_to(&mut buf, image::ImageFormat::Png).unwrap();
    assert_eq!(probe_dimensions(&make_thumbnail(&buf.into_inner()).unwrap()), Some((341, 512)));
}

#[test]
fn progress_is_reported_now_and_then_and_at_the_end() {
    assert!(should_report(25, 60, 25));
    assert!(!should_report(26, 60, 25));
    assert!(should_report(60, 60, 25));
    assert!(should_report(200, 1000, 100));
}

#[test]
fn changed_and_new_files_are_read() {
    let index = vec![
        known("same.png", 1, 1, 10),
        known("grown.png", 1, 1, 10),
        known("touched.png", 1, 1, 10),
        known("unsized.png", 1, 1, 0),
        known("gone.png", 1, 1, 10),
    ];
    let plan = plan_scan(
        &index,
        vec![
            found("unsized.png", 1, 1),
            found("same.png", 1, 1),
            found("touched.png", 1, 2),
            found("new.png", 1, 1),
            found("grown.png", 2, 1),
        ],
    );
    assert_eq!(paths(&plan.pending), vec!["unsized.png", "touched.png", "new.png", "grown.png"]);
    assert_eq!(plan.gone, vec!["gone.png"]);
}

#[test]
fn a_second_scan_has_nothing_to_do() {
    let index = vec![known("a.png", 3, 4, 5), known("b.png", 6, 7, 8)];
    let plan = plan_scan(&index, vec![found("b.png", 6, 7), found("a.png", 3, 4)]);
    assert!(plan.pending.is_empty());
    assert!(plan.gone.is_empty());
}

#[test]
fn the_last_entry_of_a_path_counts_and_gone_paths_come_once() {
    let index = vec![known("a", 1, 1, 1), known("x", 1, 1, 1), known("a", 2, 2, 2), known("x", 5, 5, 5)];
    let plan = plan_scan(&index, vec![found("a", 2, 2)]);
    assert!(plan.pending.is_empty());
    assert_eq!(plan.gone, vec!["x"]);
    let plan = plan_scan(&Vec::new(), vec![found("a", 1, 1), found("a", 1, 1)]);
    assert_eq!(paths(&plan.pending), vec!["a", "a"]);
}

#[test]
fn files_enter_with_their_metadata() {
    let mut db = mem_db();
    let folder = ok(db::add_folder(&mut db, "pics"));
    ok(insert_image(&mut db, folder, &file("pics/a.png", Some(meta("cat, artist: Bob")))));
    ok(insert_image(&mut db, folder, &file("pics/b.png", None)));
    let a = ok(db::get_id_by_path(&mut db, "pics/a.png"));
    let d = ok(db::get_image(&mut db, a));
    assert_eq!((d.width, d.height, d.file_mtime, d.is_novelai), (832, 1216, 22, true));
    assert_eq!((d.seed, d.steps), (Some(7), Some(28)));
    assert_eq!(d.scale.as_deref(), Some("5.5"));
    assert_eq!(d.raw_prompt.as_deref(), Some("cat, artist: Bob"));
    assert_eq!(d.raw_negative.as_deref(), Some("n"));
    let tags: Vec<(&str, &str)> =
        d.tags.iter().map(|t| (t.name.as_str(), t.category.as_str())).collect();
    assert_eq!(tags, vec![("bob", "artist"), ("cat", "general")]);
    let b = ok(db::get_id_by_path(&mut db, "pics/b.png"));
    let d = ok(db::get_image(&mut db, b));
    assert_eq!((d.width, d.height, d.is_novelai), (0, 0, false));
    assert_eq!((d.model, d.seed, d.scale), (None, None, None));
    let list = ok(known_files(&mut db, folder));
    assert_eq!(list.len(), 2);
    assert_eq!((list[0].size, list[0].mtime, list[0].width), (11, 22, 832));
}

#[test]
fn what_a_user_said_survives_a_rescan() {
    let mut db = mem_db();
    let folder = ok(db::add_folder(&mut db, "pics"));
    ok(store_scan(&mut db, folder, &vec![file("pics/a.png", Some(meta("cat, dog")))]));
    let id = ok(db::get_id_by_path(&mut db, "pics/a.png"));
    assert!(db::add_user_tags(&mut db, &[id], "mine").is_ok());
    ok(db::set_rating(&mut db, id, 4));
    ok(db::set_favorite(&mut db, id, true));
    ok(store_hashes(&mut db, &vec![(id, 99)]));
    assert!(ok(unhashed_images(&mut db, folder)).is_empty());

    ok(store_scan(&mut db, folder, &vec![file("pics/a.png", Some(meta("cat, bird")))]));
    assert_eq!(ok(db::get_id_by_path(&mut db, "pics/a.png")), id);
    let d = ok(db::get_image(&mut db, id));
    let tags: Vec<(&str, &str)> =
        d.tags.iter().map(|t| (t.name.as_str(), t.source.as_str())).collect();
    assert_eq!(tags, vec![("bird", "base"), ("cat", "base"), ("mine", "user")]);
    assert_eq!((d.rating, d.favorite), (4, true));
    // the hash is to be computed again
    assert_eq!(ok(unhashed_images(&mut db, folder)), vec![id]);
    assert!(number(&mut db, "SELECT last_scanned FROM folders") > 0);
}

#[test]
fn a_scan_is_stored_whole_or_not_at_all() {
    let mut db = mem_db();
    let folder = ok(db::add_folder(&mut db, "pics"));
    // a trigger refuses the second file
    ok(db.batch("CREATE TRIGGER refuse BEFORE INSERT ON images WHEN NEW.path = 'bad' BEGIN SELECT RAISE(ABORT, 'no'); END;"));
    let files = vec![file("good", Some(meta("x"))), file("bad", None), file("other", None)];
    assert!(matches!(store_scan(&mut db, folder, &files), Err(DbError::Sqlite(_))));
    assert_eq!(number(&mut db, "SELECT COUNT(*) FROM images"), 0);
    assert_eq!(number(&mut db, "SELECT COUNT(*) FROM tags"), 0);
    // the connection is free for the next
    ok(store_scan(&mut db, folder, &vec![file("good", None)]));
    assert_eq!(number(&mut db, "SELECT COUNT(*) FROM images"), 1);
    // inside another transaction none can be started
    ok(db.batch("BEGIN"));
    assert!(matches!(store_scan(&mut db, folder, &vec![]), Err(DbError::Sqlite(_))));
    ok(db.batch("ROLLBACK"));
    assert!(matches!(store_scan(&mut db, 77, &vec![file("f", None)]), Err(DbError::Sqlite(_))));
}

#[test]
fn hashes_are_stored_whole_or_not_at_all() {
    let mut db = mem_db();
    let folder = ok(db::add_folder(&mut db, "pics"));
    ok(store_scan(&mut db, folder, &vec![file("a", None), file("b", None)]));
    let ids: Vec<i64> = ok(indexed_files(&mut db, folder)).iter().map(|x| x.0).collect();
    ok(db.batch("CREATE TRIGGER refuse BEFORE UPDATE OF phash ON images WHEN NEW.phash = 5 BEGIN SELECT RAISE(ABORT, 'no'); END;"));
    assert!(store_hashes(&mut db, &vec![(ids[0], 4), (ids[1], 5)]).is_err());
    assert_eq!(ok(unhashed_images(&mut db, folder)).len(), 2);
    ok(store_hashes(&mut db, &vec![(ids[0], 4), (ids[1], i64::MIN)]));
    assert_eq!(number(&mut db, "SELECT phash FROM images WHERE path = 'b'"), i64::MIN);
}

#[test]
fn files_leave_and_are_found_by_number() {
    let mut db = mem_db();
    let folder = ok(db::add_folder(&mut db, "pics"));
    let files = vec![file("a", None), file("b", None), file("c", None)];
    ok(store_scan(&mut db, folder, &files));
    let all = numbers_of(&mut db, &files);
    assert_eq!(all.iter().map(|x| x.1).collect::<Vec<_>>(), vec![0, 1, 2]);
    forget_files(&mut db, &vec!["b".to_string(), "missing".to_string()]);
    let left = numbers_of(&mut db, &files);
    assert_eq!(left, vec![all[0], all[2]]);
    assert_eq!(
        ok(indexed_files(&mut db, folder)),
        vec![(all[0].0, "a".to_string()), (all[2].0, "c".to_string())]
    );
}
