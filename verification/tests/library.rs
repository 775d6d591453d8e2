//! The index over a real SQLite database in memory.

use nai_gallery::paths::reads_backslash;
use nai_gallery::db::{self, TagError, TagSuggestion};
use nai_gallery::duplicates::find_duplicates;
use nai_gallery::query::{build_where, default_limit, query_images, Query};
use nai_gallery::sql::{Db, DbError, Param};
use nai_gallery::tree::{dir_counts, folder_tree, relative_dir};

fn num(n: i64) -> Param {
    Param::Integer(n)
}

fn txt(s: &str) -> Param {
    Param::Text(s.to_string())
}

fn ok<T>(r: Result<T, DbError>) -> T {
    match r {
        Ok(v) => v,
        Err(DbError::Sqlite(e)) => panic!("{e}"),
        Err(DbError::NoRows) => panic!("no rows"),
        Err(DbError::Column) => panic!("column"),
    }
}

/// Baseline and every migration, as on disk.
fn mem_db() -> Db {
    ok(db::open(rusqlite::Connection::open_in_memory().unwrap()))
}

fn add_image(db: &mut Db, id: i64, mtime: i64, hidden: i64) {
    let path = format!("D:\\g\\{id}.png");
    ok(db.execute(
        "INSERT INTO images(id, path, file_size, file_mtime, hidden)
             VALUES (?1, ?2, 100, ?3, ?4)",
        &vec![num(id), txt(&path), num(mtime), num(hidden)],
    ));
}

fn tag_image(db: &mut Db, image_id: i64, name: &str, source: &str, hidden: i64) {
    ok(db.execute(
        "INSERT OR IGNORE INTO tags(name, category, hidden) VALUES (?1, 'general', ?2)",
        &vec![txt(name), num(hidden)],
    ));
    let tag_id: i64 = ok(db.query_row("SELECT id FROM tags WHERE name = ?1", &vec![txt(name)]));
    ok(db.execute(
        "INSERT OR IGNORE INTO image_tags(image_id, tag_id, source) VALUES (?1, ?2, ?3)",
        &vec![num(image_id), num(tag_id), txt(source)],
    ));
}

fn number(db: &mut Db, sql: &str) -> i64 {
    ok(db.query_row(sql, &vec![]))
}

fn everything() -> Query {
    Query { limit: default_limit(), ..Default::default() }
}

fn found(db: &mut Db, q: &Query) -> Vec<i64> {
    let r = ok(query_images(db, q));
    r.cards.iter().map(|c| c.id).collect()
}

fn counts(list: &[TagSuggestion]) -> Vec<(&str, i64)> {
    list.iter().map(|t| (t.name.as_str(), t.count)).collect()
}

#[test]
fn tag_frequency_counts_only_visible_and_unhidden() {
    let mut conn = mem_db();
    add_image(&mut conn, 1, 1_700_000_000, 0);
    add_image(&mut conn, 2, 1_700_000_000, 0);
    add_image(&mut conn, 3, 1_700_000_000, 1); // rejected — must not count
    for id in [1, 2, 3] {
        tag_image(&mut conn, id, "1girl", "base", 0);
    }
    tag_image(&mut conn, 1, "smile", "base", 0);
    tag_image(&mut conn, 1, "masterpiece", "base", 1); // hidden tag
    tag_image(&mut conn, 1, "bad hands", "negative", 0); // negative-prompt row

    let freq = ok(db::tag_frequency(&mut conn, 10));
    let names: Vec<(&str, i64)> = freq.iter().map(|t| (t.name.as_str(), t.count)).collect();
    assert_eq!(names, vec![("1girl", 2), ("smile", 1)]);
    assert_eq!(ok(db::tag_frequency(&mut conn, 1)).len(), 1);
}

#[test]
fn cooccurrence_pairs_each_combination_once() {
    let mut conn = mem_db();
    add_image(&mut conn, 1, 1_700_000_000, 0);
    add_image(&mut conn, 2, 1_700_000_000, 0);
    for id in [1, 2] {
        tag_image(&mut conn, id, "1girl", "base", 0);
        tag_image(&mut conn, id, "smile", "base", 0);
    }
    tag_image(&mut conn, 1, "blue hair", "base", 0);

    let pairs = ok(db::tag_cooccurrence(&mut conn, 10));
    assert_eq!(pairs.len(), 3);
    let top = &pairs[0];
    assert_eq!(top.count, 2);
    assert_eq!(
        [top.a.as_str(), top.b.as_str()].iter().copied().collect::<std::collections::HashSet<_>>(),
        ["1girl", "smile"].into_iter().collect()
    );
}

#[test]
fn images_per_day_buckets_by_local_day_and_window() {
    let mut conn = mem_db();
    let now = std::time::SystemTime::now()
        .duration_since(std::time::UNIX_EPOCH)
        .unwrap()
        .as_secs() as i64;
    add_image(&mut conn, 1, now, 0);
    add_image(&mut conn, 2, now, 0);
    add_image(&mut conn, 3, now - 3 * 86_400, 0);
    add_image(&mut conn, 4, now, 1); // rejected
    add_image(&mut conn, 5, now - 400 * 86_400, 0); // outside the window

    let rows = ok(db::images_per_day(&mut conn, 90));
    let total: i64 = rows.iter().map(|r| r.count).sum();
    assert_eq!(total, 3);
    assert_eq!(rows.last().unwrap().count, 2);
    // ascending by day, and the far-past image never shows up
    assert!(rows.windows(2).all(|w| w[0].day < w[1].day));
}

#[test]
fn windows_have_a_day_at_least_and_ten_years_at_most() {
    assert_eq!(db::window_start(90), "-89 days");
    assert_eq!(db::window_start(1), "-0 days");
    assert_eq!(db::window_start(0), "-0 days");
    assert_eq!(db::window_start(i64::MIN), "-0 days");
    assert_eq!(db::window_start(3650), "-3649 days");
    assert_eq!(db::window_start(i64::MAX), "-3649 days");
}

#[test]
fn indexes_of_every_version_are_brought_up() {
    for version in 0..3 {
        let conn = rusqlite::Connection::open_in_memory().unwrap();
        conn.execute_batch(db::SCHEMA).unwrap();
        if version > 0 {
            conn.execute_batch(db::TAG_HIDING).unwrap();
        }
        if version > 1 {
            conn.execute_batch(db::IMAGE_HASH).unwrap();
        }
        conn.pragma_update(None, "user_version", version).unwrap();
        let mut db = ok(db::open(conn));
        assert_eq!(number(&mut db, "PRAGMA user_version"), 2);
        assert_eq!(number(&mut db, "SELECT COUNT(*) FROM pragma_table_info('tags') WHERE name = 'hidden'"), 1);
        assert_eq!(number(&mut db, "SELECT COUNT(*) FROM pragma_table_info('images') WHERE name = 'phash'"), 1);
        assert_eq!(number(&mut db, "PRAGMA foreign_keys"), 1);
        // doing it again changes nothing
        ok(db::prepare_index(&mut db));
        assert_eq!(number(&mut db, "PRAGMA user_version"), 2);
    }
}

#[test]
fn versions_that_are_not_known_are_left_alone() {
    for version in [7, -1] {
        let conn = rusqlite::Connection::open_in_memory().unwrap();
        conn.pragma_update(None, "user_version", version).unwrap();
        let mut db = ok(db::open(conn));
        assert_eq!(number(&mut db, "PRAGMA user_version"), version);
        assert_eq!(number(&mut db, "SELECT COUNT(*) FROM pragma_table_info('images') WHERE name = 'phash'"), 0);
    }
}

#[test]
fn a_step_that_fails_stops_the_rest() {
    // the column of the first step is there, but the version does not tell
    let conn = rusqlite::Connection::open_in_memory().unwrap();
    conn.execute_batch(db::SCHEMA).unwrap();
    conn.execute_batch(db::TAG_HIDING).unwrap();
    assert!(matches!(db::open(conn), Err(DbError::Sqlite(_))));
}

#[test]
fn searches_intersect_tags_and_leave_others_out() {
    let mut db = mem_db();
    for id in 1..=4 {
        add_image(&mut db, id, 100 + id, 0);
        tag_image(&mut db, id, "1girl", "base", 0);
    }
    for id in [2, 3] {
        tag_image(&mut db, id, "smile", "base", 0);
    }
    tag_image(&mut db, 3, "rain", "base", 0);
    let mut q = everything();
    q.include_tags = vec!["1girl".into(), "smile".into()];
    assert_eq!(found(&mut db, &q), vec![3, 2]);
    q.exclude_tags = vec!["rain".into(), "snow".into()];
    assert_eq!(found(&mut db, &q), vec![2]);
    q.include_tags = vec![];
    assert_eq!(found(&mut db, &q), vec![4, 2, 1]);
    // naming a tag again changes nothing
    q.exclude_tags = vec![];
    q.include_tags = vec!["smile".into()];
    assert_eq!(found(&mut db, &q), vec![3, 2]);
    q.include_tags = vec!["smile".into(), "smile".into()];
    assert_eq!(found(&mut db, &q), vec![3, 2]);
    q.include_tags = vec!["smile".into(), "1girl".into(), "smile".into(), "rain".into()];
    assert_eq!(found(&mut db, &q), vec![3]);
    q.include_tags = vec!["smile".into(), "snow".into(), "snow".into()];
    assert_eq!(found(&mut db, &q), Vec::<i64>::new());
}

#[test]
fn searches_filter_sort_and_page() {
    let mut db = mem_db();
    ok(db.execute("INSERT INTO folders(id, path) VALUES (9, 'D:\\g')", &vec![]));
    for id in 1..=5 {
        add_image(&mut db, id, 1000 - id, (id == 5) as i64);
    }
    ok(db.execute("UPDATE images SET folder_id = 9, raw_prompt = 'a RED fox' WHERE id = 2", &vec![]));
    ok(db.execute("UPDATE images SET raw_negative = 'red, blurry' WHERE id = 3", &vec![]));
    ok(db::set_rating(&mut db, 1, 4));
    ok(db::set_rating(&mut db, 3, 99));
    ok(db::set_favorite(&mut db, 4, true));
    let album = ok(db::create_album(&mut db, "keep"));
    ok(db::add_to_album(&mut db, album, &[4, 1, 4]));

    assert_eq!(found(&mut db, &everything()), vec![1, 2, 3, 4]);
    let mut q = everything();
    q.rejects = true;
    assert_eq!(found(&mut db, &q), vec![5]);
    q = everything();
    q.sort = "oldest".into();
    assert_eq!(found(&mut db, &q), vec![4, 3, 2, 1]);
    q.sort = "rating".into();
    assert_eq!(found(&mut db, &q), vec![3, 1, 2, 4]);
    q.sort = "anything".into();
    q.limit = 2;
    q.offset = 1;
    let r = ok(query_images(&mut db, &q));
    assert_eq!(r.total, 4);
    assert_eq!(r.cards.iter().map(|c| c.id).collect::<Vec<_>>(), vec![2, 3]);
    q = everything();
    q.text = Some("red".into());
    assert_eq!(found(&mut db, &q), vec![2, 3]);
    q.text = Some(String::new());
    assert_eq!(found(&mut db, &q).len(), 4);
    q = everything();
    q.favorite = Some(true);
    assert_eq!(found(&mut db, &q), vec![4]);
    q.favorite = Some(false);
    assert_eq!(found(&mut db, &q).len(), 4);
    q = everything();
    q.min_rating = Some(4);
    assert_eq!(found(&mut db, &q), vec![1, 3]);
    q = everything();
    q.folder_id = Some(9);
    assert_eq!(found(&mut db, &q), vec![2]);
    q = everything();
    q.album_id = Some(album);
    assert_eq!(found(&mut db, &q), vec![1, 4]);
    q = everything();
    q.in_album = Some(true);
    assert_eq!(found(&mut db, &q), vec![1, 4]);
    q.in_album = Some(false);
    assert_eq!(found(&mut db, &q), vec![2, 3]);
}

#[test]
fn path_prefixes_have_no_wildcards() {
    let mut db = mem_db();
    for (id, path) in [(1, "/g/a_b/x.png"), (2, "/g/acb/y.png"), (3, "/g/a_b2/z.png")] {
        ok(db.execute(
            "INSERT INTO images(id, path, file_size, file_mtime) VALUES (?1, ?2, 1, ?1)",
            &vec![num(id), txt(path)],
        ));
    }
    let mut q = everything();
    q.path_prefix = Some("/g/a_b/".into());
    assert_eq!(found(&mut db, &q), vec![1]);
    q.path_prefix = Some(String::new());
    assert_eq!(found(&mut db, &q).len(), 3);
}

#[test]
fn conditions_are_written_in_order() {
    let q = Query {
        include_tags: vec!["a".into(), "b".into()],
        exclude_tags: vec!["c".into()],
        text: Some("t".into()),
        favorite: Some(true),
        min_rating: Some(-3),
        folder_id: Some(7),
        path_prefix: Some("p/".into()),
        album_id: Some(12),
        in_album: Some(true),
        rejects: true,
        ..everything()
    };
    let mut params = vec![Param::Null];
    let sql = build_where(&q, &mut params);
    assert_eq!(
        sql,
        "images.hidden = 1 AND images.id IN (SELECT image_id FROM album_images WHERE album_id = 12) \
         AND images.id IN (SELECT image_id FROM album_images) \
         AND images.id IN (SELECT it.image_id FROM image_tags it\n              JOIN tags t ON t.id = it.tag_id WHERE t.name IN (?,?)\n              GROUP BY it.image_id HAVING COUNT(DISTINCT t.id) = 2) \
         AND images.id NOT IN (SELECT it.image_id FROM image_tags it\n              JOIN tags t ON t.id = it.tag_id WHERE t.name IN (?)) \
         AND (images.raw_prompt LIKE ? OR images.raw_negative LIKE ?) AND images.favorite = 1 \
         AND images.rating >= -3 AND images.folder_id = 7 AND substr(images.path, 1, length(?)) = ?"
    );
    // what was there stays in front, and there is one value for each placeholder
    assert!(matches!(params[0], Param::Null));
    let bound: Vec<&str> = params[1..]
        .iter()
        .map(|p| match p {
            Param::Text(s) => s.as_str(),
            _ => panic!("not a text"),
        })
        .collect();
    assert_eq!(bound, vec!["a", "b", "c", "%t%", "%t%", "p/", "p/"]);
    assert_eq!(sql.matches('?').count(), bound.len());
    assert_eq!(build_where(&Query::default(), &mut Vec::new()), "images.hidden = 0");
}

#[test]
fn images_are_looked_up_with_their_tags() {
    let mut db = mem_db();
    ok(db.execute(
        "INSERT INTO images(id, path, file_size, file_mtime, width, height, is_novelai, model, seed, sampler, steps, scale, raw_prompt, rating, favorite)
         VALUES (3, 'pics/2026/fox one.png', 10, 20, 30, 40, 1, 'm', -5, 's', 28, ?1, 'p', 2, 1)",
        &vec![Param::Real("5.5".to_string())],
    ));
    tag_image(&mut db, 3, "zebra", "base", 0);
    tag_image(&mut db, 3, "apple", "char", 1);
    ok(db.execute("INSERT INTO tags(id, name, category) VALUES (50, 'painter', 'artist'), (51, 'knight', 'char')", &vec![]));
    ok(db.execute("INSERT INTO image_tags(image_id, tag_id) VALUES (3, 50), (3, 51)", &vec![]));
    let d = ok(db::get_image(&mut db, 3));
    assert_eq!((d.id, d.width, d.height, d.file_mtime), (3, 30, 40, 20));
    assert_eq!(d.path, "pics/2026/fox one.png");
    assert_eq!(d.file_name, "fox one.png");
    assert!(d.is_novelai && d.favorite);
    assert_eq!(d.model.as_deref(), Some("m"));
    assert_eq!(d.seed, Some(-5));
    assert_eq!(d.sampler.as_deref(), Some("s"));
    assert_eq!(d.steps, Some(28));
    assert_eq!(d.scale.as_deref(), Some("5.5"));
    assert_eq!(d.raw_prompt.as_deref(), Some("p"));
    assert_eq!(d.raw_negative, None);
    assert_eq!(d.rating, 2);
    let tags: Vec<(&str, &str, bool)> =
        d.tags.iter().map(|t| (t.name.as_str(), t.category.as_str(), t.hidden)).collect();
    assert_eq!(
        tags,
        vec![
            ("painter", "artist", false),
            ("apple", "general", true),
            ("zebra", "general", false),
            ("knight", "char", false)
        ]
    );
    assert_eq!(d.tags[1].source, "char");
    assert_eq!(ok(db::get_id_by_path(&mut db, "pics/2026/fox one.png")), 3);
    assert_eq!(ok(db::get_image_path(&mut db, 3)), "pics/2026/fox one.png");
}

#[test]
fn failures_tell_their_kind() {
    let mut db = mem_db();
    assert!(matches!(db::get_image(&mut db, 1), Err(DbError::NoRows)));
    assert!(matches!(db::get_id_by_path(&mut db, "nowhere"), Err(DbError::NoRows)));
    assert!(matches!(db.execute("NOT SQL", &vec![]), Err(DbError::Sqlite(_))));
    assert!(matches!(db.batch("SELECT 1; NOT SQL"), Err(DbError::Sqlite(_))));
    assert!(matches!(db.prepare("SELECT missing FROM images"), Err(DbError::Sqlite(_))));
    // a width that no image has
    add_image(&mut db, 1, 1, 0);
    ok(db.execute("UPDATE images SET width = -1", &vec![]));
    assert!(matches!(query_images(&mut db, &everything()), Err(DbError::Column)));
    ok(db.execute("UPDATE images SET width = 'wide'", &vec![]));
    assert!(matches!(query_images(&mut db, &everything()), Err(DbError::Column)));
    ok(db.execute("UPDATE images SET width = 1, path = CAST(x'ff' AS TEXT)", &vec![]));
    assert!(matches!(db::get_image_path(&mut db, 1), Err(DbError::Column)));
    // rows that cannot be read are passed over where that is asked for
    let names: Vec<String> = ok(db.query_readable("SELECT 'a' UNION ALL SELECT 3 UNION ALL SELECT 'b'", &vec![]));
    assert_eq!(names, vec!["a", "b"]);
}

#[test]
fn values_are_bound_by_kind() {
    let mut db = mem_db();
    let kinds: String = ok(db.query_row(
        "SELECT typeof(?1) || ',' || typeof(?2) || ',' || typeof(?3) || ',' || typeof(?4) || ',' || typeof(?5)",
        &vec![Param::Null, num(4), Param::Real("1.5".into()), txt("x"), Param::Real("none".into())],
    ));
    assert_eq!(kinds, "null,integer,real,text,null");
    let sum: i64 = ok(db.query_row("SELECT ?1 - ?2", &vec![num(i64::MAX), num(1)]));
    assert_eq!(sum, i64::MAX - 1);
}

#[test]
fn ratings_stay_between_zero_and_five() {
    let mut db = mem_db();
    for id in 1..=3 {
        add_image(&mut db, id, 1, 0);
    }
    for (given, kept) in [(-7, 0), (0, 0), (3, 3), (5, 5), (6, 5), (i64::MAX, 5)] {
        ok(db::set_rating(&mut db, 1, given));
        assert_eq!(number(&mut db, "SELECT rating FROM images WHERE id = 1"), kept);
        ok(db::set_rating_bulk(&mut db, &[2, 3], given));
        assert_eq!(number(&mut db, "SELECT SUM(rating) FROM images WHERE id > 1"), 2 * kept);
    }
}

#[test]
fn bulk_changes_reach_each_image() {
    let mut db = mem_db();
    for id in 1..=4 {
        add_image(&mut db, id, id, 0);
    }
    ok(db::set_hidden_bulk(&mut db, &[1, 3, 99], true));
    ok(db::set_favorite_bulk(&mut db, &[2, 3], true));
    let s = ok(db::stats(&mut db));
    assert_eq!((s.total, s.novelai, s.favorites, s.rejects), (2, 0, 1, 2));
    ok(db::set_hidden_bulk(&mut db, &[3], false));
    ok(db::set_favorite_bulk(&mut db, &[2], false));
    let s = ok(db::stats(&mut db));
    assert_eq!((s.total, s.favorites, s.rejects), (3, 1, 1));
    let paths = ok(db::get_paths_for_ids(&mut db, &[4, 77, 1]));
    assert_eq!(paths, vec![(4, "D:\\g\\4.png".to_string()), (1, "D:\\g\\1.png".to_string())]);
    ok(db::delete_images(&mut db, &[4, 77, 1]));
    assert_eq!(number(&mut db, "SELECT COUNT(*) FROM images"), 2);
    ok(db::delete_images(&mut db, &[]));
    assert_eq!(ok(db::stats(&mut mem_db())).rejects, 0);
}

#[test]
fn albums_keep_order_and_let_go() {
    let mut db = mem_db();
    for id in 1..=3 {
        add_image(&mut db, id, id, 0);
    }
    let b = ok(db::create_album(&mut db, "b"));
    let a = ok(db::create_album(&mut db, "a"));
    assert_ne!(a, b);
    ok(db::add_to_album(&mut db, a, &[3, 1]));
    ok(db::add_to_album(&mut db, a, &[3, 2]));
    let at = |db: &mut Db, id: i64| number(db, &format!("SELECT position FROM album_images WHERE image_id = {id}"));
    assert_eq!((at(&mut db, 3), at(&mut db, 1), at(&mut db, 2)), (1, 2, 3));
    ok(db::remove_from_album(&mut db, a, &[1]));
    let list = ok(db::list_albums(&mut db));
    let list: Vec<(&str, i64)> = list.iter().map(|x| (x.name.as_str(), x.image_count)).collect();
    assert_eq!(list, vec![("a", 2), ("b", 0)]);
    ok(db::delete_album(&mut db, a));
    assert_eq!(number(&mut db, "SELECT COUNT(*) FROM album_images"), 0);
    assert_eq!(number(&mut db, "SELECT COUNT(*) FROM images"), 3);
    // an image that does not exist cannot be put into an album
    assert!(matches!(db::add_to_album(&mut db, b, &[1, 99, 2]), Err(DbError::Sqlite(_))));
    assert_eq!(number(&mut db, "SELECT COUNT(*) FROM album_images"), 1);
}

#[test]
fn searches_are_kept_by_name() {
    let mut db = mem_db();
    let z = ok(db::create_saved_search(&mut db, "z", "{\"sort\":\"oldest\"}"));
    let a = ok(db::create_saved_search(&mut db, "a", "{}"));
    let list = ok(db::list_saved_searches(&mut db));
    let list: Vec<(i64, &str, &str)> =
        list.iter().map(|x| (x.id, x.name.as_str(), x.query_json.as_str())).collect();
    assert_eq!(list, vec![(a, "a", "{}"), (z, "z", "{\"sort\":\"oldest\"}")]);
    ok(db::delete_saved_search(&mut db, z));
    assert_eq!(ok(db::list_saved_searches(&mut db)).len(), 1);
}

#[test]
fn tags_are_suggested_unless_hidden() {
    let mut db = mem_db();
    for id in 1..=2 {
        add_image(&mut db, id, id, 0);
        tag_image(&mut db, id, "red hair", "base", 0);
    }
    tag_image(&mut db, 1, "hair bow", "base", 0);
    tag_image(&mut db, 1, "hat", "base", 0);
    assert_eq!(counts(&ok(db::suggest_tags(&mut db, "hair", 10))), vec![("red hair", 2), ("hair bow", 1)]);
    assert_eq!(counts(&ok(db::top_tags(&mut db, 2))), vec![("red hair", 2), ("hair bow", 1)]);
    ok(db::set_tag_hidden(&mut db, "red hair", true));
    assert_eq!(counts(&ok(db::suggest_tags(&mut db, "hair", 10))), vec![("hair bow", 1)]);
    assert_eq!(counts(&ok(db::list_hidden_tags(&mut db))), vec![("red hair", 2)]);
    ok(db::set_tag_hidden(&mut db, "red hair", false));
    assert!(ok(db::list_hidden_tags(&mut db)).is_empty());
}

#[test]
fn user_tags_merge_with_those_of_prompts() {
    let mut db = mem_db();
    for id in 1..=2 {
        add_image(&mut db, id, id, 0);
    }
    tag_image(&mut db, 1, "my oc", "base", 0);
    let added = match db::add_user_tags(&mut db, &[1, 2], "My OC, cool  outfit") {
        Ok(added) => added,
        Err(_) => panic!("not added"),
    };
    assert_eq!(added, vec!["my oc", "cool outfit"]);
    let sources = |db: &mut Db, id: i64| -> Vec<(String, String)> {
        ok(db::get_image(db, id)).tags.into_iter().map(|t| (t.name, t.source)).collect()
    };
    let pair = |a: &str, b: &str| (a.to_string(), b.to_string());
    assert_eq!(sources(&mut db, 1), vec![pair("cool outfit", "user"), pair("my oc", "base")]);
    assert_eq!(sources(&mut db, 2), vec![pair("cool outfit", "user"), pair("my oc", "user")]);
    // only what a user put on comes off
    ok(db::remove_user_tag(&mut db, &[1, 2], "my oc"));
    assert_eq!(sources(&mut db, 1), vec![pair("cool outfit", "user"), pair("my oc", "base")]);
    assert_eq!(sources(&mut db, 2), vec![pair("cool outfit", "user")]);
    assert!(matches!(db::add_user_tags(&mut db, &[1], " , ::"), Err(TagError::Empty)));
    assert!(matches!(db::add_user_tags(&mut db, &[99], "x"), Err(TagError::Db(DbError::Sqlite(_)))));
}

#[test]
fn folders_are_added_once_and_removed_whole() {
    let mut db = mem_db();
    let a = ok(db::add_folder(&mut db, "/pics"));
    assert_eq!(ok(db::add_folder(&mut db, "/pics")), a);
    let b = ok(db::add_folder(&mut db, "/art"));
    for (id, folder) in [(1, a), (2, b), (3, a)] {
        add_image(&mut db, id, id, 0);
        ok(db.execute("UPDATE images SET folder_id = ?2 WHERE id = ?1", &vec![num(id), num(folder)]));
    }
    let list = ok(db::list_folders(&mut db));
    let list: Vec<(i64, &str, i64)> =
        list.iter().map(|f| (f.id, f.path.as_str(), f.image_count)).collect();
    assert_eq!(list, vec![(b, "/art", 1), (a, "/pics", 2)]);
    assert_eq!(ok(db::watched_folders(&mut db)).len(), 2);
    let mut gone = ok(db::remove_folder(&mut db, a));
    gone.sort();
    assert_eq!(gone, vec![1, 3]);
    assert_eq!(ok(db::watched_folders(&mut db)), vec![(b, "/art".to_string())]);
    assert_eq!(number(&mut db, "SELECT COUNT(*) FROM images"), 1);
}

#[test]
fn directories_are_counted_below_their_roots() {
    let mut db = mem_db();
    let root = ok(db::add_folder(&mut db, "pics"));
    let other = ok(db::add_folder(&mut db, "pics/art/"));
    let rows = [
        (1, root, "pics/a.png", 0),
        (2, root, "pics/2026/07/b.png", 0),
        (3, root, "pics/2026/07/c.png", 0),
        (4, root, "pics/2026/d.png", 1),
        (5, other, "pics/art/deep/e.png", 0),
        (6, other, "elsewhere/f.png", 0),
    ];
    for (id, folder, path, hidden) in rows {
        ok(db.execute(
            "INSERT INTO images(id, path, folder_id, file_size, file_mtime, hidden) VALUES (?1, ?2, ?3, 1, 1, ?4)",
            &vec![num(id), txt(path), num(folder), num(hidden)],
        ));
    }
    let tree = ok(folder_tree(&mut db));
    let tree: Vec<(i64, &str, i64)> =
        tree.iter().map(|e| (e.folder_id, e.rel_dir.as_str(), e.count)).collect();
    assert_eq!(
        tree,
        vec![(root, "", 1), (root, "2026/07", 2), (other, "", 1), (other, "deep", 1)]
    );
}

#[test]
fn backslashes_are_read_as_the_target_reads_them() {
    let mut db = mem_db();
    let root = ok(db::add_folder(&mut db, "D:\\g"));
    for (id, path) in [(1, "D:\\g\\1.png"), (2, "D:\\g\\07\\2.png"), (3, "D:\\g/07/3.png"), (4, "D:\\g\\07\\4.png")] {
        ok(db.execute(
            "INSERT INTO images(id, path, folder_id, file_size, file_mtime) VALUES (?1, ?2, ?3, 1, 1)",
            &vec![num(id), txt(path), num(root)],
        ));
        ok(db::set_phash(&mut db, id, 5));
    }
    let windows = reads_backslash();
    let name = |short: &str, long: &str| if windows { short.to_string() } else { long.to_string() };
    assert_eq!(ok(db::get_image(&mut db, 2)).file_name, name("2.png", "D:\\g\\07\\2.png"));
    assert_eq!(ok(db::get_image(&mut db, 3)).file_name, "3.png");
    let r = ok(find_duplicates(&mut db, 0));
    let first = r.groups[0].iter().find(|i| i.id == 1).unwrap();
    assert_eq!(first.file_name, name("1.png", "D:\\g\\1.png"));
    let tree = ok(folder_tree(&mut db));
    let tree: Vec<(&str, i64)> = tree.iter().map(|e| (e.rel_dir.as_str(), e.count)).collect();
    if windows {
        assert_eq!(tree, vec![("", 1), ("07", 3)]);
    } else {
        assert_eq!(tree, vec![("", 3), ("07", 1)]);
    }
}

#[test]
fn relative_directories_lose_their_separators() {
    let dir = |s: &str| Some(s.to_string());
    assert_eq!(relative_dir(&dir("D:\\g\\2026\\07"), "D:\\g"), "2026\\07");
    assert_eq!(relative_dir(&dir("D:\\g\\2026"), "D:\\g\\"), "2026");
    assert_eq!(relative_dir(&dir("/g//x"), "/g"), "x");
    assert_eq!(relative_dir(&dir("/g"), "/g"), "");
    assert_eq!(relative_dir(&dir("/other"), "/g"), "");
    assert_eq!(relative_dir(&dir("/g2/x"), "/g"), "2/x");
    assert_eq!(relative_dir(&None, "/g"), "");
    assert_eq!(relative_dir(&dir("/gé/x"), "/gé"), "x");
}

#[test]
fn directories_come_in_the_order_of_their_characters() {
    let keys: Vec<(i64, String)> = [(2, "b"), (1, "b"), (1, "B"), (2, "b"), (1, ""), (1, "a/z"), (1, "a"), (1, "é"), (1, "b")]
        .iter()
        .map(|(n, s)| (*n, s.to_string()))
        .collect();
    let out = dir_counts(&keys);
    let out: Vec<(i64, &str, i64)> =
        out.iter().map(|e| (e.folder_id, e.rel_dir.as_str(), e.count)).collect();
    assert_eq!(
        out,
        vec![(1, "", 1), (1, "B", 1), (1, "a", 1), (1, "a/z", 1), (1, "b", 2), (1, "é", 1), (2, "b", 2)]
    );
}

#[test]
fn duplicates_come_with_the_likeliest_keeper_first() {
    let mut db = mem_db();
    // two groups, an image apart, one rejected and one without a hash
    for (id, mtime, size, hash, hidden) in [
        (1, 10, 100, Some(0), 0),
        (2, 11, 300, Some(1), 0),
        (3, 12, 200, Some(3), 0),
        (4, 90, 100, Some(0xff00), 0),
        (5, 20, 100, Some(0xff01), 0),
        (6, 99, 100, Some(0x7fff_0000_0000), 0),
        (7, 99, 100, Some(0), 1),
        (8, 99, 100, None, 0),
    ] {
        add_image(&mut db, id, mtime, hidden);
        ok(db.execute("UPDATE images SET file_size = ?2, path = 'p/' || ?1 || '.png' WHERE id = ?1", &vec![num(id), num(size)]));
        if let Some(h) = hash {
            ok(db::set_phash(&mut db, id, h));
        }
    }
    ok(db::set_rating(&mut db, 3, 1));
    ok(db::set_favorite(&mut db, 5, true));
    let r = ok(find_duplicates(&mut db, 1));
    assert_eq!(r.unhashed, 1);
    let groups: Vec<Vec<(i64, u32)>> =
        r.groups.iter().map(|g| g.iter().map(|i| (i.id, i.distance)).collect()).collect();
    assert_eq!(groups, vec![vec![(5, 1), (4, 1)], vec![(3, 1), (2, 1), (1, 1)]]);
    assert_eq!(r.groups[0][0].file_name, "5.png");
    assert_eq!(r.groups[0][0].path, "p/5.png");
    assert!(r.groups[0][0].favorite);
    let r = ok(find_duplicates(&mut db, 0));
    assert!(r.groups.is_empty());
    ok(db.execute("UPDATE images SET height = 'tall' WHERE id = 2", &vec![]));
    assert!(matches!(find_duplicates(&mut db, 1), Err(DbError::Column)));
}
