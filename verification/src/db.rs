//! The index: its tables, and what is asked of them.

use crate::paths::{file_name, is_base_name};
use crate::sql::{
    all_read, asked, bound, command, done, each, inserted, kinded, list_model, one, one_read,
    param_rows, ran, readable, row_model_of, row_models, run_each, select, two, history,
    lemma_ran_failed, lemma_ran_nothing, lemma_ran_step,
};
use crate::sql::{
    flag_in, int_in, opt_int_in, opt_real_in, opt_text_in, param_models, small_in, text_in,
};
use crate::sql::{
    read_flag, read_int, read_opt_int, read_opt_real, read_opt_text, read_small, read_text,
};
use crate::sql::{Cell, CellModel, Db, DbError, ErrKind, Event, FromRow, Param, ParamModel, Request};
use crate::tags::{names_of, normalize_tags, normalized, tag_models};
use crate::text::{concat3, decimal, decimal_text, opt_text, texts};
use vstd::prelude::*;

verus! {

// ---------------------------------------------------------------------------
// Opening
// ---------------------------------------------------------------------------

/// The tables of the first version. Later changes are steps on top of it.
pub const SCHEMA: &'static str = "
CREATE TABLE IF NOT EXISTS folders(
  id INTEGER PRIMARY KEY,
  path TEXT UNIQUE NOT NULL,
  last_scanned INTEGER
);
CREATE TABLE IF NOT EXISTS images(
  id INTEGER PRIMARY KEY,
  path TEXT UNIQUE NOT NULL,
  folder_id INTEGER REFERENCES folders(id) ON DELETE CASCADE,
  file_size INTEGER NOT NULL,
  file_mtime INTEGER NOT NULL,
  width INTEGER NOT NULL DEFAULT 0,
  height INTEGER NOT NULL DEFAULT 0,
  is_novelai INTEGER NOT NULL DEFAULT 0,
  model TEXT, seed INTEGER, sampler TEXT, steps INTEGER, scale REAL,
  raw_prompt TEXT, raw_negative TEXT, comment_json TEXT,
  rating INTEGER NOT NULL DEFAULT 0,
  favorite INTEGER NOT NULL DEFAULT 0,
  hidden INTEGER NOT NULL DEFAULT 0
);
CREATE INDEX IF NOT EXISTS idx_images_mtime ON images(file_mtime);
CREATE INDEX IF NOT EXISTS idx_images_folder ON images(folder_id);
CREATE TABLE IF NOT EXISTS tags(
  id INTEGER PRIMARY KEY,
  name TEXT UNIQUE NOT NULL,
  category TEXT NOT NULL DEFAULT 'general'
);
CREATE TABLE IF NOT EXISTS image_tags(
  image_id INTEGER NOT NULL REFERENCES images(id) ON DELETE CASCADE,
  tag_id INTEGER NOT NULL REFERENCES tags(id),
  source TEXT NOT NULL DEFAULT 'base',
  PRIMARY KEY(image_id, tag_id)
) WITHOUT ROWID;
CREATE INDEX IF NOT EXISTS idx_image_tags_tag ON image_tags(tag_id);
CREATE TABLE IF NOT EXISTS albums(
  id INTEGER PRIMARY KEY,
  name TEXT NOT NULL,
  position INTEGER NOT NULL DEFAULT 0
);
CREATE TABLE IF NOT EXISTS album_images(
  album_id INTEGER NOT NULL REFERENCES albums(id) ON DELETE CASCADE,
  image_id INTEGER NOT NULL REFERENCES images(id) ON DELETE CASCADE,
  position INTEGER NOT NULL DEFAULT 0,
  PRIMARY KEY(album_id, image_id)
) WITHOUT ROWID;
CREATE TABLE IF NOT EXISTS saved_searches(
  id INTEGER PRIMARY KEY,
  name TEXT NOT NULL,
  query_json TEXT NOT NULL
);
";

/// The first step: tags can be hidden.
pub const TAG_HIDING: &'static str = "ALTER TABLE tags ADD COLUMN hidden INTEGER NOT NULL DEFAULT 0;";

/// The second step: a perceptual hash for each image, null where it is not
/// computed yet.
pub const IMAGE_HASH: &'static str = "ALTER TABLE images ADD COLUMN phash INTEGER;";

/// How many steps there are.
pub const LATEST: i64 = 2;

/// The step that leads from version `i` to the next.
pub open spec fn migration(i: int) -> Seq<char> {
    if i == 0 {
        TAG_HIDING@
    } else {
        IMAGE_HASH@
    }
}

/// The requests that take an index from version `from` to version `to`, each step
/// followed by a note of the version that it leads to.
pub open spec fn migration_script(from: int, to: int) -> Seq<Request>
    decreases to - from,
{
    if from >= to {
        Seq::empty()
    } else {
        migration_script(from, to - 1).push(Request::Batch { sql: migration(to - 1) }).push(
            Request::Pragma {
                name: "user_version"@,
                value: bound(ParamModel::Integer(to as i64)),
            },
        )
    }
}

/// The steps that an index of the given version lacks. A version that is not
/// known, or below zero, lacks none.
pub open spec fn pending_script(version: i64) -> Seq<Request> {
    if 0 <= version < LATEST {
        migration_script(version as int, LATEST as int)
    } else {
        Seq::empty()
    }
}

/// Taking an index to a version and on from there is taking it all the way.
pub proof fn law_migrations_converge(from: int, between: int, to: int)
    requires
        from <= between <= to,
    ensures
        migration_script(from, to) == migration_script(from, between) + migration_script(
            between,
            to,
        ),
    decreases to - between,
{
    if between < to {
        law_migrations_converge(from, between, to - 1);
        assert(migration_script(from, to) =~= migration_script(from, between) + migration_script(
            between,
            to,
        ));
    } else {
        assert(migration_script(between, to) =~= Seq::<Request>::empty());
        assert(migration_script(from, to) =~= migration_script(from, between) + Seq::<Request>::empty());
    }
}

/// Whether the steps that an index lacks were taken: its version is asked for, and
/// the steps follow until one fails.
pub open spec fn migrated(
    before: Seq<Event>,
    after: Seq<Event>,
    r: Result<(), ErrKind>,
) -> bool {
    let n = before.len() as int;
    &&& after.len() > n
    &&& after.take(n) == before
    &&& after[n].request == select("PRAGMA user_version"@, Seq::empty())
    &&& match one_read::<i64>(after[n].reply) {
        Err(k) => after.len() == n + 1 && r == Err::<(), ErrKind>(k),
        Ok(version) => ran(after.take(n + 1), after, pending_script(version), r),
    }
}

/// The text of the step that leads from version `i` to the next.
fn migration_text(i: i64) -> (r: &'static str)
    ensures
        r@ == migration(i as int),
{
    if i == 0 {
        TAG_HIDING
    } else {
        IMAGE_HASH
    }
}

/// Takes the steps that the index lacks, in their order, and notes the version
/// after each.
pub fn migrate(db: &mut Db) -> (r: Result<(), DbError>)
    ensures
        migrated(old(db).trace(), final(db).trace(), kinded(r)),
{
    let none: Vec<Param> = Vec::new();
    assert(param_models(none@) =~= Seq::<ParamModel>::empty());
    let version = match db.query_row::<i64>("PRAGMA user_version", &none) {
        Ok(version) => version,
        Err(e) => {
            assert(db.trace().take(old(db).trace().len() as int) =~= old(db).trace());
            return Err(e);
        },
    };
    let ghost start = db.trace();
    let ghost n = old(db).trace().len() as int;
    proof {
        lemma_ran_nothing(start);
        assert(start.take(n) =~= old(db).trace());
    }
    if version < 0 || version >= LATEST {
        assert(db.trace().take(n + 1) =~= start);
        return Ok(());
    }
    let ghost script = pending_script(version);
    let mut i: i64 = version;
    while i < LATEST
        invariant
            0 <= version <= i <= LATEST,
            script == migration_script(version as int, LATEST as int),
            n == old(db).trace().len(),
            start.len() == n + 1,
            start.take(n) == old(db).trace(),
            start[n].request == select("PRAGMA user_version"@, Seq::empty()),
            one_read::<i64>(start[n].reply) == Ok::<i64, ErrKind>(version),
            version < LATEST,
            ran(start, db.trace(), migration_script(version as int, i as int), Ok(())),
        decreases LATEST - i,
    {
        let ghost done_so_far = migration_script(version as int, i as int);
        let ghost middle = db.trace();
        let step = db.batch(migration_text(i));
        let ghost batch = Request::Batch { sql: migration(i as int) };
        proof {
            lemma_ran_step(start, middle, db.trace(), done_so_far, batch, kinded(step));
            law_migrations_converge(version as int, i + 1, LATEST as int);
        }
        let ghost rest = migration_script(i + 1, LATEST as int);
        let ghost note = Request::Pragma {
            name: "user_version"@,
            value: bound(ParamModel::Integer((i + 1) as i64)),
        };
        assert(migration_script(version as int, i + 1) == done_so_far.push(batch).push(note));
        if let Err(e) = step {
            proof {
                lemma_ran_failed(start, db.trace(), done_so_far.push(batch), seq![note] + rest);
                assert(done_so_far.push(batch) + (seq![note] + rest) =~= script);
                lemma_extends(old(db).trace(), start, db.trace(), n);
            }
            return Err(e);
        }
        let ghost middle = db.trace();
        let noted = db.set_pragma("user_version", &Param::Integer(i + 1));
        proof {
            lemma_ran_step(
                start,
                middle,
                db.trace(),
                done_so_far.push(batch),
                note,
                kinded(noted),
            );
        }
        if let Err(e) = noted {
            proof {
                lemma_ran_failed(start, db.trace(), done_so_far.push(batch).push(note), rest);
                lemma_extends(old(db).trace(), start, db.trace(), n);
            }
            return Err(e);
        }
        i += 1;
    }
    proof {
        lemma_extends(old(db).trace(), start, db.trace(), n);
    }
    Ok(())
}

/// What follows a trace leaves it in place.
proof fn lemma_extends(before: Seq<Event>, start: Seq<Event>, after: Seq<Event>, n: int)
    requires
        n == before.len(),
        start.len() == n + 1,
        start.take(n) == before,
        after.len() >= n + 1,
        after.take(n + 1) == start,
    ensures
        after.take(n) == before,
        after[n] == start[n],
{
    assert(after.take(n) =~= after.take(n + 1).take(n));
    assert(after.take(n + 1)[n] == after[n]);
}

/// The requests that make a connection ready and create the tables.
pub open spec fn setup_script() -> Seq<Request> {
    seq![
        Request::Pragma { name: "journal_mode"@, value: bound(ParamModel::Text("WAL"@)) },
        Request::Pragma { name: "foreign_keys"@, value: bound(ParamModel::Text("ON"@)) },
        Request::Batch { sql: SCHEMA@ },
    ]
}

/// Whether an index was made ready: the connection is set up and the tables are
/// created, then the steps that are lacking are taken.
pub open spec fn made_ready(before: Seq<Event>, after: Seq<Event>, r: Result<(), ErrKind>) -> bool {
    let n = before.len() as int + 3;
    ||| r is Err && ran(before, after, setup_script(), r)
    ||| after.len() > n && ran(before, after.take(n), setup_script(), Ok(())) && migrated(
        after.take(n),
        after,
        r,
    )
}

/// Makes an index ready for use: a new one gets its tables, and one of an earlier
/// version what it lacks.
pub fn prepare_index(db: &mut Db) -> (r: Result<(), DbError>)
    ensures
        made_ready(old(db).trace(), final(db).trace(), kinded(r)),
{
    let ghost t0 = db.trace();
    let ghost all = setup_script();
    proof {
        lemma_ran_nothing(t0);
    }
    let a = db.set_pragma("journal_mode", &Param::Text("WAL".to_owned()));
    let ghost t1 = db.trace();
    proof {
        lemma_ran_step(t0, t0, t1, Seq::empty(), all[0], kinded(a));
        assert(Seq::empty().push(all[0]) =~= all.take(1));
    }
    if let Err(e) = a {
        proof {
            lemma_ran_failed(t0, t1, all.take(1), all.skip(1));
            assert(all.take(1) + all.skip(1) =~= all);
        }
        return Err(e);
    }
    let b = db.set_pragma("foreign_keys", &Param::Text("ON".to_owned()));
    let ghost t2 = db.trace();
    proof {
        lemma_ran_step(t0, t1, t2, all.take(1), all[1], kinded(b));
        assert(all.take(1).push(all[1]) =~= all.take(2));
    }
    if let Err(e) = b {
        proof {
            lemma_ran_failed(t0, t2, all.take(2), all.skip(2));
            assert(all.take(2) + all.skip(2) =~= all);
        }
        return Err(e);
    }
    let c = db.batch(SCHEMA);
    let ghost t3 = db.trace();
    proof {
        lemma_ran_step(t0, t2, t3, all.take(2), all[2], kinded(c));
        assert(all.take(2).push(all[2]) =~= all);
    }
    if let Err(e) = c {
        return Err(e);
    }
    let r = migrate(db);
    assert(db.trace().take(t0.len() as int + 3) =~= t3);
    r
}

/// Opens an index over a connection.
pub fn open(conn: rusqlite::Connection) -> (r: Result<Db, DbError>)
    ensures
        match r {
            Ok(db) => made_ready(history(conn), db.trace(), Ok(())),
            Err(e) => exists|after: Seq<Event>| #[trigger]
                made_ready(history(conn), after, Err(e.kind())),
        },
{
    let mut db = Db::new(conn);
    match prepare_index(&mut db) {
        Ok(_) => Ok(db),
        Err(e) => Err(e),
    }
}

// ---------------------------------------------------------------------------
// Images
// ---------------------------------------------------------------------------

/// A tag of an image.
pub struct TagDetail {
    pub name: String,
    pub category: String,
    pub source: String,
    pub hidden: bool,
}

/// What the index has on an image.
pub struct ImageDetail {
    pub id: i64,
    pub path: String,
    pub file_name: String,
    pub width: u32,
    pub height: u32,
    pub file_mtime: i64,
    pub is_novelai: bool,
    pub model: Option<String>,
    pub seed: Option<i64>,
    pub sampler: Option<String>,
    pub steps: Option<i64>,
    /// The guidance scale, a floating-point number, in decimal.
    pub scale: Option<String>,
    pub raw_prompt: Option<String>,
    pub raw_negative: Option<String>,
    pub rating: i64,
    pub favorite: bool,
    pub tags: Vec<TagDetail>,
}

/// The columns of an image.
pub struct ImageRow {
    pub id: i64,
    pub path: String,
    pub width: u32,
    pub height: u32,
    pub file_mtime: i64,
    pub is_novelai: bool,
    pub model: Option<String>,
    pub seed: Option<i64>,
    pub sampler: Option<String>,
    pub steps: Option<i64>,
    pub scale: Option<String>,
    pub raw_prompt: Option<String>,
    pub raw_negative: Option<String>,
    pub rating: i64,
    pub favorite: bool,
}

/// The mathematical form of the columns of an image.
pub struct ImageRowModel {
    pub id: i64,
    pub path: Seq<char>,
    pub width: u32,
    pub height: u32,
    pub file_mtime: i64,
    pub is_novelai: bool,
    pub model: Option<Seq<char>>,
    pub seed: Option<i64>,
    pub sampler: Option<Seq<char>>,
    pub steps: Option<i64>,
    pub scale: Option<Seq<char>>,
    pub raw_prompt: Option<Seq<char>>,
    pub raw_negative: Option<Seq<char>>,
    pub rating: i64,
    pub favorite: bool,
}

/// The mathematical form of what the index has on an image.
#[verifier::ext_equal]
pub struct ImageDetailModel {
    pub row: ImageRowModel,
    pub file_name: Seq<char>,
    pub tags: Seq<(Seq<char>, Seq<char>, Seq<char>, bool)>,
}

impl FromRow for TagDetail {
    type M = (Seq<char>, Seq<char>, Seq<char>, bool);

    open spec fn row_model(self) -> Self::M {
        (self.name@, self.category@, self.source@, self.hidden)
    }

    open spec fn decoded(row: Seq<CellModel>) -> Option<Self::M> {
        match (text_in(row, 0), text_in(row, 1), text_in(row, 2), flag_in(row, 3)) {
            (Some(name), Some(category), Some(source), Some(hidden)) => Some(
                (name, category, source, hidden),
            ),
            _ => None,
        }
    }

    fn from_row(row: &Vec<Cell>) -> (r: Result<Self, DbError>) {
        match (read_text(row, 0), read_text(row, 1), read_text(row, 2), read_flag(row, 3)) {
            (Some(name), Some(category), Some(source), Some(hidden)) => Ok(
                TagDetail { name, category, source, hidden },
            ),
            _ => Err(DbError::Column),
        }
    }
}

impl FromRow for ImageRow {
    type M = ImageRowModel;

    open spec fn row_model(self) -> ImageRowModel {
        ImageRowModel {
            id: self.id,
            path: self.path@,
            width: self.width,
            height: self.height,
            file_mtime: self.file_mtime,
            is_novelai: self.is_novelai,
            model: opt_text(self.model),
            seed: self.seed,
            sampler: opt_text(self.sampler),
            steps: self.steps,
            scale: opt_text(self.scale),
            raw_prompt: opt_text(self.raw_prompt),
            raw_negative: opt_text(self.raw_negative),
            rating: self.rating,
            favorite: self.favorite,
        }
    }

    open spec fn decoded(row: Seq<CellModel>) -> Option<ImageRowModel> {
        match (
            (int_in(row, 0), text_in(row, 1), small_in(row, 2), small_in(row, 3), int_in(row, 4)),
            (
                flag_in(row, 5),
                opt_text_in(row, 6),
                opt_int_in(row, 7),
                opt_text_in(row, 8),
                opt_int_in(row, 9),
            ),
            (
                opt_real_in(row, 10),
                opt_text_in(row, 11),
                opt_text_in(row, 12),
                int_in(row, 13),
                flag_in(row, 14),
            ),
        ) {
            (
                (Some(id), Some(path), Some(width), Some(height), Some(file_mtime)),
                (Some(is_novelai), Some(model), Some(seed), Some(sampler), Some(steps)),
                (Some(scale), Some(raw_prompt), Some(raw_negative), Some(rating), Some(favorite)),
            ) => Some(
                ImageRowModel {
                    id,
                    path,
                    width,
                    height,
                    file_mtime,
                    is_novelai,
                    model,
                    seed,
                    sampler,
                    steps,
                    scale,
                    raw_prompt,
                    raw_negative,
                    rating,
                    favorite,
                },
            ),
            _ => None,
        }
    }

    fn from_row(row: &Vec<Cell>) -> (r: Result<Self, DbError>) {
        match (
            (
                read_int(row, 0),
                read_text(row, 1),
                read_small(row, 2),
                read_small(row, 3),
                read_int(row, 4),
            ),
            (
                read_flag(row, 5),
                read_opt_text(row, 6),
                read_opt_int(row, 7),
                read_opt_text(row, 8),
                read_opt_int(row, 9),
            ),
            (
                read_opt_real(row, 10),
                read_opt_text(row, 11),
                read_opt_text(row, 12),
                read_int(row, 13),
                read_flag(row, 14),
            ),
        ) {
            (
                (Some(id), Some(path), Some(width), Some(height), Some(file_mtime)),
                (Some(is_novelai), Some(model), Some(seed), Some(sampler), Some(steps)),
                (Some(scale), Some(raw_prompt), Some(raw_negative), Some(rating), Some(favorite)),
            ) => Ok(
                ImageRow {
                    id,
                    path,
                    width,
                    height,
                    file_mtime,
                    is_novelai,
                    model,
                    seed,
                    sampler,
                    steps,
                    scale,
                    raw_prompt,
                    raw_negative,
                    rating,
                    favorite,
                },
            ),
            _ => Err(DbError::Column),
        }
    }
}

/// A name, or the empty text where there is none.
pub open spec fn or_empty(name: Option<Seq<char>>) -> Seq<char> {
    match name {
        Some(name) => name,
        None => Seq::empty(),
    }
}

/// A name, or the empty text where there is none.
pub fn name_or_empty(name: Option<String>) -> (r: String)
    ensures
        r@ == or_empty(opt_text(name)),
{
    match name {
        Some(name) => name,
        None => String::new(),
    }
}

impl ImageDetail {
    /// The mathematical form.
    pub open spec fn model(self) -> ImageDetailModel {
        ImageDetailModel {
            row: ImageRowModel {
                id: self.id,
                path: self.path@,
                width: self.width,
                height: self.height,
                file_mtime: self.file_mtime,
                is_novelai: self.is_novelai,
                model: opt_text(self.model),
                seed: self.seed,
                sampler: opt_text(self.sampler),
                steps: self.steps,
                scale: opt_text(self.scale),
                raw_prompt: opt_text(self.raw_prompt),
                raw_negative: opt_text(self.raw_negative),
                rating: self.rating,
                favorite: self.favorite,
            },
            file_name: self.file_name@,
            tags: row_models(self.tags@),
        }
    }
}

/// Puts together what the index has on an image: its columns, the final part of
/// its path, and its tags.
pub fn detail_of(row: ImageRow, name: Option<String>, tags: Vec<TagDetail>) -> (r: ImageDetail)
    ensures
        r.model() == (ImageDetailModel {
            row: row.row_model(),
            file_name: or_empty(opt_text(name)),
            tags: row_models(tags@),
        }),
{
    ImageDetail {
        id: row.id,
        path: row.path,
        file_name: name_or_empty(name),
        width: row.width,
        height: row.height,
        file_mtime: row.file_mtime,
        is_novelai: row.is_novelai,
        model: row.model,
        seed: row.seed,
        sampler: row.sampler,
        steps: row.steps,
        scale: row.scale,
        raw_prompt: row.raw_prompt,
        raw_negative: row.raw_negative,
        rating: row.rating,
        favorite: row.favorite,
        tags,
    }
}

/// Selects the columns of an image.
pub const IMAGE_SQL: &'static str = "SELECT id, path, width, height, file_mtime, is_novelai, model, seed, sampler,
                steps, scale, raw_prompt, raw_negative, rating, favorite
         FROM images WHERE id = ?1";

/// Selects the tags of an image: artists first, then general tags, then those of
/// characters.
pub const IMAGE_TAGS_SQL: &'static str = "SELECT t.name, t.category, it.source, t.hidden FROM image_tags it
         JOIN tags t ON t.id = it.tag_id WHERE it.image_id = ?1
         ORDER BY CASE t.category WHEN 'artist' THEN 0 WHEN 'general' THEN 1 ELSE 2 END, t.name";

/// The mathematical form of a looked-up image.
pub open spec fn detail_model(r: Result<ImageDetail, DbError>) -> Result<ImageDetailModel, ErrKind> {
    match r {
        Ok(d) => Ok(d.model()),
        Err(e) => Err(e.kind()),
    }
}

/// Whether an image was looked up: its columns are selected, then its tags, and
/// `r` is what the answers come to.
pub open spec fn looked_up(
    before: Seq<Event>,
    after: Seq<Event>,
    id: i64,
    r: Result<ImageDetailModel, ErrKind>,
) -> bool {
    let n = before.len() as int;
    let id = seq![ParamModel::Integer(id)];
    &&& after.len() > n
    &&& after.take(n) == before
    &&& after[n].request == select(IMAGE_SQL@, id)
    &&& match one_read::<ImageRow>(after[n].reply) {
        Err(k) => after.len() == n + 1 && r == Err::<ImageDetailModel, ErrKind>(k),
        Ok(row) => {
            &&& after.len() == n + 2
            &&& after[n + 1].request == select(IMAGE_TAGS_SQL@, id)
            &&& match all_read::<TagDetail>(after[n + 1].reply) {
                Err(k) => r == Err::<ImageDetailModel, ErrKind>(k),
                Ok(tags) => exists|name: Option<Seq<char>>| #[trigger]
                    is_base_name(row.path, name) && r == Ok::<ImageDetailModel, ErrKind>(
                        ImageDetailModel { row, file_name: or_empty(name), tags },
                    ),
            }
        },
    }
}

/// Looks an image up.
pub fn get_image(db: &mut Db, id: i64) -> (r: Result<ImageDetail, DbError>)
    ensures
        looked_up(old(db).trace(), final(db).trace(), id, detail_model(r)),
{
    let ghost n = old(db).trace().len() as int;
    let params = one(Param::Integer(id));
    let row = match db.query_row::<ImageRow>(IMAGE_SQL, &params) {
        Ok(row) => row,
        Err(e) => {
            assert(db.trace().take(n) =~= old(db).trace());
            return Err(e);
        },
    };
    let name = file_name(row.path.as_str());
    assert(is_base_name(row.path@, opt_text(name)));
    let ghost between = db.trace();
    let tags = db.query_all::<TagDetail>(IMAGE_TAGS_SQL, &params);
    proof {
        assert(db.trace().take(n) =~= old(db).trace());
        assert(db.trace()[n] == between.last());
    }
    let ghost columns = row.row_model();
    let ghost ending = opt_text(name);
    match tags {
        Ok(tags) => {
            let d = detail_of(row, name, tags);
            assert(one_read::<ImageRow>(db.trace()[n].reply) == Ok::<ImageRowModel, ErrKind>(columns));
            assert(is_base_name(columns.path, ending));
            Ok(d)
        },
        Err(e) => Err(e),
    }
}

/// The truth value as SQLite holds it.
pub open spec fn flag_value(b: bool) -> i64 {
    if b {
        1
    } else {
        0
    }
}

/// The truth value as SQLite holds it.
pub fn flag(b: bool) -> (r: i64)
    ensures
        r == flag_value(b),
{
    if b {
        1
    } else {
        0
    }
}

/// The rating closest to `n`: zero to five.
pub open spec fn rating_near(n: i64) -> i64 {
    if n < 0 {
        0
    } else if n > 5 {
        5
    } else {
        n
    }
}

/// The rating closest to `n`.
pub fn clamp_rating(n: i64) -> (r: i64)
    ensures
        r == rating_near(n),
        0 <= r <= 5,
        0 <= n <= 5 ==> r == n,
{
    if n < 0 {
        0
    } else if n > 5 {
        5
    } else {
        n
    }
}

/// Bound values: each of the numbers, followed by `v`.
pub open spec fn ids_then(ids: Seq<i64>, v: ParamModel) -> Seq<Seq<ParamModel>> {
    ids.map_values(|id: i64| seq![ParamModel::Integer(id), v])
}

/// Bound values: each of the numbers, after `v`.
pub open spec fn then_ids(v: ParamModel, ids: Seq<i64>) -> Seq<Seq<ParamModel>> {
    ids.map_values(|id: i64| seq![v, ParamModel::Integer(id)])
}

/// Bound values: each of the numbers.
pub open spec fn ids_alone(ids: Seq<i64>) -> Seq<Seq<ParamModel>> {
    ids.map_values(|id: i64| seq![ParamModel::Integer(id)])
}

/// A copy of a bound value.
fn copy_of(p: &Param) -> (r: Param)
    ensures
        r.model() == p.model(),
{
    match p {
        Param::Null => Param::Null,
        Param::Integer(n) => Param::Integer(*n),
        Param::Real(x) => Param::Real(x.clone()),
        Param::Text(s) => Param::Text(s.clone()),
    }
}

/// Each of the numbers, followed by `v`.
fn rows_then(ids: &[i64], v: Param) -> (r: Vec<Vec<Param>>)
    ensures
        param_rows(r@) == ids_then(ids@, v.model()),
{
    let mut out: Vec<Vec<Param>> = Vec::new();
    let mut i: usize = 0;
    while i < ids.len()
        invariant
            i <= ids@.len(),
            out@.len() == i,
            forall|k: int|
                0 <= k < i ==> param_models((#[trigger] out@[k])@) == seq![
                    ParamModel::Integer(ids@[k]),
                    v.model(),
                ],
        decreases ids@.len() - i,
    {
        out.push(two(Param::Integer(ids[i]), copy_of(&v)));
        i += 1;
    }
    assert(param_rows(out@) =~= ids_then(ids@, v.model()));
    out
}

/// Each of the numbers, after `v`.
fn rows_after(v: Param, ids: &[i64]) -> (r: Vec<Vec<Param>>)
    ensures
        param_rows(r@) == then_ids(v.model(), ids@),
{
    let mut out: Vec<Vec<Param>> = Vec::new();
    let mut i: usize = 0;
    while i < ids.len()
        invariant
            i <= ids@.len(),
            out@.len() == i,
            forall|k: int|
                0 <= k < i ==> param_models((#[trigger] out@[k])@) == seq![
                    v.model(),
                    ParamModel::Integer(ids@[k]),
                ],
        decreases ids@.len() - i,
    {
        out.push(two(copy_of(&v), Param::Integer(ids[i])));
        i += 1;
    }
    assert(param_rows(out@) =~= then_ids(v.model(), ids@));
    out
}

/// Each of the numbers.
fn rows_alone(ids: &[i64]) -> (r: Vec<Vec<Param>>)
    ensures
        param_rows(r@) == ids_alone(ids@),
{
    let mut out: Vec<Vec<Param>> = Vec::new();
    let mut i: usize = 0;
    while i < ids.len()
        invariant
            i <= ids@.len(),
            out@.len() == i,
            forall|k: int|
                0 <= k < i ==> param_models((#[trigger] out@[k])@) == seq![
                    ParamModel::Integer(ids@[k]),
                ],
        decreases ids@.len() - i,
    {
        out.push(one(Param::Integer(ids[i])));
        i += 1;
    }
    assert(param_rows(out@) =~= ids_alone(ids@));
    out
}

/// Selects the number of the image at a path.
pub const ID_BY_PATH_SQL: &'static str = "SELECT id FROM images WHERE path = ?1";

/// The number of the image at a path.
pub fn get_id_by_path(db: &mut Db, path: &str) -> (r: Result<i64, DbError>)
    ensures
        asked(
            old(db).trace(),
            final(db).trace(),
            select(ID_BY_PATH_SQL@, seq![ParamModel::Text(path@)]),
        ),
        row_model_of(r) == one_read::<i64>(final(db).last_reply()),
{
    let params = one(Param::Text(path.to_owned()));
    db.query_row::<i64>(ID_BY_PATH_SQL, &params)
}

/// Selects the path of an image.
pub const PATH_BY_ID_SQL: &'static str = "SELECT path FROM images WHERE id = ?1";

/// The path of an image.
pub fn get_image_path(db: &mut Db, id: i64) -> (r: Result<String, DbError>)
    ensures
        asked(
            old(db).trace(),
            final(db).trace(),
            select(PATH_BY_ID_SQL@, seq![ParamModel::Integer(id)]),
        ),
        row_model_of(r) == one_read::<String>(final(db).last_reply()),
{
    let params = one(Param::Integer(id));
    db.query_row::<String>(PATH_BY_ID_SQL, &params)
}

/// Rates an image.
pub const SET_RATING_SQL: &'static str = "UPDATE images SET rating = ?2 WHERE id = ?1";

/// Rates an image, from zero to five.
pub fn set_rating(db: &mut Db, id: i64, rating: i64) -> (r: Result<(), DbError>)
    ensures
        asked(
            old(db).trace(),
            final(db).trace(),
            command(SET_RATING_SQL@, seq![ParamModel::Integer(id), ParamModel::Integer(rating_near(rating))]),
        ),
        kinded(r) == done(final(db).last_reply()),
{
    let params = two(Param::Integer(id), Param::Integer(clamp_rating(rating)));
    db.execute(SET_RATING_SQL, &params)
}

/// Marks an image as a favourite, or not.
pub const SET_FAVORITE_SQL: &'static str = "UPDATE images SET favorite = ?2 WHERE id = ?1";

/// Marks an image as a favourite, or not.
pub fn set_favorite(db: &mut Db, id: i64, favorite: bool) -> (r: Result<(), DbError>)
    ensures
        asked(
            old(db).trace(),
            final(db).trace(),
            command(SET_FAVORITE_SQL@, seq![ParamModel::Integer(id), ParamModel::Integer(flag_value(favorite))]),
        ),
        kinded(r) == done(final(db).last_reply()),
{
    let params = two(Param::Integer(id), Param::Integer(flag(favorite)));
    db.execute(SET_FAVORITE_SQL, &params)
}

/// Notes the perceptual hash of an image.
pub const SET_PHASH_SQL: &'static str = "UPDATE images SET phash = ?2 WHERE id = ?1";

/// Notes the perceptual hash of an image.
pub fn set_phash(db: &mut Db, id: i64, phash: i64) -> (r: Result<(), DbError>)
    ensures
        asked(
            old(db).trace(),
            final(db).trace(),
            command(SET_PHASH_SQL@, seq![ParamModel::Integer(id), ParamModel::Integer(phash)]),
        ),
        kinded(r) == done(final(db).last_reply()),
{
    let params = two(Param::Integer(id), Param::Integer(phash));
    db.execute(SET_PHASH_SQL, &params)
}

/// Rejects an image, or takes it back.
pub const SET_HIDDEN_SQL: &'static str = "UPDATE images SET hidden = ?2 WHERE id = ?1";

/// Rejects images, or takes them back.
pub fn set_hidden_bulk(db: &mut Db, ids: &[i64], hidden: bool) -> (r: Result<(), DbError>)
    ensures
        ran(
            old(db).trace(),
            final(db).trace(),
            each(SET_HIDDEN_SQL@, ids_then(ids@, ParamModel::Integer(flag_value(hidden)))),
            kinded(r),
        ),
{
    let rows = rows_then(ids, Param::Integer(flag(hidden)));
    run_each(db, SET_HIDDEN_SQL, &rows)
}

/// Marks images as favourites, or not.
pub fn set_favorite_bulk(db: &mut Db, ids: &[i64], favorite: bool) -> (r: Result<(), DbError>)
    ensures
        ran(
            old(db).trace(),
            final(db).trace(),
            each(SET_FAVORITE_SQL@, ids_then(ids@, ParamModel::Integer(flag_value(favorite)))),
            kinded(r),
        ),
{
    let rows = rows_then(ids, Param::Integer(flag(favorite)));
    run_each(db, SET_FAVORITE_SQL, &rows)
}

/// Rates images, from zero to five.
pub fn set_rating_bulk(db: &mut Db, ids: &[i64], rating: i64) -> (r: Result<(), DbError>)
    ensures
        ran(
            old(db).trace(),
            final(db).trace(),
            each(SET_RATING_SQL@, ids_then(ids@, ParamModel::Integer(rating_near(rating)))),
            kinded(r),
        ),
{
    let rows = rows_then(ids, Param::Integer(clamp_rating(rating)));
    run_each(db, SET_RATING_SQL, &rows)
}

/// Takes an image out of the index.
pub const DELETE_IMAGE_SQL: &'static str = "DELETE FROM images WHERE id = ?1";

/// Takes images out of the index.
pub fn delete_images(db: &mut Db, ids: &[i64]) -> (r: Result<(), DbError>)
    ensures
        ran(
            old(db).trace(),
            final(db).trace(),
            each(DELETE_IMAGE_SQL@, ids_alone(ids@)),
            kinded(r),
        ),
{
    let rows = rows_alone(ids);
    run_each(db, DELETE_IMAGE_SQL, &rows)
}

// ---------------------------------------------------------------------------
// The library
// ---------------------------------------------------------------------------

/// A watched folder and the number of its images.
pub struct FolderInfo {
    pub id: i64,
    pub path: String,
    pub image_count: i64,
}

impl FromRow for FolderInfo {
    type M = (i64, Seq<char>, i64);

    open spec fn row_model(self) -> Self::M {
        (self.id, self.path@, self.image_count)
    }

    open spec fn decoded(row: Seq<CellModel>) -> Option<Self::M> {
        match (int_in(row, 0), text_in(row, 1), int_in(row, 2)) {
            (Some(id), Some(path), Some(image_count)) => Some((id, path, image_count)),
            _ => None,
        }
    }

    fn from_row(row: &Vec<Cell>) -> (r: Result<Self, DbError>) {
        match (read_int(row, 0), read_text(row, 1), read_int(row, 2)) {
            (Some(id), Some(path), Some(image_count)) => Ok(FolderInfo { id, path, image_count }),
            _ => Err(DbError::Column),
        }
    }
}

/// Selects the watched folders with the number of their images.
pub const FOLDERS_SQL: &'static str = "SELECT f.id, f.path, COUNT(i.id) FROM folders f
         LEFT JOIN images i ON i.folder_id = f.id GROUP BY f.id ORDER BY f.path";

/// The watched folders, by path.
pub fn list_folders(db: &mut Db) -> (r: Result<Vec<FolderInfo>, DbError>)
    ensures
        asked(
            old(db).trace(),
            final(db).trace(),
            select(FOLDERS_SQL@, Seq::empty()),
        ),
        list_model(r) == all_read::<FolderInfo>(final(db).last_reply()),
{
    let params: Vec<Param> = Vec::new();
    assert(param_models(params@) =~= Seq::<ParamModel>::empty());
    db.query_all::<FolderInfo>(FOLDERS_SQL, &params)
}

/// Counts over the library.
pub struct LibraryStats {
    /// The images that are not rejected.
    pub total: i64,
    pub novelai: i64,
    pub favorites: i64,
    pub rejects: i64,
}

impl FromRow for LibraryStats {
    type M = (i64, i64, i64, i64);

    open spec fn row_model(self) -> Self::M {
        (self.total, self.novelai, self.favorites, self.rejects)
    }

    open spec fn decoded(row: Seq<CellModel>) -> Option<Self::M> {
        match (int_in(row, 0), int_in(row, 1), int_in(row, 2), int_in(row, 3)) {
            (Some(total), Some(novelai), Some(favorites), Some(rejects)) => Some((total, novelai, favorites, rejects)),
            _ => None,
        }
    }

    fn from_row(row: &Vec<Cell>) -> (r: Result<Self, DbError>) {
        match (read_int(row, 0), read_int(row, 1), read_int(row, 2), read_int(row, 3)) {
            (Some(total), Some(novelai), Some(favorites), Some(rejects)) => Ok(LibraryStats { total, novelai, favorites, rejects }),
            _ => Err(DbError::Column),
        }
    }
}

/// Counts over the library.
pub const STATS_SQL: &'static str = "SELECT COALESCE(SUM(hidden = 0),0), COALESCE(SUM(is_novelai AND hidden = 0),0),
                COALESCE(SUM(favorite AND hidden = 0),0), COALESCE(SUM(hidden),0)
         FROM images";

/// Counts over the library. Only the last counts rejects.
pub fn stats(db: &mut Db) -> (r: Result<LibraryStats, DbError>)
    ensures
        asked(
            old(db).trace(),
            final(db).trace(),
            select(STATS_SQL@, Seq::empty()),
        ),
        row_model_of(r) == one_read::<LibraryStats>(final(db).last_reply()),
{
    let params: Vec<Param> = Vec::new();
    assert(param_models(params@) =~= Seq::<ParamModel>::empty());
    db.query_row::<LibraryStats>(STATS_SQL, &params)
}

// ---------------------------------------------------------------------------
// Albums and saved searches
// ---------------------------------------------------------------------------

/// An album and the number of its images.
pub struct AlbumInfo {
    pub id: i64,
    pub name: String,
    pub image_count: i64,
}

impl FromRow for AlbumInfo {
    type M = (i64, Seq<char>, i64);

    open spec fn row_model(self) -> Self::M {
        (self.id, self.name@, self.image_count)
    }

    open spec fn decoded(row: Seq<CellModel>) -> Option<Self::M> {
        match (int_in(row, 0), text_in(row, 1), int_in(row, 2)) {
            (Some(id), Some(name), Some(image_count)) => Some((id, name, image_count)),
            _ => None,
        }
    }

    fn from_row(row: &Vec<Cell>) -> (r: Result<Self, DbError>) {
        match (read_int(row, 0), read_text(row, 1), read_int(row, 2)) {
            (Some(id), Some(name), Some(image_count)) => Ok(AlbumInfo { id, name, image_count }),
            _ => Err(DbError::Column),
        }
    }
}

/// Selects the albums with the number of their images.
pub const ALBUMS_SQL: &'static str = "SELECT a.id, a.name, COUNT(ai.image_id) FROM albums a
         LEFT JOIN album_images ai ON ai.album_id = a.id
         GROUP BY a.id ORDER BY a.position, a.name";

/// The albums, in their order.
pub fn list_albums(db: &mut Db) -> (r: Result<Vec<AlbumInfo>, DbError>)
    ensures
        asked(
            old(db).trace(),
            final(db).trace(),
            select(ALBUMS_SQL@, Seq::empty()),
        ),
        list_model(r) == all_read::<AlbumInfo>(final(db).last_reply()),
{
    let params: Vec<Param> = Vec::new();
    assert(param_models(params@) =~= Seq::<ParamModel>::empty());
    db.query_all::<AlbumInfo>(ALBUMS_SQL, &params)
}

/// Creates an album.
pub const CREATE_ALBUM_SQL: &'static str = "INSERT INTO albums(name) VALUES (?1)";

/// Creates an album, and gives its number.
pub fn create_album(db: &mut Db, name: &str) -> (r: Result<i64, DbError>)
    ensures
        inserted(
            old(db).trace(),
            final(db).trace(),
            command(CREATE_ALBUM_SQL@, seq![ParamModel::Text(name@)]),
            kinded(r),
        ),
{
    let params = one(Param::Text(name.to_owned()));
    db.insert(CREATE_ALBUM_SQL, &params)
}

/// Deletes an album.
pub const DELETE_ALBUM_SQL: &'static str = "DELETE FROM albums WHERE id = ?1";

/// Deletes an album. Its images stay.
pub fn delete_album(db: &mut Db, id: i64) -> (r: Result<(), DbError>)
    ensures
        asked(
            old(db).trace(),
            final(db).trace(),
            command(DELETE_ALBUM_SQL@, seq![ParamModel::Integer(id)]),
        ),
        kinded(r) == done(final(db).last_reply()),
{
    let params = one(Param::Integer(id));
    db.execute(DELETE_ALBUM_SQL, &params)
}

/// Puts an image at the end of an album, unless it is in it.
pub const ADD_TO_ALBUM_SQL: &'static str = "INSERT OR IGNORE INTO album_images(album_id, image_id, position)
         VALUES (?1, ?2, (SELECT COALESCE(MAX(position),0)+1 FROM album_images WHERE album_id = ?1))";

/// Puts images into an album, each at its end.
pub fn add_to_album(db: &mut Db, album_id: i64, ids: &[i64]) -> (r: Result<(), DbError>)
    ensures
        ran(
            old(db).trace(),
            final(db).trace(),
            each(ADD_TO_ALBUM_SQL@, then_ids(ParamModel::Integer(album_id), ids@)),
            kinded(r),
        ),
{
    let rows = rows_after(Param::Integer(album_id), ids);
    run_each(db, ADD_TO_ALBUM_SQL, &rows)
}

/// Takes an image out of an album.
pub const REMOVE_FROM_ALBUM_SQL: &'static str = "DELETE FROM album_images WHERE album_id = ?1 AND image_id = ?2";

/// Takes images out of an album.
pub fn remove_from_album(db: &mut Db, album_id: i64, ids: &[i64]) -> (r: Result<(), DbError>)
    ensures
        ran(
            old(db).trace(),
            final(db).trace(),
            each(REMOVE_FROM_ALBUM_SQL@, then_ids(ParamModel::Integer(album_id), ids@)),
            kinded(r),
        ),
{
    let rows = rows_after(Param::Integer(album_id), ids);
    run_each(db, REMOVE_FROM_ALBUM_SQL, &rows)
}

/// A search kept under a name.
pub struct SavedSearch {
    pub id: i64,
    pub name: String,
    pub query_json: String,
}

impl FromRow for SavedSearch {
    type M = (i64, Seq<char>, Seq<char>);

    open spec fn row_model(self) -> Self::M {
        (self.id, self.name@, self.query_json@)
    }

    open spec fn decoded(row: Seq<CellModel>) -> Option<Self::M> {
        match (int_in(row, 0), text_in(row, 1), text_in(row, 2)) {
            (Some(id), Some(name), Some(query_json)) => Some((id, name, query_json)),
            _ => None,
        }
    }

    fn from_row(row: &Vec<Cell>) -> (r: Result<Self, DbError>) {
        match (read_int(row, 0), read_text(row, 1), read_text(row, 2)) {
            (Some(id), Some(name), Some(query_json)) => Ok(SavedSearch { id, name, query_json }),
            _ => Err(DbError::Column),
        }
    }
}

/// Selects the saved searches.
pub const SEARCHES_SQL: &'static str = "SELECT id, name, query_json FROM saved_searches ORDER BY name";

/// The saved searches, by name.
pub fn list_saved_searches(db: &mut Db) -> (r: Result<Vec<SavedSearch>, DbError>)
    ensures
        asked(
            old(db).trace(),
            final(db).trace(),
            select(SEARCHES_SQL@, Seq::empty()),
        ),
        list_model(r) == all_read::<SavedSearch>(final(db).last_reply()),
{
    let params: Vec<Param> = Vec::new();
    assert(param_models(params@) =~= Seq::<ParamModel>::empty());
    db.query_all::<SavedSearch>(SEARCHES_SQL, &params)
}

/// Keeps a search under a name.
pub const CREATE_SEARCH_SQL: &'static str = "INSERT INTO saved_searches(name, query_json) VALUES (?1, ?2)";

/// Keeps a search under a name, and gives its number.
pub fn create_saved_search(db: &mut Db, name: &str, query_json: &str) -> (r: Result<i64, DbError>)
    ensures
        inserted(
            old(db).trace(),
            final(db).trace(),
            command(CREATE_SEARCH_SQL@, seq![ParamModel::Text(name@), ParamModel::Text(query_json@)]),
            kinded(r),
        ),
{
    let params = two(Param::Text(name.to_owned()), Param::Text(query_json.to_owned()));
    db.insert(CREATE_SEARCH_SQL, &params)
}

/// Deletes a saved search.
pub const DELETE_SEARCH_SQL: &'static str = "DELETE FROM saved_searches WHERE id = ?1";

/// Deletes a saved search.
pub fn delete_saved_search(db: &mut Db, id: i64) -> (r: Result<(), DbError>)
    ensures
        asked(
            old(db).trace(),
            final(db).trace(),
            command(DELETE_SEARCH_SQL@, seq![ParamModel::Integer(id)]),
        ),
        kinded(r) == done(final(db).last_reply()),
{
    let params = one(Param::Integer(id));
    db.execute(DELETE_SEARCH_SQL, &params)
}

// ---------------------------------------------------------------------------
// Tags
// ---------------------------------------------------------------------------

/// A tag and the number of images that have it.
pub struct TagSuggestion {
    pub name: String,
    pub category: String,
    pub count: i64,
}

impl FromRow for TagSuggestion {
    type M = (Seq<char>, Seq<char>, i64);

    open spec fn row_model(self) -> Self::M {
        (self.name@, self.category@, self.count)
    }

    open spec fn decoded(row: Seq<CellModel>) -> Option<Self::M> {
        match (text_in(row, 0), text_in(row, 1), int_in(row, 2)) {
            (Some(name), Some(category), Some(count)) => Some((name, category, count)),
            _ => None,
        }
    }

    fn from_row(row: &Vec<Cell>) -> (r: Result<Self, DbError>) {
        match (read_text(row, 0), read_text(row, 1), read_int(row, 2)) {
            (Some(name), Some(category), Some(count)) => Ok(TagSuggestion { name, category, count }),
            _ => Err(DbError::Column),
        }
    }
}

/// Selects the tags that are not hidden and hold a text, the most used first.
pub const SUGGEST_SQL: &'static str = "SELECT t.name, t.category, COUNT(it.image_id) AS n
         FROM tags t JOIN image_tags it ON it.tag_id = t.id
         WHERE t.name LIKE ?1 AND t.hidden = 0
         GROUP BY t.id ORDER BY n DESC, t.name LIMIT ?2";

/// Whether the tags that hold a text were asked for.
pub open spec fn suggestions_asked(
    before: Seq<Event>,
    after: Seq<Event>,
    part: Seq<char>,
    limit: i64,
) -> bool {
    asked(
        before,
        after,
        select(
            SUGGEST_SQL@,
            seq![ParamModel::Text("%"@ + part + "%"@), ParamModel::Integer(limit)],
        ),
    )
}

/// The tags that hold a text and are not hidden, the most used first.
pub fn suggest_tags(db: &mut Db, prefix: &str, limit: i64) -> (r: Result<
    Vec<TagSuggestion>,
    DbError,
>)
    ensures
        suggestions_asked(old(db).trace(), final(db).trace(), prefix@, limit),
        list_model(r) == all_read::<TagSuggestion>(final(db).last_reply()),
{
    let params = two(Param::Text(concat3("%", prefix, "%")), Param::Integer(limit));
    db.query_all::<TagSuggestion>(SUGGEST_SQL, &params)
}

/// The most used tags that are not hidden.
pub fn top_tags(db: &mut Db, limit: i64) -> (r: Result<Vec<TagSuggestion>, DbError>)
    ensures
        suggestions_asked(old(db).trace(), final(db).trace(), ""@, limit),
        list_model(r) == all_read::<TagSuggestion>(final(db).last_reply()),
{
    suggest_tags(db, "", limit)
}

/// Hides a tag, or shows it again.
pub const HIDE_TAG_SQL: &'static str = "UPDATE tags SET hidden = ?2 WHERE name = ?1";

/// Hides a tag, or shows it again.
pub fn set_tag_hidden(db: &mut Db, name: &str, hidden: bool) -> (r: Result<(), DbError>)
    ensures
        asked(
            old(db).trace(),
            final(db).trace(),
            command(HIDE_TAG_SQL@, seq![ParamModel::Text(name@), ParamModel::Integer(flag_value(hidden))]),
        ),
        kinded(r) == done(final(db).last_reply()),
{
    let params = two(Param::Text(name.to_owned()), Param::Integer(flag(hidden)));
    db.execute(HIDE_TAG_SQL, &params)
}

/// Selects the hidden tags with the number of their images.
pub const HIDDEN_TAGS_SQL: &'static str = "SELECT t.name, t.category, COUNT(it.image_id) FROM tags t
         LEFT JOIN image_tags it ON it.tag_id = t.id
         WHERE t.hidden = 1 GROUP BY t.id ORDER BY t.name";

/// The hidden tags, by name.
pub fn list_hidden_tags(db: &mut Db) -> (r: Result<Vec<TagSuggestion>, DbError>)
    ensures
        asked(
            old(db).trace(),
            final(db).trace(),
            select(HIDDEN_TAGS_SQL@, Seq::empty()),
        ),
        list_model(r) == all_read::<TagSuggestion>(final(db).last_reply()),
{
    let params: Vec<Param> = Vec::new();
    assert(param_models(params@) =~= Seq::<ParamModel>::empty());
    db.query_all::<TagSuggestion>(HIDDEN_TAGS_SQL, &params)
}

/// Takes a tag off an image where the user put it.
pub const REMOVE_USER_TAG_SQL: &'static str = "DELETE FROM image_tags WHERE image_id = ?1 AND source = 'user'
         AND tag_id = (SELECT id FROM tags WHERE name = ?2)";

/// Takes a tag off images where the user put it. Those that come from the metadata
/// stay.
pub fn remove_user_tag(db: &mut Db, ids: &[i64], name: &str) -> (r: Result<(), DbError>)
    ensures
        ran(
            old(db).trace(),
            final(db).trace(),
            each(REMOVE_USER_TAG_SQL@, ids_then(ids@, ParamModel::Text(name@))),
            kinded(r),
        ),
{
    let rows = rows_then(ids, Param::Text(name.to_owned()));
    run_each(db, REMOVE_USER_TAG_SQL, &rows)
}

/// Adds a tag, unless it exists.
pub const NEW_TAG_SQL: &'static str = "INSERT OR IGNORE INTO tags(name, category) VALUES (?1, 'general')";

/// Selects the number of a tag.
pub const TAG_ID_SQL: &'static str = "SELECT id FROM tags WHERE name = ?1";

/// Puts a tag on an image as the user's, unless the image has it.
pub const TAG_IMAGE_SQL: &'static str = "INSERT OR IGNORE INTO image_tags(image_id, tag_id, source) VALUES (?1, ?2, 'user')";

/// Whether a tag was put on images: it is added, its number is asked for, and it is
/// put on each image until that fails.
pub open spec fn tagged(
    before: Seq<Event>,
    after: Seq<Event>,
    ids: Seq<i64>,
    name: Seq<char>,
    r: Result<(), ErrKind>,
) -> bool {
    let n = before.len() as int;
    let text = seq![ParamModel::Text(name)];
    &&& after.len() > n
    &&& after.take(n) == before
    &&& after[n].request == command(NEW_TAG_SQL@, text)
    &&& match done(after[n].reply) {
        Err(k) => after.len() == n + 1 && r == Err::<(), ErrKind>(k),
        Ok(_) => {
            &&& after.len() > n + 1
            &&& after[n + 1].request == select(TAG_ID_SQL@, text)
            &&& match one_read::<i64>(after[n + 1].reply) {
                Err(k) => after.len() == n + 2 && r == Err::<(), ErrKind>(k),
                Ok(tag) => ran(
                    after.take(n + 2),
                    after,
                    each(TAG_IMAGE_SQL@, ids_then(ids, ParamModel::Integer(tag))),
                    r,
                ),
            }
        },
    }
}

/// Puts a tag on images as the user's. The name is to be normalized, so that it
/// merges with tags from prompts. Where an image has the tag from its metadata, it
/// stays as it is.
pub fn add_user_tag(db: &mut Db, ids: &[i64], name: &str) -> (r: Result<(), DbError>)
    ensures
        tagged(old(db).trace(), final(db).trace(), ids@, name@, kinded(r)),
{
    let ghost n = old(db).trace().len() as int;
    let params = one(Param::Text(name.to_owned()));
    let added = db.execute(NEW_TAG_SQL, &params);
    let ghost t1 = db.trace();
    assert(t1.take(n) =~= old(db).trace());
    if let Err(e) = added {
        return Err(e);
    }
    let found = db.query_row::<i64>(TAG_ID_SQL, &params);
    let ghost t2 = db.trace();
    proof {
        assert(t2.take(n) =~= old(db).trace());
        assert(t2[n] == t1[n]);
    }
    let tag = match found {
        Ok(tag) => tag,
        Err(e) => {
            return Err(e);
        },
    };
    let rows = rows_then(ids, Param::Integer(tag));
    let r = run_each(db, TAG_IMAGE_SQL, &rows);
    proof {
        let t3 = db.trace();
        assert(t3.take(n + 2) =~= t2);
        assert(t3.take(n) =~= t3.take(n + 2).take(n));
        assert(t3[n] == t3.take(n + 2)[n]);
        assert(t3[n + 1] == t3.take(n + 2)[n + 1]);
    }
    r
}

/// Why tags were not added.
pub enum TagError {
    /// There was no tag in the text.
    Empty,
    Db(DbError),
}

/// Whether tags were put on images one after the other, until that failed.
pub open spec fn tagged_all(
    before: Seq<Event>,
    after: Seq<Event>,
    ids: Seq<i64>,
    names: Seq<Seq<char>>,
    r: Result<(), ErrKind>,
) -> bool
    decreases names.len(),
{
    if names.len() == 0 {
        after == before && r is Ok
    } else {
        ||| r is Err && tagged_all(before, after, ids, names.drop_last(), r)
        ||| exists|mid: Seq<Event>|
            tagged_all(before, mid, ids, names.drop_last(), Ok(())) && #[trigger] tagged(
                mid,
                after,
                ids,
                names.last(),
                r,
            )
    }
}

/// The names of the tags in what a user wrote.
pub open spec fn user_tag_names(text: Seq<char>) -> Seq<Seq<char>> {
    names_of(normalized(text, "user"@))
}

/// A failure stays one however many tags were to follow.
proof fn lemma_tagged_failed(
    before: Seq<Event>,
    after: Seq<Event>,
    ids: Seq<i64>,
    names: Seq<Seq<char>>,
    n: int,
    r: Result<(), ErrKind>,
)
    requires
        r is Err,
        0 <= n <= names.len(),
        tagged_all(before, after, ids, names.take(n), r),
    ensures
        tagged_all(before, after, ids, names, r),
    decreases names.len() - n,
{
    if n < names.len() {
        assert(names.take(n + 1).drop_last() =~= names.take(n));
        lemma_tagged_failed(before, after, ids, names, n + 1, r);
    } else {
        assert(names.take(n) =~= names);
    }
}

/// Puts the tags in a text on images as the user's, and gives their names. The text
/// goes through the same normalization as a prompt.
pub fn add_user_tags(db: &mut Db, ids: &[i64], text: &str) -> (r: Result<Vec<String>, TagError>)
    ensures
        match r {
            Ok(names) => {
                &&& texts(names@) == user_tag_names(text@)
                &&& names@.len() > 0
                &&& tagged_all(
                    old(db).trace(),
                    final(db).trace(),
                    ids@,
                    user_tag_names(text@),
                    Ok(()),
                )
            },
            Err(TagError::Empty) => {
                &&& user_tag_names(text@).len() == 0
                &&& final(db).trace() == old(db).trace()
            },
            Err(TagError::Db(e)) => {
                &&& user_tag_names(text@).len() > 0
                &&& tagged_all(
                    old(db).trace(),
                    final(db).trace(),
                    ids@,
                    user_tag_names(text@),
                    Err(e.kind()),
                )
            },
        },
{
    let tags = normalize_tags(text, "user");
    let ghost names = user_tag_names(text@);
    assert(names.len() == tags@.len());
    if tags.len() == 0 {
        return Err(TagError::Empty);
    }
    let mut added: Vec<String> = Vec::new();
    let mut i: usize = 0;
    assert(names.take(0) =~= Seq::<Seq<char>>::empty());
    while i < tags.len()
        invariant
            i <= tags@.len(),
            names.len() == tags@.len(),
            names == user_tag_names(text@),
            tag_models(tags@) == normalized(text@, "user"@),
            texts(added@) == names.take(i as int),
            tagged_all(old(db).trace(), db.trace(), ids@, names.take(i as int), Ok(())),
        decreases tags@.len() - i,
    {
        let ghost mid = db.trace();
        let ghost before = added@;
        assert(names[i as int] == tags@[i as int].name@) by {
            assert(tag_models(tags@)[i as int].name == tags@[i as int].name@);
        }
        let r = add_user_tag(db, ids, tags[i].name.as_str());
        proof {
            assert(names.take(i + 1).drop_last() =~= names.take(i as int));
            assert(names.take(i + 1).last() == tags@[i as int].name@);
            assert(tagged(mid, db.trace(), ids@, names.take(i + 1).last(), kinded(r)));
        }
        if let Err(e) = r {
            proof {
                lemma_tagged_failed(
                    old(db).trace(),
                    db.trace(),
                    ids@,
                    names,
                    i + 1,
                    Err(e.kind()),
                );
            }
            return Err(TagError::Db(e));
        }
        added.push(tags[i].name.clone());
        i += 1;
        assert(texts(added@) =~= names.take(i as int)) by {
            assert(texts(added@) =~= texts(before).push(tags@[i - 1].name@));
        }
    }
    assert(names.take(names.len() as int) =~= names);
    Ok(added)
}

// ---------------------------------------------------------------------------
// Counting tags and days
// ---------------------------------------------------------------------------

/// Two tags and the number of visible images that have both.
pub struct TagPair {
    pub a: String,
    pub b: String,
    pub count: i64,
}

impl FromRow for TagPair {
    type M = (Seq<char>, Seq<char>, i64);

    open spec fn row_model(self) -> Self::M {
        (self.a@, self.b@, self.count)
    }

    open spec fn decoded(row: Seq<CellModel>) -> Option<Self::M> {
        match (text_in(row, 0), text_in(row, 1), int_in(row, 2)) {
            (Some(a), Some(b), Some(count)) => Some((a, b, count)),
            _ => None,
        }
    }

    fn from_row(row: &Vec<Cell>) -> (r: Result<Self, DbError>) {
        match (read_text(row, 0), read_text(row, 1), read_int(row, 2)) {
            (Some(a), Some(b), Some(count)) => Ok(TagPair { a, b, count }),
            _ => Err(DbError::Column),
        }
    }
}

/// A day and the number of visible images of it.
pub struct DayCount {
    /// A calendar day in local time, as `YYYY-MM-DD`.
    pub day: String,
    pub count: i64,
}

impl FromRow for DayCount {
    type M = (Seq<char>, i64);

    open spec fn row_model(self) -> Self::M {
        (self.day@, self.count)
    }

    open spec fn decoded(row: Seq<CellModel>) -> Option<Self::M> {
        match (text_in(row, 0), int_in(row, 1)) {
            (Some(day), Some(count)) => Some((day, count)),
            _ => None,
        }
    }

    fn from_row(row: &Vec<Cell>) -> (r: Result<Self, DbError>) {
        match (read_text(row, 0), read_int(row, 1)) {
            (Some(day), Some(count)) => Ok(DayCount { day, count }),
            _ => Err(DbError::Column),
        }
    }
}

/// Counts the tags of visible images, but for hidden tags and those of negative
/// prompts.
pub const FREQUENCY_SQL: &'static str = "SELECT t.name, t.category, COUNT(*) AS n
         FROM image_tags it
         JOIN tags t ON t.id = it.tag_id
         JOIN images i ON i.id = it.image_id
         WHERE i.hidden = 0 AND t.hidden = 0 AND it.source <> 'negative'
         GROUP BY t.id ORDER BY n DESC, t.name LIMIT ?1";

/// The most used tags over the visible library.
pub fn tag_frequency(db: &mut Db, limit: i64) -> (r: Result<Vec<TagSuggestion>, DbError>)
    ensures
        asked(
            old(db).trace(),
            final(db).trace(),
            select(FREQUENCY_SQL@, seq![ParamModel::Integer(limit)]),
        ),
        list_model(r) == all_read::<TagSuggestion>(final(db).last_reply()),
{
    let params = one(Param::Integer(limit));
    db.query_all::<TagSuggestion>(FREQUENCY_SQL, &params)
}

/// How many of the most used tags are considered for pairs.
pub const COOC_POOL: i64 = 120;

/// Counts the pairs among the most used tags, each pair once.
pub const PAIRS_SQL: &'static str = "WITH visible AS (
           SELECT it.image_id, it.tag_id FROM image_tags it
           JOIN tags t ON t.id = it.tag_id
           JOIN images i ON i.id = it.image_id
           WHERE i.hidden = 0 AND t.hidden = 0 AND it.source <> 'negative'
         ),
         pool AS (
           SELECT image_id, tag_id FROM visible
           WHERE tag_id IN (
             SELECT tag_id FROM visible GROUP BY tag_id ORDER BY COUNT(*) DESC LIMIT ?2
           )
         )
         SELECT ta.name, tb.name, COUNT(*) AS n
         FROM pool a
         JOIN pool b ON b.image_id = a.image_id AND a.tag_id < b.tag_id
         JOIN tags ta ON ta.id = a.tag_id
         JOIN tags tb ON tb.id = b.tag_id
         GROUP BY a.tag_id, b.tag_id
         ORDER BY n DESC, ta.name, tb.name LIMIT ?1";

/// The pairs of tags that share an image, the most frequent first, each pair once.
pub fn tag_cooccurrence(db: &mut Db, limit: i64) -> (r: Result<Vec<TagPair>, DbError>)
    ensures
        asked(
            old(db).trace(),
            final(db).trace(),
            select(PAIRS_SQL@, seq![ParamModel::Integer(limit), ParamModel::Integer(COOC_POOL)]),
        ),
        list_model(r) == all_read::<TagPair>(final(db).last_reply()),
{
    let params = two(Param::Integer(limit), Param::Integer(COOC_POOL));
    db.query_all::<TagPair>(PAIRS_SQL, &params)
}

/// How many days back the first day of a window lies. A window has one day at
/// least, and 3650 at most.
pub open spec fn days_back(days: i64) -> int {
    if days < 1 {
        0
    } else if days > 3650 {
        3649
    } else {
        days - 1
    }
}

/// The first day of a window, as SQLite reads it.
pub fn window_start(days: i64) -> (r: String)
    ensures
        r@ == "-"@ + decimal(days_back(days)) + " days"@,
{
    let back: i64 = if days < 1 {
        0
    } else if days > 3650 {
        3649
    } else {
        days - 1
    };
    let d = decimal_text(back);
    concat3("-", d.as_str(), " days")
}

/// Counts the visible images of each day of a window.
pub const DAYS_SQL: &'static str = "SELECT date(file_mtime, 'unixepoch', 'localtime') AS d, COUNT(*)
         FROM images
         WHERE hidden = 0 AND date(file_mtime, 'unixepoch', 'localtime') >= date('now', 'localtime', ?1)
         GROUP BY d ORDER BY d";

/// The number of visible images of each day over the last `days` days, the oldest
/// first. Days without images are left out.
pub fn images_per_day(db: &mut Db, days: i64) -> (r: Result<Vec<DayCount>, DbError>)
    ensures
        asked(
            old(db).trace(),
            final(db).trace(),
            select(
                DAYS_SQL@,
                seq![ParamModel::Text("-"@ + decimal(days_back(days)) + " days"@)],
            ),
        ),
        list_model(r) == all_read::<DayCount>(final(db).last_reply()),
{
    let params = one(Param::Text(window_start(days)));
    db.query_all::<DayCount>(DAYS_SQL, &params)
}

// ---------------------------------------------------------------------------
// Files and folders
// ---------------------------------------------------------------------------

/// Selects the number and the path of an image.
pub const PATHS_SQL: &'static str = "SELECT id, path FROM images WHERE id = ?1";

/// The numbers and paths in answers; an answer without one is passed over.
pub open spec fn paths_in(answers: Seq<Event>) -> Seq<(i64, Seq<char>)>
    decreases answers.len(),
{
    if answers.len() == 0 {
        Seq::empty()
    } else {
        let before = paths_in(answers.drop_last());
        match one_read::<(i64, String)>(answers.last().reply) {
            Ok(row) => before.push(row),
            Err(_) => before,
        }
    }
}

/// Whether the paths of images were asked for one by one.
pub open spec fn paths_asked(
    before: Seq<Event>,
    after: Seq<Event>,
    ids: Seq<i64>,
    r: Result<Seq<(i64, Seq<char>)>, ErrKind>,
) -> bool {
    let n = before.len() as int;
    &&& after.len() > n
    &&& after.take(n) == before
    &&& after[n].request == (Request::Prepare { sql: PATHS_SQL@ })
    &&& match done(after[n].reply) {
        Err(k) => after.len() == n + 1 && r == Err::<Seq<(i64, Seq<char>)>, ErrKind>(k),
        Ok(_) => {
            &&& after.len() == n + 1 + ids.len()
            &&& forall|k: int|
                0 <= k < ids.len() ==> (#[trigger] after[n + 1 + k]).request == select(
                    PATHS_SQL@,
                    seq![ParamModel::Integer(ids[k])],
                )
            &&& r == Ok::<Seq<(i64, Seq<char>)>, ErrKind>(paths_in(after.skip(n + 1)))
        },
    }
}

/// The numbers and paths of the images that are found among the given ones.
pub fn get_paths_for_ids(db: &mut Db, ids: &[i64]) -> (r: Result<Vec<(i64, String)>, DbError>)
    ensures
        paths_asked(old(db).trace(), final(db).trace(), ids@, list_model(r)),
{
    let ghost n = old(db).trace().len() as int;
    let prepared = db.prepare(PATHS_SQL);
    let ghost start = db.trace();
    assert(start.take(n) =~= old(db).trace());
    if let Err(e) = prepared {
        return Err(e);
    }
    let mut out: Vec<(i64, String)> = Vec::new();
    proof {
        assert(start.skip(n + 1) =~= Seq::<Event>::empty());
        assert(row_models(out@) =~= Seq::<(i64, Seq<char>)>::empty());
    }
    let mut i: usize = 0;
    while i < ids.len()
        invariant
            i <= ids@.len(),
            n == old(db).trace().len(),
            db.trace().len() == n + 1 + i,
            db.trace().take(n) == old(db).trace(),
            db.trace()[n].request == (Request::Prepare { sql: PATHS_SQL@ }),
            done(db.trace()[n].reply) is Ok,
            forall|k: int|
                0 <= k < i ==> (#[trigger] db.trace()[n + 1 + k]).request == select(
                    PATHS_SQL@,
                    seq![ParamModel::Integer(ids@[k])],
                ),
            row_models(out@) == paths_in(db.trace().skip(n + 1)),
        decreases ids@.len() - i,
    {
        let ghost mid = db.trace();
        let ghost listed = out@;
        let params = one(Param::Integer(ids[i]));
        let row = db.query_row::<(i64, String)>(PATHS_SQL, &params);
        proof {
            let now = db.trace();
            assert(now.take(n) =~= mid.take(n));
            assert(now[n] == mid[n]);
            assert forall|k: int| 0 <= k <= i implies (#[trigger] now[n + 1 + k]).request == select(
                PATHS_SQL@,
                seq![ParamModel::Integer(ids@[k])],
            ) by {
                if k < i {
                    assert(now[n + 1 + k] == mid[n + 1 + k]);
                }
            }
            assert(now.skip(n + 1).drop_last() =~= mid.skip(n + 1));
            assert(now.skip(n + 1).last() == now.last());
        }
        if let Ok(row) = row {
            out.push(row);
            assert(row_models(out@) =~= row_models(listed).push(
                row.row_model(),
            ));
        }
        i += 1;
    }
    Ok(out)
}

/// Adds a watched folder, unless it exists.
pub const NEW_FOLDER_SQL: &'static str = "INSERT INTO folders(path) VALUES (?1) ON CONFLICT(path) DO NOTHING";

/// Selects the number of a watched folder.
pub const FOLDER_ID_SQL: &'static str = "SELECT id FROM folders WHERE path = ?1";

/// Whether a folder was added and its number asked for.
pub open spec fn folder_added(
    before: Seq<Event>,
    after: Seq<Event>,
    path: Seq<char>,
    r: Result<i64, ErrKind>,
) -> bool {
    let n = before.len() as int;
    let text = seq![ParamModel::Text(path)];
    &&& after.len() > n
    &&& after.take(n) == before
    &&& after[n].request == command(NEW_FOLDER_SQL@, text)
    &&& match done(after[n].reply) {
        Err(k) => after.len() == n + 1 && r == Err::<i64, ErrKind>(k),
        Ok(_) => {
            &&& after.len() == n + 2
            &&& after[n + 1].request == select(FOLDER_ID_SQL@, text)
            &&& r == one_read::<i64>(after[n + 1].reply)
        },
    }
}

/// Adds a watched folder, and gives its number. One that exists keeps its number.
pub fn add_folder(db: &mut Db, path: &str) -> (r: Result<i64, DbError>)
    ensures
        folder_added(old(db).trace(), final(db).trace(), path@, kinded(r)),
{
    let ghost n = old(db).trace().len() as int;
    let params = one(Param::Text(path.to_owned()));
    let added = db.execute(NEW_FOLDER_SQL, &params);
    let ghost t1 = db.trace();
    assert(t1.take(n) =~= old(db).trace());
    if let Err(e) = added {
        return Err(e);
    }
    let r = db.query_row::<i64>(FOLDER_ID_SQL, &params);
    proof {
        assert(db.trace().take(n) =~= old(db).trace());
        assert(db.trace()[n] == t1[n]);
    }
    r
}

/// Selects the numbers of the images of a folder.
pub const FOLDER_IMAGES_SQL: &'static str = "SELECT id FROM images WHERE folder_id = ?1";

/// Takes the images of a folder out of the index.
pub const CLEAR_FOLDER_SQL: &'static str = "DELETE FROM images WHERE folder_id = ?1";

/// Takes a folder out of the index.
pub const DELETE_FOLDER_SQL: &'static str = "DELETE FROM folders WHERE id = ?1";

/// Whether a folder was removed: the numbers of its images are asked for, then the
/// images and the folder are deleted.
pub open spec fn folder_removed(
    before: Seq<Event>,
    after: Seq<Event>,
    id: i64,
    r: Result<Seq<i64>, ErrKind>,
) -> bool {
    let n = before.len() as int;
    let id = seq![ParamModel::Integer(id)];
    &&& after.len() > n
    &&& after.take(n) == before
    &&& after[n].request == select(FOLDER_IMAGES_SQL@, id)
    &&& match readable::<i64>(after[n].reply) {
        Err(k) => after.len() == n + 1 && r == Err::<Seq<i64>, ErrKind>(k),
        Ok(ids) => {
            let script = seq![command(CLEAR_FOLDER_SQL@, id), command(DELETE_FOLDER_SQL@, id)];
            match r {
                Ok(images) => images == ids && ran(after.take(n + 1), after, script, Ok(())),
                Err(k) => ran(after.take(n + 1), after, script, Err(k)),
            }
        },
    }
}

/// Removes a watched folder and its images from the index, and gives the numbers of
/// the images, whose thumbnails are of no more use.
pub fn remove_folder(db: &mut Db, id: i64) -> (r: Result<Vec<i64>, DbError>)
    ensures
        folder_removed(old(db).trace(), final(db).trace(), id, list_model(r)),
{
    let ghost n = old(db).trace().len() as int;
    let ghost bound_id = seq![ParamModel::Integer(id)];
    let params = one(Param::Integer(id));
    let found = db.query_readable::<i64>(FOLDER_IMAGES_SQL, &params);
    let ghost t1 = db.trace();
    assert(t1.take(n) =~= old(db).trace());
    let ids = match found {
        Ok(ids) => ids,
        Err(e) => {
            return Err(e);
        },
    };
    let ghost first = command(CLEAR_FOLDER_SQL@, bound_id);
    let ghost second = command(DELETE_FOLDER_SQL@, bound_id);
    let a = db.execute(CLEAR_FOLDER_SQL, &params);
    let ghost t2 = db.trace();
    proof {
        lemma_ran_nothing(t1);
        lemma_ran_step(t1, t1, t2, Seq::empty(), first, kinded(a));
        assert(t2.take(n + 1) =~= t1);
        lemma_extends(old(db).trace(), t1, t2, n);
    }
    if let Err(e) = a {
        proof {
            lemma_ran_failed(t1, t2, Seq::empty().push(first), seq![second]);
            assert(Seq::empty().push(first) + seq![second] =~= seq![first, second]);
        }
        return Err(e);
    }
    let b = db.execute(DELETE_FOLDER_SQL, &params);
    proof {
        lemma_ran_step(t1, t2, db.trace(), Seq::empty().push(first), second, kinded(b));
        assert(Seq::empty().push(first).push(second) =~= seq![first, second]);
        assert(db.trace().take(n + 1) =~= t1);
        lemma_extends(old(db).trace(), t1, db.trace(), n);
    }
    match b {
        Ok(_) => Ok(ids),
        Err(e) => Err(e),
    }
}

/// Selects the watched folders.
pub const WATCHED_SQL: &'static str = "SELECT id, path FROM folders";

/// The numbers and paths of the watched folders.
pub fn watched_folders(db: &mut Db) -> (r: Result<Vec<(i64, String)>, DbError>)
    ensures
        asked(old(db).trace(), final(db).trace(), select(WATCHED_SQL@, Seq::empty())),
        list_model(r) == readable::<(i64, String)>(final(db).last_reply()),
{
    let params: Vec<Param> = Vec::new();
    assert(param_models(params@) =~= Seq::<ParamModel>::empty());
    db.query_readable::<(i64, String)>(WATCHED_SQL, &params)
}

} // verus!
