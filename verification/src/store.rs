//! How scanned files enter the index, and leave it.

use crate::db::{flag, flag_value, get_id_by_path, set_phash, ID_BY_PATH_SQL, SET_PHASH_SQL};
use crate::nai::{opt_meta, NaiMetadata, NaiModel};
use crate::scanner::KnownFile;
use crate::sql::{
    asked, command, done, kinded, lemma_ran_failed, lemma_ran_nothing, lemma_ran_step, list_model,
    one, one_read, param_models, ran, readable, select, two, Db, DbError, ErrKind, Event, Param,
    ParamModel, Request,
};
use crate::tags::{tag_models, Tag, TagModel};
use crate::text::{opt_text, texts};
use vstd::prelude::*;

verus! {

/// A file that was read.
pub struct ParsedFile {
    pub path: String,
    pub size: i64,
    pub mtime: i64,
    pub meta: Option<NaiMetadata>,
}

/// The mathematical form of a file that was read.
pub struct ParsedModel {
    pub path: Seq<char>,
    pub size: i64,
    pub mtime: i64,
    pub meta: Option<NaiModel>,
}

impl ParsedFile {
    /// The mathematical form.
    pub open spec fn model(self) -> ParsedModel {
        ParsedModel {
            path: self.path@,
            size: self.size,
            mtime: self.mtime,
            meta: opt_meta(self.meta),
        }
    }
}

/// The mathematical form of files that were read.
pub open spec fn parsed_models(v: Seq<ParsedFile>) -> Seq<ParsedModel> {
    v.map_values(|f: ParsedFile| f.model())
}

// ---------------------------------------------------------------------------
// One file
// ---------------------------------------------------------------------------

/// Adds a file, or updates the one at its path. What a user said of it stays; its
/// hash is to be computed again.
pub const UPSERT_SQL: &'static str = "INSERT INTO images(path, folder_id, file_size, file_mtime, width, height,
                            is_novelai, model, seed, sampler, steps, scale,
                            raw_prompt, raw_negative, comment_json)
         VALUES (?1,?2,?3,?4,?5,?6,?7,?8,?9,?10,?11,?12,?13,?14,?15)
         ON CONFLICT(path) DO UPDATE SET
           file_size=?3, file_mtime=?4, width=?5, height=?6, is_novelai=?7,
           model=?8, seed=?9, sampler=?10, steps=?11, scale=?12,
           raw_prompt=?13, raw_negative=?14, comment_json=?15,
           phash=NULL";

/// Takes off the tags of an image that come from its metadata.
pub const DROP_TAGS_SQL: &'static str = "DELETE FROM image_tags WHERE image_id = ?1 AND source != 'user'";

/// Adds a tag, unless it exists.
pub const ADD_TAG_SQL: &'static str = "INSERT OR IGNORE INTO tags(name, category) VALUES (?1, ?2)";

/// Puts a tag on an image, unless the image has it.
pub const LINK_TAG_SQL: &'static str = "INSERT OR IGNORE INTO image_tags(image_id, tag_id, source)
                 SELECT ?1, id, ?3 FROM tags WHERE name = ?2";

/// A text, or null.
pub open spec fn text_or_null(o: Option<Seq<char>>) -> ParamModel {
    match o {
        Some(s) => ParamModel::Text(s),
        None => ParamModel::Null,
    }
}

/// A number, or null.
pub open spec fn int_or_null(o: Option<i64>) -> ParamModel {
    match o {
        Some(n) => ParamModel::Integer(n),
        None => ParamModel::Null,
    }
}

/// A floating-point number, or null.
pub open spec fn real_or_null(o: Option<Seq<char>>) -> ParamModel {
    match o {
        Some(x) => ParamModel::Real(x),
        None => ParamModel::Null,
    }
}

/// The values of a file's columns. A file without metadata has zeros and nulls.
pub open spec fn file_params(folder_id: i64, f: ParsedModel) -> Seq<ParamModel> {
    let front = seq![
        ParamModel::Text(f.path),
        ParamModel::Integer(folder_id),
        ParamModel::Integer(f.size),
        ParamModel::Integer(f.mtime),
    ];
    front + match f.meta {
        Some(m) => seq![
            ParamModel::Integer(m.width as i64),
            ParamModel::Integer(m.height as i64),
            ParamModel::Integer(flag_value(m.is_novelai)),
            text_or_null(m.model),
            int_or_null(m.seed),
            text_or_null(m.sampler),
            int_or_null(m.steps),
            real_or_null(m.scale),
            text_or_null(m.raw_prompt),
            text_or_null(m.raw_negative),
            text_or_null(m.comment_json),
        ],
        None => seq![
            ParamModel::Integer(0),
            ParamModel::Integer(0),
            ParamModel::Integer(0),
            ParamModel::Null,
            ParamModel::Null,
            ParamModel::Null,
            ParamModel::Null,
            ParamModel::Null,
            ParamModel::Null,
            ParamModel::Null,
            ParamModel::Null,
        ],
    }
}

fn text_param(o: &Option<String>) -> (r: Param)
    ensures
        r.model() == text_or_null(opt_text(*o)),
{
    match o {
        Some(s) => Param::Text(s.clone()),
        None => Param::Null,
    }
}

fn int_param(o: Option<i64>) -> (r: Param)
    ensures
        r.model() == int_or_null(o),
{
    match o {
        Some(n) => Param::Integer(n),
        None => Param::Null,
    }
}

fn real_param(o: &Option<String>) -> (r: Param)
    ensures
        r.model() == real_or_null(opt_text(*o)),
{
    match o {
        Some(x) => Param::Real(x.clone()),
        None => Param::Null,
    }
}

/// The values of a file's columns.
fn columns_of(folder_id: i64, f: &ParsedFile) -> (r: Vec<Param>)
    ensures
        param_models(r@) == file_params(folder_id, f.model()),
{
    let path = Param::Text(f.path.clone());
    let folder = Param::Integer(folder_id);
    let size = Param::Integer(f.size);
    let mtime = Param::Integer(f.mtime);
    let r = match &f.meta {
        Some(m) => vec![
            path,
            folder,
            size,
            mtime,
            Param::Integer(m.width as i64),
            Param::Integer(m.height as i64),
            Param::Integer(flag(m.is_novelai)),
            text_param(&m.model),
            int_param(m.seed),
            text_param(&m.sampler),
            int_param(m.steps),
            real_param(&m.scale),
            text_param(&m.raw_prompt),
            text_param(&m.raw_negative),
            text_param(&m.comment_json),
        ],
        None => vec![
            path,
            folder,
            size,
            mtime,
            Param::Integer(0),
            Param::Integer(0),
            Param::Integer(0),
            Param::Null,
            Param::Null,
            Param::Null,
            Param::Null,
            Param::Null,
            Param::Null,
            Param::Null,
            Param::Null,
        ],
    };
    assert(param_models(r@) =~= file_params(folder_id, f.model()));
    r
}

/// The requests that put the tags of its metadata on an image, in place of those
/// that it had from there.
pub open spec fn tag_script(id: i64, tags: Seq<TagModel>) -> Seq<Request>
    decreases tags.len(),
{
    if tags.len() == 0 {
        seq![command(DROP_TAGS_SQL@, seq![ParamModel::Integer(id)])]
    } else {
        let t = tags.last();
        tag_script(id, tags.drop_last()).push(
            command(ADD_TAG_SQL@, seq![ParamModel::Text(t.name), ParamModel::Text(t.category)]),
        ).push(
            command(
                LINK_TAG_SQL@,
                seq![ParamModel::Integer(id), ParamModel::Text(t.name), ParamModel::Text(t.source)],
            ),
        )
    }
}

/// Entering a file again takes off the tags of its metadata, once and before all
/// else, and then only adds tags: those that a user put on it stay.
pub proof fn law_user_tags_are_not_dropped(id: i64, tags: Seq<TagModel>)
    ensures
        tag_script(id, tags).len() > 0,
        tag_script(id, tags)[0] == command(DROP_TAGS_SQL@, seq![ParamModel::Integer(id)]),
        DROP_TAGS_SQL@ == "DELETE FROM image_tags WHERE image_id = ?1 AND source != 'user'"@,
        forall|k: int|
            0 < k < tag_script(id, tags).len() ==> adds_tag(#[trigger] tag_script(id, tags)[k]),
    decreases tags.len(),
{
    if tags.len() > 0 {
        law_user_tags_are_not_dropped(id, tags.drop_last());
    }
}

/// Whether a request adds a tag, or puts one on an image.
pub open spec fn adds_tag(request: Request) -> bool {
    match request {
        Request::Execute { sql, .. } => sql == ADD_TAG_SQL@ || sql == LINK_TAG_SQL@,
        _ => false,
    }
}

/// The tags of a file.
pub open spec fn tags_in(meta: Option<NaiModel>) -> Seq<TagModel> {
    match meta {
        Some(m) => m.tags,
        None => Seq::empty(),
    }
}

/// Whether a file was entered: its columns are set, its number is asked for, and
/// its tags are put on it until that fails.
pub open spec fn entered(
    before: Seq<Event>,
    after: Seq<Event>,
    folder_id: i64,
    f: ParsedModel,
    r: Result<(), ErrKind>,
) -> bool {
    let n = before.len() as int;
    &&& after.len() > n
    &&& after.take(n) == before
    &&& after[n].request == command(UPSERT_SQL@, file_params(folder_id, f))
    &&& match done(after[n].reply) {
        Err(k) => after.len() == n + 1 && r == Err::<(), ErrKind>(k),
        Ok(_) => {
            &&& after.len() > n + 1
            &&& after[n + 1].request == select(ID_BY_PATH_SQL@, seq![ParamModel::Text(f.path)])
            &&& match one_read::<i64>(after[n + 1].reply) {
                Err(k) => after.len() == n + 2 && r == Err::<(), ErrKind>(k),
                Ok(id) => ran(after.take(n + 2), after, tag_script(id, tags_in(f.meta)), r),
            }
        },
    }
}

/// The script for fewer tags is the front of the script for more.
pub proof fn lemma_tag_script_front(id: i64, tags: Seq<TagModel>, n: int)
    requires
        0 <= n <= tags.len(),
    ensures
        tag_script(id, tags.take(n)).len() == 1 + 2 * n,
        tag_script(id, tags).len() == 1 + 2 * tags.len(),
        tag_script(id, tags).take(1 + 2 * n) == tag_script(id, tags.take(n)),
    decreases tags.len(),
{
    if n < tags.len() {
        lemma_tag_script_front(id, tags.drop_last(), n);
        assert(tags.drop_last().take(n) =~= tags.take(n));
        assert(tag_script(id, tags).take(1 + 2 * n) =~= tag_script(id, tags.drop_last()).take(
            1 + 2 * n,
        ));
    } else {
        assert(tags.take(n) =~= tags);
        lemma_tag_script_len(id, tags);
        assert(tag_script(id, tags).take(1 + 2 * n) =~= tag_script(id, tags));
    }
}

proof fn lemma_tag_script_len(id: i64, tags: Seq<TagModel>)
    ensures
        tag_script(id, tags).len() == 1 + 2 * tags.len(),
    decreases tags.len(),
{
    if tags.len() > 0 {
        lemma_tag_script_len(id, tags.drop_last());
    }
}

/// Puts the tags of its metadata on an image.
fn refresh_tags(db: &mut Db, id: i64, tags: &Vec<Tag>) -> (r: Result<(), DbError>)
    ensures
        ran(old(db).trace(), final(db).trace(), tag_script(id, tag_models(tags@)), kinded(r)),
{
    let ghost start = db.trace();
    let ghost all = tag_models(tags@);
    let ghost script = tag_script(id, all);
    proof {
        lemma_ran_nothing(start);
        lemma_tag_script_front(id, all, 0);
        assert(all.take(0) =~= Seq::<TagModel>::empty());
    }
    let params = one(Param::Integer(id));
    let dropped = db.execute(DROP_TAGS_SQL, &params);
    proof {
        let request = command(DROP_TAGS_SQL@, seq![ParamModel::Integer(id)]);
        lemma_ran_step(start, start, db.trace(), Seq::empty(), request, kinded(dropped));
        assert(Seq::empty().push(request) =~= tag_script(id, all.take(0)));
        assert(script.take(1) + script.skip(1) =~= script);
    }
    if let Err(e) = dropped {
        proof {
            lemma_ran_failed(start, db.trace(), script.take(1), script.skip(1));
        }
        return Err(e);
    }
    let mut i: usize = 0;
    while i < tags.len()
        invariant
            i <= tags@.len(),
            start == old(db).trace(),
            all == tag_models(tags@),
            script == tag_script(id, all),
            ran(start, db.trace(), tag_script(id, all.take(i as int)), Ok(())),
        decreases tags@.len() - i,
    {
        let ghost front = tag_script(id, all.take(i as int));
        let t = &tags[i];
        let ghost add_request = command(
            ADD_TAG_SQL@,
            seq![ParamModel::Text(t.name@), ParamModel::Text(t.category@)],
        );
        let ghost link_request = command(
            LINK_TAG_SQL@,
            seq![ParamModel::Integer(id), ParamModel::Text(t.name@), ParamModel::Text(t.source@)],
        );
        proof {
            assert(all.take(i + 1).drop_last() =~= all.take(i as int));
            assert(all.take(i + 1).last() == tags@[i as int].model());
            lemma_tag_script_front(id, all, i + 1);
            lemma_tag_script_front(id, all, i as int);
            assert(script.take(2 + 2 * i) =~= front.push(add_request)) by {
                assert(script.take(3 + 2 * i) == front.push(add_request).push(link_request));
                assert(script.take(2 + 2 * i) =~= script.take(3 + 2 * i).take(2 + 2 * i));
            }
            assert(script.take(2 + 2 * i) + script.skip(2 + 2 * i) =~= script);
            assert(script.take(3 + 2 * i) + script.skip(3 + 2 * i) =~= script);
        }
        let ghost mid = db.trace();
        let params = two(Param::Text(t.name.clone()), Param::Text(t.category.clone()));
        let added = db.execute(ADD_TAG_SQL, &params);
        proof {
            lemma_ran_step(start, mid, db.trace(), front, add_request, kinded(added));
        }
        if let Err(e) = added {
            proof {
                lemma_ran_failed(start, db.trace(), script.take(2 + 2 * i), script.skip(2 + 2 * i));
            }
            return Err(e);
        }
        let ghost mid = db.trace();
        let params = vec![
            Param::Integer(id),
            Param::Text(t.name.clone()),
            Param::Text(t.source.clone()),
        ];
        assert(param_models(params@) =~= seq![
            ParamModel::Integer(id),
            ParamModel::Text(t.name@),
            ParamModel::Text(t.source@),
        ]);
        let linked = db.execute(LINK_TAG_SQL, &params);
        proof {
            lemma_ran_step(
                start,
                mid,
                db.trace(),
                front.push(add_request),
                link_request,
                kinded(linked),
            );
        }
        if let Err(e) = linked {
            proof {
                lemma_ran_failed(start, db.trace(), script.take(3 + 2 * i), script.skip(3 + 2 * i));
            }
            return Err(e);
        }
        i += 1;
    }
    assert(all.take(all.len() as int) =~= all);
    Ok(())
}

/// Enters a file into the index. The tags that a user put on it stay.
pub fn insert_image(db: &mut Db, folder_id: i64, f: &ParsedFile) -> (r: Result<(), DbError>)
    ensures
        entered(old(db).trace(), final(db).trace(), folder_id, f.model(), kinded(r)),
{
    let ghost n = old(db).trace().len() as int;
    let params = columns_of(folder_id, f);
    let set = db.execute(UPSERT_SQL, &params);
    let ghost t1 = db.trace();
    assert(t1.take(n) =~= old(db).trace());
    if let Err(e) = set {
        return Err(e);
    }
    let found = get_id_by_path(db, f.path.as_str());
    let ghost t2 = db.trace();
    proof {
        assert(t2.take(n) =~= old(db).trace());
        assert(t2[n] == t1[n]);
    }
    let id = match found {
        Ok(id) => id,
        Err(e) => {
            return Err(e);
        },
    };
    let none: Vec<Tag> = Vec::new();
    let r = match &f.meta {
        Some(m) => refresh_tags(db, id, &m.tags),
        None => {
            assert(tag_models(none@) =~= Seq::<TagModel>::empty());
            refresh_tags(db, id, &none)
        },
    };
    proof {
        let t3 = db.trace();
        assert(t3.take(n + 2) =~= t2);
        assert(t3.take(n) =~= t3.take(n + 2).take(n));
        assert(t3[n] == t3.take(n + 2)[n]);
        assert(t3[n + 1] == t3.take(n + 2)[n + 1]);
    }
    r
}

// ---------------------------------------------------------------------------
// Transactions
// ---------------------------------------------------------------------------

/// Starts a transaction that locks nothing yet.
pub const BEGIN_SQL: &'static str = "BEGIN DEFERRED";

/// Makes the changes of a transaction last.
pub const COMMIT_SQL: &'static str = "COMMIT";

/// Takes the changes of a transaction back.
pub const ROLLBACK_SQL: &'static str = "ROLLBACK";

/// Whether a transaction was ended: its changes last where all went well and they
/// could be made to, and else are taken back.
pub open spec fn finished(
    before: Seq<Event>,
    after: Seq<Event>,
    inner: Result<(), ErrKind>,
    r: Result<(), ErrKind>,
) -> bool {
    match inner {
        Err(k) => r == inner && asked(before, after, Request::Batch { sql: ROLLBACK_SQL@ }),
        Ok(_) => {
            let n = before.len() as int;
            &&& after.len() > n
            &&& after.take(n) == before
            &&& after[n].request == (Request::Batch { sql: COMMIT_SQL@ })
            &&& r == done(after[n].reply)
            &&& r is Ok ==> after.len() == n + 1
            &&& r is Err ==> after.len() == n + 2 && after[n + 1].request == (Request::Batch {
                sql: ROLLBACK_SQL@,
            })
        },
    }
}

/// Whether a transaction was made: it is started, `inner` is what its changes came
/// to up to `mid`, and it is ended.
pub open spec fn in_transaction(
    before: Seq<Event>,
    after: Seq<Event>,
    mid: Seq<Event>,
    inner: Result<(), ErrKind>,
    r: Result<(), ErrKind>,
) -> bool {
    let n = before.len() as int;
    &&& mid.len() > n
    &&& mid.take(n) == before
    &&& mid[n].request == (Request::Batch { sql: BEGIN_SQL@ })
    &&& done(mid[n].reply) is Ok
    &&& finished(mid, after, inner, r)
}

/// Whether a transaction could not be started.
pub open spec fn not_begun(before: Seq<Event>, after: Seq<Event>, r: Result<(), ErrKind>) -> bool {
    &&& asked(before, after, Request::Batch { sql: BEGIN_SQL@ })
    &&& done(after.last().reply) is Err
    &&& r == done(after.last().reply)
}

/// Ends a transaction.
fn finish(db: &mut Db, inner: Result<(), DbError>) -> (r: Result<(), DbError>)
    ensures
        finished(old(db).trace(), final(db).trace(), kinded(inner), kinded(r)),
{
    let ghost n = old(db).trace().len() as int;
    match inner {
        Err(e) => {
            let _ = db.batch(ROLLBACK_SQL);
            Err(e)
        },
        Ok(_) => {
            let committed = db.batch(COMMIT_SQL);
            let ghost t1 = db.trace();
            assert(t1.take(n) =~= old(db).trace());
            if committed.is_err() {
                let _ = db.batch(ROLLBACK_SQL);
                proof {
                    assert(db.trace().take(n) =~= old(db).trace());
                    assert(db.trace()[n] == t1[n]);
                }
            }
            committed
        },
    }
}

// ---------------------------------------------------------------------------
// All files of a scan
// ---------------------------------------------------------------------------

/// Notes that a folder was scanned.
pub const SCANNED_SQL: &'static str = "UPDATE folders SET last_scanned = strftime('%s','now') WHERE id = ?1";

/// Whether files were entered one after the other, until that failed.
pub open spec fn entered_all(
    before: Seq<Event>,
    after: Seq<Event>,
    folder_id: i64,
    files: Seq<ParsedModel>,
    r: Result<(), ErrKind>,
) -> bool
    decreases files.len(),
{
    if files.len() == 0 {
        after == before && r is Ok
    } else {
        ||| r is Err && entered_all(before, after, folder_id, files.drop_last(), r)
        ||| exists|mid: Seq<Event>|
            entered_all(before, mid, folder_id, files.drop_last(), Ok(())) && #[trigger] entered(
                mid,
                after,
                folder_id,
                files.last(),
                r,
            )
    }
}

/// Whether files were entered and the scan was noted.
pub open spec fn scan_written(
    before: Seq<Event>,
    after: Seq<Event>,
    folder_id: i64,
    files: Seq<ParsedModel>,
    r: Result<(), ErrKind>,
) -> bool {
    ||| r is Err && entered_all(before, after, folder_id, files, r)
    ||| exists|mid: Seq<Event>|
        entered_all(before, mid, folder_id, files, Ok(())) && #[trigger] asked(
            mid,
            after,
            command(SCANNED_SQL@, seq![ParamModel::Integer(folder_id)]),
        ) && r == done(after.last().reply)
}

/// Whether the files of a scan were entered, all of them or none.
pub open spec fn scan_stored(
    before: Seq<Event>,
    after: Seq<Event>,
    folder_id: i64,
    files: Seq<ParsedModel>,
    r: Result<(), ErrKind>,
) -> bool {
    ||| not_begun(before, after, r)
    ||| exists|mid: Seq<Event>, inner: Result<(), ErrKind>|
        scan_written(mid.take(before.len() as int + 1), mid, folder_id, files, inner)
            && #[trigger] in_transaction(before, after, mid, inner, r)
}

proof fn lemma_entered_failed(
    before: Seq<Event>,
    after: Seq<Event>,
    folder_id: i64,
    files: Seq<ParsedModel>,
    n: int,
    r: Result<(), ErrKind>,
)
    requires
        r is Err,
        0 <= n <= files.len(),
        entered_all(before, after, folder_id, files.take(n), r),
    ensures
        entered_all(before, after, folder_id, files, r),
    decreases files.len() - n,
{
    if n < files.len() {
        assert(files.take(n + 1).drop_last() =~= files.take(n));
        lemma_entered_failed(before, after, folder_id, files, n + 1, r);
    } else {
        assert(files.take(n) =~= files);
    }
}

/// Entering files only adds to the trace.
proof fn lemma_entered_extends(
    before: Seq<Event>,
    after: Seq<Event>,
    folder_id: i64,
    files: Seq<ParsedModel>,
    r: Result<(), ErrKind>,
)
    requires
        entered_all(before, after, folder_id, files, r),
    ensures
        after.len() >= before.len(),
        after.take(before.len() as int) == before,
    decreases files.len(),
{
    let n = before.len() as int;
    if files.len() == 0 {
        assert(after.take(n) =~= before);
    } else if r is Err && entered_all(before, after, folder_id, files.drop_last(), r) {
        lemma_entered_extends(before, after, folder_id, files.drop_last(), r);
    } else {
        let mid = choose|mid: Seq<Event>|
            entered_all(before, mid, folder_id, files.drop_last(), Ok(())) && #[trigger] entered(
                mid,
                after,
                folder_id,
                files.last(),
                r,
            );
        lemma_entered_extends(before, mid, folder_id, files.drop_last(), Ok(()));
        assert(after.take(n) =~= after.take(mid.len() as int).take(n));
    }
}

/// Enters files one after the other.
fn insert_images(db: &mut Db, folder_id: i64, files: &Vec<ParsedFile>) -> (r: Result<(), DbError>)
    ensures
        entered_all(
            old(db).trace(),
            final(db).trace(),
            folder_id,
            parsed_models(files@),
            kinded(r),
        ),
{
    let ghost all = parsed_models(files@);
    let mut i: usize = 0;
    assert(all.take(0) =~= Seq::<ParsedModel>::empty());
    while i < files.len()
        invariant
            i <= files@.len(),
            all == parsed_models(files@),
            entered_all(old(db).trace(), db.trace(), folder_id, all.take(i as int), Ok(())),
        decreases files@.len() - i,
    {
        let ghost mid = db.trace();
        let r = insert_image(db, folder_id, &files[i]);
        proof {
            assert(all.take(i + 1).drop_last() =~= all.take(i as int));
            assert(all.take(i + 1).last() == files@[i as int].model());
            assert(entered(mid, db.trace(), folder_id, all.take(i + 1).last(), kinded(r)));
        }
        if let Err(e) = r {
            proof {
                lemma_entered_failed(
                    old(db).trace(),
                    db.trace(),
                    folder_id,
                    all,
                    i + 1,
                    Err(e.kind()),
                );
            }
            return Err(e);
        }
        i += 1;
    }
    assert(all.take(all.len() as int) =~= all);
    Ok(())
}

/// Enters the files of a scan into the index, all of them or none, and notes the
/// time.
pub fn store_scan(db: &mut Db, folder_id: i64, files: &Vec<ParsedFile>) -> (r: Result<(), DbError>)
    ensures
        scan_stored(
            old(db).trace(),
            final(db).trace(),
            folder_id,
            parsed_models(files@),
            kinded(r),
        ),
{
    let ghost n = old(db).trace().len() as int;
    let ghost all = parsed_models(files@);
    let begun = db.batch(BEGIN_SQL);
    if let Err(e) = begun {
        return Err(e);
    }
    let ghost start = db.trace();
    let written = insert_images(db, folder_id, files);
    let ghost mid = db.trace();
    proof {
        lemma_entered_extends(start, mid, folder_id, all, kinded(written));
    }
    let inner = match written {
        Ok(_) => {
            let params = one(Param::Integer(folder_id));
            let noted = db.execute(SCANNED_SQL, &params);
            assert(asked(
                mid,
                db.trace(),
                command(SCANNED_SQL@, seq![ParamModel::Integer(folder_id)]),
            ));
            noted
        },
        Err(e) => Err(e),
    };
    let ghost last = db.trace();
    let ghost came = kinded(inner);
    proof {
        assert(last.take(n + 1) =~= start) by {
            assert(mid.take(n + 1) == start);
            assert(last.take(n + 1) =~= mid.take(n + 1));
        }
        assert(scan_written(last.take(n + 1), last, folder_id, all, came));
        assert(last.take(n) =~= start.take(n));
        assert(start.take(n) =~= old(db).trace());
        assert(last[n] == last.take(n + 1)[n]);
    }
    let r = finish(db, inner);
    assert(in_transaction(old(db).trace(), db.trace(), last, came, kinded(r)));
    r
}

/// What a scan writes lasts as a whole or not at all: where it succeeds, making the
/// changes last is the last request, and it was answered; where it fails after the
/// transaction was started, taking them back is.
pub proof fn law_scan_all_or_nothing(
    before: Seq<Event>,
    after: Seq<Event>,
    folder_id: i64,
    files: Seq<ParsedModel>,
    r: Result<(), ErrKind>,
)
    requires
        scan_stored(before, after, folder_id, files, r),
    ensures
        r is Ok ==> after.last().request == (Request::Batch { sql: COMMIT_SQL@ })
            && after.last().reply !is Failed,
        r is Err ==> not_begun(before, after, r) || after.last().request == (Request::Batch {
            sql: ROLLBACK_SQL@,
        }),
{
    if !not_begun(before, after, r) {
        let (mid, inner) = choose|mid: Seq<Event>, inner: Result<(), ErrKind>|
            scan_written(mid.take(before.len() as int + 1), mid, folder_id, files, inner)
                && #[trigger] in_transaction(before, after, mid, inner, r);
        assert(finished(mid, after, inner, r));
    }
}

/// The requests that note hashes.
pub open spec fn hash_script(hashes: Seq<(i64, i64)>) -> Seq<Request> {
    hashes.map_values(
        |h: (i64, i64)|
            command(SET_PHASH_SQL@, seq![ParamModel::Integer(h.0), ParamModel::Integer(h.1)]),
    )
}

/// Whether hashes were noted, all of them or none.
pub open spec fn hashes_stored(
    before: Seq<Event>,
    after: Seq<Event>,
    hashes: Seq<(i64, i64)>,
    r: Result<(), ErrKind>,
) -> bool {
    ||| not_begun(before, after, r)
    ||| exists|mid: Seq<Event>, inner: Result<(), ErrKind>|
        ran(mid.take(before.len() as int + 1), mid, hash_script(hashes), inner)
            && #[trigger] in_transaction(before, after, mid, inner, r)
}

/// Notes hashes one after the other.
fn set_hashes(db: &mut Db, hashes: &Vec<(i64, i64)>) -> (r: Result<(), DbError>)
    ensures
        ran(old(db).trace(), final(db).trace(), hash_script(hashes@), kinded(r)),
{
    let ghost start = db.trace();
    let ghost script = hash_script(hashes@);
    proof {
        lemma_ran_nothing(start);
        assert(script.take(0) =~= Seq::<Request>::empty());
    }
    let mut i: usize = 0;
    while i < hashes.len()
        invariant
            i <= hashes@.len(),
            start == old(db).trace(),
            script == hash_script(hashes@),
            ran(start, db.trace(), script.take(i as int), Ok(())),
        decreases hashes@.len() - i,
    {
        let ghost mid = db.trace();
        let r = set_phash(db, hashes[i].0, hashes[i].1);
        proof {
            lemma_ran_step(
                start,
                mid,
                db.trace(),
                script.take(i as int),
                script[i as int],
                kinded(r),
            );
            assert(script.take(i as int).push(script[i as int]) =~= script.take(i + 1));
            assert(script.take(i + 1) + script.skip(i + 1) =~= script);
        }
        if let Err(e) = r {
            proof {
                lemma_ran_failed(start, db.trace(), script.take(i + 1), script.skip(i + 1));
            }
            return Err(e);
        }
        i += 1;
    }
    assert(script.take(script.len() as int) =~= script);
    Ok(())
}

/// Notes the hashes of images, given by their numbers, all of them or none.
pub fn store_hashes(db: &mut Db, hashes: &Vec<(i64, i64)>) -> (r: Result<(), DbError>)
    ensures
        hashes_stored(old(db).trace(), final(db).trace(), hashes@, kinded(r)),
{
    let ghost n = old(db).trace().len() as int;
    let begun = db.batch(BEGIN_SQL);
    if let Err(e) = begun {
        return Err(e);
    }
    let ghost start = db.trace();
    let inner = set_hashes(db, hashes);
    let ghost last = db.trace();
    let ghost came = kinded(inner);
    proof {
        assert(last.take(n + 1) =~= start);
        assert(ran(last.take(n + 1), last, hash_script(hashes@), came));
        assert(last.take(n) =~= start.take(n));
        assert(start.take(n) =~= old(db).trace());
        assert(last[n] == last.take(n + 1)[n]);
    }
    let r = finish(db, inner);
    assert(in_transaction(old(db).trace(), db.trace(), last, came, kinded(r)));
    r
}

// ---------------------------------------------------------------------------
// What the index has
// ---------------------------------------------------------------------------

/// Selects what the index has on the files of a folder.
pub const KNOWN_SQL: &'static str = "SELECT path, file_size, file_mtime, width FROM images WHERE folder_id = ?1";

/// What the index has on the files of a folder.
pub fn known_files(db: &mut Db, folder_id: i64) -> (r: Result<Vec<KnownFile>, DbError>)
    ensures
        asked(
            old(db).trace(),
            final(db).trace(),
            select(KNOWN_SQL@, seq![ParamModel::Integer(folder_id)]),
        ),
        list_model(r) == readable::<KnownFile>(final(db).last_reply()),
{
    let params = one(Param::Integer(folder_id));
    db.query_readable::<KnownFile>(KNOWN_SQL, &params)
}

/// Selects the numbers and paths of the images of a folder.
pub const INDEXED_SQL: &'static str = "SELECT id, path FROM images WHERE folder_id = ?1";

/// The numbers and paths of the images of a folder.
pub fn indexed_files(db: &mut Db, folder_id: i64) -> (r: Result<Vec<(i64, String)>, DbError>)
    ensures
        asked(
            old(db).trace(),
            final(db).trace(),
            select(INDEXED_SQL@, seq![ParamModel::Integer(folder_id)]),
        ),
        list_model(r) == readable::<(i64, String)>(final(db).last_reply()),
{
    let params = one(Param::Integer(folder_id));
    db.query_readable::<(i64, String)>(INDEXED_SQL, &params)
}

/// Selects the images of a folder that have no hash.
pub const UNHASHED_IMAGES_SQL: &'static str = "SELECT id FROM images WHERE folder_id = ?1 AND phash IS NULL";

/// The images of a folder that have no hash.
pub fn unhashed_images(db: &mut Db, folder_id: i64) -> (r: Result<Vec<i64>, DbError>)
    ensures
        asked(
            old(db).trace(),
            final(db).trace(),
            select(UNHASHED_IMAGES_SQL@, seq![ParamModel::Integer(folder_id)]),
        ),
        list_model(r) == readable::<i64>(final(db).last_reply()),
{
    let params = one(Param::Integer(folder_id));
    db.query_readable::<i64>(UNHASHED_IMAGES_SQL, &params)
}

/// Takes the file at a path out of the index.
pub const FORGET_SQL: &'static str = "DELETE FROM images WHERE path = ?1";

/// Whether each of the paths was taken out of the index, or that was tried.
pub open spec fn forgotten(before: Seq<Event>, after: Seq<Event>, paths: Seq<Seq<char>>) -> bool {
    let n = before.len() as int;
    &&& after.len() == n + paths.len()
    &&& after.take(n) == before
    &&& forall|k: int|
        0 <= k < paths.len() ==> (#[trigger] after[n + k]).request == command(
            FORGET_SQL@,
            seq![ParamModel::Text(paths[k])],
        )
}

/// Takes files out of the index. One that cannot be is left to the next scan.
pub fn forget_files(db: &mut Db, paths: &Vec<String>)
    ensures
        forgotten(old(db).trace(), final(db).trace(), texts(paths@)),
{
    let ghost n = old(db).trace().len() as int;
    let ghost all = texts(paths@);
    let mut i: usize = 0;
    assert(db.trace().take(n) =~= old(db).trace());
    while i < paths.len()
        invariant
            i <= paths@.len(),
            all == texts(paths@),
            n == old(db).trace().len(),
            db.trace().len() == n + i,
            db.trace().take(n) == old(db).trace(),
            forall|k: int|
                0 <= k < i ==> (#[trigger] db.trace()[n + k]).request == command(
                    FORGET_SQL@,
                    seq![ParamModel::Text(all[k])],
                ),
        decreases paths@.len() - i,
    {
        let ghost mid = db.trace();
        let params = one(Param::Text(paths[i].clone()));
        let _ = db.execute(FORGET_SQL, &params);
        proof {
            let now = db.trace();
            assert(now.take(n) =~= mid.take(n));
            assert forall|k: int| 0 <= k <= i implies (#[trigger] now[n + k]).request == command(
                FORGET_SQL@,
                seq![ParamModel::Text(all[k])],
            ) by {
                if k < i {
                    assert(now[n + k] == mid[n + k]);
                }
            }
        }
        i += 1;
    }
}

/// The numbers in answers, each with the place of the answer; an answer without
/// one is passed over.
pub open spec fn numbers_in(answers: Seq<Event>) -> Seq<(i64, usize)>
    decreases answers.len(),
{
    if answers.len() == 0 {
        Seq::empty()
    } else {
        let before = numbers_in(answers.drop_last());
        match one_read::<i64>(answers.last().reply) {
            Ok(id) => before.push((id, (answers.len() - 1) as usize)),
            Err(_) => before,
        }
    }
}

/// Whether the numbers of files were asked for one by one.
pub open spec fn numbers_asked(
    before: Seq<Event>,
    after: Seq<Event>,
    files: Seq<ParsedModel>,
    r: Seq<(i64, usize)>,
) -> bool {
    let n = before.len() as int;
    &&& after.len() == n + files.len()
    &&& after.take(n) == before
    &&& forall|k: int|
        0 <= k < files.len() ==> (#[trigger] after[n + k]).request == select(
            ID_BY_PATH_SQL@,
            seq![ParamModel::Text(files[k].path)],
        )
    &&& r == numbers_in(after.skip(n))
}

/// The numbers that files have in the index, each with the place of the file.
pub fn numbers_of(db: &mut Db, files: &Vec<ParsedFile>) -> (r: Vec<(i64, usize)>)
    ensures
        numbers_asked(old(db).trace(), final(db).trace(), parsed_models(files@), r@),
{
    let ghost n = old(db).trace().len() as int;
    let ghost all = parsed_models(files@);
    let mut out: Vec<(i64, usize)> = Vec::new();
    let mut i: usize = 0;
    proof {
        assert(db.trace().take(n) =~= old(db).trace());
        assert(db.trace().skip(n) =~= Seq::<Event>::empty());
    }
    while i < files.len()
        invariant
            i <= files@.len(),
            all == parsed_models(files@),
            n == old(db).trace().len(),
            db.trace().len() == n + i,
            db.trace().take(n) == old(db).trace(),
            forall|k: int|
                0 <= k < i ==> (#[trigger] db.trace()[n + k]).request == select(
                    ID_BY_PATH_SQL@,
                    seq![ParamModel::Text(all[k].path)],
                ),
            out@ == numbers_in(db.trace().skip(n)),
        decreases files@.len() - i,
    {
        let ghost mid = db.trace();
        let found = get_id_by_path(db, files[i].path.as_str());
        proof {
            let now = db.trace();
            assert(now.take(n) =~= mid.take(n));
            assert forall|k: int| 0 <= k <= i implies (#[trigger] now[n + k]).request == select(
                ID_BY_PATH_SQL@,
                seq![ParamModel::Text(all[k].path)],
            ) by {
                if k < i {
                    assert(now[n + k] == mid[n + k]);
                }
            }
            assert(now.skip(n).drop_last() =~= mid.skip(n));
            assert(now.skip(n).last() == now.last());
        }
        if let Ok(id) = found {
            out.push((id, i));
        }
        i += 1;
    }
    out
}

} // verus!
