//! What holds of what a user says of images, albums and tags, and of how the index is
//! brought up to date: said of the values and of the requests one by one.

use crate::asking::ends_with;
use crate::db::{
    days_back, flag_value, folder_added, folder_removed, ids_alone, ids_then, looked_up, made_ready,
    migrated, migration_script, or_empty, paths_asked, paths_in, pending_script, rating_near,
    suggestions_asked, tagged, tagged_all, then_ids, user_tag_names, ImageDetail, ImageRow,
    ImageRowModel, TagDetail,
};
use crate::db::{
    ADD_TO_ALBUM_SQL, ALBUMS_SQL, COOC_POOL, CREATE_ALBUM_SQL, CREATE_SEARCH_SQL, DAYS_SQL,
    DELETE_ALBUM_SQL, DELETE_IMAGE_SQL, DELETE_SEARCH_SQL, FOLDERS_SQL, FREQUENCY_SQL,
    HIDDEN_TAGS_SQL, HIDE_TAG_SQL, IMAGE_SQL, IMAGE_TAGS_SQL, PAIRS_SQL, PATH_BY_ID_SQL,
    REMOVE_FROM_ALBUM_SQL, REMOVE_USER_TAG_SQL, SCHEMA, SEARCHES_SQL, SET_FAVORITE_SQL,
    SET_HIDDEN_SQL, SET_PHASH_SQL, SET_RATING_SQL,
};
use crate::keeping::{asks, law_scripts_stop_at_the_first_failure, runs};
use crate::paths::{ends_in_name, final_part};
use crate::sql::{
    all_read, bound, each, one_read, readable, row_models, ErrKind, Event, FromRow, ParamModel,
    Request,
};
use crate::tags::normalized;
use crate::text::opt_text;
use vstd::prelude::*;

verus! {

// ---------------------------------------------------------------------------
// Values
// ---------------------------------------------------------------------------

/// How far two numbers lie apart.
pub open spec fn apart(a: int, b: int) -> int {
    if a < b {
        b - a
    } else {
        a - b
    }
}

/// The rating that is kept is the closest of the six to the one that was given.
pub proof fn law_ratings_are_kept_as_close_as_can_be(n: i64, other: i64)
    requires
        0 <= other <= 5,
    ensures
        0 <= rating_near(n) <= 5,
        apart(n as int, rating_near(n) as int) <= apart(n as int, other as int),
        0 <= n <= 5 ==> rating_near(n) == n,
        rating_near(rating_near(n)) == rating_near(n),
{
}

/// Ratings keep their order.
pub proof fn law_better_ratings_stay_better(a: i64, b: i64)
    requires
        a <= b,
    ensures
        rating_near(a) <= rating_near(b),
{
}

/// A window of days that ends today has as many days as were asked for, where that is
/// one at least and 3650 at most, and else as close to it as can be.
pub proof fn law_windows_have_as_many_days_as_can_be(days: i64, other: int)
    requires
        1 <= other <= 3650,
    ensures
        1 <= days_back(days) + 1 <= 3650,
        apart(days as int, days_back(days) + 1) <= apart(days as int, other),
        1 <= days <= 3650 ==> days_back(days) + 1 == days,
{
}

/// A truth value is kept as a number that is read back as it.
pub proof fn law_flags_are_read_back(b: bool)
    ensures
        (flag_value(b) != 0) == b,
        flag_value(true) == 1,
        flag_value(false) == 0,
{
}

// ---------------------------------------------------------------------------
// Bringing an index up to date
// ---------------------------------------------------------------------------

/// The requests that give tags a mark for hiding them, and note the first version.
pub open spec fn first_step() -> Seq<Request> {
    seq![
        Request::Batch { sql: "ALTER TABLE tags ADD COLUMN hidden INTEGER NOT NULL DEFAULT 0;"@ },
        Request::Pragma { name: "user_version"@, value: ParamModel::Integer(1) },
    ]
}

/// The requests that give images a place for their hash, and note the second version.
pub open spec fn second_step() -> Seq<Request> {
    seq![
        Request::Batch { sql: "ALTER TABLE images ADD COLUMN phash INTEGER;"@ },
        Request::Pragma { name: "user_version"@, value: ParamModel::Integer(2) },
    ]
}

/// A new index takes both steps in their order, one of the first version the second
/// alone, and any other none: a step is never taken twice.
pub proof fn law_no_step_is_taken_twice(version: i64)
    ensures
        version == 0 ==> pending_script(version) == first_step() + second_step(),
        version == 1 ==> pending_script(version) == second_step(),
        version < 0 || version >= 2 ==> pending_script(version) == Seq::<Request>::empty(),
{
    reveal_with_fuel(migration_script, 3);
    if version == 0 {
        assert(pending_script(version) =~= first_step() + second_step());
    }
    if version == 1 {
        assert(pending_script(version) =~= second_step());
    }
}

/// An index that was brought up to date took the steps that its version lacks, and
/// nothing else was asked.
pub proof fn law_indexes_are_brought_up_to_date(before: Seq<Event>, after: Seq<Event>, version: i64)
    requires
        migrated(before, after, Ok(())),
        one_read::<i64>(after[before.len() as int].reply) == Ok::<i64, ErrKind>(version),
    ensures
        asks(after, before.len() as int, "PRAGMA user_version"@, Seq::empty()),
        version == 0 ==> after.len() == before.len() + 5,
        version == 1 ==> after.len() == before.len() + 3,
        version < 0 || version >= 2 ==> after.len() == before.len() + 1,
        version == 0 ==> forall|k: int|
            0 <= k < 4 ==> (#[trigger] after[before.len() + 1 + k]).request == (first_step()
                + second_step())[k],
        version == 1 ==> forall|k: int|
            0 <= k < 2 ==> (#[trigger] after[before.len() + 1 + k]).request == second_step()[k],
{
    let n = before.len() as int;
    let start = after.take(n + 1);
    law_no_step_is_taken_twice(version);
    law_scripts_stop_at_the_first_failure(start, after, pending_script(version), Ok(()));
    assert(after[n].request->Select_params =~= Seq::<ParamModel>::empty());
}

/// An index that is ready has foreign keys in force, so that what belongs to an image
/// leaves with it, and has its tables before any step is taken.
pub proof fn law_tables_come_before_steps(before: Seq<Event>, after: Seq<Event>)
    requires
        made_ready(before, after, Ok(())),
    ensures
        after.len() > before.len() + 3,
        after[before.len() as int].request == (Request::Pragma {
            name: "journal_mode"@,
            value: ParamModel::Text("WAL"@),
        }),
        after[before.len() as int + 1].request == (Request::Pragma {
            name: "foreign_keys"@,
            value: ParamModel::Text("ON"@),
        }),
        after[before.len() as int + 2].request == (Request::Batch { sql: SCHEMA@ }),
        asks(after, before.len() as int + 3, "PRAGMA user_version"@, Seq::empty()),
{
    let n = before.len() as int;
    let start = after.take(n + 3);
    law_scripts_stop_at_the_first_failure(before, start, crate::db::setup_script(), Ok(()));
    assert(after[n] == start[n] && after[n + 1] == start[n + 1] && after[n + 2] == start[n + 2]);
    assert(after[n + 3].request->Select_params =~= Seq::<ParamModel>::empty());
}

// ---------------------------------------------------------------------------
// Many images at once
// ---------------------------------------------------------------------------

/// What is done to many images is done to each, by its own request, in their order,
/// after the statement was compiled once.
pub proof fn law_each_image_has_its_request(
    sql: Seq<char>,
    ids: Seq<i64>,
    v: ParamModel,
    k: int,
)
    requires
        0 <= k < ids.len(),
    ensures
        each(sql, ids_then(ids, v)).len() == ids.len() + 1,
        each(sql, then_ids(v, ids)).len() == ids.len() + 1,
        each(sql, ids_alone(ids)).len() == ids.len() + 1,
        each(sql, ids_then(ids, v))[0] == (Request::Prepare { sql }),
        each(sql, then_ids(v, ids))[0] == (Request::Prepare { sql }),
        each(sql, ids_alone(ids))[0] == (Request::Prepare { sql }),
        each(sql, ids_then(ids, v))[k + 1] == (Request::Execute {
            sql,
            params: seq![ParamModel::Integer(ids[k]), bound(v)],
        }),
        each(sql, then_ids(v, ids))[k + 1] == (Request::Execute {
            sql,
            params: seq![bound(v), ParamModel::Integer(ids[k])],
        }),
        each(sql, ids_alone(ids))[k + 1] == (Request::Execute {
            sql,
            params: seq![ParamModel::Integer(ids[k])],
        }),
{
    let a = each(sql, ids_then(ids, v))[k + 1];
    let b = each(sql, then_ids(v, ids))[k + 1];
    let c = each(sql, ids_alone(ids))[k + 1];
    assert(a->Execute_params =~= seq![ParamModel::Integer(ids[k]), bound(v)]);
    assert(b->Execute_params =~= seq![bound(v), ParamModel::Integer(ids[k])]);
    assert(c->Execute_params =~= seq![ParamModel::Integer(ids[k])]);
}

/// What a user says of an image is set in the column of its name, in the row of the
/// image's number, which is the first value.
pub proof fn law_marks_are_set_in_their_columns()
    ensures
        SET_RATING_SQL@ == "UPDATE images SET "@ + "rating"@ + " = ?2 WHERE id = ?1"@,
        SET_FAVORITE_SQL@ == "UPDATE images SET "@ + "favorite"@ + " = ?2 WHERE id = ?1"@,
        SET_PHASH_SQL@ == "UPDATE images SET "@ + "phash"@ + " = ?2 WHERE id = ?1"@,
        SET_HIDDEN_SQL@ == "UPDATE images SET "@ + "hidden"@ + " = ?2 WHERE id = ?1"@,
        HIDE_TAG_SQL@ == "UPDATE tags SET hidden"@ + " = ?2 WHERE name = ?1"@,
{
    reveal_strlit("UPDATE images SET ");
    reveal_strlit(" = ?2 WHERE id = ?1");
    reveal_strlit("rating");
    reveal_strlit("favorite");
    reveal_strlit("phash");
    reveal_strlit("hidden");
    reveal_strlit("UPDATE images SET rating = ?2 WHERE id = ?1");
    reveal_strlit("UPDATE images SET favorite = ?2 WHERE id = ?1");
    reveal_strlit("UPDATE images SET phash = ?2 WHERE id = ?1");
    reveal_strlit("UPDATE images SET hidden = ?2 WHERE id = ?1");
    reveal_strlit("UPDATE tags SET hidden = ?2 WHERE name = ?1");
    reveal_strlit("UPDATE tags SET hidden");
    reveal_strlit(" = ?2 WHERE name = ?1");
    let end = " = ?2 WHERE id = ?1"@;
    assert(SET_RATING_SQL@ =~= "UPDATE images SET "@ + "rating"@ + end);
    assert(SET_FAVORITE_SQL@ =~= "UPDATE images SET "@ + "favorite"@ + end);
    assert(SET_PHASH_SQL@ =~= "UPDATE images SET "@ + "phash"@ + end);
    assert(SET_HIDDEN_SQL@ =~= "UPDATE images SET "@ + "hidden"@ + end);
    assert(HIDE_TAG_SQL@ =~= "UPDATE tags SET hidden"@ + " = ?2 WHERE name = ?1"@);
}

// ---------------------------------------------------------------------------
// Tags of a user
// ---------------------------------------------------------------------------

/// Whether a tag was put on images, by the requests from `p` on: it is added as a
/// general one, its number is asked for, and each image gets it as the user's.
pub open spec fn is_tagged_from(
    trace: Seq<Event>,
    p: int,
    ids: Seq<i64>,
    name: Seq<char>,
    tag: i64,
) -> bool {
    &&& runs(
        trace,
        p,
        "INSERT OR IGNORE INTO tags(name, category) VALUES (?1, 'general')"@,
        seq![ParamModel::Text(name)],
    )
    &&& asks(trace, p + 1, "SELECT id FROM tags WHERE name = ?1"@, seq![ParamModel::Text(name)])
    &&& one_read::<i64>(trace[p + 1].reply) == Ok::<i64, ErrKind>(tag)
    &&& forall|k: int|
        0 <= k < ids.len() ==> runs(
            trace,
            p + 3 + k,
            "INSERT OR IGNORE INTO image_tags(image_id, tag_id, source) VALUES (?1, ?2, 'user')"@,
            seq![ParamModel::Integer(#[trigger] ids[k]), ParamModel::Integer(tag)],
        )
}

proof fn lemma_tagged(before: Seq<Event>, after: Seq<Event>, ids: Seq<i64>, name: Seq<char>) -> (tag:
    i64)
    requires
        tagged(before, after, ids, name, Ok(())),
    ensures
        is_tagged_from(after, before.len() as int, ids, name, tag),
        after.len() == before.len() + 3 + ids.len(),
        after.take(before.len() as int) == before,
{
    let n = before.len() as int;
    let tag = one_read::<i64>(after[n + 1].reply)->Ok_0;
    let sql = "INSERT OR IGNORE INTO image_tags(image_id, tag_id, source) VALUES (?1, ?2, 'user')"@;
    let script = each(sql, ids_then(ids, ParamModel::Integer(tag)));
    law_scripts_stop_at_the_first_failure(after.take(n + 2), after, script, Ok(()));
    assert(after[n].request->Execute_params =~= seq![ParamModel::Text(name)]);
    assert(after[n + 1].request->Select_params =~= seq![ParamModel::Text(name)]);
    assert forall|k: int| 0 <= k < ids.len() implies runs(
        after,
        n + 3 + k,
        sql,
        seq![ParamModel::Integer(#[trigger] ids[k]), ParamModel::Integer(tag)],
    ) by {
        law_each_image_has_its_request(sql, ids, ParamModel::Integer(tag), k);
        assert(after[n + 3 + k].request == script[k + 1]);
    }
    tag
}

/// Every name in what a user wrote is put on every one of the images.
pub proof fn law_every_name_is_put_on_every_image(
    before: Seq<Event>,
    after: Seq<Event>,
    ids: Seq<i64>,
    names: Seq<Seq<char>>,
    i: int,
)
    requires
        tagged_all(before, after, ids, names, Ok(())),
        0 <= i < names.len(),
    ensures
        exists|p: int, tag: i64|
            before.len() <= p && #[trigger] is_tagged_from(after, p, ids, names[i], tag),
        after.len() == before.len() + names.len() * (3 + ids.len()),
        after.take(before.len() as int) == before,
    decreases names.len(),
{
    let rest = names.drop_last();
    let last = names.len() - 1;
    let mid = choose|mid: Seq<Event>|
        tagged_all(before, mid, ids, rest, Ok(())) && #[trigger] tagged(
            mid,
            after,
            ids,
            names.last(),
            Ok(()),
        );
    let tag = lemma_tagged(mid, after, ids, names.last());
    let m = mid.len() as int;
    assert(mid.len() == before.len() + rest.len() * (3 + ids.len()) && mid.take(before.len() as int)
        == before) by {
        if rest.len() > 0 {
            law_every_name_is_put_on_every_image(before, mid, ids, rest, 0);
        } else {
            assert(mid == before);
            assert(mid.take(before.len() as int) =~= before);
            assert(0 * (3 + ids.len()) == 0);
        }
    }
    assert(after.take(before.len() as int) =~= mid.take(before.len() as int)) by {
        assert(after.take(m) == mid);
        assert(after.take(m).take(before.len() as int) =~= after.take(before.len() as int));
    }
    assert(names.len() * (3 + ids.len()) == rest.len() * (3 + ids.len()) + (3 + ids.len()))
        by (nonlinear_arith)
        requires
            names.len() == rest.len() + 1,
    ;
    if i == last {
        assert(is_tagged_from(after, m, ids, names[i], tag));
        assert(before.len() <= m) by (nonlinear_arith)
            requires
                m == before.len() + rest.len() * (3 + ids.len()),
        ;
    } else {
        law_every_name_is_put_on_every_image(before, mid, ids, rest, i);
        assert(rest[i] == names[i]);
        let (p, t) = choose|p: int, t: i64|
            before.len() <= p && #[trigger] is_tagged_from(mid, p, ids, rest[i], t);
        assert forall|q: int| 0 <= q < m implies #[trigger] after[q] == mid[q] by {
            assert(after.take(m)[q] == after[q]);
        }
        assert(runs(
            mid,
            p,
            "INSERT OR IGNORE INTO tags(name, category) VALUES (?1, 'general')"@,
            seq![ParamModel::Text(names[i])],
        ));
        assert forall|k: int| 0 <= k < ids.len() implies runs(
            after,
            p + 3 + k,
            "INSERT OR IGNORE INTO image_tags(image_id, tag_id, source) VALUES (?1, ?2, 'user')"@,
            seq![ParamModel::Integer(#[trigger] ids[k]), ParamModel::Integer(t)],
        ) by {
            assert(runs(
                mid,
                p + 3 + k,
                "INSERT OR IGNORE INTO image_tags(image_id, tag_id, source) VALUES (?1, ?2, 'user')"@,
                seq![ParamModel::Integer(ids[k]), ParamModel::Integer(t)],
            ));
        }
        assert(is_tagged_from(after, p, ids, names[i], t));
    }
}

/// The names in what a user wrote are those that the same text has as a prompt.
pub proof fn law_user_tags_merge_with_prompts(text: Seq<char>, source: Seq<char>)
    ensures
        user_tag_names(text).len() == normalized(text, source).len(),
        forall|k: int|
            0 <= k < user_tag_names(text).len() ==> #[trigger] user_tag_names(text)[k] == normalized(
                text,
                source,
            )[k].name,
{
    crate::tags::law_names_do_not_depend_on_source(text, "user"@, source);
    assert forall|k: int| 0 <= k < user_tag_names(text).len() implies #[trigger] user_tag_names(
        text,
    )[k] == normalized(text, source)[k].name by {
        assert(crate::tags::names_of(normalized(text, source))[k] == normalized(text, source)[k].name);
    }
    assert(crate::tags::names_of(normalized(text, source)).len() == normalized(text, source).len());
}

// ---------------------------------------------------------------------------
// Images and folders
// ---------------------------------------------------------------------------

/// What is told of an image is what its row and the rows of its tags hold, field by
/// field, and the final part of its path.
pub proof fn law_details_are_those_of_the_row(
    before: Seq<Event>,
    after: Seq<Event>,
    id: i64,
    d: ImageDetail,
    v: ImageRow,
)
    requires
        looked_up(before, after, id, Ok(d.model())),
        one_read::<ImageRow>(after[before.len() as int].reply) == Ok::<ImageRowModel, ErrKind>(
            v.row_model(),
        ),
    ensures
        asks(after, before.len() as int, IMAGE_SQL@, seq![ParamModel::Integer(id)]),
        asks(after, before.len() as int + 1, IMAGE_TAGS_SQL@, seq![ParamModel::Integer(id)]),
        d.id == v.id,
        d.path@ == v.path@,
        d.width == v.width,
        d.height == v.height,
        d.file_mtime == v.file_mtime,
        d.is_novelai == v.is_novelai,
        opt_text(d.model) == opt_text(v.model),
        d.seed == v.seed,
        opt_text(d.sampler) == opt_text(v.sampler),
        d.steps == v.steps,
        opt_text(d.scale) == opt_text(v.scale),
        opt_text(d.raw_prompt) == opt_text(v.raw_prompt),
        opt_text(d.raw_negative) == opt_text(v.raw_negative),
        d.rating == v.rating,
        d.favorite == v.favorite,
        ends_in_name(v.path@) ==> d.file_name@ == final_part(v.path@),
        all_read::<TagDetail>(after[before.len() as int + 1].reply) == Ok::<
            Seq<(Seq<char>, Seq<char>, Seq<char>, bool)>,
            ErrKind,
        >(row_models(d.tags@)),
{
    let n = before.len() as int;
    assert(after[n].request->Select_params =~= seq![ParamModel::Integer(id)]);
    assert(after[n + 1].request->Select_params =~= seq![ParamModel::Integer(id)]);
}

/// A path that has no final part has the empty text for a name, and any other its own.
pub proof fn law_missing_names_are_empty(name: Seq<char>)
    ensures
        or_empty(None) == Seq::<char>::empty(),
        or_empty(Some(name)) == name,
{
}

/// The paths of images are told in the order in which the images were asked for, each
/// with the number that was read with it; an image that is not found is passed over.
pub proof fn law_paths_come_in_the_order_asked(
    before: Seq<Event>,
    after: Seq<Event>,
    ids: Seq<i64>,
    paths: Seq<(i64, Seq<char>)>,
    k: int,
)
    requires
        paths_asked(before, after, ids, Ok(paths)),
        0 <= k < ids.len(),
    ensures
        asks(
            after,
            before.len() + 1 + k,
            "SELECT id, path FROM images WHERE id = ?1"@,
            seq![ParamModel::Integer(ids[k])],
        ),
        paths.len() == found_in(after.skip(before.len() as int + 1)),
        one_read::<(i64, String)>(after[before.len() + 1 + k].reply) matches Ok(row) ==> {
            let at = found_in(after.skip(before.len() as int + 1).take(k)) as int;
            at < paths.len() && paths[at] == row
        },
{
    let n = before.len() as int;
    let answers = after.skip(n + 1);
    assert(after[n + 1 + k].request->Select_params =~= seq![ParamModel::Integer(ids[k])]);
    lemma_paths(answers, k);
    assert(answers[k] == after[n + 1 + k]);
}

/// How many answers have a number and a path.
pub open spec fn found_in(answers: Seq<Event>) -> nat
    decreases answers.len(),
{
    if answers.len() == 0 {
        0
    } else {
        found_in(answers.drop_last()) + if one_read::<(i64, String)>(answers.last().reply) is Ok {
            1nat
        } else {
            0nat
        }
    }
}

proof fn lemma_path_count(answers: Seq<Event>)
    ensures
        paths_in(answers).len() == found_in(answers),
    decreases answers.len(),
{
    if answers.len() > 0 {
        lemma_path_count(answers.drop_last());
    }
}

proof fn lemma_paths(answers: Seq<Event>, k: int)
    requires
        0 <= k < answers.len(),
    ensures
        paths_in(answers).len() == found_in(answers),
        one_read::<(i64, String)>(answers[k].reply) matches Ok(row) ==> found_in(answers.take(k))
            < paths_in(answers).len() && paths_in(answers)[found_in(answers.take(k)) as int] == row,
    decreases answers.len(),
{
    let rest = answers.drop_last();
    lemma_path_count(answers);
    lemma_path_count(rest);
    assert(answers.last() == answers[answers.len() - 1]);
    if k < rest.len() {
        lemma_paths(rest, k);
        assert(rest.take(k) =~= answers.take(k));
        assert(rest[k] == answers[k]);
    } else {
        assert(answers.take(k) =~= rest);
    }
}

/// A folder that is added is asked for by the same path, and keeps its number where it
/// is there already.
pub proof fn law_folders_are_added_by_path(
    before: Seq<Event>,
    after: Seq<Event>,
    path: Seq<char>,
    id: i64,
)
    requires
        folder_added(before, after, path, Ok(id)),
    ensures
        after.len() == before.len() + 2,
        runs(
            after,
            before.len() as int,
            "INSERT INTO folders(path) VALUES (?1) ON CONFLICT(path) DO NOTHING"@,
            seq![ParamModel::Text(path)],
        ),
        asks(
            after,
            before.len() as int + 1,
            "SELECT id FROM folders WHERE path = ?1"@,
            seq![ParamModel::Text(path)],
        ),
        one_read::<i64>(after.last().reply) == Ok::<i64, ErrKind>(id),
{
    let n = before.len() as int;
    assert(after[n].request->Execute_params =~= seq![ParamModel::Text(path)]);
    assert(after[n + 1].request->Select_params =~= seq![ParamModel::Text(path)]);
}

/// A folder that is removed leaves with its images, whose numbers are told.
pub proof fn law_folders_leave_with_their_images(
    before: Seq<Event>,
    after: Seq<Event>,
    id: i64,
    images: Seq<i64>,
)
    requires
        folder_removed(before, after, id, Ok(images)),
    ensures
        after.len() == before.len() + 3,
        asks(
            after,
            before.len() as int,
            "SELECT id FROM images WHERE folder_id = ?1"@,
            seq![ParamModel::Integer(id)],
        ),
        readable::<i64>(after[before.len() as int].reply) == Ok::<Seq<i64>, ErrKind>(images),
        runs(
            after,
            before.len() as int + 1,
            "DELETE FROM images WHERE folder_id = ?1"@,
            seq![ParamModel::Integer(id)],
        ),
        runs(
            after,
            before.len() as int + 2,
            "DELETE FROM folders WHERE id = ?1"@,
            seq![ParamModel::Integer(id)],
        ),
{
    let n = before.len() as int;
    let number = seq![ParamModel::Integer(id)];
    let script = seq![
        crate::sql::command("DELETE FROM images WHERE folder_id = ?1"@, number),
        crate::sql::command("DELETE FROM folders WHERE id = ?1"@, number),
    ];
    law_scripts_stop_at_the_first_failure(after.take(n + 1), after, script, Ok(()));
    assert(after[n].request->Select_params =~= number);
    assert(after[n + 1].request == script[0]);
    assert(after[n + 2].request == script[1]);
    assert(script[0]->Execute_params =~= number);
    assert(script[1]->Execute_params =~= number);
}

// ---------------------------------------------------------------------------
// Lists
// ---------------------------------------------------------------------------

/// Tags are suggested wherever the text stands in their names, unless they are hidden,
/// the most used first, and no more of them than wanted.
pub proof fn law_suggestions_hold_the_text(
    before: Seq<Event>,
    after: Seq<Event>,
    part: Seq<char>,
    limit: i64,
)
    requires
        suggestions_asked(before, after, part, limit),
    ensures
        asks(
            after,
            before.len() as int,
            "SELECT t.name, t.category, COUNT(it.image_id) AS n
         FROM tags t JOIN image_tags it ON it.tag_id = t.id
         WHERE t.name LIKE ?1 AND t.hidden = 0
         GROUP BY t.id ORDER BY n DESC, t.name LIMIT ?2"@,
            seq![ParamModel::Text(seq!['%'] + part + seq!['%']), ParamModel::Integer(limit)],
        ),
{
    reveal_strlit("%");
    assert("%"@ =~= seq!['%']);
    assert(after.last() == after[before.len() as int]);
    assert(after.last().request->Select_params =~= seq![
        ParamModel::Text(seq!['%'] + part + seq!['%']),
        ParamModel::Integer(limit),
    ]);
}

/// The order of lists is in the ends of the statements: folders by path, albums by
/// position and name, searches and hidden tags by name, tags and pairs by how often
/// they occur, and days by date.
pub proof fn law_lists_are_ordered()
    ensures
        ends_with(FOLDERS_SQL@, " ORDER BY f.path"@),
        ends_with(ALBUMS_SQL@, " ORDER BY a.position, a.name"@),
        ends_with(SEARCHES_SQL@, " ORDER BY name"@),
        ends_with(HIDDEN_TAGS_SQL@, " WHERE t.hidden = 1 GROUP BY t.id ORDER BY t.name"@),
        ends_with(FREQUENCY_SQL@, " ORDER BY n DESC, t.name LIMIT ?1"@),
        ends_with(PAIRS_SQL@, " ORDER BY n DESC, ta.name, tb.name LIMIT ?1"@),
        ends_with(DAYS_SQL@, " ORDER BY d"@),
        COOC_POOL == 120,
{
    assert(ends_with(FOLDERS_SQL@, " ORDER BY f.path"@)) by {
        reveal_strlit("SELECT f.id, f.path, COUNT(i.id) FROM folders f
         LEFT JOIN images i ON i.folder_id = f.id GROUP BY f.id ORDER BY f.path");
        reveal_strlit(" ORDER BY f.path");
        assert(FOLDERS_SQL@.skip(111) =~= " ORDER BY f.path"@);
    }
    assert(ends_with(ALBUMS_SQL@, " ORDER BY a.position, a.name"@)) by {
        reveal_strlit("SELECT a.id, a.name, COUNT(ai.image_id) FROM albums a
         LEFT JOIN album_images ai ON ai.album_id = a.id
         GROUP BY a.id ORDER BY a.position, a.name");
        reveal_strlit(" ORDER BY a.position, a.name");
        assert(ALBUMS_SQL@.skip(133) =~= " ORDER BY a.position, a.name"@);
    }
    assert(ends_with(SEARCHES_SQL@, " ORDER BY name"@)) by {
        reveal_strlit("SELECT id, name, query_json FROM saved_searches ORDER BY name");
        reveal_strlit(" ORDER BY name");
        assert(SEARCHES_SQL@.skip(47) =~= " ORDER BY name"@);
    }
    assert(ends_with(HIDDEN_TAGS_SQL@, " WHERE t.hidden = 1 GROUP BY t.id ORDER BY t.name"@)) by {
        reveal_strlit("SELECT t.name, t.category, COUNT(it.image_id) FROM tags t
         LEFT JOIN image_tags it ON it.tag_id = t.id
         WHERE t.hidden = 1 GROUP BY t.id ORDER BY t.name");
        reveal_strlit(" WHERE t.hidden = 1 GROUP BY t.id ORDER BY t.name");
        assert(HIDDEN_TAGS_SQL@.skip(119) =~= " WHERE t.hidden = 1 GROUP BY t.id ORDER BY t.name"@);
    }
    assert(ends_with(FREQUENCY_SQL@, " ORDER BY n DESC, t.name LIMIT ?1"@)) by {
        reveal_strlit("SELECT t.name, t.category, COUNT(*) AS n
         FROM image_tags it
         JOIN tags t ON t.id = it.tag_id
         JOIN images i ON i.id = it.image_id
         WHERE i.hidden = 0 AND t.hidden = 0 AND it.source <> 'negative'
         GROUP BY t.id ORDER BY n DESC, t.name LIMIT ?1");
        reveal_strlit(" ORDER BY n DESC, t.name LIMIT ?1");
        assert(FREQUENCY_SQL@.skip(250) =~= " ORDER BY n DESC, t.name LIMIT ?1"@);
    }
    assert(ends_with(PAIRS_SQL@, " ORDER BY n DESC, ta.name, tb.name LIMIT ?1"@)) by {
        reveal_strlit("WITH visible AS (
           SELECT it.image_id, it.tag_id FROM image_tags it
           JOIN tags t ON t.id = it.tag_id
           JOIN images i ON i.id = it.image_id
           WHERE i.hidden = 0 AND t.hidden = 0 AND it.source <> 'negative'
         ),
         pool AS (
           SELECT image_id, tag_id FROM visible
           WHERE tag_id IN (
             SELECT tag_id FROM visible GROUP BY tag_id ORDER BY COUNT(*) DESC LIMIT ?2
           )
         )
         SELECT ta.name, tb.name, COUNT(*) AS n
         FROM pool a
         JOIN pool b ON b.image_id = a.image_id AND a.tag_id < b.tag_id
         JOIN tags ta ON ta.id = a.tag_id
         JOIN tags tb ON tb.id = b.tag_id
         GROUP BY a.tag_id, b.tag_id
         ORDER BY n DESC, ta.name, tb.name LIMIT ?1");
        reveal_strlit(" ORDER BY n DESC, ta.name, tb.name LIMIT ?1");
        assert(PAIRS_SQL@.skip(733) =~= " ORDER BY n DESC, ta.name, tb.name LIMIT ?1"@);
    }
    assert(ends_with(DAYS_SQL@, " ORDER BY d"@)) by {
        reveal_strlit("SELECT date(file_mtime, 'unixepoch', 'localtime') AS d, COUNT(*)
         FROM images
         WHERE hidden = 0 AND date(file_mtime, 'unixepoch', 'localtime') >= date('now', 'localtime', ?1)
         GROUP BY d ORDER BY d");
        reveal_strlit(" ORDER BY d");
        assert(DAYS_SQL@.skip(210) =~= " ORDER BY d"@);
    }
}

/// Albums and saved searches are kept and removed by the values in the order of the
/// placeholders.
pub proof fn law_albums_and_searches_are_kept()
    ensures
        CREATE_ALBUM_SQL@ == "INSERT INTO albums(name) VALUES (?1)"@,
        DELETE_ALBUM_SQL@ == "DELETE FROM albums WHERE id = ?1"@,
        ADD_TO_ALBUM_SQL@ == "INSERT OR IGNORE INTO album_images(album_id, image_id, position)
         VALUES (?1, ?2, (SELECT COALESCE(MAX(position),0)+1 FROM album_images WHERE album_id = ?1))"@,
        REMOVE_FROM_ALBUM_SQL@ == "DELETE FROM album_images WHERE album_id = ?1 AND image_id = ?2"@,
        CREATE_SEARCH_SQL@ == "INSERT INTO saved_searches(name, query_json) VALUES (?1, ?2)"@,
        DELETE_SEARCH_SQL@ == "DELETE FROM saved_searches WHERE id = ?1"@,
        DELETE_IMAGE_SQL@ == "DELETE FROM images WHERE id = ?1"@,
        PATH_BY_ID_SQL@ == "SELECT path FROM images WHERE id = ?1"@,
        REMOVE_USER_TAG_SQL@ == "DELETE FROM image_tags WHERE image_id = ?1 AND source = 'user'
         AND tag_id = (SELECT id FROM tags WHERE name = ?2)"@,
{
}

} // verus!
