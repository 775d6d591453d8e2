//! What holds of what is written into the index, said of the requests one by one.

use crate::sql::{command, done, one_read, ran, ErrKind, Event, ParamModel, Request};
use crate::store::{
    entered, entered_all, finished, forgotten, hash_script, hashes_stored, in_transaction,
    lemma_tag_script_front, not_begun, numbers_asked, numbers_in, scan_stored, scan_written,
    tag_script, ParsedModel,
};
use crate::tags::TagModel;
use vstd::prelude::*;

verus! {

// ---------------------------------------------------------------------------
// Requests one after the other
// ---------------------------------------------------------------------------

/// Whether the request at `p` runs the statement with the values.
pub open spec fn runs(trace: Seq<Event>, p: int, sql: Seq<char>, params: Seq<ParamModel>) -> bool {
    &&& 0 <= p < trace.len()
    &&& trace[p].request is Execute
    &&& trace[p].request->Execute_sql == sql
    &&& trace[p].request->Execute_params == params
}

/// Whether the request at `p` selects rows with the statement and the values.
pub open spec fn asks(trace: Seq<Event>, p: int, sql: Seq<char>, params: Seq<ParamModel>) -> bool {
    &&& 0 <= p < trace.len()
    &&& trace[p].request is Select
    &&& trace[p].request->Select_sql == sql
    &&& trace[p].request->Select_params == params
}

/// Requests that are made one after the other stop at the first that fails, and it is
/// told: where all went well each was made, and none failed.
pub proof fn law_scripts_stop_at_the_first_failure(
    before: Seq<Event>,
    after: Seq<Event>,
    script: Seq<Request>,
    r: Result<(), ErrKind>,
)
    requires
        ran(before, after, script, r),
    ensures
        forall|k: int| 0 <= k < before.len() ==> #[trigger] after[k] == before[k],
        before.len() <= after.len() <= before.len() + script.len(),
        forall|p: int|
            before.len() <= p < after.len() ==> (#[trigger] after[p]).request == script[p
                - before.len()],
        forall|p: int|
            before.len() <= p < after.len() - 1 ==> (#[trigger] after[p]).reply !is Failed,
        r is Ok ==> after.len() == before.len() + script.len() && (script.len() > 0
            ==> after.last().reply !is Failed),
        r is Err ==> after.len() > before.len() && after.last().reply is Failed,
{
    assert forall|k: int| 0 <= k < before.len() implies #[trigger] after[k] == before[k] by {
        assert(after.take(before.len() as int)[k] == after[k]);
    }
    assert forall|p: int| before.len() <= p < after.len() implies (#[trigger] after[p]).request
        == script[p - before.len()] by {
        assert(after[before.len() + (p - before.len())].request == script[p - before.len()]);
    }
    assert forall|p: int| before.len() <= p < after.len() - 1 implies (#[trigger] after[p]).reply
        !is Failed by {
        assert(after[before.len() + (p - before.len())].reply !is Failed);
    }
}

// ---------------------------------------------------------------------------
// Tags
// ---------------------------------------------------------------------------

/// The two requests of a tag in the script that puts tags on an image.
proof fn lemma_tag_requests(id: i64, tags: Seq<TagModel>, k: int)
    requires
        0 <= k < tags.len(),
    ensures
        tag_script(id, tags).len() == 1 + 2 * tags.len(),
        tag_script(id, tags)[1 + 2 * k] == (Request::Execute {
            sql: "INSERT OR IGNORE INTO tags(name, category) VALUES (?1, ?2)"@,
            params: seq![ParamModel::Text(tags[k].name), ParamModel::Text(tags[k].category)],
        }),
        tag_script(id, tags)[2 + 2 * k] == (Request::Execute {
            sql: "INSERT OR IGNORE INTO image_tags(image_id, tag_id, source)
                 SELECT ?1, id, ?3 FROM tags WHERE name = ?2"@,
            params: seq![
                ParamModel::Integer(id),
                ParamModel::Text(tags[k].name),
                ParamModel::Text(tags[k].source),
            ],
        }),
{
    let all = tag_script(id, tags);
    lemma_tag_script_front(id, tags, k + 1);
    lemma_tag_script_front(id, tags, k);
    let front = tags.take(k + 1);
    assert(front.drop_last() =~= tags.take(k));
    assert(front.last() == tags[k]);
    let part = tag_script(id, front);
    assert(all.take(1 + 2 * (k + 1))[1 + 2 * k] == all[1 + 2 * k]);
    assert(all.take(1 + 2 * (k + 1))[2 + 2 * k] == all[2 + 2 * k]);
    assert(all[1 + 2 * k]->Execute_params =~= seq![
        ParamModel::Text(tags[k].name),
        ParamModel::Text(tags[k].category),
    ]);
    assert(all[2 + 2 * k]->Execute_params =~= seq![
        ParamModel::Integer(id),
        ParamModel::Text(tags[k].name),
        ParamModel::Text(tags[k].source),
    ]);
}

proof fn lemma_first_tag_request(id: i64, tags: Seq<TagModel>)
    ensures
        tag_script(id, tags).len() == 1 + 2 * tags.len(),
        tag_script(id, tags)[0] == (Request::Execute {
            sql: "DELETE FROM image_tags WHERE image_id = ?1 AND source != 'user'"@,
            params: seq![ParamModel::Integer(id)],
        }),
{
    lemma_tag_script_front(id, tags, 0);
    let all = tag_script(id, tags);
    assert(tags.take(0) =~= Seq::<TagModel>::empty());
    assert(all.take(1)[0] == all[0]);
    assert(all[0]->Execute_params =~= seq![ParamModel::Integer(id)]);
}

/// Entering a file asks for the number of the image at its path, takes off the tags that
/// the image had from its metadata, and then, tag by tag, adds the tag with its name
/// and category and puts it on the image with its source.
pub proof fn law_tags_are_put_on_the_image(
    before: Seq<Event>,
    after: Seq<Event>,
    folder_id: i64,
    f: ParsedModel,
) -> (id: i64)
    requires
        entered(before, after, folder_id, f, Ok(())),
    ensures
        ({
            let n = before.len() as int;
            let tags = if f.meta is Some {
                f.meta->0.tags
            } else {
                Seq::empty()
            };
            &&& asks(
                after,
                n + 1,
                "SELECT id FROM images WHERE path = ?1"@,
                seq![ParamModel::Text(f.path)],
            )
            &&& one_read::<i64>(after[n + 1].reply) == Ok::<i64, ErrKind>(id)
            &&& after.len() == n + 3 + 2 * tags.len()
            &&& runs(
                after,
                n + 2,
                "DELETE FROM image_tags WHERE image_id = ?1 AND source != 'user'"@,
                seq![ParamModel::Integer(id)],
            )
            &&& forall|k: int| #![trigger tags[k]]
                0 <= k < tags.len() ==> runs(
                    after,
                    n + 3 + 2 * k,
                    "INSERT OR IGNORE INTO tags(name, category) VALUES (?1, ?2)"@,
                    seq![ParamModel::Text(tags[k].name), ParamModel::Text(tags[k].category)],
                ) && runs(
                    after,
                    n + 4 + 2 * k,
                    "INSERT OR IGNORE INTO image_tags(image_id, tag_id, source)
                 SELECT ?1, id, ?3 FROM tags WHERE name = ?2"@,
                    seq![
                        ParamModel::Integer(id),
                        ParamModel::Text(tags[k].name),
                        ParamModel::Text(tags[k].source),
                    ],
                )
        }),
{
    let n = before.len() as int;
    let tags = if f.meta is Some {
        f.meta->0.tags
    } else {
        Seq::empty()
    };
    let id = one_read::<i64>(after[n + 1].reply)->Ok_0;
    let start = after.take(n + 2);
    let script = tag_script(id, tags);
    assert(after[n + 1].request->Select_params =~= seq![ParamModel::Text(f.path)]);
    law_scripts_stop_at_the_first_failure(start, after, script, Ok(()));
    lemma_first_tag_request(id, tags);
    assert(after[n + 2].request == script[0]);
    assert forall|k: int| #![trigger tags[k]] 0 <= k < tags.len() implies runs(
        after,
        n + 3 + 2 * k,
        "INSERT OR IGNORE INTO tags(name, category) VALUES (?1, ?2)"@,
        seq![ParamModel::Text(tags[k].name), ParamModel::Text(tags[k].category)],
    ) && runs(
        after,
        n + 4 + 2 * k,
        "INSERT OR IGNORE INTO image_tags(image_id, tag_id, source)
                 SELECT ?1, id, ?3 FROM tags WHERE name = ?2"@,
        seq![
            ParamModel::Integer(id),
            ParamModel::Text(tags[k].name),
            ParamModel::Text(tags[k].source),
        ],
    ) by {
        lemma_tag_requests(id, tags, k);
        assert(after[n + 3 + 2 * k].request == script[1 + 2 * k]);
        assert(after[n + 4 + 2 * k].request == script[2 + 2 * k]);
    }
    id
}

// ---------------------------------------------------------------------------
// Scans
// ---------------------------------------------------------------------------

/// Whether a file was entered with the requests from `from` up to `to`.
pub open spec fn is_entered_within(
    trace: Seq<Event>,
    folder_id: i64,
    f: ParsedModel,
    from: int,
    to: int,
) -> bool {
    &&& 0 <= from < to <= trace.len()
    &&& entered(trace.take(from), trace.take(to), folder_id, f, Ok(()))
}

proof fn lemma_entered_extends(
    before: Seq<Event>,
    after: Seq<Event>,
    folder_id: i64,
    f: ParsedModel,
    r: Result<(), ErrKind>,
)
    requires
        entered(before, after, folder_id, f, r),
    ensures
        after.len() > before.len(),
        after.take(before.len() as int) == before,
{
}

/// Each of the files was entered, behind those before it.
proof fn lemma_each_entered(
    before: Seq<Event>,
    after: Seq<Event>,
    folder_id: i64,
    files: Seq<ParsedModel>,
) -> (places: Seq<int>)
    requires
        entered_all(before, after, folder_id, files, Ok(())),
    ensures
        after.len() >= before.len(),
        after.take(before.len() as int) == before,
        places.len() == files.len() + 1,
        places[0] == before.len(),
        places[files.len() as int] == after.len(),
        forall|i: int|
            0 <= i < files.len() ==> is_entered_within(
                after,
                folder_id,
                #[trigger] files[i],
                places[i],
                places[i + 1],
            ),
    decreases files.len(),
{
    if files.len() == 0 {
        assert(after.take(before.len() as int) =~= before);
        seq![before.len() as int]
    } else {
        let rest = files.drop_last();
        let last = files.len() - 1;
        let mid = choose|mid: Seq<Event>|
            entered_all(before, mid, folder_id, rest, Ok(())) && #[trigger] entered(
                mid,
                after,
                folder_id,
                files.last(),
                Ok(()),
            );
        let front = lemma_each_entered(before, mid, folder_id, rest);
        lemma_entered_extends(mid, after, folder_id, files.last(), Ok(()));
        let m = mid.len() as int;
        let places = front.push(after.len() as int);
        assert(after.take(before.len() as int) =~= mid.take(before.len() as int));
        assert forall|i: int| 0 <= i < files.len() implies is_entered_within(
            after,
            folder_id,
            #[trigger] files[i],
            places[i],
            places[i + 1],
        ) by {
            if i < last {
                assert(rest[i] == files[i]);
                assert(is_entered_within(mid, folder_id, rest[i], front[i], front[i + 1]));
                assert(after.take(front[i]) =~= mid.take(front[i])) by {
                    assert(mid =~= after.take(m));
                }
                assert(after.take(front[i + 1]) =~= mid.take(front[i + 1])) by {
                    assert(mid =~= after.take(m));
                }
            } else {
                assert(after.take(m) =~= mid);
                assert(after.take(after.len() as int) =~= after);
            }
        }
        places
    }
}

/// Where a scan succeeds every file that was read is entered, in the order of the
/// files and between the start and the end of one transaction, and the scan is noted.
pub proof fn law_scans_enter_every_file(
    before: Seq<Event>,
    after: Seq<Event>,
    folder_id: i64,
    files: Seq<ParsedModel>,
) -> (places: Seq<int>)
    requires
        scan_stored(before, after, folder_id, files, Ok(())),
    ensures
        places.len() == files.len() + 1,
        places[0] == before.len() + 1,
        places[files.len() as int] == after.len() - 2,
        forall|i: int|
            0 <= i < files.len() ==> is_entered_within(
                after,
                folder_id,
                #[trigger] files[i],
                places[i],
                places[i + 1],
            ),
        after[before.len() as int].request == (Request::Batch { sql: "BEGIN DEFERRED"@ }),
        runs(
            after,
            after.len() - 2,
            "UPDATE folders SET last_scanned = strftime('%s','now') WHERE id = ?1"@,
            seq![ParamModel::Integer(folder_id)],
        ),
        after.last().request == (Request::Batch { sql: "COMMIT"@ }),
        after.last().reply !is Failed,
{
    let n = before.len() as int;
    let r = Ok::<(), ErrKind>(());
    assert(!not_begun(before, after, r));
    let (mid, inner) = choose|mid: Seq<Event>, inner: Result<(), ErrKind>|
        scan_written(mid.take(n + 1), mid, folder_id, files, inner) && #[trigger] in_transaction(
            before,
            after,
            mid,
            inner,
            r,
        );
    assert(finished(mid, after, inner, r));
    assert(inner is Ok);
    let start = mid.take(n + 1);
    let request = command(
        "UPDATE folders SET last_scanned = strftime('%s','now') WHERE id = ?1"@,
        seq![ParamModel::Integer(folder_id)],
    );
    let done_at = choose|m: Seq<Event>|
        entered_all(start, m, folder_id, files, Ok(())) && #[trigger] crate::sql::asked(
            m,
            mid,
            request,
        ) && inner == done(mid.last().reply);
    let places = lemma_each_entered(start, done_at, folder_id, files);
    let m = done_at.len() as int;
    assert(mid.drop_last() == done_at);
    assert(after.take(mid.len() as int) == mid);
    assert(after.take(m) =~= done_at) by {
        assert(mid.take(m) =~= mid.drop_last());
        assert(after.take(m) =~= after.take(mid.len() as int).take(m));
    }
    assert forall|i: int| 0 <= i < files.len() implies is_entered_within(
        after,
        folder_id,
        #[trigger] files[i],
        places[i],
        places[i + 1],
    ) by {
        assert(is_entered_within(done_at, folder_id, files[i], places[i], places[i + 1]));
        assert(after.take(places[i]) =~= done_at.take(places[i])) by {
            assert(done_at.take(places[i]) =~= after.take(m).take(places[i]));
        }
        assert(after.take(places[i + 1]) =~= done_at.take(places[i + 1])) by {
            assert(done_at.take(places[i + 1]) =~= after.take(m).take(places[i + 1]));
        }
    }
    assert(after[n] == mid[n]) by {
        assert(after.take(mid.len() as int)[n] == after[n]);
    }
    assert(after[m] == mid[m]) by {
        assert(after.take(mid.len() as int)[m] == after[m]);
    }
    assert(mid[m] == mid.last());
    assert(after[m].request->Execute_params =~= seq![ParamModel::Integer(folder_id)]);
    places
}

/// Where hashes are noted, each is noted for its own image, in one transaction.
pub proof fn law_hashes_are_noted_for_their_images(
    before: Seq<Event>,
    after: Seq<Event>,
    hashes: Seq<(i64, i64)>,
)
    requires
        hashes_stored(before, after, hashes, Ok(())),
    ensures
        after.len() == before.len() + hashes.len() + 2,
        after[before.len() as int].request == (Request::Batch { sql: "BEGIN DEFERRED"@ }),
        forall|k: int|
            0 <= k < hashes.len() ==> runs(
                after,
                before.len() + 1 + k,
                "UPDATE images SET phash = ?2 WHERE id = ?1"@,
                seq![
                    ParamModel::Integer((#[trigger] hashes[k]).0),
                    ParamModel::Integer(hashes[k].1),
                ],
            ),
        after.last().request == (Request::Batch { sql: "COMMIT"@ }),
        after.last().reply !is Failed,
{
    let n = before.len() as int;
    let r = Ok::<(), ErrKind>(());
    assert(!not_begun(before, after, r));
    let (mid, inner) = choose|mid: Seq<Event>, inner: Result<(), ErrKind>|
        ran(mid.take(n + 1), mid, hash_script(hashes), inner) && #[trigger] in_transaction(
            before,
            after,
            mid,
            inner,
            r,
        );
    assert(finished(mid, after, inner, r));
    assert(inner is Ok);
    let start = mid.take(n + 1);
    let script = hash_script(hashes);
    law_scripts_stop_at_the_first_failure(start, mid, script, inner);
    assert(after.take(mid.len() as int) == mid);
    assert(after[n] == mid[n]) by {
        assert(after.take(mid.len() as int)[n] == after[n]);
    }
    assert forall|k: int| 0 <= k < hashes.len() implies runs(
        after,
        n + 1 + k,
        "UPDATE images SET phash = ?2 WHERE id = ?1"@,
        seq![ParamModel::Integer((#[trigger] hashes[k]).0), ParamModel::Integer(hashes[k].1)],
    ) by {
        assert(mid[n + 1 + k].request == script[k]);
        assert(after.take(mid.len() as int)[n + 1 + k] == after[n + 1 + k]);
        assert(after[n + 1 + k].request->Execute_params =~= seq![
            ParamModel::Integer(hashes[k].0),
            ParamModel::Integer(hashes[k].1),
        ]);
    }
}

/// Where hashes cannot be noted, none is: the last request takes back what was noted,
/// unless nothing was begun.
pub proof fn law_hashes_are_noted_all_or_none(
    before: Seq<Event>,
    after: Seq<Event>,
    hashes: Seq<(i64, i64)>,
    k: ErrKind,
)
    requires
        hashes_stored(before, after, hashes, Err(k)),
    ensures
        after.len() == before.len() + 1 || after.last().request == (Request::Batch {
            sql: "ROLLBACK"@,
        }),
{
    let r = Err::<(), ErrKind>(k);
    if !not_begun(before, after, r) {
        let (mid, inner) = choose|mid: Seq<Event>, inner: Result<(), ErrKind>|
            ran(mid.take(before.len() as int + 1), mid, hash_script(hashes), inner)
                && #[trigger] in_transaction(before, after, mid, inner, r);
        assert(finished(mid, after, inner, r));
    }
}

/// Each path that is gone is taken out of the index by its own request.
pub proof fn law_each_path_is_forgotten(
    before: Seq<Event>,
    after: Seq<Event>,
    paths: Seq<Seq<char>>,
)
    requires
        forgotten(before, after, paths),
    ensures
        after.len() == before.len() + paths.len(),
        forall|k: int|
            0 <= k < paths.len() ==> runs(
                after,
                before.len() + k,
                "DELETE FROM images WHERE path = ?1"@,
                seq![ParamModel::Text(#[trigger] paths[k])],
            ),
{
    assert forall|k: int| 0 <= k < paths.len() implies runs(
        after,
        before.len() + k,
        "DELETE FROM images WHERE path = ?1"@,
        seq![ParamModel::Text(#[trigger] paths[k])],
    ) by {
        let p = before.len() + k;
        assert(after[p].request->Execute_params =~= seq![ParamModel::Text(paths[k])]);
    }
}

/// The numbers of files are told with the places of the files, in their order: a place
/// is in the list exactly where the answer for the file there has a number, and it
/// comes with that number.
pub proof fn law_numbers_come_with_their_files(
    before: Seq<Event>,
    after: Seq<Event>,
    files: Seq<ParsedModel>,
    r: Seq<(i64, usize)>,
    k: int,
)
    requires
        numbers_asked(before, after, files, r),
        files.len() <= usize::MAX,
        0 <= k < files.len(),
    ensures
        asks(
            after,
            before.len() + k,
            "SELECT id FROM images WHERE path = ?1"@,
            seq![ParamModel::Text(files[k].path)],
        ),
        match one_read::<i64>(after[before.len() + k].reply) {
            Ok(id) => r.contains((id, k as usize)),
            Err(_) => forall|j: int| 0 <= j < r.len() ==> (#[trigger] r[j]).1 != k,
        },
        forall|i: int, j: int|
            0 <= i < j < r.len() ==> (#[trigger] r[i]).1 < (#[trigger] r[j]).1,
        forall|j: int|
            0 <= j < r.len() ==> (#[trigger] r[j]).1 < files.len() && one_read::<i64>(
                after[before.len() + r[j].1].reply,
            ) == Ok::<i64, ErrKind>(r[j].0),
{
    let n = before.len() as int;
    let answers = after.skip(n);
    assert(after[n + k].request->Select_params =~= seq![ParamModel::Text(files[k].path)]);
    lemma_numbers(answers);
    assert(answers[k] == after[n + k]);
    assert forall|j: int| 0 <= j < r.len() implies (#[trigger] r[j]).1 < files.len() && one_read::<
        i64,
    >(after[n + r[j].1].reply) == Ok::<i64, ErrKind>(r[j].0) by {
        assert(answers[r[j].1 as int] == after[n + r[j].1]);
    }
}

proof fn lemma_numbers(answers: Seq<Event>)
    requires
        answers.len() <= usize::MAX,
    ensures
        forall|j: int|
            0 <= j < numbers_in(answers).len() ==> (#[trigger] numbers_in(answers)[j]).1
                < answers.len() && one_read::<i64>(answers[numbers_in(answers)[j].1 as int].reply)
                == Ok::<i64, ErrKind>(numbers_in(answers)[j].0),
        forall|i: int, j: int|
            0 <= i < j < numbers_in(answers).len() ==> (#[trigger] numbers_in(answers)[i]).1 < (
            #[trigger] numbers_in(answers)[j]).1,
        forall|k: int|
            0 <= k < answers.len() && one_read::<i64>((#[trigger] answers[k]).reply) is Ok
                ==> numbers_in(answers).contains(
                (one_read::<i64>(answers[k].reply)->Ok_0, k as usize),
            ),
    decreases answers.len(),
{
    if answers.len() > 0 {
        let rest = answers.drop_last();
        let last = answers.len() - 1;
        lemma_numbers(rest);
        let before = numbers_in(rest);
        let now = numbers_in(answers);
        assert(answers.last() == answers[last]);
        assert forall|j: int| 0 <= j < now.len() implies (#[trigger] now[j]).1 < answers.len()
            && one_read::<i64>(answers[now[j].1 as int].reply) == Ok::<i64, ErrKind>(now[j].0) by {
            if j < before.len() {
                assert(now[j] == before[j]);
                assert(rest[before[j].1 as int] == answers[before[j].1 as int]);
            }
        }
        assert forall|i: int, j: int| 0 <= i < j < now.len() implies (#[trigger] now[i]).1 < (
        #[trigger] now[j]).1 by {
            assert(now[i] == before[i]);
            if j < before.len() {
                assert(now[j] == before[j]);
            }
        }
        assert forall|k: int|
            0 <= k < answers.len() && one_read::<i64>(
                (#[trigger] answers[k]).reply,
            ) is Ok implies now.contains((one_read::<i64>(answers[k].reply)->Ok_0, k as usize)) by {
            let id = one_read::<i64>(answers[k].reply)->Ok_0;
            if k < last {
                assert(rest[k] == answers[k]);
                assert(before.contains((id, k as usize)));
                let j = choose|j: int| 0 <= j < before.len() && before[j] == (id, k as usize);
                assert(now[j] == before[j]);
            } else {
                assert(now[before.len() as int] == (id, k as usize));
            }
        }
    }
}

} // verus!
