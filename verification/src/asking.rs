//! What a search asks of the index, said of the text of its requests: the order, the
//! page, and what each part of a search adds to the condition.

use crate::query::{
    count_request, given, lemma_marks_in_list, lemma_marks_joined, lemma_scope_marks,
    lemma_mark_marks, lemma_when, lemma_include_marks, lemma_exclude_marks, lemma_two_marks, marks,
    marks_in, marks_in_all, page_request, searched, where_clauses, where_sql, where_texts,
    ImageCard, Query,
};
use crate::query::{
    album_clause, exclude_clause, include_clause, order_sql, text_params, twice_when,
};
use crate::sql::{bound, ErrKind, Event, ParamModel, Request};
use crate::text::{decimal, joined, texts};
use vstd::prelude::*;

verus! {

// ---------------------------------------------------------------------------
// The order and the page
// ---------------------------------------------------------------------------

/// Whether a text ends in the given one.
pub open spec fn ends_with(s: Seq<char>, tail: Seq<char>) -> bool {
    tail.len() <= s.len() && s.skip(s.len() - tail.len()) == tail
}

/// Whether a text starts with the given one.
pub open spec fn starts_with(s: Seq<char>, front: Seq<char>) -> bool {
    front.len() <= s.len() && s.take(front.len() as int) == front
}

/// The end of a request that says which page is wanted.
pub open spec fn page_end(q: Query) -> Seq<char> {
    " LIMIT "@ + decimal(q.limit as int) + " OFFSET "@ + decimal(q.offset as int)
}

/// The order of the results is in the text of the request for the page. A search for
/// the oldest is answered from the oldest on, and one by rating from the best on. Any
/// other, one for the newest among them, is answered from the newest on: only a search
/// for the oldest ascends.
pub proof fn law_results_are_ordered(
    before: Seq<Event>,
    after: Seq<Event>,
    q: Query,
    r: Result<(i64, Seq<ImageCard>), ErrKind>,
)
    requires
        searched(before, after, q, r),
        after.len() == before.len() + 2,
    ensures
        after.last().request is Select,
        ({
            let text = after.last().request->Select_sql;
            &&& q.sort@ == "oldest"@ ==> ends_with(
                text,
                " ORDER BY images.file_mtime ASC, images.id ASC"@ + page_end(q),
            )
            &&& q.sort@ == "rating"@ ==> ends_with(
                text,
                " ORDER BY images.rating DESC, images.file_mtime DESC"@ + page_end(q),
            )
            &&& q.sort@ == "newest"@ ==> ends_with(
                text,
                " ORDER BY images.file_mtime DESC, images.id DESC"@ + page_end(q),
            )
            &&& q.sort@ != "oldest"@ && q.sort@ != "rating"@ ==> ends_with(
                text,
                " ORDER BY images.file_mtime DESC, images.id DESC"@ + page_end(q),
            )
            &&& ends_with(text, " ASC"@ + page_end(q)) <==> q.sort@ == "oldest"@
        }),
{
    let text = after.last().request->Select_sql;
    assert(after.last().request == page_request(q));
    lemma_order_end(q);
    reveal_strlit("oldest");
    reveal_strlit("rating");
    reveal_strlit("newest");
    assert("newest"@ != "oldest"@) by {
        assert("newest"@[0] == 'n' && "oldest"@[0] == 'o');
    }
    assert("newest"@ != "rating"@) by {
        assert("newest"@[0] == 'n' && "rating"@[0] == 'r');
    }
    assert("rating"@ != "oldest"@) by {
        assert("rating"@[0] == 'r' && "oldest"@[0] == 'o');
    }
}

/// The text of the request for a page, split where the order starts.
#[verifier::rlimit(30)]
proof fn lemma_order_end(q: Query)
    ensures
        ends_with(page_request(q)->Select_sql, " ORDER BY "@ + order_sql(q.sort@) + page_end(q)),
        q.sort@ == "oldest"@ ==> " ORDER BY "@ + order_sql(q.sort@)
            == " ORDER BY images.file_mtime ASC, images.id ASC"@,
        q.sort@ != "oldest"@ && q.sort@ == "rating"@ ==> " ORDER BY "@ + order_sql(q.sort@)
            == " ORDER BY images.rating DESC, images.file_mtime DESC"@,
        q.sort@ != "oldest"@ && q.sort@ != "rating"@ ==> " ORDER BY "@ + order_sql(q.sort@)
            == " ORDER BY images.file_mtime DESC, images.id DESC"@,
        ends_with(page_request(q)->Select_sql, " ASC"@ + page_end(q)) <==> q.sort@ == "oldest"@,
{
    let text = page_request(q)->Select_sql;
    let order = " ORDER BY "@ + order_sql(q.sort@);
    let end = page_end(q);
    let front = "SELECT id, width, height, seed, rating, favorite FROM images
         WHERE "@ + where_sql(q);
    assert(text =~= front + (order + end));
    assert(text.skip(front.len() as int) =~= order + end);
    reveal_strlit(" ORDER BY ");
    reveal_strlit("images.file_mtime ASC, images.id ASC");
    reveal_strlit(" ORDER BY images.file_mtime ASC, images.id ASC");
    reveal_strlit("images.rating DESC, images.file_mtime DESC");
    reveal_strlit(" ORDER BY images.rating DESC, images.file_mtime DESC");
    reveal_strlit("images.file_mtime DESC, images.id DESC");
    reveal_strlit(" ORDER BY images.file_mtime DESC, images.id DESC");
    reveal_strlit(" ASC");
    let asc = " ASC"@ + end;
    let at = text.len() - asc.len();
    let n = order.len() as int;
    assert(at == front.len() + n - 4);
    assert forall|i: int| 0 <= i < asc.len() implies #[trigger] text[at + i] == (order + end)[n - 4
        + i] by {}
    if q.sort@ == "oldest"@ {
        assert(order =~= " ORDER BY images.file_mtime ASC, images.id ASC"@);
        assert(text.skip(at) =~= asc);
    } else {
        assert(order[n - 3] == 'E') by {
            if q.sort@ == "rating"@ {
                assert(order =~= " ORDER BY images.rating DESC, images.file_mtime DESC"@);
            } else {
                assert(order =~= " ORDER BY images.file_mtime DESC, images.id DESC"@);
            }
        }
        assert(text[at + 1] == 'E');
        assert(asc[1] == 'A');
        if text.skip(at) == asc {
            assert(text.skip(at)[1] == text[at + 1]);
        }
    }
}

/// The results are counted, and the page is selected, under one condition, with the
/// same values bound to its placeholders.
pub proof fn law_page_and_count_agree(
    before: Seq<Event>,
    after: Seq<Event>,
    q: Query,
    r: Result<(i64, Seq<ImageCard>), ErrKind>,
)
    requires
        searched(before, after, q, r),
    ensures
        ({
            let n = before.len() as int;
            let params = Seq::new(
                where_texts(q).len(),
                |i: int| ParamModel::Text(where_texts(q)[i]),
            );
            &&& after[n].request == (Request::Select {
                sql: "SELECT COUNT(*) FROM images WHERE "@ + where_sql(q),
                params,
            })
            &&& after.len() == n + 2 ==> {
                &&& after[n + 1].request is Select
                &&& after[n + 1].request->Select_params == params
                &&& starts_with(
                    after[n + 1].request->Select_sql,
                    "SELECT id, width, height, seed, rating, favorite FROM images
         WHERE "@ + where_sql(q) + " ORDER BY "@,
                )
            }
        }),
{
    let n = before.len() as int;
    let params = Seq::new(where_texts(q).len(), |i: int| ParamModel::Text(where_texts(q)[i]));
    let values = text_params(where_texts(q)).map_values(|p: ParamModel| bound(p));
    assert(values =~= params);
    assert(after[n].request == count_request(q));
    if after.len() == n + 2 {
        assert(after[n + 1].request == page_request(q));
        let text = after[n + 1].request->Select_sql;
        let front = "SELECT id, width, height, seed, rating, favorite FROM images
         WHERE "@ + where_sql(q) + " ORDER BY "@;
        assert(text =~= front + (order_sql(q.sort@) + page_end(q)));
        assert(text.take(front.len() as int) =~= front);
    }
}

// ---------------------------------------------------------------------------
// The parts of a condition
// ---------------------------------------------------------------------------

/// Whether one search asks what another asks, and a clause more. The condition has the
/// clause behind `front`, and the values of the clause are bound behind those for the
/// placeholders of `front`.
pub open spec fn asks_more_behind(
    less: Query,
    more: Query,
    clause: Seq<char>,
    values: Seq<Seq<char>>,
    front: Seq<char>,
    back: Seq<char>,
) -> bool {
    let at = marks_in(front) as int;
    &&& where_sql(less) == front + back
    &&& where_sql(more) == front + " AND "@ + clause + back
    &&& at <= where_texts(less).len()
    &&& where_texts(more) == where_texts(less).take(at) + values + where_texts(less).skip(at)
}

/// Whether one search asks what another asks, and a clause more with its values.
pub open spec fn asks_more(
    less: Query,
    more: Query,
    clause: Seq<char>,
    values: Seq<Seq<char>>,
) -> bool {
    exists|front: Seq<char>, back: Seq<char>|
        asks_more_behind(less, more, clause, values, front, back)
}

/// The texts of lists that are joined.
proof fn lemma_joined_lists(a: Seq<Seq<char>>, b: Seq<Seq<char>>, sep: Seq<char>)
    requires
        a.len() > 0,
        b.len() > 0,
    ensures
        joined(a + b, sep) == joined(a, sep) + sep + joined(b, sep),
    decreases b.len(),
{
    let all = a + b;
    assert(all.drop_last() =~= a + b.drop_last());
    assert(all.last() == b.last());
    if b.len() == 1 {
        assert(all.drop_last() =~= a);
        assert(b.last() == b[0]);
    } else {
        lemma_joined_lists(a, b.drop_last(), sep);
        assert(joined(a, sep) + sep + joined(b.drop_last(), sep) + sep + b.last() =~= joined(a, sep)
            + sep + (joined(b.drop_last(), sep) + sep + b.last()));
    }
}

/// A clause between others, and without it.
#[verifier::rlimit(30)]
proof fn lemma_asks_more(
    less: Query,
    more: Query,
    clause: Seq<char>,
    values: Seq<Seq<char>>,
    a: Seq<Seq<char>>,
    b: Seq<Seq<char>>,
    u: Seq<Seq<char>>,
    w: Seq<Seq<char>>,
)
    requires
        a.len() > 0,
        where_clauses(less) == a + b,
        where_clauses(more) == a + seq![clause] + b,
        where_texts(less) == u + w,
        where_texts(more) == u + values + w,
        marks_in_all(a) == u.len(),
    ensures
        asks_more(less, more, clause, values),
{
    let sep = " AND "@;
    let front = joined(a, sep);
    let one = seq![clause];
    let back = if b.len() == 0 {
        Seq::<char>::empty()
    } else {
        sep + joined(b, sep)
    };
    reveal_strlit(" AND ");
    lemma_marks_joined(a, sep);
    lemma_joined_lists(a, one, sep);
    assert(joined(one, sep) == clause);
    if b.len() == 0 {
        assert(a + b =~= a);
        assert(a + one + b =~= a + one);
        lemma_with_nothing(front);
        lemma_with_nothing(front + sep + clause);
    } else {
        lemma_joined_lists(a, b, sep);
        lemma_joined_lists(a + one, b, sep);
        lemma_text_regrouped(front, sep, joined(b, sep));
        lemma_text_regrouped(front + sep + clause, sep, joined(b, sep));
    }
    assert((u + w).take(u.len() as int) =~= u);
    assert((u + w).skip(u.len() as int) =~= w);
    assert(asks_more_behind(less, more, clause, values, front, back));
}

proof fn lemma_with_nothing(a: Seq<char>)
    ensures
        a + Seq::<char>::empty() == a,
{
    assert(a + Seq::<char>::empty() =~= a);
}

proof fn lemma_text_regrouped(a: Seq<char>, b: Seq<char>, c: Seq<char>)
    ensures
        a + b + c == a + (b + c),
{
    assert(a + b + c =~= a + (b + c));
}

/// The parts that conditions are made of.
spec fn album_part(q: Query) -> Seq<Seq<char>> {
    crate::query::when(q.album_id is Some, album_clause(q.album_id->0))
}

spec fn hidden_part(q: Query) -> Seq<Seq<char>> {
    seq![crate::query::hidden_clause(q)]
}

spec fn inside_part(q: Query) -> Seq<Seq<char>> {
    crate::query::when(q.in_album == Some(true), "images.id IN (SELECT image_id FROM album_images)"@)
}

spec fn outside_part(q: Query) -> Seq<Seq<char>> {
    crate::query::when(q.in_album == Some(false), "images.id NOT IN (SELECT image_id FROM album_images)"@)
}

spec fn include_part(q: Query) -> Seq<Seq<char>> {
    crate::query::when(
        q.include_tags@.len() > 0,
        include_clause(q.include_tags@.len(), texts(q.include_tags@).to_set().len()),
    )
}

spec fn exclude_part(q: Query) -> Seq<Seq<char>> {
    crate::query::when(q.exclude_tags@.len() > 0, exclude_clause(q.exclude_tags@.len()))
}

spec fn text_part(q: Query) -> Seq<Seq<char>> {
    crate::query::when(given(q.text), "(images.raw_prompt LIKE ? OR images.raw_negative LIKE ?)"@)
}

spec fn favorite_part(q: Query) -> Seq<Seq<char>> {
    crate::query::when(q.favorite == Some(true), "images.favorite = 1"@)
}

spec fn rating_part(q: Query) -> Seq<Seq<char>> {
    crate::query::when(q.min_rating is Some, "images.rating >= "@ + decimal(q.min_rating->0 as int))
}

spec fn folder_part(q: Query) -> Seq<Seq<char>> {
    crate::query::when(q.folder_id is Some, "images.folder_id = "@ + decimal(q.folder_id->0 as int))
}

spec fn prefix_part(q: Query) -> Seq<Seq<char>> {
    crate::query::when(given(q.path_prefix), "substr(images.path, 1, length(?)) = ?"@)
}

spec fn text_values(q: Query) -> Seq<Seq<char>> {
    twice_when(given(q.text), "%"@ + q.text->0@ + "%"@)
}

spec fn prefix_values(q: Query) -> Seq<Seq<char>> {
    twice_when(given(q.path_prefix), q.path_prefix->0@)
}

/// The parts of a condition, front to back.
spec fn parts(q: Query) -> Seq<Seq<Seq<char>>> {
    seq![
        hidden_part(q),
        album_part(q),
        inside_part(q),
        outside_part(q),
        include_part(q),
        exclude_part(q),
        text_part(q),
        favorite_part(q),
        rating_part(q),
        folder_part(q),
        prefix_part(q),
    ]
}

/// Lists one behind the other.
spec fn flat(lists: Seq<Seq<Seq<char>>>) -> Seq<Seq<char>>
    decreases lists.len(),
{
    if lists.len() == 0 {
        Seq::empty()
    } else {
        flat(lists.drop_last()) + lists.last()
    }
}

proof fn lemma_flat_step(lists: Seq<Seq<Seq<char>>>, i: int)
    requires
        0 <= i < lists.len(),
    ensures
        flat(lists.take(i + 1)) == flat(lists.take(i)) + lists[i],
{
    assert(lists.take(i + 1).drop_last() =~= lists.take(i));
    assert(lists.take(i + 1).last() == lists[i]);
}

/// One list among others.
proof fn lemma_flat_split(lists: Seq<Seq<Seq<char>>>, i: int)
    requires
        0 <= i < lists.len(),
    ensures
        flat(lists) == flat(lists.take(i)) + lists[i] + flat(lists.skip(i + 1)),
    decreases lists.len(),
{
    let rest = lists.drop_last();
    if i == lists.len() - 1 {
        assert(lists.take(i) =~= rest);
        assert(lists.skip(i + 1) =~= Seq::<Seq<Seq<char>>>::empty());
        assert(flat(lists) =~= flat(lists.take(i)) + lists[i] + flat(lists.skip(i + 1)));
    } else {
        lemma_flat_split(rest, i);
        assert(rest.take(i) =~= lists.take(i));
        assert(rest.skip(i + 1) =~= lists.skip(i + 1).drop_last());
        assert(lists.skip(i + 1).last() == lists.last());
        assert(flat(lists) =~= flat(lists.take(i)) + lists[i] + flat(lists.skip(i + 1)));
    }
}

/// A condition is made of its parts.
#[verifier::rlimit(30)]
proof fn lemma_parts(q: Query)
    ensures
        where_clauses(q) == flat(parts(q)),
{
    let all = parts(q);
    assert(all.take(0) =~= Seq::<Seq<Seq<char>>>::empty());
    lemma_flat_step(all, 0);
    lemma_flat_step(all, 1);
    lemma_flat_step(all, 2);
    lemma_flat_step(all, 3);
    lemma_flat_step(all, 4);
    lemma_flat_step(all, 5);
    lemma_flat_step(all, 6);
    lemma_flat_step(all, 7);
    lemma_flat_step(all, 8);
    lemma_flat_step(all, 9);
    lemma_flat_step(all, 10);
    assert(all.take(11) =~= all);
    let none = Seq::<Seq<char>>::empty();
    assert(none + hidden_part(q) =~= hidden_part(q));
    let scope = hidden_part(q) + album_part(q) + inside_part(q) + outside_part(q);
    let front = scope + (include_part(q) + exclude_part(q)) + text_part(q);
    lemma_grouped(scope, include_part(q), exclude_part(q), none);
    lemma_grouped(front, favorite_part(q), rating_part(q), folder_part(q));
}

proof fn lemma_grouped(a: Seq<Seq<char>>, b: Seq<Seq<char>>, c: Seq<Seq<char>>, d: Seq<Seq<char>>)
    ensures
        a + b + c == a + (b + c),
        a + b + c + d == a + (b + c + d),
{
    assert(a + b + c =~= a + (b + c));
    assert(a + b + c + d =~= a + (b + c + d));
}

/// How many placeholders the parts have.
#[verifier::rlimit(30)]
proof fn lemma_part_marks(q: Query)
    ensures
        marks_in_all(hidden_part(q)) == 0,
        marks_in_all(album_part(q)) == 0,
        marks_in_all(inside_part(q)) == 0,
        marks_in_all(outside_part(q)) == 0,
        marks_in_all(include_part(q)) == q.include_tags@.len(),
        marks_in_all(exclude_part(q)) == q.exclude_tags@.len(),
        marks_in_all(text_part(q)) == text_values(q).len(),
        marks_in_all(favorite_part(q)) == 0,
        marks_in_all(rating_part(q)) == 0,
        marks_in_all(folder_part(q)) == 0,
{
    lemma_scope_marks(q);
    lemma_marks_in_list(hidden_part(q) + album_part(q) + inside_part(q), outside_part(q));
    lemma_marks_in_list(hidden_part(q) + album_part(q), inside_part(q));
    lemma_marks_in_list(hidden_part(q), album_part(q));
    lemma_include_marks(q.include_tags@.len(), texts(q.include_tags@).to_set().len());
    lemma_exclude_marks(q.exclude_tags@.len());
    lemma_when(
        q.include_tags@.len() > 0,
        include_clause(q.include_tags@.len(), texts(q.include_tags@).to_set().len()),
    );
    lemma_when(q.exclude_tags@.len() > 0, exclude_clause(q.exclude_tags@.len()));
    reveal_strlit("(images.raw_prompt LIKE ? OR images.raw_negative LIKE ?)");
    lemma_two_marks("(images.raw_prompt LIKE ? OR images.raw_negative LIKE ?)"@, 24, 54);
    lemma_when(given(q.text), "(images.raw_prompt LIKE ? OR images.raw_negative LIKE ?)"@);
    lemma_mark_marks(q);
    lemma_marks_in_list(favorite_part(q) + rating_part(q), folder_part(q));
    lemma_marks_in_list(favorite_part(q), rating_part(q));
}

/// How many placeholders the fronts of a condition have.
#[verifier::rlimit(30)]
proof fn lemma_front_marks(q: Query)
    ensures
        marks_in_all(flat(parts(q).take(1))) == 0,
        marks_in_all(flat(parts(q).take(2))) == 0,
        marks_in_all(flat(parts(q).take(3))) == 0,
        marks_in_all(flat(parts(q).take(4))) == 0,
        marks_in_all(flat(parts(q).take(5))) == q.include_tags@.len(),
        marks_in_all(flat(parts(q).take(6))) == q.include_tags@.len() + q.exclude_tags@.len(),
        marks_in_all(flat(parts(q).take(7))) == q.include_tags@.len() + q.exclude_tags@.len() + text_values(q).len(),
        marks_in_all(flat(parts(q).take(8))) == q.include_tags@.len() + q.exclude_tags@.len() + text_values(q).len(),
        marks_in_all(flat(parts(q).take(9))) == q.include_tags@.len() + q.exclude_tags@.len() + text_values(q).len(),
        marks_in_all(flat(parts(q).take(10))) == q.include_tags@.len() + q.exclude_tags@.len() + text_values(q).len(),
{
    let all = parts(q);
    lemma_part_marks(q);
    assert(all.take(0) =~= Seq::<Seq<Seq<char>>>::empty());
    assert(flat(all.take(0)) =~= Seq::<Seq<char>>::empty());
    lemma_flat_step(all, 0);
    lemma_marks_in_list(flat(all.take(0)), all[0]);
    lemma_flat_step(all, 1);
    lemma_marks_in_list(flat(all.take(1)), all[1]);
    lemma_flat_step(all, 2);
    lemma_marks_in_list(flat(all.take(2)), all[2]);
    lemma_flat_step(all, 3);
    lemma_marks_in_list(flat(all.take(3)), all[3]);
    lemma_flat_step(all, 4);
    lemma_marks_in_list(flat(all.take(4)), all[4]);
    lemma_flat_step(all, 5);
    lemma_marks_in_list(flat(all.take(5)), all[5]);
    lemma_flat_step(all, 6);
    lemma_marks_in_list(flat(all.take(6)), all[6]);
    lemma_flat_step(all, 7);
    lemma_marks_in_list(flat(all.take(7)), all[7]);
    lemma_flat_step(all, 8);
    lemma_marks_in_list(flat(all.take(8)), all[8]);
    lemma_flat_step(all, 9);
    lemma_marks_in_list(flat(all.take(9)), all[9]);
}

/// A condition with one part more.
#[verifier::rlimit(30)]
proof fn lemma_part_more(
    less: Query,
    more: Query,
    i: int,
    clause: Seq<char>,
    values: Seq<Seq<char>>,
    u: Seq<Seq<char>>,
    w: Seq<Seq<char>>,
)
    requires
        0 < i < 11,
        parts(less)[i] == Seq::<Seq<char>>::empty(),
        parts(more) == parts(less).update(i, seq![clause]),
        where_texts(less) == u + w,
        where_texts(more) == u + values + w,
        marks_in_all(flat(parts(less).take(i))) == u.len(),
    ensures
        asks_more(less, more, clause, values),
{
    let a = flat(parts(less).take(i));
    let b = flat(parts(less).skip(i + 1));
    lemma_parts(less);
    lemma_parts(more);
    lemma_flat_split(parts(less), i);
    lemma_flat_split(parts(more), i);
    assert(parts(more).take(i) =~= parts(less).take(i));
    assert(parts(more).skip(i + 1) =~= parts(less).skip(i + 1));
    assert(where_clauses(less) =~= a + b);
    assert(a.len() > 0) by {
        lemma_first_part(less, i);
    }
    lemma_asks_more(less, more, clause, values, a, b, u, w);
}

/// A condition always starts with whether rejects are wanted.
proof fn lemma_first_part(q: Query, i: int)
    requires
        0 < i <= 11,
    ensures
        flat(parts(q).take(i)).len() > 0,
    decreases i,
{
    lemma_flat_step(parts(q), i - 1);
    if i > 1 {
        lemma_first_part(q, i - 1);
    }
}

/// The images of one album are asked for by the number of the album.
#[verifier::rlimit(30)]
pub proof fn law_album_adds_its_clause(less: Query, id: i64)
    requires
        less.album_id is None,
    ensures
        asks_more(
            less,
            Query { album_id: Some(id), ..less },
            "images.id IN (SELECT image_id FROM album_images WHERE album_id = "@ + decimal(id as int) + ")"@,
            Seq::empty(),
        ),
{
    let more = Query { album_id: Some(id), ..less };
    let u = Seq::<Seq<char>>::empty();
    let w = texts(less.include_tags@) + texts(less.exclude_tags@) + text_values(less) + prefix_values(less);
    let clause = "images.id IN (SELECT image_id FROM album_images WHERE album_id = "@ + decimal(id as int) + ")"@;
    let values: Seq<Seq<char>> = Seq::empty();
    lemma_front_marks(less);
    assert(parts(more) =~= parts(less).update(1, seq![clause]));
    assert(where_texts(less) =~= u + w);
    assert(where_texts(more) =~= u + values + w);
    lemma_part_more(less, more, 1, clause, values, u, w);
}

/// Only images that are in an album are asked for.
#[verifier::rlimit(30)]
pub proof fn law_images_in_albums(less: Query)
    requires
        less.in_album is None,
    ensures
        asks_more(
            less,
            Query { in_album: Some(true), ..less },
            "images.id IN (SELECT image_id FROM album_images)"@,
            Seq::empty(),
        ),
{
    let more = Query { in_album: Some(true), ..less };
    let u = Seq::<Seq<char>>::empty();
    let w = texts(less.include_tags@) + texts(less.exclude_tags@) + text_values(less) + prefix_values(less);
    let clause = "images.id IN (SELECT image_id FROM album_images)"@;
    let values: Seq<Seq<char>> = Seq::empty();
    lemma_front_marks(less);
    assert(parts(more) =~= parts(less).update(2, seq![clause]));
    assert(where_texts(less) =~= u + w);
    assert(where_texts(more) =~= u + values + w);
    lemma_part_more(less, more, 2, clause, values, u, w);
}

/// Only images that are in no album are asked for.
#[verifier::rlimit(30)]
pub proof fn law_images_in_no_album(less: Query)
    requires
        less.in_album is None,
    ensures
        asks_more(
            less,
            Query { in_album: Some(false), ..less },
            "images.id NOT IN (SELECT image_id FROM album_images)"@,
            Seq::empty(),
        ),
{
    let more = Query { in_album: Some(false), ..less };
    let u = Seq::<Seq<char>>::empty();
    let w = texts(less.include_tags@) + texts(less.exclude_tags@) + text_values(less) + prefix_values(less);
    let clause = "images.id NOT IN (SELECT image_id FROM album_images)"@;
    let values: Seq<Seq<char>> = Seq::empty();
    lemma_front_marks(less);
    assert(parts(more) =~= parts(less).update(3, seq![clause]));
    assert(where_texts(less) =~= u + w);
    assert(where_texts(more) =~= u + values + w);
    lemma_part_more(less, more, 3, clause, values, u, w);
}

/// Images with all of some tags are asked for: of the names, which are bound in their
/// order, as many different ones must be found as there are.
#[verifier::rlimit(30)]
pub proof fn law_wanted_tags_add_their_clause(less: Query, list: Vec<String>)
    requires
        less.include_tags@.len() == 0,
        list@.len() > 0,
    ensures
        asks_more(
            less,
            Query { include_tags: list, ..less },
            "images.id IN (SELECT it.image_id FROM image_tags it
              JOIN tags t ON t.id = it.tag_id WHERE t.name IN ("@ + marks(list@.len()) + ")
              GROUP BY it.image_id HAVING COUNT(DISTINCT t.id) = "@ + decimal(
                texts(list@).to_set().len() as int,
            ) + ")"@,
            texts(list@),
        ),
{
    let more = Query { include_tags: list, ..less };
    let u = Seq::<Seq<char>>::empty();
    let w = texts(less.include_tags@) + texts(less.exclude_tags@) + text_values(less) + prefix_values(less);
    let clause = "images.id IN (SELECT it.image_id FROM image_tags it
              JOIN tags t ON t.id = it.tag_id WHERE t.name IN ("@ + marks(list@.len()) + ")
              GROUP BY it.image_id HAVING COUNT(DISTINCT t.id) = "@ + decimal(
                texts(list@).to_set().len() as int,
            ) + ")"@;
    let values: Seq<Seq<char>> = texts(list@);
    lemma_front_marks(less);
    assert(parts(more) =~= parts(less).update(4, seq![clause]));
    assert(where_texts(less) =~= u + w);
    assert(where_texts(more) =~= u + values + w);
    lemma_part_more(less, more, 4, clause, values, u, w);
}

/// Images with none of some tags are asked for, with the names bound in their order.
#[verifier::rlimit(30)]
pub proof fn law_unwanted_tags_add_their_clause(less: Query, list: Vec<String>)
    requires
        less.exclude_tags@.len() == 0,
        list@.len() > 0,
    ensures
        asks_more(
            less,
            Query { exclude_tags: list, ..less },
            "images.id NOT IN (SELECT it.image_id FROM image_tags it
              JOIN tags t ON t.id = it.tag_id WHERE t.name IN ("@ + marks(list@.len()) + "))"@,
            texts(list@),
        ),
{
    let more = Query { exclude_tags: list, ..less };
    let u = texts(less.include_tags@);
    let w = texts(less.exclude_tags@) + text_values(less) + prefix_values(less);
    let clause = "images.id NOT IN (SELECT it.image_id FROM image_tags it
              JOIN tags t ON t.id = it.tag_id WHERE t.name IN ("@ + marks(list@.len()) + "))"@;
    let values: Seq<Seq<char>> = texts(list@);
    lemma_front_marks(less);
    assert(parts(more) =~= parts(less).update(5, seq![clause]));
    assert(where_texts(less) =~= u + w);
    assert(where_texts(more) =~= u + values + w);
    lemma_part_more(less, more, 5, clause, values, u, w);
}

/// Images with a text in a prompt are asked for: anywhere in either of the two.
#[verifier::rlimit(30)]
pub proof fn law_text_adds_its_clause(less: Query, text: String)
    requires
        less.text is None,
        text@.len() > 0,
    ensures
        asks_more(
            less,
            Query { text: Some(text), ..less },
            "(images.raw_prompt LIKE ? OR images.raw_negative LIKE ?)"@,
            seq!["%"@ + text@ + "%"@, "%"@ + text@ + "%"@],
        ),
{
    let more = Query { text: Some(text), ..less };
    let u = texts(less.include_tags@) + texts(less.exclude_tags@);
    let w = text_values(less) + prefix_values(less);
    let clause = "(images.raw_prompt LIKE ? OR images.raw_negative LIKE ?)"@;
    let values: Seq<Seq<char>> = seq!["%"@ + text@ + "%"@, "%"@ + text@ + "%"@];
    lemma_front_marks(less);
    assert(parts(more) =~= parts(less).update(6, seq![clause]));
    assert(where_texts(less) =~= u + w);
    assert(where_texts(more) =~= u + values + w);
    lemma_part_more(less, more, 6, clause, values, u, w);
}

/// Only favourites are asked for.
#[verifier::rlimit(30)]
pub proof fn law_favorites_add_their_clause(less: Query)
    requires
        less.favorite is None,
    ensures
        asks_more(
            less,
            Query { favorite: Some(true), ..less },
            "images.favorite = 1"@,
            Seq::empty(),
        ),
{
    let more = Query { favorite: Some(true), ..less };
    let u = texts(less.include_tags@) + texts(less.exclude_tags@) + text_values(less);
    let w = prefix_values(less);
    let clause = "images.favorite = 1"@;
    let values: Seq<Seq<char>> = Seq::empty();
    lemma_front_marks(less);
    assert(parts(more) =~= parts(less).update(7, seq![clause]));
    assert(where_texts(less) =~= u + w);
    assert(where_texts(more) =~= u + values + w);
    lemma_part_more(less, more, 7, clause, values, u, w);
}

/// Images of a rating or a better one are asked for.
#[verifier::rlimit(30)]
pub proof fn law_rating_adds_its_clause(less: Query, n: i64)
    requires
        less.min_rating is None,
    ensures
        asks_more(
            less,
            Query { min_rating: Some(n), ..less },
            "images.rating >= "@ + decimal(n as int),
            Seq::empty(),
        ),
{
    let more = Query { min_rating: Some(n), ..less };
    let u = texts(less.include_tags@) + texts(less.exclude_tags@) + text_values(less);
    let w = prefix_values(less);
    let clause = "images.rating >= "@ + decimal(n as int);
    let values: Seq<Seq<char>> = Seq::empty();
    lemma_front_marks(less);
    assert(parts(more) =~= parts(less).update(8, seq![clause]));
    assert(where_texts(less) =~= u + w);
    assert(where_texts(more) =~= u + values + w);
    lemma_part_more(less, more, 8, clause, values, u, w);
}

/// Images of one watched folder are asked for.
#[verifier::rlimit(30)]
pub proof fn law_folder_adds_its_clause(less: Query, id: i64)
    requires
        less.folder_id is None,
    ensures
        asks_more(
            less,
            Query { folder_id: Some(id), ..less },
            "images.folder_id = "@ + decimal(id as int),
            Seq::empty(),
        ),
{
    let more = Query { folder_id: Some(id), ..less };
    let u = texts(less.include_tags@) + texts(less.exclude_tags@) + text_values(less);
    let w = prefix_values(less);
    let clause = "images.folder_id = "@ + decimal(id as int);
    let values: Seq<Seq<char>> = Seq::empty();
    lemma_front_marks(less);
    assert(parts(more) =~= parts(less).update(9, seq![clause]));
    assert(where_texts(less) =~= u + w);
    assert(where_texts(more) =~= u + values + w);
    lemma_part_more(less, more, 9, clause, values, u, w);
}

/// Images below a directory are asked for by the front of their paths.
#[verifier::rlimit(30)]
pub proof fn law_prefix_adds_its_clause(less: Query, prefix: String)
    requires
        less.path_prefix is None,
        prefix@.len() > 0,
    ensures
        asks_more(
            less,
            Query { path_prefix: Some(prefix), ..less },
            "substr(images.path, 1, length(?)) = ?"@,
            seq![prefix@, prefix@],
        ),
{
    let more = Query { path_prefix: Some(prefix), ..less };
    let u = texts(less.include_tags@) + texts(less.exclude_tags@) + text_values(less);
    let w = prefix_values(less);
    let clause = "substr(images.path, 1, length(?)) = ?"@;
    let values: Seq<Seq<char>> = seq![prefix@, prefix@];
    lemma_front_marks(less);
    assert(parts(more) =~= parts(less).update(10, seq![clause]));
    assert(where_texts(less) =~= u + w);
    assert(where_texts(more) =~= u + values + w);
    lemma_part_more(less, more, 10, clause, values, u, w);
}

/// What a search does not say adds nothing: one for images that need not be favourites,
/// for an empty text or for an empty prefix asks the same as one that does not speak of
/// them, and so does one in another order or for another page.
#[verifier::rlimit(30)]
pub proof fn law_what_is_not_said_adds_nothing(q: Query, sort: String, offset: i64, limit: i64)
    ensures
        q.favorite == Some(false) ==> same_condition(q, Query { favorite: None, ..q }),
        q.text is Some && q.text->0@.len() == 0 ==> same_condition(q, Query { text: None, ..q }),
        q.path_prefix is Some && q.path_prefix->0@.len() == 0 ==> same_condition(
            q,
            Query { path_prefix: None, ..q },
        ),
        same_condition(q, Query { sort, offset, limit, ..q }),
{
}

/// Whether two searches have one condition, with the same values.
pub open spec fn same_condition(a: Query, b: Query) -> bool {
    where_sql(a) == where_sql(b) && where_texts(a) == where_texts(b)
}

/// A search that says nothing asks for all images that are not rejected, and one for
/// rejects only for those that are.
pub proof fn law_rejects_are_apart(q: Query)
    requires
        q.include_tags@.len() == 0,
        q.exclude_tags@.len() == 0,
        q.text is None,
        q.favorite is None,
        q.min_rating is None,
        q.folder_id is None,
        q.path_prefix is None,
        q.album_id is None,
        q.in_album is None,
    ensures
        where_texts(q).len() == 0,
        !q.rejects ==> where_sql(q) == "images.hidden = 0"@,
        q.rejects ==> where_sql(q) == "images.hidden = 1"@,
{
    assert(where_clauses(q) =~= hidden_part(q));
}

/// Placeholders in a list stand with single commas between them.
pub proof fn law_placeholders_are_listed(n: nat)
    ensures
        n > 0 ==> marks(n).len() == 2 * n - 1,
        n == 0 ==> marks(n).len() == 0,
        forall|i: int| 0 <= i < marks(n).len() ==> #[trigger] marks(n)[i] == if i % 2 == 0 {
            '?'
        } else {
            ','
        },
    decreases n,
{
    reveal_strlit("?");
    reveal_strlit(",");
    let parts = Seq::new(n, |i: int| "?"@);
    if n > 1 {
        let m = (n - 1) as nat;
        law_placeholders_are_listed(m);
        assert(parts.drop_last() =~= Seq::new(m, |i: int| "?"@));
        assert(marks(n) == marks(m) + ","@ + "?"@);
    } else if n == 1 {
        assert(marks(n) == parts[0]);
    }
}

} // verus!
