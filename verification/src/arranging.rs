//! What holds of the near-duplicates that are found, said of the images in the groups.

use crate::dup::{distance, is_chain, is_closest, is_grouping, lists, linked, near};
use crate::dup::{lemma_distance_symmetric, lemma_near_linked};
use crate::duplicates::{
    are_sorted_groups, dup_groups, dup_models, duplicates_found, groups_found, groups_read, hashes_of, is_arrangement,
    is_keeper_order, is_member, is_newest_order, kept_before, lemma_members_prefix, member_request,
    members_of, members_read, newest, DupImage, DupModel, DupResult, DupRow, DupRowModel,
};
use crate::paths::{ends_in_name, final_part};
use crate::sql::{all_read, one_read, ErrKind, Event, ParamModel, Request};
use vstd::prelude::*;

verus! {

/// Whether a group has its favourites first, then the better rated, then the larger
/// files, then those indexed first.
pub open spec fn is_ranked(group: Seq<DupModel>) -> bool {
    forall|i: int, j: int|
        0 <= i < j < group.len() ==> {
            let a = (#[trigger] group[i]);
            let b = (#[trigger] group[j]);
            &&& b.row.favorite ==> a.row.favorite
            &&& a.row.favorite == b.row.favorite ==> a.row.rating >= b.row.rating
            &&& a.row.favorite == b.row.favorite && a.row.rating == b.row.rating ==> a.row.file_size
                >= b.row.file_size
            &&& a.row.favorite == b.row.favorite && a.row.rating == b.row.rating && a.row.file_size
                == b.row.file_size ==> a.id <= b.id
        }
}

/// Whether a group of images that is told has its favourites first, then the better
/// rated, then the larger files, then those indexed first.
pub open spec fn is_told_ranked(group: Seq<DupImage>) -> bool {
    forall|i: int, j: int|
        0 <= i < j < group.len() ==> {
            let a = (#[trigger] group[i]);
            let b = (#[trigger] group[j]);
            &&& b.favorite ==> a.favorite
            &&& a.favorite == b.favorite ==> a.rating >= b.rating
            &&& a.favorite == b.favorite && a.rating == b.rating ==> a.file_size >= b.file_size
            &&& a.favorite == b.favorite && a.rating == b.rating && a.file_size == b.file_size
                ==> a.id <= b.id
        }
}

/// What the search for near-duplicates came to, step by step.
spec fn came_to(
    rows: Seq<(i64, i64)>,
    max: u32,
    answers: Seq<Event>,
    groups: Seq<Seq<(usize, u32)>>,
    images: Seq<DupModel>,
    sorted: Seq<Seq<DupModel>>,
    out: Seq<Seq<DupModel>>,
) -> bool {
    &&& is_grouping(hashes_of(rows), max, groups)
    &&& members_read(rows, members_of(groups), answers, images)
    &&& are_sorted_groups(groups, images, sorted)
    &&& is_newest_order(sorted, out)
}

proof fn lemma_steps(
    before: Seq<Event>,
    after: Seq<Event>,
    max: u32,
    unhashed: i64,
    out: Seq<Seq<DupModel>>,
) -> (steps: (Seq<(i64, i64)>, Seq<Seq<(usize, u32)>>, Seq<DupModel>, Seq<Seq<DupModel>>))
    requires
        duplicates_found(before, after, max, Ok((unhashed, out))),
    ensures
        all_read::<(i64, i64)>(after[before.len() as int + 1].reply) == Ok::<
            Seq<(i64, i64)>,
            ErrKind,
        >(steps.0),
        came_to(
            steps.0,
            max,
            after.skip(before.len() as int + 3),
            steps.1,
            steps.2,
            steps.3,
            out,
        ),
{
    let n = before.len() as int;
    let rows = all_read::<(i64, i64)>(after[n + 1].reply)->Ok_0;
    let answers = after.skip(n + 3);
    let r = Ok::<Seq<Seq<DupModel>>, ErrKind>(out);
    assert(groups_found(rows, max, answers, r));
    let groups = choose|groups: Seq<Seq<(usize, u32)>>| #[trigger]
        is_grouping(hashes_of(rows), max, groups) && groups_read(rows, groups, answers, r);
    let images = choose|images: Seq<DupModel>| #[trigger]
        members_read(rows, members_of(groups), answers, images) && is_arrangement(
            groups,
            images,
            out,
        );
    let sorted = choose|sorted: Seq<Seq<DupModel>>| #[trigger]
        are_sorted_groups(groups, images, sorted) && is_newest_order(sorted, out);
    (rows, groups, images, sorted)
}

/// Where a group of the result stands among the groups that were found.
proof fn lemma_place(sorted: Seq<Seq<DupModel>>, out: Seq<Seq<DupModel>>, g: int) -> (s: int)
    requires
        is_newest_order(sorted, out),
        0 <= g < out.len(),
    ensures
        0 <= s < sorted.len(),
        sorted[s] == out[g],
{
    broadcast use vstd::seq_lib::group_to_multiset_ensures;

    assert(out.contains(out[g]));
    assert(out.to_multiset().count(out[g]) > 0);
    assert(sorted.contains(out[g]));
    choose|s: int| 0 <= s < sorted.len() && sorted[s] == out[g]
}

/// Where a group that was found stands in the result.
proof fn lemma_place_back(sorted: Seq<Seq<DupModel>>, out: Seq<Seq<DupModel>>, s: int) -> (g: int)
    requires
        is_newest_order(sorted, out),
        0 <= s < sorted.len(),
    ensures
        0 <= g < out.len(),
        out[g] == sorted[s],
{
    broadcast use vstd::seq_lib::group_to_multiset_ensures;

    assert(sorted.contains(sorted[s]));
    assert(sorted.to_multiset().count(sorted[s]) > 0);
    assert(out.contains(sorted[s]));
    choose|g: int| 0 <= g < out.len() && out[g] == sorted[s]
}

/// In every group that is found no other image stands before a favourite; among images
/// that agree on that, ratings do not rise; among those that agree on the rating too,
/// sizes do not rise; and among those that agree on all, numbers do not fall.
pub proof fn law_likely_keepers_come_first(
    before: Seq<Event>,
    after: Seq<Event>,
    max: u32,
    unhashed: i64,
    groups: Seq<Seq<DupModel>>,
)
    requires
        duplicates_found(before, after, max, Ok((unhashed, groups))),
    ensures
        forall|g: int| 0 <= g < groups.len() ==> is_ranked(#[trigger] groups[g]),
{
    let (rows, found, images, sorted) = lemma_steps(before, after, max, unhashed, groups);
    assert forall|g: int| 0 <= g < groups.len() implies is_ranked(#[trigger] groups[g]) by {
        let s = lemma_place(sorted, groups, g);
        let group = sorted[s];
        assert forall|i: int, j: int| 0 <= i < j < group.len() implies !kept_before(
            #[trigger] group[j],
            #[trigger] group[i],
        ) by {}
    }
}

/// The order in which a group is shown is the ranking of its fields, whatever the group.
pub proof fn law_keeper_order_is_the_ranking(group: Seq<DupModel>, out: Seq<DupModel>)
    requires
        out.to_multiset() == group.to_multiset(),
    ensures
        is_keeper_order(group, out) <==> is_ranked(out),
{
    if is_ranked(out) {
        assert forall|i: int, j: int| 0 <= i < j < out.len() implies !kept_before(
            #[trigger] out[j],
            #[trigger] out[i],
        ) by {}
    }
}

proof fn lemma_newest(group: Seq<DupModel>)
    requires
        group.len() > 0,
    ensures
        exists|a: int| 0 <= a < group.len() && (#[trigger] group[a]).row.file_mtime == newest(group),
        forall|a: int| 0 <= a < group.len() ==> (#[trigger] group[a]).row.file_mtime <= newest(group),
    decreases group.len(),
{
    let last = group.len() - 1;
    if group.len() == 1 {
        assert(group[last].row.file_mtime == newest(group));
    } else {
        let rest = group.drop_last();
        lemma_newest(rest);
        let a = choose|a: int|
            0 <= a < rest.len() && (#[trigger] rest[a]).row.file_mtime == newest(rest);
        assert(group[a] == rest[a]);
        assert(group[last] == group.last());
        assert forall|b: int| 0 <= b < group.len() implies (#[trigger] group[b]).row.file_mtime
            <= newest(group) by {
            if b < rest.len() {
                assert(rest[b] == group[b]);
            }
        }
    }
}

/// How many images a group that was found has.
proof fn lemma_group_sizes(
    groups: Seq<Seq<(usize, u32)>>,
    images: Seq<DupModel>,
    sorted: Seq<Seq<DupModel>>,
    s: int,
)
    requires
        are_sorted_groups(groups, images, sorted),
        images.len() == members_of(groups).len(),
        0 <= s < sorted.len(),
    ensures
        0 <= members_of(groups.take(s)).len(),
        members_of(groups.take(s + 1)).len() == members_of(groups.take(s)).len() + groups[s].len(),
        members_of(groups.take(s + 1)).len() <= images.len(),
        sorted[s].len() == groups[s].len(),
{
    broadcast use vstd::seq_lib::group_to_multiset_ensures;

    assert(groups.take(s + 1).drop_last() =~= groups.take(s));
    lemma_members_prefix(groups, s + 1, groups.len() as int);
    assert(groups.take(groups.len() as int) =~= groups);
    let from = members_of(groups.take(s)).len() as int;
    let to = members_of(groups.take(s + 1)).len() as int;
    let part = images.subrange(from, to);
    assert(is_keeper_order(part, sorted[s]));
    assert(part.len() == part.to_multiset().len());
    assert(sorted[s].len() == sorted[s].to_multiset().len());
}

/// Groups have two images at least, and those with newer images come first: for every
/// image there is one at least as new in each group before.
pub proof fn law_newest_groups_come_first(
    before: Seq<Event>,
    after: Seq<Event>,
    max: u32,
    unhashed: i64,
    groups: Seq<Seq<DupModel>>,
    g: int,
    h: int,
    b: int,
)
    requires
        duplicates_found(before, after, max, Ok((unhashed, groups))),
        0 <= g < h < groups.len(),
        0 <= b < groups[h].len(),
    ensures
        groups[g].len() >= 2,
        groups[h].len() >= 2,
        exists|a: int|
            0 <= a < groups[g].len() && (#[trigger] groups[g][a]).row.file_mtime
                >= groups[h][b].row.file_mtime,
{
    let (rows, found, images, sorted) = lemma_steps(before, after, max, unhashed, groups);
    let s = lemma_place(sorted, groups, g);
    let t = lemma_place(sorted, groups, h);
    lemma_group_sizes(found, images, sorted, s);
    lemma_group_sizes(found, images, sorted, t);
    assert(found[s].len() >= 2 && found[t].len() >= 2);
    lemma_newest(groups[g]);
    lemma_newest(groups[h]);
    assert(newest(groups[g]) >= newest(groups[h]));
    let a = choose|a: int|
        0 <= a < groups[g].len() && (#[trigger] groups[g][a]).row.file_mtime == newest(groups[g]);
    assert(groups[g][a].row.file_mtime >= groups[h][b].row.file_mtime);
}

/// Whether a group has the image with the given number.
pub open spec fn has_image(group: Seq<DupModel>, id: i64) -> bool {
    exists|a: int| 0 <= a < group.len() && (#[trigger] group[a]).id == id
}

/// A member of a group that was found is an image of the group in the result.
proof fn lemma_member_shown(
    rows: Seq<(i64, i64)>,
    answers: Seq<Event>,
    found: Seq<Seq<(usize, u32)>>,
    images: Seq<DupModel>,
    sorted: Seq<Seq<DupModel>>,
    s: int,
    k: int,
)
    requires
        members_read(rows, members_of(found), answers, images),
        are_sorted_groups(found, images, sorted),
        0 <= s < found.len(),
        0 <= k < found[s].len(),
    ensures
        has_image(sorted[s], rows[found[s][k].0 as int].0),
{
    broadcast use vstd::seq_lib::group_to_multiset_ensures;

    lemma_group_sizes(found, images, sorted, s);
    let from = members_of(found.take(s)).len() as int;
    let to = members_of(found.take(s + 1)).len() as int;
    assert(found.take(s + 1).drop_last() =~= found.take(s));
    assert(found.take(s + 1).last() == found[s]);
    lemma_members_prefix(found, s + 1, found.len() as int);
    assert(found.take(found.len() as int) =~= found);
    let at = from + k;
    assert(members_of(found.take(s + 1))[at] == found[s][k]);
    assert(members_of(found)[at] == members_of(found).take(to)[at]);
    assert(is_member(rows, members_of(found)[at], answers[at], images[at]));
    let part = images.subrange(from, to);
    assert(part[k] == images[at]);
    assert(part.contains(part[k]));
    assert(part.to_multiset().count(part[k]) > 0);
    assert(is_keeper_order(part, sorted[s]));
    assert(sorted[s].contains(part[k]));
    let a = choose|a: int| 0 <= a < sorted[s].len() && sorted[s][a] == part[k];
    assert(sorted[s][a].id == rows[found[s][k].0 as int].0);
}

/// Images whose hashes differ in at most the given number of bits are shown in one
/// group.
pub proof fn law_near_images_share_a_group(
    before: Seq<Event>,
    after: Seq<Event>,
    max: u32,
    unhashed: i64,
    groups: Seq<Seq<DupModel>>,
    rows: Seq<(i64, i64)>,
    i: int,
    j: int,
)
    requires
        duplicates_found(before, after, max, Ok((unhashed, groups))),
        all_read::<(i64, i64)>(after[before.len() as int + 1].reply) == Ok::<
            Seq<(i64, i64)>,
            ErrKind,
        >(rows),
        0 <= i < rows.len(),
        0 <= j < rows.len(),
        i != j,
        distance(rows[i].1, rows[j].1) <= max,
    ensures
        exists|g: int|
            0 <= g < groups.len() && has_image(#[trigger] groups[g], rows[i].0) && has_image(
                groups[g],
                rows[j].0,
            ),
{
    let (listed, found, images, sorted) = lemma_steps(before, after, max, unhashed, groups);
    let h = hashes_of(rows);
    assert(h[i] == rows[i].1 && h[j] == rows[j].1);
    lemma_distance_symmetric(h[i], h[j]);
    assert(near(h, max, i, j));
    assert(near(h, max, j, i));
    lemma_near_linked(h, max, i, j);
    let s = choose|g: int| 0 <= g < found.len() && lists(#[trigger] found[g], i);
    let t = choose|g: int| 0 <= g < found.len() && lists(#[trigger] found[g], j);
    let k = choose|k: int| 0 <= k < found[s].len() && (#[trigger] found[s][k]).0 == i;
    let l = choose|l: int| 0 <= l < found[t].len() && (#[trigger] found[t][l]).0 == j;
    assert(linked(h, max, found[s][k].0 as int, found[t][l].0 as int));
    assert(s == t);
    let answers = after.skip(before.len() as int + 3);
    lemma_member_shown(rows, answers, found, images, sorted, s, k);
    lemma_member_shown(rows, answers, found, images, sorted, s, l);
    let g = lemma_place_back(sorted, groups, s);
    assert(has_image(groups[g], rows[i].0) && has_image(groups[g], rows[j].0));
}

/// An image of the result is one of a group that was found.
proof fn lemma_shown_member(
    rows: Seq<(i64, i64)>,
    answers: Seq<Event>,
    found: Seq<Seq<(usize, u32)>>,
    images: Seq<DupModel>,
    sorted: Seq<Seq<DupModel>>,
    s: int,
    a: int,
) -> (k: int)
    requires
        members_read(rows, members_of(found), answers, images),
        are_sorted_groups(found, images, sorted),
        0 <= s < found.len(),
        0 <= a < sorted[s].len(),
    ensures
        0 <= k < found[s].len(),
        exists|answer: Event| #[trigger] is_member(rows, found[s][k], answer, sorted[s][a]),
{
    broadcast use vstd::seq_lib::group_to_multiset_ensures;

    lemma_group_sizes(found, images, sorted, s);
    let from = members_of(found.take(s)).len() as int;
    let to = members_of(found.take(s + 1)).len() as int;
    assert(found.take(s + 1).drop_last() =~= found.take(s));
    assert(found.take(s + 1).last() == found[s]);
    lemma_members_prefix(found, s + 1, found.len() as int);
    assert(found.take(found.len() as int) =~= found);
    let part = images.subrange(from, to);
    assert(is_keeper_order(part, sorted[s]));
    assert(sorted[s].contains(sorted[s][a]));
    assert(sorted[s].to_multiset().count(sorted[s][a]) > 0);
    assert(part.contains(sorted[s][a]));
    let k = choose|k: int| 0 <= k < part.len() && part[k] == sorted[s][a];
    let at = from + k;
    assert(members_of(found.take(s + 1))[at] == found[s][k]);
    assert(members_of(found)[at] == members_of(found).take(to)[at]);
    assert(is_member(rows, members_of(found)[at], answers[at], images[at]));
    k
}

/// Every image that is shown has a hash near that of another: it comes with the number
/// of bits in which the closest other hash differs, which is at most the given one.
pub proof fn law_shown_images_are_near_others(
    before: Seq<Event>,
    after: Seq<Event>,
    max: u32,
    unhashed: i64,
    groups: Seq<Seq<DupModel>>,
    rows: Seq<(i64, i64)>,
    g: int,
    a: int,
) -> (i: int)
    requires
        duplicates_found(before, after, max, Ok((unhashed, groups))),
        all_read::<(i64, i64)>(after[before.len() as int + 1].reply) == Ok::<
            Seq<(i64, i64)>,
            ErrKind,
        >(rows),
        0 <= g < groups.len(),
        0 <= a < groups[g].len(),
    ensures
        0 <= i < rows.len(),
        groups[g][a].id == rows[i].0,
        groups[g][a].distance <= max,
        forall|j: int|
            0 <= j < rows.len() && j != i ==> groups[g][a].distance <= distance(
                rows[i].1,
                (#[trigger] rows[j]).1,
            ),
        exists|j: int|
            0 <= j < rows.len() && j != i && groups[g][a].distance == distance(
                rows[i].1,
                (#[trigger] rows[j]).1,
            ),
{
    let (listed, found, images, sorted) = lemma_steps(before, after, max, unhashed, groups);
    let h = hashes_of(rows);
    let s = lemma_place(sorted, groups, g);
    let answers = after.skip(before.len() as int + 3);
    let k = lemma_shown_member(rows, answers, found, images, sorted, s, a);
    let answer = choose|answer: Event| #[trigger]
        is_member(rows, found[s][k], answer, sorted[s][a]);
    let i = found[s][k].0 as int;
    assert forall|j: int| 0 <= j < rows.len() implies #[trigger] h[j] == rows[j].1 by {}
    assert(is_closest(h, i, found[s][k].1));
    let j = choose|j: int| 0 <= j < h.len() && j != i && #[trigger] distance(h[i], h[j]) == found[s][k].1;
    assert(rows[j].1 == h[j]);
    assert forall|j: int| 0 <= j < rows.len() && j != i implies groups[g][a].distance <= distance(
        rows[i].1,
        (#[trigger] rows[j]).1,
    ) by {
        assert(distance(h[i], h[j]) == distance(rows[i].1, rows[j].1));
    }
    let l = if k == 0 {
        1int
    } else {
        0int
    };
    assert(found[s].len() >= 2);
    let other = found[s][l].0 as int;
    assert(other != i) by {
        if k == 0 {
            assert(found[s][0].0 < found[s][1].0);
        } else {
            assert(found[s][0].0 < found[s][k].0);
        }
    }
    assert(linked(h, max, found[s][k].0 as int, found[s][l].0 as int));
    let path = choose|path: Seq<int>| #[trigger]
        is_chain(h, max, path) && path[0] == i && path.last() == other;
    assert(path.len() > 1);
    assert(near(h, max, path[0], path[1]));
    assert(distance(h[i], h[path[1]]) <= max);
    i
}

/// The images of a group are read from the answers to requests for their own numbers,
/// and their names from their paths.
pub proof fn law_shown_images_are_asked_for(
    before: Seq<Event>,
    after: Seq<Event>,
    max: u32,
    unhashed: i64,
    groups: Seq<Seq<DupModel>>,
    g: int,
    a: int,
)
    requires
        duplicates_found(before, after, max, Ok((unhashed, groups))),
        0 <= g < groups.len(),
        0 <= a < groups[g].len(),
    ensures
        exists|p: int| #[trigger] is_answered(after, p, groups[g][a]),
        ends_in_name(groups[g][a].row.path) ==> groups[g][a].file_name == final_part(
            groups[g][a].row.path,
        ),
{
    broadcast use vstd::seq_lib::group_to_multiset_ensures;

    let (rows, found, images, sorted) = lemma_steps(before, after, max, unhashed, groups);
    let s = lemma_place(sorted, groups, g);
    let answers = after.skip(before.len() as int + 3);
    lemma_group_sizes(found, images, sorted, s);
    let from = members_of(found.take(s)).len() as int;
    let to = members_of(found.take(s + 1)).len() as int;
    let part = images.subrange(from, to);
    assert(is_keeper_order(part, sorted[s]));
    assert(sorted[s].contains(sorted[s][a]));
    assert(sorted[s].to_multiset().count(sorted[s][a]) > 0);
    assert(part.contains(sorted[s][a]));
    let k = choose|k: int| 0 <= k < part.len() && part[k] == sorted[s][a];
    let at = from + k;
    assert(is_member(rows, members_of(found)[at], answers[at], images[at]));
    assert(answers[at].request == member_request(rows, members_of(found)[at]));
    let p = before.len() as int + 3 + at;
    assert(after[p] == answers[at]);
    let id = rows[members_of(found)[at].0 as int].0;
    assert(after[p].request->Select_params =~= seq![ParamModel::Integer(id)]);
    assert(is_answered(after, p, groups[g][a]));
}

/// Whether the request at `p` asks for the columns of an image by its number, and is
/// answered with what is shown of it.
pub open spec fn is_answered(trace: Seq<Event>, p: int, image: DupModel) -> bool {
    &&& 0 <= p < trace.len()
    &&& trace[p].request == (Request::Select {
        sql: "SELECT path, width, height, file_size, file_mtime, seed, rating, favorite
         FROM images WHERE id = ?1"@,
        params: seq![ParamModel::Integer(image.id)],
    })
    &&& one_read::<DupRow>(trace[p].reply) == Ok::<DupRowModel, ErrKind>(image.row)
}

/// The same said of the images that are told: in every group no other image stands
/// before a favourite, and so on down to the numbers.
pub proof fn law_told_groups_are_ranked(
    before: Seq<Event>,
    after: Seq<Event>,
    max: u32,
    v: DupResult,
)
    requires
        duplicates_found(before, after, max, Ok((v.unhashed, dup_groups(v.groups@)))),
    ensures
        forall|g: int| 0 <= g < v.groups@.len() ==> is_told_ranked((#[trigger] v.groups@[g])@),
{
    let groups = dup_groups(v.groups@);
    law_likely_keepers_come_first(before, after, max, v.unhashed, groups);
    assert forall|g: int| 0 <= g < v.groups@.len() implies is_told_ranked(
        (#[trigger] v.groups@[g])@,
    ) by {
        let told = v.groups@[g]@;
        assert(groups[g] == dup_models(told));
        assert(is_ranked(groups[g]));
        assert forall|i: int, j: int| 0 <= i < j < told.len() implies {
            let a = (#[trigger] told[i]);
            let b = (#[trigger] told[j]);
            &&& b.favorite ==> a.favorite
            &&& a.favorite == b.favorite ==> a.rating >= b.rating
            &&& a.favorite == b.favorite && a.rating == b.rating ==> a.file_size >= b.file_size
            &&& a.favorite == b.favorite && a.rating == b.rating && a.file_size == b.file_size
                ==> a.id <= b.id
        } by {
            assert(groups[g][i] == told[i].model());
            assert(groups[g][j] == told[j].model());
        }
    }
}

/// An image that is told has what its row has.
pub proof fn law_told_images_have_their_rows(image: DupImage)
    ensures
        image.model().id == image.id,
        image.model().row.path == image.path@,
        image.model().row.width == image.width,
        image.model().row.height == image.height,
        image.model().row.file_size == image.file_size,
        image.model().row.file_mtime == image.file_mtime,
        image.model().row.seed == image.seed,
        image.model().row.rating == image.rating,
        image.model().row.favorite == image.favorite,
        image.model().file_name == image.file_name@,
        image.model().distance == image.distance,
{
}

/// The images that have no hash are counted first, then the hashes of the visible ones
/// are asked for; the count is told.
pub proof fn law_unhashed_images_are_counted(
    before: Seq<Event>,
    after: Seq<Event>,
    max: u32,
    unhashed: i64,
    groups: Seq<Seq<DupModel>>,
)
    requires
        duplicates_found(before, after, max, Ok((unhashed, groups))),
    ensures
        after[before.len() as int].request == (Request::Select {
            sql: "SELECT COUNT(*) FROM images WHERE hidden = 0 AND phash IS NULL"@,
            params: Seq::empty(),
        }),
        one_read::<i64>(after[before.len() as int].reply) == Ok::<i64, ErrKind>(unhashed),
        after[before.len() as int + 1].request == (Request::Select {
            sql: "SELECT id, phash FROM images WHERE hidden = 0 AND phash IS NOT NULL"@,
            params: Seq::empty(),
        }),
{
    let n = before.len() as int;
    assert(after[n].request->Select_params =~= Seq::<ParamModel>::empty());
    assert(after[n + 1].request->Select_params =~= Seq::<ParamModel>::empty());
}

/// Whether each hash of a chain differs from the next in at most the given number of
/// bits.
pub open spec fn is_near_chain(rows: Seq<(i64, i64)>, max: u32, chain: Seq<int>) -> bool {
    &&& chain.len() > 0
    &&& forall|k: int| 0 <= k < chain.len() ==> 0 <= #[trigger] chain[k] < rows.len()
    &&& forall|k: int|
        #![trigger chain[k]]
        0 <= k < chain.len() - 1 ==> distance(rows[chain[k]].1, rows[chain[k + 1]].1) <= max
}

/// The images of one group are connected: a chain of hashes, each near the next, leads
/// from one to the other.
pub proof fn law_groups_are_connected(
    before: Seq<Event>,
    after: Seq<Event>,
    max: u32,
    unhashed: i64,
    groups: Seq<Seq<DupModel>>,
    rows: Seq<(i64, i64)>,
    g: int,
    a: int,
    b: int,
) -> (chain: Seq<int>)
    requires
        duplicates_found(before, after, max, Ok((unhashed, groups))),
        all_read::<(i64, i64)>(after[before.len() as int + 1].reply) == Ok::<
            Seq<(i64, i64)>,
            ErrKind,
        >(rows),
        0 <= g < groups.len(),
        0 <= a < groups[g].len(),
        0 <= b < groups[g].len(),
    ensures
        is_near_chain(rows, max, chain),
        rows[chain[0]].0 == groups[g][a].id,
        rows[chain.last()].0 == groups[g][b].id,
{
    let (listed, found, images, sorted) = lemma_steps(before, after, max, unhashed, groups);
    let h = hashes_of(rows);
    let s = lemma_place(sorted, groups, g);
    let answers = after.skip(before.len() as int + 3);
    let k = lemma_shown_member(rows, answers, found, images, sorted, s, a);
    let l = lemma_shown_member(rows, answers, found, images, sorted, s, b);
    let i = found[s][k].0 as int;
    let j = found[s][l].0 as int;
    assert(linked(h, max, found[s][k].0 as int, found[s][l].0 as int));
    let chain = choose|path: Seq<int>| #[trigger]
        is_chain(h, max, path) && path[0] == i && path.last() == j;
    assert(is_near_chain(rows, max, chain)) by {
        assert forall|m: int| #![trigger chain[m]] 0 <= m < chain.len() - 1 implies distance(
            rows[chain[m]].1,
            rows[chain[m + 1]].1,
        ) <= max by {
            assert(near(h, max, chain[m], chain[m + 1]));
            assert(h[chain[m]] == rows[chain[m]].1);
            assert(h[chain[m + 1]] == rows[chain[m + 1]].1);
        }
    }
    chain
}

} // verus!
