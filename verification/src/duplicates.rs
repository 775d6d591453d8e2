//! Groups of near-duplicates, arranged for a decision on what to keep.

use crate::db::{name_or_empty, or_empty};
use crate::dup::{group_hashes, group_views, is_grouping};
use crate::paths::{file_name, is_base_name};
use crate::sql::{
    all_read, asked, done, one, one_read, param_models, row_models, select, Cell, CellModel, Db,
    DbError, ErrKind, Event, FromRow, Param, ParamModel, Request,
};
use crate::sql::{
    flag_in, int_in, opt_int_in, read_flag, read_int, read_opt_int, read_small, read_text, small_in,
    text_in,
};
use crate::text::opt_text;
use vstd::prelude::*;

verus! {

/// An image in a group.
pub struct DupImage {
    pub id: i64,
    pub path: String,
    pub file_name: String,
    pub width: u32,
    pub height: u32,
    pub file_size: i64,
    pub file_mtime: i64,
    pub seed: Option<i64>,
    pub rating: i64,
    pub favorite: bool,
    /// How many bits of the hash differ from the closest other member.
    pub distance: u32,
}

/// The groups that were found.
pub struct DupResult {
    /// The visible images that have no hash yet. Where there are some, groups may
    /// be incomplete.
    pub unhashed: i64,
    pub groups: Vec<Vec<DupImage>>,
}

/// The columns of an image in a group.
pub struct DupRow {
    pub path: String,
    pub width: u32,
    pub height: u32,
    pub file_size: i64,
    pub file_mtime: i64,
    pub seed: Option<i64>,
    pub rating: i64,
    pub favorite: bool,
}

/// The mathematical form of the columns.
pub struct DupRowModel {
    pub path: Seq<char>,
    pub width: u32,
    pub height: u32,
    pub file_size: i64,
    pub file_mtime: i64,
    pub seed: Option<i64>,
    pub rating: i64,
    pub favorite: bool,
}

/// The mathematical form of an image in a group.
pub struct DupModel {
    pub id: i64,
    pub row: DupRowModel,
    pub file_name: Seq<char>,
    pub distance: u32,
}

impl FromRow for DupRow {
    type M = DupRowModel;

    open spec fn row_model(self) -> DupRowModel {
        DupRowModel {
            path: self.path@,
            width: self.width,
            height: self.height,
            file_size: self.file_size,
            file_mtime: self.file_mtime,
            seed: self.seed,
            rating: self.rating,
            favorite: self.favorite,
        }
    }

    open spec fn decoded(row: Seq<CellModel>) -> Option<DupRowModel> {
        match (
            (text_in(row, 0), small_in(row, 1), small_in(row, 2), int_in(row, 3)),
            (int_in(row, 4), opt_int_in(row, 5), int_in(row, 6), flag_in(row, 7)),
        ) {
            (
                (Some(path), Some(width), Some(height), Some(file_size)),
                (Some(file_mtime), Some(seed), Some(rating), Some(favorite)),
            ) => Some(
                DupRowModel { path, width, height, file_size, file_mtime, seed, rating, favorite },
            ),
            _ => None,
        }
    }

    fn from_row(row: &Vec<Cell>) -> (r: Result<Self, DbError>) {
        match (
            (read_text(row, 0), read_small(row, 1), read_small(row, 2), read_int(row, 3)),
            (read_int(row, 4), read_opt_int(row, 5), read_int(row, 6), read_flag(row, 7)),
        ) {
            (
                (Some(path), Some(width), Some(height), Some(file_size)),
                (Some(file_mtime), Some(seed), Some(rating), Some(favorite)),
            ) => Ok(
                DupRow { path, width, height, file_size, file_mtime, seed, rating, favorite },
            ),
            _ => Err(DbError::Column),
        }
    }
}

impl DupImage {
    /// The mathematical form.
    pub open spec fn model(self) -> DupModel {
        DupModel {
            id: self.id,
            row: DupRowModel {
                path: self.path@,
                width: self.width,
                height: self.height,
                file_size: self.file_size,
                file_mtime: self.file_mtime,
                seed: self.seed,
                rating: self.rating,
                favorite: self.favorite,
            },
            file_name: self.file_name@,
            distance: self.distance,
        }
    }
}

/// The mathematical form of a group.
pub open spec fn dup_models(v: Seq<DupImage>) -> Seq<DupModel> {
    v.map_values(|x: DupImage| x.model())
}

/// The mathematical form of groups.
pub open spec fn dup_groups(v: Seq<Vec<DupImage>>) -> Seq<Seq<DupModel>> {
    v.map_values(|g: Vec<DupImage>| dup_models(g@))
}

/// Puts together an image in a group: its number, its columns, the final part of
/// its path, and its distance.
pub fn dup_image(id: i64, row: DupRow, name: Option<String>, distance: u32) -> (r: DupImage)
    ensures
        r.model() == (DupModel {
            id,
            row: row.row_model(),
            file_name: or_empty(opt_text(name)),
            distance,
        }),
{
    DupImage {
        id,
        path: row.path,
        file_name: name_or_empty(name),
        width: row.width,
        height: row.height,
        file_size: row.file_size,
        file_mtime: row.file_mtime,
        seed: row.seed,
        rating: row.rating,
        favorite: row.favorite,
        distance,
    }
}

// ---------------------------------------------------------------------------
// The order in a group
// ---------------------------------------------------------------------------

/// Whether `a` is the likelier to be kept: a favourite before others, then the
/// better rated, then the larger file, then the one indexed first.
pub open spec fn kept_before(a: DupModel, b: DupModel) -> bool {
    if a.row.favorite != b.row.favorite {
        a.row.favorite
    } else if a.row.rating != b.row.rating {
        a.row.rating > b.row.rating
    } else if a.row.file_size != b.row.file_size {
        a.row.file_size > b.row.file_size
    } else {
        a.id < b.id
    }
}

/// Whether `out` holds the images of `group`, the likeliest to be kept first.
pub open spec fn is_keeper_order(group: Seq<DupModel>, out: Seq<DupModel>) -> bool {
    &&& out.to_multiset() == group.to_multiset()
    &&& forall|i: int, j: int|
        0 <= i < j < out.len() ==> !kept_before(#[trigger] out[j], #[trigger] out[i])
}

/// Whether no two images of a group have the same number.
pub open spec fn has_distinct_ids(group: Seq<DupModel>) -> bool {
    forall|i: int, j: int|
        0 <= i < j < group.len() ==> (#[trigger] group[i]).id != (#[trigger] group[j]).id
}

/// A group of different images has one keeper order.
pub proof fn law_keeper_order_is_determined(
    group: Seq<DupModel>,
    a: Seq<DupModel>,
    b: Seq<DupModel>,
)
    requires
        has_distinct_ids(group),
        is_keeper_order(group, a),
        is_keeper_order(group, b),
    ensures
        a == b,
{
    lemma_distinct_in_order(group, a);
    lemma_distinct_in_order(group, b);
    broadcast use vstd::seq_lib::group_to_multiset_ensures;
    assert(a.len() == a.to_multiset().len());
    assert(b.len() == b.to_multiset().len());
    assert forall|x: DupModel| a.contains(x) == b.contains(x) by {
        assert(a.to_multiset().count(x) == b.to_multiset().count(x));
    }
    lemma_same_order(a, b, a.len() as int);
    assert(a =~= b);
}

proof fn lemma_distinct_in_order(group: Seq<DupModel>, out: Seq<DupModel>)
    requires
        has_distinct_ids(group),
        out.to_multiset() == group.to_multiset(),
    ensures
        has_distinct_ids(out),
{
    broadcast use vstd::seq_lib::group_to_multiset_ensures;
    assert(group.no_duplicates());
    group.lemma_multiset_has_no_duplicates();
    out.lemma_multiset_has_no_duplicates_conv();
    assert forall|i: int, j: int| 0 <= i < j < out.len() implies (#[trigger] out[i]).id != (
    #[trigger] out[j]).id by {
        assert(out[i] != out[j]);
        assert(out.to_multiset().count(out[i]) > 0);
        assert(out.to_multiset().count(out[j]) > 0);
        assert(group.contains(out[i]));
        assert(group.contains(out[j]));
        let p = choose|p: int| 0 <= p < group.len() && group[p] == out[i];
        let q = choose|q: int| 0 <= q < group.len() && group[q] == out[j];
        assert(p != q);
        if p < q {
            assert(group[p].id != group[q].id);
        } else {
            assert(group[q].id != group[p].id);
        }
    }
}

/// The first `n` images of two orders of the same images agree.
proof fn lemma_same_order(a: Seq<DupModel>, b: Seq<DupModel>, n: int)
    requires
        0 <= n <= a.len(),
        a.len() == b.len(),
        has_distinct_ids(a),
        has_distinct_ids(b),
        forall|x: DupModel| a.contains(x) == b.contains(x),
        forall|i: int, j: int|
            0 <= i < j < a.len() ==> !kept_before(#[trigger] a[j], #[trigger] a[i]),
        forall|i: int, j: int|
            0 <= i < j < b.len() ==> !kept_before(#[trigger] b[j], #[trigger] b[i]),
    ensures
        forall|i: int| 0 <= i < n ==> a[i] == #[trigger] b[i],
    decreases n,
{
    if n > 0 {
        let k = n - 1;
        lemma_same_order(a, b, k);
        assert(a.contains(a[k]));
        assert(b.contains(a[k]));
        let j = choose|j: int| 0 <= j < b.len() && b[j] == a[k];
        assert(b.contains(b[k]));
        assert(a.contains(b[k]));
        let i = choose|i: int| 0 <= i < a.len() && a[i] == b[k];
        if j < k {
            assert(a[j] == b[j]);
            assert(a[j].id != a[k].id);
        } else if i < k {
            assert(a[i] == b[i]);
            assert(b[i].id != b[k].id);
        } else if j > k && i > k {
            assert(!kept_before(b[j], b[k]));
            assert(!kept_before(a[i], a[k]));
            assert(a[k].id != a[i].id);
        }
    }
}

/// Whether `a` is the likelier to be kept.
fn is_kept_before(a: &DupImage, b: &DupImage) -> (r: bool)
    ensures
        r == kept_before(a.model(), b.model()),
{
    if a.favorite != b.favorite {
        a.favorite
    } else if a.rating != b.rating {
        a.rating > b.rating
    } else if a.file_size != b.file_size {
        a.file_size > b.file_size
    } else {
        a.id < b.id
    }
}

/// The images of a group, the likeliest to be kept first.
pub fn keepers_first(group: Vec<DupImage>) -> (r: Vec<DupImage>)
    ensures
        is_keeper_order(dup_models(group@), dup_models(r@)),
{
    let ghost all = dup_models(group@);
    let ghost given = group@;
    let mut out: Vec<DupImage> = Vec::new();
    assert(dup_models(out@) =~= all.take(0));
    for x in it: group
        invariant
            it.seq() == given,
            all == dup_models(given),
            is_keeper_order(all.take(it.index()), dup_models(out@)),
    {
        let ghost at = it.index();
        let ghost before = dup_models(out@);
        let mut i: usize = out.len();
        while i > 0 && is_kept_before(&x, &out[i - 1])
            invariant
                i <= out@.len(),
                before == dup_models(out@),
                forall|k: int| i <= k < before.len() ==> kept_before(x.model(), #[trigger] before[k]),
            decreases i,
        {
            i -= 1;
        }
        let ghost m = x.model();
        out.insert(i, x);
        proof {
            assert(dup_models(out@) =~= before.insert(i as int, m));
            assert(all.take(at + 1) =~= all.take(at).push(all[at]));
            broadcast use vstd::seq_lib::group_to_multiset_ensures;
            let after = before.insert(i as int, m);
            assert forall|a: int, b: int| 0 <= a < b < after.len() implies !kept_before(
                #[trigger] after[b],
                #[trigger] after[a],
            ) by {
                if a < i && b == i {
                    assert(!kept_before(m, before[i - 1]));
                    assert(!kept_before(before[i - 1], before[a]) || a == i - 1);
                } else if a == i {
                    assert(kept_before(m, before[b - 1]));
                } else {
                    let c = if a < i {
                        a
                    } else {
                        a - 1
                    };
                    let d = if b < i {
                        b
                    } else {
                        b - 1
                    };
                    assert(!kept_before(before[d], before[c]));
                }
            }
        }
    }
    assert(all.take(all.len() as int) =~= all);
    out
}

// ---------------------------------------------------------------------------
// The order of the groups
// ---------------------------------------------------------------------------

/// The time of the newest image of a group, or zero where there is none.
pub open spec fn newest(group: Seq<DupModel>) -> i64
    decreases group.len(),
{
    if group.len() == 0 {
        0
    } else if group.len() == 1 || group.last().row.file_mtime > newest(group.drop_last()) {
        group.last().row.file_mtime
    } else {
        newest(group.drop_last())
    }
}

/// Whether `out` holds the groups, those with the newest images first.
pub open spec fn is_newest_order(groups: Seq<Seq<DupModel>>, out: Seq<Seq<DupModel>>) -> bool {
    &&& out.to_multiset() == groups.to_multiset()
    &&& forall|i: int, j: int|
        0 <= i < j < out.len() ==> newest(#[trigger] out[i]) >= newest(#[trigger] out[j])
}

/// The time of the newest image of a group.
fn newest_of(group: &Vec<DupImage>) -> (r: i64)
    ensures
        r == newest(dup_models(group@)),
{
    let ghost all = dup_models(group@);
    if group.len() == 0 {
        return 0;
    }
    let mut best: i64 = group[0].file_mtime;
    assert(all.take(1).last() == group@[0].model());
    let mut i: usize = 1;
    while i < group.len()
        invariant
            1 <= i <= group@.len(),
            all == dup_models(group@),
            best == newest(all.take(i as int)),
        decreases group@.len() - i,
    {
        let t = group[i].file_mtime;
        if t > best {
            best = t;
        }
        i += 1;
        assert(all.take(i as int).drop_last() =~= all.take(i - 1));
        assert(all.take(i as int).last() == group@[i - 1].model());
    }
    assert(all.take(all.len() as int) =~= all);
    best
}

/// The groups, those with the newest images first.
pub fn newest_first(groups: Vec<Vec<DupImage>>) -> (r: Vec<Vec<DupImage>>)
    ensures
        is_newest_order(dup_groups(groups@), dup_groups(r@)),
{
    let ghost all = dup_groups(groups@);
    let ghost given = groups@;
    let mut out: Vec<Vec<DupImage>> = Vec::new();
    assert(dup_groups(out@) =~= all.take(0));
    for x in it: groups
        invariant
            it.seq() == given,
            all == dup_groups(given),
            is_newest_order(all.take(it.index()), dup_groups(out@)),
    {
        let ghost at = it.index();
        let ghost before = dup_groups(out@);
        let t = newest_of(&x);
        let mut i: usize = out.len();
        while i > 0 && newest_of(&out[i - 1]) < t
            invariant
                i <= out@.len(),
                before == dup_groups(out@),
                forall|k: int| i <= k < before.len() ==> newest(#[trigger] before[k]) < t,
            decreases i,
        {
            i -= 1;
        }
        let ghost m = dup_models(x@);
        out.insert(i, x);
        proof {
            assert(dup_groups(out@) =~= before.insert(i as int, m));
            assert(all.take(at + 1) =~= all.take(at).push(all[at]));
            broadcast use vstd::seq_lib::group_to_multiset_ensures;
            let after = before.insert(i as int, m);
            assert forall|a: int, b: int| 0 <= a < b < after.len() implies newest(
                #[trigger] after[a],
            ) >= newest(#[trigger] after[b]) by {
                if a < i && b == i {
                    assert(newest(before[a]) >= newest(before[i - 1]) || a == i - 1);
                } else if a == i {
                    assert(newest(before[b - 1]) < t);
                } else {
                    let c = if a < i {
                        a
                    } else {
                        a - 1
                    };
                    let d = if b < i {
                        b
                    } else {
                        b - 1
                    };
                    assert(newest(before[c]) >= newest(before[d]));
                }
            }
        }
    }
    assert(all.take(all.len() as int) =~= all);
    out
}

// ---------------------------------------------------------------------------
// Finding
// ---------------------------------------------------------------------------

/// Counts the visible images without a hash.
pub const UNHASHED_SQL: &'static str = "SELECT COUNT(*) FROM images WHERE hidden = 0 AND phash IS NULL";

/// Selects the hashes of the visible images.
pub const HASHES_SQL: &'static str = "SELECT id, phash FROM images WHERE hidden = 0 AND phash IS NOT NULL";

/// Selects the columns of an image in a group.
pub const MEMBER_SQL: &'static str = "SELECT path, width, height, file_size, file_mtime, seed, rating, favorite
         FROM images WHERE id = ?1";

/// The hashes in rows of numbers and hashes.
pub open spec fn hashes_of(rows: Seq<(i64, i64)>) -> Seq<i64> {
    rows.map_values(|row: (i64, i64)| row.1)
}

/// The members of groups, one group after the other.
pub open spec fn members_of(groups: Seq<Seq<(usize, u32)>>) -> Seq<(usize, u32)>
    decreases groups.len(),
{
    if groups.len() == 0 {
        Seq::empty()
    } else {
        members_of(groups.drop_last()) + groups.last()
    }
}

/// The request for a member.
pub open spec fn member_request(rows: Seq<(i64, i64)>, member: (usize, u32)) -> Request {
    select(MEMBER_SQL@, seq![ParamModel::Integer(rows[member.0 as int].0)])
}

/// Whether `image` is a member with the columns of an answer.
pub open spec fn is_member(
    rows: Seq<(i64, i64)>,
    member: (usize, u32),
    answer: Event,
    image: DupModel,
) -> bool {
    &&& one_read::<DupRow>(answer.reply) == Ok::<DupRowModel, ErrKind>(image.row)
    &&& image.id == rows[member.0 as int].0
    &&& image.distance == member.1
    &&& exists|name: Option<Seq<char>>| #[trigger]
        is_base_name(image.row.path, name) && image.file_name == or_empty(name)
}

/// Whether the members were asked for one after the other, and `images` are what
/// the answers come to.
pub open spec fn members_read(
    rows: Seq<(i64, i64)>,
    members: Seq<(usize, u32)>,
    answers: Seq<Event>,
    images: Seq<DupModel>,
) -> bool {
    &&& answers.len() == members.len()
    &&& images.len() == members.len()
    &&& forall|k: int|
        0 <= k < members.len() ==> (#[trigger] answers[k]).request == member_request(
            rows,
            members[k],
        )
    &&& forall|k: int|
        0 <= k < members.len() ==> is_member(rows, members[k], answers[k], #[trigger] images[k])
}

/// Whether asking for members stopped at one that could not be read.
pub open spec fn member_failed(
    rows: Seq<(i64, i64)>,
    members: Seq<(usize, u32)>,
    answers: Seq<Event>,
    k: ErrKind,
) -> bool {
    let n = answers.len() - 1;
    &&& 0 <= n < members.len()
    &&& exists|images: Seq<DupModel>| #[trigger]
        members_read(rows, members.take(n), answers.take(n), images)
    &&& answers[n].request == member_request(rows, members[n])
    &&& one_read::<DupRow>(answers[n].reply) == Err::<DupRowModel, ErrKind>(k)
}

/// Whether `out` holds the images of groups, given one group after the other, with
/// the likeliest to be kept first in each group, and the newest groups first.
pub open spec fn is_arrangement(
    groups: Seq<Seq<(usize, u32)>>,
    images: Seq<DupModel>,
    out: Seq<Seq<DupModel>>,
) -> bool {
    exists|sorted: Seq<Seq<DupModel>>| #[trigger]
        are_sorted_groups(groups, images, sorted) && is_newest_order(sorted, out)
}

/// Whether `sorted` holds the images of each group in keeper order.
pub open spec fn are_sorted_groups(
    groups: Seq<Seq<(usize, u32)>>,
    images: Seq<DupModel>,
    sorted: Seq<Seq<DupModel>>,
) -> bool {
    &&& sorted.len() == groups.len()
    &&& forall|g: int|
        0 <= g < groups.len() ==> is_keeper_order(
            images.subrange(
                members_of(groups.take(g)).len() as int,
                members_of(groups.take(g + 1)).len() as int,
            ),
            #[trigger] sorted[g],
        )
}

/// Whether the members of groups were asked for, and `r` is what came of it.
pub open spec fn groups_read(
    rows: Seq<(i64, i64)>,
    groups: Seq<Seq<(usize, u32)>>,
    answers: Seq<Event>,
    r: Result<Seq<Seq<DupModel>>, ErrKind>,
) -> bool {
    let members = members_of(groups);
    match r {
        Ok(out) => exists|images: Seq<DupModel>| #[trigger]
            members_read(rows, members, answers, images) && is_arrangement(groups, images, out),
        Err(k) => member_failed(rows, members, answers, k),
    }
}

/// The mathematical form of what was found.
pub open spec fn found_model(r: Result<DupResult, DbError>) -> Result<
    (i64, Seq<Seq<DupModel>>),
    ErrKind,
> {
    match r {
        Ok(v) => Ok((v.unhashed, dup_groups(v.groups@))),
        Err(e) => Err(e.kind()),
    }
}

/// Whether near-duplicates were looked for: the images without a hash are counted,
/// the hashes are asked for and grouped, and the members are asked for.
pub open spec fn duplicates_found(
    before: Seq<Event>,
    after: Seq<Event>,
    max: u32,
    r: Result<(i64, Seq<Seq<DupModel>>), ErrKind>,
) -> bool {
    let n = before.len() as int;
    &&& after.len() > n
    &&& after.take(n) == before
    &&& after[n].request == select(UNHASHED_SQL@, Seq::empty())
    &&& match one_read::<i64>(after[n].reply) {
        Err(k) => after.len() == n + 1 && r == Err::<(i64, Seq<Seq<DupModel>>), ErrKind>(k),
        Ok(unhashed) => {
            &&& after.len() > n + 1
            &&& after[n + 1].request == select(HASHES_SQL@, Seq::empty())
            &&& match all_read::<(i64, i64)>(after[n + 1].reply) {
                Err(k) => after.len() == n + 2 && r == Err::<(i64, Seq<Seq<DupModel>>), ErrKind>(k),
                Ok(rows) => {
                    &&& after.len() > n + 2
                    &&& after[n + 2].request == (Request::Prepare { sql: MEMBER_SQL@ })
                    &&& match done(after[n + 2].reply) {
                        Err(k) => after.len() == n + 3 && r == Err::<
                            (i64, Seq<Seq<DupModel>>),
                            ErrKind,
                        >(k),
                        Ok(_) => match r {
                            Ok(found) => found.0 == unhashed && groups_found(
                                rows,
                                max,
                                after.skip(n + 3),
                                Ok(found.1),
                            ),
                            Err(k) => groups_found(rows, max, after.skip(n + 3), Err(k)),
                        },
                    }
                },
            }
        },
    }
}

/// Whether the hashes were grouped and the members asked for.
pub open spec fn groups_found(
    rows: Seq<(i64, i64)>,
    max: u32,
    answers: Seq<Event>,
    r: Result<Seq<Seq<DupModel>>, ErrKind>,
) -> bool {
    exists|groups: Seq<Seq<(usize, u32)>>| #[trigger]
        is_grouping(hashes_of(rows), max, groups) && groups_read(rows, groups, answers, r)
}

/// Asks for one member.
fn read_member(db: &mut Db, id: i64, distance: u32) -> (r: Result<DupImage, DbError>)
    ensures
        asked(
            old(db).trace(),
            final(db).trace(),
            select(MEMBER_SQL@, seq![ParamModel::Integer(id)]),
        ),
        match r {
            Ok(image) => {
                &&& one_read::<DupRow>(final(db).last_reply()) == Ok::<DupRowModel, ErrKind>(
                    image.model().row,
                )
                &&& image.id == id
                &&& image.distance == distance
                &&& exists|name: Option<Seq<char>>| #[trigger]
                    is_base_name(image.model().row.path, name) && image.model().file_name == or_empty(
                        name,
                    )
            },
            Err(e) => one_read::<DupRow>(final(db).last_reply()) == Err::<DupRowModel, ErrKind>(
                e.kind(),
            ),
        },
{
    let params = one(Param::Integer(id));
    match db.query_row::<DupRow>(MEMBER_SQL, &params) {
        Ok(row) => {
            let name = file_name(row.path.as_str());
            let image = dup_image(id, row, name, distance);
            assert(is_base_name(image.model().row.path, opt_text(name)));
            Ok(image)
        },
        Err(e) => Err(e),
    }
}

/// Asks for the members of a group.
fn read_group(db: &mut Db, rows: &Vec<(i64, i64)>, members: &Vec<(usize, u32)>) -> (r: Result<
    Vec<DupImage>,
    DbError,
>)
    requires
        forall|k: int| 0 <= k < members@.len() ==> (#[trigger] members@[k]).0 < rows@.len(),
    ensures
        final(db).trace().len() >= old(db).trace().len(),
        final(db).trace().take(old(db).trace().len() as int) == old(db).trace(),
        match r {
            Ok(v) => members_read(
                rows@,
                members@,
                final(db).trace().skip(old(db).trace().len() as int),
                dup_models(v@),
            ),
            Err(e) => member_failed(
                rows@,
                members@,
                final(db).trace().skip(old(db).trace().len() as int),
                e.kind(),
            ),
        },
{
    let ghost start = db.trace();
    let ghost n = start.len() as int;
    let mut out: Vec<DupImage> = Vec::new();
    let mut i: usize = 0;
    proof {
        assert(start.take(n) =~= start);
        assert(start.skip(n) =~= Seq::<Event>::empty());
        assert(dup_models(out@) =~= Seq::<DupModel>::empty());
        assert(members@.take(0) =~= Seq::<(usize, u32)>::empty());
    }
    while i < members.len()
        invariant
            i <= members@.len(),
            n == start.len(),
            start == old(db).trace(),
            forall|k: int| 0 <= k < members@.len() ==> (#[trigger] members@[k]).0 < rows@.len(),
            db.trace().len() == n + i,
            db.trace().take(n) == start,
            members_read(rows@, members@.take(i as int), db.trace().skip(n), dup_models(out@)),
        decreases members@.len() - i,
    {
        let ghost mid = db.trace();
        let ghost images = dup_models(out@);
        let (idx, distance) = members[i];
        let r = read_member(db, rows[idx].0, distance);
        let ghost answers = db.trace().skip(n);
        proof {
            assert(db.trace().take(n) =~= mid.take(n));
            assert(answers =~= mid.skip(n).push(db.trace().last()));
            assert(answers.take(i as int) =~= mid.skip(n));
        }
        match r {
            Ok(image) => {
                let ghost m = image.model();
                out.push(image);
                proof {
                    assert(dup_models(out@) =~= images.push(m));
                    assert(is_member(rows@, members@[i as int], answers[i as int], m));
                    assert(members@.take(i + 1) =~= members@.take(i as int).push(
                        members@[i as int],
                    ));
                    lemma_member_push(
                        rows@,
                        members@.take(i as int),
                        mid.skip(n),
                        images,
                        members@[i as int],
                        db.trace().last(),
                        m,
                    );
                }
            },
            Err(e) => {
                assert(members_read(rows@, members@.take(i as int), answers.take(i as int), images));
                return Err(e);
            },
        }
        i += 1;
    }
    assert(members@.take(members@.len() as int) =~= members@);
    Ok(out)
}

proof fn lemma_member_push(
    rows: Seq<(i64, i64)>,
    members: Seq<(usize, u32)>,
    answers: Seq<Event>,
    images: Seq<DupModel>,
    member: (usize, u32),
    answer: Event,
    image: DupModel,
)
    requires
        members_read(rows, members, answers, images),
        answer.request == member_request(rows, member),
        is_member(rows, member, answer, image),
    ensures
        members_read(rows, members.push(member), answers.push(answer), images.push(image)),
{
    let m = members.push(member);
    let a = answers.push(answer);
    let v = images.push(image);
    assert forall|k: int| 0 <= k < m.len() implies is_member(rows, m[k], a[k], #[trigger] v[k]) by {
        if k < members.len() {
            assert(is_member(rows, members[k], answers[k], images[k]));
        }
    }
    assert forall|k: int| 0 <= k < m.len() implies (#[trigger] a[k]).request == member_request(
        rows,
        m[k],
    ) by {
        if k < members.len() {
            assert(answers[k].request == member_request(rows, members[k]));
        }
    }
}

proof fn lemma_member_concat(
    rows: Seq<(i64, i64)>,
    ma: Seq<(usize, u32)>,
    aa: Seq<Event>,
    va: Seq<DupModel>,
    mb: Seq<(usize, u32)>,
    ab: Seq<Event>,
    vb: Seq<DupModel>,
)
    requires
        members_read(rows, ma, aa, va),
        members_read(rows, mb, ab, vb),
    ensures
        members_read(rows, ma + mb, aa + ab, va + vb),
{
    let m = ma + mb;
    let a = aa + ab;
    let v = va + vb;
    assert forall|k: int| 0 <= k < m.len() implies is_member(rows, m[k], a[k], #[trigger] v[k]) by {
        if k < ma.len() {
            assert(is_member(rows, ma[k], aa[k], va[k]));
        } else {
            assert(is_member(rows, mb[k - ma.len()], ab[k - ma.len()], vb[k - ma.len()]));
        }
    }
    assert forall|k: int| 0 <= k < m.len() implies (#[trigger] a[k]).request == member_request(
        rows,
        m[k],
    ) by {
        if k < ma.len() {
            assert(aa[k].request == member_request(rows, ma[k]));
        } else {
            assert(ab[k - ma.len()].request == member_request(rows, mb[k - ma.len()]));
        }
    }
}

/// The members of the first groups come first.
pub proof fn lemma_members_prefix(groups: Seq<Seq<(usize, u32)>>, g: int, h: int)
    requires
        0 <= g <= h <= groups.len(),
    ensures
        members_of(groups.take(g)).len() <= members_of(groups.take(h)).len(),
        members_of(groups.take(h)).take(members_of(groups.take(g)).len() as int) == members_of(
            groups.take(g),
        ),
        g < groups.len() ==> members_of(groups.take(g + 1)) == members_of(groups.take(g))
            + groups[g],
    decreases h - g,
{
    if g < groups.len() {
        assert(groups.take(g + 1).drop_last() =~= groups.take(g));
        assert(groups.take(g + 1).last() == groups[g]);
    }
    let front = members_of(groups.take(g));
    if g < h {
        lemma_members_prefix(groups, g, h - 1);
        assert(groups.take(h).drop_last() =~= groups.take(h - 1));
        assert(members_of(groups.take(h)).take(front.len() as int) =~= members_of(
            groups.take(h - 1),
        ).take(front.len() as int));
    } else {
        assert(front.take(front.len() as int) =~= front);
    }
}

/// Asks for the members of groups, and arranges them.
fn read_groups(db: &mut Db, rows: &Vec<(i64, i64)>, groups: &Vec<Vec<(usize, u32)>>) -> (r: Result<
    Vec<Vec<DupImage>>,
    DbError,
>)
    requires
        forall|g: int, k: int|
            0 <= g < groups@.len() && 0 <= k < groups@[g]@.len() ==> (#[trigger] groups@[g]@[k]).0
                < rows@.len(),
    ensures
        final(db).trace().len() >= old(db).trace().len(),
        final(db).trace().take(old(db).trace().len() as int) == old(db).trace(),
        match r {
            Ok(v) => groups_read(
                rows@,
                group_views(groups@),
                final(db).trace().skip(old(db).trace().len() as int),
                Ok(dup_groups(v@)),
            ),
            Err(e) => groups_read(
                rows@,
                group_views(groups@),
                final(db).trace().skip(old(db).trace().len() as int),
                Err(e.kind()),
            ),
        },
{
    let ghost start = db.trace();
    let ghost n = start.len() as int;
    let ghost gs = group_views(groups@);
    let ghost mut images: Seq<DupModel> = Seq::empty();
    let mut out: Vec<Vec<DupImage>> = Vec::new();
    let mut g: usize = 0;
    proof {
        assert(start.take(n) =~= start);
        assert(start.skip(n) =~= Seq::<Event>::empty());
        assert(gs.take(0) =~= Seq::<Seq<(usize, u32)>>::empty());
    }
    while g < groups.len()
        invariant
            g <= groups@.len(),
            n == start.len(),
            start == old(db).trace(),
            gs == group_views(groups@),
            forall|g: int, k: int|
                0 <= g < groups@.len() && 0 <= k < groups@[g]@.len() ==> (
                #[trigger] groups@[g]@[k]).0 < rows@.len(),
            db.trace().len() >= n,
            db.trace().take(n) == start,
            out@.len() == g,
            members_read(rows@, members_of(gs.take(g as int)), db.trace().skip(n), images),
            forall|h: int|
                0 <= h < g ==> is_keeper_order(
                    images.subrange(
                        members_of(gs.take(h)).len() as int,
                        members_of(gs.take(h + 1)).len() as int,
                    ),
                    dup_models((#[trigger] out@[h])@),
                ),
        decreases groups@.len() - g,
    {
        let ghost mid = db.trace();
        let ghost front = members_of(gs.take(g as int));
        let ghost before = images;
        proof {
            assert(gs[g as int] == groups@[g as int]@);
            lemma_members_prefix(gs, g as int, gs.len() as int);
            assert(gs.take(gs.len() as int) =~= gs);
        }
        let r = read_group(db, rows, &groups[g]);
        let ghost fresh = db.trace().skip(mid.len() as int);
        proof {
            assert(db.trace().take(n) =~= db.trace().take(mid.len() as int).take(n));
            assert(db.trace().skip(n) =~= mid.skip(n) + fresh) by {
                assert(db.trace().take(mid.len() as int) == mid);
                assert forall|k: int| n <= k < mid.len() implies db.trace()[k] == #[trigger] mid[k] by {
                    assert(db.trace().take(mid.len() as int)[k] == db.trace()[k]);
                }
            }
        }
        match r {
            Ok(group) => {
                let ghost models = dup_models(group@);
                proof {
                    lemma_member_concat(
                        rows@,
                        front,
                        mid.skip(n),
                        before,
                        gs[g as int],
                        fresh,
                        models,
                    );
                    images = before + models;
                    assert forall|h: int| 0 <= h < g implies before.subrange(
                        members_of(gs.take(h)).len() as int,
                        members_of(gs.take(h + 1)).len() as int,
                    ) == #[trigger] images.subrange(
                        members_of(gs.take(h)).len() as int,
                        members_of(gs.take(h + 1)).len() as int,
                    ) by {
                        lemma_members_prefix(gs, h, h + 1);
                        lemma_members_prefix(gs, h + 1, g as int);
                        assert(before.subrange(
                            members_of(gs.take(h)).len() as int,
                            members_of(gs.take(h + 1)).len() as int,
                        ) =~= images.subrange(
                            members_of(gs.take(h)).len() as int,
                            members_of(gs.take(h + 1)).len() as int,
                        ));
                    }
                    assert(images.subrange(
                        front.len() as int,
                        members_of(gs.take(g + 1)).len() as int,
                    ) =~= models);
                }
                out.push(keepers_first(group));
            },
            Err(e) => {
                proof {
                    let answers = db.trace().skip(n);
                    let members = members_of(gs);
                    let last = answers.len() - 1;
                    let f = fresh.len() - 1;
                    let some = choose|v: Seq<DupModel>| #[trigger]
                        members_read(rows@, gs[g as int].take(f), fresh.take(f), v);
                    lemma_member_concat(
                        rows@,
                        front,
                        mid.skip(n),
                        before,
                        gs[g as int].take(f),
                        fresh.take(f),
                        some,
                    );
                    lemma_members_prefix(gs, g + 1, gs.len() as int);
                    let upto = members_of(gs.take(g + 1));
                    assert(members.take(upto.len() as int) == upto);
                    assert(members.take(last) =~= front + gs[g as int].take(f)) by {
                        assert(members.take(last) =~= upto.take(last));
                    }
                    assert(members[last] == upto[last]);
                    assert(answers.take(last) =~= mid.skip(n) + fresh.take(f));
                    assert(members_read(
                        rows@,
                        members.take(last),
                        answers.take(last),
                        before + some,
                    ));
                }
                return Err(e);
            },
        }
        g += 1;
    }
    let ghost sorted = dup_groups(out@);
    let arranged = newest_first(out);
    proof {
        assert(gs.take(gs.len() as int) =~= gs);
        assert(are_sorted_groups(gs, images, sorted));
        assert(is_arrangement(gs, images, dup_groups(arranged@)));
        assert(members_read(rows@, members_of(gs), db.trace().skip(n), images));
    }
    Ok(arranged)
}

/// Finds the near-duplicates among the visible images: those whose hashes differ in
/// at most `max_distance` bits, directly or by way of others.
pub fn find_duplicates(db: &mut Db, max_distance: u32) -> (r: Result<DupResult, DbError>)
    ensures
        duplicates_found(old(db).trace(), final(db).trace(), max_distance, found_model(r)),
{
    let ghost n = old(db).trace().len() as int;
    let none: Vec<Param> = Vec::new();
    assert(param_models(none@) =~= Seq::<ParamModel>::empty());
    let counted = db.query_row::<i64>(UNHASHED_SQL, &none);
    let ghost t1 = db.trace();
    assert(t1.take(n) =~= old(db).trace());
    let unhashed = match counted {
        Ok(unhashed) => unhashed,
        Err(e) => {
            return Err(e);
        },
    };
    let listed = db.query_all::<(i64, i64)>(HASHES_SQL, &none);
    let ghost t2 = db.trace();
    assert(t2.take(n) =~= old(db).trace());
    assert(t2[n] == t1[n]);
    let rows = match listed {
        Ok(rows) => rows,
        Err(e) => {
            return Err(e);
        },
    };
    assert(row_models(rows@) =~= rows@);
    let prepared = db.prepare(MEMBER_SQL);
    let ghost t3 = db.trace();
    proof {
        assert(t3.take(n) =~= old(db).trace());
        assert(t3[n] == t1[n]);
        assert(t3[n + 1] == t2[n + 1]);
    }
    if let Err(e) = prepared {
        return Err(e);
    }
    let mut hashes: Vec<i64> = Vec::new();
    let mut i: usize = 0;
    while i < rows.len()
        invariant
            i <= rows@.len(),
            hashes@.len() == i,
            forall|k: int| 0 <= k < i ==> #[trigger] hashes@[k] == rows@[k].1,
        decreases rows@.len() - i,
    {
        hashes.push(rows[i].1);
        i += 1;
    }
    assert(hashes@ =~= hashes_of(rows@));
    let groups = group_hashes(hashes.as_slice(), max_distance);
    let ghost gs = group_views(groups@);
    assert forall|g: int, k: int|
        0 <= g < groups@.len() && 0 <= k < groups@[g]@.len() implies (#[trigger] groups@[g]@[k]).0
        < rows@.len() by {
        assert(gs[g][k] == groups@[g]@[k]);
    }
    let r = read_groups(db, &rows, &groups);
    proof {
        let t4 = db.trace();
        assert(t4.take(n) =~= t4.take(n + 3).take(n));
        assert(t4[n] == t4.take(n + 3)[n]);
        assert(t4[n + 1] == t4.take(n + 3)[n + 1]);
        assert(t4[n + 2] == t4.take(n + 3)[n + 2]);
        assert(is_grouping(hashes_of(rows@), max_distance, gs));
    }
    match r {
        Ok(groups) => Ok(DupResult { unhashed, groups }),
        Err(e) => Err(e),
    }
}

} // verus!
