//! The directories of the watched folders, as the paths of the images tell them.

use crate::paths::{
    ends_in_name, is_parent, is_root, is_special, is_special_form, law_names_follow_the_last_separator,
    lemma_after_separators, name_start, parent,
};
use crate::sql::{
    all_read, asked, param_models, read_int, read_text, row_models, select, Cell, CellModel, Db,
    DbError, ErrKind, FromRow, Param, ParamModel,
};
use crate::sql::{int_in, text_in};
use crate::text::{
    chars_of, has_prefix, lemma_text_less_irreflexive, lemma_text_less_total,
    lemma_text_less_transitive, opt_text, precedes, same_text, starts_with, text_between, text_less,
};
use vstd::prelude::*;

verus! {

/// A directory with images.
pub struct DirEntry {
    pub folder_id: i64,
    /// The directory inside the watched folder, empty for the folder itself, with
    /// the separators of the path.
    pub rel_dir: String,
    /// The images directly in it.
    pub count: i64,
}

/// A watched folder's number and a directory inside it.
pub type DirKey = (i64, Seq<char>);

impl DirEntry {
    /// What the entry is about.
    pub open spec fn key(self) -> DirKey {
        (self.folder_id, self.rel_dir@)
    }
}

// ---------------------------------------------------------------------------
// The directory inside the folder
// ---------------------------------------------------------------------------

/// Whether a character separates directories.
pub open spec fn is_separator(c: char) -> bool {
    c == '\\' || c == '/'
}

/// `s` without the separators at its front.
pub open spec fn without_separators(s: Seq<char>) -> Seq<char>
    decreases s.len(),
{
    if s.len() > 0 && is_separator(s[0]) {
        without_separators(s.skip(1))
    } else {
        s
    }
}

/// The part of a directory below `root`, or the empty text where it does not lie
/// below it.
pub open spec fn relative(dir: Option<Seq<char>>, root: Seq<char>) -> Seq<char> {
    match dir {
        Some(d) => if has_prefix(d, root) && d.len() > root.len() {
            without_separators(d.skip(root.len() as int))
        } else {
            Seq::empty()
        },
        None => Seq::empty(),
    }
}

/// The part of a directory below `root`.
pub fn relative_dir(dir: &Option<String>, root: &str) -> (r: String)
    ensures
        r@ == relative(opt_text(*dir), root@),
{
    match dir {
        Some(dir) => {
            let d = chars_of(dir.as_str());
            let front = chars_of(root);
            if starts_with(&d, &front) && d.len() > front.len() {
                let mut i: usize = front.len();
                while i < d.len() && (d[i] == '\\' || d[i] == '/')
                    invariant
                        front@.len() <= i <= d@.len(),
                        without_separators(d@.skip(i as int)) == without_separators(
                            d@.skip(front@.len() as int),
                        ),
                    decreases d@.len() - i,
                {
                    assert(d@.skip(i as int).skip(1) =~= d@.skip(i + 1));
                    i += 1;
                }
                let r = text_between(&d, i, d.len());
                assert(r@ =~= d@.skip(i as int));
                r
            } else {
                String::new()
            }
        },
        None => String::new(),
    }
}

// ---------------------------------------------------------------------------
// Counting
// ---------------------------------------------------------------------------

/// The order of the entries: by folder, then by directory.
pub open spec fn key_less(a: DirKey, b: DirKey) -> bool {
    a.0 < b.0 || (a.0 == b.0 && text_less(a.1, b.1))
}

/// How often `key` stands in a list.
pub open spec fn occurrences(keys: Seq<DirKey>, key: DirKey) -> nat
    decreases keys.len(),
{
    if keys.len() == 0 {
        0
    } else {
        occurrences(keys.drop_last(), key) + if keys.last() == key {
            1nat
        } else {
            0nat
        }
    }
}

/// A number as far as an `i64` goes.
pub open spec fn capped(n: nat) -> i64 {
    if n <= i64::MAX {
        n as i64
    } else {
        i64::MAX
    }
}

/// The entries of a list, in their mathematical form.
pub open spec fn entry_models(v: Seq<DirEntry>) -> Seq<(DirKey, i64)> {
    v.map_values(|e: DirEntry| (e.key(), e.count))
}

/// Whether `out` lists each of the keys once, in order, with how often it occurs.
pub open spec fn is_tree(keys: Seq<DirKey>, out: Seq<(DirKey, i64)>) -> bool {
    &&& forall|i: int, j: int|
        0 <= i < j < out.len() ==> key_less((#[trigger] out[i]).0, (#[trigger] out[j]).0)
    &&& forall|i: int|
        0 <= i < out.len() ==> occurrences(keys, (#[trigger] out[i]).0) > 0 && out[i].1 == capped(
            occurrences(keys, out[i].0),
        )
    &&& forall|key: DirKey| #[trigger]
        occurrences(keys, key) > 0 ==> exists|i: int| 0 <= i < out.len() && (#[trigger] out[i]).0 == key
}

proof fn lemma_key_order(a: DirKey, b: DirKey, c: DirKey)
    ensures
        !key_less(a, a),
        key_less(a, b) && key_less(b, c) ==> key_less(a, c),
        key_less(a, b) || a == b || key_less(b, a),
{
    lemma_text_less_irreflexive(a.1);
    lemma_text_less_total(a.1, b.1);
    if key_less(a, b) && key_less(b, c) && a.0 == b.0 && b.0 == c.0 {
        lemma_text_less_transitive(a.1, b.1, c.1);
    }
}

/// A list of keys determines its entries.
pub proof fn law_tree_unique(keys: Seq<DirKey>, a: Seq<(DirKey, i64)>, b: Seq<(DirKey, i64)>)
    requires
        is_tree(keys, a),
        is_tree(keys, b),
    ensures
        a == b,
{
    lemma_same_front(keys, a, b, a.len() as int);
    if b.len() > a.len() {
        lemma_same_front(keys, b, a, b.len() as int);
    }
    assert(a =~= b);
}

/// The first `n` entries of two trees of the same keys agree.
proof fn lemma_same_front(keys: Seq<DirKey>, a: Seq<(DirKey, i64)>, b: Seq<(DirKey, i64)>, n: int)
    requires
        is_tree(keys, a),
        is_tree(keys, b),
        0 <= n <= a.len(),
    ensures
        n <= b.len(),
        forall|i: int| 0 <= i < n ==> a[i] == #[trigger] b[i],
    decreases n,
{
    if n > 0 {
        lemma_same_front(keys, a, b, n - 1);
        let key = a[n - 1].0;
        assert(occurrences(keys, key) > 0);
        let j = choose|j: int| 0 <= j < b.len() && (#[trigger] b[j]).0 == key;
        if j < n - 1 {
            assert(a[j].0 == key);
            lemma_key_order(a[j].0, a[n - 1].0, key);
        }
        assert(j >= n - 1);
        if j > n - 1 {
            let other = b[n - 1].0;
            assert(occurrences(keys, other) > 0);
            let i = choose|i: int| 0 <= i < a.len() && (#[trigger] a[i]).0 == other;
            assert(key_less(b[n - 1].0, b[j].0));
            if i > n - 1 {
                assert(key_less(a[n - 1].0, a[i].0));
                lemma_key_order(key, other, key);
            } else if i < n - 1 {
                assert(b[i].0 == other);
                assert(key_less(b[i].0, b[n - 1].0));
                lemma_key_order(other, other, other);
            } else {
                lemma_key_order(key, key, key);
            }
        }
    }
}

/// The index of the first entry that does not come before a key.
fn find_entry(out: &Vec<DirEntry>, folder_id: i64, rel_dir: &str) -> (r: usize)
    requires
        forall|i: int, j: int|
            0 <= i < j < out@.len() ==> key_less(
                (#[trigger] out@[i]).key(),
                (#[trigger] out@[j]).key(),
            ),
    ensures
        r <= out@.len(),
        forall|i: int| 0 <= i < r ==> key_less((#[trigger] out@[i]).key(), (folder_id, rel_dir@)),
        forall|i: int|
            r <= i < out@.len() ==> !key_less((#[trigger] out@[i]).key(), (folder_id, rel_dir@)),
{
    let ghost key = (folder_id, rel_dir@);
    let mut lo: usize = 0;
    let mut hi: usize = out.len();
    while lo < hi
        invariant
            lo <= hi <= out@.len(),
            key == (folder_id, rel_dir@),
            forall|i: int, j: int|
                0 <= i < j < out@.len() ==> key_less(
                    (#[trigger] out@[i]).key(),
                    (#[trigger] out@[j]).key(),
                ),
            forall|i: int| 0 <= i < lo ==> key_less((#[trigger] out@[i]).key(), key),
            forall|i: int| hi <= i < out@.len() ==> !key_less((#[trigger] out@[i]).key(), key),
        decreases hi - lo,
    {
        let mid: usize = lo + (hi - lo) / 2;
        let e = &out[mid];
        let before = e.folder_id < folder_id || (e.folder_id == folder_id && precedes(
            e.rel_dir.as_str(),
            rel_dir,
        ));
        if before {
            assert forall|i: int| 0 <= i <= mid implies key_less((#[trigger] out@[i]).key(), key) by {
                lemma_key_order(out@[i].key(), out@[mid as int].key(), key);
            }
            lo = mid + 1;
        } else {
            assert forall|i: int| mid <= i < out@.len() implies !key_less(
                (#[trigger] out@[i]).key(),
                key,
            ) by {
                lemma_key_order(out@[mid as int].key(), out@[i].key(), key);
            }
            hi = mid;
        }
    }
    lo
}

/// Counts the keys of a list.
pub fn dir_counts(keys: &Vec<(i64, String)>) -> (r: Vec<DirEntry>)
    ensures
        is_tree(row_models(keys@), entry_models(r@)),
{
    let ghost all = row_models(keys@);
    let mut out: Vec<DirEntry> = Vec::new();
    let mut i: usize = 0;
    while i < keys.len()
        invariant
            i <= keys@.len(),
            all == row_models(keys@),
            is_tree(all.take(i as int), entry_models(out@)),
        decreases keys@.len() - i,
    {
        let ghost before = entry_models(out@);
        let ghost seen = all.take(i as int);
        let ghost key = all[i as int];
        assert forall|a: int, b: int| 0 <= a < b < out@.len() implies key_less(
            (#[trigger] out@[a]).key(),
            (#[trigger] out@[b]).key(),
        ) by {
            assert(key_less(before[a].0, before[b].0));
        }
        let at = find_entry(&out, keys[i].0, keys[i].1.as_str());
        let known = at < out.len() && out[at].folder_id == keys[i].0 && same_text(
            out[at].rel_dir.as_str(),
            keys[i].1.as_str(),
        );
        if known {
            let c: i64 = out[at].count;
            if c < i64::MAX {
                out[at].count = c + 1;
            }
        } else {
            out.insert(at, DirEntry { folder_id: keys[i].0, rel_dir: keys[i].1.clone(), count: 1 });
        }
        i += 1;
        proof {
            assert(all.take(i as int) =~= seen.push(key));
            assert(key == (keys@[i - 1].0, keys@[i - 1].1@));
            if known {
                assert(before[at as int].0 == key);
                lemma_count_known(seen, before, key, at as int);
                assert(entry_models(out@) =~= before.update(
                    at as int,
                    (key, capped(occurrences(seen.push(key), key))),
                ));
            } else {
                assert(entry_models(out@) =~= before.insert(at as int, (key, 1i64)));
                assert forall|a: int| 0 <= a < at implies key_less((#[trigger] before[a]).0, key) by {}
                assert forall|a: int| at <= a < before.len() implies key_less(
                    key,
                    (#[trigger] before[a]).0,
                ) by {
                    lemma_key_order(before[a].0, key, key);
                    if before[a].0 == key && a > at {
                        assert(key_less(before[at as int].0, before[a].0));
                    }
                }
                lemma_count_new(seen, before, key, at as int);
            }
        }
    }
    assert(all.take(all.len() as int) =~= all);
    out
}

proof fn lemma_occurrences_push(keys: Seq<DirKey>, key: DirKey, other: DirKey)
    ensures
        occurrences(keys.push(key), other) == occurrences(keys, other) + if other == key {
            1nat
        } else {
            0nat
        },
{
    assert(keys.push(key).drop_last() =~= keys);
}

proof fn lemma_count_known(keys: Seq<DirKey>, out: Seq<(DirKey, i64)>, key: DirKey, at: int)
    requires
        is_tree(keys, out),
        0 <= at < out.len(),
        out[at].0 == key,
    ensures
        is_tree(
            keys.push(key),
            out.update(at, (key, capped(occurrences(keys.push(key), key)))),
        ),
        occurrences(keys.push(key), key) == occurrences(keys, key) + 1,
{
    let grown = keys.push(key);
    let after = out.update(at, (key, capped(occurrences(grown, key))));
    lemma_occurrences_push(keys, key, key);
    assert forall|i: int| 0 <= i < after.len() implies occurrences(grown, (#[trigger] after[i]).0) > 0
        && after[i].1 == capped(occurrences(grown, after[i].0)) by {
        lemma_occurrences_push(keys, key, out[i].0);
        if i != at {
            assert(after[i] == out[i]);
            if i < at {
                assert(key_less(out[i].0, out[at].0));
            } else {
                assert(key_less(out[at].0, out[i].0));
            }
            lemma_key_order(key, key, key);
        }
    }
    assert forall|other: DirKey| #[trigger] occurrences(grown, other) > 0 implies exists|i: int|
        0 <= i < after.len() && (#[trigger] after[i]).0 == other by {
        lemma_occurrences_push(keys, key, other);
        if other == key {
            assert(after[at].0 == other);
        } else {
            let i = choose|i: int| 0 <= i < out.len() && (#[trigger] out[i]).0 == other;
            assert(after[i].0 == other);
        }
    }
    assert forall|i: int, j: int| 0 <= i < j < after.len() implies key_less(
        (#[trigger] after[i]).0,
        (#[trigger] after[j]).0,
    ) by {
        assert(key_less(out[i].0, out[j].0));
    }
}

proof fn lemma_count_new(keys: Seq<DirKey>, out: Seq<(DirKey, i64)>, key: DirKey, at: int)
    requires
        is_tree(keys, out),
        0 <= at <= out.len(),
        forall|a: int| 0 <= a < at ==> key_less((#[trigger] out[a]).0, key),
        forall|a: int| at <= a < out.len() ==> key_less(key, (#[trigger] out[a]).0),
    ensures
        is_tree(keys.push(key), out.insert(at, (key, 1i64))),
{
    let grown = keys.push(key);
    let after = out.insert(at, (key, 1i64));
    lemma_key_order(key, key, key);
    if occurrences(keys, key) > 0 {
        let i = choose|i: int| 0 <= i < out.len() && (#[trigger] out[i]).0 == key;
        assert(key_less(key, key));
    }
    lemma_occurrences_push(keys, key, key);
    assert forall|i: int| 0 <= i < after.len() implies occurrences(grown, (#[trigger] after[i]).0) > 0
        && after[i].1 == capped(occurrences(grown, after[i].0)) by {
        if i != at {
            let k = if i < at {
                i
            } else {
                i - 1
            };
            assert(after[i] == out[k]);
            lemma_occurrences_push(keys, key, out[k].0);
        }
    }
    assert forall|other: DirKey| #[trigger] occurrences(grown, other) > 0 implies exists|i: int|
        0 <= i < after.len() && (#[trigger] after[i]).0 == other by {
        lemma_occurrences_push(keys, key, other);
        if other == key {
            assert(after[at].0 == other);
        } else {
            let i = choose|i: int| 0 <= i < out.len() && (#[trigger] out[i]).0 == other;
            if i < at {
                assert(after[i].0 == other);
            } else {
                assert(after[i + 1].0 == other);
            }
        }
    }
    assert forall|i: int, j: int| 0 <= i < j < after.len() implies key_less(
        (#[trigger] after[i]).0,
        (#[trigger] after[j]).0,
    ) by {
        if i != at && j != at {
            let a = if i < at {
                i
            } else {
                i - 1
            };
            let b = if j < at {
                j
            } else {
                j - 1
            };
            assert(key_less(out[a].0, out[b].0));
        } else if i == at {
            assert(after[j] == out[j - 1]);
        } else {
            assert(after[i] == out[i]);
        }
    }
}

// ---------------------------------------------------------------------------
// The whole tree
// ---------------------------------------------------------------------------

/// An image: the number and the path of its folder, and its own path.
pub struct Located {
    pub folder_id: i64,
    pub root: String,
    pub path: String,
}

impl FromRow for Located {
    type M = (i64, Seq<char>, Seq<char>);

    open spec fn row_model(self) -> Self::M {
        (self.folder_id, self.root@, self.path@)
    }

    open spec fn decoded(row: Seq<CellModel>) -> Option<Self::M> {
        match (int_in(row, 0), text_in(row, 1), text_in(row, 2)) {
            (Some(folder_id), Some(root), Some(path)) => Some((folder_id, root, path)),
            _ => None,
        }
    }

    fn from_row(row: &Vec<Cell>) -> (r: Result<Self, DbError>) {
        match (read_int(row, 0), read_text(row, 1), read_text(row, 2)) {
            (Some(folder_id), Some(root), Some(path)) => Ok(Located { folder_id, root, path }),
            _ => Err(DbError::Column),
        }
    }
}

/// The keys of images whose directories are `dirs`.
pub open spec fn keys_of(
    images: Seq<(i64, Seq<char>, Seq<char>)>,
    dirs: Seq<Option<Seq<char>>>,
) -> Seq<DirKey> {
    Seq::new(images.len(), |i: int| (images[i].0, relative(dirs[i], images[i].1)))
}

/// Whether `dirs` are the directories that the images are in.
pub open spec fn are_parents(
    images: Seq<(i64, Seq<char>, Seq<char>)>,
    dirs: Seq<Option<Seq<char>>>,
) -> bool {
    &&& dirs.len() == images.len()
    &&& forall|i: int| 0 <= i < images.len() ==> is_parent(images[i].2, #[trigger] dirs[i])
}

/// The mathematical form of a tree.
pub open spec fn tree_model(r: Result<Vec<DirEntry>, DbError>) -> Result<
    Seq<(DirKey, i64)>,
    ErrKind,
> {
    match r {
        Ok(v) => Ok(entry_models(v@)),
        Err(e) => Err(e.kind()),
    }
}

/// Whether `out` is the tree of images that are in the directories `dirs`.
pub open spec fn is_tree_with(
    images: Seq<(i64, Seq<char>, Seq<char>)>,
    dirs: Seq<Option<Seq<char>>>,
    out: Seq<(DirKey, i64)>,
) -> bool {
    are_parents(images, dirs) && is_tree(keys_of(images, dirs), out)
}

/// Whether `r` is the tree of the images in an answer.
pub open spec fn is_tree_of(
    images: Result<Seq<(i64, Seq<char>, Seq<char>)>, ErrKind>,
    r: Result<Seq<(DirKey, i64)>, ErrKind>,
) -> bool {
    &&& images is Err ==> r == Err::<Seq<(DirKey, i64)>, ErrKind>(images->Err_0)
    &&& images is Ok ==> r is Ok && exists|dirs: Seq<Option<Seq<char>>>| #[trigger]
        is_tree_with(images->Ok_0, dirs, r->Ok_0)
}

proof fn lemma_tree_of(
    images: Seq<(i64, Seq<char>, Seq<char>)>,
    dirs: Seq<Option<Seq<char>>>,
    out: Seq<(DirKey, i64)>,
)
    requires
        is_tree_with(images, dirs, out),
    ensures
        is_tree_of(Ok(images), Ok(out)),
{
    let x: Result<Seq<(i64, Seq<char>, Seq<char>)>, ErrKind> = Ok(images);
    let y: Result<Seq<(DirKey, i64)>, ErrKind> = Ok(out);
    assert(is_tree_with(x->Ok_0, dirs, y->Ok_0));
}

/// Selects the visible images with their folders.
pub const TREE_SQL: &'static str = "SELECT i.folder_id, f.path, i.path FROM images i
         JOIN folders f ON f.id = i.folder_id WHERE i.hidden = 0";

/// The directories below the watched folders that hold visible images, with how
/// many are directly in each.
pub fn folder_tree(db: &mut Db) -> (r: Result<Vec<DirEntry>, DbError>)
    ensures
        asked(old(db).trace(), final(db).trace(), select(TREE_SQL@, Seq::empty())),
        is_tree_of(all_read::<Located>(final(db).last_reply()), tree_model(r)),
{
    let params: Vec<Param> = Vec::new();
    assert(param_models(params@) =~= Seq::<ParamModel>::empty());
    let images = match db.query_all::<Located>(TREE_SQL, &params) {
        Ok(images) => images,
        Err(e) => {
            return Err(e);
        },
    };
    let mut keys: Vec<(i64, String)> = Vec::new();
    let ghost mut dirs: Seq<Option<Seq<char>>> = Seq::empty();
    let mut i: usize = 0;
    while i < images.len()
        invariant
            i <= images@.len(),
            keys@.len() == i,
            dirs.len() == i,
            forall|k: int| 0 <= k < i ==> is_parent(images@[k].path@, #[trigger] dirs[k]),
            forall|k: int|
                0 <= k < i ==> (#[trigger] keys@[k]).0 == images@[k].folder_id && keys@[k].1@
                    == relative(dirs[k], images@[k].root@),
        decreases images@.len() - i,
    {
        let dir = parent(images[i].path.as_str());
        let rel = relative_dir(&dir, images[i].root.as_str());
        proof {
            dirs = dirs.push(opt_text(dir));
        }
        keys.push((images[i].folder_id, rel));
        i += 1;
    }
    let out = dir_counts(&keys);
    proof {
        let found = row_models(images@);
        assert(are_parents(found, dirs));
        assert(row_models(keys@) =~= keys_of(found, dirs));
        assert(is_tree_with(found, dirs, entry_models(out@)));
        lemma_tree_of(found, dirs, entry_models(out@));
    }
    Ok(out)
}

// ---------------------------------------------------------------------------
// What a tree comes to
// ---------------------------------------------------------------------------

/// A directory below a watched folder is named by what follows the folder's path and
/// the separators behind it, however many there are; the folder itself by the empty
/// text.
pub proof fn law_directories_are_named_below_their_folder(
    root: Seq<char>,
    separators: Seq<char>,
    rest: Seq<char>,
)
    requires
        forall|i: int|
            0 <= i < separators.len() ==> #[trigger] separators[i] == '/' || separators[i] == '\\',
        rest.len() > 0 ==> rest[0] != '/' && rest[0] != '\\',
    ensures
        relative(Some(root + separators + rest), root) == rest,
        relative(Some(root), root) == Seq::<char>::empty(),
        relative(None, root) == Seq::<char>::empty(),
{
    let dir = root + separators + rest;
    assert(dir.take(root.len() as int) =~= root);
    assert(dir.skip(root.len() as int) =~= separators + rest);
    lemma_separators_fall_off(separators, rest);
    if dir.len() == root.len() {
        assert(rest =~= Seq::<char>::empty());
    }
}

proof fn lemma_separators_fall_off(separators: Seq<char>, rest: Seq<char>)
    requires
        forall|i: int|
            0 <= i < separators.len() ==> #[trigger] separators[i] == '/' || separators[i] == '\\',
        rest.len() > 0 ==> rest[0] != '/' && rest[0] != '\\',
    ensures
        without_separators(separators + rest) == rest,
    decreases separators.len(),
{
    let all = separators + rest;
    if separators.len() == 0 {
        assert(all =~= rest);
    } else {
        let fewer = separators.skip(1);
        assert forall|i: int| 0 <= i < fewer.len() implies #[trigger] fewer[i] == '/' || fewer[i]
            == '\\' by {
            assert(separators[i + 1] == fewer[i]);
        }
        lemma_separators_fall_off(fewer, rest);
        assert(all[0] == separators[0]);
        assert(all.skip(1) =~= fewer + rest);
    }
}

/// A directory that does not start with the path of the folder is named by the empty
/// text.
pub proof fn law_directories_elsewhere_have_no_name(dir: Seq<char>, root: Seq<char>, i: int)
    requires
        0 <= i < root.len(),
        i < dir.len() ==> dir[i] != root[i],
    ensures
        relative(Some(dir), root) == Seq::<char>::empty(),
{
    if has_prefix(dir, root) {
        assert(dir.take(root.len() as int)[i] == dir[i]);
    }
}

/// Texts are ordered by the first character in which they differ, and a front of a
/// text comes before it.
pub proof fn law_texts_are_ordered_by_the_first_difference(a: Seq<char>, b: Seq<char>, i: int)
    requires
        0 <= i <= a.len(),
        i < b.len(),
        forall|k: int| 0 <= k < i ==> #[trigger] a[k] == b[k],
        i < a.len() ==> a[i] != b[i],
    ensures
        text_less(a, b) <==> i == a.len() || a[i] < b[i],
    decreases i,
{
    if i > 0 {
        let x = a.skip(1);
        let y = b.skip(1);
        assert(a[0] == b[0]);
        assert forall|k: int| 0 <= k < i - 1 implies #[trigger] x[k] == y[k] by {
            assert(a[k + 1] == b[k + 1]);
        }
        law_texts_are_ordered_by_the_first_difference(x, y, i - 1);
    }
}

/// The sum of the counts in a tree.
pub open spec fn total(out: Seq<(DirKey, i64)>) -> int
    decreases out.len(),
{
    if out.len() == 0 {
        0
    } else {
        total(out.drop_last()) + out.last().1
    }
}

/// Every image counts once: the counts of a tree add up to the number of images.
pub proof fn law_every_image_counts_once(keys: Seq<DirKey>, out: Seq<(DirKey, i64)>)
    requires
        is_tree(keys, out),
        keys.len() <= i64::MAX,
    ensures
        total(out) == keys.len(),
{
    lemma_occurrences_bounded(keys);
    lemma_total(keys, out, out.len() as int);
    assert(out.take(out.len() as int) =~= out);
    assert(covered(keys, out, out.len() as int) == keys.len()) by {
        lemma_all_covered(keys, out);
    }
}

proof fn lemma_occurrences_bounded(keys: Seq<DirKey>)
    ensures
        forall|key: DirKey| #[trigger] occurrences(keys, key) <= keys.len(),
    decreases keys.len(),
{
    if keys.len() > 0 {
        let rest = keys.drop_last();
        lemma_occurrences_bounded(rest);
        assert forall|key: DirKey| #[trigger] occurrences(keys, key) <= keys.len() by {
            assert(occurrences(rest, key) <= rest.len());
        }
    }
}

/// Whether one of the first `n` entries of a tree is about the key.
spec fn is_entered(out: Seq<(DirKey, i64)>, n: int, key: DirKey) -> bool {
    exists|i: int| 0 <= i < n && i < out.len() && (#[trigger] out[i]).0 == key
}

/// How many of the keys the first `n` entries of a tree are about.
spec fn covered(keys: Seq<DirKey>, out: Seq<(DirKey, i64)>, n: int) -> nat
    decreases keys.len(),
{
    if keys.len() == 0 {
        0
    } else {
        covered(keys.drop_last(), out, n) + if is_entered(out, n, keys.last()) {
            1nat
        } else {
            0nat
        }
    }
}

/// One entry more covers the keys that it is about.
proof fn lemma_covered_step(keys: Seq<DirKey>, out: Seq<(DirKey, i64)>, n: int)
    requires
        0 <= n < out.len(),
        !is_entered(out, n, out[n].0),
    ensures
        covered(keys, out, n + 1) == covered(keys, out, n) + occurrences(keys, out[n].0),
    decreases keys.len(),
{
    if keys.len() > 0 {
        lemma_covered_step(keys.drop_last(), out, n);
        let key = keys.last();
        assert(is_entered(out, n + 1, key) <==> is_entered(out, n, key) || key == out[n].0) by {
            if is_entered(out, n, key) {
                let i = choose|i: int| 0 <= i < n && i < out.len() && (#[trigger] out[i]).0 == key;
                assert(i < n + 1 && out[i].0 == key);
            }
            if key == out[n].0 {
                assert(n < n + 1 && out[n].0 == key);
            }
        }
    }
}

proof fn lemma_none_covered(keys: Seq<DirKey>, out: Seq<(DirKey, i64)>)
    ensures
        covered(keys, out, 0) == 0,
    decreases keys.len(),
{
    if keys.len() > 0 {
        lemma_none_covered(keys.drop_last(), out);
    }
}

proof fn lemma_total(keys: Seq<DirKey>, out: Seq<(DirKey, i64)>, n: int)
    requires
        is_tree(keys, out),
        keys.len() <= i64::MAX,
        forall|key: DirKey| #[trigger] occurrences(keys, key) <= keys.len(),
        0 <= n <= out.len(),
    ensures
        total(out.take(n)) == covered(keys, out, n),
    decreases n,
{
    if n == 0 {
        lemma_none_covered(keys, out);
    } else {
        lemma_total(keys, out, n - 1);
        assert(out.take(n).drop_last() =~= out.take(n - 1));
        assert(out.take(n).last() == out[n - 1]);
        assert(!is_entered(out, n - 1, out[n - 1].0)) by {
            if is_entered(out, n - 1, out[n - 1].0) {
                let i = choose|i: int|
                    0 <= i < n - 1 && i < out.len() && (#[trigger] out[i]).0 == out[n - 1].0;
                assert(key_less(out[i].0, out[n - 1].0));
                lemma_key_order(out[i].0, out[i].0, out[i].0);
            }
        }
        lemma_covered_step(keys, out, n - 1);
        assert(occurrences(keys, out[n - 1].0) <= keys.len());
    }
}

/// All keys of a list are covered by entries that are about all of them.
proof fn lemma_all_covered(keys: Seq<DirKey>, out: Seq<(DirKey, i64)>)
    requires
        forall|key: DirKey| #[trigger]
            occurrences(keys, key) > 0 ==> exists|i: int| 0 <= i < out.len() && (#[trigger] out[i]).0
                == key,
    ensures
        covered(keys, out, out.len() as int) == keys.len(),
    decreases keys.len(),
{
    if keys.len() > 0 {
        let rest = keys.drop_last();
        assert forall|key: DirKey| #[trigger] occurrences(rest, key) > 0 implies exists|i: int|
            0 <= i < out.len() && (#[trigger] out[i]).0 == key by {
            assert(occurrences(keys, key) > 0);
        }
        lemma_all_covered(rest, out);
        assert(occurrences(keys, keys.last()) > 0);
        let i = choose|i: int| 0 <= i < out.len() && (#[trigger] out[i]).0 == keys.last();
        assert(is_entered(out, out.len() as int, keys.last()));
    }
}

/// An image adds one to its own directory and nothing to any other.
pub proof fn law_an_image_counts_for_its_directory(keys: Seq<DirKey>, key: DirKey, other: DirKey)
    requires
        other != key,
    ensures
        occurrences(keys.push(key), key) == occurrences(keys, key) + 1,
        occurrences(keys.push(key), other) == occurrences(keys, other),
        occurrences(Seq::empty(), key) == 0,
{
    assert(keys.push(key).drop_last() =~= keys);
}

/// Folders are listed by their numbers, and the directories of one folder by their
/// names.
pub proof fn law_trees_are_sorted(keys: Seq<DirKey>, out: Seq<(DirKey, i64)>, i: int, j: int)
    requires
        is_tree(keys, out),
        0 <= i < j < out.len(),
    ensures
        out[i].0.0 <= out[j].0.0,
        out[i].0.0 == out[j].0.0 ==> text_less(out[i].0.1, out[j].0.1),
        out[i].1 > 0,
{
    assert(key_less(out[i].0, out[j].0));
}

/// Every image is counted in an entry of its own folder and of the directory that it is
/// in, which is named below the folder.
pub proof fn law_images_are_counted_where_they_are(
    images: Seq<(i64, Seq<char>, Seq<char>)>,
    dirs: Seq<Option<Seq<char>>>,
    out: Seq<(DirKey, i64)>,
    i: int,
    separators: Seq<char>,
    rel: Seq<char>,
    name: Seq<char>,
) -> (j: int)
    requires
        is_tree_with(images, dirs, out),
        0 <= i < images.len(),
        images[i].2 == images[i].1 + separators + rel + seq!['/'] + name,
        forall|k: int|
            0 <= k < separators.len() ==> #[trigger] separators[k] == '/' || separators[k] == '\\',
        rel.len() > 0 ==> rel[0] != '/' && rel[0] != '\\',
        name.len() > 0,
        forall|k: int| 0 <= k < name.len() ==> !is_special(#[trigger] name[k]),
        name != seq!['.'],
        name != seq!['.', '.'],
        !is_special_form(images[i].2),
        ends_in_name(images[i].1 + separators + rel),
        !is_root(images[i].1 + separators + rel),
    ensures
        0 <= j < out.len(),
        out[j].0 == (images[i].0, rel),
        out[j].1 > 0,
{
    let keys = keys_of(images, dirs);
    let root = images[i].1;
    let dir = root + separators + rel;
    let path = images[i].2;
    assert(path =~= dir + seq!['/'] + name);
    law_names_follow_the_last_separator(dir, name);
    lemma_after_separators(path);
    let n = name_start(path);
    assert(path.skip(n) == name);
    assert(n == dir.len() + 1);
    assert(path.take(n - 1) =~= dir);
    assert(path[n - 1] == '/');
    assert(is_parent(path, dirs[i]));
    assert(dirs[i] == Some(dir));
    law_directories_are_named_below_their_folder(root, separators, rel);
    let key = keys[i];
    assert(key == (images[i].0, rel));
    lemma_occurs(keys, i);
    choose|j: int| 0 <= j < out.len() && (#[trigger] out[j]).0 == key
}

/// What stands in a list occurs in it.
proof fn lemma_occurs(keys: Seq<DirKey>, i: int)
    requires
        0 <= i < keys.len(),
    ensures
        occurrences(keys, keys[i]) > 0,
    decreases keys.len(),
{
    if i < keys.len() - 1 {
        lemma_occurs(keys.drop_last(), i);
        assert(keys.drop_last()[i] == keys[i]);
    }
}

} // verus!
