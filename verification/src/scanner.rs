//! Scanning a folder: what the files hold, and which of them are new or changed.

use crate::hash::{dhash, is_difference_hash, GRID_HEIGHT, GRID_WIDTH};
use crate::nai::{bare, opt_meta, parse, parsed, NaiMetadata, NaiModel};
use crate::pixels::{
    block_bound, can_be_shrunk, decode, decoded_image, encode_thumbnail, grey_content,
    header_dimensions, image_size, is_shrinkable, read_dimensions, smaller, thumbnail_file,
};
use crate::sql::{row_models, Cell, CellModel, DbError, FromRow};
use crate::sql::{int_in, read_int, read_text, text_in};
use crate::text::{decimal, decimal_text, texts};
use vstd::hash_map::StringHashMap;
use vstd::hash_set::StringHashSet;
use vstd::prelude::*;

verus! {

/// The longest side of a thumbnail.
pub const THUMB_MAX_DIM: u32 = 512;

/// How far a scan is.
pub struct ScanProgress {
    pub done: usize,
    pub total: usize,
    pub folder: String,
}

/// After how many files progress is reported.
pub const FILES_PER_REPORT: usize = 25;

/// After how many hashes progress is reported.
pub const HASHES_PER_REPORT: usize = 100;

/// Whether progress is to be reported: at every multiple of `step`, and at the end.
pub fn should_report(done: usize, total: usize, step: usize) -> (r: bool)
    requires
        step > 0,
    ensures
        r == (done % step == 0 || done == total),
{
    done % step == 0 || done == total
}

// ---------------------------------------------------------------------------
// What a file holds
// ---------------------------------------------------------------------------

/// Reads the size of an image from its header, whatever the file is called, without
/// decoding it.
pub fn probe_dimensions(data: &[u8]) -> (r: Option<(u32, u32)>)
    ensures
        r == header_dimensions(data@),
{
    read_dimensions(data)
}

/// Whether the size of an image is still to be found.
pub open spec fn lacks_size(meta: Option<NaiModel>) -> bool {
    meta is None || meta->0.width == 0 || meta->0.height == 0
}

/// Metadata with the size that a probe found, where it is lacking.
pub open spec fn sized(meta: Option<NaiModel>, probed: Option<(u32, u32)>) -> Option<NaiModel> {
    if lacks_size(meta) && probed is Some {
        let m = match meta {
            Some(m) => m,
            None => bare(false, 0, 0, None),
        };
        Some(NaiModel { width: (probed->0).0, height: (probed->0).1, ..m })
    } else {
        meta
    }
}

/// Whether the size of an image is still to be found.
pub fn needs_size(meta: &Option<NaiMetadata>) -> (r: bool)
    ensures
        r == lacks_size(opt_meta(*meta)),
{
    match meta {
        Some(m) => m.width == 0 || m.height == 0,
        None => true,
    }
}

/// Fills in the size that a probe found, where it is lacking.
pub fn fill_size(meta: Option<NaiMetadata>, probed: Option<(u32, u32)>) -> (r: Option<NaiMetadata>)
    ensures
        opt_meta(r) == sized(opt_meta(meta), probed),
{
    if !needs_size(&meta) {
        return meta;
    }
    match probed {
        Some((w, h)) => {
            let mut m = match meta {
                Some(m) => m,
                None => NaiMetadata::default(),
            };
            m.width = w;
            m.height = h;
            Some(m)
        },
        None => meta,
    }
}

/// What is known of a file from its bytes: the metadata of a PNG, with the size
/// probed where it is lacking, so that images under a wrong name have theirs.
pub fn read_image(data: &[u8]) -> (r: Option<NaiMetadata>)
    ensures
        opt_meta(r) == sized(parsed(data@), header_dimensions(data@)),
{
    let meta = parse(data);
    if needs_size(&meta) {
        let probed = probe_dimensions(data);
        fill_size(meta, probed)
    } else {
        meta
    }
}

/// The bytes of the thumbnail of an image file. Images whose pixels are too many to
/// be summed up have none.
pub open spec fn thumbnail_of(data: Seq<u8>) -> Option<Seq<u8>> {
    match decoded_image(data) {
        Some(img) => if can_be_shrunk(img, THUMB_MAX_DIM) {
            thumbnail_file(img, THUMB_MAX_DIM)
        } else {
            None
        },
        None => None,
    }
}

/// Makes the thumbnail of an image file.
pub fn make_thumbnail(data: &[u8]) -> (r: Option<Vec<u8>>)
    ensures
        match r {
            Some(f) => thumbnail_of(data@) == Some(f@),
            None => thumbnail_of(data@) is None,
        },
{
    match decode(data) {
        Some(img) => if is_shrinkable(&img, THUMB_MAX_DIM) {
            encode_thumbnail(&img, THUMB_MAX_DIM)
        } else {
            None
        },
        None => None,
    }
}

/// The difference hash of an image file, such as a thumbnail.
pub fn hash_file(data: &[u8]) -> (r: Option<i64>)
    ensures
        match decoded_image(data@) {
            Some(img) => r is Some && is_difference_hash(
                r->0 as u64,
                grey_content(img, GRID_WIDTH, GRID_HEIGHT),
            ),
            None => r is None,
        },
{
    match decode(data) {
        Some(img) => Some(dhash(&img)),
        None => None,
    }
}

/// The file name of the thumbnail of an image.
pub fn thumb_name(id: i64) -> (r: String)
    ensures
        r@ == decimal(id as int) + ".jpg"@,
{
    let mut r = decimal_text(id);
    r.append(".jpg");
    r
}

// ---------------------------------------------------------------------------
// What is to be done
// ---------------------------------------------------------------------------

/// A file as the index has it.
pub struct KnownFile {
    pub path: String,
    pub size: i64,
    pub mtime: i64,
    pub width: i64,
}

/// A file as it was found.
pub struct FoundFile {
    pub path: String,
    pub size: i64,
    pub mtime: i64,
}

/// The mathematical form of a file that was found: its path, size and time.
pub type FoundModel = (Seq<char>, i64, i64);

impl FromRow for KnownFile {
    type M = (Seq<char>, i64, i64, i64);

    open spec fn row_model(self) -> Self::M {
        (self.path@, self.size, self.mtime, self.width)
    }

    open spec fn decoded(row: Seq<CellModel>) -> Option<Self::M> {
        match (text_in(row, 0), int_in(row, 1), int_in(row, 2), int_in(row, 3)) {
            (Some(path), Some(size), Some(mtime), Some(width)) => Some((path, size, mtime, width)),
            _ => None,
        }
    }

    fn from_row(row: &Vec<Cell>) -> (r: Result<Self, DbError>) {
        match (read_text(row, 0), read_int(row, 1), read_int(row, 2), read_int(row, 3)) {
            (Some(path), Some(size), Some(mtime), Some(width)) => Ok(
                KnownFile { path, size, mtime, width },
            ),
            _ => Err(DbError::Column),
        }
    }
}

impl FoundFile {
    /// The mathematical form.
    pub open spec fn model(self) -> FoundModel {
        (self.path@, self.size, self.mtime)
    }
}

/// The mathematical form of files that were found.
pub open spec fn found_models(v: Seq<FoundFile>) -> Seq<FoundModel> {
    v.map_values(|f: FoundFile| f.model())
}

/// What the index has on a path: its last entry.
pub open spec fn known_at(
    known: Seq<(Seq<char>, i64, i64, i64)>,
    path: Seq<char>,
) -> Option<(i64, i64, i64)>
    decreases known.len(),
{
    if known.len() == 0 {
        None
    } else if known.last().0 == path {
        Some((known.last().1, known.last().2, known.last().3))
    } else {
        known_at(known.drop_last(), path)
    }
}

/// Whether a file is as the index has it. One whose size in pixels is not known is
/// read again.
pub open spec fn unchanged(known: Seq<(Seq<char>, i64, i64, i64)>, f: FoundModel) -> bool {
    match known_at(known, f.0) {
        Some((size, mtime, width)) => size == f.1 && mtime == f.2 && width > 0,
        None => false,
    }
}

/// The files that are to be read, in the order in which they were found.
pub open spec fn to_read(
    known: Seq<(Seq<char>, i64, i64, i64)>,
    found: Seq<FoundModel>,
) -> Seq<FoundModel>
    decreases found.len(),
{
    if found.len() == 0 {
        Seq::empty()
    } else if unchanged(known, found.last()) {
        to_read(known, found.drop_last())
    } else {
        to_read(known, found.drop_last()).push(found.last())
    }
}

/// Whether a path is among files that were found.
pub open spec fn is_found(found: Seq<FoundModel>, path: Seq<char>) -> bool {
    exists|i: int| 0 <= i < found.len() && (#[trigger] found[i]).0 == path
}

/// Whether `gone` lists, each once, the paths of the index that were not found.
pub open spec fn are_gone(
    known: Seq<(Seq<char>, i64, i64, i64)>,
    found: Seq<FoundModel>,
    gone: Seq<Seq<char>>,
) -> bool {
    &&& gone.no_duplicates()
    &&& forall|path: Seq<char>| #[trigger]
        gone.contains(path) <==> known_at(known, path) is Some && !is_found(found, path)
}

/// What a scan is to do.
pub struct ScanPlan {
    /// The files to read.
    pub pending: Vec<FoundFile>,
    /// The paths to take out of the index.
    pub gone: Vec<String>,
}

proof fn lemma_known_step(known: Seq<(Seq<char>, i64, i64, i64)>, n: int, path: Seq<char>)
    requires
        0 <= n < known.len(),
    ensures
        known_at(known.take(n + 1), path) == if known[n].0 == path {
            Some((known[n].1, known[n].2, known[n].3))
        } else {
            known_at(known.take(n), path)
        },
{
    assert(known.take(n + 1).drop_last() =~= known.take(n));
}

/// The entries of the index by path.
fn index_known(known: &Vec<KnownFile>) -> (r: StringHashMap<(i64, i64, i64)>)
    ensures
        forall|path: Seq<char>| #[trigger]
            r@.contains_key(path) <==> known_at(row_models(known@), path) is Some,
        forall|path: Seq<char>| #[trigger]
            r@.contains_key(path) ==> known_at(row_models(known@), path) == Some(r@[path]),
{
    let ghost all = row_models(known@);
    let mut map: StringHashMap<(i64, i64, i64)> = StringHashMap::new();
    let mut i: usize = 0;
    while i < known.len()
        invariant
            i <= known@.len(),
            all == row_models(known@),
            forall|path: Seq<char>| #[trigger]
                map@.contains_key(path) <==> known_at(all.take(i as int), path) is Some,
            forall|path: Seq<char>| #[trigger]
                map@.contains_key(path) ==> known_at(all.take(i as int), path) == Some(map@[path]),
        decreases known@.len() - i,
    {
        let ghost before = map@;
        let k = &known[i];
        map.insert(k.path.clone(), (k.size, k.mtime, k.width));
        proof {
            assert(all[i as int] == known@[i as int].row_model());
            assert forall|path: Seq<char>| #[trigger] map@.contains_key(path) <==> known_at(
                all.take(i + 1),
                path,
            ) is Some by {
                lemma_known_step(all, i as int, path);
                assert(before.contains_key(path) <==> known_at(all.take(i as int), path) is Some);
            }
            assert forall|path: Seq<char>| #[trigger] map@.contains_key(path) implies known_at(
                all.take(i + 1),
                path,
            ) == Some(map@[path]) by {
                lemma_known_step(all, i as int, path);
                if all[i as int].0 != path {
                    assert(before.contains_key(path));
                }
            }
        }
        i += 1;
    }
    assert(all.take(all.len() as int) =~= all);
    map
}

/// Decides what a scan is to do, from what the index has and what was found.
pub fn plan_scan(known: &Vec<KnownFile>, found: Vec<FoundFile>) -> (r: ScanPlan)
    ensures
        found_models(r.pending@) == to_read(row_models(known@), found_models(found@)),
        are_gone(
            row_models(known@),
            found_models(found@),
            texts(r.gone@),
        ),
{
    let ghost all_known = row_models(known@);
    let ghost all_found = found_models(found@);
    let ghost given = found@;
    let index = index_known(known);
    let mut seen: StringHashSet = StringHashSet::new();
    let mut pending: Vec<FoundFile> = Vec::new();
    assert(found_models(pending@) =~= to_read(all_known, all_found.take(0)));
    for f in it: found
        invariant
            it.seq() == given,
            all_found == found_models(given),
            all_known == row_models(known@),
            forall|path: Seq<char>| #[trigger]
                index@.contains_key(path) <==> known_at(all_known, path) is Some,
            forall|path: Seq<char>| #[trigger]
                index@.contains_key(path) ==> known_at(all_known, path) == Some(index@[path]),
            forall|path: Seq<char>| #[trigger]
                seen@.contains(path) <==> is_found(all_found.take(it.index()), path),
            found_models(pending@) == to_read(all_known, all_found.take(it.index())),
    {
        let ghost at = it.index();
        let ghost m = f.model();
        let ghost before = pending@;
        let ghost seen_before = seen@;
        seen.insert(f.path.clone());
        let same = match index.get(f.path.as_str()) {
            Some(k) => k.0 == f.size && k.1 == f.mtime && k.2 > 0,
            None => false,
        };
        proof {
            assert(index@.contains_key(m.0) <==> known_at(all_known, m.0) is Some);
            assert(same == unchanged(all_known, m));
            assert(all_found.take(at + 1) =~= all_found.take(at).push(m));
            assert(all_found.take(at + 1).drop_last() =~= all_found.take(at));
            assert forall|path: Seq<char>| #[trigger] seen@.contains(path) <==> is_found(
                all_found.take(at + 1),
                path,
            ) by {
                lemma_found_push(all_found.take(at), m, path);
                assert(seen_before.contains(path) <==> is_found(all_found.take(at), path));
            }
        }
        if !same {
            pending.push(f);
            assert(found_models(pending@) =~= found_models(before).push(m));
        }
    }
    assert(all_found.take(all_found.len() as int) =~= all_found);
    let gone = list_gone(known, seen, Ghost(all_found));
    ScanPlan { pending, gone }
}

proof fn lemma_found_push(found: Seq<FoundModel>, f: FoundModel, path: Seq<char>)
    ensures
        is_found(found.push(f), path) <==> is_found(found, path) || f.0 == path,
{
    let more = found.push(f);
    if is_found(found, path) {
        let i = choose|i: int| 0 <= i < found.len() && (#[trigger] found[i]).0 == path;
        assert(more[i].0 == path);
    }
    if f.0 == path {
        assert(more[found.len() as int].0 == path);
    }
    if is_found(more, path) {
        let i = choose|i: int| 0 <= i < more.len() && (#[trigger] more[i]).0 == path;
        if i < found.len() {
            assert(found[i].0 == path);
        }
    }
}

/// The paths of the index that were not seen, each once.
fn list_gone(
    known: &Vec<KnownFile>,
    seen: StringHashSet,
    Ghost(found): Ghost<Seq<FoundModel>>,
) -> (r: Vec<String>)
    requires
        forall|path: Seq<char>| #[trigger] seen@.contains(path) <==> is_found(found, path),
    ensures
        are_gone(row_models(known@), found, texts(r@)),
{
    let ghost all = row_models(known@);
    let mut seen = seen;
    let mut gone: Vec<String> = Vec::new();
    let mut i: usize = 0;
    assert(texts(gone@) =~= Seq::<Seq<char>>::empty());
    while i < known.len()
        invariant
            i <= known@.len(),
            all == row_models(known@),
            are_gone(all.take(i as int), found, texts(gone@)),
            forall|path: Seq<char>| #[trigger]
                seen@.contains(path) <==> is_found(found, path) || texts(
                    gone@,
                ).contains(path),
        decreases known@.len() - i,
    {
        let ghost before = texts(gone@);
        let ghost seen_before = seen@;
        let ghost p = known@[i as int].path@;
        let path = known[i].path.clone();
        let new = seen.insert(path);
        if new {
            gone.push(known[i].path.clone());
        }
        proof {
            let after = texts(gone@);
            assert(all[i as int].0 == p);
            assert(seen_before.contains(p) <==> is_found(found, p) || before.contains(p));
            if new {
                assert(after =~= before.push(p));
                assert forall|path: Seq<char>| #[trigger] after.contains(path) <==> before.contains(
                    path,
                ) || path == p by {
                    if before.contains(path) {
                        let k = choose|k: int| 0 <= k < before.len() && before[k] == path;
                        assert(after[k] == path);
                    }
                    if path == p {
                        assert(after[before.len() as int] == path);
                    }
                }
            }
            assert forall|path: Seq<char>| #[trigger] after.contains(path) <==> known_at(
                all.take(i + 1),
                path,
            ) is Some && !is_found(found, path) by {
                lemma_known_step(all, i as int, path);
                assert(before.contains(path) <==> known_at(all.take(i as int), path) is Some
                    && !is_found(found, path));
            }
            assert forall|path: Seq<char>| #[trigger] seen@.contains(path) <==> is_found(
                found,
                path,
            ) || after.contains(path) by {
                assert(seen_before.contains(path) <==> is_found(found, path) || before.contains(
                    path,
                ));
            }
        }
        i += 1;
    }
    assert(all.take(all.len() as int) =~= all);
    gone
}

/// A scan right after one that read every file has nothing to do: where the index
/// has each file as it is found, with its size in pixels, nothing is read.
pub proof fn law_unchanged_files_stay(
    known: Seq<(Seq<char>, i64, i64, i64)>,
    found: Seq<FoundModel>,
)
    requires
        forall|i: int| 0 <= i < found.len() ==> unchanged(known, #[trigger] found[i]),
    ensures
        to_read(known, found) == Seq::<FoundModel>::empty(),
    decreases found.len(),
{
    if found.len() > 0 {
        law_unchanged_files_stay(known, found.drop_last());
    }
}

/// A file is read exactly where it is found and not as the index has it.
pub proof fn law_changed_files_are_read(
    known: Seq<(Seq<char>, i64, i64, i64)>,
    found: Seq<FoundModel>,
    f: FoundModel,
)
    ensures
        to_read(known, found).contains(f) <==> found.contains(f) && !unchanged(known, f),
    decreases found.len(),
{
    let list = to_read(known, found);
    if found.len() > 0 {
        let rest = found.drop_last();
        let before = to_read(known, rest);
        law_changed_files_are_read(known, rest, f);
        assert(found =~= rest.push(found.last()));
        lemma_contains_push(rest, found.last(), f);
        if !unchanged(known, found.last()) {
            lemma_contains_push(before, found.last(), f);
        }
    }
}

proof fn lemma_contains_push(s: Seq<FoundModel>, x: FoundModel, f: FoundModel)
    ensures
        s.push(x).contains(f) <==> s.contains(f) || x == f,
{
    if s.contains(f) {
        let i = choose|i: int| 0 <= i < s.len() && s[i] == f;
        assert(s.push(x)[i] == f);
    }
    if x == f {
        assert(s.push(x)[s.len() as int] == f);
    }
    if s.push(x).contains(f) {
        let i = choose|i: int| 0 <= i < s.push(x).len() && s.push(x)[i] == f;
        if i < s.len() {
            assert(s[i] == f);
        }
    }
}

// ---------------------------------------------------------------------------
// What a plan comes to
// ---------------------------------------------------------------------------

/// Whether the last entry that the index has on a path is the one at `k`.
pub open spec fn is_last_entry(
    known: Seq<(Seq<char>, i64, i64, i64)>,
    path: Seq<char>,
    k: int,
) -> bool {
    &&& 0 <= k < known.len()
    &&& known[k].0 == path
    &&& forall|i: int| k < i < known.len() ==> (#[trigger] known[i]).0 != path
}

/// Whether the index has no entry on a path.
pub open spec fn is_unknown(known: Seq<(Seq<char>, i64, i64, i64)>, path: Seq<char>) -> bool {
    forall|i: int| 0 <= i < known.len() ==> (#[trigger] known[i]).0 != path
}

/// What the index has on a path, by the places of its entries.
proof fn lemma_known_at(known: Seq<(Seq<char>, i64, i64, i64)>, path: Seq<char>)
    ensures
        known_at(known, path) is None <==> is_unknown(known, path),
        known_at(known, path) matches Some(v) ==> exists|k: int| #[trigger]
            is_last_entry(known, path, k) && v == (known[k].1, known[k].2, known[k].3),
    decreases known.len(),
{
    if known.len() > 0 {
        let rest = known.drop_last();
        let last = known.len() - 1;
        lemma_known_at(rest, path);
        if known[last].0 == path {
            assert(is_last_entry(known, path, last));
        } else {
            if known_at(rest, path) is Some {
                let k = choose|k: int| #[trigger]
                    is_last_entry(rest, path, k) && known_at(rest, path) == Some(
                        (rest[k].1, rest[k].2, rest[k].3),
                    );
                assert(known[k] == rest[k]);
                assert forall|i: int| k < i < known.len() implies (#[trigger] known[i]).0 != path by {
                    if i < last {
                        assert(rest[i] == known[i]);
                    }
                }
                assert(is_last_entry(known, path, k));
            } else {
                assert forall|i: int| 0 <= i < known.len() implies (#[trigger] known[i]).0 != path by {
                    if i < last {
                        assert(rest[i] == known[i]);
                    }
                }
            }
            if is_unknown(known, path) {
                assert forall|i: int| 0 <= i < rest.len() implies (#[trigger] rest[i]).0 != path by {
                    assert(known[i] == rest[i]);
                }
            }
        }
    }
}

/// A file that was found is passed over exactly where the last entry that the index has
/// on its path has its size and its time, and a width above zero.
pub proof fn law_same_files_are_passed_over(
    known: Seq<(Seq<char>, i64, i64, i64)>,
    found: Seq<FoundModel>,
    f: FoundModel,
)
    requires
        found.contains(f),
    ensures
        !to_read(known, found).contains(f) <==> exists|k: int| #[trigger]
            is_last_entry(known, f.0, k) && known[k].1 == f.1 && known[k].2 == f.2 && known[k].3 > 0,
        is_unknown(known, f.0) ==> to_read(known, found).contains(f),
{
    law_changed_files_are_read(known, found, f);
    lemma_known_at(known, f.0);
    if exists|k: int| #[trigger]
        is_last_entry(known, f.0, k) && known[k].1 == f.1 && known[k].2 == f.2 && known[k].3 > 0 {
        let k = choose|k: int| #[trigger]
            is_last_entry(known, f.0, k) && known[k].1 == f.1 && known[k].2 == f.2 && known[k].3 > 0;
        assert(!is_unknown(known, f.0));
        let v = known_at(known, f.0)->0;
        let m = choose|m: int| #[trigger]
            is_last_entry(known, f.0, m) && v == (known[m].1, known[m].2, known[m].3);
        assert(m == k) by {
            if m < k {
                assert(known[k].0 != f.0);
            } else if k < m {
                assert(known[m].0 != f.0);
            }
        }
    }
}

/// Files are read in the order in which they were found, each as often as it was: there
/// are places in the list of what was found, one behind the other, where the files to
/// read stand, and every file at another place is passed over.
pub proof fn law_files_are_read_in_order(
    known: Seq<(Seq<char>, i64, i64, i64)>,
    found: Seq<FoundModel>,
) -> (places: Seq<int>)
    ensures
        places.len() == to_read(known, found).len(),
        forall|j: int|
            0 <= j < places.len() ==> 0 <= #[trigger] places[j] < found.len() && to_read(
                known,
                found,
            )[j] == found[places[j]],
        forall|i: int, j: int|
            0 <= i < j < places.len() ==> #[trigger] places[i] < #[trigger] places[j],
        forall|i: int|
            0 <= i < found.len() && !places.contains(i) ==> !to_read(known, found).contains(
                #[trigger] found[i],
            ),
    decreases found.len(),
{
    let list = to_read(known, found);
    if found.len() == 0 {
        Seq::empty()
    } else {
        let rest = found.drop_last();
        let last = found.len() - 1;
        let before = law_files_are_read_in_order(known, rest);
        let places = if unchanged(known, found.last()) {
            before
        } else {
            before.push(last)
        };
        assert forall|i: int| 0 <= i < found.len() && !places.contains(i) implies !list.contains(
            #[trigger] found[i],
        ) by {
            law_changed_files_are_read(known, found, found[i]);
            law_changed_files_are_read(known, rest, found[i]);
            if i < last {
                assert(rest[i] == found[i]);
                if before.contains(i) {
                    let j = choose|j: int| 0 <= j < before.len() && before[j] == i;
                    assert(places[j] == i);
                }
                assert(rest.contains(rest[i]));
            } else if !unchanged(known, found.last()) {
                assert(places[before.len() as int] == last);
            }
        }
        assert forall|j: int| 0 <= j < places.len() implies 0 <= #[trigger] places[j] < found.len()
            && list[j] == found[places[j]] by {
            if j < before.len() {
                assert(places[j] == before[j]);
                assert(rest[before[j]] == found[before[j]]);
            }
        }
        places
    }
}

/// A path leaves the index exactly where the index has an entry on it and no file was
/// found there, and it leaves once.
pub proof fn law_paths_that_are_gone_leave(
    known: Seq<(Seq<char>, i64, i64, i64)>,
    found: Seq<FoundModel>,
    gone: Seq<Seq<char>>,
    path: Seq<char>,
)
    requires
        are_gone(known, found, gone),
    ensures
        gone.contains(path) <==> (exists|i: int| 0 <= i < known.len() && (#[trigger] known[i]).0 == path)
            && forall|i: int| 0 <= i < found.len() ==> (#[trigger] found[i]).0 != path,
        forall|i: int, j: int| 0 <= i < j < gone.len() ==> #[trigger] gone[i] != #[trigger] gone[j],
{
    lemma_known_at(known, path);
    if gone.contains(path) {
        assert(!is_unknown(known, path));
        assert forall|i: int| 0 <= i < found.len() implies (#[trigger] found[i]).0 != path by {
            if found[i].0 == path {
                assert(is_found(found, path));
            }
        }
    }
    if (exists|i: int| 0 <= i < known.len() && (#[trigger] known[i]).0 == path) && (forall|i: int|
        0 <= i < found.len() ==> (#[trigger] found[i]).0 != path) {
        assert(!is_unknown(known, path));
        assert(!is_found(found, path));
    }
}

/// Whether two descriptions of a file differ in nothing but the size of the image.
pub open spec fn same_but_size(a: NaiModel, b: NaiModel) -> bool {
    &&& a.is_novelai == b.is_novelai
    &&& a.model == b.model
    &&& a.seed == b.seed
    &&& a.sampler == b.sampler
    &&& a.steps == b.steps
    &&& a.scale == b.scale
    &&& a.raw_prompt == b.raw_prompt
    &&& a.raw_negative == b.raw_negative
    &&& a.comment_json == b.comment_json
    &&& a.tags == b.tags
}

/// A size that is known stays. One that is not, because a side is zero or nothing is
/// known of the file, is the one that the header tells, and all else stays; a file of
/// which nothing else is known is not one of NovelAI, and has no tags.
pub proof fn law_sizes_come_from_the_header(meta: Option<NaiModel>, w: u32, h: u32)
    ensures
        meta is Some && meta->0.width > 0 && meta->0.height > 0 ==> sized(meta, Some((w, h))) == meta,
        meta is Some && (meta->0.width == 0 || meta->0.height == 0) ==> (sized(meta, Some((w, h))) matches Some(
            n,
        ) && n.width == w && n.height == h && same_but_size(meta->0, n)),
        meta is None ==> (sized(meta, Some((w, h))) matches Some(n) && n.width == w && n.height == h
            && !n.is_novelai && n.model is None && n.seed is None && n.sampler is None
            && n.steps is None && n.scale is None && n.raw_prompt is None && n.raw_negative is None
            && n.comment_json is None && n.tags.len() == 0),
        sized(meta, None) == meta,
{
}

/// An image whose sides have at most 98304 pixels has a thumbnail whose sides have at
/// most 512, where it can be encoded; a file that is no image has none.
pub proof fn law_images_have_thumbnails(data: Seq<u8>, img: image::DynamicImage)
    requires
        decoded_image(data) == Some(img),
        image_size(img).0 <= 98304,
        image_size(img).1 <= 98304,
    ensures
        thumbnail_of(data) == thumbnail_file(img, 512),
{
    let (width, height) = image_size(img);
    let long = if width < height {
        height as int
    } else {
        width as int
    };
    let short = width + height - long;
    let a = smaller(long, long / 512 + long / 0x10_0000 + 3);
    let b = smaller(short, 3 * long / 1024 + long / 0x10_0000 + 3);
    assert(block_bound(width, height, 512) == a * b);
    assert(a * b <= 195 * 291) by (nonlinear_arith)
        requires
            0 <= a <= 195,
            0 <= b <= 291,
    ;
}

} // verus!
