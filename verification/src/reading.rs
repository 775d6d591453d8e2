//! What rows are read as: a value is found in the row where the text of the statement
//! names its column.

use crate::columns::{ends_at, item, item_start, name_end, next_comma, past_white};
use crate::db::{
    AlbumInfo, DayCount, FolderInfo, ImageRow, LibraryStats, SavedSearch, TagDetail, TagPair,
    TagSuggestion, ALBUMS_SQL, DAYS_SQL, FOLDERS_SQL, FREQUENCY_SQL, HIDDEN_TAGS_SQL, IMAGE_SQL,
    IMAGE_TAGS_SQL, PAIRS_SQL, PATHS_SQL, SEARCHES_SQL, STATS_SQL, SUGGEST_SQL, WATCHED_SQL,
};
use crate::duplicates::{DupRow, HASHES_SQL, MEMBER_SQL};
use crate::query::{page_request, ImageCard, Query};
use crate::scanner::KnownFile;
use crate::sql::{all_read, one_read, readable, readable_rows, CellModel, ErrKind, FromRow, Reply};
use crate::store::{INDEXED_SQL, KNOWN_SQL};
use crate::text::decimal;
use crate::tree::{Located, TREE_SQL};
use vstd::prelude::*;
use vstd::utf8::{decode_utf8, valid_utf8};

verus! {

// ---------------------------------------------------------------------------
// Columns of a row
// ---------------------------------------------------------------------------

/// Whether the item `k` of what a statement selects has the given name.
pub open spec fn is_selected(sql: Seq<char>, name: Seq<char>, k: int) -> bool {
    exists|from: int| #[trigger]
        ends_at(sql, "SELECT "@, from) && item(sql, from, k) == name
}

/// Whether a row has the cell in the column of the given name.
pub open spec fn shows(sql: Seq<char>, row: Seq<CellModel>, name: Seq<char>, cell: CellModel) -> bool {
    exists|k: int|
        0 <= k < row.len() && #[trigger] is_selected(sql, name, k) && row[k] == cell
}

/// Whether a row has the number in the column of the given name.
pub open spec fn shows_int(sql: Seq<char>, row: Seq<CellModel>, name: Seq<char>, n: int) -> bool {
    i64::MIN <= n <= i64::MAX && shows(sql, row, name, CellModel::Integer(n as i64))
}

/// Whether a row has the number in the column of the given name, or nothing there
/// where there is none.
pub open spec fn shows_opt_int(
    sql: Seq<char>,
    row: Seq<CellModel>,
    name: Seq<char>,
    n: Option<i64>,
) -> bool {
    match n {
        Some(n) => shows(sql, row, name, CellModel::Integer(n)),
        None => shows(sql, row, name, CellModel::Null),
    }
}

/// Whether a row has a truth value in the column of the given name: any number but
/// zero is true.
pub open spec fn shows_flag(sql: Seq<char>, row: Seq<CellModel>, name: Seq<char>, b: bool) -> bool {
    if b {
        exists|n: i64| n != 0 && #[trigger] shows(sql, row, name, CellModel::Integer(n))
    } else {
        shows(sql, row, name, CellModel::Integer(0))
    }
}

/// Whether a row has the text in the column of the given name.
pub open spec fn shows_text(sql: Seq<char>, row: Seq<CellModel>, name: Seq<char>, s: Seq<char>) -> bool {
    exists|b: Seq<u8>|
        valid_utf8(b) && decode_utf8(b) == s && #[trigger] shows(sql, row, name, CellModel::Text(b))
}

/// Whether a row has the text in the column of the given name, or nothing there where
/// there is none.
pub open spec fn shows_opt_text(
    sql: Seq<char>,
    row: Seq<CellModel>,
    name: Seq<char>,
    s: Option<String>,
) -> bool {
    match s {
        Some(s) => shows_text(sql, row, name, s@),
        None => shows(sql, row, name, CellModel::Null),
    }
}

/// Whether a row has the number in the column of the given name, in decimal, or
/// nothing there where there is none.
pub open spec fn shows_opt_real(
    sql: Seq<char>,
    row: Seq<CellModel>,
    name: Seq<char>,
    x: Option<String>,
) -> bool {
    match x {
        Some(x) => shows(sql, row, name, CellModel::Real(x@)) || exists|n: i64|
            decimal(n as int) == x@ && #[trigger] shows(sql, row, name, CellModel::Integer(n)),
        None => shows(sql, row, name, CellModel::Null),
    }
}

/// Whether a row has a number at `k`.
pub open spec fn has_int(row: Seq<CellModel>, k: int) -> bool {
    k < row.len() && row[k] is Integer
}

/// Whether a row has a number at `k` that can be a width or a height.
pub open spec fn has_small(row: Seq<CellModel>, k: int) -> bool {
    k < row.len() && (row[k] matches CellModel::Integer(n) && 0 <= n <= 0xffff_ffff)
}

/// Whether a row has a text at `k`.
pub open spec fn has_text(row: Seq<CellModel>, k: int) -> bool {
    k < row.len() && (row[k] matches CellModel::Text(b) && valid_utf8(b))
}

/// Whether a row has nothing at `k`.
pub open spec fn has_null(row: Seq<CellModel>, k: int) -> bool {
    k < row.len() && row[k] is Null
}

/// Whether a row has a floating-point number at `k`.
pub open spec fn has_real(row: Seq<CellModel>, k: int) -> bool {
    k < row.len() && (row[k] is Real || row[k] is Integer)
}

/// What a statement selects is in the row.
proof fn lemma_shown(sql: Seq<char>, row: Seq<CellModel>, name: Seq<char>, from: int, k: int)
    requires
        0 <= k < row.len(),
        ends_at(sql, "SELECT "@, from),
        item(sql, from, k) == name,
    ensures
        shows(sql, row, name, row[k]),
{
    assert(is_selected(sql, name, k));
}

proof fn lemma_image_columns()
    ensures
        ends_at(IMAGE_SQL@, "SELECT "@, 7),
        item(IMAGE_SQL@, 7, 0) == "id"@,
        item(IMAGE_SQL@, 7, 1) == "path"@,
        item(IMAGE_SQL@, 7, 2) == "width"@,
        item(IMAGE_SQL@, 7, 3) == "height"@,
        item(IMAGE_SQL@, 7, 4) == "file_mtime"@,
        item(IMAGE_SQL@, 7, 5) == "is_novelai"@,
        item(IMAGE_SQL@, 7, 6) == "model"@,
        item(IMAGE_SQL@, 7, 7) == "seed"@,
        item(IMAGE_SQL@, 7, 8) == "sampler"@,
        item(IMAGE_SQL@, 7, 9) == "steps"@,
        item(IMAGE_SQL@, 7, 10) == "scale"@,
        item(IMAGE_SQL@, 7, 11) == "raw_prompt"@,
        item(IMAGE_SQL@, 7, 12) == "raw_negative"@,
        item(IMAGE_SQL@, 7, 13) == "rating"@,
        item(IMAGE_SQL@, 7, 14) == "favorite"@,
{
    let s = IMAGE_SQL@;
    reveal_strlit("SELECT id, path, width, height, file_mtime, is_novelai, model, seed, sampler,
                steps, scale, raw_prompt, raw_negative, rating, favorite
         FROM images WHERE id = ?1");
    reveal_strlit("SELECT ");
    assert(s.subrange(0, 7) =~= "SELECT "@);
    assert(item_start(s, 7, 0) == 7);
    assert(past_white(s, 7) == 7) by {
        reveal_with_fuel(past_white, 2);
    }
    assert(name_end(s, 7) == 9) by {
        reveal_with_fuel(name_end, 4);
    }
    reveal_strlit("id");
    assert(item(s, 7, 0) =~= "id"@);
    assert(next_comma(s, 7) == 9) by {
        reveal_with_fuel(next_comma, 4);
    }
    assert(item_start(s, 7, 1) == 10);
    assert(past_white(s, 10) == 11) by {
        reveal_with_fuel(past_white, 3);
    }
    assert(name_end(s, 11) == 15) by {
        reveal_with_fuel(name_end, 6);
    }
    reveal_strlit("path");
    assert(item(s, 7, 1) =~= "path"@);
    assert(next_comma(s, 10) == 15) by {
        reveal_with_fuel(next_comma, 7);
    }
    assert(item_start(s, 7, 2) == 16);
    assert(past_white(s, 16) == 17) by {
        reveal_with_fuel(past_white, 3);
    }
    assert(name_end(s, 17) == 22) by {
        reveal_with_fuel(name_end, 7);
    }
    reveal_strlit("width");
    assert(item(s, 7, 2) =~= "width"@);
    assert(next_comma(s, 16) == 22) by {
        reveal_with_fuel(next_comma, 8);
    }
    assert(item_start(s, 7, 3) == 23);
    assert(past_white(s, 23) == 24) by {
        reveal_with_fuel(past_white, 3);
    }
    assert(name_end(s, 24) == 30) by {
        reveal_with_fuel(name_end, 8);
    }
    reveal_strlit("height");
    assert(item(s, 7, 3) =~= "height"@);
    assert(next_comma(s, 23) == 30) by {
        reveal_with_fuel(next_comma, 9);
    }
    assert(item_start(s, 7, 4) == 31);
    assert(past_white(s, 31) == 32) by {
        reveal_with_fuel(past_white, 3);
    }
    assert(name_end(s, 32) == 42) by {
        reveal_with_fuel(name_end, 12);
    }
    reveal_strlit("file_mtime");
    assert(item(s, 7, 4) =~= "file_mtime"@);
    assert(next_comma(s, 31) == 42) by {
        reveal_with_fuel(next_comma, 13);
    }
    assert(item_start(s, 7, 5) == 43);
    assert(past_white(s, 43) == 44) by {
        reveal_with_fuel(past_white, 3);
    }
    assert(name_end(s, 44) == 54) by {
        reveal_with_fuel(name_end, 12);
    }
    reveal_strlit("is_novelai");
    assert(item(s, 7, 5) =~= "is_novelai"@);
    assert(next_comma(s, 43) == 54) by {
        reveal_with_fuel(next_comma, 13);
    }
    assert(item_start(s, 7, 6) == 55);
    assert(past_white(s, 55) == 56) by {
        reveal_with_fuel(past_white, 3);
    }
    assert(name_end(s, 56) == 61) by {
        reveal_with_fuel(name_end, 7);
    }
    reveal_strlit("model");
    assert(item(s, 7, 6) =~= "model"@);
    assert(next_comma(s, 55) == 61) by {
        reveal_with_fuel(next_comma, 8);
    }
    assert(item_start(s, 7, 7) == 62);
    assert(past_white(s, 62) == 63) by {
        reveal_with_fuel(past_white, 3);
    }
    assert(name_end(s, 63) == 67) by {
        reveal_with_fuel(name_end, 6);
    }
    reveal_strlit("seed");
    assert(item(s, 7, 7) =~= "seed"@);
    assert(next_comma(s, 62) == 67) by {
        reveal_with_fuel(next_comma, 7);
    }
    assert(item_start(s, 7, 8) == 68);
    assert(past_white(s, 68) == 69) by {
        reveal_with_fuel(past_white, 3);
    }
    assert(name_end(s, 69) == 76) by {
        reveal_with_fuel(name_end, 9);
    }
    reveal_strlit("sampler");
    assert(item(s, 7, 8) =~= "sampler"@);
    assert(next_comma(s, 68) == 76) by {
        reveal_with_fuel(next_comma, 10);
    }
    assert(item_start(s, 7, 9) == 77);
    assert(past_white(s, 77) == 94) by {
        reveal_with_fuel(past_white, 19);
    }
    assert(name_end(s, 94) == 99) by {
        reveal_with_fuel(name_end, 7);
    }
    reveal_strlit("steps");
    assert(item(s, 7, 9) =~= "steps"@);
    assert(next_comma(s, 77) == 99) by {
        reveal_with_fuel(next_comma, 24);
    }
    assert(item_start(s, 7, 10) == 100);
    assert(past_white(s, 100) == 101) by {
        reveal_with_fuel(past_white, 3);
    }
    assert(name_end(s, 101) == 106) by {
        reveal_with_fuel(name_end, 7);
    }
    reveal_strlit("scale");
    assert(item(s, 7, 10) =~= "scale"@);
    assert(next_comma(s, 100) == 106) by {
        reveal_with_fuel(next_comma, 8);
    }
    assert(item_start(s, 7, 11) == 107);
    assert(past_white(s, 107) == 108) by {
        reveal_with_fuel(past_white, 3);
    }
    assert(name_end(s, 108) == 118) by {
        reveal_with_fuel(name_end, 12);
    }
    reveal_strlit("raw_prompt");
    assert(item(s, 7, 11) =~= "raw_prompt"@);
    assert(next_comma(s, 107) == 118) by {
        reveal_with_fuel(next_comma, 13);
    }
    assert(item_start(s, 7, 12) == 119);
    assert(past_white(s, 119) == 120) by {
        reveal_with_fuel(past_white, 3);
    }
    assert(name_end(s, 120) == 132) by {
        reveal_with_fuel(name_end, 14);
    }
    reveal_strlit("raw_negative");
    assert(item(s, 7, 12) =~= "raw_negative"@);
    assert(next_comma(s, 119) == 132) by {
        reveal_with_fuel(next_comma, 15);
    }
    assert(item_start(s, 7, 13) == 133);
    assert(past_white(s, 133) == 134) by {
        reveal_with_fuel(past_white, 3);
    }
    assert(name_end(s, 134) == 140) by {
        reveal_with_fuel(name_end, 8);
    }
    reveal_strlit("rating");
    assert(item(s, 7, 13) =~= "rating"@);
    assert(next_comma(s, 133) == 140) by {
        reveal_with_fuel(next_comma, 9);
    }
    assert(item_start(s, 7, 14) == 141);
    assert(past_white(s, 141) == 142) by {
        reveal_with_fuel(past_white, 3);
    }
    assert(name_end(s, 142) == 150) by {
        reveal_with_fuel(name_end, 10);
    }
    reveal_strlit("favorite");
    assert(item(s, 7, 14) =~= "favorite"@);
}

/// What is read of an image is in the columns of its names.
pub proof fn law_images_are_read_by_column(row: Seq<CellModel>, v: ImageRow)
    ensures
        <ImageRow as FromRow>::decoded(row) is Some <==> has_int(row, 0) && has_text(row, 1) && has_small(row, 2) && has_small(row, 3) && has_int(row, 4) && has_int(row, 5) && (has_null(row, 6) || has_text(row, 6)) && (has_null(row, 7) || has_int(row, 7)) && (has_null(row, 8) || has_text(row, 8)) && (has_null(row, 9) || has_int(row, 9)) && (has_null(row, 10) || has_real(row, 10)) && (has_null(row, 11) || has_text(row, 11)) && (has_null(row, 12) || has_text(row, 12)) && has_int(row, 13) && has_int(row, 14),
        <ImageRow as FromRow>::decoded(row) == Some(v.row_model()) ==> {
            &&& shows_int(IMAGE_SQL@, row, "id"@, v.id as int)
            &&& shows_text(IMAGE_SQL@, row, "path"@, v.path@)
            &&& shows_int(IMAGE_SQL@, row, "width"@, v.width as int)
            &&& shows_int(IMAGE_SQL@, row, "height"@, v.height as int)
            &&& shows_int(IMAGE_SQL@, row, "file_mtime"@, v.file_mtime as int)
            &&& shows_flag(IMAGE_SQL@, row, "is_novelai"@, v.is_novelai)
            &&& shows_opt_text(IMAGE_SQL@, row, "model"@, v.model)
            &&& shows_opt_int(IMAGE_SQL@, row, "seed"@, v.seed)
            &&& shows_opt_text(IMAGE_SQL@, row, "sampler"@, v.sampler)
            &&& shows_opt_int(IMAGE_SQL@, row, "steps"@, v.steps)
            &&& shows_opt_real(IMAGE_SQL@, row, "scale"@, v.scale)
            &&& shows_opt_text(IMAGE_SQL@, row, "raw_prompt"@, v.raw_prompt)
            &&& shows_opt_text(IMAGE_SQL@, row, "raw_negative"@, v.raw_negative)
            &&& shows_int(IMAGE_SQL@, row, "rating"@, v.rating as int)
            &&& shows_flag(IMAGE_SQL@, row, "favorite"@, v.favorite)
        },
{
    let sql = IMAGE_SQL@;
    lemma_image_columns();
    if <ImageRow as FromRow>::decoded(row) == Some(v.row_model()) {
        lemma_shown(sql, row, "id"@, 7, 0);
        lemma_shown(sql, row, "path"@, 7, 1);
        lemma_shown(sql, row, "width"@, 7, 2);
        lemma_shown(sql, row, "height"@, 7, 3);
        lemma_shown(sql, row, "file_mtime"@, 7, 4);
        lemma_shown(sql, row, "is_novelai"@, 7, 5);
        lemma_shown(sql, row, "model"@, 7, 6);
        lemma_shown(sql, row, "seed"@, 7, 7);
        lemma_shown(sql, row, "sampler"@, 7, 8);
        lemma_shown(sql, row, "steps"@, 7, 9);
        lemma_shown(sql, row, "scale"@, 7, 10);
        lemma_shown(sql, row, "raw_prompt"@, 7, 11);
        lemma_shown(sql, row, "raw_negative"@, 7, 12);
        lemma_shown(sql, row, "rating"@, 7, 13);
        lemma_shown(sql, row, "favorite"@, 7, 14);
    }
}

proof fn lemma_image_tags_columns()
    ensures
        ends_at(IMAGE_TAGS_SQL@, "SELECT "@, 7),
        item(IMAGE_TAGS_SQL@, 7, 0) == "t.name"@,
        item(IMAGE_TAGS_SQL@, 7, 1) == "t.category"@,
        item(IMAGE_TAGS_SQL@, 7, 2) == "it.source"@,
        item(IMAGE_TAGS_SQL@, 7, 3) == "t.hidden"@,
{
    let s = IMAGE_TAGS_SQL@;
    reveal_strlit("SELECT t.name, t.category, it.source, t.hidden FROM image_tags it
         JOIN tags t ON t.id = it.tag_id WHERE it.image_id = ?1
         ORDER BY CASE t.category WHEN 'artist' THEN 0 WHEN 'general' THEN 1 ELSE 2 END, t.name");
    reveal_strlit("SELECT ");
    assert(s.subrange(0, 7) =~= "SELECT "@);
    assert(item_start(s, 7, 0) == 7);
    assert(past_white(s, 7) == 7) by {
        reveal_with_fuel(past_white, 2);
    }
    assert(name_end(s, 7) == 13) by {
        reveal_with_fuel(name_end, 8);
    }
    reveal_strlit("t.name");
    assert(item(s, 7, 0) =~= "t.name"@);
    assert(next_comma(s, 7) == 13) by {
        reveal_with_fuel(next_comma, 8);
    }
    assert(item_start(s, 7, 1) == 14);
    assert(past_white(s, 14) == 15) by {
        reveal_with_fuel(past_white, 3);
    }
    assert(name_end(s, 15) == 25) by {
        reveal_with_fuel(name_end, 12);
    }
    reveal_strlit("t.category");
    assert(item(s, 7, 1) =~= "t.category"@);
    assert(next_comma(s, 14) == 25) by {
        reveal_with_fuel(next_comma, 13);
    }
    assert(item_start(s, 7, 2) == 26);
    assert(past_white(s, 26) == 27) by {
        reveal_with_fuel(past_white, 3);
    }
    assert(name_end(s, 27) == 36) by {
        reveal_with_fuel(name_end, 11);
    }
    reveal_strlit("it.source");
    assert(item(s, 7, 2) =~= "it.source"@);
    assert(next_comma(s, 26) == 36) by {
        reveal_with_fuel(next_comma, 12);
    }
    assert(item_start(s, 7, 3) == 37);
    assert(past_white(s, 37) == 38) by {
        reveal_with_fuel(past_white, 3);
    }
    assert(name_end(s, 38) == 46) by {
        reveal_with_fuel(name_end, 10);
    }
    reveal_strlit("t.hidden");
    assert(item(s, 7, 3) =~= "t.hidden"@);
}

/// What is read of an image's tag is in the columns of its names.
pub proof fn law_image_tags_are_read_by_column(row: Seq<CellModel>, v: TagDetail)
    ensures
        <TagDetail as FromRow>::decoded(row) is Some <==> has_text(row, 0) && has_text(row, 1) && has_text(row, 2) && has_int(row, 3),
        <TagDetail as FromRow>::decoded(row) == Some(v.row_model()) ==> {
            &&& shows_text(IMAGE_TAGS_SQL@, row, "t.name"@, v.name@)
            &&& shows_text(IMAGE_TAGS_SQL@, row, "t.category"@, v.category@)
            &&& shows_text(IMAGE_TAGS_SQL@, row, "it.source"@, v.source@)
            &&& shows_flag(IMAGE_TAGS_SQL@, row, "t.hidden"@, v.hidden)
        },
{
    let sql = IMAGE_TAGS_SQL@;
    lemma_image_tags_columns();
    if <TagDetail as FromRow>::decoded(row) == Some(v.row_model()) {
        lemma_shown(sql, row, "t.name"@, 7, 0);
        lemma_shown(sql, row, "t.category"@, 7, 1);
        lemma_shown(sql, row, "it.source"@, 7, 2);
        lemma_shown(sql, row, "t.hidden"@, 7, 3);
    }
}

proof fn lemma_member_columns()
    ensures
        ends_at(MEMBER_SQL@, "SELECT "@, 7),
        item(MEMBER_SQL@, 7, 0) == "path"@,
        item(MEMBER_SQL@, 7, 1) == "width"@,
        item(MEMBER_SQL@, 7, 2) == "height"@,
        item(MEMBER_SQL@, 7, 3) == "file_size"@,
        item(MEMBER_SQL@, 7, 4) == "file_mtime"@,
        item(MEMBER_SQL@, 7, 5) == "seed"@,
        item(MEMBER_SQL@, 7, 6) == "rating"@,
        item(MEMBER_SQL@, 7, 7) == "favorite"@,
{
    let s = MEMBER_SQL@;
    reveal_strlit("SELECT path, width, height, file_size, file_mtime, seed, rating, favorite
         FROM images WHERE id = ?1");
    reveal_strlit("SELECT ");
    assert(s.subrange(0, 7) =~= "SELECT "@);
    assert(item_start(s, 7, 0) == 7);
    assert(past_white(s, 7) == 7) by {
        reveal_with_fuel(past_white, 2);
    }
    assert(name_end(s, 7) == 11) by {
        reveal_with_fuel(name_end, 6);
    }
    reveal_strlit("path");
    assert(item(s, 7, 0) =~= "path"@);
    assert(next_comma(s, 7) == 11) by {
        reveal_with_fuel(next_comma, 6);
    }
    assert(item_start(s, 7, 1) == 12);
    assert(past_white(s, 12) == 13) by {
        reveal_with_fuel(past_white, 3);
    }
    assert(name_end(s, 13) == 18) by {
        reveal_with_fuel(name_end, 7);
    }
    reveal_strlit("width");
    assert(item(s, 7, 1) =~= "width"@);
    assert(next_comma(s, 12) == 18) by {
        reveal_with_fuel(next_comma, 8);
    }
    assert(item_start(s, 7, 2) == 19);
    assert(past_white(s, 19) == 20) by {
        reveal_with_fuel(past_white, 3);
    }
    assert(name_end(s, 20) == 26) by {
        reveal_with_fuel(name_end, 8);
    }
    reveal_strlit("height");
    assert(item(s, 7, 2) =~= "height"@);
    assert(next_comma(s, 19) == 26) by {
        reveal_with_fuel(next_comma, 9);
    }
    assert(item_start(s, 7, 3) == 27);
    assert(past_white(s, 27) == 28) by {
        reveal_with_fuel(past_white, 3);
    }
    assert(name_end(s, 28) == 37) by {
        reveal_with_fuel(name_end, 11);
    }
    reveal_strlit("file_size");
    assert(item(s, 7, 3) =~= "file_size"@);
    assert(next_comma(s, 27) == 37) by {
        reveal_with_fuel(next_comma, 12);
    }
    assert(item_start(s, 7, 4) == 38);
    assert(past_white(s, 38) == 39) by {
        reveal_with_fuel(past_white, 3);
    }
    assert(name_end(s, 39) == 49) by {
        reveal_with_fuel(name_end, 12);
    }
    reveal_strlit("file_mtime");
    assert(item(s, 7, 4) =~= "file_mtime"@);
    assert(next_comma(s, 38) == 49) by {
        reveal_with_fuel(next_comma, 13);
    }
    assert(item_start(s, 7, 5) == 50);
    assert(past_white(s, 50) == 51) by {
        reveal_with_fuel(past_white, 3);
    }
    assert(name_end(s, 51) == 55) by {
        reveal_with_fuel(name_end, 6);
    }
    reveal_strlit("seed");
    assert(item(s, 7, 5) =~= "seed"@);
    assert(next_comma(s, 50) == 55) by {
        reveal_with_fuel(next_comma, 7);
    }
    assert(item_start(s, 7, 6) == 56);
    assert(past_white(s, 56) == 57) by {
        reveal_with_fuel(past_white, 3);
    }
    assert(name_end(s, 57) == 63) by {
        reveal_with_fuel(name_end, 8);
    }
    reveal_strlit("rating");
    assert(item(s, 7, 6) =~= "rating"@);
    assert(next_comma(s, 56) == 63) by {
        reveal_with_fuel(next_comma, 9);
    }
    assert(item_start(s, 7, 7) == 64);
    assert(past_white(s, 64) == 65) by {
        reveal_with_fuel(past_white, 3);
    }
    assert(name_end(s, 65) == 73) by {
        reveal_with_fuel(name_end, 10);
    }
    reveal_strlit("favorite");
    assert(item(s, 7, 7) =~= "favorite"@);
}

/// What is read of a near-duplicate is in the columns of its names.
pub proof fn law_members_are_read_by_column(row: Seq<CellModel>, v: DupRow)
    ensures
        <DupRow as FromRow>::decoded(row) is Some <==> has_text(row, 0) && has_small(row, 1) && has_small(row, 2) && has_int(row, 3) && has_int(row, 4) && (has_null(row, 5) || has_int(row, 5)) && has_int(row, 6) && has_int(row, 7),
        <DupRow as FromRow>::decoded(row) == Some(v.row_model()) ==> {
            &&& shows_text(MEMBER_SQL@, row, "path"@, v.path@)
            &&& shows_int(MEMBER_SQL@, row, "width"@, v.width as int)
            &&& shows_int(MEMBER_SQL@, row, "height"@, v.height as int)
            &&& shows_int(MEMBER_SQL@, row, "file_size"@, v.file_size as int)
            &&& shows_int(MEMBER_SQL@, row, "file_mtime"@, v.file_mtime as int)
            &&& shows_opt_int(MEMBER_SQL@, row, "seed"@, v.seed)
            &&& shows_int(MEMBER_SQL@, row, "rating"@, v.rating as int)
            &&& shows_flag(MEMBER_SQL@, row, "favorite"@, v.favorite)
        },
{
    let sql = MEMBER_SQL@;
    lemma_member_columns();
    if <DupRow as FromRow>::decoded(row) == Some(v.row_model()) {
        lemma_shown(sql, row, "path"@, 7, 0);
        lemma_shown(sql, row, "width"@, 7, 1);
        lemma_shown(sql, row, "height"@, 7, 2);
        lemma_shown(sql, row, "file_size"@, 7, 3);
        lemma_shown(sql, row, "file_mtime"@, 7, 4);
        lemma_shown(sql, row, "seed"@, 7, 5);
        lemma_shown(sql, row, "rating"@, 7, 6);
        lemma_shown(sql, row, "favorite"@, 7, 7);
    }
}

proof fn lemma_hashes_columns()
    ensures
        ends_at(HASHES_SQL@, "SELECT "@, 7),
        item(HASHES_SQL@, 7, 0) == "id"@,
        item(HASHES_SQL@, 7, 1) == "phash"@,
{
    let s = HASHES_SQL@;
    reveal_strlit("SELECT id, phash FROM images WHERE hidden = 0 AND phash IS NOT NULL");
    reveal_strlit("SELECT ");
    assert(s.subrange(0, 7) =~= "SELECT "@);
    assert(item_start(s, 7, 0) == 7);
    assert(past_white(s, 7) == 7) by {
        reveal_with_fuel(past_white, 2);
    }
    assert(name_end(s, 7) == 9) by {
        reveal_with_fuel(name_end, 4);
    }
    reveal_strlit("id");
    assert(item(s, 7, 0) =~= "id"@);
    assert(next_comma(s, 7) == 9) by {
        reveal_with_fuel(next_comma, 4);
    }
    assert(item_start(s, 7, 1) == 10);
    assert(past_white(s, 10) == 11) by {
        reveal_with_fuel(past_white, 3);
    }
    assert(name_end(s, 11) == 16) by {
        reveal_with_fuel(name_end, 7);
    }
    reveal_strlit("phash");
    assert(item(s, 7, 1) =~= "phash"@);
}

/// An image is read with its own hash.
pub proof fn law_hashes_are_read_by_column(row: Seq<CellModel>, v: (i64, i64))
    ensures
        <(i64, i64) as FromRow>::decoded(row) is Some <==> has_int(row, 0) && has_int(row, 1),
        <(i64, i64) as FromRow>::decoded(row) == Some(v.row_model()) ==> {
            &&& shows_int(HASHES_SQL@, row, "id"@, v.0 as int)
            &&& shows_int(HASHES_SQL@, row, "phash"@, v.1 as int)
        },
{
    let sql = HASHES_SQL@;
    lemma_hashes_columns();
    if <(i64, i64) as FromRow>::decoded(row) == Some(v.row_model()) {
        lemma_shown(sql, row, "id"@, 7, 0);
        lemma_shown(sql, row, "phash"@, 7, 1);
    }
}

proof fn lemma_known_columns()
    ensures
        ends_at(KNOWN_SQL@, "SELECT "@, 7),
        item(KNOWN_SQL@, 7, 0) == "path"@,
        item(KNOWN_SQL@, 7, 1) == "file_size"@,
        item(KNOWN_SQL@, 7, 2) == "file_mtime"@,
        item(KNOWN_SQL@, 7, 3) == "width"@,
{
    let s = KNOWN_SQL@;
    reveal_strlit("SELECT path, file_size, file_mtime, width FROM images WHERE folder_id = ?1");
    reveal_strlit("SELECT ");
    assert(s.subrange(0, 7) =~= "SELECT "@);
    assert(item_start(s, 7, 0) == 7);
    assert(past_white(s, 7) == 7) by {
        reveal_with_fuel(past_white, 2);
    }
    assert(name_end(s, 7) == 11) by {
        reveal_with_fuel(name_end, 6);
    }
    reveal_strlit("path");
    assert(item(s, 7, 0) =~= "path"@);
    assert(next_comma(s, 7) == 11) by {
        reveal_with_fuel(next_comma, 6);
    }
    assert(item_start(s, 7, 1) == 12);
    assert(past_white(s, 12) == 13) by {
        reveal_with_fuel(past_white, 3);
    }
    assert(name_end(s, 13) == 22) by {
        reveal_with_fuel(name_end, 11);
    }
    reveal_strlit("file_size");
    assert(item(s, 7, 1) =~= "file_size"@);
    assert(next_comma(s, 12) == 22) by {
        reveal_with_fuel(next_comma, 12);
    }
    assert(item_start(s, 7, 2) == 23);
    assert(past_white(s, 23) == 24) by {
        reveal_with_fuel(past_white, 3);
    }
    assert(name_end(s, 24) == 34) by {
        reveal_with_fuel(name_end, 12);
    }
    reveal_strlit("file_mtime");
    assert(item(s, 7, 2) =~= "file_mtime"@);
    assert(next_comma(s, 23) == 34) by {
        reveal_with_fuel(next_comma, 13);
    }
    assert(item_start(s, 7, 3) == 35);
    assert(past_white(s, 35) == 36) by {
        reveal_with_fuel(past_white, 3);
    }
    assert(name_end(s, 36) == 41) by {
        reveal_with_fuel(name_end, 7);
    }
    reveal_strlit("width");
    assert(item(s, 7, 3) =~= "width"@);
}

/// What the index has on a file is in the columns of its names.
pub proof fn law_known_files_are_read_by_column(row: Seq<CellModel>, v: KnownFile)
    ensures
        <KnownFile as FromRow>::decoded(row) is Some <==> has_text(row, 0) && has_int(row, 1) && has_int(row, 2) && has_int(row, 3),
        <KnownFile as FromRow>::decoded(row) == Some(v.row_model()) ==> {
            &&& shows_text(KNOWN_SQL@, row, "path"@, v.path@)
            &&& shows_int(KNOWN_SQL@, row, "file_size"@, v.size as int)
            &&& shows_int(KNOWN_SQL@, row, "file_mtime"@, v.mtime as int)
            &&& shows_int(KNOWN_SQL@, row, "width"@, v.width as int)
        },
{
    let sql = KNOWN_SQL@;
    lemma_known_columns();
    if <KnownFile as FromRow>::decoded(row) == Some(v.row_model()) {
        lemma_shown(sql, row, "path"@, 7, 0);
        lemma_shown(sql, row, "file_size"@, 7, 1);
        lemma_shown(sql, row, "file_mtime"@, 7, 2);
        lemma_shown(sql, row, "width"@, 7, 3);
    }
}

proof fn lemma_indexed_columns()
    ensures
        ends_at(INDEXED_SQL@, "SELECT "@, 7),
        item(INDEXED_SQL@, 7, 0) == "id"@,
        item(INDEXED_SQL@, 7, 1) == "path"@,
{
    let s = INDEXED_SQL@;
    reveal_strlit("SELECT id, path FROM images WHERE folder_id = ?1");
    reveal_strlit("SELECT ");
    assert(s.subrange(0, 7) =~= "SELECT "@);
    assert(item_start(s, 7, 0) == 7);
    assert(past_white(s, 7) == 7) by {
        reveal_with_fuel(past_white, 2);
    }
    assert(name_end(s, 7) == 9) by {
        reveal_with_fuel(name_end, 4);
    }
    reveal_strlit("id");
    assert(item(s, 7, 0) =~= "id"@);
    assert(next_comma(s, 7) == 9) by {
        reveal_with_fuel(next_comma, 4);
    }
    assert(item_start(s, 7, 1) == 10);
    assert(past_white(s, 10) == 11) by {
        reveal_with_fuel(past_white, 3);
    }
    assert(name_end(s, 11) == 15) by {
        reveal_with_fuel(name_end, 6);
    }
    reveal_strlit("path");
    assert(item(s, 7, 1) =~= "path"@);
}

/// A file in the index is read with its own number.
pub proof fn law_indexed_files_are_read_by_column(row: Seq<CellModel>, v: (i64, String))
    ensures
        <(i64, String) as FromRow>::decoded(row) is Some <==> has_int(row, 0) && has_text(row, 1),
        <(i64, String) as FromRow>::decoded(row) == Some(v.row_model()) ==> {
            &&& shows_int(INDEXED_SQL@, row, "id"@, v.0 as int)
            &&& shows_text(INDEXED_SQL@, row, "path"@, v.1@)
        },
{
    let sql = INDEXED_SQL@;
    lemma_indexed_columns();
    if <(i64, String) as FromRow>::decoded(row) == Some(v.row_model()) {
        lemma_shown(sql, row, "id"@, 7, 0);
        lemma_shown(sql, row, "path"@, 7, 1);
    }
}

proof fn lemma_paths_columns()
    ensures
        ends_at(PATHS_SQL@, "SELECT "@, 7),
        item(PATHS_SQL@, 7, 0) == "id"@,
        item(PATHS_SQL@, 7, 1) == "path"@,
{
    let s = PATHS_SQL@;
    reveal_strlit("SELECT id, path FROM images WHERE id = ?1");
    reveal_strlit("SELECT ");
    assert(s.subrange(0, 7) =~= "SELECT "@);
    assert(item_start(s, 7, 0) == 7);
    assert(past_white(s, 7) == 7) by {
        reveal_with_fuel(past_white, 2);
    }
    assert(name_end(s, 7) == 9) by {
        reveal_with_fuel(name_end, 4);
    }
    reveal_strlit("id");
    assert(item(s, 7, 0) =~= "id"@);
    assert(next_comma(s, 7) == 9) by {
        reveal_with_fuel(next_comma, 4);
    }
    assert(item_start(s, 7, 1) == 10);
    assert(past_white(s, 10) == 11) by {
        reveal_with_fuel(past_white, 3);
    }
    assert(name_end(s, 11) == 15) by {
        reveal_with_fuel(name_end, 6);
    }
    reveal_strlit("path");
    assert(item(s, 7, 1) =~= "path"@);
}

/// The path of an image is read with its number.
pub proof fn law_paths_are_read_by_column(row: Seq<CellModel>, v: (i64, String))
    ensures
        <(i64, String) as FromRow>::decoded(row) is Some <==> has_int(row, 0) && has_text(row, 1),
        <(i64, String) as FromRow>::decoded(row) == Some(v.row_model()) ==> {
            &&& shows_int(PATHS_SQL@, row, "id"@, v.0 as int)
            &&& shows_text(PATHS_SQL@, row, "path"@, v.1@)
        },
{
    let sql = PATHS_SQL@;
    lemma_paths_columns();
    if <(i64, String) as FromRow>::decoded(row) == Some(v.row_model()) {
        lemma_shown(sql, row, "id"@, 7, 0);
        lemma_shown(sql, row, "path"@, 7, 1);
    }
}

proof fn lemma_watched_columns()
    ensures
        ends_at(WATCHED_SQL@, "SELECT "@, 7),
        item(WATCHED_SQL@, 7, 0) == "id"@,
        item(WATCHED_SQL@, 7, 1) == "path"@,
{
    let s = WATCHED_SQL@;
    reveal_strlit("SELECT id, path FROM folders");
    reveal_strlit("SELECT ");
    assert(s.subrange(0, 7) =~= "SELECT "@);
    assert(item_start(s, 7, 0) == 7);
    assert(past_white(s, 7) == 7) by {
        reveal_with_fuel(past_white, 2);
    }
    assert(name_end(s, 7) == 9) by {
        reveal_with_fuel(name_end, 4);
    }
    reveal_strlit("id");
    assert(item(s, 7, 0) =~= "id"@);
    assert(next_comma(s, 7) == 9) by {
        reveal_with_fuel(next_comma, 4);
    }
    assert(item_start(s, 7, 1) == 10);
    assert(past_white(s, 10) == 11) by {
        reveal_with_fuel(past_white, 3);
    }
    assert(name_end(s, 11) == 15) by {
        reveal_with_fuel(name_end, 6);
    }
    reveal_strlit("path");
    assert(item(s, 7, 1) =~= "path"@);
}

/// The path of a watched folder is read with its number.
pub proof fn law_watched_folders_are_read_by_column(row: Seq<CellModel>, v: (i64, String))
    ensures
        <(i64, String) as FromRow>::decoded(row) is Some <==> has_int(row, 0) && has_text(row, 1),
        <(i64, String) as FromRow>::decoded(row) == Some(v.row_model()) ==> {
            &&& shows_int(WATCHED_SQL@, row, "id"@, v.0 as int)
            &&& shows_text(WATCHED_SQL@, row, "path"@, v.1@)
        },
{
    let sql = WATCHED_SQL@;
    lemma_watched_columns();
    if <(i64, String) as FromRow>::decoded(row) == Some(v.row_model()) {
        lemma_shown(sql, row, "id"@, 7, 0);
        lemma_shown(sql, row, "path"@, 7, 1);
    }
}

proof fn lemma_folders_columns()
    ensures
        ends_at(FOLDERS_SQL@, "SELECT "@, 7),
        item(FOLDERS_SQL@, 7, 0) == "f.id"@,
        item(FOLDERS_SQL@, 7, 1) == "f.path"@,
        item(FOLDERS_SQL@, 7, 2) == "COUNT"@,
{
    let s = FOLDERS_SQL@;
    reveal_strlit("SELECT f.id, f.path, COUNT(i.id) FROM folders f
         LEFT JOIN images i ON i.folder_id = f.id GROUP BY f.id ORDER BY f.path");
    reveal_strlit("SELECT ");
    assert(s.subrange(0, 7) =~= "SELECT "@);
    assert(item_start(s, 7, 0) == 7);
    assert(past_white(s, 7) == 7) by {
        reveal_with_fuel(past_white, 2);
    }
    assert(name_end(s, 7) == 11) by {
        reveal_with_fuel(name_end, 6);
    }
    reveal_strlit("f.id");
    assert(item(s, 7, 0) =~= "f.id"@);
    assert(next_comma(s, 7) == 11) by {
        reveal_with_fuel(next_comma, 6);
    }
    assert(item_start(s, 7, 1) == 12);
    assert(past_white(s, 12) == 13) by {
        reveal_with_fuel(past_white, 3);
    }
    assert(name_end(s, 13) == 19) by {
        reveal_with_fuel(name_end, 8);
    }
    reveal_strlit("f.path");
    assert(item(s, 7, 1) =~= "f.path"@);
    assert(next_comma(s, 12) == 19) by {
        reveal_with_fuel(next_comma, 9);
    }
    assert(item_start(s, 7, 2) == 20);
    assert(past_white(s, 20) == 21) by {
        reveal_with_fuel(past_white, 3);
    }
    assert(name_end(s, 21) == 26) by {
        reveal_with_fuel(name_end, 7);
    }
    reveal_strlit("COUNT");
    assert(item(s, 7, 2) =~= "COUNT"@);
}

/// What is read of a watched folder is in the columns of its names, and the count in
/// the one that counts.
pub proof fn law_folders_are_read_by_column(row: Seq<CellModel>, v: FolderInfo)
    ensures
        <FolderInfo as FromRow>::decoded(row) is Some <==> has_int(row, 0) && has_text(row, 1) && has_int(row, 2),
        <FolderInfo as FromRow>::decoded(row) == Some(v.row_model()) ==> {
            &&& shows_int(FOLDERS_SQL@, row, "f.id"@, v.id as int)
            &&& shows_text(FOLDERS_SQL@, row, "f.path"@, v.path@)
            &&& shows_int(FOLDERS_SQL@, row, "COUNT"@, v.image_count as int)
        },
{
    let sql = FOLDERS_SQL@;
    lemma_folders_columns();
    if <FolderInfo as FromRow>::decoded(row) == Some(v.row_model()) {
        lemma_shown(sql, row, "f.id"@, 7, 0);
        lemma_shown(sql, row, "f.path"@, 7, 1);
        lemma_shown(sql, row, "COUNT"@, 7, 2);
    }
}

proof fn lemma_albums_columns()
    ensures
        ends_at(ALBUMS_SQL@, "SELECT "@, 7),
        item(ALBUMS_SQL@, 7, 0) == "a.id"@,
        item(ALBUMS_SQL@, 7, 1) == "a.name"@,
        item(ALBUMS_SQL@, 7, 2) == "COUNT"@,
{
    let s = ALBUMS_SQL@;
    reveal_strlit("SELECT a.id, a.name, COUNT(ai.image_id) FROM albums a
         LEFT JOIN album_images ai ON ai.album_id = a.id
         GROUP BY a.id ORDER BY a.position, a.name");
    reveal_strlit("SELECT ");
    assert(s.subrange(0, 7) =~= "SELECT "@);
    assert(item_start(s, 7, 0) == 7);
    assert(past_white(s, 7) == 7) by {
        reveal_with_fuel(past_white, 2);
    }
    assert(name_end(s, 7) == 11) by {
        reveal_with_fuel(name_end, 6);
    }
    reveal_strlit("a.id");
    assert(item(s, 7, 0) =~= "a.id"@);
    assert(next_comma(s, 7) == 11) by {
        reveal_with_fuel(next_comma, 6);
    }
    assert(item_start(s, 7, 1) == 12);
    assert(past_white(s, 12) == 13) by {
        reveal_with_fuel(past_white, 3);
    }
    assert(name_end(s, 13) == 19) by {
        reveal_with_fuel(name_end, 8);
    }
    reveal_strlit("a.name");
    assert(item(s, 7, 1) =~= "a.name"@);
    assert(next_comma(s, 12) == 19) by {
        reveal_with_fuel(next_comma, 9);
    }
    assert(item_start(s, 7, 2) == 20);
    assert(past_white(s, 20) == 21) by {
        reveal_with_fuel(past_white, 3);
    }
    assert(name_end(s, 21) == 26) by {
        reveal_with_fuel(name_end, 7);
    }
    reveal_strlit("COUNT");
    assert(item(s, 7, 2) =~= "COUNT"@);
}

/// What is read of an album is in the columns of its names, and the count in the one
/// that counts.
pub proof fn law_albums_are_read_by_column(row: Seq<CellModel>, v: AlbumInfo)
    ensures
        <AlbumInfo as FromRow>::decoded(row) is Some <==> has_int(row, 0) && has_text(row, 1) && has_int(row, 2),
        <AlbumInfo as FromRow>::decoded(row) == Some(v.row_model()) ==> {
            &&& shows_int(ALBUMS_SQL@, row, "a.id"@, v.id as int)
            &&& shows_text(ALBUMS_SQL@, row, "a.name"@, v.name@)
            &&& shows_int(ALBUMS_SQL@, row, "COUNT"@, v.image_count as int)
        },
{
    let sql = ALBUMS_SQL@;
    lemma_albums_columns();
    if <AlbumInfo as FromRow>::decoded(row) == Some(v.row_model()) {
        lemma_shown(sql, row, "a.id"@, 7, 0);
        lemma_shown(sql, row, "a.name"@, 7, 1);
        lemma_shown(sql, row, "COUNT"@, 7, 2);
    }
}

proof fn lemma_searches_columns()
    ensures
        ends_at(SEARCHES_SQL@, "SELECT "@, 7),
        item(SEARCHES_SQL@, 7, 0) == "id"@,
        item(SEARCHES_SQL@, 7, 1) == "name"@,
        item(SEARCHES_SQL@, 7, 2) == "query_json"@,
{
    let s = SEARCHES_SQL@;
    reveal_strlit("SELECT id, name, query_json FROM saved_searches ORDER BY name");
    reveal_strlit("SELECT ");
    assert(s.subrange(0, 7) =~= "SELECT "@);
    assert(item_start(s, 7, 0) == 7);
    assert(past_white(s, 7) == 7) by {
        reveal_with_fuel(past_white, 2);
    }
    assert(name_end(s, 7) == 9) by {
        reveal_with_fuel(name_end, 4);
    }
    reveal_strlit("id");
    assert(item(s, 7, 0) =~= "id"@);
    assert(next_comma(s, 7) == 9) by {
        reveal_with_fuel(next_comma, 4);
    }
    assert(item_start(s, 7, 1) == 10);
    assert(past_white(s, 10) == 11) by {
        reveal_with_fuel(past_white, 3);
    }
    assert(name_end(s, 11) == 15) by {
        reveal_with_fuel(name_end, 6);
    }
    reveal_strlit("name");
    assert(item(s, 7, 1) =~= "name"@);
    assert(next_comma(s, 10) == 15) by {
        reveal_with_fuel(next_comma, 7);
    }
    assert(item_start(s, 7, 2) == 16);
    assert(past_white(s, 16) == 17) by {
        reveal_with_fuel(past_white, 3);
    }
    assert(name_end(s, 17) == 27) by {
        reveal_with_fuel(name_end, 12);
    }
    reveal_strlit("query_json");
    assert(item(s, 7, 2) =~= "query_json"@);
}

/// What is read of a saved search is in the columns of its names.
pub proof fn law_searches_are_read_by_column(row: Seq<CellModel>, v: SavedSearch)
    ensures
        <SavedSearch as FromRow>::decoded(row) is Some <==> has_int(row, 0) && has_text(row, 1) && has_text(row, 2),
        <SavedSearch as FromRow>::decoded(row) == Some(v.row_model()) ==> {
            &&& shows_int(SEARCHES_SQL@, row, "id"@, v.id as int)
            &&& shows_text(SEARCHES_SQL@, row, "name"@, v.name@)
            &&& shows_text(SEARCHES_SQL@, row, "query_json"@, v.query_json@)
        },
{
    let sql = SEARCHES_SQL@;
    lemma_searches_columns();
    if <SavedSearch as FromRow>::decoded(row) == Some(v.row_model()) {
        lemma_shown(sql, row, "id"@, 7, 0);
        lemma_shown(sql, row, "name"@, 7, 1);
        lemma_shown(sql, row, "query_json"@, 7, 2);
    }
}

proof fn lemma_suggest_columns()
    ensures
        ends_at(SUGGEST_SQL@, "SELECT "@, 7),
        item(SUGGEST_SQL@, 7, 0) == "t.name"@,
        item(SUGGEST_SQL@, 7, 1) == "t.category"@,
        item(SUGGEST_SQL@, 7, 2) == "COUNT"@,
{
    let s = SUGGEST_SQL@;
    reveal_strlit("SELECT t.name, t.category, COUNT(it.image_id) AS n
         FROM tags t JOIN image_tags it ON it.tag_id = t.id
         WHERE t.name LIKE ?1 AND t.hidden = 0
         GROUP BY t.id ORDER BY n DESC, t.name LIMIT ?2");
    reveal_strlit("SELECT ");
    assert(s.subrange(0, 7) =~= "SELECT "@);
    assert(item_start(s, 7, 0) == 7);
    assert(past_white(s, 7) == 7) by {
        reveal_with_fuel(past_white, 2);
    }
    assert(name_end(s, 7) == 13) by {
        reveal_with_fuel(name_end, 8);
    }
    reveal_strlit("t.name");
    assert(item(s, 7, 0) =~= "t.name"@);
    assert(next_comma(s, 7) == 13) by {
        reveal_with_fuel(next_comma, 8);
    }
    assert(item_start(s, 7, 1) == 14);
    assert(past_white(s, 14) == 15) by {
        reveal_with_fuel(past_white, 3);
    }
    assert(name_end(s, 15) == 25) by {
        reveal_with_fuel(name_end, 12);
    }
    reveal_strlit("t.category");
    assert(item(s, 7, 1) =~= "t.category"@);
    assert(next_comma(s, 14) == 25) by {
        reveal_with_fuel(next_comma, 13);
    }
    assert(item_start(s, 7, 2) == 26);
    assert(past_white(s, 26) == 27) by {
        reveal_with_fuel(past_white, 3);
    }
    assert(name_end(s, 27) == 32) by {
        reveal_with_fuel(name_end, 7);
    }
    reveal_strlit("COUNT");
    assert(item(s, 7, 2) =~= "COUNT"@);
}

/// What is read of a suggested tag is in the columns of its names, and the count in the one
/// that counts.
pub proof fn law_suggestions_are_read_by_column(row: Seq<CellModel>, v: TagSuggestion)
    ensures
        <TagSuggestion as FromRow>::decoded(row) is Some <==> has_text(row, 0) && has_text(row, 1) && has_int(row, 2),
        <TagSuggestion as FromRow>::decoded(row) == Some(v.row_model()) ==> {
            &&& shows_text(SUGGEST_SQL@, row, "t.name"@, v.name@)
            &&& shows_text(SUGGEST_SQL@, row, "t.category"@, v.category@)
            &&& shows_int(SUGGEST_SQL@, row, "COUNT"@, v.count as int)
        },
{
    let sql = SUGGEST_SQL@;
    lemma_suggest_columns();
    if <TagSuggestion as FromRow>::decoded(row) == Some(v.row_model()) {
        lemma_shown(sql, row, "t.name"@, 7, 0);
        lemma_shown(sql, row, "t.category"@, 7, 1);
        lemma_shown(sql, row, "COUNT"@, 7, 2);
    }
}

proof fn lemma_hidden_tags_columns()
    ensures
        ends_at(HIDDEN_TAGS_SQL@, "SELECT "@, 7),
        item(HIDDEN_TAGS_SQL@, 7, 0) == "t.name"@,
        item(HIDDEN_TAGS_SQL@, 7, 1) == "t.category"@,
        item(HIDDEN_TAGS_SQL@, 7, 2) == "COUNT"@,
{
    let s = HIDDEN_TAGS_SQL@;
    reveal_strlit("SELECT t.name, t.category, COUNT(it.image_id) FROM tags t
         LEFT JOIN image_tags it ON it.tag_id = t.id
         WHERE t.hidden = 1 GROUP BY t.id ORDER BY t.name");
    reveal_strlit("SELECT ");
    assert(s.subrange(0, 7) =~= "SELECT "@);
    assert(item_start(s, 7, 0) == 7);
    assert(past_white(s, 7) == 7) by {
        reveal_with_fuel(past_white, 2);
    }
    assert(name_end(s, 7) == 13) by {
        reveal_with_fuel(name_end, 8);
    }
    reveal_strlit("t.name");
    assert(item(s, 7, 0) =~= "t.name"@);
    assert(next_comma(s, 7) == 13) by {
        reveal_with_fuel(next_comma, 8);
    }
    assert(item_start(s, 7, 1) == 14);
    assert(past_white(s, 14) == 15) by {
        reveal_with_fuel(past_white, 3);
    }
    assert(name_end(s, 15) == 25) by {
        reveal_with_fuel(name_end, 12);
    }
    reveal_strlit("t.category");
    assert(item(s, 7, 1) =~= "t.category"@);
    assert(next_comma(s, 14) == 25) by {
        reveal_with_fuel(next_comma, 13);
    }
    assert(item_start(s, 7, 2) == 26);
    assert(past_white(s, 26) == 27) by {
        reveal_with_fuel(past_white, 3);
    }
    assert(name_end(s, 27) == 32) by {
        reveal_with_fuel(name_end, 7);
    }
    reveal_strlit("COUNT");
    assert(item(s, 7, 2) =~= "COUNT"@);
}

/// What is read of a hidden tag is in the columns of its names, and the count in the one
/// that counts.
pub proof fn law_hidden_tags_are_read_by_column(row: Seq<CellModel>, v: TagSuggestion)
    ensures
        <TagSuggestion as FromRow>::decoded(row) is Some <==> has_text(row, 0) && has_text(row, 1) && has_int(row, 2),
        <TagSuggestion as FromRow>::decoded(row) == Some(v.row_model()) ==> {
            &&& shows_text(HIDDEN_TAGS_SQL@, row, "t.name"@, v.name@)
            &&& shows_text(HIDDEN_TAGS_SQL@, row, "t.category"@, v.category@)
            &&& shows_int(HIDDEN_TAGS_SQL@, row, "COUNT"@, v.count as int)
        },
{
    let sql = HIDDEN_TAGS_SQL@;
    lemma_hidden_tags_columns();
    if <TagSuggestion as FromRow>::decoded(row) == Some(v.row_model()) {
        lemma_shown(sql, row, "t.name"@, 7, 0);
        lemma_shown(sql, row, "t.category"@, 7, 1);
        lemma_shown(sql, row, "COUNT"@, 7, 2);
    }
}

proof fn lemma_frequency_columns()
    ensures
        ends_at(FREQUENCY_SQL@, "SELECT "@, 7),
        item(FREQUENCY_SQL@, 7, 0) == "t.name"@,
        item(FREQUENCY_SQL@, 7, 1) == "t.category"@,
        item(FREQUENCY_SQL@, 7, 2) == "COUNT"@,
{
    let s = FREQUENCY_SQL@;
    reveal_strlit("SELECT t.name, t.category, COUNT(*) AS n
         FROM image_tags it
         JOIN tags t ON t.id = it.tag_id
         JOIN images i ON i.id = it.image_id
         WHERE i.hidden = 0 AND t.hidden = 0 AND it.source <> 'negative'
         GROUP BY t.id ORDER BY n DESC, t.name LIMIT ?1");
    reveal_strlit("SELECT ");
    assert(s.subrange(0, 7) =~= "SELECT "@);
    assert(item_start(s, 7, 0) == 7);
    assert(past_white(s, 7) == 7) by {
        reveal_with_fuel(past_white, 2);
    }
    assert(name_end(s, 7) == 13) by {
        reveal_with_fuel(name_end, 8);
    }
    reveal_strlit("t.name");
    assert(item(s, 7, 0) =~= "t.name"@);
    assert(next_comma(s, 7) == 13) by {
        reveal_with_fuel(next_comma, 8);
    }
    assert(item_start(s, 7, 1) == 14);
    assert(past_white(s, 14) == 15) by {
        reveal_with_fuel(past_white, 3);
    }
    assert(name_end(s, 15) == 25) by {
        reveal_with_fuel(name_end, 12);
    }
    reveal_strlit("t.category");
    assert(item(s, 7, 1) =~= "t.category"@);
    assert(next_comma(s, 14) == 25) by {
        reveal_with_fuel(next_comma, 13);
    }
    assert(item_start(s, 7, 2) == 26);
    assert(past_white(s, 26) == 27) by {
        reveal_with_fuel(past_white, 3);
    }
    assert(name_end(s, 27) == 32) by {
        reveal_with_fuel(name_end, 7);
    }
    reveal_strlit("COUNT");
    assert(item(s, 7, 2) =~= "COUNT"@);
}

/// What is read of a frequent tag is in the columns of its names, and the count in the one
/// that counts.
pub proof fn law_frequencies_are_read_by_column(row: Seq<CellModel>, v: TagSuggestion)
    ensures
        <TagSuggestion as FromRow>::decoded(row) is Some <==> has_text(row, 0) && has_text(row, 1) && has_int(row, 2),
        <TagSuggestion as FromRow>::decoded(row) == Some(v.row_model()) ==> {
            &&& shows_text(FREQUENCY_SQL@, row, "t.name"@, v.name@)
            &&& shows_text(FREQUENCY_SQL@, row, "t.category"@, v.category@)
            &&& shows_int(FREQUENCY_SQL@, row, "COUNT"@, v.count as int)
        },
{
    let sql = FREQUENCY_SQL@;
    lemma_frequency_columns();
    if <TagSuggestion as FromRow>::decoded(row) == Some(v.row_model()) {
        lemma_shown(sql, row, "t.name"@, 7, 0);
        lemma_shown(sql, row, "t.category"@, 7, 1);
        lemma_shown(sql, row, "COUNT"@, 7, 2);
    }
}

proof fn lemma_pairs_columns()
    ensures
        ends_at(PAIRS_SQL@, "SELECT "@, 479),
        item(PAIRS_SQL@, 479, 0) == "ta.name"@,
        item(PAIRS_SQL@, 479, 1) == "tb.name"@,
        item(PAIRS_SQL@, 479, 2) == "COUNT"@,
{
    let s = PAIRS_SQL@;
    reveal_strlit("WITH visible AS (
           SELECT it.image_id, it.tag_id FROM image_tags it
           JOIN tags t ON t.id = it.tag_id
           JOIN images i ON i.id = it.image_id
           WHERE i.hidden = 0 AND t.hidden = 0 AND it.source <> 'negative'
         ),
         pool AS (
           SELECT image_id, tag_id FROM visible
           WHERE tag_id IN (
             SELECT tag_id FROM visible GROUP BY tag_id ORDER BY COUNT(*) DESC LIMIT ?2
           )
         )
         SELECT ta.name, tb.name, COUNT(*) AS n
         FROM pool a
         JOIN pool b ON b.image_id = a.image_id AND a.tag_id < b.tag_id
         JOIN tags ta ON ta.id = a.tag_id
         JOIN tags tb ON tb.id = b.tag_id
         GROUP BY a.tag_id, b.tag_id
         ORDER BY n DESC, ta.name, tb.name LIMIT ?1");
    reveal_strlit("SELECT ");
    assert(s.subrange(472, 479) =~= "SELECT "@);
    assert(item_start(s, 479, 0) == 479);
    assert(past_white(s, 479) == 479) by {
        reveal_with_fuel(past_white, 2);
    }
    assert(name_end(s, 479) == 486) by {
        reveal_with_fuel(name_end, 9);
    }
    reveal_strlit("ta.name");
    assert(item(s, 479, 0) =~= "ta.name"@);
    assert(next_comma(s, 479) == 486) by {
        reveal_with_fuel(next_comma, 9);
    }
    assert(item_start(s, 479, 1) == 487);
    assert(past_white(s, 487) == 488) by {
        reveal_with_fuel(past_white, 3);
    }
    assert(name_end(s, 488) == 495) by {
        reveal_with_fuel(name_end, 9);
    }
    reveal_strlit("tb.name");
    assert(item(s, 479, 1) =~= "tb.name"@);
    assert(next_comma(s, 487) == 495) by {
        reveal_with_fuel(next_comma, 10);
    }
    assert(item_start(s, 479, 2) == 496);
    assert(past_white(s, 496) == 497) by {
        reveal_with_fuel(past_white, 3);
    }
    assert(name_end(s, 497) == 502) by {
        reveal_with_fuel(name_end, 7);
    }
    reveal_strlit("COUNT");
    assert(item(s, 479, 2) =~= "COUNT"@);
}

/// The two tags of a pair are read in their order, and the count from the column that
/// counts.
pub proof fn law_pairs_are_read_by_column(row: Seq<CellModel>, v: TagPair)
    ensures
        <TagPair as FromRow>::decoded(row) is Some <==> has_text(row, 0) && has_text(row, 1) && has_int(row, 2),
        <TagPair as FromRow>::decoded(row) == Some(v.row_model()) ==> {
            &&& shows_text(PAIRS_SQL@, row, "ta.name"@, v.a@)
            &&& shows_text(PAIRS_SQL@, row, "tb.name"@, v.b@)
            &&& shows_int(PAIRS_SQL@, row, "COUNT"@, v.count as int)
        },
{
    let sql = PAIRS_SQL@;
    lemma_pairs_columns();
    if <TagPair as FromRow>::decoded(row) == Some(v.row_model()) {
        lemma_shown(sql, row, "ta.name"@, 479, 0);
        lemma_shown(sql, row, "tb.name"@, 479, 1);
        lemma_shown(sql, row, "COUNT"@, 479, 2);
    }
}

proof fn lemma_tree_columns()
    ensures
        ends_at(TREE_SQL@, "SELECT "@, 7),
        item(TREE_SQL@, 7, 0) == "i.folder_id"@,
        item(TREE_SQL@, 7, 1) == "f.path"@,
        item(TREE_SQL@, 7, 2) == "i.path"@,
{
    let s = TREE_SQL@;
    reveal_strlit("SELECT i.folder_id, f.path, i.path FROM images i
         JOIN folders f ON f.id = i.folder_id WHERE i.hidden = 0");
    reveal_strlit("SELECT ");
    assert(s.subrange(0, 7) =~= "SELECT "@);
    assert(item_start(s, 7, 0) == 7);
    assert(past_white(s, 7) == 7) by {
        reveal_with_fuel(past_white, 2);
    }
    assert(name_end(s, 7) == 18) by {
        reveal_with_fuel(name_end, 13);
    }
    reveal_strlit("i.folder_id");
    assert(item(s, 7, 0) =~= "i.folder_id"@);
    assert(next_comma(s, 7) == 18) by {
        reveal_with_fuel(next_comma, 13);
    }
    assert(item_start(s, 7, 1) == 19);
    assert(past_white(s, 19) == 20) by {
        reveal_with_fuel(past_white, 3);
    }
    assert(name_end(s, 20) == 26) by {
        reveal_with_fuel(name_end, 8);
    }
    reveal_strlit("f.path");
    assert(item(s, 7, 1) =~= "f.path"@);
    assert(next_comma(s, 19) == 26) by {
        reveal_with_fuel(next_comma, 9);
    }
    assert(item_start(s, 7, 2) == 27);
    assert(past_white(s, 27) == 28) by {
        reveal_with_fuel(past_white, 3);
    }
    assert(name_end(s, 28) == 34) by {
        reveal_with_fuel(name_end, 8);
    }
    reveal_strlit("i.path");
    assert(item(s, 7, 2) =~= "i.path"@);
}

/// An image is read with its folder, the path of the folder, and its own.
pub proof fn law_located_images_are_read_by_column(row: Seq<CellModel>, v: Located)
    ensures
        <Located as FromRow>::decoded(row) is Some <==> has_int(row, 0) && has_text(row, 1) && has_text(row, 2),
        <Located as FromRow>::decoded(row) == Some(v.row_model()) ==> {
            &&& shows_int(TREE_SQL@, row, "i.folder_id"@, v.folder_id as int)
            &&& shows_text(TREE_SQL@, row, "f.path"@, v.root@)
            &&& shows_text(TREE_SQL@, row, "i.path"@, v.path@)
        },
{
    let sql = TREE_SQL@;
    lemma_tree_columns();
    if <Located as FromRow>::decoded(row) == Some(v.row_model()) {
        lemma_shown(sql, row, "i.folder_id"@, 7, 0);
        lemma_shown(sql, row, "f.path"@, 7, 1);
        lemma_shown(sql, row, "i.path"@, 7, 2);
    }
}

proof fn lemma_page_columns(s: Seq<char>)
    requires
        s.len() >= 76,
        s.take(76) == "SELECT id, width, height, seed, rating, favorite FROM images
         WHERE "@,
    ensures
        ends_at(s, "SELECT "@, 7),
        item(s, 7, 0) == "id"@,
        item(s, 7, 1) == "width"@,
        item(s, 7, 2) == "height"@,
        item(s, 7, 3) == "seed"@,
        item(s, 7, 4) == "rating"@,
        item(s, 7, 5) == "favorite"@,
{
    let front = "SELECT id, width, height, seed, rating, favorite FROM images
         WHERE "@;
    reveal_strlit("SELECT id, width, height, seed, rating, favorite FROM images
         WHERE ");
    assert forall|i: int| 0 <= i < 76 implies #[trigger] s[i] == front[i] by {
        assert(s.take(76)[i] == s[i]);
    }
    reveal_strlit("SELECT ");
    assert(s.subrange(0, 7) =~= "SELECT "@);
    assert(item_start(s, 7, 0) == 7);
    assert(past_white(s, 7) == 7) by {
        reveal_with_fuel(past_white, 2);
    }
    assert(name_end(s, 7) == 9) by {
        reveal_with_fuel(name_end, 4);
    }
    reveal_strlit("id");
    assert(item(s, 7, 0) =~= "id"@);
    assert(next_comma(s, 7) == 9) by {
        reveal_with_fuel(next_comma, 4);
    }
    assert(item_start(s, 7, 1) == 10);
    assert(past_white(s, 10) == 11) by {
        reveal_with_fuel(past_white, 3);
    }
    assert(name_end(s, 11) == 16) by {
        reveal_with_fuel(name_end, 7);
    }
    reveal_strlit("width");
    assert(item(s, 7, 1) =~= "width"@);
    assert(next_comma(s, 10) == 16) by {
        reveal_with_fuel(next_comma, 8);
    }
    assert(item_start(s, 7, 2) == 17);
    assert(past_white(s, 17) == 18) by {
        reveal_with_fuel(past_white, 3);
    }
    assert(name_end(s, 18) == 24) by {
        reveal_with_fuel(name_end, 8);
    }
    reveal_strlit("height");
    assert(item(s, 7, 2) =~= "height"@);
    assert(next_comma(s, 17) == 24) by {
        reveal_with_fuel(next_comma, 9);
    }
    assert(item_start(s, 7, 3) == 25);
    assert(past_white(s, 25) == 26) by {
        reveal_with_fuel(past_white, 3);
    }
    assert(name_end(s, 26) == 30) by {
        reveal_with_fuel(name_end, 6);
    }
    reveal_strlit("seed");
    assert(item(s, 7, 3) =~= "seed"@);
    assert(next_comma(s, 25) == 30) by {
        reveal_with_fuel(next_comma, 7);
    }
    assert(item_start(s, 7, 4) == 31);
    assert(past_white(s, 31) == 32) by {
        reveal_with_fuel(past_white, 3);
    }
    assert(name_end(s, 32) == 38) by {
        reveal_with_fuel(name_end, 8);
    }
    reveal_strlit("rating");
    assert(item(s, 7, 4) =~= "rating"@);
    assert(next_comma(s, 31) == 38) by {
        reveal_with_fuel(next_comma, 9);
    }
    assert(item_start(s, 7, 5) == 39);
    assert(past_white(s, 39) == 40) by {
        reveal_with_fuel(past_white, 3);
    }
    assert(name_end(s, 40) == 48) by {
        reveal_with_fuel(name_end, 10);
    }
    reveal_strlit("favorite");
    assert(item(s, 7, 5) =~= "favorite"@);
}

/// What is read of an image in a page of results is in the columns of its names.
pub proof fn law_cards_are_read_by_column(q: Query, row: Seq<CellModel>, v: ImageCard)
    ensures
        <ImageCard as FromRow>::decoded(row) is Some <==> has_int(row, 0) && has_small(row, 1) && has_small(row, 2) && (has_null(row, 3) || has_int(row, 3)) && has_int(row, 4) && has_int(row, 5),
        <ImageCard as FromRow>::decoded(row) == Some(v.row_model()) ==> {
            &&& shows_int(page_request(q)->Select_sql, row, "id"@, v.id as int)
            &&& shows_int(page_request(q)->Select_sql, row, "width"@, v.width as int)
            &&& shows_int(page_request(q)->Select_sql, row, "height"@, v.height as int)
            &&& shows_opt_int(page_request(q)->Select_sql, row, "seed"@, v.seed)
            &&& shows_int(page_request(q)->Select_sql, row, "rating"@, v.rating as int)
            &&& shows_flag(page_request(q)->Select_sql, row, "favorite"@, v.favorite)
        },
{
    let sql = page_request(q)->Select_sql;
    let front = "SELECT id, width, height, seed, rating, favorite FROM images
         WHERE "@;
    reveal_strlit("SELECT id, width, height, seed, rating, favorite FROM images
         WHERE ");
    assert(sql.take(76) =~= front);
    lemma_page_columns(sql);
    if <ImageCard as FromRow>::decoded(row) == Some(v.row_model()) {
        lemma_shown(sql, row, "id"@, 7, 0);
        lemma_shown(sql, row, "width"@, 7, 1);
        lemma_shown(sql, row, "height"@, 7, 2);
        lemma_shown(sql, row, "seed"@, 7, 3);
        lemma_shown(sql, row, "rating"@, 7, 4);
        lemma_shown(sql, row, "favorite"@, 7, 5);
    }
}

/// The four counts of a library are those that the statement selects, in its order:
/// the visible images, those of NovelAI and the favourites among them, and the rejects.
pub proof fn law_counts_are_read_in_order(row: Seq<CellModel>, v: LibraryStats)
    ensures
        STATS_SQL@ == "SELECT COALESCE(SUM(hidden = 0),0), COALESCE(SUM(is_novelai AND hidden = 0),0),
                COALESCE(SUM(favorite AND hidden = 0),0), COALESCE(SUM(hidden),0)
         FROM images"@,
        LibraryStats::decoded(row) is Some <==> has_int(row, 0) && has_int(row, 1) && has_int(row, 2)
            && has_int(row, 3),
        LibraryStats::decoded(row) == Some(v.row_model()) ==> {
            &&& row[0] == CellModel::Integer(v.total)
            &&& row[1] == CellModel::Integer(v.novelai)
            &&& row[2] == CellModel::Integer(v.favorites)
            &&& row[3] == CellModel::Integer(v.rejects)
        },
{
}

/// A day is read from the column that the statement makes of the time of the file, in
/// local time, and the count from the one that counts.
pub proof fn law_days_are_read_in_order(row: Seq<CellModel>, v: DayCount)
    ensures
        DAYS_SQL@ == "SELECT date(file_mtime, 'unixepoch', 'localtime') AS d, COUNT(*)
         FROM images
         WHERE hidden = 0 AND date(file_mtime, 'unixepoch', 'localtime') >= date('now', 'localtime', ?1)
         GROUP BY d ORDER BY d"@,
        DayCount::decoded(row) is Some <==> has_text(row, 0) && has_int(row, 1),
        DayCount::decoded(row) == Some(v.row_model()) ==> {
            &&& decode_utf8(row[0]->Text_0) == v.day@
            &&& row[1] == CellModel::Integer(v.count)
        },
{
}

// ---------------------------------------------------------------------------
// Lists of rows
// ---------------------------------------------------------------------------

/// Whether a row was fetched and can be read.
pub open spec fn is_readable<T: FromRow>(row: Option<Seq<CellModel>>) -> bool {
    row is Some && T::decoded(row->0) is Some
}

/// A list is read row for row: where every row can be read, there are as many values
/// as rows, each that of its row.
pub proof fn law_rows_are_read_in_order<T: FromRow>(rows: Seq<Option<Seq<CellModel>>>)
    requires
        forall|k: int| 0 <= k < rows.len() ==> is_readable::<T>(#[trigger] rows[k]),
    ensures
        all_read::<T>(Reply::Rows(rows)) matches Ok(all) && all.len() == rows.len() && forall|k: int|
            0 <= k < rows.len() ==> Some(#[trigger] all[k]) == T::decoded(rows[k]->0),
    decreases rows.len(),
{
    if rows.len() > 0 {
        let rest = rows.drop_last();
        assert forall|k: int| 0 <= k < rest.len() implies is_readable::<T>(#[trigger] rest[k]) by {
            assert(rest[k] == rows[k]);
        }
        law_rows_are_read_in_order::<T>(rest);
        let before = all_read::<T>(Reply::Rows(rest))->Ok_0;
        assert(rows.last() == rows[rows.len() - 1]);
        assert(is_readable::<T>(rows[rows.len() - 1]));
        let all = all_read::<T>(Reply::Rows(rows))->Ok_0;
        assert forall|k: int| 0 <= k < rows.len() implies Some(#[trigger] all[k]) == T::decoded(
            rows[k]->0,
        ) by {
            if k < rest.len() {
                assert(all[k] == before[k]);
                assert(rest[k] == rows[k]);
            }
        }
    }
}

/// The first row that cannot be read decides the error: that of SQLite where it could
/// not be fetched, and that of a column otherwise.
pub proof fn law_first_bad_row_decides<T: FromRow>(rows: Seq<Option<Seq<CellModel>>>, bad: int)
    requires
        0 <= bad < rows.len(),
        forall|k: int| 0 <= k < bad ==> is_readable::<T>(#[trigger] rows[k]),
        !is_readable::<T>(rows[bad]),
    ensures
        all_read::<T>(Reply::Rows(rows)) == Err::<Seq<T::M>, ErrKind>(
            if rows[bad] is None {
                ErrKind::Sqlite
            } else {
                ErrKind::Column
            },
        ),
    decreases rows.len(),
{
    let rest = rows.drop_last();
    assert(rows.last() == rows[rows.len() - 1]);
    if bad < rest.len() {
        law_first_bad_row_decides::<T>(rest, bad);
    } else {
        assert forall|k: int| 0 <= k < rest.len() implies is_readable::<T>(#[trigger] rest[k]) by {
            assert(rest[k] == rows[k]);
        }
        law_rows_are_read_in_order::<T>(rest);
    }
}

/// How many rows of a list can be read.
pub open spec fn count_readable<T: FromRow>(rows: Seq<Option<Seq<CellModel>>>) -> nat
    decreases rows.len(),
{
    if rows.len() == 0 {
        0
    } else if is_readable::<T>(rows.last()) {
        count_readable::<T>(rows.drop_last()) + 1
    } else {
        count_readable::<T>(rows.drop_last())
    }
}

/// Where bad rows are passed over, a row that can be read stands behind those before it
/// that can, and nothing else is in the list.
pub proof fn law_bad_rows_are_passed_over<T: FromRow>(rows: Seq<Option<Seq<CellModel>>>, k: int)
    requires
        0 <= k < rows.len(),
    ensures
        readable::<T>(Reply::Rows(rows)) matches Ok(all) && {
            &&& all.len() == count_readable::<T>(rows)
            &&& is_readable::<T>(rows[k]) ==> {
                &&& count_readable::<T>(rows.take(k)) < all.len()
                &&& Some(all[count_readable::<T>(rows.take(k)) as int]) == T::decoded(rows[k]->0)
            }
        },
    decreases rows.len(),
{
    let rest = rows.drop_last();
    assert(rows.last() == rows[rows.len() - 1]);
    lemma_readable_count::<T>(rows);
    lemma_readable_count::<T>(rest);
    if k < rest.len() {
        law_bad_rows_are_passed_over::<T>(rest, k);
        assert(rest.take(k) =~= rows.take(k));
        assert(rest[k] == rows[k]);
    } else {
        assert(rows.take(k) =~= rest);
    }
}

proof fn lemma_readable_count<T: FromRow>(rows: Seq<Option<Seq<CellModel>>>)
    ensures
        readable_rows::<T>(rows).len() == count_readable::<T>(rows),
    decreases rows.len(),
{
    if rows.len() > 0 {
        lemma_readable_count::<T>(rows.drop_last());
    }
}

/// A request for one row reads the first, and says so where there is none.
pub proof fn law_one_row_is_the_first<T: FromRow>(rows: Seq<Option<Seq<CellModel>>>)
    ensures
        rows.len() == 0 ==> one_read::<T>(Reply::Rows(rows)) == Err::<T::M, ErrKind>(ErrKind::NoRows),
        rows.len() > 0 && is_readable::<T>(rows[0]) ==> (one_read::<T>(Reply::Rows(rows)) matches Ok(
            m,
        ) && Some(m) == T::decoded(rows[0]->0)),
        rows.len() > 0 && !is_readable::<T>(rows[0]) ==> one_read::<T>(Reply::Rows(rows)) is Err,
        one_read::<T>(Reply::Failed) is Err,
        all_read::<T>(Reply::Failed) is Err,
        readable::<T>(Reply::Failed) is Err,
{
}

} // verus!
