//! The columns of statements: a column is looked up by its name in the text of the
//! statement, and holds the value that goes with the name.

use crate::sql::{bound, ErrKind, Event, ParamModel, Request};
use crate::store::{entered, file_params, ParsedModel, UPSERT_SQL};
use crate::text::{decimal, digits, is_white};
use vstd::prelude::*;

verus! {

// ---------------------------------------------------------------------------
// Lists in a text
// ---------------------------------------------------------------------------

/// Where the first comma from `i` on stands; the end of the text where there is none.
pub open spec fn next_comma(s: Seq<char>, i: int) -> int
    decreases s.len() - i,
{
    if i >= s.len() || s[i] == ',' {
        i
    } else {
        next_comma(s, i + 1)
    }
}

/// Where the item `k` starts in the list that starts at `from`.
pub open spec fn item_start(s: Seq<char>, from: int, k: int) -> int
    decreases k,
{
    if k <= 0 {
        from
    } else {
        next_comma(s, item_start(s, from, k - 1)) + 1
    }
}

/// Where the white space ends that starts at `i`.
pub open spec fn past_white(s: Seq<char>, i: int) -> int
    decreases s.len() - i,
{
    if i < s.len() && is_white(s[i]) {
        past_white(s, i + 1)
    } else {
        i
    }
}

/// Whether a name in a statement can hold a character.
pub open spec fn is_name_char(c: char) -> bool {
    'a' <= c <= 'z' || 'A' <= c <= 'Z' || '0' <= c <= '9' || c == '_' || c == '.' || c == '?'
}

/// Where the name ends that starts at `i`.
pub open spec fn name_end(s: Seq<char>, i: int) -> int
    decreases s.len() - i,
{
    if i < s.len() && is_name_char(s[i]) {
        name_end(s, i + 1)
    } else {
        i
    }
}

/// The name that the item `k` starts with in the list that starts at `from`.
pub open spec fn item(s: Seq<char>, from: int, k: int) -> Seq<char> {
    let at = past_white(s, item_start(s, from, k));
    s.subrange(at, name_end(s, at))
}

/// Whether the text `part` ends at `i`.
pub open spec fn ends_at(s: Seq<char>, part: Seq<char>, i: int) -> bool {
    &&& part.len() <= i <= s.len()
    &&& s.subrange(i - part.len(), i) == part
}

/// What is assigned in the item `k` of the list that starts at `from`: the name behind
/// the sign behind the item's name.
pub open spec fn assigned(s: Seq<char>, from: int, k: int) -> Seq<char> {
    let at = name_end(s, past_white(s, item_start(s, from, k))) + 1;
    s.subrange(at, name_end(s, at))
}

/// The placeholder that the value `m` is bound to; the first is `?1`.
pub open spec fn placeholder(m: int) -> Seq<char> {
    seq!['?'] + decimal(m + 1)
}

// ---------------------------------------------------------------------------
// Entering a file
// ---------------------------------------------------------------------------

/// Whether a value is bound to the placeholder of a column: in the list of columns
/// the name stands where the placeholder stands in the list of values.
pub open spec fn is_stored_at(
    sql: Seq<char>,
    params: Seq<ParamModel>,
    name: Seq<char>,
    value: ParamModel,
    from: int,
    values: int,
    k: int,
    m: int,
) -> bool {
    &&& ends_at(sql, "INSERT INTO images("@, from)
    &&& ends_at(sql, "VALUES ("@, values)
    &&& 0 <= k
    &&& item(sql, from, k) == name
    &&& item(sql, values, k) == placeholder(m)
    &&& 0 <= m < params.len()
    &&& params[m] == value
}

/// Whether a request enters a row with the value in the column of the given name.
pub open spec fn is_stored(request: Request, name: Seq<char>, value: ParamModel) -> bool {
    request is Execute && exists|from: int, values: int, k: int, m: int|
        is_stored_at(
            request->Execute_sql,
            request->Execute_params,
            name,
            value,
            from,
            values,
            k,
            m,
        )
}

/// Whether a value is bound to the placeholder that a column is set to.
pub open spec fn is_updated_at(
    sql: Seq<char>,
    params: Seq<ParamModel>,
    name: Seq<char>,
    value: ParamModel,
    from: int,
    k: int,
    m: int,
) -> bool {
    &&& ends_at(sql, "DO UPDATE SET"@, from)
    &&& 0 <= k
    &&& item(sql, from, k) == name
    &&& assigned(sql, from, k) == placeholder(m)
    &&& 0 <= m < params.len()
    &&& params[m] == value
}

/// Whether a request sets the column of the given name in a row that is there already.
pub open spec fn is_updated(request: Request, name: Seq<char>, value: ParamModel) -> bool {
    request is Execute && exists|from: int, k: int, m: int|
        is_updated_at(request->Execute_sql, request->Execute_params, name, value, from, k, m)
}

/// Whether a column gets the value, be the row new or not.
pub open spec fn is_set(request: Request, name: Seq<char>, value: ParamModel) -> bool {
    is_stored(request, name, value) && is_updated(request, name, value)
}

/// Whether a column gets a number, or null where there is none.
pub open spec fn is_set_int(request: Request, name: Seq<char>, value: Option<i64>) -> bool {
    match value {
        Some(n) => is_set(request, name, ParamModel::Integer(n)),
        None => is_set(request, name, ParamModel::Null),
    }
}

/// Whether a column gets a text, or null where there is none.
pub open spec fn is_set_text(request: Request, name: Seq<char>, value: Option<Seq<char>>) -> bool {
    match value {
        Some(s) => is_set(request, name, ParamModel::Text(s)),
        None => is_set(request, name, ParamModel::Null),
    }
}

/// Whether a column gets the number that a decimal denotes, or null where there is
/// none.
pub open spec fn is_set_real(request: Request, name: Seq<char>, value: Option<Seq<char>>) -> bool {
    match value {
        Some(x) => is_set(request, name, bound(ParamModel::Real(x))),
        None => is_set(request, name, ParamModel::Null),
    }
}

/// The columns that a file is entered with, their placeholders, and those that are set
/// anew.
#[verifier::rlimit(40)]
proof fn lemma_upsert_text()
    ensures
        ends_at(UPSERT_SQL@, "INSERT INTO images("@, 19),
        ends_at(UPSERT_SQL@, "VALUES ("@, 235),
        ends_at(UPSERT_SQL@, "DO UPDATE SET"@, 327),
        item(UPSERT_SQL@, 19, 0) == "path"@,
        item(UPSERT_SQL@, 19, 1) == "folder_id"@,
        item(UPSERT_SQL@, 19, 2) == "file_size"@,
        item(UPSERT_SQL@, 19, 3) == "file_mtime"@,
        item(UPSERT_SQL@, 19, 4) == "width"@,
        item(UPSERT_SQL@, 19, 5) == "height"@,
        item(UPSERT_SQL@, 19, 6) == "is_novelai"@,
        item(UPSERT_SQL@, 19, 7) == "model"@,
        item(UPSERT_SQL@, 19, 8) == "seed"@,
        item(UPSERT_SQL@, 19, 9) == "sampler"@,
        item(UPSERT_SQL@, 19, 10) == "steps"@,
        item(UPSERT_SQL@, 19, 11) == "scale"@,
        item(UPSERT_SQL@, 19, 12) == "raw_prompt"@,
        item(UPSERT_SQL@, 19, 13) == "raw_negative"@,
        item(UPSERT_SQL@, 19, 14) == "comment_json"@,
        item(UPSERT_SQL@, 235, 0) == "?1"@,
        item(UPSERT_SQL@, 235, 1) == "?2"@,
        item(UPSERT_SQL@, 235, 2) == "?3"@,
        item(UPSERT_SQL@, 235, 3) == "?4"@,
        item(UPSERT_SQL@, 235, 4) == "?5"@,
        item(UPSERT_SQL@, 235, 5) == "?6"@,
        item(UPSERT_SQL@, 235, 6) == "?7"@,
        item(UPSERT_SQL@, 235, 7) == "?8"@,
        item(UPSERT_SQL@, 235, 8) == "?9"@,
        item(UPSERT_SQL@, 235, 9) == "?10"@,
        item(UPSERT_SQL@, 235, 10) == "?11"@,
        item(UPSERT_SQL@, 235, 11) == "?12"@,
        item(UPSERT_SQL@, 235, 12) == "?13"@,
        item(UPSERT_SQL@, 235, 13) == "?14"@,
        item(UPSERT_SQL@, 235, 14) == "?15"@,
        item(UPSERT_SQL@, 327, 0) == "file_size"@,
        assigned(UPSERT_SQL@, 327, 0) == "?3"@,
        item(UPSERT_SQL@, 327, 1) == "file_mtime"@,
        assigned(UPSERT_SQL@, 327, 1) == "?4"@,
        item(UPSERT_SQL@, 327, 2) == "width"@,
        assigned(UPSERT_SQL@, 327, 2) == "?5"@,
        item(UPSERT_SQL@, 327, 3) == "height"@,
        assigned(UPSERT_SQL@, 327, 3) == "?6"@,
        item(UPSERT_SQL@, 327, 4) == "is_novelai"@,
        assigned(UPSERT_SQL@, 327, 4) == "?7"@,
        item(UPSERT_SQL@, 327, 5) == "model"@,
        assigned(UPSERT_SQL@, 327, 5) == "?8"@,
        item(UPSERT_SQL@, 327, 6) == "seed"@,
        assigned(UPSERT_SQL@, 327, 6) == "?9"@,
        item(UPSERT_SQL@, 327, 7) == "sampler"@,
        assigned(UPSERT_SQL@, 327, 7) == "?10"@,
        item(UPSERT_SQL@, 327, 8) == "steps"@,
        assigned(UPSERT_SQL@, 327, 8) == "?11"@,
        item(UPSERT_SQL@, 327, 9) == "scale"@,
        assigned(UPSERT_SQL@, 327, 9) == "?12"@,
        item(UPSERT_SQL@, 327, 10) == "raw_prompt"@,
        assigned(UPSERT_SQL@, 327, 10) == "?13"@,
        item(UPSERT_SQL@, 327, 11) == "raw_negative"@,
        assigned(UPSERT_SQL@, 327, 11) == "?14"@,
        item(UPSERT_SQL@, 327, 12) == "comment_json"@,
        assigned(UPSERT_SQL@, 327, 12) == "?15"@,
{
    let s = UPSERT_SQL@;
    reveal_strlit("INSERT INTO images(path, folder_id, file_size, file_mtime, width, height,
                            is_novelai, model, seed, sampler, steps, scale,
                            raw_prompt, raw_negative, comment_json)
         VALUES (?1,?2,?3,?4,?5,?6,?7,?8,?9,?10,?11,?12,?13,?14,?15)
         ON CONFLICT(path) DO UPDATE SET
           file_size=?3, file_mtime=?4, width=?5, height=?6, is_novelai=?7,
           model=?8, seed=?9, sampler=?10, steps=?11, scale=?12,
           raw_prompt=?13, raw_negative=?14, comment_json=?15,
           phash=NULL");
    reveal_strlit("INSERT INTO images(");
    assert(s.subrange(0, 19) =~= "INSERT INTO images("@);
    reveal_strlit("VALUES (");
    assert(s.subrange(227, 235) =~= "VALUES ("@);
    reveal_strlit("DO UPDATE SET");
    assert(s.subrange(314, 327) =~= "DO UPDATE SET"@);
    assert(item_start(s, 19, 0) == 19);
    assert(past_white(s, 19) == 19) by {
        reveal_with_fuel(past_white, 2);
    }
    assert(name_end(s, 19) == 23) by {
        reveal_with_fuel(name_end, 6);
    }
    reveal_strlit("path");
    assert(item(s, 19, 0) =~= "path"@);
    assert(next_comma(s, 19) == 23) by {
        reveal_with_fuel(next_comma, 6);
    }
    assert(item_start(s, 19, 1) == 24);
    assert(past_white(s, 24) == 25) by {
        reveal_with_fuel(past_white, 3);
    }
    assert(name_end(s, 25) == 34) by {
        reveal_with_fuel(name_end, 11);
    }
    reveal_strlit("folder_id");
    assert(item(s, 19, 1) =~= "folder_id"@);
    assert(next_comma(s, 24) == 34) by {
        reveal_with_fuel(next_comma, 12);
    }
    assert(item_start(s, 19, 2) == 35);
    assert(past_white(s, 35) == 36) by {
        reveal_with_fuel(past_white, 3);
    }
    assert(name_end(s, 36) == 45) by {
        reveal_with_fuel(name_end, 11);
    }
    reveal_strlit("file_size");
    assert(item(s, 19, 2) =~= "file_size"@);
    assert(next_comma(s, 35) == 45) by {
        reveal_with_fuel(next_comma, 12);
    }
    assert(item_start(s, 19, 3) == 46);
    assert(past_white(s, 46) == 47) by {
        reveal_with_fuel(past_white, 3);
    }
    assert(name_end(s, 47) == 57) by {
        reveal_with_fuel(name_end, 12);
    }
    reveal_strlit("file_mtime");
    assert(item(s, 19, 3) =~= "file_mtime"@);
    assert(next_comma(s, 46) == 57) by {
        reveal_with_fuel(next_comma, 13);
    }
    assert(item_start(s, 19, 4) == 58);
    assert(past_white(s, 58) == 59) by {
        reveal_with_fuel(past_white, 3);
    }
    assert(name_end(s, 59) == 64) by {
        reveal_with_fuel(name_end, 7);
    }
    reveal_strlit("width");
    assert(item(s, 19, 4) =~= "width"@);
    assert(next_comma(s, 58) == 64) by {
        reveal_with_fuel(next_comma, 8);
    }
    assert(item_start(s, 19, 5) == 65);
    assert(past_white(s, 65) == 66) by {
        reveal_with_fuel(past_white, 3);
    }
    assert(name_end(s, 66) == 72) by {
        reveal_with_fuel(name_end, 8);
    }
    reveal_strlit("height");
    assert(item(s, 19, 5) =~= "height"@);
    assert(next_comma(s, 65) == 72) by {
        reveal_with_fuel(next_comma, 9);
    }
    assert(item_start(s, 19, 6) == 73);
    assert(past_white(s, 73) == 102) by {
        reveal_with_fuel(past_white, 31);
    }
    assert(name_end(s, 102) == 112) by {
        reveal_with_fuel(name_end, 12);
    }
    reveal_strlit("is_novelai");
    assert(item(s, 19, 6) =~= "is_novelai"@);
    assert(next_comma(s, 73) == 112) by {
        reveal_with_fuel(next_comma, 41);
    }
    assert(item_start(s, 19, 7) == 113);
    assert(past_white(s, 113) == 114) by {
        reveal_with_fuel(past_white, 3);
    }
    assert(name_end(s, 114) == 119) by {
        reveal_with_fuel(name_end, 7);
    }
    reveal_strlit("model");
    assert(item(s, 19, 7) =~= "model"@);
    assert(next_comma(s, 113) == 119) by {
        reveal_with_fuel(next_comma, 8);
    }
    assert(item_start(s, 19, 8) == 120);
    assert(past_white(s, 120) == 121) by {
        reveal_with_fuel(past_white, 3);
    }
    assert(name_end(s, 121) == 125) by {
        reveal_with_fuel(name_end, 6);
    }
    reveal_strlit("seed");
    assert(item(s, 19, 8) =~= "seed"@);
    assert(next_comma(s, 120) == 125) by {
        reveal_with_fuel(next_comma, 7);
    }
    assert(item_start(s, 19, 9) == 126);
    assert(past_white(s, 126) == 127) by {
        reveal_with_fuel(past_white, 3);
    }
    assert(name_end(s, 127) == 134) by {
        reveal_with_fuel(name_end, 9);
    }
    reveal_strlit("sampler");
    assert(item(s, 19, 9) =~= "sampler"@);
    assert(next_comma(s, 126) == 134) by {
        reveal_with_fuel(next_comma, 10);
    }
    assert(item_start(s, 19, 10) == 135);
    assert(past_white(s, 135) == 136) by {
        reveal_with_fuel(past_white, 3);
    }
    assert(name_end(s, 136) == 141) by {
        reveal_with_fuel(name_end, 7);
    }
    reveal_strlit("steps");
    assert(item(s, 19, 10) =~= "steps"@);
    assert(next_comma(s, 135) == 141) by {
        reveal_with_fuel(next_comma, 8);
    }
    assert(item_start(s, 19, 11) == 142);
    assert(past_white(s, 142) == 143) by {
        reveal_with_fuel(past_white, 3);
    }
    assert(name_end(s, 143) == 148) by {
        reveal_with_fuel(name_end, 7);
    }
    reveal_strlit("scale");
    assert(item(s, 19, 11) =~= "scale"@);
    assert(next_comma(s, 142) == 148) by {
        reveal_with_fuel(next_comma, 8);
    }
    assert(item_start(s, 19, 12) == 149);
    assert(past_white(s, 149) == 178) by {
        reveal_with_fuel(past_white, 31);
    }
    assert(name_end(s, 178) == 188) by {
        reveal_with_fuel(name_end, 12);
    }
    reveal_strlit("raw_prompt");
    assert(item(s, 19, 12) =~= "raw_prompt"@);
    assert(next_comma(s, 149) == 188) by {
        reveal_with_fuel(next_comma, 41);
    }
    assert(item_start(s, 19, 13) == 189);
    assert(past_white(s, 189) == 190) by {
        reveal_with_fuel(past_white, 3);
    }
    assert(name_end(s, 190) == 202) by {
        reveal_with_fuel(name_end, 14);
    }
    reveal_strlit("raw_negative");
    assert(item(s, 19, 13) =~= "raw_negative"@);
    assert(next_comma(s, 189) == 202) by {
        reveal_with_fuel(next_comma, 15);
    }
    assert(item_start(s, 19, 14) == 203);
    assert(past_white(s, 203) == 204) by {
        reveal_with_fuel(past_white, 3);
    }
    assert(name_end(s, 204) == 216) by {
        reveal_with_fuel(name_end, 14);
    }
    reveal_strlit("comment_json");
    assert(item(s, 19, 14) =~= "comment_json"@);
    assert(item_start(s, 235, 0) == 235);
    assert(past_white(s, 235) == 235) by {
        reveal_with_fuel(past_white, 2);
    }
    assert(name_end(s, 235) == 237) by {
        reveal_with_fuel(name_end, 4);
    }
    reveal_strlit("?1");
    assert(item(s, 235, 0) =~= "?1"@);
    assert(next_comma(s, 235) == 237) by {
        reveal_with_fuel(next_comma, 4);
    }
    assert(item_start(s, 235, 1) == 238);
    assert(past_white(s, 238) == 238) by {
        reveal_with_fuel(past_white, 2);
    }
    assert(name_end(s, 238) == 240) by {
        reveal_with_fuel(name_end, 4);
    }
    reveal_strlit("?2");
    assert(item(s, 235, 1) =~= "?2"@);
    assert(next_comma(s, 238) == 240) by {
        reveal_with_fuel(next_comma, 4);
    }
    assert(item_start(s, 235, 2) == 241);
    assert(past_white(s, 241) == 241) by {
        reveal_with_fuel(past_white, 2);
    }
    assert(name_end(s, 241) == 243) by {
        reveal_with_fuel(name_end, 4);
    }
    reveal_strlit("?3");
    assert(item(s, 235, 2) =~= "?3"@);
    assert(next_comma(s, 241) == 243) by {
        reveal_with_fuel(next_comma, 4);
    }
    assert(item_start(s, 235, 3) == 244);
    assert(past_white(s, 244) == 244) by {
        reveal_with_fuel(past_white, 2);
    }
    assert(name_end(s, 244) == 246) by {
        reveal_with_fuel(name_end, 4);
    }
    reveal_strlit("?4");
    assert(item(s, 235, 3) =~= "?4"@);
    assert(next_comma(s, 244) == 246) by {
        reveal_with_fuel(next_comma, 4);
    }
    assert(item_start(s, 235, 4) == 247);
    assert(past_white(s, 247) == 247) by {
        reveal_with_fuel(past_white, 2);
    }
    assert(name_end(s, 247) == 249) by {
        reveal_with_fuel(name_end, 4);
    }
    reveal_strlit("?5");
    assert(item(s, 235, 4) =~= "?5"@);
    assert(next_comma(s, 247) == 249) by {
        reveal_with_fuel(next_comma, 4);
    }
    assert(item_start(s, 235, 5) == 250);
    assert(past_white(s, 250) == 250) by {
        reveal_with_fuel(past_white, 2);
    }
    assert(name_end(s, 250) == 252) by {
        reveal_with_fuel(name_end, 4);
    }
    reveal_strlit("?6");
    assert(item(s, 235, 5) =~= "?6"@);
    assert(next_comma(s, 250) == 252) by {
        reveal_with_fuel(next_comma, 4);
    }
    assert(item_start(s, 235, 6) == 253);
    assert(past_white(s, 253) == 253) by {
        reveal_with_fuel(past_white, 2);
    }
    assert(name_end(s, 253) == 255) by {
        reveal_with_fuel(name_end, 4);
    }
    reveal_strlit("?7");
    assert(item(s, 235, 6) =~= "?7"@);
    assert(next_comma(s, 253) == 255) by {
        reveal_with_fuel(next_comma, 4);
    }
    assert(item_start(s, 235, 7) == 256);
    assert(past_white(s, 256) == 256) by {
        reveal_with_fuel(past_white, 2);
    }
    assert(name_end(s, 256) == 258) by {
        reveal_with_fuel(name_end, 4);
    }
    reveal_strlit("?8");
    assert(item(s, 235, 7) =~= "?8"@);
    assert(next_comma(s, 256) == 258) by {
        reveal_with_fuel(next_comma, 4);
    }
    assert(item_start(s, 235, 8) == 259);
    assert(past_white(s, 259) == 259) by {
        reveal_with_fuel(past_white, 2);
    }
    assert(name_end(s, 259) == 261) by {
        reveal_with_fuel(name_end, 4);
    }
    reveal_strlit("?9");
    assert(item(s, 235, 8) =~= "?9"@);
    assert(next_comma(s, 259) == 261) by {
        reveal_with_fuel(next_comma, 4);
    }
    assert(item_start(s, 235, 9) == 262);
    assert(past_white(s, 262) == 262) by {
        reveal_with_fuel(past_white, 2);
    }
    assert(name_end(s, 262) == 265) by {
        reveal_with_fuel(name_end, 5);
    }
    reveal_strlit("?10");
    assert(item(s, 235, 9) =~= "?10"@);
    assert(next_comma(s, 262) == 265) by {
        reveal_with_fuel(next_comma, 5);
    }
    assert(item_start(s, 235, 10) == 266);
    assert(past_white(s, 266) == 266) by {
        reveal_with_fuel(past_white, 2);
    }
    assert(name_end(s, 266) == 269) by {
        reveal_with_fuel(name_end, 5);
    }
    reveal_strlit("?11");
    assert(item(s, 235, 10) =~= "?11"@);
    assert(next_comma(s, 266) == 269) by {
        reveal_with_fuel(next_comma, 5);
    }
    assert(item_start(s, 235, 11) == 270);
    assert(past_white(s, 270) == 270) by {
        reveal_with_fuel(past_white, 2);
    }
    assert(name_end(s, 270) == 273) by {
        reveal_with_fuel(name_end, 5);
    }
    reveal_strlit("?12");
    assert(item(s, 235, 11) =~= "?12"@);
    assert(next_comma(s, 270) == 273) by {
        reveal_with_fuel(next_comma, 5);
    }
    assert(item_start(s, 235, 12) == 274);
    assert(past_white(s, 274) == 274) by {
        reveal_with_fuel(past_white, 2);
    }
    assert(name_end(s, 274) == 277) by {
        reveal_with_fuel(name_end, 5);
    }
    reveal_strlit("?13");
    assert(item(s, 235, 12) =~= "?13"@);
    assert(next_comma(s, 274) == 277) by {
        reveal_with_fuel(next_comma, 5);
    }
    assert(item_start(s, 235, 13) == 278);
    assert(past_white(s, 278) == 278) by {
        reveal_with_fuel(past_white, 2);
    }
    assert(name_end(s, 278) == 281) by {
        reveal_with_fuel(name_end, 5);
    }
    reveal_strlit("?14");
    assert(item(s, 235, 13) =~= "?14"@);
    assert(next_comma(s, 278) == 281) by {
        reveal_with_fuel(next_comma, 5);
    }
    assert(item_start(s, 235, 14) == 282);
    assert(past_white(s, 282) == 282) by {
        reveal_with_fuel(past_white, 2);
    }
    assert(name_end(s, 282) == 285) by {
        reveal_with_fuel(name_end, 5);
    }
    reveal_strlit("?15");
    assert(item(s, 235, 14) =~= "?15"@);
    assert(item_start(s, 327, 0) == 327);
    assert(past_white(s, 327) == 339) by {
        reveal_with_fuel(past_white, 14);
    }
    assert(name_end(s, 339) == 348) by {
        reveal_with_fuel(name_end, 11);
    }
    reveal_strlit("file_size");
    assert(item(s, 327, 0) =~= "file_size"@);
    assert(name_end(s, 349) == 351) by {
        reveal_with_fuel(name_end, 4);
    }
    reveal_strlit("?3");
    assert(assigned(s, 327, 0) =~= "?3"@);
    assert(next_comma(s, 327) == 351) by {
        reveal_with_fuel(next_comma, 26);
    }
    assert(item_start(s, 327, 1) == 352);
    assert(past_white(s, 352) == 353) by {
        reveal_with_fuel(past_white, 3);
    }
    assert(name_end(s, 353) == 363) by {
        reveal_with_fuel(name_end, 12);
    }
    reveal_strlit("file_mtime");
    assert(item(s, 327, 1) =~= "file_mtime"@);
    assert(name_end(s, 364) == 366) by {
        reveal_with_fuel(name_end, 4);
    }
    reveal_strlit("?4");
    assert(assigned(s, 327, 1) =~= "?4"@);
    assert(next_comma(s, 352) == 366) by {
        reveal_with_fuel(next_comma, 16);
    }
    assert(item_start(s, 327, 2) == 367);
    assert(past_white(s, 367) == 368) by {
        reveal_with_fuel(past_white, 3);
    }
    assert(name_end(s, 368) == 373) by {
        reveal_with_fuel(name_end, 7);
    }
    reveal_strlit("width");
    assert(item(s, 327, 2) =~= "width"@);
    assert(name_end(s, 374) == 376) by {
        reveal_with_fuel(name_end, 4);
    }
    reveal_strlit("?5");
    assert(assigned(s, 327, 2) =~= "?5"@);
    assert(next_comma(s, 367) == 376) by {
        reveal_with_fuel(next_comma, 11);
    }
    assert(item_start(s, 327, 3) == 377);
    assert(past_white(s, 377) == 378) by {
        reveal_with_fuel(past_white, 3);
    }
    assert(name_end(s, 378) == 384) by {
        reveal_with_fuel(name_end, 8);
    }
    reveal_strlit("height");
    assert(item(s, 327, 3) =~= "height"@);
    assert(name_end(s, 385) == 387) by {
        reveal_with_fuel(name_end, 4);
    }
    reveal_strlit("?6");
    assert(assigned(s, 327, 3) =~= "?6"@);
    assert(next_comma(s, 377) == 387) by {
        reveal_with_fuel(next_comma, 12);
    }
    assert(item_start(s, 327, 4) == 388);
    assert(past_white(s, 388) == 389) by {
        reveal_with_fuel(past_white, 3);
    }
    assert(name_end(s, 389) == 399) by {
        reveal_with_fuel(name_end, 12);
    }
    reveal_strlit("is_novelai");
    assert(item(s, 327, 4) =~= "is_novelai"@);
    assert(name_end(s, 400) == 402) by {
        reveal_with_fuel(name_end, 4);
    }
    reveal_strlit("?7");
    assert(assigned(s, 327, 4) =~= "?7"@);
    assert(next_comma(s, 388) == 402) by {
        reveal_with_fuel(next_comma, 16);
    }
    assert(item_start(s, 327, 5) == 403);
    assert(past_white(s, 403) == 415) by {
        reveal_with_fuel(past_white, 14);
    }
    assert(name_end(s, 415) == 420) by {
        reveal_with_fuel(name_end, 7);
    }
    reveal_strlit("model");
    assert(item(s, 327, 5) =~= "model"@);
    assert(name_end(s, 421) == 423) by {
        reveal_with_fuel(name_end, 4);
    }
    reveal_strlit("?8");
    assert(assigned(s, 327, 5) =~= "?8"@);
    assert(next_comma(s, 403) == 423) by {
        reveal_with_fuel(next_comma, 22);
    }
    assert(item_start(s, 327, 6) == 424);
    assert(past_white(s, 424) == 425) by {
        reveal_with_fuel(past_white, 3);
    }
    assert(name_end(s, 425) == 429) by {
        reveal_with_fuel(name_end, 6);
    }
    reveal_strlit("seed");
    assert(item(s, 327, 6) =~= "seed"@);
    assert(name_end(s, 430) == 432) by {
        reveal_with_fuel(name_end, 4);
    }
    reveal_strlit("?9");
    assert(assigned(s, 327, 6) =~= "?9"@);
    assert(next_comma(s, 424) == 432) by {
        reveal_with_fuel(next_comma, 10);
    }
    assert(item_start(s, 327, 7) == 433);
    assert(past_white(s, 433) == 434) by {
        reveal_with_fuel(past_white, 3);
    }
    assert(name_end(s, 434) == 441) by {
        reveal_with_fuel(name_end, 9);
    }
    reveal_strlit("sampler");
    assert(item(s, 327, 7) =~= "sampler"@);
    assert(name_end(s, 442) == 445) by {
        reveal_with_fuel(name_end, 5);
    }
    reveal_strlit("?10");
    assert(assigned(s, 327, 7) =~= "?10"@);
    assert(next_comma(s, 433) == 445) by {
        reveal_with_fuel(next_comma, 14);
    }
    assert(item_start(s, 327, 8) == 446);
    assert(past_white(s, 446) == 447) by {
        reveal_with_fuel(past_white, 3);
    }
    assert(name_end(s, 447) == 452) by {
        reveal_with_fuel(name_end, 7);
    }
    reveal_strlit("steps");
    assert(item(s, 327, 8) =~= "steps"@);
    assert(name_end(s, 453) == 456) by {
        reveal_with_fuel(name_end, 5);
    }
    reveal_strlit("?11");
    assert(assigned(s, 327, 8) =~= "?11"@);
    assert(next_comma(s, 446) == 456) by {
        reveal_with_fuel(next_comma, 12);
    }
    assert(item_start(s, 327, 9) == 457);
    assert(past_white(s, 457) == 458) by {
        reveal_with_fuel(past_white, 3);
    }
    assert(name_end(s, 458) == 463) by {
        reveal_with_fuel(name_end, 7);
    }
    reveal_strlit("scale");
    assert(item(s, 327, 9) =~= "scale"@);
    assert(name_end(s, 464) == 467) by {
        reveal_with_fuel(name_end, 5);
    }
    reveal_strlit("?12");
    assert(assigned(s, 327, 9) =~= "?12"@);
    assert(next_comma(s, 457) == 467) by {
        reveal_with_fuel(next_comma, 12);
    }
    assert(item_start(s, 327, 10) == 468);
    assert(past_white(s, 468) == 480) by {
        reveal_with_fuel(past_white, 14);
    }
    assert(name_end(s, 480) == 490) by {
        reveal_with_fuel(name_end, 12);
    }
    reveal_strlit("raw_prompt");
    assert(item(s, 327, 10) =~= "raw_prompt"@);
    assert(name_end(s, 491) == 494) by {
        reveal_with_fuel(name_end, 5);
    }
    reveal_strlit("?13");
    assert(assigned(s, 327, 10) =~= "?13"@);
    assert(next_comma(s, 468) == 494) by {
        reveal_with_fuel(next_comma, 28);
    }
    assert(item_start(s, 327, 11) == 495);
    assert(past_white(s, 495) == 496) by {
        reveal_with_fuel(past_white, 3);
    }
    assert(name_end(s, 496) == 508) by {
        reveal_with_fuel(name_end, 14);
    }
    reveal_strlit("raw_negative");
    assert(item(s, 327, 11) =~= "raw_negative"@);
    assert(name_end(s, 509) == 512) by {
        reveal_with_fuel(name_end, 5);
    }
    reveal_strlit("?14");
    assert(assigned(s, 327, 11) =~= "?14"@);
    assert(next_comma(s, 495) == 512) by {
        reveal_with_fuel(next_comma, 19);
    }
    assert(item_start(s, 327, 12) == 513);
    assert(past_white(s, 513) == 514) by {
        reveal_with_fuel(past_white, 3);
    }
    assert(name_end(s, 514) == 526) by {
        reveal_with_fuel(name_end, 14);
    }
    reveal_strlit("comment_json");
    assert(item(s, 327, 12) =~= "comment_json"@);
    assert(name_end(s, 527) == 530) by {
        reveal_with_fuel(name_end, 5);
    }
    reveal_strlit("?15");
    assert(assigned(s, 327, 12) =~= "?15"@);
}

/// The names of the placeholders.
proof fn lemma_placeholders()
    ensures
        placeholder(0) == "?1"@,
        placeholder(1) == "?2"@,
        placeholder(2) == "?3"@,
        placeholder(3) == "?4"@,
        placeholder(4) == "?5"@,
        placeholder(5) == "?6"@,
        placeholder(6) == "?7"@,
        placeholder(7) == "?8"@,
        placeholder(8) == "?9"@,
        placeholder(9) == "?10"@,
        placeholder(10) == "?11"@,
        placeholder(11) == "?12"@,
        placeholder(12) == "?13"@,
        placeholder(13) == "?14"@,
        placeholder(14) == "?15"@,
{
    reveal_with_fuel(digits, 3);
    reveal_strlit("?1");
    assert(placeholder(0) =~= "?1"@);
    reveal_strlit("?2");
    assert(placeholder(1) =~= "?2"@);
    reveal_strlit("?3");
    assert(placeholder(2) =~= "?3"@);
    reveal_strlit("?4");
    assert(placeholder(3) =~= "?4"@);
    reveal_strlit("?5");
    assert(placeholder(4) =~= "?5"@);
    reveal_strlit("?6");
    assert(placeholder(5) =~= "?6"@);
    reveal_strlit("?7");
    assert(placeholder(6) =~= "?7"@);
    reveal_strlit("?8");
    assert(placeholder(7) =~= "?8"@);
    reveal_strlit("?9");
    assert(placeholder(8) =~= "?9"@);
    reveal_strlit("?10");
    assert(placeholder(9) =~= "?10"@);
    reveal_strlit("?11");
    assert(placeholder(10) =~= "?11"@);
    reveal_strlit("?12");
    assert(placeholder(11) =~= "?12"@);
    reveal_strlit("?13");
    assert(placeholder(12) =~= "?13"@);
    reveal_strlit("?14");
    assert(placeholder(13) =~= "?14"@);
    reveal_strlit("?15");
    assert(placeholder(14) =~= "?15"@);
}

/// A column that a request names where its placeholder stands holds the value.
proof fn lemma_stored(params: Seq<ParamModel>, name: Seq<char>, k: int)
    requires
        0 <= k < params.len(),
        item(UPSERT_SQL@, 19, k) == name,
        item(UPSERT_SQL@, 235, k) == placeholder(k),
    ensures
        is_stored(Request::Execute { sql: UPSERT_SQL@, params }, name, params[k]),
{
    lemma_upsert_text();
    let request = Request::Execute { sql: UPSERT_SQL@, params };
    let sql = request->Execute_sql;
    assert(is_stored_at(sql, request->Execute_params, name, params[k], 19, 235, k, k));
}

/// A column that a request sets to a placeholder holds the value.
proof fn lemma_updated(params: Seq<ParamModel>, name: Seq<char>, j: int, k: int)
    requires
        0 <= j,
        0 <= k < params.len(),
        item(UPSERT_SQL@, 327, j) == name,
        assigned(UPSERT_SQL@, 327, j) == placeholder(k),
    ensures
        is_updated(Request::Execute { sql: UPSERT_SQL@, params }, name, params[k]),
{
    lemma_upsert_text();
    let request = Request::Execute { sql: UPSERT_SQL@, params };
    let sql = request->Execute_sql;
    assert(is_updated_at(sql, request->Execute_params, name, params[k], 327, j, k));
}

/// Each column that a file is entered with holds the value that was bound for it.
proof fn lemma_columns(params: Seq<ParamModel>)
    requires
        params.len() == 15,
    ensures
        is_stored(Request::Execute { sql: UPSERT_SQL@, params }, "path"@, params[0]),
        is_stored(Request::Execute { sql: UPSERT_SQL@, params }, "folder_id"@, params[1]),
        is_stored(Request::Execute { sql: UPSERT_SQL@, params }, "file_size"@, params[2]),
        is_stored(Request::Execute { sql: UPSERT_SQL@, params }, "file_mtime"@, params[3]),
        is_stored(Request::Execute { sql: UPSERT_SQL@, params }, "width"@, params[4]),
        is_stored(Request::Execute { sql: UPSERT_SQL@, params }, "height"@, params[5]),
        is_stored(Request::Execute { sql: UPSERT_SQL@, params }, "is_novelai"@, params[6]),
        is_stored(Request::Execute { sql: UPSERT_SQL@, params }, "model"@, params[7]),
        is_stored(Request::Execute { sql: UPSERT_SQL@, params }, "seed"@, params[8]),
        is_stored(Request::Execute { sql: UPSERT_SQL@, params }, "sampler"@, params[9]),
        is_stored(Request::Execute { sql: UPSERT_SQL@, params }, "steps"@, params[10]),
        is_stored(Request::Execute { sql: UPSERT_SQL@, params }, "scale"@, params[11]),
        is_stored(Request::Execute { sql: UPSERT_SQL@, params }, "raw_prompt"@, params[12]),
        is_stored(Request::Execute { sql: UPSERT_SQL@, params }, "raw_negative"@, params[13]),
        is_stored(Request::Execute { sql: UPSERT_SQL@, params }, "comment_json"@, params[14]),
        is_updated(Request::Execute { sql: UPSERT_SQL@, params }, "file_size"@, params[2]),
        is_updated(Request::Execute { sql: UPSERT_SQL@, params }, "file_mtime"@, params[3]),
        is_updated(Request::Execute { sql: UPSERT_SQL@, params }, "width"@, params[4]),
        is_updated(Request::Execute { sql: UPSERT_SQL@, params }, "height"@, params[5]),
        is_updated(Request::Execute { sql: UPSERT_SQL@, params }, "is_novelai"@, params[6]),
        is_updated(Request::Execute { sql: UPSERT_SQL@, params }, "model"@, params[7]),
        is_updated(Request::Execute { sql: UPSERT_SQL@, params }, "seed"@, params[8]),
        is_updated(Request::Execute { sql: UPSERT_SQL@, params }, "sampler"@, params[9]),
        is_updated(Request::Execute { sql: UPSERT_SQL@, params }, "steps"@, params[10]),
        is_updated(Request::Execute { sql: UPSERT_SQL@, params }, "scale"@, params[11]),
        is_updated(Request::Execute { sql: UPSERT_SQL@, params }, "raw_prompt"@, params[12]),
        is_updated(Request::Execute { sql: UPSERT_SQL@, params }, "raw_negative"@, params[13]),
        is_updated(Request::Execute { sql: UPSERT_SQL@, params }, "comment_json"@, params[14]),
{
    lemma_upsert_text();
    lemma_placeholders();
    lemma_stored(params, "path"@, 0);
    lemma_stored(params, "folder_id"@, 1);
    lemma_stored(params, "file_size"@, 2);
    lemma_stored(params, "file_mtime"@, 3);
    lemma_stored(params, "width"@, 4);
    lemma_stored(params, "height"@, 5);
    lemma_stored(params, "is_novelai"@, 6);
    lemma_stored(params, "model"@, 7);
    lemma_stored(params, "seed"@, 8);
    lemma_stored(params, "sampler"@, 9);
    lemma_stored(params, "steps"@, 10);
    lemma_stored(params, "scale"@, 11);
    lemma_stored(params, "raw_prompt"@, 12);
    lemma_stored(params, "raw_negative"@, 13);
    lemma_stored(params, "comment_json"@, 14);
    lemma_updated(params, "file_size"@, 0, 2);
    lemma_updated(params, "file_mtime"@, 1, 3);
    lemma_updated(params, "width"@, 2, 4);
    lemma_updated(params, "height"@, 3, 5);
    lemma_updated(params, "is_novelai"@, 4, 6);
    lemma_updated(params, "model"@, 5, 7);
    lemma_updated(params, "seed"@, 6, 8);
    lemma_updated(params, "sampler"@, 7, 9);
    lemma_updated(params, "steps"@, 8, 10);
    lemma_updated(params, "scale"@, 9, 11);
    lemma_updated(params, "raw_prompt"@, 10, 12);
    lemma_updated(params, "raw_negative"@, 11, 13);
    lemma_updated(params, "comment_json"@, 12, 14);
}

/// The request that enters a file binds each value to the placeholder of its column:
/// the value at the place where the text of the request names `model` is the model of
/// the metadata, and so for all fifteen columns.
pub proof fn law_columns_hold_their_fields(
    before: Seq<Event>,
    after: Seq<Event>,
    folder_id: i64,
    f: ParsedModel,
    r: Result<(), ErrKind>,
)
    requires
        entered(before, after, folder_id, f, r),
    ensures
        ({
            let request = after[before.len() as int].request;
            &&& is_stored(request, "path"@, ParamModel::Text(f.path))
            &&& is_stored(request, "folder_id"@, ParamModel::Integer(folder_id))
            &&& is_set(request, "file_size"@, ParamModel::Integer(f.size))
            &&& is_set(request, "file_mtime"@, ParamModel::Integer(f.mtime))
            &&& f.meta matches Some(m) ==> {
                &&& is_set(request, "width"@, ParamModel::Integer(m.width as i64))
                &&& is_set(request, "height"@, ParamModel::Integer(m.height as i64))
                &&& m.is_novelai ==> is_set(request, "is_novelai"@, ParamModel::Integer(1))
                &&& !m.is_novelai ==> is_set(request, "is_novelai"@, ParamModel::Integer(0))
                &&& is_set_text(request, "model"@, m.model)
                &&& is_set_int(request, "seed"@, m.seed)
                &&& is_set_text(request, "sampler"@, m.sampler)
                &&& is_set_int(request, "steps"@, m.steps)
                &&& is_set_real(request, "scale"@, m.scale)
                &&& is_set_text(request, "raw_prompt"@, m.raw_prompt)
                &&& is_set_text(request, "raw_negative"@, m.raw_negative)
                &&& is_set_text(request, "comment_json"@, m.comment_json)
            }
            &&& f.meta is None ==> {
                &&& is_set(request, "width"@, ParamModel::Integer(0))
                &&& is_set(request, "height"@, ParamModel::Integer(0))
                &&& is_set(request, "is_novelai"@, ParamModel::Integer(0))
                &&& is_set(request, "model"@, ParamModel::Null)
                &&& is_set(request, "seed"@, ParamModel::Null)
                &&& is_set(request, "sampler"@, ParamModel::Null)
                &&& is_set(request, "steps"@, ParamModel::Null)
                &&& is_set(request, "scale"@, ParamModel::Null)
                &&& is_set(request, "raw_prompt"@, ParamModel::Null)
                &&& is_set(request, "raw_negative"@, ParamModel::Null)
                &&& is_set(request, "comment_json"@, ParamModel::Null)
            }
        }),
{
    let request = after[before.len() as int].request;
    let params = request->Execute_params;
    assert(request == Request::Execute { sql: UPSERT_SQL@, params });
    assert(params.len() == 15);
    assert forall|k: int| 0 <= k < 15 implies #[trigger] params[k] == bound(
        file_params(folder_id, f)[k],
    ) by {}
    lemma_columns(params);
}

/// Where a list has ended, no further item starts in the text.
proof fn lemma_no_further_item(s: Seq<char>, from: int, last: int, k: int)
    requires
        0 <= last < k,
        next_comma(s, item_start(s, from, last)) >= s.len(),
    ensures
        item_start(s, from, k) > s.len(),
    decreases k - last,
{
    if k > last + 1 {
        lemma_no_further_item(s, from, last, k - 1);
    }
}

/// The last column that is set anew is the hash, and nothing follows it.
proof fn lemma_upsert_end()
    ensures
        item(UPSERT_SQL@, 327, 13) == "phash"@,
        assigned(UPSERT_SQL@, 327, 13) == "NULL"@,
        next_comma(UPSERT_SQL@, item_start(UPSERT_SQL@, 327, 13)) >= UPSERT_SQL@.len(),
{
    let s = UPSERT_SQL@;
    reveal_strlit("INSERT INTO images(path, folder_id, file_size, file_mtime, width, height,
                            is_novelai, model, seed, sampler, steps, scale,
                            raw_prompt, raw_negative, comment_json)
         VALUES (?1,?2,?3,?4,?5,?6,?7,?8,?9,?10,?11,?12,?13,?14,?15)
         ON CONFLICT(path) DO UPDATE SET
           file_size=?3, file_mtime=?4, width=?5, height=?6, is_novelai=?7,
           model=?8, seed=?9, sampler=?10, steps=?11, scale=?12,
           raw_prompt=?13, raw_negative=?14, comment_json=?15,
           phash=NULL");
    assert(item_start(s, 327, 0) == 327);
    assert(next_comma(s, 327) == 351) by {
        reveal_with_fuel(next_comma, 26);
    }
    assert(item_start(s, 327, 1) == 352);
    assert(next_comma(s, 352) == 366) by {
        reveal_with_fuel(next_comma, 16);
    }
    assert(item_start(s, 327, 2) == 367);
    assert(next_comma(s, 367) == 376) by {
        reveal_with_fuel(next_comma, 11);
    }
    assert(item_start(s, 327, 3) == 377);
    assert(next_comma(s, 377) == 387) by {
        reveal_with_fuel(next_comma, 12);
    }
    assert(item_start(s, 327, 4) == 388);
    assert(next_comma(s, 388) == 402) by {
        reveal_with_fuel(next_comma, 16);
    }
    assert(item_start(s, 327, 5) == 403);
    assert(next_comma(s, 403) == 423) by {
        reveal_with_fuel(next_comma, 22);
    }
    assert(item_start(s, 327, 6) == 424);
    assert(next_comma(s, 424) == 432) by {
        reveal_with_fuel(next_comma, 10);
    }
    assert(item_start(s, 327, 7) == 433);
    assert(next_comma(s, 433) == 445) by {
        reveal_with_fuel(next_comma, 14);
    }
    assert(item_start(s, 327, 8) == 446);
    assert(next_comma(s, 446) == 456) by {
        reveal_with_fuel(next_comma, 12);
    }
    assert(item_start(s, 327, 9) == 457);
    assert(next_comma(s, 457) == 467) by {
        reveal_with_fuel(next_comma, 12);
    }
    assert(item_start(s, 327, 10) == 468);
    assert(next_comma(s, 468) == 494) by {
        reveal_with_fuel(next_comma, 28);
    }
    assert(item_start(s, 327, 11) == 495);
    assert(next_comma(s, 495) == 512) by {
        reveal_with_fuel(next_comma, 19);
    }
    assert(item_start(s, 327, 12) == 513);
    assert(next_comma(s, 513) == 530) by {
        reveal_with_fuel(next_comma, 19);
    }
    assert(item_start(s, 327, 13) == 531);
    assert(next_comma(s, 531) == 553) by {
        reveal_with_fuel(next_comma, 24);
    }
    assert(past_white(s, 531) == 543) by {
        reveal_with_fuel(past_white, 14);
    }
    assert(name_end(s, 543) == 548) by {
        reveal_with_fuel(name_end, 7);
    }
    assert(name_end(s, 549) == 553) by {
        reveal_with_fuel(name_end, 6);
    }
    reveal_strlit("phash");
    reveal_strlit("NULL");
    assert(item(s, 327, 13) =~= "phash"@);
    assert(assigned(s, 327, 13) =~= "NULL"@);
}

/// Entering a file that is in the index already leaves what a user said of it: its
/// rating, and whether it is a favourite or rejected, are not among the columns that are
/// set; the hash is, to nothing, so that it is computed again.
pub proof fn law_marks_of_users_stay(k: int)
    requires
        0 <= k,
        item_start(UPSERT_SQL@, 327, k) < UPSERT_SQL@.len(),
    ensures
        ends_at(UPSERT_SQL@, "DO UPDATE SET"@, 327),
        item(UPSERT_SQL@, 327, k) != "rating"@,
        item(UPSERT_SQL@, 327, k) != "favorite"@,
        item(UPSERT_SQL@, 327, k) != "hidden"@,
        item(UPSERT_SQL@, 327, 13) == "phash"@,
        assigned(UPSERT_SQL@, 327, 13) == "NULL"@,
{
    let s = UPSERT_SQL@;
    lemma_upsert_text();
    lemma_upsert_end();
    if k > 13 {
        lemma_no_further_item(s, 327, 13, k);
    }
    reveal_strlit("rating");
    reveal_strlit("favorite");
    reveal_strlit("hidden");
    reveal_strlit("file_size");
    reveal_strlit("file_mtime");
    reveal_strlit("width");
    reveal_strlit("height");
    reveal_strlit("is_novelai");
    reveal_strlit("model");
    reveal_strlit("seed");
    reveal_strlit("sampler");
    reveal_strlit("steps");
    reveal_strlit("scale");
    reveal_strlit("raw_prompt");
    reveal_strlit("raw_negative");
    reveal_strlit("comment_json");
    reveal_strlit("phash");
    let r = "rating"@;
    let f = "favorite"@;
    let h = "hidden"@;
    assert("file_size"@.len() != r.len() && "file_size"@.len() != f.len() && "file_size"@.len() != h.len());
    assert("file_mtime"@.len() != r.len() && "file_mtime"@.len() != f.len() && "file_mtime"@.len() != h.len());
    assert("width"@.len() != r.len() && "width"@.len() != f.len() && "width"@.len() != h.len());
    assert("height"@[0] != r[0] && "height"@.len() != f.len() && "height"@[1] != h[1]);
    assert("is_novelai"@.len() != r.len() && "is_novelai"@.len() != f.len() && "is_novelai"@.len() != h.len());
    assert("model"@.len() != r.len() && "model"@.len() != f.len() && "model"@.len() != h.len());
    assert("seed"@.len() != r.len() && "seed"@.len() != f.len() && "seed"@.len() != h.len());
    assert("sampler"@.len() != r.len() && "sampler"@.len() != f.len() && "sampler"@.len() != h.len());
    assert("steps"@.len() != r.len() && "steps"@.len() != f.len() && "steps"@.len() != h.len());
    assert("scale"@.len() != r.len() && "scale"@.len() != f.len() && "scale"@.len() != h.len());
    assert("raw_prompt"@.len() != r.len() && "raw_prompt"@.len() != f.len() && "raw_prompt"@.len() != h.len());
    assert("raw_negative"@.len() != r.len() && "raw_negative"@.len() != f.len() && "raw_negative"@.len() != h.len());
    assert("comment_json"@.len() != r.len() && "comment_json"@.len() != f.len() && "comment_json"@.len() != h.len());
    assert("phash"@.len() != r.len() && "phash"@.len() != f.len() && "phash"@.len() != h.len());
}

} // verus!
