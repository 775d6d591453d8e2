//! Searching the index.

use crate::sql::{
    all_read, one_read, param_models, read_flag, read_int, read_opt_int, read_small, row_models,
    Cell, CellModel, Db, DbError, ErrKind, Event, FromRow, Param, ParamModel, Request,
};
use crate::sql::{flag_in, int_in, opt_int_in, select, small_in};
use crate::text::{concat3, count_text, decimal, decimal_text, digits, join, joined, same_text, texts};
use vstd::hash_set::StringHashSet;
use vstd::prelude::*;

verus! {

/// What to search for.
pub struct Query {
    pub include_tags: Vec<String>,
    pub exclude_tags: Vec<String>,
    pub text: Option<String>,
    pub favorite: Option<bool>,
    pub min_rating: Option<i64>,
    pub folder_id: Option<i64>,
    /// Absolute directory with its trailing separator: scopes to a subfolder of a
    /// watched root.
    pub path_prefix: Option<String>,
    pub album_id: Option<i64>,
    /// `true`: only images in at least one album; `false`: only images in none.
    pub in_album: Option<bool>,
    /// `false`: no rejects; `true`: rejects only.
    pub rejects: bool,
    /// `newest`, `oldest` or `rating`.
    pub sort: String,
    pub offset: i64,
    pub limit: i64,
}

/// An image in a list of results.
pub struct ImageCard {
    pub id: i64,
    pub width: u32,
    pub height: u32,
    pub seed: Option<i64>,
    pub rating: i64,
    pub favorite: bool,
}

/// One page of results, with the number of all.
pub struct QueryResult {
    pub total: i64,
    pub cards: Vec<ImageCard>,
}

/// How many results a page has where the search does not say.
pub fn default_limit() -> (r: i64)
    ensures
        r == 200,
{
    200
}

impl Default for Query {
    /// A search for everything that is not rejected, from the newest on, of no
    /// length.
    fn default() -> (r: Self)
        ensures
            r.include_tags@.len() == 0,
            r.exclude_tags@.len() == 0,
            r.text is None,
            r.favorite is None,
            r.min_rating is None,
            r.folder_id is None,
            r.path_prefix is None,
            r.album_id is None,
            r.in_album is None,
            !r.rejects,
            r.sort@ == Seq::<char>::empty(),
            r.offset == 0,
            r.limit == 0,
    {
        Query {
            include_tags: Vec::new(),
            exclude_tags: Vec::new(),
            text: None,
            favorite: None,
            min_rating: None,
            folder_id: None,
            path_prefix: None,
            album_id: None,
            in_album: None,
            rejects: false,
            sort: String::new(),
            offset: 0,
            limit: 0,
        }
    }
}

// ---------------------------------------------------------------------------
// The condition
// ---------------------------------------------------------------------------

/// `n` placeholders with commas between them.
pub open spec fn marks(n: nat) -> Seq<char> {
    joined(Seq::new(n, |i: int| "?"@), ","@)
}

/// Whether there is a text that is not empty.
pub open spec fn given(o: Option<String>) -> bool {
    o is Some && o->0@.len() > 0
}

/// Rejects only, or no rejects.
pub open spec fn hidden_clause(q: Query) -> Seq<char> {
    if q.rejects {
        "images.hidden = 1"@
    } else {
        "images.hidden = 0"@
    }
}

/// The images of one album.
pub open spec fn album_clause(id: i64) -> Seq<char> {
    "images.id IN (SELECT image_id FROM album_images WHERE album_id = "@ + decimal(id as int) + ")"@
}

/// The images that have all tags of a list: of the `listed` names, as many different
/// tags are found with the image as there are different names, `wanted`.
pub open spec fn include_clause(listed: nat, wanted: nat) -> Seq<char> {
    "images.id IN (SELECT it.image_id FROM image_tags it
              JOIN tags t ON t.id = it.tag_id WHERE t.name IN ("@ + marks(listed) + ")
              GROUP BY it.image_id HAVING COUNT(DISTINCT t.id) = "@ + decimal(wanted as int) + ")"@
}

/// The images that have none of `n` tags.
pub open spec fn exclude_clause(n: nat) -> Seq<char> {
    "images.id NOT IN (SELECT it.image_id FROM image_tags it
              JOIN tags t ON t.id = it.tag_id WHERE t.name IN ("@ + marks(n) + "))"@
}

/// `clause` where `cond` holds.
pub open spec fn when(cond: bool, clause: Seq<char>) -> Seq<Seq<char>> {
    if cond {
        seq![clause]
    } else {
        Seq::empty()
    }
}

/// The conditions on rejection and albums.
pub open spec fn scope_clauses(q: Query) -> Seq<Seq<char>> {
    seq![hidden_clause(q)]
        + when(q.album_id is Some, album_clause(q.album_id->0))
        + when(q.in_album == Some(true), "images.id IN (SELECT image_id FROM album_images)"@)
        + when(q.in_album == Some(false), "images.id NOT IN (SELECT image_id FROM album_images)"@)
}

/// The conditions on tags.
pub open spec fn tag_clauses(q: Query) -> Seq<Seq<char>> {
    when(
        q.include_tags@.len() > 0,
        include_clause(q.include_tags@.len(), texts(q.include_tags@).to_set().len()),
    ) + when(q.exclude_tags@.len() > 0, exclude_clause(q.exclude_tags@.len()))
}

/// The conditions on marks and on the place of the file.
pub open spec fn mark_clauses(q: Query) -> Seq<Seq<char>> {
    when(q.favorite == Some(true), "images.favorite = 1"@)
        + when(q.min_rating is Some, "images.rating >= "@ + decimal(q.min_rating->0 as int))
        + when(q.folder_id is Some, "images.folder_id = "@ + decimal(q.folder_id->0 as int))
}

/// The conditions of a search, all of which must hold.
pub open spec fn where_clauses(q: Query) -> Seq<Seq<char>> {
    scope_clauses(q) + tag_clauses(q)
        + when(given(q.text), "(images.raw_prompt LIKE ? OR images.raw_negative LIKE ?)"@)
        + mark_clauses(q)
        + when(given(q.path_prefix), "substr(images.path, 1, length(?)) = ?"@)
}

/// Texts as bound values.
pub open spec fn text_params(v: Seq<Seq<char>>) -> Seq<ParamModel> {
    v.map_values(|s: Seq<char>| ParamModel::Text(s))
}

/// `s` twice, where `cond` holds.
pub open spec fn twice_when(cond: bool, s: Seq<char>) -> Seq<Seq<char>> {
    if cond {
        seq![s, s]
    } else {
        Seq::empty()
    }
}

/// The texts bound to the placeholders, in their order.
pub open spec fn where_texts(q: Query) -> Seq<Seq<char>> {
    texts(q.include_tags@) + texts(q.exclude_tags@)
        + twice_when(given(q.text), "%"@ + q.text->0@ + "%"@)
        + twice_when(given(q.path_prefix), q.path_prefix->0@)
}

/// The condition of a search.
pub open spec fn where_sql(q: Query) -> Seq<char> {
    joined(where_clauses(q), " AND "@)
}

/// The order of the results.
pub open spec fn order_sql(sort: Seq<char>) -> Seq<char> {
    if sort == "oldest"@ {
        "images.file_mtime ASC, images.id ASC"@
    } else if sort == "rating"@ {
        "images.rating DESC, images.file_mtime DESC"@
    } else {
        "images.file_mtime DESC, images.id DESC"@
    }
}

/// Counts the results.
pub open spec fn count_request(q: Query) -> Request {
    select(
        "SELECT COUNT(*) FROM images WHERE "@ + where_sql(q),
        text_params(where_texts(q)),
    )
}

/// Selects a page of the results.
pub open spec fn page_request(q: Query) -> Request {
    select(
        "SELECT id, width, height, seed, rating, favorite FROM images
         WHERE "@ + where_sql(q) + " ORDER BY "@ + order_sql(q.sort@) + " LIMIT "@ + decimal(
            q.limit as int,
        ) + " OFFSET "@ + decimal(q.offset as int),
        text_params(where_texts(q)),
    )
}

/// Placeholders for a list of the given length.
fn mark_list(n: usize) -> (r: String)
    ensures
        r@ == marks(n as nat),
{
    let mut parts: Vec<String> = Vec::new();
    let mut i: usize = 0;
    while i < n
        invariant
            i <= n,
            parts@.len() == i,
            forall|k: int| 0 <= k < i ==> (#[trigger] parts@[k])@ == "?"@,
        decreases n - i,
    {
        parts.push("?".to_owned());
        i += 1;
    }
    assert(texts(parts@) == Seq::new(n as nat, |i: int| "?"@));
    join(&parts, ",")
}

/// Adds the texts of a list to the bound values.
fn bind_texts(list: &Vec<String>, params: &mut Vec<Param>)
    ensures
        param_models(final(params)@) == param_models(old(params)@) + text_params(texts(list@)),
{
    let ghost start = param_models(params@);
    let ghost all = text_params(texts(list@));
    let mut i: usize = 0;
    assert(start + all.take(0) == start);
    while i < list.len()
        invariant
            i <= list@.len(),
            all == text_params(texts(list@)),
            param_models(params@) == start + all.take(i as int),
        decreases list@.len() - i,
    {
        let ghost before = params@;
        let p = Param::Text(list[i].clone());
        params.push(p);
        i += 1;
        assert(param_models(params@) == param_models(before).push(p.model()));
        assert(all.take(i as int) == all.take(i - 1).push(p.model()));
        assert(start + all.take(i as int) == (start + all.take(i - 1)).push(p.model()));
    }
    assert(all.take(all.len() as int) == all);
}

/// Adds a text to the bound values twice.
fn bind_twice(s: &String, params: &mut Vec<Param>)
    ensures
        param_models(final(params)@) == param_models(old(params)@) + text_params(seq![s@, s@]),
{
    let ghost before = params@;
    let a = Param::Text(s.clone());
    let b = Param::Text(s.clone());
    params.push(a);
    params.push(b);
    assert(param_models(params@) == param_models(before) + text_params(seq![s@, s@]));
}

/// Adds a condition.
fn add_clause(clauses: &mut Vec<String>, c: String)
    ensures
        texts(final(clauses)@) == texts(old(clauses)@) + seq![c@],
{
    let ghost before = clauses@;
    clauses.push(c);
    assert(texts(before.push(c)) =~= texts(before) + seq![c@]);
}

/// Adds a condition that ends in a number.
fn add_bound(clauses: &mut Vec<String>, front: &str, n: i64)
    ensures
        texts(final(clauses)@) == texts(old(clauses)@) + seq![front@ + decimal(n as int)],
{
    let mut c = front.to_owned();
    let d = decimal_text(n);
    c.append(d.as_str());
    add_clause(clauses, c);
}

/// Adds the conditions on rejection and albums.
fn add_scope(q: &Query, clauses: &mut Vec<String>)
    ensures
        texts(final(clauses)@) == texts(old(clauses)@) + scope_clauses(*q),
{
    if q.rejects {
        add_clause(clauses, "images.hidden = 1".to_owned());
    } else {
        add_clause(clauses, "images.hidden = 0".to_owned());
    }
    if let Some(a) = q.album_id {
        let id = decimal_text(a);
        let c = concat3(
            "images.id IN (SELECT image_id FROM album_images WHERE album_id = ",
            id.as_str(),
            ")",
        );
        add_clause(clauses, c);
    }
    match q.in_album {
        Some(true) => add_clause(
            clauses,
            "images.id IN (SELECT image_id FROM album_images)".to_owned(),
        ),
        Some(false) => add_clause(
            clauses,
            "images.id NOT IN (SELECT image_id FROM album_images)".to_owned(),
        ),
        None => {},
    }
    assert(texts(clauses@) =~= texts(old(clauses)@) + scope_clauses(*q));
}

/// How many different texts a list has.
fn count_distinct(list: &Vec<String>) -> (r: usize)
    ensures
        r == texts(list@).to_set().len(),
{
    let ghost all = texts(list@);
    let mut seen: StringHashSet = StringHashSet::new();
    let mut i: usize = 0;
    assert(seen@ =~= all.take(0).to_set());
    while i < list.len()
        invariant
            i <= list@.len(),
            all == texts(list@),
            seen@ == all.take(i as int).to_set(),
        decreases list@.len() - i,
    {
        let ghost before = all.take(i as int);
        seen.insert(list[i].clone());
        i += 1;
        proof {
            assert(all.take(i as int) =~= before.push(all[i - 1]));
            lemma_set_grows(before, all[i - 1]);
        }
    }
    assert(all.take(all.len() as int) =~= all);
    seen.len()
}

/// The different texts of a list that grew.
proof fn lemma_set_grows(list: Seq<Seq<char>>, name: Seq<char>)
    ensures
        list.push(name).to_set() == list.to_set().insert(name),
{
    let now = list.push(name);
    assert forall|x: Seq<char>| now.to_set().contains(x) == list.to_set().insert(name).contains(x) by {
        if list.contains(x) {
            let k = choose|k: int| 0 <= k < list.len() && list[k] == x;
            assert(now[k] == x);
        }
        if x == name {
            assert(now[list.len() as int] == x);
        }
        if now.contains(x) {
            let k = choose|k: int| 0 <= k < now.len() && now[k] == x;
            assert(k < list.len() ==> list[k] == x);
        }
    }
    assert(now.to_set() =~= list.to_set().insert(name));
}

/// A tag that is named again is not wanted twice: an image has to have as many tags
/// as before.
pub proof fn law_repeated_tag_is_wanted_once(list: Seq<Seq<char>>, name: Seq<char>)
    requires
        list.contains(name),
    ensures
        list.push(name).to_set().len() == list.to_set().len(),
{
    lemma_set_grows(list, name);
    assert(list.to_set().insert(name) =~= list.to_set());
}

/// Naming tags again, or in another order, asks for no more: the condition differs only
/// in how many placeholders the list of names has, the same names are bound to them,
/// as many different tags are wanted, and all else is asked as before.
pub proof fn law_repeated_tags_ask_no_more(q: Query, list: Vec<String>)
    requires
        q.include_tags@.len() > 0,
        texts(list@).to_set() == texts(q.include_tags@).to_set(),
    ensures
        ({
            let r = Query { include_tags: list, ..q };
            let wanted = texts(q.include_tags@).to_set().len();
            let at = scope_clauses(q).len() as int;
            &&& where_clauses(q)[at] == include_clause(q.include_tags@.len(), wanted)
            &&& where_clauses(r) == where_clauses(q).update(at, include_clause(list@.len(), wanted))
            &&& where_texts(r).take(list@.len() as int) == texts(list@)
            &&& where_texts(r).skip(list@.len() as int) == where_texts(q).skip(
                q.include_tags@.len() as int,
            )
        }),
{
    let r = Query { include_tags: list, ..q };
    let names = texts(q.include_tags@);
    assert(names.to_set().contains(names[0]));
    assert(texts(list@).contains(names[0]));
    assert(list@.len() > 0);
    let wanted = names.to_set().len();
    lemma_first_replaced(
        scope_clauses(q),
        include_clause(q.include_tags@.len(), wanted),
        include_clause(list@.len(), wanted),
        when(q.exclude_tags@.len() > 0, exclude_clause(q.exclude_tags@.len())),
        when(given(q.text), "(images.raw_prompt LIKE ? OR images.raw_negative LIKE ?)"@),
        mark_clauses(q),
        when(given(q.path_prefix), "substr(images.path, 1, length(?)) = ?"@),
    );
    let excluded = texts(q.exclude_tags@);
    let text = twice_when(given(q.text), "%"@ + q.text->0@ + "%"@);
    let prefix = twice_when(given(q.path_prefix), q.path_prefix->0@);
    lemma_front(names, excluded, text, prefix);
    lemma_front(texts(list@), excluded, text, prefix);
}

proof fn lemma_first_replaced(
    front: Seq<Seq<char>>,
    a: Seq<char>,
    b: Seq<char>,
    c: Seq<Seq<char>>,
    d: Seq<Seq<char>>,
    e: Seq<Seq<char>>,
    f: Seq<Seq<char>>,
)
    ensures
        (front + (seq![a] + c) + d + e + f)[front.len() as int] == a,
        (front + (seq![a] + c) + d + e + f).update(front.len() as int, b) == front + (seq![b] + c)
            + d + e + f,
{
    let more = c + d + e + f;
    assert(front + (seq![a] + c) + d + e + f =~= front + seq![a] + more);
    assert(front + (seq![b] + c) + d + e + f =~= front + seq![b] + more);
    assert((front + seq![a] + more).update(front.len() as int, b) =~= front + seq![b] + more);
}

proof fn lemma_front(
    a: Seq<Seq<char>>,
    b: Seq<Seq<char>>,
    c: Seq<Seq<char>>,
    d: Seq<Seq<char>>,
)
    ensures
        (a + b + c + d).take(a.len() as int) == a,
        (a + b + c + d).skip(a.len() as int) == b + c + d,
{
    assert((a + b + c + d).take(a.len() as int) =~= a);
    assert((a + b + c + d).skip(a.len() as int) =~= b + c + d);
}

/// Adds the conditions on tags. Tags are intersected by counting matches.
fn add_tags(q: &Query, clauses: &mut Vec<String>, params: &mut Vec<Param>)
    ensures
        texts(final(clauses)@) == texts(old(clauses)@) + tag_clauses(*q),
        param_models(final(params)@) == param_models(old(params)@) + text_params(
            texts(q.include_tags@) + texts(q.exclude_tags@),
        ),
{
    if q.include_tags.len() > 0 {
        let ph = mark_list(q.include_tags.len());
        let n = count_text(count_distinct(&q.include_tags));
        let mut c = concat3(
            "images.id IN (SELECT it.image_id FROM image_tags it
              JOIN tags t ON t.id = it.tag_id WHERE t.name IN (",
            ph.as_str(),
            ")
              GROUP BY it.image_id HAVING COUNT(DISTINCT t.id) = ",
        );
        c.append(n.as_str());
        c.append(")");
        add_clause(clauses, c);
        bind_texts(&q.include_tags, params);
    }
    if q.exclude_tags.len() > 0 {
        let ph = mark_list(q.exclude_tags.len());
        let c = concat3(
            "images.id NOT IN (SELECT it.image_id FROM image_tags it
              JOIN tags t ON t.id = it.tag_id WHERE t.name IN (",
            ph.as_str(),
            "))",
        );
        add_clause(clauses, c);
        bind_texts(&q.exclude_tags, params);
    }
    assert(texts(clauses@) =~= texts(old(clauses)@) + tag_clauses(*q));
    assert(param_models(params@) =~= param_models(old(params)@) + text_params(
        texts(q.include_tags@) + texts(q.exclude_tags@),
    ));
}

/// Adds the condition on the prompts.
fn add_text(q: &Query, clauses: &mut Vec<String>, params: &mut Vec<Param>)
    ensures
        texts(final(clauses)@) == texts(old(clauses)@) + when(
            given(q.text),
            "(images.raw_prompt LIKE ? OR images.raw_negative LIKE ?)"@,
        ),
        param_models(final(params)@) == param_models(old(params)@) + text_params(
            twice_when(given(q.text), "%"@ + q.text->0@ + "%"@),
        ),
{
    if let Some(text) = &q.text {
        if !text.as_str().is_empty() {
            add_clause(
                clauses,
                "(images.raw_prompt LIKE ? OR images.raw_negative LIKE ?)".to_owned(),
            );
            let like = concat3("%", text.as_str(), "%");
            bind_twice(&like, params);
            return;
        }
    }
    assert(!given(q.text));
    assert(texts(clauses@) =~= texts(old(clauses)@) + Seq::<Seq<char>>::empty());
    assert(param_models(params@) =~= param_models(old(params)@) + text_params(Seq::empty()));
}

/// Adds the conditions on marks and on the watched folder.
fn add_marks(q: &Query, clauses: &mut Vec<String>)
    ensures
        texts(final(clauses)@) == texts(old(clauses)@) + mark_clauses(*q),
{
    if let Some(true) = q.favorite {
        add_clause(clauses, "images.favorite = 1".to_owned());
    }
    if let Some(n) = q.min_rating {
        add_bound(clauses, "images.rating >= ", n);
    }
    if let Some(n) = q.folder_id {
        add_bound(clauses, "images.folder_id = ", n);
    }
    assert(texts(clauses@) =~= texts(old(clauses)@) + mark_clauses(*q));
}

/// Adds the condition on the place of the file: an exact comparison of the front,
/// since paths may hold the wildcards of `LIKE`.
fn add_prefix(q: &Query, clauses: &mut Vec<String>, params: &mut Vec<Param>)
    ensures
        texts(final(clauses)@) == texts(old(clauses)@) + when(
            given(q.path_prefix),
            "substr(images.path, 1, length(?)) = ?"@,
        ),
        param_models(final(params)@) == param_models(old(params)@) + text_params(
            twice_when(given(q.path_prefix), q.path_prefix->0@),
        ),
{
    if let Some(prefix) = &q.path_prefix {
        if !prefix.as_str().is_empty() {
            add_clause(clauses, "substr(images.path, 1, length(?)) = ?".to_owned());
            bind_twice(prefix, params);
            return;
        }
    }
    assert(!given(q.path_prefix));
    assert(texts(clauses@) =~= texts(old(clauses)@) + Seq::<Seq<char>>::empty());
    assert(param_models(params@) =~= param_models(old(params)@) + text_params(Seq::empty()));
}

/// Builds the condition of a search, and adds the values of its placeholders to
/// `params`.
pub fn build_where(q: &Query, params: &mut Vec<Param>) -> (r: String)
    ensures
        r@ == where_sql(*q),
        param_models(final(params)@) == param_models(old(params)@) + text_params(where_texts(*q)),
{
    let mut clauses: Vec<String> = Vec::new();
    add_scope(q, &mut clauses);
    add_tags(q, &mut clauses, params);
    add_text(q, &mut clauses, params);
    add_marks(q, &mut clauses);
    add_prefix(q, &mut clauses, params);
    assert(texts(clauses@) =~= where_clauses(*q));
    assert(param_models(params@) =~= param_models(old(params)@) + text_params(where_texts(*q)));
    join(&clauses, " AND ")
}

// ---------------------------------------------------------------------------
// Results
// ---------------------------------------------------------------------------

impl FromRow for ImageCard {
    type M = ImageCard;

    open spec fn row_model(self) -> ImageCard {
        self
    }

    open spec fn decoded(row: Seq<CellModel>) -> Option<ImageCard> {
        match (
            int_in(row, 0),
            small_in(row, 1),
            small_in(row, 2),
            opt_int_in(row, 3),
            int_in(row, 4),
            flag_in(row, 5),
        ) {
            (Some(id), Some(width), Some(height), Some(seed), Some(rating), Some(favorite)) => Some(
                ImageCard { id, width, height, seed, rating, favorite },
            ),
            _ => None,
        }
    }

    fn from_row(row: &Vec<Cell>) -> (r: Result<Self, DbError>) {
        match (
            read_int(row, 0),
            read_small(row, 1),
            read_small(row, 2),
            read_opt_int(row, 3),
            read_int(row, 4),
            read_flag(row, 5),
        ) {
            (Some(id), Some(width), Some(height), Some(seed), Some(rating), Some(favorite)) => Ok(
                ImageCard { id, width, height, seed, rating, favorite },
            ),
            _ => Err(DbError::Column),
        }
    }
}

/// The mathematical form of a result: the number of all results, and the page.
pub open spec fn result_model(r: Result<QueryResult, DbError>) -> Result<
    (i64, Seq<ImageCard>),
    ErrKind,
> {
    match r {
        Ok(v) => Ok((v.total, v.cards@)),
        Err(e) => Err(e.kind()),
    }
}

/// Whether a search was made: the results are counted, then the page is selected,
/// and `r` is what the answers come to.
pub open spec fn searched(
    before: Seq<Event>,
    after: Seq<Event>,
    q: Query,
    r: Result<(i64, Seq<ImageCard>), ErrKind>,
) -> bool {
    let n = before.len() as int;
    &&& after.len() > n
    &&& after.take(n) == before
    &&& after[n].request == count_request(q)
    &&& match one_read::<i64>(after[n].reply) {
        Err(k) => after.len() == n + 1 && r == Err::<(i64, Seq<ImageCard>), ErrKind>(k),
        Ok(total) => {
            &&& after.len() == n + 2
            &&& after[n + 1].request == page_request(q)
            &&& r == match all_read::<ImageCard>(after[n + 1].reply) {
                Err(k) => Err::<(i64, Seq<ImageCard>), ErrKind>(k),
                Ok(cards) => Ok((total, cards)),
            }
        },
    }
}

/// Searches the index.
pub fn query_images(db: &mut Db, q: &Query) -> (r: Result<QueryResult, DbError>)
    ensures
        searched(old(db).trace(), final(db).trace(), *q, result_model(r)),
{
    let mut params: Vec<Param> = Vec::new();
    let condition = build_where(q, &mut params);
    assert(param_models(params@) =~= text_params(where_texts(*q)));
    let order = if same_text(q.sort.as_str(), "oldest") {
        "images.file_mtime ASC, images.id ASC"
    } else if same_text(q.sort.as_str(), "rating") {
        "images.rating DESC, images.file_mtime DESC"
    } else {
        "images.file_mtime DESC, images.id DESC"
    };
    let mut count_sql = "SELECT COUNT(*) FROM images WHERE ".to_owned();
    count_sql.append(condition.as_str());
    let total = match db.query_row::<i64>(count_sql.as_str(), &params) {
        Ok(total) => total,
        Err(e) => {
            assert(db.trace().take(old(db).trace().len() as int) == old(db).trace());
            return Err(e);
        },
    };
    let ghost between = db.trace();
    let mut page_sql = "SELECT id, width, height, seed, rating, favorite FROM images
         WHERE ".to_owned();
    page_sql.append(condition.as_str());
    page_sql.append(" ORDER BY ");
    page_sql.append(order);
    page_sql.append(" LIMIT ");
    let limit = decimal_text(q.limit);
    page_sql.append(limit.as_str());
    page_sql.append(" OFFSET ");
    let offset = decimal_text(q.offset);
    page_sql.append(offset.as_str());
    let page = db.query_all::<ImageCard>(page_sql.as_str(), &params);
    proof {
        assert(db.trace().take(old(db).trace().len() as int) == old(db).trace());
        assert(db.trace()[old(db).trace().len() as int] == between.last());
    }
    match page {
        Ok(cards) => {
            assert(row_models(cards@) =~= cards@);
            Ok(QueryResult { total, cards })
        },
        Err(e) => Err(e),
    }
}

// ---------------------------------------------------------------------------
// Placeholders
// ---------------------------------------------------------------------------

/// How many placeholders a text has.
pub open spec fn marks_in(s: Seq<char>) -> nat
    decreases s.len(),
{
    if s.len() == 0 {
        0
    } else {
        marks_in(s.drop_last()) + if s.last() == '?' {
            1nat
        } else {
            0nat
        }
    }
}

/// Whether a text has no placeholder.
pub open spec fn unmarked(s: Seq<char>) -> bool {
    forall|i: int| 0 <= i < s.len() ==> #[trigger] s[i] != '?'
}

proof fn lemma_unmarked(s: Seq<char>)
    requires
        unmarked(s),
    ensures
        marks_in(s) == 0,
    decreases s.len(),
{
    if s.len() > 0 {
        assert forall|i: int| 0 <= i < s.drop_last().len() implies #[trigger] s.drop_last()[i] != '?' by {
            assert(s[i] != '?');
        }
        lemma_unmarked(s.drop_last());
        assert(s[s.len() - 1] != '?');
    }
}

proof fn lemma_marks_concat(a: Seq<char>, b: Seq<char>)
    ensures
        marks_in(a + b) == marks_in(a) + marks_in(b),
    decreases b.len(),
{
    if b.len() == 0 {
        assert(a + b =~= a);
    } else {
        assert((a + b).drop_last() =~= a + b.drop_last());
        lemma_marks_concat(a, b.drop_last());
    }
}

/// A text with two placeholders has two.
pub proof fn lemma_two_marks(s: Seq<char>, p: int, q: int)
    requires
        0 <= p < q < s.len(),
        forall|i: int| 0 <= i < s.len() ==> (#[trigger] s[i] == '?' <==> i == p || i == q),
    ensures
        marks_in(s) == 2,
{
    let a = s.take(p);
    let b = s.subrange(p + 1, q);
    let c = s.skip(q + 1);
    let mark = seq!['?'];
    assert(marks_in(mark) == 1) by {
        reveal_with_fuel(marks_in, 2);
    }
    assert(s =~= a + mark + b + mark + c);
    lemma_marks_concat(a + mark + b + mark, c);
    lemma_marks_concat(a + mark + b, mark);
    lemma_marks_concat(a + mark, b);
    lemma_marks_concat(a, mark);
    assert(unmarked(a));
    assert(unmarked(b)) by {
        assert forall|i: int| 0 <= i < b.len() implies #[trigger] b[i] != '?' by {
            assert(b[i] == s[p + 1 + i]);
        }
    }
    assert(unmarked(c)) by {
        assert forall|i: int| 0 <= i < c.len() implies #[trigger] c[i] != '?' by {
            assert(c[i] == s[q + 1 + i]);
        }
    }
    lemma_unmarked(a);
    lemma_unmarked(b);
    lemma_unmarked(c);
}

/// How many placeholders the texts of a list have together.
pub open spec fn marks_in_all(parts: Seq<Seq<char>>) -> nat
    decreases parts.len(),
{
    if parts.len() == 0 {
        0
    } else {
        marks_in_all(parts.drop_last()) + marks_in(parts.last())
    }
}

/// The placeholders of two lists are those of both.
pub proof fn lemma_marks_in_list(a: Seq<Seq<char>>, b: Seq<Seq<char>>)
    ensures
        marks_in_all(a + b) == marks_in_all(a) + marks_in_all(b),
    decreases b.len(),
{
    if b.len() == 0 {
        assert(a + b =~= a);
    } else {
        assert((a + b).drop_last() =~= a + b.drop_last());
        lemma_marks_in_list(a, b.drop_last());
    }
}

/// Joining texts adds no placeholders.
pub proof fn lemma_marks_joined(parts: Seq<Seq<char>>, sep: Seq<char>)
    requires
        unmarked(sep),
    ensures
        marks_in(joined(parts, sep)) == marks_in_all(parts),
    decreases parts.len(),
{
    lemma_unmarked(sep);
    if parts.len() == 1 {
        assert(parts.drop_last() =~= Seq::<Seq<char>>::empty());
        reveal_with_fuel(marks_in_all, 2);
    } else if parts.len() > 1 {
        let front = joined(parts.drop_last(), sep);
        lemma_marks_joined(parts.drop_last(), sep);
        lemma_marks_concat(front + sep, parts.last());
        lemma_marks_concat(front, sep);
    }
}

proof fn lemma_digits_unmarked(n: nat)
    ensures
        unmarked(digits(n)),
    decreases n,
{
    if n >= 10 {
        lemma_digits_unmarked(n / 10);
    }
}

proof fn lemma_decimal_unmarked(n: int)
    ensures
        marks_in(decimal(n)) == 0,
{
    lemma_digits_unmarked(
        if n < 0 {
            (-n) as nat
        } else {
            n as nat
        },
    );
    lemma_unmarked(decimal(n));
}

proof fn lemma_marks(n: nat)
    ensures
        marks_in(marks(n)) == n,
{
    let parts = Seq::new(n, |i: int| "?"@);
    reveal_strlit(",");
    lemma_marks_joined(parts, ","@);
    lemma_mark_parts(parts);
}

proof fn lemma_mark_parts(parts: Seq<Seq<char>>)
    requires
        forall|i: int| 0 <= i < parts.len() ==> #[trigger] parts[i] == "?"@,
    ensures
        marks_in_all(parts) == parts.len(),
    decreases parts.len(),
{
    if parts.len() > 0 {
        lemma_mark_parts(parts.drop_last());
        reveal_strlit("?");
        reveal_with_fuel(marks_in, 2);
        assert(parts[parts.len() - 1] == "?"@);
        assert("?"@.drop_last() =~= Seq::<char>::empty());
    }
}

/// A clause that is there where a condition holds has its placeholders there.
pub proof fn lemma_when(cond: bool, clause: Seq<char>)
    ensures
        marks_in_all(when(cond, clause)) == if cond {
            marks_in(clause)
        } else {
            0
        },
{
    reveal_with_fuel(marks_in_all, 2);
    assert(seq![clause].drop_last() =~= Seq::<Seq<char>>::empty());
}

/// The conditions on rejection and albums have no placeholders.
pub proof fn lemma_scope_marks(q: Query)
    ensures
        marks_in_all(scope_clauses(q)) == 0,
{
    let album = when(q.album_id is Some, album_clause(q.album_id->0));
    let inside = when(
        q.in_album == Some(true),
        "images.id IN (SELECT image_id FROM album_images)"@,
    );
    let outside = when(
        q.in_album == Some(false),
        "images.id NOT IN (SELECT image_id FROM album_images)"@,
    );
    let hidden = seq![hidden_clause(q)];
    reveal_strlit("images.hidden = 1");
    lemma_unmarked("images.hidden = 1"@);
    reveal_strlit("images.hidden = 0");
    lemma_unmarked("images.hidden = 0"@);
    assert(hidden =~= when(true, hidden_clause(q)));
    lemma_when(true, hidden_clause(q));
    lemma_album_marks(q.album_id->0);
    lemma_when(q.album_id is Some, album_clause(q.album_id->0));
    reveal_strlit("images.id IN (SELECT image_id FROM album_images)");
    lemma_unmarked("images.id IN (SELECT image_id FROM album_images)"@);
    lemma_when(q.in_album == Some(true), "images.id IN (SELECT image_id FROM album_images)"@);
    reveal_strlit("images.id NOT IN (SELECT image_id FROM album_images)");
    lemma_unmarked("images.id NOT IN (SELECT image_id FROM album_images)"@);
    lemma_when(
        q.in_album == Some(false),
        "images.id NOT IN (SELECT image_id FROM album_images)"@,
    );
    lemma_marks_in_list(hidden + album + inside, outside);
    lemma_marks_in_list(hidden + album, inside);
    lemma_marks_in_list(hidden, album);
}

proof fn lemma_album_marks(id: i64)
    ensures
        marks_in(album_clause(id)) == 0,
{
    let front = "images.id IN (SELECT image_id FROM album_images WHERE album_id = "@;
    reveal_strlit("images.id IN (SELECT image_id FROM album_images WHERE album_id = ");
    lemma_unmarked("images.id IN (SELECT image_id FROM album_images WHERE album_id = "@);
    reveal_strlit(")");
    lemma_unmarked(")"@);
    lemma_decimal_unmarked(id as int);
    lemma_marks_concat(front + decimal(id as int), ")"@);
    lemma_marks_concat(front, decimal(id as int));
}

/// The condition on wanted tags has a placeholder for each.
pub proof fn lemma_include_marks(n: nat, wanted: nat)
    ensures
        marks_in(include_clause(n, wanted)) == n,
{
    let front = "images.id IN (SELECT it.image_id FROM image_tags it
              JOIN tags t ON t.id = it.tag_id WHERE t.name IN ("@;
    let middle = ")
              GROUP BY it.image_id HAVING COUNT(DISTINCT t.id) = "@;
    reveal_strlit("images.id IN (SELECT it.image_id FROM image_tags it
              JOIN tags t ON t.id = it.tag_id WHERE t.name IN (");
    lemma_unmarked("images.id IN (SELECT it.image_id FROM image_tags it
              JOIN tags t ON t.id = it.tag_id WHERE t.name IN ("@);
    reveal_strlit(")
              GROUP BY it.image_id HAVING COUNT(DISTINCT t.id) = ");
    lemma_unmarked(")
              GROUP BY it.image_id HAVING COUNT(DISTINCT t.id) = "@);
    reveal_strlit(")");
    lemma_unmarked(")"@);
    lemma_marks(n);
    lemma_decimal_unmarked(wanted as int);
    lemma_marks_concat(front + marks(n) + middle + decimal(wanted as int), ")"@);
    lemma_marks_concat(front + marks(n) + middle, decimal(wanted as int));
    lemma_marks_concat(front + marks(n), middle);
    lemma_marks_concat(front, marks(n));
}

/// The condition on unwanted tags has a placeholder for each.
pub proof fn lemma_exclude_marks(n: nat)
    ensures
        marks_in(exclude_clause(n)) == n,
{
    let front = "images.id NOT IN (SELECT it.image_id FROM image_tags it
              JOIN tags t ON t.id = it.tag_id WHERE t.name IN ("@;
    reveal_strlit("images.id NOT IN (SELECT it.image_id FROM image_tags it
              JOIN tags t ON t.id = it.tag_id WHERE t.name IN (");
    lemma_unmarked("images.id NOT IN (SELECT it.image_id FROM image_tags it
              JOIN tags t ON t.id = it.tag_id WHERE t.name IN ("@);
    reveal_strlit("))");
    lemma_unmarked("))"@);
    lemma_marks(n);
    lemma_marks_concat(front + marks(n), "))"@);
    lemma_marks_concat(front, marks(n));
}

proof fn lemma_tag_marks(q: Query)
    ensures
        marks_in_all(tag_clauses(q)) == q.include_tags@.len() + q.exclude_tags@.len(),
{
    let n = q.include_tags@.len();
    let m = q.exclude_tags@.len();
    let wanted = texts(q.include_tags@).to_set().len();
    lemma_include_marks(n, wanted);
    lemma_exclude_marks(m);
    lemma_when(n > 0, include_clause(n, wanted));
    lemma_when(m > 0, exclude_clause(m));
    lemma_marks_in_list(when(n > 0, include_clause(n, wanted)), when(m > 0, exclude_clause(m)));
}

/// The conditions on marks have no placeholders.
pub proof fn lemma_mark_marks(q: Query)
    ensures
        marks_in_all(mark_clauses(q)) == 0,
{
    let favorite = when(q.favorite == Some(true), "images.favorite = 1"@);
    let rated = "images.rating >= "@ + decimal(q.min_rating->0 as int);
    let inside = "images.folder_id = "@ + decimal(q.folder_id->0 as int);
    reveal_strlit("images.favorite = 1");
    lemma_unmarked("images.favorite = 1"@);
    reveal_strlit("images.rating >= ");
    lemma_unmarked("images.rating >= "@);
    reveal_strlit("images.folder_id = ");
    lemma_unmarked("images.folder_id = "@);
    lemma_decimal_unmarked(q.min_rating->0 as int);
    lemma_decimal_unmarked(q.folder_id->0 as int);
    lemma_marks_concat("images.rating >= "@, decimal(q.min_rating->0 as int));
    lemma_marks_concat("images.folder_id = "@, decimal(q.folder_id->0 as int));
    lemma_when(q.favorite == Some(true), "images.favorite = 1"@);
    lemma_when(q.min_rating is Some, rated);
    lemma_when(q.folder_id is Some, inside);
    lemma_marks_in_list(
        favorite + when(q.min_rating is Some, rated),
        when(q.folder_id is Some, inside),
    );
    lemma_marks_in_list(favorite, when(q.min_rating is Some, rated));
}

/// The condition of a search has as many placeholders as there are values bound to
/// it, whatever the search.
pub proof fn law_each_placeholder_is_bound(q: Query)
    ensures
        marks_in(where_sql(q)) == where_texts(q).len(),
{
    let text = "(images.raw_prompt LIKE ? OR images.raw_negative LIKE ?)"@;
    let prefix = "substr(images.path, 1, length(?)) = ?"@;
    reveal_strlit("(images.raw_prompt LIKE ? OR images.raw_negative LIKE ?)");
    lemma_two_marks(text, 24, 54);
    reveal_strlit("substr(images.path, 1, length(?)) = ?");
    lemma_two_marks(prefix, 30, 36);
    reveal_strlit(" AND ");
    lemma_marks_joined(where_clauses(q), " AND "@);
    lemma_scope_marks(q);
    lemma_tag_marks(q);
    lemma_mark_marks(q);
    lemma_when(given(q.text), text);
    lemma_when(given(q.path_prefix), prefix);
    let a = scope_clauses(q);
    let b = tag_clauses(q);
    let c = when(given(q.text), text);
    let d = mark_clauses(q);
    let e = when(given(q.path_prefix), prefix);
    lemma_marks_in_list(a + b + c + d, e);
    lemma_marks_in_list(a + b + c, d);
    lemma_marks_in_list(a + b, c);
    lemma_marks_in_list(a, b);
}

} // verus!
