//! A SQLite connection and the record of what was asked of it.
//!
//! What SQLite answers depends on what the file holds, so nothing is claimed of an
//! answer. Each request stands with its answer in the connection's history; the
//! contracts of the functions on top say what they add to it and what they make of
//! the answers there.

use crate::text::{decimal, decimal_text, opt_text, utf8_text};
use vstd::prelude::*;
use vstd::utf8::{decode_utf8, valid_utf8};

verus! {

// ---------------------------------------------------------------------------
// Values
// ---------------------------------------------------------------------------

/// A value bound to a placeholder. A floating-point number is in decimal.
pub enum Param {
    Null,
    Integer(i64),
    Real(String),
    Text(String),
}

/// The mathematical form of a bound value.
pub enum ParamModel {
    Null,
    Integer(i64),
    Real(Seq<char>),
    Text(Seq<char>),
}

impl Param {
    /// The mathematical form.
    pub open spec fn model(self) -> ParamModel {
        match self {
            Param::Null => ParamModel::Null,
            Param::Integer(i) => ParamModel::Integer(i),
            Param::Real(x) => ParamModel::Real(x@),
            Param::Text(s) => ParamModel::Text(s@),
        }
    }
}

/// The mathematical form of bound values.
pub open spec fn param_models(v: Seq<Param>) -> Seq<ParamModel> {
    v.map_values(|p: Param| p.model())
}

/// One bound value.
pub fn one(p: Param) -> (r: Vec<Param>)
    ensures
        param_models(r@) == seq![p.model()],
{
    let r = vec![p];
    assert(param_models(r@) =~= seq![p.model()]);
    r
}

/// Two bound values.
pub fn two(p: Param, q: Param) -> (r: Vec<Param>)
    ensures
        param_models(r@) == seq![p.model(), q.model()],
{
    let r = vec![p, q];
    assert(param_models(r@) =~= seq![p.model(), q.model()]);
    r
}

/// A value in a row. Text is as stored, and need not be valid UTF-8.
pub enum Cell {
    Null,
    Integer(i64),
    Real(String),
    Text(Vec<u8>),
    Blob(Vec<u8>),
}

/// The mathematical form of a value in a row.
pub enum CellModel {
    Null,
    Integer(i64),
    Real(Seq<char>),
    Text(Seq<u8>),
    Blob(Seq<u8>),
}

impl Cell {
    /// The mathematical form.
    pub open spec fn model(self) -> CellModel {
        match self {
            Cell::Null => CellModel::Null,
            Cell::Integer(i) => CellModel::Integer(i),
            Cell::Real(x) => CellModel::Real(x@),
            Cell::Text(b) => CellModel::Text(b@),
            Cell::Blob(b) => CellModel::Blob(b@),
        }
    }
}

/// The mathematical form of a row.
pub open spec fn row_cells(row: Seq<Cell>) -> Seq<CellModel> {
    row.map_values(|c: Cell| c.model())
}

// ---------------------------------------------------------------------------
// The trace
// ---------------------------------------------------------------------------

/// A request made of a connection.
#[verifier::ext_equal]
pub enum Request {
    /// Compiles a statement.
    Prepare { sql: Seq<char> },
    /// Runs a statement that gives no rows, with values bound to it.
    Execute { sql: Seq<char>, params: Seq<ParamModel> },
    /// Runs a statement that gives rows, with values bound to it.
    Select { sql: Seq<char>, params: Seq<ParamModel> },
    /// Runs the statements of a text.
    Batch { sql: Seq<char> },
    /// Sets a pragma.
    Pragma { name: Seq<char>, value: ParamModel },
    /// Asks for the number of the row inserted last.
    LastRow,
}

/// What came back. A row that could not be fetched is `None`.
pub enum Reply {
    Failed,
    Done,
    Row(i64),
    Rows(Seq<Option<Seq<CellModel>>>),
}

/// A request and its answer.
pub struct Event {
    pub request: Request,
    pub reply: Reply,
}

/// A statement that gives no rows.
pub open spec fn command(sql: Seq<char>, params: Seq<ParamModel>) -> Request {
    Request::Execute { sql, params: params.map_values(|p: ParamModel| bound(p)) }
}

/// A statement that gives rows.
pub open spec fn select(sql: Seq<char>, params: Seq<ParamModel>) -> Request {
    Request::Select { sql, params: params.map_values(|p: ParamModel| bound(p)) }
}

/// Whether one request was added, and it was `request`.
pub open spec fn asked(before: Seq<Event>, after: Seq<Event>, request: Request) -> bool {
    &&& after.len() == before.len() + 1
    &&& after.drop_last() == before
    &&& after.last().request == request
}

/// Whether the requests of `script` were made one after the other until one
/// failed, and `r` tells whether one did.
pub open spec fn ran(
    before: Seq<Event>,
    after: Seq<Event>,
    script: Seq<Request>,
    r: Result<(), ErrKind>,
) -> bool {
    let n = after.len() - before.len();
    &&& 0 <= n <= script.len()
    &&& after.take(before.len() as int) == before
    &&& forall|k: int| 0 <= k < n ==> (#[trigger] after[before.len() + k]).request == script[k]
    &&& forall|k: int| 0 <= k < n - 1 ==> (#[trigger] after[before.len() + k]).reply !is Failed
    &&& r is Ok ==> n == script.len() && (n > 0 ==> after.last().reply !is Failed)
    &&& r is Err ==> n > 0 && after.last().reply is Failed && r->Err_0 is Sqlite
}

/// A statement prepared once and run for each list of bound values.
pub open spec fn each(sql: Seq<char>, rows: Seq<Seq<ParamModel>>) -> Seq<Request> {
    seq![Request::Prepare { sql }] + rows.map_values(|params: Seq<ParamModel>| command(sql, params))
}

/// The kinds of failure.
pub enum ErrKind {
    /// SQLite reported an error.
    Sqlite,
    /// There was no row where one was needed.
    NoRows,
    /// A column did not hold what was expected.
    Column,
}

/// An error of SQLite.
#[verifier::external_type_specification]
#[verifier::external_body]
pub struct ExSqliteError(rusqlite::Error);

/// A failed request.
pub enum DbError {
    Sqlite(rusqlite::Error),
    NoRows,
    Column,
}

impl DbError {
    /// The kind of failure.
    pub open spec fn kind(self) -> ErrKind {
        match self {
            DbError::Sqlite(_) => ErrKind::Sqlite,
            DbError::NoRows => ErrKind::NoRows,
            DbError::Column => ErrKind::Column,
        }
    }
}

/// A result with its error reduced to the kind.
pub open spec fn kinded<T>(r: Result<T, DbError>) -> Result<T, ErrKind> {
    match r {
        Ok(v) => Ok(v),
        Err(e) => Err(e.kind()),
    }
}

/// What a request that gives no rows comes to.
pub open spec fn done(reply: Reply) -> Result<(), ErrKind> {
    match reply {
        Reply::Failed => Err(ErrKind::Sqlite),
        _ => Ok(()),
    }
}

/// Whether an insertion was made, what followed it, and what came of both: the
/// number of the new row.
pub open spec fn inserted(
    before: Seq<Event>,
    after: Seq<Event>,
    request: Request,
    r: Result<i64, ErrKind>,
) -> bool {
    match r {
        Ok(id) => {
            &&& after.len() == before.len() + 2
            &&& after.take(before.len() as int) == before
            &&& after[before.len() as int].request == request
            &&& after[before.len() as int].reply !is Failed
            &&& after.last() == (Event { request: Request::LastRow, reply: Reply::Row(id) })
        },
        Err(k) => {
            &&& asked(before, after, request)
            &&& after.last().reply is Failed
            &&& k is Sqlite
        },
    }
}

// ---------------------------------------------------------------------------
// Reading rows
// ---------------------------------------------------------------------------

/// What the rows of a query are read as.
pub trait FromRow: Sized {
    /// The mathematical form.
    type M;

    /// The mathematical form of a value.
    spec fn row_model(self) -> Self::M;

    /// What a row is read as; nothing where a column does not hold what is
    /// expected.
    spec fn decoded(row: Seq<CellModel>) -> Option<Self::M>;

    /// Reads a row.
    fn from_row(row: &Vec<Cell>) -> (r: Result<Self, DbError>)
        ensures
            match r {
                Ok(v) => Self::decoded(row_cells(row@)) == Some(v.row_model()),
                Err(e) => Self::decoded(row_cells(row@)) is None && e.kind() == ErrKind::Column,
            },
    ;
}

/// The mathematical form of a list.
pub open spec fn row_models<T: FromRow>(v: Seq<T>) -> Seq<T::M> {
    v.map_values(|x: T| x.row_model())
}

/// What a list of rows is read as. The first bad row decides the error.
pub open spec fn rows_read<T: FromRow>(rows: Seq<Option<Seq<CellModel>>>) -> Result<Seq<T::M>, ErrKind>
    decreases rows.len(),
{
    if rows.len() == 0 {
        Ok(Seq::empty())
    } else {
        match rows_read::<T>(rows.drop_last()) {
            Err(k) => Err(k),
            Ok(before) => match rows.last() {
                None => Err(ErrKind::Sqlite),
                Some(row) => match T::decoded(row) {
                    None => Err(ErrKind::Column),
                    Some(m) => Ok(before.push(m)),
                },
            },
        }
    }
}

/// What a query for all rows comes to.
pub open spec fn all_read<T: FromRow>(reply: Reply) -> Result<Seq<T::M>, ErrKind> {
    match reply {
        Reply::Rows(rows) => rows_read::<T>(rows),
        _ => Err(ErrKind::Sqlite),
    }
}

/// The rows that can be read; the others are passed over.
pub open spec fn readable_rows<T: FromRow>(rows: Seq<Option<Seq<CellModel>>>) -> Seq<T::M>
    decreases rows.len(),
{
    if rows.len() == 0 {
        Seq::empty()
    } else {
        let before = readable_rows::<T>(rows.drop_last());
        match rows.last() {
            None => before,
            Some(row) => match T::decoded(row) {
                None => before,
                Some(m) => before.push(m),
            },
        }
    }
}

/// What a query that passes over bad rows comes to.
pub open spec fn readable<T: FromRow>(reply: Reply) -> Result<Seq<T::M>, ErrKind> {
    match reply {
        Reply::Rows(rows) => Ok(readable_rows::<T>(rows)),
        _ => Err(ErrKind::Sqlite),
    }
}

/// What a query for one row comes to.
pub open spec fn one_read<T: FromRow>(reply: Reply) -> Result<T::M, ErrKind> {
    match reply {
        Reply::Rows(rows) => if rows.len() == 0 {
            Err(ErrKind::NoRows)
        } else {
            match rows[0] {
                None => Err(ErrKind::Sqlite),
                Some(row) => match T::decoded(row) {
                    None => Err(ErrKind::Column),
                    Some(m) => Ok(m),
                },
            }
        },
        _ => Err(ErrKind::Sqlite),
    }
}

/// The mathematical form of a list that was read.
pub open spec fn list_model<T: FromRow>(r: Result<Vec<T>, DbError>) -> Result<Seq<T::M>, ErrKind> {
    match r {
        Ok(v) => Ok(row_models(v@)),
        Err(e) => Err(e.kind()),
    }
}

/// The mathematical form of a row that was read.
pub open spec fn row_model_of<T: FromRow>(r: Result<T, DbError>) -> Result<T::M, ErrKind> {
    match r {
        Ok(v) => Ok(v.row_model()),
        Err(e) => Err(e.kind()),
    }
}

/// The integer in a column.
pub open spec fn int_in(row: Seq<CellModel>, i: int) -> Option<i64> {
    if 0 <= i < row.len() {
        match row[i] {
            CellModel::Integer(n) => Some(n),
            _ => None,
        }
    } else {
        None
    }
}

/// The integer in a column, where an `u32` holds it.
pub open spec fn small_in(row: Seq<CellModel>, i: int) -> Option<u32> {
    match int_in(row, i) {
        Some(n) => if 0 <= n <= u32::MAX {
            Some(n as u32)
        } else {
            None
        },
        None => None,
    }
}

/// The truth value in a column: any integer but zero.
pub open spec fn flag_in(row: Seq<CellModel>, i: int) -> Option<bool> {
    match int_in(row, i) {
        Some(n) => Some(n != 0),
        None => None,
    }
}

/// The text in a column.
pub open spec fn text_in(row: Seq<CellModel>, i: int) -> Option<Seq<char>> {
    if 0 <= i < row.len() {
        match row[i] {
            CellModel::Text(b) => if valid_utf8(b) {
                Some(decode_utf8(b))
            } else {
                None
            },
            _ => None,
        }
    } else {
        None
    }
}

/// The integer in a column that may hold none.
pub open spec fn opt_int_in(row: Seq<CellModel>, i: int) -> Option<Option<i64>> {
    if 0 <= i < row.len() && row[i] is Null {
        Some(None)
    } else {
        match int_in(row, i) {
            Some(n) => Some(Some(n)),
            None => None,
        }
    }
}

/// The text in a column that may hold none.
pub open spec fn opt_text_in(row: Seq<CellModel>, i: int) -> Option<Option<Seq<char>>> {
    if 0 <= i < row.len() && row[i] is Null {
        Some(None)
    } else {
        match text_in(row, i) {
            Some(s) => Some(Some(s)),
            None => None,
        }
    }
}

/// The floating-point number, in decimal, in a column that may hold none.
pub open spec fn opt_real_in(row: Seq<CellModel>, i: int) -> Option<Option<Seq<char>>> {
    if 0 <= i < row.len() {
        match row[i] {
            CellModel::Null => Some(None),
            CellModel::Real(x) => Some(Some(x)),
            CellModel::Integer(n) => Some(Some(decimal(n as int))),
            _ => None,
        }
    } else {
        None
    }
}

/// Reads the integer in a column.
pub fn read_int(row: &Vec<Cell>, i: usize) -> (r: Option<i64>)
    ensures
        r == int_in(row_cells(row@), i as int),
{
    if i < row.len() {
        assert(row_cells(row@)[i as int] == row@[i as int].model());
        match &row[i] {
            Cell::Integer(n) => Some(*n),
            _ => None,
        }
    } else {
        None
    }
}

/// Reads the small integer in a column.
pub fn read_small(row: &Vec<Cell>, i: usize) -> (r: Option<u32>)
    ensures
        r == small_in(row_cells(row@), i as int),
{
    match read_int(row, i) {
        Some(n) => if 0 <= n && n <= u32::MAX as i64 {
            Some(n as u32)
        } else {
            None
        },
        None => None,
    }
}

/// Reads the truth value in a column.
pub fn read_flag(row: &Vec<Cell>, i: usize) -> (r: Option<bool>)
    ensures
        r == flag_in(row_cells(row@), i as int),
{
    match read_int(row, i) {
        Some(n) => Some(n != 0),
        None => None,
    }
}

/// Reads the text in a column.
pub fn read_text(row: &Vec<Cell>, i: usize) -> (r: Option<String>)
    ensures
        opt_text(r) == text_in(row_cells(row@), i as int),
{
    if i < row.len() {
        assert(row_cells(row@)[i as int] == row@[i as int].model());
        match &row[i] {
            Cell::Text(b) => {
                let copy = vstd::slice::slice_to_vec(b.as_slice());
                utf8_text(copy)
            },
            _ => None,
        }
    } else {
        None
    }
}

/// Reads the integer in a column that may hold none.
pub fn read_opt_int(row: &Vec<Cell>, i: usize) -> (r: Option<Option<i64>>)
    ensures
        r == opt_int_in(row_cells(row@), i as int),
{
    if i < row.len() {
        assert(row_cells(row@)[i as int] == row@[i as int].model());
        if let Cell::Null = &row[i] {
            return Some(None);
        }
    }
    match read_int(row, i) {
        Some(n) => Some(Some(n)),
        None => None,
    }
}

/// The mathematical form of an optional column.
pub open spec fn opt_opt_text(o: Option<Option<String>>) -> Option<Option<Seq<char>>> {
    match o {
        Some(s) => Some(opt_text(s)),
        None => None,
    }
}

/// Reads the text in a column that may hold none.
pub fn read_opt_text(row: &Vec<Cell>, i: usize) -> (r: Option<Option<String>>)
    ensures
        opt_opt_text(r) == opt_text_in(row_cells(row@), i as int),
{
    if i < row.len() {
        assert(row_cells(row@)[i as int] == row@[i as int].model());
        if let Cell::Null = &row[i] {
            return Some(None);
        }
    }
    match read_text(row, i) {
        Some(s) => Some(Some(s)),
        None => None,
    }
}

/// Reads the floating-point number in a column that may hold none.
pub fn read_opt_real(row: &Vec<Cell>, i: usize) -> (r: Option<Option<String>>)
    ensures
        opt_opt_text(r) == opt_real_in(row_cells(row@), i as int),
{
    if i < row.len() {
        assert(row_cells(row@)[i as int] == row@[i as int].model());
        match &row[i] {
            Cell::Null => Some(None),
            Cell::Real(x) => Some(Some(x.clone())),
            Cell::Integer(n) => Some(Some(decimal_text(*n))),
            _ => None,
        }
    } else {
        None
    }
}

impl FromRow for i64 {
    type M = i64;

    open spec fn row_model(self) -> i64 {
        self
    }

    open spec fn decoded(row: Seq<CellModel>) -> Option<i64> {
        int_in(row, 0)
    }

    fn from_row(row: &Vec<Cell>) -> (r: Result<Self, DbError>) {
        match read_int(row, 0) {
            Some(n) => Ok(n),
            None => Err(DbError::Column),
        }
    }
}

impl FromRow for String {
    type M = Seq<char>;

    open spec fn row_model(self) -> Seq<char> {
        self@
    }

    open spec fn decoded(row: Seq<CellModel>) -> Option<Seq<char>> {
        text_in(row, 0)
    }

    fn from_row(row: &Vec<Cell>) -> (r: Result<Self, DbError>) {
        match read_text(row, 0) {
            Some(s) => Ok(s),
            None => Err(DbError::Column),
        }
    }
}

impl FromRow for (i64, i64) {
    type M = (i64, i64);

    open spec fn row_model(self) -> (i64, i64) {
        self
    }

    open spec fn decoded(row: Seq<CellModel>) -> Option<(i64, i64)> {
        match (int_in(row, 0), int_in(row, 1)) {
            (Some(a), Some(b)) => Some((a, b)),
            _ => None,
        }
    }

    fn from_row(row: &Vec<Cell>) -> (r: Result<Self, DbError>) {
        match (read_int(row, 0), read_int(row, 1)) {
            (Some(a), Some(b)) => Ok((a, b)),
            _ => Err(DbError::Column),
        }
    }
}

impl FromRow for (i64, String) {
    type M = (i64, Seq<char>);

    open spec fn row_model(self) -> (i64, Seq<char>) {
        (self.0, self.1@)
    }

    open spec fn decoded(row: Seq<CellModel>) -> Option<(i64, Seq<char>)> {
        match (int_in(row, 0), text_in(row, 1)) {
            (Some(a), Some(b)) => Some((a, b)),
            _ => None,
        }
    }

    fn from_row(row: &Vec<Cell>) -> (r: Result<Self, DbError>) {
        match (read_int(row, 0), read_text(row, 1)) {
            (Some(a), Some(b)) => Ok((a, b)),
            _ => Err(DbError::Column),
        }
    }
}

// ---------------------------------------------------------------------------
// rusqlite
// ---------------------------------------------------------------------------

/// An open SQLite connection.
#[verifier::external_type_specification]
#[verifier::external_body]
pub struct ExConnection(rusqlite::Connection);

/// A value as rusqlite binds it.
#[verifier::external_type_specification]
#[verifier::external_body]
pub struct ExSqliteValue(rusqlite::types::Value);

/// What a value of rusqlite holds, a floating-point number as it prints.
pub uninterp spec fn value_content(v: rusqlite::types::Value) -> ParamModel;

/// How the floating-point number that `str::parse` reads from a decimal prints;
/// nothing where it reads none.
pub uninterp spec fn float_text(decimal: Seq<char>) -> Option<Seq<char>>;

/// What a bound value is as a value of rusqlite: a decimal counts for the
/// floating-point number that it denotes, or for null where it denotes none.
pub open spec fn bound(p: ParamModel) -> ParamModel {
    match p {
        ParamModel::Real(x) => match float_text(x) {
            Some(printed) => ParamModel::Real(printed),
            None => ParamModel::Null,
        },
        _ => p,
    }
}

/// The `rusqlite::types::Value` variant of the same kind. A decimal goes through
/// `str::parse`.
#[verifier::external_body]
fn bind(p: &Param) -> (r: rusqlite::types::Value)
    ensures
        value_content(r) == (match *p {
            Param::Real(x) => match float_text(x@) {
                Some(printed) => ParamModel::Real(printed),
                None => ParamModel::Null,
            },
            _ => p.model(),
        }),
{
    match p {
        Param::Null => rusqlite::types::Value::Null,
        Param::Integer(i) => rusqlite::types::Value::Integer(*i),
        Param::Real(x) => x.parse().map_or(rusqlite::types::Value::Null, rusqlite::types::Value::Real),
        Param::Text(s) => rusqlite::types::Value::Text(s.clone()),
    }
}

/// What was asked of a connection through this module, with the answers. What a
/// connection answers depends on the file; that it was asked, and what it answered,
/// is on record.
pub uninterp spec fn history(conn: rusqlite::Connection) -> Seq<Event>;

/// What values of rusqlite hold.
pub open spec fn value_contents(v: Seq<rusqlite::types::Value>) -> Seq<ParamModel> {
    v.map_values(|x: rusqlite::types::Value| value_content(x))
}

/// The answer to a request that gives no rows.
pub open spec fn outcome<T>(r: Result<T, rusqlite::Error>) -> Reply {
    match r {
        Ok(_) => Reply::Done,
        Err(_) => Reply::Failed,
    }
}

/// What a row holds.
pub open spec fn cells_of(row: Result<Vec<Cell>, rusqlite::Error>) -> Option<Seq<CellModel>> {
    match row {
        Ok(cells) => Some(row_cells(cells@)),
        Err(_) => None,
    }
}

/// The answer to a request that gives rows.
pub open spec fn fetched(
    r: Result<Vec<Result<Vec<Cell>, rusqlite::Error>>, rusqlite::Error>,
) -> Reply {
    match r {
        Ok(rows) => Reply::Rows(
            rows@.map_values(|row: Result<Vec<Cell>, rusqlite::Error>| cells_of(row)),
        ),
        Err(_) => Reply::Failed,
    }
}

/// `rusqlite::Connection::execute` runs one statement with the values bound to its
/// placeholders in their order. Whether it succeeds depends on what the file holds,
/// and is not claimed.
#[verifier::external_body]
fn raw_execute(
    conn: &mut rusqlite::Connection,
    sql: &str,
    values: Vec<rusqlite::types::Value>,
) -> (r: Result<usize, rusqlite::Error>)
    ensures
        history(*final(conn)) == history(*old(conn)).push(
            (Event {
                request: Request::Execute { sql: sql@, params: value_contents(values@) },
                reply: outcome(r),
            }),
        ),
{
    conn.execute(sql, rusqlite::params_from_iter(values))
}

/// `rusqlite::Connection::last_insert_rowid` gives the number of the row inserted
/// last. Which it is depends on what the file holds, and is not claimed.
#[verifier::external_body]
fn raw_last_insert_rowid(conn: &mut rusqlite::Connection) -> (r: i64)
    ensures
        history(*final(conn)) == history(*old(conn)).push(
            (Event { request: Request::LastRow, reply: Reply::Row(r) }),
        ),
{
    conn.last_insert_rowid()
}

/// `rusqlite::Connection::execute_batch` runs the statements of a text one after
/// the other. Whether it succeeds depends on what the file holds, and is not
/// claimed.
#[verifier::external_body]
fn raw_execute_batch(conn: &mut rusqlite::Connection, sql: &str) -> (r: Result<(), rusqlite::Error>)
    ensures
        history(*final(conn)) == history(*old(conn)).push(
            (Event { request: Request::Batch { sql: sql@ }, reply: outcome(r) }),
        ),
{
    conn.execute_batch(sql)
}

/// `rusqlite::Connection::pragma_update` sets a pragma of the main database.
/// Whether it succeeds depends on the file, and is not claimed.
#[verifier::external_body]
fn raw_pragma_update(
    conn: &mut rusqlite::Connection,
    name: &str,
    value: rusqlite::types::Value,
) -> (r: Result<(), rusqlite::Error>)
    ensures
        history(*final(conn)) == history(*old(conn)).push(
            (Event {
                request: Request::Pragma { name: name@, value: value_content(value) },
                reply: outcome(r),
            }),
        ),
{
    conn.pragma_update(None, name, value)
}

/// `rusqlite::Connection::prepare` compiles a statement, which is then dropped.
/// Whether it succeeds depends on the tables of the file, and is not claimed.
#[verifier::external_body]
fn raw_prepare(conn: &mut rusqlite::Connection, sql: &str) -> (r: Result<(), rusqlite::Error>)
    ensures
        history(*final(conn)) == history(*old(conn)).push(
            (Event { request: Request::Prepare { sql: sql@ }, reply: outcome(r) }),
        ),
{
    conn.prepare(sql).map(|_| ())
}

/// `rusqlite::Connection::prepare`, then `Statement::query_map` over all rows, each
/// taken apart into its columns. The rows depend on what the file holds, and are
/// not claimed.
#[verifier::external_body]
fn raw_query(
    conn: &mut rusqlite::Connection,
    sql: &str,
    values: Vec<rusqlite::types::Value>,
) -> (r: Result<Vec<Result<Vec<Cell>, rusqlite::Error>>, rusqlite::Error>)
    ensures
        history(*final(conn)) == history(*old(conn)).push(
            (Event {
                request: Request::Select { sql: sql@, params: value_contents(values@) },
                reply: fetched(r),
            }),
        ),
{
    let mut stmt = conn.prepare(sql)?;
    let width = stmt.column_count();
    let rows = stmt.query_map(rusqlite::params_from_iter(values), |r| {
        (0..width).map(|i| Ok(match r.get_ref(i)? {
            rusqlite::types::ValueRef::Null => Cell::Null,
            rusqlite::types::ValueRef::Integer(n) => Cell::Integer(n),
            rusqlite::types::ValueRef::Real(x) => Cell::Real(x.to_string()),
            rusqlite::types::ValueRef::Text(t) => Cell::Text(t.to_vec()),
            rusqlite::types::ValueRef::Blob(b) => Cell::Blob(b.to_vec()),
        })).collect()
    })?;
    Ok(rows.collect())
}

// ---------------------------------------------------------------------------
// The connection
// ---------------------------------------------------------------------------

/// A connection to the index.
pub struct Db {
    conn: rusqlite::Connection,
}

/// The values of rusqlite for bound values.
fn bind_all(params: &Vec<Param>) -> (r: Vec<rusqlite::types::Value>)
    ensures
        value_contents(r@) == param_models(params@).map_values(|p: ParamModel| bound(p)),
{
    let mut out: Vec<rusqlite::types::Value> = Vec::new();
    let mut i: usize = 0;
    while i < params.len()
        invariant
            i <= params@.len(),
            out@.len() == i,
            forall|k: int| 0 <= k < i ==> value_content(#[trigger] out@[k]) == bound(
                params@[k].model(),
            ),
        decreases params@.len() - i,
    {
        out.push(bind(&params[i]));
        i += 1;
    }
    assert(value_contents(out@) =~= param_models(params@).map_values(|p: ParamModel| bound(p)));
    out
}

/// Adding one event is asking one thing.
proof fn lemma_pushed(before: Seq<Event>, e: Event)
    ensures
        asked(before, before.push(e), e.request),
        before.push(e).last() == e,
{
    assert(before.push(e).drop_last() == before);
}

impl Db {
    /// The requests made, with their answers.
    pub closed spec fn trace(&self) -> Seq<Event> {
        history(self.conn)
    }

    /// The answer to the last request.
    pub open spec fn last_reply(&self) -> Reply {
        self.trace().last().reply
    }

    /// Takes over a connection.
    pub fn new(conn: rusqlite::Connection) -> (r: Db)
        ensures
            r.trace() == history(conn),
    {
        Db { conn }
    }

    /// Runs a statement that gives no rows.
    pub fn execute(&mut self, sql: &str, params: &Vec<Param>) -> (r: Result<(), DbError>)
        ensures
            asked(
                old(self).trace(),
                final(self).trace(),
                command(sql@, param_models(params@)),
            ),
            kinded(r) == done(final(self).last_reply()),
    {
        let values = bind_all(params);
        let r = raw_execute(&mut self.conn, sql, values);
        proof {
            lemma_pushed(old(self).trace(), self.trace().last());
        }
        match r {
            Ok(_) => Ok(()),
            Err(e) => Err(DbError::Sqlite(e)),
        }
    }

    /// Runs a statement that inserts a row, and gives the row's number.
    pub fn insert(&mut self, sql: &str, params: &Vec<Param>) -> (r: Result<i64, DbError>)
        ensures
            inserted(
                old(self).trace(),
                final(self).trace(),
                command(sql@, param_models(params@)),
                kinded(r),
            ),
    {
        match self.execute(sql, params) {
            Ok(_) => {
                let ghost between = self.trace();
                let id = raw_last_insert_rowid(&mut self.conn);
                proof {
                    assert(self.trace().take(old(self).trace().len() as int) == between.drop_last());
                }
                Ok(id)
            },
            Err(e) => Err(e),
        }
    }

    /// Runs the statements of a text.
    pub fn batch(&mut self, sql: &str) -> (r: Result<(), DbError>)
        ensures
            asked(old(self).trace(), final(self).trace(), Request::Batch { sql: sql@ }),
            kinded(r) == done(final(self).last_reply()),
    {
        let r = raw_execute_batch(&mut self.conn, sql);
        proof {
            lemma_pushed(old(self).trace(), self.trace().last());
        }
        match r {
            Ok(_) => Ok(()),
            Err(e) => Err(DbError::Sqlite(e)),
        }
    }

    /// Sets a pragma.
    pub fn set_pragma(&mut self, name: &str, value: &Param) -> (r: Result<(), DbError>)
        ensures
            asked(
                old(self).trace(),
                final(self).trace(),
                Request::Pragma { name: name@, value: bound(value.model()) },
            ),
            kinded(r) == done(final(self).last_reply()),
    {
        let r = raw_pragma_update(&mut self.conn, name, bind(value));
        proof {
            lemma_pushed(old(self).trace(), self.trace().last());
        }
        match r {
            Ok(_) => Ok(()),
            Err(e) => Err(DbError::Sqlite(e)),
        }
    }

    /// Compiles a statement, to see whether it can be.
    pub fn prepare(&mut self, sql: &str) -> (r: Result<(), DbError>)
        ensures
            asked(old(self).trace(), final(self).trace(), Request::Prepare { sql: sql@ }),
            kinded(r) == done(final(self).last_reply()),
    {
        let r = raw_prepare(&mut self.conn, sql);
        proof {
            lemma_pushed(old(self).trace(), self.trace().last());
        }
        match r {
            Ok(_) => Ok(()),
            Err(e) => Err(DbError::Sqlite(e)),
        }
    }

    /// Runs a statement that gives rows.
    fn fetch(&mut self, sql: &str, params: &Vec<Param>) -> (r: Result<
        Vec<Result<Vec<Cell>, rusqlite::Error>>,
        rusqlite::Error,
    >)
        ensures
            asked(
                old(self).trace(),
                final(self).trace(),
                select(sql@, param_models(params@)),
            ),
            final(self).last_reply() == fetched(r),
    {
        let values = bind_all(params);
        let r = raw_query(&mut self.conn, sql, values);
        proof {
            lemma_pushed(old(self).trace(), self.trace().last());
        }
        r
    }

    /// The rows of a query, all of which must be as expected.
    pub fn query_all<T: FromRow>(&mut self, sql: &str, params: &Vec<Param>) -> (r: Result<
        Vec<T>,
        DbError,
    >)
        ensures
            asked(
                old(self).trace(),
                final(self).trace(),
                select(sql@, param_models(params@)),
            ),
            list_model(r) == all_read::<T>(final(self).last_reply()),
    {
        let rows = match self.fetch(sql, params) {
            Ok(rows) => rows,
            Err(e) => {
                return Err(DbError::Sqlite(e));
            },
        };
        let ghost all = self.last_reply()->Rows_0;
        let mut out: Vec<T> = Vec::new();
        assert(row_models(out@) == Seq::<T::M>::empty());
        let ghost seen = rows@;
        for row in it: rows
            invariant
                it.seq() == seen,
                all.len() == seen.len(),
                forall|k: int| 0 <= k < seen.len() ==> (#[trigger] all[k]) == cells_of(seen[k]),
                self.last_reply() == Reply::Rows(all),
                asked(
                    old(self).trace(),
                    self.trace(),
                    select(sql@, param_models(params@)),
                ),
                rows_read::<T>(all.take(it.index())) == Ok::<Seq<T::M>, ErrKind>(row_models(out@)),
        {
            let ghost before = out@;
            let ghost at = it.index();
            proof {
                assert(all.take(at + 1).drop_last() == all.take(at));
                assert(all.take(at + 1).last() == all[at]);
            }
            match row {
                Ok(cells) => match T::from_row(&cells) {
                    Ok(v) => {
                        out.push(v);
                        assert(row_models(out@) == row_models(before).push(v.row_model()));
                    },
                    Err(e) => {
                        proof {
                            lemma_bad_prefix::<T>(all, at + 1);
                        }
                        return Err(e);
                    },
                },
                Err(e) => {
                    proof {
                        lemma_bad_prefix::<T>(all, at + 1);
                    }
                    return Err(DbError::Sqlite(e));
                },
            }
        }
        assert(all.take(all.len() as int) == all);
        Ok(out)
    }

    /// The rows of a query that are as expected.
    pub fn query_readable<T: FromRow>(&mut self, sql: &str, params: &Vec<Param>) -> (r: Result<
        Vec<T>,
        DbError,
    >)
        ensures
            asked(
                old(self).trace(),
                final(self).trace(),
                select(sql@, param_models(params@)),
            ),
            list_model(r) == readable::<T>(final(self).last_reply()),
    {
        let rows = match self.fetch(sql, params) {
            Ok(rows) => rows,
            Err(e) => {
                return Err(DbError::Sqlite(e));
            },
        };
        let ghost all = self.last_reply()->Rows_0;
        let mut out: Vec<T> = Vec::new();
        assert(row_models(out@) == Seq::<T::M>::empty());
        let ghost seen = rows@;
        for row in it: rows
            invariant
                it.seq() == seen,
                all.len() == seen.len(),
                forall|k: int| 0 <= k < seen.len() ==> (#[trigger] all[k]) == cells_of(seen[k]),
                self.last_reply() == Reply::Rows(all),
                asked(
                    old(self).trace(),
                    self.trace(),
                    select(sql@, param_models(params@)),
                ),
                readable_rows::<T>(all.take(it.index())) == row_models(out@),
        {
            let ghost before = out@;
            let ghost at = it.index();
            proof {
                assert(all.take(at + 1).drop_last() == all.take(at));
                assert(all.take(at + 1).last() == all[at]);
            }
            if let Ok(cells) = row {
                if let Ok(v) = T::from_row(&cells) {
                    out.push(v);
                    assert(row_models(out@) == row_models(before).push(v.row_model()));
                }
            }
        }
        assert(all.take(all.len() as int) == all);
        Ok(out)
    }

    /// The first row of a query.
    pub fn query_row<T: FromRow>(&mut self, sql: &str, params: &Vec<Param>) -> (r: Result<T, DbError>)
        ensures
            asked(
                old(self).trace(),
                final(self).trace(),
                select(sql@, param_models(params@)),
            ),
            row_model_of(r) == one_read::<T>(final(self).last_reply()),
    {
        let rows = match self.fetch(sql, params) {
            Ok(rows) => rows,
            Err(e) => {
                return Err(DbError::Sqlite(e));
            },
        };
        let ghost all = self.last_reply()->Rows_0;
        let ghost seen = rows@;
        let mut rows = rows;
        if rows.len() == 0 {
            return Err(DbError::NoRows);
        }
        let first = rows.swap_remove(0);
        assert(all[0] == cells_of(first));
        match first {
            Ok(cells) => T::from_row(&cells),
            Err(e) => Err(DbError::Sqlite(e)),
        }
    }
}

/// Adding a request that follows a script keeps to the script.
pub proof fn lemma_ran_step(
    before: Seq<Event>,
    middle: Seq<Event>,
    after: Seq<Event>,
    script: Seq<Request>,
    request: Request,
    r: Result<(), ErrKind>,
)
    requires
        ran(before, middle, script, Ok(())),
        asked(middle, after, request),
        r == done(after.last().reply),
    ensures
        ran(before, after, script.push(request), r),
{
    let n = before.len() as int;
    assert(after.take(n) =~= middle.take(n));
    assert forall|k: int| 0 <= k < after.len() - n implies (#[trigger] after[n + k]).request
        == script.push(request)[k] by {
        if k < middle.len() - n {
            assert(after[n + k] == middle[n + k]);
        }
    }
    assert forall|k: int| 0 <= k < after.len() - n - 1 implies (#[trigger] after[n + k]).reply !is Failed by {
        assert(after[n + k] == middle[n + k]);
        if k == middle.len() - n - 1 {
            assert(middle.last() == middle[n + k]);
        }
    }
}

/// A script that failed early fails however it goes on.
pub proof fn lemma_ran_failed(
    before: Seq<Event>,
    after: Seq<Event>,
    script: Seq<Request>,
    rest: Seq<Request>,
)
    requires
        ran(before, after, script, Err(ErrKind::Sqlite)),
    ensures
        ran(before, after, script + rest, Err(ErrKind::Sqlite)),
{
}

/// The empty script.
pub proof fn lemma_ran_nothing(trace: Seq<Event>)
    ensures
        ran(trace, trace, Seq::empty(), Ok(())),
{
    assert(trace.take(trace.len() as int) =~= trace);
}

/// Runs a statement for each list of bound values, until one fails.
pub fn run_each(db: &mut Db, sql: &str, rows: &Vec<Vec<Param>>) -> (r: Result<(), DbError>)
    ensures
        ran(old(db).trace(), final(db).trace(), each(sql@, param_rows(rows@)), kinded(r)),
{
    let ghost script = each(sql@, param_rows(rows@));
    proof {
        lemma_ran_nothing(db.trace());
    }
    let ghost before = db.trace();
    let prepared = db.prepare(sql);
    proof {
        lemma_ran_step(
            before,
            before,
            db.trace(),
            Seq::empty(),
            Request::Prepare { sql: sql@ },
            kinded(prepared),
        );
        assert(Seq::<Request>::empty().push(Request::Prepare { sql: sql@ }) =~= script.take(1));
    }
    if let Err(e) = prepared {
        proof {
            lemma_ran_failed(before, db.trace(), script.take(1), script.skip(1));
            assert(script.take(1) + script.skip(1) =~= script);
        }
        return Err(e);
    }
    let mut i: usize = 0;
    while i < rows.len()
        invariant
            i <= rows@.len(),
            before == old(db).trace(),
            script == each(sql@, param_rows(rows@)),
            ran(before, db.trace(), script.take(i + 1), Ok(())),
        decreases rows@.len() - i,
    {
        let ghost middle = db.trace();
        let r = db.execute(sql, &rows[i]);
        proof {
            let request = command(sql@, param_models(rows@[i as int]@));
            assert(param_rows(rows@)[i as int] == param_models(rows@[i as int]@));
            lemma_ran_step(before, middle, db.trace(), script.take(i + 1), request, kinded(r));
            assert(script.take(i + 1).push(request) =~= script.take(i + 2));
        }
        if let Err(e) = r {
            proof {
                lemma_ran_failed(before, db.trace(), script.take(i + 2), script.skip(i + 2));
                assert(script.take(i + 2) + script.skip(i + 2) =~= script);
            }
            return Err(e);
        }
        i += 1;
    }
    assert(script.take(script.len() as int) =~= script);
    Ok(())
}

/// The mathematical form of lists of bound values.
pub open spec fn param_rows(rows: Seq<Vec<Param>>) -> Seq<Seq<ParamModel>> {
    rows.map_values(|row: Vec<Param>| param_models(row@))
}

/// A list with a bad row at its front stays bad.
proof fn lemma_bad_prefix<T: FromRow>(rows: Seq<Option<Seq<CellModel>>>, n: int)
    requires
        0 <= n <= rows.len(),
        rows_read::<T>(rows.take(n)) is Err,
    ensures
        rows_read::<T>(rows) == rows_read::<T>(rows.take(n)),
    decreases rows.len() - n,
{
    if n < rows.len() {
        assert(rows.take(n + 1).drop_last() == rows.take(n));
        lemma_bad_prefix::<T>(rows, n + 1);
    } else {
        assert(rows.take(n) == rows);
    }
}

} // verus!
