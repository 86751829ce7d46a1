//! Statements for the database, and the rows it gives back.
use crate::measure::Measure;
use crate::text::opt_text;
use vstd::prelude::*;

verus! {

/// A value that goes into a statement or comes out of a row.
#[derive(Debug)]
pub enum SqlValue {
    Null,
    Integer(i64),
    Real(Measure),
    Text(String),
    Blob(Vec<u8>),
}

/// A value, as seen in contracts.
#[verifier::ext_equal]
pub enum SqlView {
    Null,
    Integer(i64),
    Real(Measure),
    Text(Seq<char>),
    Blob(Seq<u8>),
}

impl View for SqlValue {
    type V = SqlView;

    open spec fn view(&self) -> SqlView {
        match self {
            SqlValue::Null => SqlView::Null,
            SqlValue::Integer(n) => SqlView::Integer(*n),
            SqlValue::Real(m) => SqlView::Real(*m),
            SqlValue::Text(s) => SqlView::Text(s@),
            SqlValue::Blob(b) => SqlView::Blob(b@),
        }
    }
}

/// What a list of values says.
pub open spec fn value_views(v: Seq<SqlValue>) -> Seq<SqlView> {
    v.map_values(|x: SqlValue| x@)
}

/// A row: its values, column by column.
pub type Row = Vec<SqlValue>;

/// What a list of rows says.
pub open spec fn row_views(rows: Seq<Row>) -> Seq<Seq<SqlView>> {
    rows.map_values(|r: Row| value_views(r@))
}

/// A statement and the values for its numbered parameters.
#[derive(Debug)]
pub struct Statement {
    pub sql: String,
    pub params: Vec<SqlValue>,
}

/// A statement, as seen in contracts.
#[verifier::ext_equal]
pub struct StatementView {
    pub sql: Seq<char>,
    pub params: Seq<SqlView>,
}

impl View for Statement {
    type V = StatementView;

    open spec fn view(&self) -> StatementView {
        StatementView { sql: self.sql@, params: value_views(self.params@) }
    }
}

/// What a list of statements says.
pub open spec fn statement_views(v: Seq<Statement>) -> Seq<StatementView> {
    v.map_values(|s: Statement| s@)
}

pub proof fn lemma_values_push(v: Seq<SqlValue>, x: SqlValue)
    ensures
        value_views(v.push(x)) == value_views(v).push(x@),
{
    assert(value_views(v.push(x)) =~= value_views(v).push(x@));
}

pub proof fn lemma_statements_push(v: Seq<Statement>, x: Statement)
    ensures
        statement_views(v.push(x)) == statement_views(v).push(x@),
{
    assert(statement_views(v.push(x)) =~= statement_views(v).push(x@));
}

/// A text value.
pub fn text_value(s: &str) -> (r: SqlValue)
    ensures
        r@ == SqlView::Text(s@),
{
    SqlValue::Text(s.to_string())
}

/// An optional text: null where there is none.
pub open spec fn opt_text_view(s: Option<Seq<char>>) -> SqlView {
    match s {
        Some(t) => SqlView::Text(t),
        None => SqlView::Null,
    }
}

/// An optional text value: null where there is none.
pub fn opt_text_value(s: &Option<String>) -> (r: SqlValue)
    ensures
        r@ == opt_text_view(opt_text(*s)),
{
    match s {
        Some(t) => SqlValue::Text(t.clone()),
        None => SqlValue::Null,
    }
}

/// A flag as 0 or 1.
pub open spec fn flag_view(b: bool) -> SqlView {
    SqlView::Integer(
        if b {
            1
        } else {
            0
        },
    )
}

/// A flag as 0 or 1.
pub fn flag_value(b: bool) -> (r: SqlValue)
    ensures
        r@ == flag_view(b),
{
    if b {
        SqlValue::Integer(1)
    } else {
        SqlValue::Integer(0)
    }
}

/// A statement without parameters.
pub open spec fn plain_of(sql: Seq<char>) -> StatementView {
    StatementView { sql, params: Seq::empty() }
}

/// A statement without parameters.
pub fn plain(sql: &str) -> (r: Statement)
    ensures
        r@ == plain_of(sql@),
{
    let r = Statement { sql: sql.to_string(), params: Vec::new() };
    assert(value_views(r.params@) =~= Seq::empty());
    r
}

/// A statement with one parameter.
pub fn with1(sql: &str, a: SqlValue) -> (r: Statement)
    ensures
        r@ == (StatementView { sql: sql@, params: seq![a@] }),
{
    let mut params: Vec<SqlValue> = Vec::new();
    params.push(a);
    let r = Statement { sql: sql.to_string(), params };
    assert(value_views(r.params@) =~= seq![a@]);
    r
}

/// A statement with two parameters.
pub fn with2(sql: &str, a: SqlValue, b: SqlValue) -> (r: Statement)
    ensures
        r@ == (StatementView { sql: sql@, params: seq![a@, b@] }),
{
    let mut params: Vec<SqlValue> = Vec::new();
    params.push(a);
    params.push(b);
    let r = Statement { sql: sql.to_string(), params };
    assert(value_views(r.params@) =~= seq![a@, b@]);
    r
}

/// A statement with three parameters.
pub fn with3(sql: &str, a: SqlValue, b: SqlValue, c: SqlValue) -> (r: Statement)
    ensures
        r@ == (StatementView { sql: sql@, params: seq![a@, b@, c@] }),
{
    let mut params: Vec<SqlValue> = Vec::new();
    params.push(a);
    params.push(b);
    params.push(c);
    let r = Statement { sql: sql.to_string(), params };
    assert(value_views(r.params@) =~= seq![a@, b@, c@]);
    r
}

/// A statement with four parameters.
pub fn with4(sql: &str, a: SqlValue, b: SqlValue, c: SqlValue, d: SqlValue) -> (r: Statement)
    ensures
        r@ == (StatementView { sql: sql@, params: seq![a@, b@, c@, d@] }),
{
    let mut params: Vec<SqlValue> = Vec::new();
    params.push(a);
    params.push(b);
    params.push(c);
    params.push(d);
    let r = Statement { sql: sql.to_string(), params };
    assert(value_views(r.params@) =~= seq![a@, b@, c@, d@]);
    r
}

/// The value in a column; null where the row has no such column.
pub open spec fn column(row: Seq<SqlView>, i: int) -> SqlView {
    if 0 <= i < row.len() {
        row[i]
    } else {
        SqlView::Null
    }
}

/// The text in a column, if it holds one.
pub open spec fn text_column(row: Seq<SqlView>, i: int) -> Option<Seq<char>> {
    match column(row, i) {
        SqlView::Text(s) => Some(s),
        _ => None,
    }
}

/// The text in a column, if it holds one.
pub fn text_at(row: &Row, i: usize) -> (r: Option<String>)
    ensures
        opt_text(r) == text_column(value_views(row@), i as int),
{
    if i < row.len() {
        match &row[i] {
            SqlValue::Text(s) => Some(s.clone()),
            _ => None,
        }
    } else {
        None
    }
}

/// The number in a column, if it holds one.
pub open spec fn real_column(row: Seq<SqlView>, i: int) -> Option<Measure> {
    match column(row, i) {
        SqlView::Real(m) => Some(m),
        _ => None,
    }
}

/// The number in a column, if it holds one.
pub fn real_at(row: &Row, i: usize) -> (r: Option<Measure>)
    ensures
        r == real_column(value_views(row@), i as int),
{
    if i < row.len() {
        match &row[i] {
            SqlValue::Real(m) => Some(*m),
            _ => None,
        }
    } else {
        None
    }
}

/// The 32-bit integer in a column, if it holds one.
pub open spec fn int_column(row: Seq<SqlView>, i: int) -> Option<i32> {
    match column(row, i) {
        SqlView::Integer(n) if i32::MIN <= n <= i32::MAX => Some(n as i32),
        _ => None,
    }
}

/// The 32-bit integer in a column, if it holds one.
pub fn int_at(row: &Row, i: usize) -> (r: Option<i32>)
    ensures
        r == int_column(value_views(row@), i as int),
{
    if i < row.len() {
        match &row[i] {
            SqlValue::Integer(n) => {
                if -2_147_483_648 <= *n && *n <= 2_147_483_647 {
                    Some(*n as i32)
                } else {
                    None
                }
            },
            _ => None,
        }
    } else {
        None
    }
}

/// The optional text in a column: nothing where the column is null, an error where it holds
/// something else.
pub open spec fn opt_text_column(row: Seq<SqlView>, i: int) -> Result<Option<Seq<char>>, ()> {
    match column(row, i) {
        SqlView::Text(s) => Ok(Some(s)),
        SqlView::Null if 0 <= i < row.len() => Ok(None),
        _ => Err(()),
    }
}

/// The optional text in a column.
pub fn opt_text_at(row: &Row, i: usize) -> (r: Result<Option<String>, ()>)
    ensures
        match r {
            Ok(s) => opt_text_column(value_views(row@), i as int) == Ok::<Option<Seq<char>>, ()>(
                opt_text(s),
            ),
            Err(_) => opt_text_column(value_views(row@), i as int) is Err,
        },
{
    if i < row.len() {
        match &row[i] {
            SqlValue::Text(s) => Ok(Some(s.clone())),
            SqlValue::Null => Ok(None),
            _ => Err(()),
        }
    } else {
        Err(())
    }
}

/// The bytes in a column, if it holds bytes.
pub open spec fn blob_column(row: Seq<SqlView>, i: int) -> Option<Seq<u8>> {
    match column(row, i) {
        SqlView::Blob(b) => Some(b),
        _ => None,
    }
}

/// A limit as the database takes it; beyond the largest integer it is that.
pub open spec fn limit_view(n: usize) -> SqlView {
    SqlView::Integer(
        if n <= i64::MAX {
            n as i64
        } else {
            i64::MAX
        },
    )
}

/// A limit as the database takes it.
pub fn limit_value(n: usize) -> (r: SqlValue)
    ensures
        r@ == limit_view(n),
{
    let wide: u64 = n as u64;
    if wide <= 0x7fff_ffff_ffff_ffff {
        SqlValue::Integer(wide as i64)
    } else {
        SqlValue::Integer(0x7fff_ffff_ffff_ffff)
    }
}

/// A limit is passed on as it is, as far as SQLite counts.
pub proof fn law_limits_are_passed_on(n: usize)
    ensures
        n <= 0x7fff_ffff_ffff_ffff ==> limit_view(n) == SqlView::Integer(n as i64),
        n > 0x7fff_ffff_ffff_ffff ==> limit_view(n) == SqlView::Integer(0x7fff_ffff_ffff_ffff),
{
}

/// A column is read as what stands in it: a text as a text, a number as a number, and what is of
/// another kind, or is not there, as nothing.
pub proof fn law_columns_are_read_as_they_stand(row: Seq<SqlView>, i: int)
    ensures
        0 <= i < row.len() ==> {
            &&& text_column(row, i) is Some <==> row[i] is Text
            &&& text_column(row, i) is Some ==> row[i] == SqlView::Text(text_column(row, i)->0)
            &&& real_column(row, i) is Some <==> row[i] is Real
            &&& real_column(row, i) is Some ==> row[i] == SqlView::Real(real_column(row, i)->0)
            &&& int_column(row, i) is Some <==> row[i] is Integer && -0x8000_0000
                <= row[i]->Integer_0 <= 0x7fff_ffff
            &&& int_column(row, i) is Some ==> row[i] == SqlView::Integer(
                int_column(row, i)->0 as i64,
            )
            &&& blob_column(row, i) is Some <==> row[i] is Blob
            &&& blob_column(row, i) is Some ==> row[i] == SqlView::Blob(blob_column(row, i)->0)
            &&& opt_text_column(row, i) is Ok <==> row[i] is Text || row[i] is Null
            &&& row[i] is Null ==> opt_text_column(row, i) == Ok::<Option<Seq<char>>, ()>(None)
            &&& row[i] is Text ==> opt_text_column(row, i) == Ok::<Option<Seq<char>>, ()>(
                Some(row[i]->Text_0),
            )
        },
        !(0 <= i < row.len()) ==> text_column(row, i) is None && real_column(row, i) is None
            && int_column(row, i) is None && blob_column(row, i) is None && opt_text_column(
            row,
            i,
        ) is Err,
{
}

/// What is said of a statement is said of its text and of its parameters in their order.
pub proof fn law_statement_is_seen_as_it_is(x: Statement)
    ensures
        x@.sql == x.sql@,
        x@.params.len() == x.params@.len(),
        forall|i: int| 0 <= i < x.params@.len() ==> #[trigger] x@.params[i] == x.params@[i]@,
{
}

/// What is said of a value is said of what it holds.
pub proof fn law_value_is_seen_as_it_is(n: i64, m: Measure, s: String, b: Vec<u8>)
    ensures
        SqlValue::Null@ == SqlView::Null,
        SqlValue::Integer(n)@ == SqlView::Integer(n),
        SqlValue::Real(m)@ == SqlView::Real(m),
        SqlValue::Text(s)@ == SqlView::Text(s@),
        SqlValue::Blob(b)@ == SqlView::Blob(b@),
{
}

/// What is said of statements and of rows is said of each of them, in their order.
pub proof fn law_lists_are_seen_as_they_are(v: Seq<Statement>, rows: Seq<Row>)
    ensures
        statement_views(v).len() == v.len(),
        forall|i: int| 0 <= i < v.len() ==> #[trigger] statement_views(v)[i] == v[i]@,
        row_views(rows).len() == rows.len(),
        forall|i: int, j: int|
            0 <= i < rows.len() && 0 <= j < rows[i]@.len() ==> #[trigger] row_views(rows)[i][j]
                == rows[i]@[j]@,
        forall|i: int|
            0 <= i < rows.len() ==> (#[trigger] row_views(rows)[i]).len() == rows[i]@.len(),
{
}

} // verus!
