//! Rows, statements and the chunked merge-add upsert of a cache.

use vstd::prelude::*;
use crate::cache::AggregationCache;
use crate::counters::{Counters, FlowCount};
use crate::date::{lemma_other_month_other_table, route_table, table_name, Date, Day};
use crate::key::{AggregationKey, KeyModel};
use crate::model::CacheModel;
use crate::text::{append_numeral, numeral};

verus! {

/// Most rows that one statement carries.
pub const CHUNK_ROWS: usize = 100;

/// Positional parameters that one row takes up.
pub const ROW_PARAMETERS: usize = 7;

/// A value bound to a positional parameter of a statement.
#[derive(Debug)]
pub enum SqlValue {
    /// An IPv4 address, for a column of a network-address type.
    Address(u32),
    Date(Date),
    SmallInt(i16),
    BigInt(i64),
    Text(String),
}

/// Mathematical value of an `SqlValue`.
pub enum ParamModel {
    Address(int),
    Date(Day),
    SmallInt(int),
    BigInt(int),
    Text(Seq<char>),
}

impl View for SqlValue {
    type V = ParamModel;

    open spec fn view(&self) -> ParamModel {
        match self {
            SqlValue::Address(address) => ParamModel::Address(*address as int),
            SqlValue::Date(date) => ParamModel::Date(date@),
            SqlValue::SmallInt(n) => ParamModel::SmallInt(*n as int),
            SqlValue::BigInt(n) => ParamModel::BigInt(*n as int),
            SqlValue::Text(text) => ParamModel::Text(text@),
        }
    }
}

impl Clone for SqlValue {
    fn clone(&self) -> (r: SqlValue)
        ensures
            r@ == self@,
    {
        match self {
            SqlValue::Address(address) => SqlValue::Address(*address),
            SqlValue::Date(date) => SqlValue::Date(*date),
            SqlValue::SmallInt(n) => SqlValue::SmallInt(*n),
            SqlValue::BigInt(n) => SqlValue::BigInt(*n),
            SqlValue::Text(text) => SqlValue::Text(text.clone()),
        }
    }
}

/// The values of a run of parameters.
pub open spec fn params_view(params: Seq<SqlValue>) -> Seq<ParamModel> {
    params.map_values(|param: SqlValue| param@)
}

/// A statement with the values of its positional parameters, `$1` first.
#[derive(Debug)]
pub struct Statement {
    pub sql: String,
    pub params: Vec<SqlValue>,
}

/// Mathematical value of a `Statement`.
pub struct StatementModel {
    pub sql: Seq<char>,
    pub params: Seq<ParamModel>,
}

impl View for Statement {
    type V = StatementModel;

    open spec fn view(&self) -> StatementModel {
        StatementModel { sql: self.sql@, params: params_view(self.params@) }
    }
}

/// Mathematical value of a row: a key, its counters, and the table they go
/// to.
pub struct RowModel {
    pub table: Seq<char>,
    pub key: KeyModel,
    pub counts: Counters,
}

/// The row that holds the counters of `key`, bound for the table of the
/// key's month.
pub open spec fn row_of(key: KeyModel, counts: Counters) -> RowModel {
    RowModel { table: table_name(key.date.year, key.date.month), key, counts }
}

/// One cache entry made ready for storage.
#[derive(Debug)]
pub struct BatchRow {
    table: String,
    key: AggregationKey,
    count: FlowCount,
}

impl View for BatchRow {
    type V = RowModel;

    closed spec fn view(&self) -> RowModel {
        RowModel { table: self.table@, key: self.key@, counts: self.count@ }
    }
}

impl BatchRow {
    /// Every row is bound for the table of its key's month.
    #[verifier::type_invariant]
    pub open spec fn inv(self) -> bool {
        self@ == row_of(self@.key, self@.counts)
    }

    /// The row for `key` with the counters `count`.
    pub fn new(key: AggregationKey, count: FlowCount) -> (row: BatchRow)
        ensures
            row@ == row_of(key@, count@),
    {
        let table = route_table(&key.date());
        BatchRow { table, key, count }
    }

    /// Name of the table that the row goes to.
    pub fn table(&self) -> (r: &String)
        ensures
            r@ == self@.table,
            self@ == row_of(self@.key, self@.counts),
    {
        proof {
            use_type_invariant(self);
        }
        &self.table
    }

    /// The key of the row.
    pub fn key(&self) -> (r: AggregationKey)
        ensures
            r@ == self@.key,
    {
        self.key
    }

    /// The counters of the row.
    pub fn count(&self) -> (r: FlowCount)
        ensures
            r@ == self@.counts,
    {
        self.count
    }
}

impl Clone for BatchRow {
    fn clone(&self) -> (r: BatchRow)
        ensures
            r@ == self@,
    {
        proof {
            use_type_invariant(self);
        }
        BatchRow { table: self.table.clone(), key: self.key, count: self.count }
    }
}

/// The values of a run of rows.
pub open spec fn rows_view(rows: Seq<BatchRow>) -> Seq<RowModel> {
    rows.map_values(|row: BatchRow| row@)
}

/// The values of a row in the order of the columns: address, date, hour,
/// internal-in, internal-out, external-in, external-out.
pub open spec fn row_params(row: RowModel) -> Seq<ParamModel> {
    seq![
        ParamModel::Address(row.key.address),
        ParamModel::Date(row.key.date),
        ParamModel::SmallInt(row.key.hour),
        ParamModel::BigInt(row.counts.internal_in),
        ParamModel::BigInt(row.counts.internal_out),
        ParamModel::BigInt(row.counts.external_in),
        ParamModel::BigInt(row.counts.external_out),
    ]
}

/// The values of a run of rows, row after row.
pub open spec fn rows_params(rows: Seq<RowModel>) -> Seq<ParamModel>
    decreases rows.len(),
{
    if rows.len() == 0 {
        Seq::empty()
    } else {
        rows_params(rows.drop_last()) + row_params(rows.last())
    }
}

/// A run of rows takes up `ROW_PARAMETERS` parameters for each row.
pub proof fn lemma_rows_params_len(rows: Seq<RowModel>)
    ensures
        rows_params(rows).len() == ROW_PARAMETERS * rows.len(),
    decreases rows.len(),
{
    if rows.len() > 0 {
        lemma_rows_params_len(rows.drop_last());
    }
}

/// The positional parameter `$n`.
pub open spec fn placeholder(n: nat) -> Seq<char> {
    "$"@ + numeral(n)
}

/// The first `count` placeholders of the row at place `row`, counted from
/// zero, separated by commas: `$8, $9` for two placeholders of the second
/// row.
pub open spec fn row_placeholders(row: nat, count: nat) -> Seq<char>
    decreases count,
{
    if count == 0 {
        Seq::empty()
    } else if count == 1 {
        placeholder(ROW_PARAMETERS as nat * row + 1)
    } else {
        row_placeholders(row, (count - 1) as nat) + ", "@ + placeholder(
            ROW_PARAMETERS as nat * row + count,
        )
    }
}

/// The parenthesised placeholders of the row at place `row`, counted from
/// zero: `($1, $2, $3, $4, $5, $6, $7)` for the first row.
pub open spec fn value_group(row: nat) -> Seq<char> {
    "("@ + row_placeholders(row, ROW_PARAMETERS as nat) + ")"@
}

/// The value groups of `rows` rows, separated by commas.
pub open spec fn value_groups(rows: nat) -> Seq<char>
    decreases rows,
{
    if rows == 0 {
        Seq::empty()
    } else if rows == 1 {
        value_group(0)
    } else {
        value_groups((rows - 1) as nat) + ", "@ + value_group((rows - 1) as nat)
    }
}

/// The assignment that adds the incoming value of `column` to the stored
/// one.
pub open spec fn merge_term(table: Seq<char>, column: Seq<char>) -> Seq<char> {
    column + " = "@ + table + "."@ + column + " + EXCLUDED."@ + column
}

/// What a statement does with a row whose key the table holds already: it
/// adds each incoming counter to the stored one.
pub open spec fn merge_clause(table: Seq<char>) -> Seq<char> {
    "ON CONFLICT (address, date, hour) DO UPDATE SET "@ + merge_term(table, "internal_in"@) + ", "@
        + merge_term(table, "internal_out"@) + ", "@ + merge_term(table, "external_in"@) + ", "@
        + merge_term(table, "external_out"@) + ";"@
}

/// The merge-add upsert of `rows` rows into `table`.
pub open spec fn upsert_sql(table: Seq<char>, rows: nat) -> Seq<char> {
    "INSERT INTO "@ + table
        + " (address, date, hour, internal_in, internal_out, external_in, external_out) VALUES "@
        + value_groups(rows) + " "@ + merge_clause(table)
}

/// Appends the positional parameter `$n`.
fn append_placeholder(out: &mut String, n: usize)
    ensures
        final(out)@ == old(out)@ + placeholder(n as nat),
{
    out.append("$");
    append_numeral(out, n);
    assert(out@ =~= old(out)@ + placeholder(n as nat));
}

/// Appends the parenthesised placeholders of the row at place `row`.
fn append_value_group(out: &mut String, row: usize)
    requires
        row < CHUNK_ROWS,
    ensures
        final(out)@ == old(out)@ + value_group(row as nat),
{
    out.append("(");
    let ghost head = out@;
    let mut count: usize = 0;
    assert(out@ =~= head + row_placeholders(row as nat, 0));
    while count < ROW_PARAMETERS
        invariant
            row < CHUNK_ROWS,
            count <= ROW_PARAMETERS,
            out@ == head + row_placeholders(row as nat, count as nat),
        decreases ROW_PARAMETERS - count,
    {
        if count > 0 {
            out.append(", ");
        }
        count += 1;
        append_placeholder(out, ROW_PARAMETERS * row + count);
        assert(out@ =~= head + row_placeholders(row as nat, count as nat));
    }
    out.append(")");
    assert(out@ =~= old(out)@ + value_group(row as nat));
}

/// Appends the assignment that adds to `column`.
fn append_merge_term(out: &mut String, table: &str, column: &str)
    ensures
        final(out)@ == old(out)@ + merge_term(table@, column@),
{
    out.append(column);
    out.append(" = ");
    out.append(table);
    assert(out@ =~= old(out)@ + (column@ + " = "@ + table@));
    out.append(".");
    out.append(column);
    assert(out@ =~= old(out)@ + (column@ + " = "@ + table@ + "."@ + column@));
    out.append(" + EXCLUDED.");
    out.append(column);
    assert(out@ =~= old(out)@ + merge_term(table@, column@));
}

/// Appends the clause that merges a row into the row stored for its key.
fn append_merge_clause(out: &mut String, table: &str)
    ensures
        final(out)@ == old(out)@ + merge_clause(table@),
{
    let ghost a = "ON CONFLICT (address, date, hour) DO UPDATE SET "@ + merge_term(
        table@,
        "internal_in"@,
    );
    let ghost b = a + ", "@ + merge_term(table@, "internal_out"@);
    let ghost c = b + ", "@ + merge_term(table@, "external_in"@);
    let ghost d = c + ", "@ + merge_term(table@, "external_out"@);
    out.append("ON CONFLICT (address, date, hour) DO UPDATE SET ");
    append_merge_term(out, table, "internal_in");
    assert(out@ =~= old(out)@ + a);
    out.append(", ");
    append_merge_term(out, table, "internal_out");
    assert(out@ =~= old(out)@ + b);
    out.append(", ");
    append_merge_term(out, table, "external_in");
    assert(out@ =~= old(out)@ + c);
    out.append(", ");
    append_merge_term(out, table, "external_out");
    assert(out@ =~= old(out)@ + d);
    out.append(";");
    assert(out@ =~= old(out)@ + merge_clause(table@));
}

/// Writes the merge-add upsert of `rows` rows into `table`.
fn write_upsert_sql(table: &str, rows: usize) -> (sql: String)
    requires
        rows <= CHUNK_ROWS,
    ensures
        sql@ == upsert_sql(table@, rows as nat),
{
    let mut sql = String::from_str("INSERT INTO ");
    sql.append(table);
    sql.append(
        " (address, date, hour, internal_in, internal_out, external_in, external_out) VALUES ",
    );
    let ghost head = sql@;
    let mut row: usize = 0;
    assert(sql@ =~= head + value_groups(0));
    while row < rows
        invariant
            row <= rows <= CHUNK_ROWS,
            sql@ == head + value_groups(row as nat),
        decreases rows - row,
    {
        if row > 0 {
            sql.append(", ");
        }
        append_value_group(&mut sql, row);
        row += 1;
        assert(sql@ =~= head + value_groups(row as nat));
    }
    sql.append(" ");
    append_merge_clause(&mut sql, table);
    assert(sql@ =~= upsert_sql(table@, rows as nat));
    sql
}

/// The statement that upserts `row` alone into the row's own table.
pub open spec fn row_statement(row: RowModel) -> StatementModel {
    StatementModel { sql: upsert_sql(row.table, 1), params: row_params(row) }
}

/// The statement that upserts all of `rows` into the table of the first.
pub open spec fn bulk_statement(rows: Seq<RowModel>) -> StatementModel {
    StatementModel { sql: upsert_sql(rows[0].table, rows.len()), params: rows_params(rows) }
}

/// Whether all of `rows` go to the same table.
pub open spec fn homogeneous(rows: Seq<RowModel>) -> bool {
    forall|i: int| 0 <= i < rows.len() ==> (#[trigger] rows[i]).table == rows[0].table
}

/// Rows of valid keys all go to the same table exactly where their days
/// lie in the same month of the same year.
pub proof fn lemma_homogeneous_by_month(rows: Seq<RowModel>)
    requires
        forall|i: int|
            0 <= i < rows.len() ==> (#[trigger] rows[i]).key.valid() && rows[i] == row_of(
                rows[i].key,
                rows[i].counts,
            ),
    ensures
        homogeneous(rows) <==> forall|i: int|
            0 <= i < rows.len() ==> (#[trigger] rows[i]).key.date.year == rows[0].key.date.year
                && rows[i].key.date.month == rows[0].key.date.month,
{
    if homogeneous(rows) {
        assert forall|i: int| 0 <= i < rows.len() implies (#[trigger] rows[i]).key.date.year
            == rows[0].key.date.year && rows[i].key.date.month == rows[0].key.date.month by {
            assert(rows[i].table == rows[0].table);
            lemma_other_month_other_table(rows[i].key.date, rows[0].key.date);
        }
    }
}

/// Appends the values of `row`, in the order of the columns.
fn push_row_params(params: &mut Vec<SqlValue>, row: &BatchRow)
    ensures
        params_view(final(params)@) == params_view(old(params)@) + row_params(row@),
{
    let key = row.key();
    let count = row.count();
    params.push(SqlValue::Address(key.address()));
    params.push(SqlValue::Date(key.date()));
    params.push(SqlValue::SmallInt(key.hour() as i16));
    params.push(SqlValue::BigInt(count.internal_in()));
    params.push(SqlValue::BigInt(count.internal_out()));
    params.push(SqlValue::BigInt(count.external_in()));
    params.push(SqlValue::BigInt(count.external_out()));
    assert(params_view(params@) =~= params_view(old(params)@) + row_params(row@));
}

/// The upsert of one row into its own table: the statement that the
/// transaction of a chunk of several tables runs for each of its rows.
pub fn update_flow(row: &BatchRow) -> (statement: Statement)
    ensures
        statement@ == row_statement(row@),
{
    let sql = write_upsert_sql(row.table().as_str(), 1);
    let mut params: Vec<SqlValue> = Vec::new();
    push_row_params(&mut params, row);
    assert(params_view(params@) =~= row_params(row@));
    Statement { sql, params }
}

/// How a chunk is written.
#[derive(Debug)]
pub enum UpsertPath {
    /// All rows go to one table: one statement carries them all.
    Bulk(Statement),
    /// The rows go to more than one table: one statement for each row, all
    /// in one transaction that is committed only when every statement has
    /// succeeded and rolled back otherwise.
    PerRow(Vec<Statement>),
}

/// Mathematical value of an `UpsertPath`.
pub enum PathModel {
    Bulk(StatementModel),
    PerRow(Seq<StatementModel>),
}

/// The values of a run of statements.
pub open spec fn statements_view(statements: Seq<Statement>) -> Seq<StatementModel> {
    statements.map_values(|statement: Statement| statement@)
}

impl View for UpsertPath {
    type V = PathModel;

    open spec fn view(&self) -> PathModel {
        match self {
            UpsertPath::Bulk(statement) => PathModel::Bulk(statement@),
            UpsertPath::PerRow(statements) => PathModel::PerRow(statements_view(statements@)),
        }
    }
}

/// The way the chunk `rows` is written: in one statement where it is
/// homogeneous, else row by row, in the order of the rows.
pub open spec fn path_of(rows: Seq<RowModel>) -> PathModel {
    if homogeneous(rows) {
        PathModel::Bulk(bulk_statement(rows))
    } else {
        PathModel::PerRow(rows.map_values(|row: RowModel| row_statement(row)))
    }
}

/// Whether all of `rows` go to the table of the first.
fn all_same_table(rows: &Vec<BatchRow>) -> (r: bool)
    requires
        rows.len() > 0,
    ensures
        r == homogeneous(rows_view(rows@)),
{
    let ghost models = rows_view(rows@);
    let mut i: usize = 1;
    while i < rows.len()
        invariant
            1 <= i <= rows.len(),
            models == rows_view(rows@),
            forall|j: int| 0 <= j < i ==> (#[trigger] models[j]).table == models[0].table,
        decreases rows.len() - i,
    {
        assert(models[i as int] == rows@[i as int]@ && models[0] == rows@[0]@);
        let same = *rows[i].table() == *rows[0].table();
        if !same {
            return false;
        }
        i += 1;
    }
    true
}

/// Decides how one chunk of rows is written, and writes its statements.
pub fn update_flow_mt(rows: &Vec<BatchRow>) -> (path: UpsertPath)
    requires
        1 <= rows.len() <= CHUNK_ROWS,
    ensures
        path@ == path_of(rows_view(rows@)),
{
    let ghost models = rows_view(rows@);
    if all_same_table(rows) {
        let sql = write_upsert_sql(rows[0].table().as_str(), rows.len());
        let mut params: Vec<SqlValue> = Vec::new();
        let mut i: usize = 0;
        assert(params_view(params@) =~= rows_params(models.take(0)));
        while i < rows.len()
            invariant
                i <= rows.len(),
                models == rows_view(rows@),
                params_view(params@) == rows_params(models.take(i as int)),
            decreases rows.len() - i,
        {
            proof {
                assert(models.take(i + 1).drop_last() == models.take(i as int));
                assert(models.take(i + 1).last() == rows@[i as int]@);
            }
            push_row_params(&mut params, &rows[i]);
            i += 1;
        }
        assert(models.take(i as int) == models);
        UpsertPath::Bulk(Statement { sql, params })
    } else {
        let mut statements: Vec<Statement> = Vec::new();
        let ghost wanted = models.map_values(|row: RowModel| row_statement(row));
        let mut i: usize = 0;
        assert(statements_view(statements@) =~= wanted.take(0));
        while i < rows.len()
            invariant
                i <= rows.len(),
                models == rows_view(rows@),
                wanted == models.map_values(|row: RowModel| row_statement(row)),
                statements_view(statements@) == wanted.take(i as int),
            decreases rows.len() - i,
        {
            let statement = update_flow(&rows[i]);
            let ghost held = statements_view(statements@);
            statements.push(statement);
            assert(statements_view(statements@) =~= held.push(statement@));
            assert(wanted.take(i + 1) =~= wanted.take(i as int).push(wanted[i as int]));
            i += 1;
        }
        assert(wanted.take(i as int) == wanted);
        UpsertPath::PerRow(statements)
    }
}

/// The rows of a cache, in the order of its keys.
pub open spec fn cache_rows(cache: CacheModel) -> Seq<RowModel> {
    Seq::new(cache.keys.len(), |i: int| row_of(cache.keys[i], cache.counts[cache.keys[i]]))
}

/// One chunk of rows and the statements that write it.
#[derive(Debug)]
pub struct ChunkAction {
    pub rows: Vec<BatchRow>,
    pub path: UpsertPath,
}

/// Mathematical value of a `ChunkAction`.
pub struct ActionModel {
    pub rows: Seq<RowModel>,
    pub path: PathModel,
}

impl View for ChunkAction {
    type V = ActionModel;

    open spec fn view(&self) -> ActionModel {
        ActionModel { rows: rows_view(self.rows@), path: self.path@ }
    }
}

/// The values of a run of actions.
pub open spec fn actions_view(actions: Seq<ChunkAction>) -> Seq<ActionModel> {
    actions.map_values(|action: ChunkAction| action@)
}

/// The action that writes the chunk `rows`.
pub open spec fn action_of(rows: Seq<RowModel>) -> ActionModel {
    ActionModel { rows, path: path_of(rows) }
}

/// The actions that write `rows` in chunks of `size` rows: every chunk but
/// the last holds `size` rows, and the last holds what is left.
pub open spec fn plan(rows: Seq<RowModel>, size: nat) -> Seq<ActionModel>
    decreases rows.len(),
{
    if rows.len() == 0 || size == 0 {
        Seq::empty()
    } else if rows.len() <= size {
        seq![action_of(rows)]
    } else {
        seq![action_of(rows.take(size as int))] + plan(rows.skip(size as int), size)
    }
}

/// The rows of a run of actions, action after action.
pub open spec fn rows_of_actions(actions: Seq<ActionModel>) -> Seq<RowModel>
    decreases actions.len(),
{
    if actions.len() == 0 {
        Seq::empty()
    } else {
        rows_of_actions(actions.drop_last()) + actions.last().rows
    }
}

/// The rows of two runs of actions are those of the first run, then those
/// of the second.
pub proof fn lemma_rows_of_actions_concat(a: Seq<ActionModel>, b: Seq<ActionModel>)
    ensures
        rows_of_actions(a + b) == rows_of_actions(a) + rows_of_actions(b),
    decreases b.len(),
{
    if b.len() == 0 {
        assert(a + b == a);
    } else {
        assert((a + b).drop_last() == a + b.drop_last());
        lemma_rows_of_actions_concat(a, b.drop_last());
    }
}

/// A plan writes every row once, in order; each of its chunks comes with
/// the statements that write its rows, and holds `size` rows, or fewer
/// where it is the last.
pub proof fn lemma_plan(rows: Seq<RowModel>, size: nat)
    requires
        size >= 1,
    ensures
        rows_of_actions(plan(rows, size)) == rows,
        forall|i: int|
            0 <= i < plan(rows, size).len() ==> (#[trigger] plan(rows, size)[i]) == action_of(
                plan(rows, size)[i].rows,
            ) && 1 <= plan(rows, size)[i].rows.len() <= size,
        forall|i: int|
            0 <= i < plan(rows, size).len() - 1 ==> (#[trigger] plan(rows, size)[i]).rows.len()
                == size,
    decreases rows.len(),
{
    let whole = plan(rows, size);
    if rows.len() == 0 {
    } else if rows.len() <= size {
        let one = seq![action_of(rows)];
        assert(one.drop_last().len() == 0);
        assert(rows_of_actions(one) == rows_of_actions(one.drop_last()) + rows);
    } else {
        let first = seq![action_of(rows.take(size as int))];
        let rest = plan(rows.skip(size as int), size);
        lemma_plan(rows.skip(size as int), size);
        lemma_rows_of_actions_concat(first, rest);
        assert(first.drop_last().len() == 0);
        assert(rows_of_actions(first) == rows_of_actions(first.drop_last()) + rows.take(
            size as int,
        ));
        assert(rows.take(size as int) + rows.skip(size as int) == rows);
        assert forall|i: int| 0 <= i < whole.len() implies (#[trigger] whole[i]) == action_of(
            whole[i].rows,
        ) && 1 <= whole[i].rows.len() <= size by {
            if i > 0 {
                assert(whole[i] == rest[i - 1]);
            }
        }
        assert forall|i: int| 0 <= i < whole.len() - 1 implies (#[trigger] whole[i]).rows.len()
            == size by {
            if i > 0 {
                assert(whole[i] == rest[i - 1]);
            }
        }
    }
}

/// Turns a cache into the actions that store it: its rows, in the order of
/// its keys, in chunks of `size` rows, each with the statements that write
/// it. An empty cache needs no action.
pub fn store_cache_chunked(cache: AggregationCache, size: usize) -> (actions: Vec<ChunkAction>)
    requires
        1 <= size <= CHUNK_ROWS,
    ensures
        actions_view(actions@) == plan(cache_rows(cache@), size as nat),
{
    let ghost all = cache_rows(cache@);
    let total = cache.len();
    let mut actions: Vec<ChunkAction> = Vec::new();
    let mut start: usize = 0;
    proof {
        assert(all.skip(0) == all);
        assert(actions_view(actions@) + plan(all, size as nat) == plan(all, size as nat));
    }
    while start < total
        invariant
            1 <= size <= CHUNK_ROWS,
            start <= total == all.len(),
            all == cache_rows(cache@),
            plan(all, size as nat) == actions_view(actions@) + plan(
                all.skip(start as int),
                size as nat,
            ),
        decreases total - start,
    {
        let end = if total - start > size {
            start + size
        } else {
            total
        };
        let mut rows: Vec<BatchRow> = Vec::new();
        let mut i: usize = start;
        assert(rows_view(rows@) =~= all.subrange(start as int, start as int));
        while i < end
            invariant
                start <= i <= end <= total == all.len(),
                all == cache_rows(cache@),
                rows.len() == i - start,
                rows_view(rows@) == all.subrange(start as int, i as int),
            decreases end - i,
        {
            match cache.entry(i) {
                Some((key, count)) => {
                    let row = BatchRow::new(key, count);
                    let ghost held = rows_view(rows@);
                    rows.push(row);
                    assert(rows_view(rows@) =~= held.push(all[i as int]));
                    assert(rows_view(rows@) =~= all.subrange(start as int, i + 1));
                },
                None => {},
            }
            i += 1;
        }
        let path = update_flow_mt(&rows);
        let action = ChunkAction { rows, path };
        let ghost done = actions_view(actions@);
        actions.push(action);
        proof {
            let rest = all.skip(start as int);
            let after = plan(all.skip(end as int), size as nat);
            if end == total {
                assert(action@.rows == rest);
                assert(all.skip(end as int).len() == 0);
            } else {
                assert(action@.rows == rest.take(size as int));
                assert(rest.skip(size as int) == all.skip(end as int));
            }
            assert(plan(rest, size as nat) == seq![action@] + after);
            assert(actions_view(actions@) =~= done.push(action@));
            assert(done + (seq![action@] + after) == done.push(action@) + after);
        }
        start = end;
    }
    proof {
        assert(all.skip(start as int).len() == 0);
        assert(actions_view(actions@) + Seq::<ActionModel>::empty() == actions_view(actions@));
    }
    actions
}

/// Turns a cache into the actions that store it, in chunks of `CHUNK_ROWS`
/// rows.
pub fn store_cache_mt(cache: AggregationCache) -> (actions: Vec<ChunkAction>)
    ensures
        actions_view(actions@) == plan(cache_rows(cache@), CHUNK_ROWS as nat),
{
    store_cache_chunked(cache, CHUNK_ROWS)
}

} // verus!
