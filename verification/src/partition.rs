//! Upkeep of the month tables: the table of the current month and that of the
//! month after it are to exist before rows are written to them.

use vstd::prelude::*;
use crate::date::{month_table, table_name};
use crate::upsert::{ParamModel, SqlValue, Statement, StatementModel};

verus! {

/// A month of a year of at most four digits.
pub open spec fn month_valid(year: int, month: int) -> bool {
    0 <= year <= 9999 && 1 <= month <= 12
}

/// The month after the given one.
pub open spec fn next_month(year: int, month: int) -> (int, int) {
    if month == 12 {
        (year + 1, 1)
    } else {
        (year, month + 1)
    }
}

/// The query that counts the tables of a name given as `$1`.
pub open spec fn count_sql() -> Seq<char> {
    "SELECT COUNT(*) FROM information_schema.tables WHERE table_name = $1;"@
}

/// The statement that creates the month table `table`: one row for each
/// address, date and hour, with four counters that start at zero.
pub open spec fn create_sql(table: Seq<char>) -> Seq<char> {
    "CREATE TABLE "@ + table
        + " (address inet NOT NULL, date date NOT NULL, hour smallint NOT NULL, internal_in bigint DEFAULT 0, internal_out bigint DEFAULT 0, external_in bigint DEFAULT 0, external_out bigint DEFAULT 0, PRIMARY KEY (address, date, hour), CHECK (hour BETWEEN 0 AND 23));"@
}

/// What it takes to make sure that one month table exists.
#[derive(Debug)]
pub struct PartitionCheck {
    pub table: String,
    /// Counts the tables of that name.
    pub count: Statement,
    /// Creates the table; to be run where the count is zero.
    pub create: Statement,
}

/// Mathematical value of a `PartitionCheck`.
pub struct CheckModel {
    pub table: Seq<char>,
    pub count: StatementModel,
    pub create: StatementModel,
}

impl View for PartitionCheck {
    type V = CheckModel;

    open spec fn view(&self) -> CheckModel {
        CheckModel { table: self.table@, count: self.count@, create: self.create@ }
    }
}

/// The values of a run of checks.
pub open spec fn checks_view(checks: Seq<PartitionCheck>) -> Seq<CheckModel> {
    checks.map_values(|check: PartitionCheck| check@)
}

/// The check for the table of the given month.
pub open spec fn check_of(year: int, month: int) -> CheckModel {
    let table = table_name(year, month);
    CheckModel {
        table,
        count: StatementModel { sql: count_sql(), params: seq![ParamModel::Text(table)] },
        create: StatementModel { sql: create_sql(table), params: Seq::empty() },
    }
}

/// The checks to run at a time in the given month: one for that month and
/// one for the month after it, as far as they are valid months.
pub open spec fn partition_checks(year: int, month: int) -> Seq<CheckModel> {
    let (after_year, after_month) = next_month(year, month);
    if !month_valid(year, month) {
        Seq::empty()
    } else if !month_valid(after_year, after_month) {
        seq![check_of(year, month)]
    } else {
        seq![check_of(year, month), check_of(after_year, after_month)]
    }
}

/// Writes the check for the table of the given month.
fn check_for(year: u16, month: u8) -> (check: PartitionCheck)
    ensures
        check@ == check_of(year as int, month as int),
{
    let table = month_table(year, month);
    let mut params: Vec<SqlValue> = Vec::new();
    params.push(SqlValue::Text(table.clone()));
    let count = Statement {
        sql: String::from_str(
            "SELECT COUNT(*) FROM information_schema.tables WHERE table_name = $1;",
        ),
        params,
    };
    let mut sql = String::from_str("CREATE TABLE ");
    sql.append(table.as_str());
    sql.append(
        " (address inet NOT NULL, date date NOT NULL, hour smallint NOT NULL, internal_in bigint DEFAULT 0, internal_out bigint DEFAULT 0, external_in bigint DEFAULT 0, external_out bigint DEFAULT 0, PRIMARY KEY (address, date, hour), CHECK (hour BETWEEN 0 AND 23));",
    );
    let create = Statement { sql, params: Vec::new() };
    assert(count@.params =~= seq![ParamModel::Text(table@)]);
    assert(create@.params =~= Seq::empty());
    assert(create@.sql =~= create_sql(table@));
    PartitionCheck { table, count, create }
}

/// Lists the month tables that must exist at a time in month `month` of
/// `year`, each with the query that tells whether it exists and the
/// statement that creates it. Running the checks again creates nothing
/// anew, since each creation is preceded by its count.
pub fn check_dbtable(year: i32, month: u32) -> (checks: Vec<PartitionCheck>)
    ensures
        checks_view(checks@) == partition_checks(year as int, month as int),
{
    let mut checks: Vec<PartitionCheck> = Vec::new();
    if year < 0 || year > 9999 || month < 1 || month > 12 {
        assert(checks_view(checks@) =~= Seq::empty());
        return checks;
    }
    checks.push(check_for(year as u16, month as u8));
    if month < 12 {
        checks.push(check_for(year as u16, (month + 1) as u8));
    } else if year < 9999 {
        checks.push(check_for((year + 1) as u16, 1));
    }
    assert(checks_view(checks@) =~= partition_checks(year as int, month as int));
    checks
}

/// Whether the table that was counted has to be created.
pub fn table_missing(count: i64) -> (r: bool)
    ensures
        r == (count == 0),
{
    count == 0
}

/// What the storage reports during an upkeep.
#[derive(Clone, Copy, Debug, PartialEq, Eq, Structural)]
pub enum UpkeepEvent {
    /// The pending count found this many tables.
    Counted(i64),
    /// The pending creation was carried out.
    Created,
}

/// A statement of an upkeep, by what it is for.
#[derive(Debug)]
pub enum UpkeepStep<'a> {
    /// Counts the tables of one name: the count is to be reported.
    Count(&'a Statement),
    /// Creates a table that was counted as missing.
    Create(&'a Statement),
}

/// Mathematical value of an `UpkeepStep`.
pub enum StepModel {
    Count(StatementModel),
    Create(StatementModel),
}

impl<'a> View for UpkeepStep<'a> {
    type V = StepModel;

    open spec fn view(&self) -> StepModel {
        match self {
            UpkeepStep::Count(statement) => StepModel::Count(statement@),
            UpkeepStep::Create(statement) => StepModel::Create(statement@),
        }
    }
}

/// Mathematical value of an upkeep: its checks, how many of them are
/// settled, and whether the next one has been counted as missing.
pub struct UpkeepModel {
    pub checks: Seq<CheckModel>,
    pub settled: nat,
    pub creating: bool,
}

impl UpkeepModel {
    /// The statement to run next: the count of the first unsettled table,
    /// or its creation once that count was zero. `None` when every table is
    /// settled.
    pub open spec fn pending(self) -> Option<StepModel> {
        if self.settled >= self.checks.len() {
            None
        } else if self.creating {
            Some(StepModel::Create(self.checks[self.settled as int].create))
        } else {
            Some(StepModel::Count(self.checks[self.settled as int].count))
        }
    }

    /// The upkeep after the storage has reported on the pending statement.
    /// A table is settled by a count other than zero, or by its creation
    /// after a count of zero; a report that does not answer the pending
    /// statement changes nothing.
    pub open spec fn report(self, event: UpkeepEvent) -> UpkeepModel {
        if self.settled >= self.checks.len() {
            self
        } else {
            match event {
                UpkeepEvent::Counted(count) => if self.creating {
                    self
                } else if count == 0 {
                    UpkeepModel { creating: true, ..self }
                } else {
                    UpkeepModel { settled: self.settled + 1, ..self }
                },
                UpkeepEvent::Created => if self.creating {
                    UpkeepModel { settled: self.settled + 1, creating: false, ..self }
                } else {
                    self
                },
            }
        }
    }
}

/// One run of the upkeep of the month tables: each table is counted, and
/// created only after it was counted as missing.
pub struct Upkeep {
    checks: Vec<PartitionCheck>,
    settled: usize,
    creating: bool,
}

impl View for Upkeep {
    type V = UpkeepModel;

    closed spec fn view(&self) -> UpkeepModel {
        UpkeepModel {
            checks: checks_view(self.checks@),
            settled: self.settled as nat,
            creating: self.creating,
        }
    }
}

impl Upkeep {
    /// No more tables are settled than the upkeep has.
    #[verifier::type_invariant]
    pub open spec fn inv(self) -> bool {
        self@.settled <= self@.checks.len()
    }

    /// Starts the upkeep at a time in month `month` of `year`.
    pub fn new(year: i32, month: u32) -> (upkeep: Upkeep)
        ensures
            upkeep@ == (UpkeepModel {
                checks: partition_checks(year as int, month as int),
                settled: 0,
                creating: false,
            }),
    {
        Upkeep { checks: check_dbtable(year, month), settled: 0, creating: false }
    }

    /// The statement to run next.
    pub fn pending(&self) -> (r: Option<UpkeepStep<'_>>)
        ensures
            match r {
                Some(step) => self@.pending() == Some(step@),
                None => self@.pending() is None,
            },
    {
        proof {
            use_type_invariant(self);
        }
        if self.settled >= self.checks.len() {
            None
        } else if self.creating {
            Some(UpkeepStep::Create(&self.checks[self.settled].create))
        } else {
            Some(UpkeepStep::Count(&self.checks[self.settled].count))
        }
    }

    /// Takes note of what the storage reported on the pending statement.
    pub fn report(&mut self, event: UpkeepEvent)
        ensures
            final(self)@ == old(self)@.report(event),
    {
        proof {
            use_type_invariant(&*self);
        }
        if self.settled < self.checks.len() {
            match event {
                UpkeepEvent::Counted(count) => {
                    if !self.creating {
                        if table_missing(count) {
                            self.creating = true;
                        } else {
                            self.settled = self.settled + 1;
                        }
                    }
                },
                UpkeepEvent::Created => {
                    if self.creating {
                        self.creating = false;
                        self.settled = self.settled + 1;
                    }
                },
            }
        }
    }
}

/// What a storage that holds the tables `tables` reports on the pending
/// statement of `upkeep`, and the tables that it holds afterwards: a count
/// finds one table or none, and a creation adds its table.
pub open spec fn answer(upkeep: UpkeepModel, tables: Set<Seq<char>>) -> (
    UpkeepEvent,
    Set<Seq<char>>,
) {
    let table = upkeep.checks[upkeep.settled as int].table;
    if upkeep.creating {
        (UpkeepEvent::Created, tables.insert(table))
    } else if tables.contains(table) {
        (UpkeepEvent::Counted(1), tables)
    } else {
        (UpkeepEvent::Counted(0), tables)
    }
}

/// Whether the upkeep is in step with the storage: the tables that it has
/// settled exist, and the table that it is about to create does not.
pub open spec fn tended(upkeep: UpkeepModel, tables: Set<Seq<char>>) -> bool {
    &&& upkeep.settled <= upkeep.checks.len()
    &&& forall|i: int|
        0 <= i < upkeep.settled ==> tables.contains(#[trigger] upkeep.checks[i].table)
    &&& upkeep.creating ==> upkeep.settled < upkeep.checks.len() && !tables.contains(
        upkeep.checks[upkeep.settled as int].table,
    )
}

/// One statement of an upkeep keeps it in step with the storage, takes no
/// table away, and creates a table only where the storage did not hold it:
/// an upkeep may be run as often as one likes.
pub proof fn lemma_upkeep_step(upkeep: UpkeepModel, tables: Set<Seq<char>>)
    requires
        tended(upkeep, tables),
        upkeep.pending() is Some,
    ensures
        tended(upkeep.report(answer(upkeep, tables).0), answer(upkeep, tables).1),
        tables.subset_of(answer(upkeep, tables).1),
        upkeep.pending() matches Some(StepModel::Create(_)) ==> !tables.contains(
            upkeep.checks[upkeep.settled as int].table,
        ),
        upkeep.pending() matches Some(StepModel::Count(_)) ==> answer(upkeep, tables).1 == tables,
{
    let (event, after) = answer(upkeep, tables);
    let next = upkeep.report(event);
    assert forall|i: int| 0 <= i < next.settled implies after.contains(
        #[trigger] next.checks[i].table,
    ) by {
        if i < upkeep.settled {
            assert(tables.contains(upkeep.checks[i].table));
        }
    }
}

/// Once an upkeep has settled all its tables, they all exist.
pub proof fn lemma_upkeep_done(upkeep: UpkeepModel, tables: Set<Seq<char>>)
    requires
        tended(upkeep, tables),
        upkeep.pending() is None,
    ensures
        forall|i: int|
            0 <= i < upkeep.checks.len() ==> tables.contains(#[trigger] upkeep.checks[i].table),
{
}

} // verus!
