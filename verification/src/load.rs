//! Loading a table into a database: the requests to make, one after the other, and what
//! to do with the answer to each.

use crate::db::{
    ask, execute, query, read_table_exists, run, says_exists, table_exists,
    table_exists_request, DbReply, DbRequest, FailedAt, Reply, Request,
};
use crate::infer::{column_type, ColType};
use crate::number::{decimal, finite_bits, int_value, push_decimal, real_bits};
use crate::sql::{
    create_table_ddl, create_table_sql, drop_table_sql, drop_table_statement, insert_sql,
    insert_statement, table_info_sql, table_info_statement,
};
use crate::table::{column, law_tables_are_well_formed, table_of, LoadedTable, Table};
use crate::text::{blank, copy_of, texts, trimmed};
use crate::value::{
    field_to_value, law_fields_are_stored_as_the_inferred_type, value_of, values, SqlValue, Value,
};
use vstd::prelude::*;

verus! {

/// What to do when the target table already exists.
#[derive(Debug, Clone, Copy, PartialEq, Eq, Structural)]
pub enum IfExists {
    /// Error out (default).
    Fail,
    /// Drop and recreate the table.
    Replace,
    /// Keep the table and append rows (the number of columns must match).
    Append,
}

/// A step of loading a table.
#[derive(Debug, Clone, Copy, PartialEq, Eq, Structural)]
pub enum LoadTask {
    LookUp,
    CountColumns,
    Drop,
    Create,
    Begin,
    Prepare,
    Insert,
    Commit,
}

/// Why a table was not loaded.
#[derive(Debug, PartialEq, Eq)]
pub enum LoadError {
    /// The table exists already, and was not to be replaced or appended to.
    TableExists,
    /// The table to append to has another number of columns.
    ColumnCount { existing: usize, csv: usize },
    /// The database failed.
    Failed { doing: LoadTask, cause: String },
    /// The database's answer does not fit what it was asked.
    UnexpectedReply { doing: LoadTask },
}

/// A [`LoadError`] as text.
pub enum LoadFailure {
    TableExists,
    ColumnCount { existing: nat, csv: nat },
    Failed { doing: LoadTask, cause: Seq<char> },
    UnexpectedReply { doing: LoadTask },
}

impl View for LoadError {
    type V = LoadFailure;

    open spec fn view(&self) -> LoadFailure {
        match self {
            LoadError::TableExists => LoadFailure::TableExists,
            LoadError::ColumnCount { existing, csv } => LoadFailure::ColumnCount {
                existing: *existing as nat,
                csv: *csv as nat,
            },
            LoadError::Failed { doing, cause } => LoadFailure::Failed {
                doing: *doing,
                cause: cause@,
            },
            LoadError::UnexpectedReply { doing } => LoadFailure::UnexpectedReply { doing: *doing },
        }
    }
}

impl LoadTask {
    /// What a message about a failed step starts with: what was being done, where that needs
    /// saying.
    pub open spec fn prefix(self, table: Seq<char>) -> Seq<char> {
        match self {
            LoadTask::LookUp => Seq::empty(),
            LoadTask::CountColumns => Seq::empty(),
            LoadTask::Drop => "dropping existing table "@ + table + ": "@,
            LoadTask::Create => "creating table "@ + table + ": "@,
            LoadTask::Begin => "starting insert transaction: "@,
            LoadTask::Prepare => "preparing INSERT statement: "@,
            LoadTask::Insert => "inserting row: "@,
            LoadTask::Commit => "committing insert transaction: "@,
        }
    }

    fn start_message(self, table: &str) -> (r: String)
        ensures
            r@ == self.prefix(table@),
    {
        match self {
            LoadTask::LookUp => String::new(),
            LoadTask::CountColumns => String::new(),
            LoadTask::Drop => {
                let mut out = copy_of("dropping existing table ");
                out.append(table);
                out.append(": ");
                out
            },
            LoadTask::Create => {
                let mut out = copy_of("creating table ");
                out.append(table);
                out.append(": ");
                out
            },
            LoadTask::Begin => copy_of("starting insert transaction: "),
            LoadTask::Prepare => copy_of("preparing INSERT statement: "),
            LoadTask::Insert => copy_of("inserting row: "),
            LoadTask::Commit => copy_of("committing insert transaction: "),
        }
    }
}

impl LoadFailure {
    /// What went wrong, in words.
    pub open spec fn text(self, table: Seq<char>) -> Seq<char> {
        match self {
            LoadFailure::TableExists => "table \""@ + table
                + "\" already exists (use --if-exists replace|append)"@,
            LoadFailure::ColumnCount { existing, csv } => "cannot append to \""@ + table
                + "\": existing table has "@ + decimal(existing) + " columns but CSV has "@
                + decimal(csv),
            LoadFailure::Failed { doing, cause } => doing.prefix(table) + cause,
            LoadFailure::UnexpectedReply { doing } => doing.prefix(table)
                + "unexpected answer from the database"@,
        }
    }
}

impl LoadError {
    /// What went wrong while loading `table`, in words.
    pub fn message(&self, table: &str) -> (r: String)
        ensures
            r@ == self@.text(table@),
            self is TableExists ==> r@ == "table \""@ + table@
                + "\" already exists (use --if-exists replace|append)"@,
            self matches LoadError::ColumnCount { existing, csv } ==> r@ == "cannot append to \""@
                + table@ + "\": existing table has "@ + decimal(*existing as nat)
                + " columns but CSV has "@ + decimal(*csv as nat),
            self matches LoadError::Failed { doing, cause } ==> r@ == (match *doing {
                LoadTask::LookUp => Seq::empty(),
                LoadTask::CountColumns => Seq::empty(),
                LoadTask::Drop => "dropping existing table "@ + table@ + ": "@,
                LoadTask::Create => "creating table "@ + table@ + ": "@,
                LoadTask::Begin => "starting insert transaction: "@,
                LoadTask::Prepare => "preparing INSERT statement: "@,
                LoadTask::Insert => "inserting row: "@,
                LoadTask::Commit => "committing insert transaction: "@,
            }) + cause@,
    {
        match self {
            LoadError::TableExists => {
                let mut out = copy_of("table \"");
                out.append(table);
                out.append("\" already exists (use --if-exists replace|append)");
                out
            },
            LoadError::ColumnCount { existing, csv } => {
                let mut out = copy_of("cannot append to \"");
                out.append(table);
                out.append("\": existing table has ");
                push_decimal(&mut out, *existing as u64);
                out.append(" columns but CSV has ");
                push_decimal(&mut out, *csv as u64);
                out
            },
            LoadError::Failed { doing, cause } => {
                let mut out = doing.start_message(table);
                out.append(cause.as_str());
                out
            },
            LoadError::UnexpectedReply { doing } => {
                let mut out = doing.start_message(table);
                out.append("unexpected answer from the database");
                out
            },
        }
    }
}

/// The notice that a table was loaded.
pub open spec fn loaded_text(rows: nat, table: Seq<char>, columns: nat) -> Seq<char> {
    "Loaded "@ + decimal(rows) + " row(s) into table \""@ + table + "\" ("@ + decimal(columns)
        + " column(s))"@
}

/// Says that `rows` rows were loaded into a table.
pub fn loaded_notice(rows: usize, table: &LoadedTable) -> (r: String)
    ensures
        r@ == loaded_text(rows as nat, table@.name, table@.columns.len()),
        r@ == "Loaded "@ + decimal(rows as nat) + " row(s) into table \""@ + table.name@ + "\" ("@
            + decimal(table.columns@.len()) + " column(s))"@,
{
    let mut out = copy_of("Loaded ");
    push_decimal(&mut out, rows as u64);
    out.append(" row(s) into table \"");
    out.append(table.name.as_str());
    out.append("\" (");
    push_decimal(&mut out, table.columns.len() as u64);
    out.append(" column(s))");
    out
}

/// How far a load has come.
#[derive(Debug)]
enum LoadStage {
    LookUp,
    CountColumns,
    Drop,
    Create,
    Begin,
    Prepare,
    /// Inserting the row at this index.
    Insert(usize),
    Commit,
    /// Undoing the transaction after this error.
    Rollback(LoadError),
    /// Over: the number of rows inserted, or what went wrong.
    Finished(Result<usize, LoadError>),
}

/// How far a load has come, as text.
pub enum Stage {
    LookUp,
    CountColumns,
    Drop,
    Create,
    Begin,
    Prepare,
    Insert(nat),
    Commit,
    Rollback(LoadFailure),
    Loaded(nat),
    Refused(LoadFailure),
}

impl View for LoadStage {
    type V = Stage;

    closed spec fn view(&self) -> Stage {
        match self {
            LoadStage::LookUp => Stage::LookUp,
            LoadStage::CountColumns => Stage::CountColumns,
            LoadStage::Drop => Stage::Drop,
            LoadStage::Create => Stage::Create,
            LoadStage::Begin => Stage::Begin,
            LoadStage::Prepare => Stage::Prepare,
            LoadStage::Insert(i) => Stage::Insert(*i as nat),
            LoadStage::Commit => Stage::Commit,
            LoadStage::Rollback(e) => Stage::Rollback(e@),
            LoadStage::Finished(Ok(n)) => Stage::Loaded(*n as nat),
            LoadStage::Finished(Err(e)) => Stage::Refused(e@),
        }
    }
}

/// A load under way.
#[derive(Debug)]
pub struct LoadRun<'a> {
    table: &'a LoadedTable,
    if_exists: IfExists,
    stage: LoadStage,
}

/// What a [`LoadRun`] is about.
pub struct Load {
    pub table: Table,
    pub if_exists: IfExists,
    pub stage: Stage,
}

impl<'a> View for LoadRun<'a> {
    type V = Load;

    closed spec fn view(&self) -> Load {
        Load { table: self.table@, if_exists: self.if_exists, stage: self.stage@ }
    }
}

impl<'a> LoadRun<'a> {
    #[verifier::type_invariant]
    spec fn stage_exists(self) -> bool {
        self@.well_formed()
    }
}

/// The values of row `i` of a table: those of its fields that have a type.
pub open spec fn row_values(t: Table, i: int) -> Seq<Value> {
    let n = if t.rows[i].len() < t.types.len() {
        t.rows[i].len()
    } else {
        t.types.len()
    };
    Seq::new(n, |c: int| value_of(t.rows[i][c], t.types[c]))
}

/// The statement that starts the transaction.
pub open spec fn begin_sql() -> Seq<char> {
    "BEGIN DEFERRED"@
}

/// The statement that makes the transaction's changes last.
pub open spec fn commit_sql() -> Seq<char> {
    "COMMIT"@
}

/// The statement that undoes the transaction's changes.
pub open spec fn rollback_sql() -> Seq<char> {
    "ROLLBACK"@
}

impl Load {
    /// A load that begins.
    pub open spec fn start(table: Table, if_exists: IfExists) -> Load {
        Load { table, if_exists, stage: Stage::LookUp }
    }

    /// The same load at another stage.
    pub open spec fn at(self, stage: Stage) -> Load {
        Load { stage, ..self }
    }

    /// Is the load at a stage that it can be at?
    pub open spec fn well_formed(self) -> bool {
        self.stage matches Stage::Insert(i) ==> i < self.table.rows.len()
    }

    /// Is the load over?
    pub open spec fn is_over(self) -> bool {
        self.stage is Loaded || self.stage is Refused
    }

    /// The `INSERT` statement of the load.
    pub open spec fn insert_sql(self) -> Seq<char> {
        insert_sql(self.table.name, self.table.columns)
    }

    /// What the database is to be asked next.
    pub open spec fn request(self) -> Option<Request> {
        match self.stage {
            Stage::LookUp => Some(table_exists_request(self.table.name)),
            Stage::CountColumns => Some(query(table_info_sql(self.table.name))),
            Stage::Drop => Some(execute(drop_table_sql(self.table.name))),
            Stage::Create => Some(execute(create_table_sql(self.table))),
            Stage::Begin => Some(execute(begin_sql())),
            Stage::Prepare => Some(Request::Prepare { sql: self.insert_sql() }),
            Stage::Insert(i) => Some(
                Request::Execute {
                    sql: self.insert_sql(),
                    values: row_values(self.table, i as int),
                },
            ),
            Stage::Commit => Some(execute(commit_sql())),
            Stage::Rollback(_) => Some(execute(rollback_sql())),
            Stage::Loaded(_) => None,
            Stage::Refused(_) => None,
        }
    }

    /// The stage at which the rows from index `i` on are left to insert.
    pub open spec fn rows_left(self, i: nat) -> Stage {
        if i < self.table.rows.len() {
            Stage::Insert(i)
        } else {
            Stage::Commit
        }
    }

    /// The step that the load is at.
    pub open spec fn doing(self) -> LoadTask {
        match self.stage {
            Stage::LookUp => LoadTask::LookUp,
            Stage::CountColumns => LoadTask::CountColumns,
            Stage::Drop => LoadTask::Drop,
            Stage::Create => LoadTask::Create,
            Stage::Begin => LoadTask::Begin,
            Stage::Prepare => LoadTask::Prepare,
            Stage::Insert(_) => LoadTask::Insert,
            _ => LoadTask::Commit,
        }
    }

    /// What an answer that is no success means for the load.
    pub open spec fn failure(self, reply: Reply) -> LoadFailure {
        match reply {
            Reply::Failed { at, cause } => LoadFailure::Failed { doing: self.doing(), cause },
            _ => LoadFailure::UnexpectedReply { doing: self.doing() },
        }
    }

    /// The stage that follows the answer of the database.
    ///
    /// A table that exists is refused, replaced or, where the number of columns agrees,
    /// appended to; one that does not is created. Then all rows are inserted in one
    /// transaction. A failure inside the transaction undoes it.
    pub open spec fn next_stage(self, reply: Reply) -> Stage {
        match self.stage {
            Stage::LookUp => match reply {
                Reply::Rows { headers, rows } => match says_exists(rows) {
                    Some(true) => match self.if_exists {
                        IfExists::Fail => Stage::Refused(LoadFailure::TableExists),
                        IfExists::Replace => Stage::Drop,
                        IfExists::Append => Stage::CountColumns,
                    },
                    Some(false) => Stage::Create,
                    None => Stage::Refused(self.failure(reply)),
                },
                _ => Stage::Refused(self.failure(reply)),
            },
            Stage::CountColumns => match reply {
                Reply::Rows { headers, rows } => if rows.len() == self.table.columns.len() {
                    Stage::Begin
                } else {
                    Stage::Refused(
                        LoadFailure::ColumnCount {
                            existing: rows.len(),
                            csv: self.table.columns.len(),
                        },
                    )
                },
                _ => Stage::Refused(self.failure(reply)),
            },
            Stage::Drop => if reply is Done {
                Stage::Create
            } else {
                Stage::Refused(self.failure(reply))
            },
            Stage::Create => if reply is Done {
                Stage::Begin
            } else {
                Stage::Refused(self.failure(reply))
            },
            Stage::Begin => if reply is Done {
                Stage::Prepare
            } else {
                Stage::Refused(self.failure(reply))
            },
            Stage::Prepare => if reply is Done {
                self.rows_left(0)
            } else {
                Stage::Rollback(self.failure(reply))
            },
            Stage::Insert(i) => if reply is Done {
                self.rows_left(i + 1)
            } else {
                Stage::Rollback(self.failure(reply))
            },
            Stage::Commit => if reply is Done {
                Stage::Loaded(self.table.rows.len())
            } else {
                Stage::Rollback(self.failure(reply))
            },
            Stage::Rollback(e) => Stage::Refused(e),
            Stage::Loaded(_) => self.stage,
            Stage::Refused(_) => self.stage,
        }
    }

    /// The load after the answer of the database.
    pub open spec fn after(self, reply: Reply) -> Load {
        self.at(self.next_stage(reply))
    }
}

/// Starts loading a table: creates it, respecting `if_exists`, and inserts every row
/// inside a single transaction.
pub fn load_table_into_db<'a>(table: &'a LoadedTable, if_exists: IfExists) -> (r: LoadRun<'a>)
    ensures
        r@ == Load::start(table@, if_exists),
{
    LoadRun { table, if_exists, stage: LoadStage::LookUp }
}

fn bind_row(table: &LoadedTable, i: usize) -> (r: Vec<SqlValue>)
    requires
        i < table@.rows.len(),
    ensures
        values(r@) == row_values(table@, i as int),
{
    let ghost full = row_values(table@, i as int);
    let row = &table.rows[i];
    assert(table@.rows[i as int] == texts(row@));
    let mut bound: Vec<SqlValue> = Vec::new();
    let mut c: usize = 0;
    while c < row.len() && c < table.types.len()
        invariant
            c <= full.len(),
            full == row_values(table@, i as int),
            table@.rows[i as int] == texts(row@),
            values(bound@) == full.take(c as int),
        decreases row@.len() - c,
    {
        let value = field_to_value(row[c].as_str(), table.types[c]);
        let ghost before = bound@;
        bound.push(value);
        assert(values(bound@) =~= values(before).push(value@));
        assert(full.take(c + 1) =~= full.take(c as int).push(value@));
        c += 1;
    }
    assert(full.take(full.len() as int) == full);
    bound
}

fn failure_of(doing: LoadTask, reply: DbReply) -> (r: LoadError)
    ensures
        r@ == (match reply@ {
            Reply::Failed { at, cause } => LoadFailure::Failed { doing, cause },
            _ => LoadFailure::UnexpectedReply { doing },
        }),
{
    match reply {
        DbReply::Failed { at: _, cause } => LoadError::Failed { doing, cause },
        _ => LoadError::UnexpectedReply { doing },
    }
}

impl<'a> LoadRun<'a> {
    /// What to ask the database next; `None` when the load is over.
    pub fn request(&self) -> (r: Option<DbRequest>)
        ensures
            r is Some <==> self@.request() is Some,
            r matches Some(request) ==> self@.request() == Some(request@),
    {
        proof {
            use_type_invariant(self);
        }
        let name = self.table.name.as_str();
        match &self.stage {
            LoadStage::LookUp => Some(table_exists(name)),
            LoadStage::CountColumns => Some(ask(table_info_statement(name))),
            LoadStage::Drop => Some(run(drop_table_statement(name))),
            LoadStage::Create => Some(run(create_table_ddl(self.table))),
            LoadStage::Begin => Some(run(copy_of("BEGIN DEFERRED"))),
            LoadStage::Prepare => Some(
                DbRequest::Prepare { sql: insert_statement(name, self.table.columns.as_slice()) },
            ),
            LoadStage::Insert(i) => Some(
                DbRequest::Execute {
                    sql: insert_statement(name, self.table.columns.as_slice()),
                    values: bind_row(self.table, *i),
                },
            ),
            LoadStage::Commit => Some(run(copy_of("COMMIT"))),
            LoadStage::Rollback(_) => Some(run(copy_of("ROLLBACK"))),
            LoadStage::Finished(_) => None,
        }
    }

    /// Goes on with the database's answer to the last request.
    pub fn answer(self, reply: DbReply) -> (r: LoadRun<'a>)
        ensures
            r@ == self@.after(reply@),
    {
        proof {
            use_type_invariant(&self);
        }
        let table = self.table;
        let if_exists = self.if_exists;
        let n = table.rows.len();
        assert(table@.rows.len() == n);
        let stage = match self.stage {
            LoadStage::LookUp => match reply {
                DbReply::Rows { headers, rows } => match read_table_exists(&rows) {
                    Some(true) => match if_exists {
                        IfExists::Fail => LoadStage::Finished(Err(LoadError::TableExists)),
                        IfExists::Replace => LoadStage::Drop,
                        IfExists::Append => LoadStage::CountColumns,
                    },
                    Some(false) => LoadStage::Create,
                    None => LoadStage::Finished(
                        Err(LoadError::UnexpectedReply { doing: LoadTask::LookUp }),
                    ),
                },
                other => LoadStage::Finished(Err(failure_of(LoadTask::LookUp, other))),
            },
            LoadStage::CountColumns => match reply {
                DbReply::Rows { headers, rows } => if rows.len() == table.columns.len() {
                    LoadStage::Begin
                } else {
                    LoadStage::Finished(
                        Err(
                            LoadError::ColumnCount {
                                existing: rows.len(),
                                csv: table.columns.len(),
                            },
                        ),
                    )
                },
                other => LoadStage::Finished(Err(failure_of(LoadTask::CountColumns, other))),
            },
            LoadStage::Drop => match reply {
                DbReply::Done => LoadStage::Create,
                other => LoadStage::Finished(Err(failure_of(LoadTask::Drop, other))),
            },
            LoadStage::Create => match reply {
                DbReply::Done => LoadStage::Begin,
                other => LoadStage::Finished(Err(failure_of(LoadTask::Create, other))),
            },
            LoadStage::Begin => match reply {
                DbReply::Done => LoadStage::Prepare,
                other => LoadStage::Finished(Err(failure_of(LoadTask::Begin, other))),
            },
            LoadStage::Prepare => match reply {
                DbReply::Done => if n > 0 {
                    LoadStage::Insert(0)
                } else {
                    LoadStage::Commit
                },
                other => LoadStage::Rollback(failure_of(LoadTask::Prepare, other)),
            },
            LoadStage::Insert(i) => match reply {
                DbReply::Done => if i + 1 < n {
                    LoadStage::Insert(i + 1)
                } else {
                    LoadStage::Commit
                },
                other => LoadStage::Rollback(failure_of(LoadTask::Insert, other)),
            },
            LoadStage::Commit => match reply {
                DbReply::Done => LoadStage::Finished(Ok(n)),
                other => LoadStage::Rollback(failure_of(LoadTask::Commit, other)),
            },
            LoadStage::Rollback(e) => LoadStage::Finished(Err(e)),
            LoadStage::Finished(result) => LoadStage::Finished(result),
        };
        LoadRun { table, if_exists, stage }
    }

    /// How the load ended: the number of rows inserted, or why there are none. `None`
    /// while it is under way.
    pub fn outcome(self) -> (r: Option<Result<usize, LoadError>>)
        ensures
            r is Some <==> self@.is_over(),
            r matches Some(Ok(n)) ==> self@.stage == Stage::Loaded(n as nat),
            r matches Some(Err(e)) ==> self@.stage == Stage::Refused(e@),
    {
        match self.stage {
            LoadStage::Finished(result) => Some(result),
            _ => None,
        }
    }
}

// ---------------------------------------------------------------------------
// Whole loads
// ---------------------------------------------------------------------------

impl Load {
    /// The load after these answers, one after the other.
    pub open spec fn after_all(self, replies: Seq<Reply>) -> Load
        decreases replies.len(),
    {
        if self.is_over() || replies.len() == 0 {
            self
        } else {
            self.after(replies[0]).after_all(replies.drop_first())
        }
    }

    /// What the database is asked in a load that gets these answers, from here on and up
    /// to the last answer.
    pub open spec fn asked(self, replies: Seq<Reply>) -> Seq<Request>
        decreases replies.len(),
    {
        if self.is_over() || replies.len() == 0 {
            Seq::empty()
        } else {
            seq![self.request()->0] + self.after(replies[0]).asked(replies.drop_first())
        }
    }

    /// How many answers a load needs at most before it is over.
    pub open spec fn steps_left(self) -> int {
        let n = self.table.rows.len() as int;
        match self.stage {
            Stage::LookUp => n + 7,
            Stage::CountColumns => n + 5,
            Stage::Drop => n + 6,
            Stage::Create => n + 5,
            Stage::Begin => n + 4,
            Stage::Prepare => n + 3,
            Stage::Insert(i) => n - i + 2,
            Stage::Commit => 2,
            Stage::Rollback(_) => 1,
            Stage::Loaded(_) => 0,
            Stage::Refused(_) => 0,
        }
    }

    /// Is the transaction open?
    pub open spec fn in_transaction(self) -> bool {
        self.stage is Prepare || self.stage is Insert || self.stage is Commit
            || self.stage is Rollback
    }
}

/// The requests that insert the rows from index `i` on.
pub open spec fn inserts_from(t: Table, i: int) -> Seq<Request> {
    Seq::new(
        (t.rows.len() - i) as nat,
        |k: int|
            Request::Execute { sql: insert_sql(t.name, t.columns), values: row_values(t, i + k) },
    )
}

/// The transaction that inserts all rows.
pub open spec fn insertion(t: Table) -> Seq<Request> {
    seq![execute(begin_sql()), Request::Prepare { sql: insert_sql(t.name, t.columns) }]
        + inserts_from(t, 0) + seq![execute(commit_sql())]
}

/// What comes before the transaction, where the table exists or does not.
pub open spec fn preparation(t: Table, if_exists: IfExists, exists: bool) -> Seq<Request> {
    let look_up = table_exists_request(t.name);
    let create = execute(create_table_sql(t));
    if !exists {
        seq![look_up, create]
    } else if if_exists == IfExists::Replace {
        seq![look_up, execute(drop_table_sql(t.name)), create]
    } else {
        seq![look_up, query(table_info_sql(t.name))]
    }
}

proof fn lemma_stops(load: Load, replies: Seq<Reply>)
    requires
        load.is_over() || replies.len() == 0,
    ensures
        load.after_all(replies) == load,
        load.asked(replies) == Seq::<Request>::empty(),
{
}

proof fn lemma_step(load: Load, replies: Seq<Reply>)
    requires
        !load.is_over(),
        replies.len() > 0,
    ensures
        load.after_all(replies) == load.after(replies[0]).after_all(replies.drop_first()),
        load.asked(replies) == seq![load.request()->0] + load.after(replies[0]).asked(
            replies.drop_first(),
        ),
{
}

proof fn lemma_rollback_ends(load: Load, replies: Seq<Reply>)
    requires
        load.stage is Rollback,
    ensures
        !(load.after_all(replies).stage is Loaded),
        replies.len() > 0 ==> load.asked(replies) == seq![execute(rollback_sql())],
{
    if replies.len() > 0 {
        lemma_step(load, replies);
        lemma_stops(load.after(replies[0]), replies.drop_first());
        assert(load.asked(replies) =~= seq![execute(rollback_sql())]);
    } else {
        lemma_stops(load, replies);
    }
}

/// Are the answers from index `from` up to `to` all there, and say that what was asked is done?
pub open spec fn all_done(replies: Seq<Reply>, from: int, to: int) -> bool {
    &&& 0 <= from <= to <= replies.len()
    &&& forall|k: int| from <= k < to ==> #[trigger] replies[k] is Done
}

proof fn lemma_all_done_step(replies: Seq<Reply>, n: int)
    requires
        replies.len() > 0,
        replies[0] is Done,
        all_done(replies.drop_first(), 0, n),
    ensures
        all_done(replies, 0, n + 1),
{
    assert forall|k: int| 0 <= k < n + 1 implies #[trigger] replies[k] is Done by {
        if k > 0 {
            assert(replies.drop_first()[k - 1] is Done);
        }
    }
}

proof fn lemma_inserts_then_commit(load: Load, replies: Seq<Reply>)
    requires
        load.well_formed(),
        load.stage is Insert || load.stage is Commit,
        load.after_all(replies).stage is Loaded,
    ensures
        load.after_all(replies).stage == Stage::Loaded(load.table.rows.len()),
        load.asked(replies) == inserts_from(
            load.table,
            match load.stage {
                Stage::Insert(i) => i as int,
                _ => load.table.rows.len() as int,
            },
        ) + seq![execute(commit_sql())],
        all_done(replies, 0, load.asked(replies).len() as int),
    decreases replies.len(),
{
    if replies.len() == 0 {
        lemma_stops(load, replies);
    }
    lemma_step(load, replies);
    let rest = replies.drop_first();
    let next = load.after(replies[0]);
    if next.stage is Rollback {
        lemma_rollback_ends(next, rest);
    }
    match load.stage {
        Stage::Insert(i) => {
            lemma_inserts_then_commit(next, rest);
            let first = seq![load.request()->0];
            let commit = seq![execute(commit_sql())];
            assert(inserts_from(load.table, i as int) =~= first + inserts_from(
                load.table,
                i as int + 1,
            ));
            assert(load.asked(replies) =~= inserts_from(load.table, i as int) + commit);
            lemma_all_done_step(replies, next.asked(rest).len() as int);
        },
        _ => {
            lemma_stops(next, rest);
            assert(load.asked(replies) =~= inserts_from(
                load.table,
                load.table.rows.len() as int,
            ) + seq![execute(commit_sql())]);
        },
    }
}

proof fn lemma_transaction(load: Load, replies: Seq<Reply>)
    requires
        load.stage is Begin,
        load.after_all(replies).stage is Loaded,
    ensures
        load.after_all(replies).stage == Stage::Loaded(load.table.rows.len()),
        load.asked(replies) == insertion(load.table),
        all_done(replies, 0, load.asked(replies).len() as int),
{
    if replies.len() == 0 {
        lemma_stops(load, replies);
    }
    lemma_step(load, replies);
    let opened = load.after(replies[0]);
    let rest = replies.drop_first();
    if rest.len() == 0 || opened.is_over() {
        lemma_stops(opened, rest);
    }
    lemma_step(opened, rest);
    let prepared = opened.after(rest[0]);
    let last = rest.drop_first();
    if prepared.stage is Rollback {
        lemma_rollback_ends(prepared, last);
    }
    lemma_inserts_then_commit(prepared, last);
    if prepared.stage is Commit {
        assert(inserts_from(load.table, 0) =~= inserts_from(
            load.table,
            load.table.rows.len() as int,
        ));
    }
    assert(load.asked(replies) =~= insertion(load.table));
    lemma_all_done_step(rest, prepared.asked(last).len() as int);
    lemma_all_done_step(replies, opened.asked(rest).len() as int);
}

/// A load that succeeds has, whatever the database answered on the way, asked whether the
/// table exists, made way for it as told, and then inserted every row, in order, inside one
/// transaction that was committed; and it reports the number of rows. All of that was done with
/// success: the table was dropped and created where it had to be, and one that was appended to
/// has the right number of columns.
pub proof fn law_success_means_all_rows_in_one_transaction(
    table: Table,
    if_exists: IfExists,
    replies: Seq<Reply>,
)
    requires
        Load::start(table, if_exists).after_all(replies).stage is Loaded,
    ensures
        Load::start(table, if_exists).after_all(replies).stage == Stage::Loaded(table.rows.len()),
        replies[0] matches Reply::Rows { headers, rows } && {
            &&& says_exists(rows) is Some
            &&& says_exists(rows) == Some(true) ==> if_exists != IfExists::Fail
            &&& Load::start(table, if_exists).asked(replies) == preparation(
                table,
                if_exists,
                says_exists(rows)->0,
            ) + insertion(table)
            &&& all_done(
                replies,
                preparation(table, if_exists, says_exists(rows)->0).len() as int,
                Load::start(table, if_exists).asked(replies).len() as int,
            )
            &&& if says_exists(rows) == Some(true) && if_exists == IfExists::Append {
                replies[1] matches Reply::Rows { headers: _, rows: existing } && existing.len()
                    == table.columns.len()
            } else {
                all_done(replies, 1, Load::start(table, if_exists).asked(replies).len() as int)
            }
        },
{
    let start = Load::start(table, if_exists);
    if replies.len() == 0 {
        lemma_stops(start, replies);
    }
    lemma_step(start, replies);
    let one = start.after(replies[0]);
    let r1 = replies.drop_first();
    if r1.len() == 0 || one.is_over() {
        lemma_stops(one, r1);
    }
    lemma_step(one, r1);
    let two = one.after(r1[0]);
    let r2 = r1.drop_first();
    if r2.len() == 0 || two.is_over() {
        lemma_stops(two, r2);
    }
    if one.stage is Drop {
        lemma_step(two, r2);
        let three = two.after(r2[0]);
        let r3 = r2.drop_first();
        if r3.len() == 0 || three.is_over() {
            lemma_stops(three, r3);
        }
        lemma_transaction(three, r3);
        assert forall|k: int| 3 <= k < 3 + three.asked(r3).len() implies #[trigger] replies[k]
            is Done by {
            assert(replies[k] == r3[k - 3]);
        }
        assert(replies[1] == r1[0] && replies[2] == r2[0]);
        assert(start.asked(replies) =~= preparation(table, if_exists, true) + insertion(table));
    } else {
        lemma_transaction(two, r2);
        assert forall|k: int| 2 <= k < 2 + two.asked(r2).len() implies #[trigger] replies[k]
            is Done by {
            assert(replies[k] == r2[k - 2]);
        }
        assert(replies[1] == r1[0]);
        assert(start.asked(replies) =~= preparation(table, if_exists, one.stage is CountColumns)
            + insertion(table));
    }
}

proof fn lemma_insert_all(load: Load, replies: Seq<Reply>)
    requires
        load.well_formed(),
        load.stage is Begin || load.stage is Prepare || load.stage is Insert || load.stage
            is Commit,
        replies.len() >= load.steps_left() - 1,
        forall|i: int| 0 <= i < replies.len() ==> #[trigger] replies[i] is Done,
    ensures
        load.after_all(replies).stage == Stage::Loaded(load.table.rows.len()),
    decreases replies.len(),
{
    lemma_step(load, replies);
    assert(replies[0] is Done);
    let next = load.after(replies[0]);
    let rest = replies.drop_first();
    if next.is_over() {
        lemma_stops(next, rest);
    } else {
        assert forall|i: int| 0 <= i < rest.len() implies #[trigger] rest[i] is Done by {
            assert(rest[i] == replies[i + 1]);
        }
        lemma_insert_all(next, rest);
    }
}

/// Where the database does all that it is asked, every row is loaded: into a new table, into
/// one that is replaced, or into one that has the number of columns to append to.
pub proof fn law_good_answers_load_every_row(
    table: Table,
    if_exists: IfExists,
    replies: Seq<Reply>,
    exists: bool,
)
    requires
        replies.len() >= Load::start(table, if_exists).steps_left(),
        replies[0] matches Reply::Rows { headers, rows } && says_exists(rows) == Some(exists),
        exists ==> if_exists != IfExists::Fail,
        exists && if_exists == IfExists::Append ==> (replies[1] matches Reply::Rows {
            headers,
            rows,
        } && rows.len() == table.columns.len()),
        !(exists && if_exists == IfExists::Append) ==> replies[1] is Done,
        forall|i: int| 2 <= i < replies.len() ==> #[trigger] replies[i] is Done,
    ensures
        Load::start(table, if_exists).after_all(replies).stage == Stage::Loaded(table.rows.len()),
{
    let start = Load::start(table, if_exists);
    lemma_step(start, replies);
    let one = start.after(replies[0]);
    let r1 = replies.drop_first();
    assert(r1[0] == replies[1]);
    lemma_step(one, r1);
    let two = one.after(r1[0]);
    let r2 = r1.drop_first();
    assert forall|i: int| 0 <= i < r2.len() implies #[trigger] r2[i] is Done by {
        assert(r2[i] == replies[i + 2]);
    }
    if two.stage is Create {
        lemma_step(two, r2);
        assert(r2[0] is Done);
        let three = two.after(r2[0]);
        let r3 = r2.drop_first();
        assert forall|i: int| 0 <= i < r3.len() implies #[trigger] r3[i] is Done by {
            assert(r3[i] == r2[i + 1]);
        }
        lemma_insert_all(three, r3);
    } else {
        lemma_insert_all(two, r2);
    }
}

/// Do these requests, made inside a transaction and answered so, end by undoing it, without
/// having ended it before?
pub open spec fn undone(requests: Seq<Request>, replies: Seq<Reply>) -> bool {
    &&& 0 < requests.len() <= replies.len()
    &&& requests.last() == execute(rollback_sql())
    &&& forall|k: int|
        0 <= k < requests.len() - 1 ==> #[trigger] requests[k] != execute(rollback_sql())
    &&& forall|k: int|
        0 <= k < requests.len() && #[trigger] requests[k] == execute(commit_sql()) ==> !(replies[k]
            is Done)
}

proof fn lemma_requests_differ(load: Load)
    requires
        load.request() is Some,
    ensures
        inserts_into(load.table, load.request()->0) <==> load.stage is Insert,
        load.request()->0 == execute(commit_sql()) <==> load.stage is Commit,
        load.request()->0 == execute(rollback_sql()) <==> load.stage is Rollback,
{
    reveal_strlit("INSERT INTO ");
    reveal_strlit("DROP TABLE ");
    reveal_strlit("CREATE TABLE ");
    reveal_strlit("BEGIN DEFERRED");
    reveal_strlit("COMMIT");
    reveal_strlit("ROLLBACK");
    let t = load.table;
    assert(insert_sql(t.name, t.columns)[0] == 'I');
    assert(drop_table_sql(t.name)[0] == 'D');
    assert(create_table_sql(t)[0] == 'C' && create_table_sql(t)[1] == 'R');
    assert(begin_sql()[0] == 'B');
    assert(commit_sql()[0] == 'C' && commit_sql()[1] == 'O');
    assert(rollback_sql()[0] == 'R');
}

/// Once the transaction is open, a load that fails ends by undoing it, and nothing that it did
/// there was made to last before.
pub proof fn law_failure_in_the_transaction_rolls_back(load: Load, replies: Seq<Reply>)
    requires
        load.in_transaction(),
        load.after_all(replies).stage is Refused,
    ensures
        undone(load.asked(replies), replies),
    decreases replies.len(),
{
    if replies.len() == 0 {
        lemma_stops(load, replies);
    }
    lemma_step(load, replies);
    lemma_requests_differ(load);
    let next = load.after(replies[0]);
    let rest = replies.drop_first();
    if load.stage is Rollback {
        lemma_rollback_ends(load, replies);
    } else {
        if next.stage is Loaded {
            lemma_stops(next, rest);
        }
        law_failure_in_the_transaction_rolls_back(next, rest);
        let asked = load.asked(replies);
        let later = next.asked(rest);
        assert forall|k: int| 0 <= k < asked.len() - 1 implies #[trigger] asked[k] != execute(
            rollback_sql(),
        ) by {
            if k > 0 {
                assert(asked[k] == later[k - 1]);
            }
        }
        assert forall|k: int|
            0 <= k < asked.len() && #[trigger] asked[k] == execute(commit_sql()) implies !(
        replies[k] is Done) by {
            if k > 0 {
                assert(asked[k] == later[k - 1]);
                assert(replies[k] == rest[k - 1]);
            }
        }
    }
}

/// Does the request insert a row into the table?
pub open spec fn inserts_into(t: Table, request: Request) -> bool {
    request matches Request::Execute { sql, values } && sql == insert_sql(t.name, t.columns)
}

/// Do the first `n` requests insert no row?
pub open spec fn no_inserts(t: Table, requests: Seq<Request>, n: int) -> bool {
    forall|k: int| 0 <= k < n ==> !inserts_into(t, #[trigger] requests[k])
}

/// Does the request at index `b` open a transaction that all later ones belong to, and that
/// they undo?
pub open spec fn undone_from(requests: Seq<Request>, replies: Seq<Reply>, b: int) -> bool {
    &&& 0 <= b < requests.len()
    &&& b < replies.len()
    &&& requests[b] == execute(begin_sql())
    &&& replies[b] is Done
    &&& undone(requests.skip(b + 1), replies.skip(b + 1))
}

/// Do requests that are answered so leave no row behind? Either none of them inserts one, or
/// all that do come after one that opened a transaction, which the last one undoes and which
/// was not committed before.
pub open spec fn leaves_no_rows(
    t: Table,
    requests: Seq<Request>,
    replies: Seq<Reply>,
) -> bool {
    ||| no_inserts(t, requests, requests.len() as int)
    ||| exists|b: int| #[trigger] undone_from(requests, replies, b) && no_inserts(t, requests, b)
}

proof fn lemma_refused_leaves_no_rows(load: Load, replies: Seq<Reply>)
    requires
        load.after_all(replies).stage is Refused,
        !load.in_transaction(),
    ensures
        leaves_no_rows(load.table, load.asked(replies), replies),
    decreases replies.len(),
{
    if load.is_over() || replies.len() == 0 {
        lemma_stops(load, replies);
    } else {
        let next = load.after(replies[0]);
        let rest = replies.drop_first();
        lemma_step(load, replies);
        lemma_requests_differ(load);
        let asked = load.asked(replies);
        let later = next.asked(rest);
        assert(asked.skip(1) =~= later);
        assert(replies.skip(1) =~= rest);
        assert forall|k: int| 0 < k < asked.len() implies #[trigger] asked[k] == later[k - 1] by {
        }
        if next.in_transaction() {
            law_failure_in_the_transaction_rolls_back(next, rest);
            assert(undone_from(asked, replies, 0));
        } else {
            lemma_refused_leaves_no_rows(next, rest);
            if !no_inserts(load.table, later, later.len() as int) {
                let b = choose|b: int| #[trigger]
                    undone_from(later, rest, b) && no_inserts(load.table, later, b);
                assert(asked.skip(b + 2) =~= later.skip(b + 1));
                assert(replies.skip(b + 2) =~= rest.skip(b + 1));
                assert(undone_from(asked, replies, b + 1));
                assert(no_inserts(load.table, asked, b + 1));
            }
        }
    }
}

/// Loads are atomic: one that does not succeed has inserted no row, or did so inside a
/// transaction that it ends by undoing, and of which nothing was made to last before.
pub proof fn law_loads_are_atomic(table: Table, if_exists: IfExists, replies: Seq<Reply>)
    requires
        Load::start(table, if_exists).after_all(replies).stage is Refused,
    ensures
        leaves_no_rows(table, Load::start(table, if_exists).asked(replies), replies),
{
    lemma_refused_leaves_no_rows(Load::start(table, if_exists), replies);
}

/// A table that exists is refused unless it is to be replaced or appended to; nothing but
/// the question whether it exists has then been asked.
pub proof fn law_existing_table_is_refused_untouched(table: Table, replies: Seq<Reply>)
    requires
        replies.len() > 0,
        replies[0] matches Reply::Rows { headers, rows } && says_exists(rows) == Some(true),
    ensures
        Load::start(table, IfExists::Fail).after_all(replies).stage == Stage::Refused(
            LoadFailure::TableExists,
        ),
        Load::start(table, IfExists::Fail).asked(replies) == seq![table_exists_request(table.name)],
{
    let start = Load::start(table, IfExists::Fail);
    lemma_step(start, replies);
    lemma_stops(start.after(replies[0]), replies.drop_first());
    assert(start.asked(replies) =~= seq![table_exists_request(table.name)]);
}

/// Appending to a table with another number of columns is refused; the database has then
/// been asked questions only.
pub proof fn law_append_needs_the_same_number_of_columns(table: Table, replies: Seq<Reply>)
    requires
        replies.len() > 1,
        replies[0] matches Reply::Rows { headers, rows } && says_exists(rows) == Some(true),
        replies[1] matches Reply::Rows { headers, rows } && rows.len() != table.columns.len(),
    ensures
        Load::start(table, IfExists::Append).after_all(replies).stage == Stage::Refused(
            LoadFailure::ColumnCount {
                existing: (replies[1]->rows).len(),
                csv: table.columns.len(),
            },
        ),
        Load::start(table, IfExists::Append).asked(replies) == seq![
            table_exists_request(table.name),
            query(table_info_sql(table.name)),
        ],
{
    let start = Load::start(table, IfExists::Append);
    lemma_step(start, replies);
    let one = start.after(replies[0]);
    let r1 = replies.drop_first();
    assert(r1[0] == replies[1]);
    lemma_step(one, r1);
    lemma_stops(one.after(r1[0]), r1.drop_first());
    assert(start.asked(replies) =~= seq![
        table_exists_request(table.name),
        query(table_info_sql(table.name)),
    ]);
}

/// A table is dropped only where it is to be replaced and exists.
pub proof fn law_only_an_existing_table_to_replace_is_dropped(
    table: Table,
    if_exists: IfExists,
    replies: Seq<Reply>,
)
    requires
        Load::start(table, if_exists).after_all(replies).stage is Drop,
    ensures
        if_exists == IfExists::Replace,
        replies.len() == 1,
        replies[0] matches Reply::Rows { headers, rows } && says_exists(rows) == Some(true),
{
    let start = Load::start(table, if_exists);
    if replies.len() == 0 {
        lemma_stops(start, replies);
    }
    lemma_step(start, replies);
    let next = start.after(replies[0]);
    let rest = replies.drop_first();
    if !(next.stage is Drop) {
        lemma_never_drops(next, rest);
    } else if rest.len() > 0 {
        lemma_step(next, rest);
        lemma_never_drops(next.after(rest[0]), rest.drop_first());
    }
}

proof fn lemma_never_drops(load: Load, replies: Seq<Reply>)
    requires
        !(load.stage is LookUp),
        !(load.stage is Drop),
    ensures
        !(load.after_all(replies).stage is Drop),
    decreases replies.len(),
{
    if load.is_over() || replies.len() == 0 {
        lemma_stops(load, replies);
    } else {
        lemma_step(load, replies);
        lemma_never_drops(load.after(replies[0]), replies.drop_first());
    }
}

/// A well-formed table's rows bind one value per column, so that every parameter of the
/// `INSERT` statement gets one.
pub proof fn law_rows_bind_one_value_per_column(table: Table, i: int)
    requires
        table.well_formed(),
        0 <= i < table.rows.len(),
    ensures
        row_values(table, i).len() == table.columns.len(),
{
}

/// Of a table that was read from CSV, every field is stored as its column's type says: NULL
/// exactly where it is blank, else an integer, a finite real or the text itself.
pub proof fn law_values_have_the_type_of_their_column(
    records: Seq<Option<Seq<Seq<char>>>>,
    name: Seq<char>,
    has_header: bool,
    i: int,
    c: int,
)
    requires
        0 <= i < table_of(records, name, has_header).rows.len(),
        0 <= c < table_of(records, name, has_header).columns.len(),
    ensures
        ({
            let table = table_of(records, name, has_header);
            let field = table.rows[i][c];
            let value = row_values(table, i)[c];
            &&& blank(field) <==> value == Value::Null
            &&& !blank(field) ==> match table.types[c] {
                ColType::Integer => int_value(trimmed(field)) matches Some(n) && value
                    == Value::Integer(n as int),
                ColType::Real => value == Value::Real(real_bits(trimmed(field))) && finite_bits(
                    real_bits(trimmed(field)),
                ),
                ColType::Text => value == Value::Text(field),
            }
        }),
{
    let table = table_of(records, name, has_header);
    law_tables_are_well_formed(records, name, has_header);
    let fields = column(table.rows, c);
    assert(table.types[c] == column_type(fields));
    assert(fields[i] == table.rows[i][c]);
    law_fields_are_stored_as_the_inferred_type(fields, i);
}

/// Every load is over after a number of answers that the number of rows bounds.
pub proof fn law_every_load_ends(load: Load, replies: Seq<Reply>)
    requires
        load.well_formed(),
        replies.len() >= load.steps_left(),
    ensures
        load.after_all(replies).is_over(),
    decreases replies.len(),
{
    if !load.is_over() {
        let next = load.after(replies[0]);
        assert(next.steps_left() < load.steps_left());
        law_every_load_ends(next, replies.drop_first());
    }
}

// ---------------------------------------------------------------------------
// Loads, request by request
// ---------------------------------------------------------------------------

/// A row binds the value of each of its fields that has a type, in order: the one that the
/// field is stored as in a column of that type.
pub proof fn law_values_of_a_row(t: Table, i: int)
    requires
        0 <= i < t.rows.len(),
    ensures
        row_values(t, i).len() <= t.rows[i].len(),
        row_values(t, i).len() <= t.types.len(),
        row_values(t, i).len() == t.rows[i].len() || row_values(t, i).len() == t.types.len(),
        forall|c: int|
            0 <= c < row_values(t, i).len() ==> #[trigger] row_values(t, i)[c] == value_of(
                t.rows[i][c],
                t.types[c],
            ),
{
}

/// All requests of a load that succeeds, one by one. First the question whether the table
/// exists. Then, where it does not, its creation; where it is to be replaced, its end and its
/// creation; where it is to be appended to, the question for its columns. Then the start of a
/// transaction, the `INSERT` statement, one run of it per row, in the order of the rows and with
/// the values of that very row, and the end of the transaction; nothing else. Every statement
/// was carried out.
pub proof fn law_requests_of_a_load(table: Table, if_exists: IfExists, replies: Seq<Reply>)
    requires
        Load::start(table, if_exists).after_all(replies).stage is Loaded,
    ensures
        ({
            let asked = Load::start(table, if_exists).asked(replies);
            let n = table.rows.len() as int;
            let p = asked.len() - n - 3;
            let insert = insert_sql(table.name, table.columns);
            let none = Seq::<Value>::empty();
            &&& p == 2 || p == 3
            &&& Load::start(table, if_exists).after_all(replies).stage == Stage::Loaded(n as nat)
            &&& asked[0] == (Request::Query {
                sql: "SELECT COUNT(*) FROM sqlite_master WHERE type='table' AND name=?1"@,
                params: seq![table.name],
            })
            &&& asked.len() <= replies.len()
            &&& replies[0] is Rows && says_exists(replies[0]->rows) is Some
            &&& says_exists(replies[0]->rows) == Some(false) ==> p == 2 && asked[1] == (
            Request::Execute { sql: create_table_sql(table), values: none })
            &&& says_exists(replies[0]->rows) == Some(true) ==> (if_exists == IfExists::Replace && p
                == 3) || (if_exists == IfExists::Append && p == 2 && asked[1] == (Request::Query {
                sql: table_info_sql(table.name),
                params: Seq::empty(),
            }) && replies[1] is Rows && (replies[1]->rows).len() == table.columns.len())
            &&& !(says_exists(replies[0]->rows) == Some(true) && if_exists == IfExists::Append)
                ==> forall|k: int| 1 <= k < asked.len() ==> #[trigger] replies[k] is Done
            &&& forall|k: int| 2 <= k < asked.len() ==> #[trigger] replies[k] is Done
            &&& p == 3 ==> if_exists == IfExists::Replace && asked[1] == (Request::Execute {
                sql: drop_table_sql(table.name),
                values: none,
            }) && asked[2] == (Request::Execute { sql: create_table_sql(table), values: none })
            &&& p == 2 ==> asked[1] == (Request::Execute {
                sql: create_table_sql(table),
                values: none,
            }) || (if_exists == IfExists::Append && asked[1] == (Request::Query {
                sql: table_info_sql(table.name),
                params: Seq::empty(),
            }))
            &&& asked[p] == (Request::Execute { sql: "BEGIN DEFERRED"@, values: none })
            &&& asked[p + 1] == (Request::Prepare { sql: insert })
            &&& forall|k: int|
                0 <= k < n ==> (#[trigger] asked.skip(p + 2)[k]) == (Request::Execute {
                    sql: insert,
                    values: row_values(table, k),
                })
            &&& asked[asked.len() - 1] == (Request::Execute { sql: "COMMIT"@, values: none })
        }),
{
    law_success_means_all_rows_in_one_transaction(table, if_exists, replies);
    let asked = Load::start(table, if_exists).asked(replies);
    let exists = says_exists(replies[0]->rows)->0;
    let before = preparation(table, if_exists, exists);
    let n = table.rows.len() as int;
    let p = asked.len() - n - 3;
    let rows = inserts_from(table, 0);
    assert(asked == before + insertion(table));
    assert(before.len() == p);
    assert(asked[p] == insertion(table)[0]);
    assert(asked[p + 1] == insertion(table)[1]);
    assert forall|k: int| 0 <= k < n implies (#[trigger] asked.skip(p + 2)[k]) == (
    Request::Execute {
        sql: insert_sql(table.name, table.columns),
        values: row_values(table, k),
    }) by {
        assert(asked.skip(p + 2)[k] == asked[p + 2 + k]);
        assert(asked[p + 2 + k] == insertion(table)[2 + k]);
        assert(insertion(table)[2 + k] == rows[k]);
    }
    assert(asked[asked.len() - 1] == insertion(table)[n + 2]);
    assert(asked[0] == before[0]);
    assert(asked[1] == before[1]);
    if before.len() == 3 {
        assert(asked[2] == before[2]);
    }
}

/// A failure of the database is told with its cause, in full, and with what was being done. It
/// ends the load: at once before the transaction is open, else after that was undone; and what
/// it tells then is that same failure, whatever the database says to the undoing.
pub proof fn law_failures_are_told(load: Load, at: FailedAt, cause: Seq<char>, last: Reply)
    requires
        !load.is_over(),
        !(load.stage is Rollback),
    ensures
        ({
            let failure = LoadFailure::Failed {
                doing: match load.stage {
                    Stage::LookUp => LoadTask::LookUp,
                    Stage::CountColumns => LoadTask::CountColumns,
                    Stage::Drop => LoadTask::Drop,
                    Stage::Create => LoadTask::Create,
                    Stage::Begin => LoadTask::Begin,
                    Stage::Prepare => LoadTask::Prepare,
                    Stage::Insert(_) => LoadTask::Insert,
                    _ => LoadTask::Commit,
                },
                cause,
            };
            let next = load.after(Reply::Failed { at, cause });
            &&& next.table == load.table
            &&& (load.stage is Prepare || load.stage is Insert || load.stage is Commit)
                ==> next.stage == Stage::Rollback(failure) && next.request() == Some(
                Request::Execute { sql: "ROLLBACK"@, values: Seq::empty() },
            ) && next.after(last).stage == Stage::Refused(failure)
            &&& !(load.stage is Prepare || load.stage is Insert || load.stage is Commit)
                ==> next.stage == Stage::Refused(failure)
        }),
{
}

/// Errors are seen as they are.
pub proof fn law_views_of_load_errors(e: LoadError)
    ensures
        e is TableExists <==> e@ is TableExists,
        e matches LoadError::ColumnCount { existing, csv } ==> e@ == (LoadFailure::ColumnCount {
            existing: existing as nat,
            csv: csv as nat,
        }),
        e matches LoadError::Failed { doing, cause } ==> e@ == (LoadFailure::Failed {
            doing,
            cause: cause@,
        }),
        e matches LoadError::UnexpectedReply { doing } ==> e@ == (LoadFailure::UnexpectedReply {
            doing,
        }),
{
}

} // verus!
