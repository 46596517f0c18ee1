//! Creating an index: the requests to make, one after the other, and what to do with the
//! answer to each.

use crate::db::{
    ask, ask_about, execute, first_text, nullable_text_column, optional_text, query,
    query_about, read_first_text, read_nullable_text_column, read_table_exists, read_text_column,
    run, says_exists, table_exists, table_exists_request, text_column, DbReply, DbRequest, FailedAt,
    Reply, Request,
};
use crate::ident::{
    contains_ident, has_ident, index_name, index_name_of,
    law_identical_indexes_have_the_same_name, same_ident_lists, same_idents,
};
use crate::sql::{
    create_index_sql, create_index_statement, index_info_sql, index_info_statement, table_info_sql,
    table_info_statement,
};
use crate::text::{
    copy_list, copy_of, eq_ignoring_case, folded, join, joined, same_ignoring_case, texts,
};
use vstd::prelude::*;

verus! {

/// Whether an index was created or an identical one was already present.
#[derive(Debug, Clone, Copy, PartialEq, Eq, Structural)]
pub enum IndexOutcome {
    /// A new index was created.
    Created,
    /// An identical index (same table and columns) already existed; nothing was created.
    AlreadyExists,
}

/// A step of creating an index.
#[derive(Debug, Clone, Copy, PartialEq, Eq, Structural)]
pub enum IndexTask {
    LookUpTable,
    ListColumns,
    FindIndex,
    ReadIndex,
    Create,
}

/// Why an index was not created.
#[derive(Debug, PartialEq, Eq)]
pub enum IndexError {
    /// No columns were given.
    NoColumns,
    /// There is no such table.
    NoSuchTable,
    /// The table has no such column.
    NoSuchColumn(String),
    /// Another index, on this table and these columns, has the name already.
    Collision { table: String, columns: Vec<String> },
    /// The database failed.
    Failed { doing: IndexTask, cause: String },
    /// The database's answer does not fit what it was asked.
    UnexpectedReply { doing: IndexTask },
}

/// An [`IndexError`] as text.
pub enum IndexFailure {
    NoColumns,
    NoSuchTable,
    NoSuchColumn(Seq<char>),
    Collision { table: Seq<char>, columns: Seq<Seq<char>> },
    Failed { doing: IndexTask, cause: Seq<char> },
    UnexpectedReply { doing: IndexTask },
}

impl View for IndexError {
    type V = IndexFailure;

    open spec fn view(&self) -> IndexFailure {
        match self {
            IndexError::NoColumns => IndexFailure::NoColumns,
            IndexError::NoSuchTable => IndexFailure::NoSuchTable,
            IndexError::NoSuchColumn(column) => IndexFailure::NoSuchColumn(column@),
            IndexError::Collision { table, columns } => IndexFailure::Collision {
                table: table@,
                columns: texts(columns@),
            },
            IndexError::Failed { doing, cause } => IndexFailure::Failed {
                doing: *doing,
                cause: cause@,
            },
            IndexError::UnexpectedReply { doing } => IndexFailure::UnexpectedReply {
                doing: *doing,
            },
        }
    }
}

/// A list of names with commas between them.
pub open spec fn listed(names: Seq<Seq<char>>) -> Seq<char> {
    joined(names, ", "@)
}

impl IndexTask {
    /// What a message about a failed step starts with: what was being done, where that needs
    /// saying.
    pub open spec fn prefix(self, table: Seq<char>, columns: Seq<Seq<char>>) -> Seq<char> {
        match self {
            IndexTask::FindIndex => "looking up existing index: "@,
            IndexTask::Create => "creating index on "@ + table + "("@ + listed(columns) + "): "@,
            _ => Seq::empty(),
        }
    }

    fn start_message(self, table: &str, columns: &[String]) -> (r: String)
        ensures
            r@ == self.prefix(table@, texts(columns@)),
    {
        match self {
            IndexTask::FindIndex => copy_of("looking up existing index: "),
            IndexTask::Create => {
                let mut out = copy_of("creating index on ");
                out.append(table);
                out.append("(");
                out.append(join(columns, ", ").as_str());
                out.append("): ");
                out
            },
            _ => String::new(),
        }
    }
}

impl IndexFailure {
    /// What went wrong, in words.
    pub open spec fn text(self, on: Seq<char>, asked_for: Seq<Seq<char>>) -> Seq<char> {
        match self {
            IndexFailure::NoColumns => "cannot create an index with no columns"@,
            IndexFailure::NoSuchTable => "cannot index table \""@ + on + "\": no such table"@,
            IndexFailure::NoSuchColumn(column) => "cannot index \""@ + on
                + "\": no such column \""@ + column + "\""@,
            IndexFailure::Collision { table, columns } => "index name \""@ + index_name_of(
                on,
                asked_for,
            ) + "\" already exists on \""@ + table + "\"("@ + listed(columns)
                + "); refusing to create a different index on \""@ + on + "\"("@ + listed(asked_for)
                + ") whose derived name collides with it"@,
            IndexFailure::Failed { doing, cause } => doing.prefix(on, asked_for) + cause,
            IndexFailure::UnexpectedReply { doing } => doing.prefix(on, asked_for)
                + "unexpected answer from the database"@,
        }
    }
}

impl IndexError {
    /// What went wrong while an index on `asked_for` of the table `on` was created, in words.
    pub fn message(&self, on: &str, asked_for: &[String]) -> (r: String)
        ensures
            r@ == self@.text(on@, texts(asked_for@)),
            self is NoSuchTable ==> r@ == "cannot index table \""@ + on@ + "\": no such table"@,
            self matches IndexError::NoSuchColumn(column) ==> r@ == "cannot index \""@ + on@
                + "\": no such column \""@ + column@ + "\""@,
            self matches IndexError::Collision { table, columns } ==> r@ == "index name \""@
                + index_name_of(on@, texts(asked_for@)) + "\" already exists on \""@ + table@
                + "\"("@ + joined(texts(columns@), ", "@)
                + "); refusing to create a different index on \""@ + on@ + "\"("@ + joined(
                texts(asked_for@),
                ", "@,
            ) + ") whose derived name collides with it"@,
            self matches IndexError::Failed { doing, cause } ==> r@ == (match *doing {
                IndexTask::FindIndex => "looking up existing index: "@,
                IndexTask::Create => "creating index on "@ + on@ + "("@ + joined(
                    texts(asked_for@),
                    ", "@,
                ) + "): "@,
                _ => Seq::empty(),
            }) + cause@,
    {
        match self {
            IndexError::NoColumns => copy_of("cannot create an index with no columns"),
            IndexError::NoSuchTable => {
                let mut out = copy_of("cannot index table \"");
                out.append(on);
                out.append("\": no such table");
                out
            },
            IndexError::NoSuchColumn(column) => {
                let mut out = copy_of("cannot index \"");
                out.append(on);
                out.append("\": no such column \"");
                out.append(column.as_str());
                out.append("\"");
                out
            },
            IndexError::Collision { table, columns } => {
                let mut out = copy_of("index name \"");
                out.append(index_name(on, asked_for).as_str());
                out.append("\" already exists on \"");
                out.append(table.as_str());
                out.append("\"(");
                out.append(join(columns.as_slice(), ", ").as_str());
                out.append("); refusing to create a different index on \"");
                out.append(on);
                out.append("\"(");
                out.append(join(asked_for, ", ").as_str());
                out.append(") whose derived name collides with it");
                out
            },
            IndexError::Failed { doing, cause } => {
                let mut out = doing.start_message(on, asked_for);
                out.append(cause.as_str());
                out
            },
            IndexError::UnexpectedReply { doing } => {
                let mut out = doing.start_message(on, asked_for);
                out.append("unexpected answer from the database");
                out
            },
        }
    }
}

/// The notice about an index: created, or already there.
pub open spec fn indexed_text(
    outcome: IndexOutcome,
    name: Seq<char>,
    table: Seq<char>,
    columns: Seq<Seq<char>>,
) -> Seq<char> {
    match outcome {
        IndexOutcome::Created => "Created index \""@ + name + "\" on \""@ + table + "\" ("@
            + listed(columns) + ")"@,
        IndexOutcome::AlreadyExists => "Index \""@ + name + "\" already exists on \""@ + table
            + "\" ("@ + listed(columns) + "); skipping"@,
    }
}

/// Says what became of an index.
pub fn indexed_notice(outcome: IndexOutcome, name: &str, table: &str, columns: &[String]) -> (r:
    String)
    ensures
        r@ == indexed_text(outcome, name@, table@, texts(columns@)),
        outcome == IndexOutcome::Created ==> r@ == "Created index \""@ + name@ + "\" on \""@ + table@
            + "\" ("@ + joined(texts(columns@), ", "@) + ")"@,
        outcome == IndexOutcome::AlreadyExists ==> r@ == "Index \""@ + name@
            + "\" already exists on \""@ + table@ + "\" ("@ + joined(texts(columns@), ", "@)
            + "); skipping"@,
{
    match outcome {
        IndexOutcome::Created => {
            let mut out = copy_of("Created index \"");
            out.append(name);
            out.append("\" on \"");
            out.append(table);
            out.append("\" (");
            out.append(join(columns, ", ").as_str());
            out.append(")");
            out
        },
        IndexOutcome::AlreadyExists => {
            let mut out = copy_of("Index \"");
            out.append(name);
            out.append("\" already exists on \"");
            out.append(table);
            out.append("\" (");
            out.append(join(columns, ", ").as_str());
            out.append("); skipping");
            out
        },
    }
}

/// How far the creation of an index has come.
#[derive(Debug)]
enum IndexStage {
    LookUpTable,
    ListColumns,
    FindIndex,
    /// An index has the name; it is on this table.
    ReadIndex(String),
    Create,
    Finished(Result<IndexOutcome, IndexError>),
}

/// How far the creation of an index has come, as text.
pub enum Stage {
    LookUpTable,
    ListColumns,
    FindIndex,
    ReadIndex(Seq<char>),
    Create,
    Indexed(IndexOutcome),
    Refused(IndexFailure),
}

impl View for IndexStage {
    type V = Stage;

    closed spec fn view(&self) -> Stage {
        match self {
            IndexStage::LookUpTable => Stage::LookUpTable,
            IndexStage::ListColumns => Stage::ListColumns,
            IndexStage::FindIndex => Stage::FindIndex,
            IndexStage::ReadIndex(table) => Stage::ReadIndex(table@),
            IndexStage::Create => Stage::Create,
            IndexStage::Finished(Ok(outcome)) => Stage::Indexed(*outcome),
            IndexStage::Finished(Err(e)) => Stage::Refused(e@),
        }
    }
}

/// The creation of an index under way.
#[derive(Debug)]
pub struct IndexRun {
    table: String,
    columns: Vec<String>,
    stage: IndexStage,
}

/// What an [`IndexRun`] is about.
pub struct Index {
    pub table: Seq<char>,
    pub columns: Seq<Seq<char>>,
    pub stage: Stage,
}

impl View for IndexRun {
    type V = Index;

    closed spec fn view(&self) -> Index {
        Index { table: self.table@, columns: texts(self.columns@), stage: self.stage@ }
    }
}

/// The first of the columns asked for that a table with these columns does not have.
pub open spec fn first_missing(
    asked_for: Seq<Seq<char>>,
    existing: Seq<Seq<char>>,
) -> Option<Seq<char>>
    decreases asked_for.len(),
{
    if asked_for.len() == 0 {
        None
    } else if !has_ident(existing, asked_for[0]) {
        Some(asked_for[0])
    } else {
        first_missing(asked_for.drop_first(), existing)
    }
}

/// The query for the table that an index is on. Like SQLite itself, it takes names that
/// differ in the case of ASCII letters alone for the same.
pub open spec fn find_index_sql() -> Seq<char> {
    "SELECT tbl_name FROM sqlite_master WHERE type='index' AND name=?1 COLLATE NOCASE"@
}

impl Index {
    /// The creation of an index that begins; without columns it is over at once.
    pub open spec fn start(table: Seq<char>, columns: Seq<Seq<char>>) -> Index {
        Index {
            table,
            columns,
            stage: if columns.len() == 0 {
                Stage::Refused(IndexFailure::NoColumns)
            } else {
                Stage::LookUpTable
            },
        }
    }

    /// The name of the index.
    pub open spec fn name(self) -> Seq<char> {
        index_name_of(self.table, self.columns)
    }

    /// Is it over?
    pub open spec fn is_over(self) -> bool {
        self.stage is Indexed || self.stage is Refused
    }

    /// What the database is to be asked next.
    pub open spec fn request(self) -> Option<Request> {
        match self.stage {
            Stage::LookUpTable => Some(table_exists_request(self.table)),
            Stage::ListColumns => Some(query(table_info_sql(self.table))),
            Stage::FindIndex => Some(query_about(find_index_sql(), self.name())),
            Stage::ReadIndex(_) => Some(query(index_info_sql(self.name()))),
            Stage::Create => Some(
                execute(create_index_sql(self.name(), self.table, self.columns)),
            ),
            Stage::Indexed(_) => None,
            Stage::Refused(_) => None,
        }
    }

    /// The step that it is at.
    pub open spec fn doing(self) -> IndexTask {
        match self.stage {
            Stage::LookUpTable => IndexTask::LookUpTable,
            Stage::ListColumns => IndexTask::ListColumns,
            Stage::FindIndex => IndexTask::FindIndex,
            Stage::ReadIndex(_) => IndexTask::ReadIndex,
            _ => IndexTask::Create,
        }
    }

    /// What an answer that is of no use means.
    pub open spec fn failure(self, reply: Reply) -> Stage {
        Stage::Refused(
            match reply {
                Reply::Failed { at, cause } => IndexFailure::Failed { doing: self.doing(), cause },
                _ => IndexFailure::UnexpectedReply { doing: self.doing() },
            },
        )
    }

    /// Is an index on `columns` of `table` the one to create?
    pub open spec fn is_identical(self, table: Seq<char>, columns: Seq<Seq<char>>) -> bool {
        same_ignoring_case(table, self.table) && same_ident_lists(columns, self.columns)
    }

    /// The stage that follows the answer of the database.
    ///
    /// The table has to exist, and to have every column; an index that has the name already
    /// has to be the very same one; only where there is none is one created.
    pub open spec fn next_stage(self, reply: Reply) -> Stage {
        match (self.stage, reply) {
            (Stage::LookUpTable, Reply::Rows { headers, rows }) => match says_exists(rows) {
                Some(true) => Stage::ListColumns,
                Some(false) => Stage::Refused(IndexFailure::NoSuchTable),
                None => self.failure(reply),
            },
            (Stage::ListColumns, Reply::Rows { headers, rows }) => match text_column(rows, 1) {
                Some(existing) => match first_missing(self.columns, existing) {
                    Some(column) => Stage::Refused(IndexFailure::NoSuchColumn(column)),
                    None => Stage::FindIndex,
                },
                None => self.failure(reply),
            },
            (Stage::FindIndex, Reply::Rows { headers, rows }) => match first_text(rows) {
                Some(Some(table)) => Stage::ReadIndex(table),
                Some(None) => Stage::Create,
                None => self.failure(reply),
            },
            (Stage::ReadIndex(table), Reply::Rows { headers, rows }) => match nullable_text_column(
                rows,
                2,
            ) {
                Some(columns) => if self.is_identical(table, columns) {
                    Stage::Indexed(IndexOutcome::AlreadyExists)
                } else {
                    Stage::Refused(IndexFailure::Collision { table, columns })
                },
                None => self.failure(reply),
            },
            (Stage::Create, Reply::Done) => Stage::Indexed(IndexOutcome::Created),
            (Stage::Indexed(_), _) => self.stage,
            (Stage::Refused(_), _) => self.stage,
            _ => self.failure(reply),
        }
    }

    /// The creation of the index after the answer of the database.
    pub open spec fn after(self, reply: Reply) -> Index {
        Index { stage: self.next_stage(reply), ..self }
    }
}

/// Starts creating an index on one or more `columns` of `table`; several columns make one
/// composite index over them, in order.
pub fn create_index(table: &str, columns: &[String]) -> (r: IndexRun)
    ensures
        r@ == Index::start(table@, texts(columns@)),
{
    let stage = if columns.len() == 0 {
        IndexStage::Finished(Err(IndexError::NoColumns))
    } else {
        IndexStage::LookUpTable
    };
    IndexRun { table: copy_of(table), columns: copy_list(columns), stage }
}

fn find_missing(asked_for: &[String], existing: &[String]) -> (r: Option<String>)
    ensures
        optional_text(r) == first_missing(texts(asked_for@), texts(existing@)),
{
    let ghost all = texts(asked_for@);
    let ghost have = texts(existing@);
    let mut i: usize = 0;
    assert(all.skip(0) == all);
    while i < asked_for.len()
        invariant
            i <= asked_for@.len(),
            all == texts(asked_for@),
            have == texts(existing@),
            first_missing(all, have) == first_missing(all.skip(i as int), have),
        decreases asked_for@.len() - i,
    {
        assert(all.skip(i as int)[0] == all[i as int]);
        assert(all.skip(i as int).drop_first() == all.skip(i + 1));
        if !contains_ident(existing, asked_for[i].as_str()) {
            return Some(asked_for[i].clone());
        }
        i += 1;
    }
    None
}

fn failed(doing: IndexTask, reply: DbReply) -> (r: IndexStage)
    ensures
        r@ == Stage::Refused(
            match reply@ {
                Reply::Failed { at, cause } => IndexFailure::Failed { doing, cause },
                _ => IndexFailure::UnexpectedReply { doing },
            },
        ),
{
    match reply {
        DbReply::Failed { at: _, cause } => IndexStage::Finished(
            Err(IndexError::Failed { doing, cause }),
        ),
        _ => IndexStage::Finished(Err(IndexError::UnexpectedReply { doing })),
    }
}

fn unexpected(doing: IndexTask) -> (r: IndexStage)
    ensures
        r@ == Stage::Refused(IndexFailure::UnexpectedReply { doing }),
{
    IndexStage::Finished(Err(IndexError::UnexpectedReply { doing }))
}

impl IndexRun {
    /// The name of the index.
    pub fn name(&self) -> (r: String)
        ensures
            r@ == self@.name(),
    {
        index_name(self.table.as_str(), self.columns.as_slice())
    }

    /// What to ask the database next; `None` when it is over.
    pub fn request(&self) -> (r: Option<DbRequest>)
        ensures
            r is Some <==> self@.request() is Some,
            r matches Some(request) ==> self@.request() == Some(request@),
    {
        let table = self.table.as_str();
        match &self.stage {
            IndexStage::LookUpTable => Some(table_exists(table)),
            IndexStage::ListColumns => Some(ask(table_info_statement(table))),
            IndexStage::FindIndex => Some(
                ask_about(
                    "SELECT tbl_name FROM sqlite_master WHERE type='index' AND name=?1 COLLATE NOCASE",
                    self.name().as_str(),
                ),
            ),
            IndexStage::ReadIndex(_) => Some(ask(index_info_statement(self.name().as_str()))),
            IndexStage::Create => Some(
                run(create_index_statement(self.name().as_str(), table, self.columns.as_slice())),
            ),
            IndexStage::Finished(_) => None,
        }
    }

    /// Goes on with the database's answer to the last request.
    pub fn answer(self, reply: DbReply) -> (r: IndexRun)
        ensures
            r@ == self@.after(reply@),
    {
        let table = self.table;
        let columns = self.columns;
        let stage = match self.stage {
            IndexStage::LookUpTable => match reply {
                DbReply::Rows { headers, rows } => match read_table_exists(&rows) {
                    Some(true) => IndexStage::ListColumns,
                    Some(false) => IndexStage::Finished(Err(IndexError::NoSuchTable)),
                    None => unexpected(IndexTask::LookUpTable),
                },
                other => failed(IndexTask::LookUpTable, other),
            },
            IndexStage::ListColumns => match reply {
                DbReply::Rows { headers, rows } => match read_text_column(&rows, 1) {
                    Some(existing) => match find_missing(columns.as_slice(), existing.as_slice()) {
                        Some(column) => IndexStage::Finished(
                            Err(IndexError::NoSuchColumn(column)),
                        ),
                        None => IndexStage::FindIndex,
                    },
                    None => unexpected(IndexTask::ListColumns),
                },
                other => failed(IndexTask::ListColumns, other),
            },
            IndexStage::FindIndex => match reply {
                DbReply::Rows { headers, rows } => match read_first_text(&rows) {
                    Some(Some(found)) => IndexStage::ReadIndex(found),
                    Some(None) => IndexStage::Create,
                    None => unexpected(IndexTask::FindIndex),
                },
                other => failed(IndexTask::FindIndex, other),
            },
            IndexStage::ReadIndex(found) => match reply {
                DbReply::Rows { headers, rows } => match read_nullable_text_column(&rows, 2) {
                    Some(indexed) => if eq_ignoring_case(found.as_str(), table.as_str())
                        && same_idents(indexed.as_slice(), columns.as_slice()) {
                        IndexStage::Finished(Ok(IndexOutcome::AlreadyExists))
                    } else {
                        IndexStage::Finished(
                            Err(IndexError::Collision { table: found, columns: indexed }),
                        )
                    },
                    None => unexpected(IndexTask::ReadIndex),
                },
                other => failed(IndexTask::ReadIndex, other),
            },
            IndexStage::Create => match reply {
                DbReply::Done => IndexStage::Finished(Ok(IndexOutcome::Created)),
                other => failed(IndexTask::Create, other),
            },
            IndexStage::Finished(result) => IndexStage::Finished(result),
        };
        IndexRun { table, columns, stage }
    }

    /// How it ended: the index's name and whether it was created, or why it was not. `None`
    /// while it is under way.
    pub fn outcome(self) -> (r: Option<Result<(String, IndexOutcome), IndexError>>)
        ensures
            r is Some <==> self@.is_over(),
            r matches Some(Ok((name, outcome))) ==> name@ == self@.name() && self@.stage
                == Stage::Indexed(outcome),
            r matches Some(Err(e)) ==> self@.stage == Stage::Refused(e@),
    {
        let name = self.name();
        match self.stage {
            IndexStage::Finished(Ok(outcome)) => Some(Ok((name, outcome))),
            IndexStage::Finished(Err(e)) => Some(Err(e)),
            _ => None,
        }
    }
}

// ---------------------------------------------------------------------------
// Whole runs
// ---------------------------------------------------------------------------

impl Index {
    /// The creation of the index after these answers, one after the other.
    pub open spec fn after_all(self, replies: Seq<Reply>) -> Index
        decreases replies.len(),
    {
        if self.is_over() || replies.len() == 0 {
            self
        } else {
            self.after(replies[0]).after_all(replies.drop_first())
        }
    }

    /// What the database is asked where it gives these answers, up to the last one.
    pub open spec fn asked(self, replies: Seq<Reply>) -> Seq<Request>
        decreases replies.len(),
    {
        if self.is_over() || replies.len() == 0 {
            Seq::empty()
        } else {
            seq![self.request()->0] + self.after(replies[0]).asked(replies.drop_first())
        }
    }
}

proof fn lemma_stops(index: Index, replies: Seq<Reply>)
    requires
        index.is_over() || replies.len() == 0,
    ensures
        index.after_all(replies) == index,
        index.asked(replies) == Seq::<Request>::empty(),
{
}

proof fn lemma_step(index: Index, replies: Seq<Reply>)
    requires
        !index.is_over(),
        replies.len() > 0,
    ensures
        index.after_all(replies) == index.after(replies[0]).after_all(replies.drop_first()),
        index.asked(replies) == seq![index.request()->0] + index.after(replies[0]).asked(
            replies.drop_first(),
        ),
{
}

/// The questions that come before an index is created.
pub open spec fn questions(table: Seq<char>, columns: Seq<Seq<char>>) -> Seq<Request> {
    seq![
        table_exists_request(table),
        query(table_info_sql(table)),
        query_about(find_index_sql(), index_name_of(table, columns)),
    ]
}

/// Does the answer say that the table exists?
pub open spec fn table_found(reply: Reply) -> bool {
    reply matches Reply::Rows { headers, rows } && says_exists(rows) == Some(true)
}

/// Does the answer list all these columns?
pub open spec fn columns_found(reply: Reply, columns: Seq<Seq<char>>) -> bool {
    &&& reply is Rows
    &&& text_column(reply->rows, 1) is Some
    &&& forall|i: int|
        0 <= i < columns.len() ==> has_ident(text_column(reply->rows, 1)->0, #[trigger] columns[i])
}

/// The table of the index that the answer found.
pub open spec fn index_found(reply: Reply) -> Option<Option<Seq<char>>> {
    match reply {
        Reply::Rows { headers, rows } => first_text(rows),
        _ => None,
    }
}

proof fn lemma_first_missing(asked_for: Seq<Seq<char>>, existing: Seq<Seq<char>>)
    ensures
        first_missing(asked_for, existing) is None <==> (forall|i: int|
            0 <= i < asked_for.len() ==> has_ident(existing, #[trigger] asked_for[i])),
        first_missing(asked_for, existing) matches Some(c) ==> asked_for.contains(c) && !has_ident(
            existing,
            c,
        ),
    decreases asked_for.len(),
{
    if asked_for.len() > 0 {
        let rest = asked_for.drop_first();
        lemma_first_missing(rest, existing);
        if has_ident(existing, asked_for[0]) {
            assert(forall|i: int|
                0 <= i < rest.len() ==> #[trigger] rest[i] == asked_for[i + 1]);
            assert forall|i: int|
                0 <= i < asked_for.len() && first_missing(rest, existing) is None implies has_ident(
                existing,
                #[trigger] asked_for[i],
            ) by {
                if i > 0 {
                    assert(rest[i - 1] == asked_for[i]);
                }
            }
            if let Some(c) = first_missing(rest, existing) {
                let k = choose|k: int| 0 <= k < rest.len() && rest[k] == c;
                assert(asked_for[k + 1] == c);
            }
        }
    }
}

/// A run that got past the three questions found the table, found every column, and learnt
/// whether the index's name is taken; nothing else has been asked so far.
proof fn lemma_past_the_questions(
    table: Seq<char>,
    columns: Seq<Seq<char>>,
    replies: Seq<Reply>,
) -> (fourth: Index)
    requires
        ({
            let end = Index::start(table, columns).after_all(replies);
            ||| end.stage is Indexed
            ||| end.stage matches Stage::Refused(IndexFailure::Collision { table, columns })
        }),
    ensures
        columns.len() > 0,
        replies.len() >= 4,
        table_found(replies[0]),
        columns_found(replies[1], columns),
        index_found(replies[2]) matches Some(found) && fourth.stage == (match found {
            Some(owner) => Stage::ReadIndex(owner),
            None => Stage::Create,
        }),
        fourth.table == table,
        fourth.columns == columns,
        Index::start(table, columns).after_all(replies) == fourth.after(replies[3]),
        Index::start(table, columns).asked(replies) == questions(table, columns) + seq![
            fourth.request()->0,
        ],
{
    let first = Index::start(table, columns);
    if replies.len() == 0 || first.is_over() {
        lemma_stops(first, replies);
    }
    lemma_step(first, replies);
    let second = first.after(replies[0]);
    let r1 = replies.drop_first();
    if r1.len() == 0 || second.is_over() {
        lemma_stops(second, r1);
    }
    lemma_step(second, r1);
    assert(r1[0] == replies[1]);
    let third = second.after(r1[0]);
    let r2 = r1.drop_first();
    if r2.len() == 0 || third.is_over() {
        lemma_stops(third, r2);
    }
    lemma_first_missing(columns, text_column(replies[1]->rows, 1)->0);
    lemma_step(third, r2);
    assert(r2[0] == replies[2]);
    let fourth = third.after(r2[0]);
    let r3 = r2.drop_first();
    if r3.len() == 0 || fourth.is_over() {
        lemma_stops(fourth, r3);
    }
    lemma_step(fourth, r3);
    assert(r3[0] == replies[3]);
    lemma_stops(fourth.after(r3[0]), r3.drop_first());
    assert(first.asked(replies) =~= questions(table, columns) + seq![fourth.request()->0]);
    fourth
}

/// Good answers to the three questions lead to the fourth request, and its answer ends the
/// run.
proof fn lemma_through_the_questions(
    table: Seq<char>,
    columns: Seq<Seq<char>>,
    replies: Seq<Reply>,
)
    requires
        columns.len() > 0,
        replies.len() >= 4,
        table_found(replies[0]),
        columns_found(replies[1], columns),
        index_found(replies[2]) is Some,
    ensures
        ({
            let fourth = Index {
                table,
                columns,
                stage: match index_found(replies[2])->0 {
                    Some(owner) => Stage::ReadIndex(owner),
                    None => Stage::Create,
                },
            };
            Index::start(table, columns).after_all(replies) == fourth.after(replies[3])
        }),
{
    let first = Index::start(table, columns);
    lemma_step(first, replies);
    let second = first.after(replies[0]);
    let r1 = replies.drop_first();
    lemma_step(second, r1);
    assert(r1[0] == replies[1]);
    lemma_first_missing(columns, text_column(replies[1]->rows, 1)->0);
    let third = second.after(r1[0]);
    let r2 = r1.drop_first();
    lemma_step(third, r2);
    assert(r2[0] == replies[2]);
    let fourth = third.after(r2[0]);
    let r3 = r2.drop_first();
    lemma_step(fourth, r3);
    assert(r3[0] == replies[3]);
    lemma_stops(fourth.after(r3[0]), r3.drop_first());
}

/// An index is reported as created only where the database was asked to create it, and did:
/// the table exists, it has every column, and no index had the name.
pub proof fn law_created_means_created(
    table: Seq<char>,
    columns: Seq<Seq<char>>,
    replies: Seq<Reply>,
)
    requires
        Index::start(table, columns).after_all(replies).stage == Stage::Indexed(
            IndexOutcome::Created,
        ),
    ensures
        replies.len() >= 4,
        table_found(replies[0]),
        columns_found(replies[1], columns),
        index_found(replies[2]) == Some(None::<Seq<char>>),
        replies[3] is Done,
        Index::start(table, columns).asked(replies) == questions(table, columns) + seq![
            execute(create_index_sql(index_name_of(table, columns), table, columns)),
        ],
{
    let fourth = lemma_past_the_questions(table, columns, replies);
}

/// An index is reported as already present only where one with its name, on the same table
/// and the same columns, was found; the database has then been asked questions only.
pub proof fn law_already_exists_means_identical(
    table: Seq<char>,
    columns: Seq<Seq<char>>,
    replies: Seq<Reply>,
)
    requires
        Index::start(table, columns).after_all(replies).stage == Stage::Indexed(
            IndexOutcome::AlreadyExists,
        ),
    ensures
        replies.len() >= 4,
        table_found(replies[0]),
        columns_found(replies[1], columns),
        index_found(replies[2]) matches Some(Some(owner)) && same_ignoring_case(owner, table),
        replies[3] is Rows,
        nullable_text_column(replies[3]->rows, 2) matches Some(indexed) && same_ident_lists(
            indexed,
            columns,
        ),
        Index::start(table, columns).asked(replies) == questions(table, columns) + seq![
            query(index_info_sql(index_name_of(table, columns))),
        ],
{
    let fourth = lemma_past_the_questions(table, columns, replies);
}

/// Where another index has the name already, whatever it is on, the run is refused, and the
/// database has been asked questions only.
pub proof fn law_name_collisions_are_refused(
    table: Seq<char>,
    columns: Seq<Seq<char>>,
    replies: Seq<Reply>,
    owner: Seq<char>,
    indexed: Seq<Seq<char>>,
)
    requires
        columns.len() > 0,
        replies.len() >= 4,
        table_found(replies[0]),
        columns_found(replies[1], columns),
        index_found(replies[2]) == Some(Some(owner)),
        replies[3] is Rows,
        nullable_text_column(replies[3]->rows, 2) == Some(indexed),
        !(same_ignoring_case(owner, table) && same_ident_lists(indexed, columns)),
    ensures
        Index::start(table, columns).after_all(replies).stage == Stage::Refused(
            IndexFailure::Collision { table: owner, columns: indexed },
        ),
        Index::start(table, columns).asked(replies) == questions(table, columns) + seq![
            query(index_info_sql(index_name_of(table, columns))),
        ],
{
    lemma_through_the_questions(table, columns, replies);
    let again = lemma_past_the_questions(table, columns, replies);
}

/// Where an identical index has the name already, nothing is created, and the run says so.
pub proof fn law_identical_index_is_left_alone(
    table: Seq<char>,
    columns: Seq<Seq<char>>,
    replies: Seq<Reply>,
    owner: Seq<char>,
    indexed: Seq<Seq<char>>,
)
    requires
        columns.len() > 0,
        replies.len() >= 4,
        table_found(replies[0]),
        columns_found(replies[1], columns),
        index_found(replies[2]) == Some(Some(owner)),
        replies[3] is Rows,
        nullable_text_column(replies[3]->rows, 2) == Some(indexed),
        same_ignoring_case(owner, table),
        same_ident_lists(indexed, columns),
    ensures
        Index::start(table, columns).after_all(replies).stage == Stage::Indexed(
            IndexOutcome::AlreadyExists,
        ),
        Index::start(table, columns).asked(replies) == questions(table, columns) + seq![
            query(index_info_sql(index_name_of(table, columns))),
        ],
{
    lemma_through_the_questions(table, columns, replies);
    let again = lemma_past_the_questions(table, columns, replies);
}

/// Where the table has every column and no index has the name, the index is created.
pub proof fn law_absent_index_is_created(
    table: Seq<char>,
    columns: Seq<Seq<char>>,
    replies: Seq<Reply>,
)
    requires
        columns.len() > 0,
        replies.len() >= 4,
        table_found(replies[0]),
        columns_found(replies[1], columns),
        index_found(replies[2]) == Some(None::<Seq<char>>),
        replies[3] is Done,
    ensures
        Index::start(table, columns).after_all(replies).stage == Stage::Indexed(
            IndexOutcome::Created,
        ),
{
    lemma_through_the_questions(table, columns, replies);
}

/// The one statement that a run ever sends, among its questions, is the one that creates the
/// index.
pub proof fn law_only_the_index_is_created(index: Index, replies: Seq<Reply>, k: int)
    requires
        0 <= k < index.asked(replies).len(),
    ensures
        index.asked(replies)[k] is Query || index.asked(replies)[k] == execute(
            create_index_sql(index.name(), index.table, index.columns),
        ),
    decreases replies.len(),
{
    lemma_step(index, replies);
    if k > 0 {
        let next = index.after(replies[0]);
        law_only_the_index_is_created(next, replies.drop_first(), k - 1);
        assert(index.asked(replies)[k] == next.asked(replies.drop_first())[k - 1]);
    }
}

/// A column that the table does not have is refused, and no index is created.
pub proof fn law_missing_columns_are_refused(
    table: Seq<char>,
    columns: Seq<Seq<char>>,
    replies: Seq<Reply>,
    column: Seq<char>,
)
    requires
        replies.len() >= 2,
        columns.contains(column),
        table_found(replies[0]),
        replies[1] is Rows,
        text_column(replies[1]->rows, 1) matches Some(existing) && !has_ident(existing, column),
    ensures
        Index::start(table, columns).after_all(replies).stage matches Stage::Refused(
            IndexFailure::NoSuchColumn(missing),
        ) && columns.contains(missing) && !has_ident(
            text_column(replies[1]->rows, 1)->0,
            missing,
        ),
        Index::start(table, columns).asked(replies) == questions(table, columns).take(2),
{
    let first = Index::start(table, columns);
    let existing = text_column(replies[1]->rows, 1)->0;
    lemma_step(first, replies);
    let second = first.after(replies[0]);
    let r1 = replies.drop_first();
    lemma_step(second, r1);
    assert(r1[0] == replies[1]);
    lemma_first_missing(columns, existing);
    if first_missing(columns, existing) is None {
        let k = choose|k: int| 0 <= k < columns.len() && columns[k] == column;
        assert(has_ident(existing, columns[k]));
    }
    let third = second.after(r1[0]);
    lemma_stops(third, r1.drop_first());
    assert(first.asked(replies) =~= questions(table, columns).take(2));
}

/// Every run is over after four answers.
pub proof fn law_every_index_run_ends(
    table: Seq<char>,
    columns: Seq<Seq<char>>,
    replies: Seq<Reply>,
)
    requires
        replies.len() >= 4,
    ensures
        Index::start(table, columns).after_all(replies).is_over(),
{
    lemma_ends(Index::start(table, columns), replies);
}

spec fn steps_left(index: Index) -> int {
    match index.stage {
        Stage::LookUpTable => 4,
        Stage::ListColumns => 3,
        Stage::FindIndex => 2,
        Stage::ReadIndex(_) => 1,
        Stage::Create => 1,
        Stage::Indexed(_) => 0,
        Stage::Refused(_) => 0,
    }
}

proof fn lemma_ends(index: Index, replies: Seq<Reply>)
    requires
        replies.len() >= steps_left(index),
    ensures
        index.after_all(replies).is_over(),
    decreases replies.len(),
{
    if index.is_over() {
        lemma_stops(index, replies);
    } else {
        lemma_step(index, replies);
        lemma_ends(index.after(replies[0]), replies.drop_first());
    }
}

// ---------------------------------------------------------------------------
// One run after the other
// ---------------------------------------------------------------------------

/// An index that a database has.
pub struct KnownIndex {
    pub name: Seq<char>,
    pub table: Seq<char>,
    pub columns: Seq<Seq<char>>,
}

/// What a database's schema says of its tables' columns and of its indexes.
pub struct Schema {
    pub tables: Map<Seq<char>, Seq<Seq<char>>>,
    pub indexes: Seq<KnownIndex>,
}

/// The index of this name, up to the case of ASCII letters.
pub open spec fn index_named(indexes: Seq<KnownIndex>, name: Seq<char>) -> Option<KnownIndex>
    decreases indexes.len(),
{
    if indexes.len() == 0 {
        None
    } else if same_ignoring_case(indexes.last().name, name) {
        Some(indexes.last())
    } else {
        index_named(indexes.drop_last(), name)
    }
}

impl Schema {
    /// Is the reply what a database with this schema answers to the run's next request? Whether
    /// it manages to create an index is up to the database.
    pub open spec fn answers(self, run: Index, reply: Reply) -> bool {
        match run.stage {
            Stage::LookUpTable => reply matches Reply::Rows { headers, rows } && says_exists(rows)
                == Some(self.tables.dom().contains(run.table)),
            Stage::ListColumns => reply matches Reply::Rows { headers, rows } && text_column(
                rows,
                1,
            ) == Some(self.tables[run.table]),
            Stage::FindIndex => reply matches Reply::Rows { headers, rows } && first_text(rows)
                == Some(
                match index_named(self.indexes, run.name()) {
                    Some(known) => Some(known.table),
                    None => None,
                },
            ),
            Stage::ReadIndex(_) => reply matches Reply::Rows { headers, rows } && (
            index_named(self.indexes, run.name()) matches Some(known) ==> nullable_text_column(
                rows,
                2,
            ) == Some(known.columns)),
            _ => true,
        }
    }

    /// Are the replies what a database with this schema answers to the run's requests?
    pub open spec fn answers_all(self, run: Index, replies: Seq<Reply>) -> bool
        decreases replies.len(),
    {
        run.is_over() || replies.len() == 0 || (self.answers(run, replies[0]) && self.answers_all(
            run.after(replies[0]),
            replies.drop_first(),
        ))
    }

    /// Is `later` the schema after a run that ended so? Where the index was created, it is there
    /// now, in whatever case the database writes the names; nothing else has changed.
    pub open spec fn becomes(self, run: Index, outcome: IndexOutcome, later: Schema) -> bool {
        match outcome {
            IndexOutcome::AlreadyExists => later == self,
            IndexOutcome::Created => {
                let known = later.indexes.last();
                &&& later.tables == self.tables
                &&& later.indexes.len() > 0
                &&& later.indexes.drop_last() == self.indexes
                &&& same_ignoring_case(known.name, run.name())
                &&& same_ignoring_case(known.table, run.table)
                &&& same_ident_lists(known.columns, run.columns)
            },
        }
    }
}

proof fn lemma_answers_step(schema: Schema, run: Index, replies: Seq<Reply>)
    requires
        schema.answers_all(run, replies),
        !run.is_over(),
        replies.len() > 0,
    ensures
        schema.answers(run, replies[0]),
        schema.answers_all(run.after(replies[0]), replies.drop_first()),
{
}

proof fn lemma_index_named_ignoring_case(
    indexes: Seq<KnownIndex>,
    name: Seq<char>,
    other: Seq<char>,
)
    requires
        same_ignoring_case(name, other),
    ensures
        index_named(indexes, name) == index_named(indexes, other),
    decreases indexes.len(),
{
    if indexes.len() > 0 {
        let last = indexes.last().name;
        lemma_same_as_the_same(last, name, other);
        lemma_same_as_the_same(last, other, name);
        lemma_index_named_ignoring_case(indexes.drop_last(), name, other);
    }
}

proof fn lemma_same_as_the_same(a: Seq<char>, b: Seq<char>, c: Seq<char>)
    requires
        same_ignoring_case(b, c) || same_ignoring_case(c, b),
    ensures
        same_ignoring_case(a, b) ==> same_ignoring_case(a, c),
{
    if same_ignoring_case(a, b) {
        assert forall|i: int| 0 <= i < a.len() implies folded(#[trigger] a[i]) == folded(c[i]) by {
            if same_ignoring_case(b, c) {
                assert(folded(b[i]) == folded(c[i]));
            } else {
                assert(folded(c[i]) == folded(b[i]));
            }
        }
    }
}

proof fn lemma_same_lists_as_the_same(
    a: Seq<Seq<char>>,
    b: Seq<Seq<char>>,
    c: Seq<Seq<char>>,
)
    requires
        same_ident_lists(a, b),
        same_ident_lists(b, c),
    ensures
        same_ident_lists(a, c),
{
    assert forall|i: int| 0 <= i < a.len() implies same_ignoring_case(#[trigger] a[i], c[i]) by {
        assert(same_ignoring_case(a[i], b[i]));
        assert(same_ignoring_case(b[i], c[i]));
        lemma_same_as_the_same(a[i], b[i], c[i]);
    }
}

/// What a run that succeeded found in the schema.
proof fn lemma_found_in_the_schema(
    table: Seq<char>,
    columns: Seq<Seq<char>>,
    schema: Schema,
    replies: Seq<Reply>,
)
    requires
        schema.answers_all(Index::start(table, columns), replies),
        Index::start(table, columns).after_all(replies).stage is Indexed,
    ensures
        columns.len() > 0,
        schema.tables.dom().contains(table),
        forall|i: int|
            0 <= i < columns.len() ==> has_ident(schema.tables[table], #[trigger] columns[i]),
        Index::start(table, columns).after_all(replies).stage == Stage::Indexed(
            IndexOutcome::AlreadyExists,
        ) ==> {
            &&& index_named(schema.indexes, index_name_of(table, columns)) matches Some(known)
            &&& same_ignoring_case(known.table, table)
            &&& same_ident_lists(known.columns, columns)
        },
{
    let fourth = lemma_past_the_questions(table, columns, replies);
    let first = Index::start(table, columns);
    lemma_answers_step(schema, first, replies);
    let second = first.after(replies[0]);
    let r1 = replies.drop_first();
    assert(r1[0] == replies[1]);
    lemma_answers_step(schema, second, r1);
    lemma_first_missing(columns, text_column(replies[1]->rows, 1)->0);
    let third = second.after(r1[0]);
    let r2 = r1.drop_first();
    assert(r2[0] == replies[2]);
    lemma_answers_step(schema, third, r2);
    let last = third.after(r2[0]);
    let r3 = r2.drop_first();
    assert(r3[0] == replies[3]);
    lemma_answers_step(schema, last, r3);
}

/// A database whose schema has the table, the columns and an identical index says so.
proof fn lemma_schema_with_the_index(
    table: Seq<char>,
    columns: Seq<Seq<char>>,
    schema: Schema,
    replies: Seq<Reply>,
    known: KnownIndex,
)
    requires
        columns.len() > 0,
        replies.len() >= 4,
        schema.answers_all(Index::start(table, columns), replies),
        schema.tables.dom().contains(table),
        forall|i: int|
            0 <= i < columns.len() ==> has_ident(schema.tables[table], #[trigger] columns[i]),
        index_named(schema.indexes, index_name_of(table, columns)) == Some(known),
        same_ignoring_case(known.table, table),
        same_ident_lists(known.columns, columns),
    ensures
        Index::start(table, columns).after_all(replies).stage == Stage::Indexed(
            IndexOutcome::AlreadyExists,
        ),
        Index::start(table, columns).asked(replies) == questions(table, columns) + seq![
            query(index_info_sql(index_name_of(table, columns))),
        ],
{
    let first = Index::start(table, columns);
    lemma_answers_step(schema, first, replies);
    let second = first.after(replies[0]);
    let r1 = replies.drop_first();
    assert(r1[0] == replies[1]);
    lemma_answers_step(schema, second, r1);
    lemma_first_missing(columns, schema.tables[table]);
    let third = second.after(r1[0]);
    let r2 = r1.drop_first();
    assert(r2[0] == replies[2]);
    lemma_answers_step(schema, third, r2);
    let fourth = third.after(r2[0]);
    let r3 = r2.drop_first();
    assert(r3[0] == replies[3]);
    lemma_answers_step(schema, fourth, r3);
    law_identical_index_is_left_alone(table, columns, replies, known.table, known.columns);
}

/// Once an index is there, whether it was created or found, creating it again finds it: where
/// the schema has not changed since, the second run reports that it already exists, under the
/// same name where the columns are spelled the same, and asks the database questions only.
/// The columns may be spelled in another case the second time.
pub proof fn law_creating_an_index_again_changes_nothing(
    table: Seq<char>,
    columns: Seq<Seq<char>>,
    again: Seq<Seq<char>>,
    before: Schema,
    first: Seq<Reply>,
    later: Schema,
    second: Seq<Reply>,
)
    requires
        before.answers_all(Index::start(table, columns), first),
        Index::start(table, columns).after_all(first).stage matches Stage::Indexed(outcome)
            && before.becomes(Index::start(table, columns), outcome, later),
        same_ident_lists(columns, again),
        later.answers_all(Index::start(table, again), second),
        second.len() >= 4,
    ensures
        Index::start(table, again).after_all(second).stage == Stage::Indexed(
            IndexOutcome::AlreadyExists,
        ),
        same_ignoring_case(
            Index::start(table, columns).name(),
            Index::start(table, again).name(),
        ),
        Index::start(table, again).asked(second) == questions(table, again) + seq![
            query(index_info_sql(index_name_of(table, again))),
        ],
{
    let name = index_name_of(table, columns);
    let other = index_name_of(table, again);
    lemma_found_in_the_schema(table, columns, before, first);
    law_identical_indexes_have_the_same_name(table, columns, table, again);
    lemma_index_named_ignoring_case(later.indexes, name, other);
    let known = match index_named(later.indexes, name) {
        Some(known) => known,
        None => later.indexes.last(),
    };
    lemma_same_lists_as_the_same(known.columns, columns, again);
    assert forall|i: int| 0 <= i < again.len() implies has_ident(
        later.tables[table],
        #[trigger] again[i],
    ) by {
        assert(same_ignoring_case(columns[i], again[i]));
        assert(has_ident(before.tables[table], columns[i]));
        let list = before.tables[table];
        let j = choose|j: int|
            0 <= j < list.len() && same_ignoring_case(#[trigger] list[j], columns[i]);
        lemma_same_as_the_same(list[j], columns[i], again[i]);
        assert(same_ignoring_case(list[j], again[i]));
    }
    lemma_schema_with_the_index(table, again, later, second, known);
}

// ---------------------------------------------------------------------------
// Runs, request by request
// ---------------------------------------------------------------------------

/// All requests of a run that succeeds, one by one: whether the table exists, its columns,
/// whether the index's name is taken; then the statement that creates the index on all columns
/// asked for, or the question for the columns of the index that has the name.
pub proof fn law_requests_of_an_index(
    table: Seq<char>,
    columns: Seq<Seq<char>>,
    replies: Seq<Reply>,
)
    requires
        Index::start(table, columns).after_all(replies).stage is Indexed,
    ensures
        ({
            let asked = Index::start(table, columns).asked(replies);
            let name = index_name_of(table, columns);
            let outcome = Index::start(table, columns).after_all(replies).stage->Indexed_0;
            &&& asked.len() == 4
            &&& asked[0] == (Request::Query {
                sql: "SELECT COUNT(*) FROM sqlite_master WHERE type='table' AND name=?1"@,
                params: seq![table],
            })
            &&& asked[1] == (Request::Query {
                sql: table_info_sql(table),
                params: Seq::empty(),
            })
            &&& asked[2] == (Request::Query {
                sql: "SELECT tbl_name FROM sqlite_master WHERE type='index' AND name=?1 COLLATE NOCASE"@,
                params: seq![name],
            })
            &&& outcome == IndexOutcome::Created ==> asked[3] == (Request::Execute {
                sql: create_index_sql(name, table, columns),
                values: Seq::empty(),
            })
            &&& outcome == IndexOutcome::AlreadyExists ==> asked[3] == (Request::Query {
                sql: index_info_sql(name),
                params: Seq::empty(),
            })
        }),
{
    let fourth = lemma_past_the_questions(table, columns, replies);
}

/// A run is about the table and the columns that it was started with, under the name that they
/// give, from beginning to end; without columns it is refused at once.
pub proof fn law_runs_keep_to_their_table(
    table: Seq<char>,
    columns: Seq<Seq<char>>,
    run: Index,
    reply: Reply,
)
    ensures
        Index::start(table, columns).table == table,
        Index::start(table, columns).columns == columns,
        Index::start(table, columns).name() == index_name_of(table, columns),
        columns.len() == 0 ==> Index::start(table, columns).stage == Stage::Refused(
            IndexFailure::NoColumns,
        ),
        columns.len() > 0 ==> !Index::start(table, columns).is_over(),
        run.after(reply).table == run.table,
        run.after(reply).columns == run.columns,
        run.name() == index_name_of(run.table, run.columns),
{
}

/// A table that does not exist is refused, and nothing more is asked.
pub proof fn law_missing_tables_are_refused(
    table: Seq<char>,
    columns: Seq<Seq<char>>,
    replies: Seq<Reply>,
)
    requires
        columns.len() > 0,
        replies.len() > 0,
        replies[0] matches Reply::Rows { headers, rows } && says_exists(rows) == Some(false),
    ensures
        Index::start(table, columns).after_all(replies).stage == Stage::Refused(
            IndexFailure::NoSuchTable,
        ),
        Index::start(table, columns).asked(replies).len() == 1,
{
    let first = Index::start(table, columns);
    lemma_step(first, replies);
    lemma_stops(first.after(replies[0]), replies.drop_first());
}

proof fn lemma_first_missing_is_first(asked_for: Seq<Seq<char>>, existing: Seq<Seq<char>>, k: int)
    requires
        0 <= k < asked_for.len(),
        !has_ident(existing, asked_for[k]),
        forall|j: int| 0 <= j < k ==> has_ident(existing, #[trigger] asked_for[j]),
    ensures
        first_missing(asked_for, existing) == Some(asked_for[k]),
    decreases k,
{
    if k > 0 {
        let rest = asked_for.drop_first();
        assert(has_ident(existing, asked_for[0]));
        assert forall|j: int| 0 <= j < k - 1 implies has_ident(existing, #[trigger] rest[j]) by {
            assert(rest[j] == asked_for[j + 1]);
        }
        assert(rest[k - 1] == asked_for[k]);
        lemma_first_missing_is_first(rest, existing, k - 1);
    }
}

/// Of the columns that the table does not have, the first is told.
pub proof fn law_the_first_missing_column_is_told(
    table: Seq<char>,
    columns: Seq<Seq<char>>,
    replies: Seq<Reply>,
    existing: Seq<Seq<char>>,
    k: int,
)
    requires
        replies.len() >= 2,
        table_found(replies[0]),
        replies[1] is Rows,
        text_column(replies[1]->rows, 1) == Some(existing),
        0 <= k < columns.len(),
        !has_ident(existing, columns[k]),
        forall|j: int| 0 <= j < k ==> has_ident(existing, #[trigger] columns[j]),
    ensures
        Index::start(table, columns).after_all(replies).stage == Stage::Refused(
            IndexFailure::NoSuchColumn(columns[k]),
        ),
{
    let first = Index::start(table, columns);
    lemma_step(first, replies);
    let second = first.after(replies[0]);
    let r1 = replies.drop_first();
    assert(r1[0] == replies[1]);
    lemma_step(second, r1);
    lemma_first_missing_is_first(columns, existing, k);
    lemma_stops(second.after(r1[0]), r1.drop_first());
}

/// A failure of the database is told with its cause, in full, and with what was being done, and
/// ends the run.
pub proof fn law_failures_of_runs_are_told(run: Index, at: FailedAt, cause: Seq<char>)
    requires
        !run.is_over(),
    ensures
        run.after(Reply::Failed { at, cause }).stage == Stage::Refused(
            IndexFailure::Failed {
                doing: match run.stage {
                    Stage::LookUpTable => IndexTask::LookUpTable,
                    Stage::ListColumns => IndexTask::ListColumns,
                    Stage::FindIndex => IndexTask::FindIndex,
                    Stage::ReadIndex(_) => IndexTask::ReadIndex,
                    _ => IndexTask::Create,
                },
                cause,
            },
        ),
{
}

/// Errors are seen as they are.
pub proof fn law_views_of_index_errors(e: IndexError)
    ensures
        e is NoColumns <==> e@ is NoColumns,
        e is NoSuchTable <==> e@ is NoSuchTable,
        e matches IndexError::NoSuchColumn(column) ==> e@ == IndexFailure::NoSuchColumn(column@),
        e matches IndexError::Collision { table, columns } ==> (e@ matches IndexFailure::Collision {
            table: t,
            columns: list,
        } && t == table@ && list == Seq::new(columns@.len(), |c: int| columns@[c]@)),
        e matches IndexError::Failed { doing, cause } ==> e@ == (IndexFailure::Failed {
            doing,
            cause: cause@,
        }),
        e matches IndexError::UnexpectedReply { doing } ==> e@ == (IndexFailure::UnexpectedReply {
            doing,
        }),
{
    if let IndexError::Collision { table, columns } = e {
        assert(texts(columns@) =~= Seq::new(columns@.len(), |c: int| columns@[c]@));
    }
}

} // verus!
