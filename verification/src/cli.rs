//! The command line: what the options ask for, and in which order it is done.

use crate::db::optional_text;
use crate::load::IfExists;
use crate::query::OutputFormat;
use crate::text::{
    chars_of, copy_of, joined, lemma_trimmed, lemma_trimmed_identity, same_text, texts, trim,
    trimmed,
};
use vstd::prelude::*;
use vstd::utf8::encode_utf8;

verus! {

/// Why the options make no sense.
#[derive(Debug, Clone, Copy, PartialEq, Eq, Structural)]
pub enum UsageError {
    /// One table name for several inputs.
    TableForManyInputs,
    /// A delimiter that is not one byte.
    Delimiter,
    /// Inputs to load together with a database that is only to be queried.
    InputsWithDatabase,
    /// An output database, and nothing to load into it.
    NoInputs,
    /// No database.
    NoDatabase,
    /// An index on a table that nothing names.
    IndexWithoutTable,
    /// An index on one of several tables.
    IndexAmongManyTables,
    /// An index without columns: the one at this position.
    EmptyIndex(usize),
}

impl UsageError {
    /// What is wrong, in words; `given` is the option's value, as the message shows it.
    pub open spec fn text(self, given: Seq<char>) -> Seq<char> {
        match self {
            UsageError::TableForManyInputs => "--table cannot be used with multiple input files"@,
            UsageError::Delimiter => "--delim must be a single byte character (got "@ + given
                + "); use \\t for tab"@,
            UsageError::InputsWithDatabase => "--db is for querying an existing database; do not pass CSV inputs (use -o to load)"@,
            UsageError::NoInputs => "no input CSV files given (pass at least one, with -o DB)"@,
            UsageError::NoDatabase => "must specify an output database with -o DB (to load) or --db DB (to query)"@,
            UsageError::IndexWithoutTable => "--index requires --table to name the target table when not loading a CSV"@,
            UsageError::IndexAmongManyTables => "--index requires --table to pick which table to index when loading multiple files"@,
            UsageError::EmptyIndex(_) => "--index requires at least one column name (got "@ + given
                + ")"@,
        }
    }

    /// What is wrong, in words; `given` is the option's value, as the message is to show it.
    pub fn message(self, given: &str) -> (r: String)
        ensures
            r@ == self.text(given@),
            self is Delimiter ==> r@ == "--delim must be a single byte character (got "@ + given@
                + "); use \\t for tab"@,
            self is EmptyIndex ==> r@ == "--index requires at least one column name (got "@ + given@
                + ")"@,
    {
        match self {
            UsageError::TableForManyInputs => copy_of(
                "--table cannot be used with multiple input files",
            ),
            UsageError::Delimiter => {
                let mut out = copy_of("--delim must be a single byte character (got ");
                out.append(given);
                out.append("); use \\t for tab");
                out
            },
            UsageError::InputsWithDatabase => copy_of(
                "--db is for querying an existing database; do not pass CSV inputs (use -o to load)",
            ),
            UsageError::NoInputs => copy_of(
                "no input CSV files given (pass at least one, with -o DB)",
            ),
            UsageError::NoDatabase => copy_of(
                "must specify an output database with -o DB (to load) or --db DB (to query)",
            ),
            UsageError::IndexWithoutTable => copy_of(
                "--index requires --table to name the target table when not loading a CSV",
            ),
            UsageError::IndexAmongManyTables => copy_of(
                "--index requires --table to pick which table to index when loading multiple files",
            ),
            UsageError::EmptyIndex(_) => {
                let mut out = copy_of("--index requires at least one column name (got ");
                out.append(given);
                out.append(")");
                out
            },
        }
    }
}

// ---------------------------------------------------------------------------
// Delimiters
// ---------------------------------------------------------------------------

/// Is the text one of the spellings of the tab?
pub open spec fn spells_tab(s: Seq<char>) -> bool {
    s == "\\t"@ || s == "tab"@ || s == "TAB"@
}

/// The delimiter that a text asks for: the tab, or the text's only byte.
pub open spec fn delimiter_of(s: Seq<char>) -> Option<u8> {
    let bytes = if spells_tab(s) {
        encode_utf8("\t"@)
    } else {
        encode_utf8(s)
    };
    if bytes.len() == 1 {
        Some(bytes[0])
    } else {
        None
    }
}

/// Reads a field delimiter: one byte, or a common spelling of the tab.
pub fn delimiter_byte(s: &str) -> (r: Result<u8, UsageError>)
    ensures
        r == (match delimiter_of(s@) {
            Some(byte) => Ok(byte),
            None => Err(UsageError::Delimiter),
        }),
{
    let resolved = if same_text(s, "\\t") || same_text(s, "tab") || same_text(s, "TAB") {
        "\t"
    } else {
        s
    };
    let bytes = resolved.as_bytes();
    if bytes.len() != 1 {
        return Err(UsageError::Delimiter);
    }
    Ok(bytes[0])
}

/// The delimiters that are accepted, besides the spellings of the tab, are the texts of one
/// ASCII character; that character is the delimiter.
pub proof fn law_delimiters_are_ascii_characters(s: Seq<char>)
    ensures
        delimiter_of(s) is Some <==> (spells_tab(s) || (s.len() == 1 && (s[0] as u32) < 128)),
        spells_tab(s) ==> delimiter_of(s) == Some(9u8),
        !spells_tab(s) && delimiter_of(s) is Some ==> delimiter_of(s)->0 as u32 == s[0] as u32,
{
    reveal_strlit("\t");
    lemma_one_byte_texts("\t"@);
    lemma_one_byte_texts(s);
}

proof fn lemma_one_byte_texts(s: Seq<char>)
    ensures
        encode_utf8(s).len() == 1 <==> s.len() == 1 && (s[0] as u32) < 128,
        encode_utf8(s).len() == 1 ==> encode_utf8(s)[0] as u32 == s[0] as u32,
{
    if s.len() > 0 {
        let c = s[0] as u32;
        let rest = s.drop_first();
        assert(encode_utf8(s) == vstd::utf8::encode_scalar(c) + encode_utf8(rest));
        if rest.len() > 0 {
            assert(encode_utf8(rest) == vstd::utf8::encode_scalar(rest[0] as u32) + encode_utf8(
                rest.drop_first(),
            ));
        }
        assert(c < 128 ==> (c & 0x7f) == c) by (bit_vector);
    }
}

// ---------------------------------------------------------------------------
// Lists of columns
// ---------------------------------------------------------------------------

/// The pieces of a text between the separators in it; one more than there are separators.
pub open spec fn pieces(s: Seq<char>, sep: char) -> Seq<Seq<char>>
    decreases s.len(),
{
    if s.len() == 0 {
        seq![Seq::empty()]
    } else {
        let before = pieces(s.drop_last(), sep);
        if s.last() == sep {
            before.push(Seq::empty())
        } else {
            before.drop_last().push(before.last().push(s.last()))
        }
    }
}

/// The texts of a list without the white space around them, and without those of which
/// nothing is left.
pub open spec fn trimmed_items(list: Seq<Seq<char>>) -> Seq<Seq<char>>
    decreases list.len(),
{
    if list.len() == 0 {
        Seq::empty()
    } else {
        let before = trimmed_items(list.drop_last());
        let item = trimmed(list.last());
        if item.len() == 0 {
            before
        } else {
            before.push(item)
        }
    }
}

/// The columns that a comma-separated list names.
pub open spec fn columns_of(list: Seq<char>) -> Seq<Seq<char>> {
    trimmed_items(pieces(list, ','))
}

fn split(s: &str, sep: char) -> (r: Vec<String>)
    ensures
        texts(r@) == pieces(s@, sep),
{
    let chars = chars_of(s);
    let mut list: Vec<String> = Vec::new();
    let mut current = String::new();
    let mut i: usize = 0;
    assert(texts(list@).push(current@) =~= pieces(chars@.take(0), sep));
    while i < chars.len()
        invariant
            i <= chars@.len(),
            chars@ == s@,
            texts(list@).push(current@) == pieces(chars@.take(i as int), sep),
        decreases chars@.len() - i,
    {
        let ghost before = list@;
        let ghost word = current@;
        let ghost next = chars@.take(i + 1);
        assert(next.drop_last() == chars@.take(i as int));
        assert(next.last() == chars@[i as int]);
        if chars[i] == sep {
            list.push(current);
            current = String::new();
            assert(texts(list@) =~= texts(before).push(word));
            assert(texts(list@).push(current@) =~= pieces(next, sep));
        } else {
            current.push(chars[i]);
            assert(texts(before).push(word).drop_last() =~= texts(before));
            assert(texts(list@).push(current@) =~= pieces(next, sep));
        }
        i += 1;
    }
    assert(chars@.take(chars@.len() as int) == chars@);
    let ghost before = list@;
    let ghost word = current@;
    list.push(current);
    assert(texts(list@) =~= texts(before).push(word));
    list
}

/// Reads a comma-separated list of columns: white space around a name and empty names do
/// not count.
pub fn index_columns(list: &str) -> (r: Vec<String>)
    ensures
        texts(r@) == columns_of(list@),
{
    let parts = split(list, ',');
    let ghost all = texts(parts@);
    let mut out: Vec<String> = Vec::new();
    let mut i: usize = 0;
    assert(texts(out@) =~= trimmed_items(all.take(0)));
    while i < parts.len()
        invariant
            i <= parts@.len(),
            all == texts(parts@),
            texts(out@) == trimmed_items(all.take(i as int)),
        decreases parts@.len() - i,
    {
        assert(all.take(i + 1).drop_last() == all.take(i as int));
        let item = trim(parts[i].as_str());
        if !item.as_str().is_empty() {
            let ghost before = out@;
            let ghost word = item@;
            out.push(item);
            assert(texts(out@) =~= texts(before).push(word));
        }
        i += 1;
    }
    assert(all.take(all.len() as int) == all);
    out
}

/// Splitting loses nothing: the pieces, with the separators put back, are the text, and no
/// piece holds a separator.
pub proof fn law_pieces_make_up_the_text(s: Seq<char>, sep: char)
    ensures
        joined(pieces(s, sep), seq![sep]) == s,
        pieces(s, sep).len() > 0,
        forall|i: int| 0 <= i < pieces(s, sep).len() ==> !(#[trigger] pieces(s, sep)[i]).contains(sep),
    decreases s.len(),
{
    let all = pieces(s, sep);
    if s.len() == 0 {
        assert(all.len() == 1);
        assert(joined(all, seq![sep]) == all[0]);
        assert(s =~= Seq::empty());
    } else {
        let front = s.drop_last();
        let before = pieces(front, sep);
        law_pieces_make_up_the_text(front, sep);
        assert(s =~= front.push(s.last()));
        if s.last() == sep {
            assert(all.drop_last() =~= before);
            assert(joined(all, seq![sep]) =~= s);
        } else {
            assert(all.drop_last() =~= before.drop_last());
            assert(joined(all, seq![sep]) =~= joined(before, seq![sep]).push(s.last()));
            assert forall|i: int| 0 <= i < all.len() implies !(#[trigger] all[i]).contains(sep) by {
                let old_piece = before[i];
                assert(!old_piece.contains(sep));
                if i == all.len() - 1 {
                    if all[i].contains(sep) {
                        let k = choose|k: int| 0 <= k < all[i].len() && all[i][k] == sep;
                        assert(old_piece[k] == sep);
                    }
                }
            }
        }
    }
}

// ---------------------------------------------------------------------------
// Options and what they ask for
// ---------------------------------------------------------------------------

/// The options of a run.
#[derive(Debug)]
pub struct Options {
    /// CSV files to load, one table per file: of each, the table name that its path gives.
    pub inputs: Vec<String>,
    /// Is there a database to load into?
    pub has_output: bool,
    /// Is there an existing database, to be used without loading?
    pub has_db: bool,
    /// The table's name, instead of the one that the file's name gives.
    pub table: Option<String>,
    /// What to do when a table already exists.
    pub if_exists: IfExists,
    /// The field delimiter.
    pub delim: String,
    /// Do the files have no header row?
    pub no_header: bool,
    /// Lists of columns to index.
    pub index: Vec<String>,
    /// A query to run at the end.
    pub query: Option<String>,
    /// How the query's result is rendered.
    pub format: OutputFormat,
}

/// What [`Options`] say, as text.
pub struct Choices {
    pub inputs: Seq<Seq<char>>,
    pub has_output: bool,
    pub has_db: bool,
    pub table: Option<Seq<char>>,
    pub if_exists: IfExists,
    pub delim: Seq<char>,
    pub no_header: bool,
    pub index: Seq<Seq<char>>,
    pub query: Option<Seq<char>>,
    pub format: OutputFormat,
}

impl View for Options {
    type V = Choices;

    open spec fn view(&self) -> Choices {
        Choices {
            inputs: texts(self.inputs@),
            has_output: self.has_output,
            has_db: self.has_db,
            table: optional_text(self.table),
            if_exists: self.if_exists,
            delim: self.delim@,
            no_header: self.no_header,
            index: texts(self.index@),
            query: optional_text(self.query),
            format: self.format,
        }
    }
}

/// The database that a run works on.
#[derive(Debug, Clone, Copy, PartialEq, Eq, Structural)]
pub enum Target {
    /// The existing one.
    Existing,
    /// The one to load into.
    Output,
    /// An empty one in memory.
    Memory,
}

/// A piece of work. Each has to succeed before the next one starts.
#[derive(Debug, PartialEq, Eq)]
pub enum Job {
    /// Load the input at this position into a table.
    Load { input: usize, table: String, if_exists: IfExists },
    /// Create an index.
    Index { table: String, columns: Vec<String> },
    /// Give up.
    Refuse(UsageError),
    /// Run a query and print its result.
    Query { sql: String, format: OutputFormat },
}

/// A [`Job`] as text.
pub enum Task {
    Load { input: int, table: Seq<char>, if_exists: IfExists },
    Index { table: Seq<char>, columns: Seq<Seq<char>> },
    Refuse(UsageError),
    Query { sql: Seq<char>, format: OutputFormat },
}

impl View for Job {
    type V = Task;

    open spec fn view(&self) -> Task {
        match self {
            Job::Load { input, table, if_exists } => Task::Load {
                input: *input as int,
                table: table@,
                if_exists: *if_exists,
            },
            Job::Index { table, columns } => Task::Index {
                table: table@,
                columns: texts(columns@),
            },
            Job::Refuse(e) => Task::Refuse(*e),
            Job::Query { sql, format } => Task::Query { sql: sql@, format: *format },
        }
    }
}

/// A list of jobs as text.
pub open spec fn tasks_of(jobs: Seq<Job>) -> Seq<Task> {
    Seq::new(jobs.len(), |i: int| jobs[i]@)
}

/// What a run does.
#[derive(Debug)]
pub struct Plan {
    /// The database to open.
    pub target: Target,
    /// The field delimiter of the inputs.
    pub delimiter: u8,
    /// Do the inputs have a header row?
    pub has_header: bool,
    /// The work to do, in order.
    pub jobs: Vec<Job>,
}

impl Choices {
    /// What is wrong with the options, before anything is done.
    pub open spec fn error(self) -> Option<UsageError> {
        if self.table is Some && self.inputs.len() > 1 {
            Some(UsageError::TableForManyInputs)
        } else if delimiter_of(self.delim) is None {
            Some(UsageError::Delimiter)
        } else if self.has_db {
            if self.inputs.len() > 0 {
                Some(UsageError::InputsWithDatabase)
            } else {
                None
            }
        } else if self.has_output {
            if self.inputs.len() == 0 {
                Some(UsageError::NoInputs)
            } else {
                None
            }
        } else if self.query is Some && self.inputs.len() == 0 {
            None
        } else {
            Some(UsageError::NoDatabase)
        }
    }

    /// The database to work on.
    pub open spec fn target(self) -> Target {
        if self.has_db {
            Target::Existing
        } else if self.has_output {
            Target::Output
        } else {
            Target::Memory
        }
    }

    /// The table that the input at position `i` is loaded into.
    pub open spec fn table_for(self, i: int) -> Seq<char> {
        match self.table {
            Some(name) => name,
            None => self.inputs[i],
        }
    }

    /// The loads: one per input.
    pub open spec fn loads(self) -> Seq<Task> {
        Seq::new(
            self.inputs.len(),
            |i: int|
                Task::Load { input: i, table: self.table_for(i), if_exists: self.if_exists },
        )
    }

    /// The index at position `i`, on a table.
    pub open spec fn index_on(self, table: Seq<char>, i: int) -> Task {
        if columns_of(self.index[i]).len() == 0 {
            Task::Refuse(UsageError::EmptyIndex(i as usize))
        } else {
            Task::Index { table, columns: columns_of(self.index[i]) }
        }
    }

    /// The indexes, on the table that is named or on the only one that is loaded.
    pub open spec fn indexes(self) -> Seq<Task> {
        if self.index.len() == 0 {
            Seq::empty()
        } else if self.table is Some || self.inputs.len() == 1 {
            Seq::new(self.index.len(), |i: int| self.index_on(self.table_for(0), i))
        } else if self.inputs.len() == 0 {
            seq![Task::Refuse(UsageError::IndexWithoutTable)]
        } else {
            seq![Task::Refuse(UsageError::IndexAmongManyTables)]
        }
    }

    /// The query, where there is one.
    pub open spec fn queries(self) -> Seq<Task> {
        match self.query {
            Some(sql) => seq![Task::Query { sql, format: self.format }],
            None => Seq::empty(),
        }
    }

    /// All the work: first the loads, then the indexes, at last the query, which can then
    /// use them.
    pub open spec fn tasks(self) -> Seq<Task> {
        self.loads() + self.indexes() + self.queries()
    }
}

fn table_of_input(options: &Options, i: usize) -> (r: String)
    requires
        options.table is Some || i < options.inputs@.len(),
    ensures
        r@ == options@.table_for(i as int),
{
    match &options.table {
        Some(name) => name.clone(),
        None => options.inputs[i].clone(),
    }
}

fn plan_loads(options: &Options) -> (r: Vec<Job>)
    ensures
        tasks_of(r@) == options@.loads(),
{
    let ghost full = options@.loads();
    let mut jobs: Vec<Job> = Vec::new();
    let mut i: usize = 0;
    while i < options.inputs.len()
        invariant
            i <= options.inputs@.len(),
            full == options@.loads(),
            tasks_of(jobs@) == full.take(i as int),
        decreases options.inputs@.len() - i,
    {
        let job = Job::Load {
            input: i,
            table: table_of_input(options, i),
            if_exists: options.if_exists,
        };
        let ghost before = jobs@;
        let ghost task = job@;
        jobs.push(job);
        assert(tasks_of(jobs@) =~= tasks_of(before).push(task));
        assert(full.take(i + 1) =~= full.take(i as int).push(task));
        i += 1;
    }
    assert(full.take(full.len() as int) == full);
    jobs
}

fn plan_indexes(options: &Options, jobs: &mut Vec<Job>)
    ensures
        tasks_of(final(jobs)@) == tasks_of(old(jobs)@) + options@.indexes(),
{
    let ghost start = tasks_of(jobs@);
    let ghost full = options@.indexes();
    let n = options.index.len();
    if n == 0 {
        assert(start + full =~= start);
        return;
    }
    if options.table.is_none() && options.inputs.len() != 1 {
        let e = if options.inputs.len() == 0 {
            UsageError::IndexWithoutTable
        } else {
            UsageError::IndexAmongManyTables
        };
        jobs.push(Job::Refuse(e));
        assert(tasks_of(jobs@) =~= start + full);
        return;
    }
    let table = table_of_input(options, 0);
    let mut i: usize = 0;
    assert(start + full.take(0) =~= start);
    while i < n
        invariant
            i <= n,
            n == options.index@.len(),
            full == Seq::new(n as nat, |i: int| options@.index_on(table@, i)),
            tasks_of(jobs@) == start + full.take(i as int),
        decreases n - i,
    {
        let columns = index_columns(options.index[i].as_str());
        let job = if columns.len() == 0 {
            Job::Refuse(UsageError::EmptyIndex(i))
        } else {
            Job::Index { table: table.clone(), columns }
        };
        let ghost before = jobs@;
        let ghost task = job@;
        assert(task == full[i as int]) by {
            assert(options@.index[i as int] == options.index@[i as int]@);
            assert(columns_of(options@.index[i as int]).len() == columns@.len());
        }
        jobs.push(job);
        assert(tasks_of(jobs@) =~= tasks_of(before).push(task));
        assert(full.take(i + 1) =~= full.take(i as int).push(task));
        assert(start + full.take(i + 1) =~= (start + full.take(i as int)).push(task));
        i += 1;
    }
    assert(full.take(full.len() as int) == full);
}

/// Works out what the options ask for.
pub fn plan(options: &Options) -> (r: Result<Plan, UsageError>)
    ensures
        r is Ok <==> options@.error() is None,
        r matches Err(e) ==> options@.error() == Some(e),
        r matches Ok(plan) ==> {
            &&& plan.target == options@.target()
            &&& delimiter_of(options@.delim) == Some(plan.delimiter)
            &&& plan.has_header == !options@.no_header
            &&& tasks_of(plan.jobs@) == options@.tasks()
        },
{
    let inputs = options.inputs.len();
    if options.table.is_some() && inputs > 1 {
        return Err(UsageError::TableForManyInputs);
    }
    let delimiter = match delimiter_byte(options.delim.as_str()) {
        Ok(byte) => byte,
        Err(e) => {
            return Err(e);
        },
    };
    let target = if options.has_db {
        if inputs > 0 {
            return Err(UsageError::InputsWithDatabase);
        }
        Target::Existing
    } else if options.has_output {
        if inputs == 0 {
            return Err(UsageError::NoInputs);
        }
        Target::Output
    } else if options.query.is_some() && inputs == 0 {
        Target::Memory
    } else {
        return Err(UsageError::NoDatabase);
    };
    let mut jobs = plan_loads(options);
    plan_indexes(options, &mut jobs);
    let ghost before = jobs@;
    match &options.query {
        Some(sql) => {
            jobs.push(Job::Query { sql: sql.clone(), format: options.format });
        },
        None => {},
    }
    assert(tasks_of(jobs@) =~= options@.tasks());
    Ok(Plan { target, delimiter, has_header: !options.no_header, jobs })
}

/// Every input is loaded, each by one load of its own, in the order in which they were given,
/// before anything else is done; nothing else is loaded.
pub proof fn law_one_load_per_input(choices: Choices, k: int)
    requires
        0 <= k < choices.tasks().len(),
    ensures
        choices.inputs.len() <= choices.tasks().len(),
        k < choices.inputs.len() ==> choices.tasks()[k] == (Task::Load {
            input: k,
            table: choices.table_for(k),
            if_exists: choices.if_exists,
        }),
        choices.tasks()[k] is Load <==> k < choices.inputs.len(),
{
}

/// Nothing is loaded into a database that is to be used as it is.
pub proof fn law_existing_databases_are_not_loaded_into(choices: Choices, k: int)
    requires
        choices.has_db,
        choices.error() is None,
        0 <= k < choices.tasks().len(),
    ensures
        choices.target() == Target::Existing,
        !(choices.tasks()[k] is Load),
{
}

/// A query runs last, after every index was created.
pub proof fn law_the_query_comes_last(choices: Choices, k: int)
    requires
        0 <= k < choices.tasks().len(),
    ensures
        choices.tasks()[k] is Query <==> choices.query is Some && k == choices.tasks().len() - 1,
{
}

/// Every index that is created has at least one column, and none of its columns' names is
/// empty or has white space around it.
pub proof fn law_indexes_have_columns(choices: Choices, k: int)
    requires
        0 <= k < choices.tasks().len(),
        choices.tasks()[k] is Index,
    ensures
        ({
            let columns = choices.tasks()[k]->columns;
            &&& columns.len() > 0
            &&& forall|c: int|
                0 <= c < columns.len() ==> (#[trigger] columns[c]).len() > 0 && trimmed(columns[c])
                    == columns[c]
        }),
{
    let at = k - choices.loads().len();
    assert(choices.tasks()[k] == choices.indexes()[at]);
    lemma_trimmed_items(pieces(choices.index[at], ','));
}

proof fn lemma_trimmed_items(list: Seq<Seq<char>>)
    ensures
        forall|c: int|
            0 <= c < trimmed_items(list).len() ==> (#[trigger] trimmed_items(list)[c]).len() > 0
                && trimmed(trimmed_items(list)[c]) == trimmed_items(list)[c],
    decreases list.len(),
{
    if list.len() > 0 {
        let before = trimmed_items(list.drop_last());
        lemma_trimmed_items(list.drop_last());
        lemma_trimmed(list.last());
        lemma_trimmed_identity(trimmed(list.last()));
        assert forall|c: int| 0 <= c < trimmed_items(list).len() implies (
        #[trigger] trimmed_items(list)[c]).len() > 0 && trimmed(trimmed_items(list)[c])
            == trimmed_items(list)[c] by {
            if c < before.len() {
                assert(trimmed_items(list)[c] == before[c]);
            }
        }
    }
}

// ---------------------------------------------------------------------------
// What holds of options
// ---------------------------------------------------------------------------

proof fn lemma_pieces_add(a: Seq<char>, b: Seq<char>, sep: char)
    ensures
        pieces(a + seq![sep] + b, sep) == pieces(a, sep) + pieces(b, sep),
    decreases b.len(),
{
    let s = a + seq![sep] + b;
    law_pieces_make_up_the_text(b, sep);
    if b.len() == 0 {
        assert(s.drop_last() =~= a);
        assert(s.last() == sep);
        assert(pieces(s, sep) =~= pieces(a, sep) + pieces(b, sep));
    } else {
        let less = b.drop_last();
        lemma_pieces_add(a, less, sep);
        law_pieces_make_up_the_text(less, sep);
        assert(s.drop_last() =~= a + seq![sep] + less);
        assert(s.last() == b.last());
        let before = pieces(a, sep) + pieces(less, sep);
        assert(before.drop_last() =~= pieces(a, sep) + pieces(less, sep).drop_last());
        assert(before.last() == pieces(less, sep).last());
        assert(pieces(s, sep) =~= pieces(a, sep) + pieces(b, sep));
    }
}

proof fn lemma_one_piece(s: Seq<char>, sep: char)
    requires
        !s.contains(sep),
    ensures
        pieces(s, sep) == seq![s],
    decreases s.len(),
{
    if s.len() == 0 {
        assert(s =~= Seq::<char>::empty());
    } else {
        let less = s.drop_last();
        assert(s[s.len() - 1] != sep);
        assert(!less.contains(sep)) by {
            if less.contains(sep) {
                let k = choose|k: int| 0 <= k < less.len() && less[k] == sep;
                assert(s[k] == sep);
            }
        }
        lemma_one_piece(less, sep);
        assert(seq![less].last().push(s.last()) =~= s);
        assert(pieces(s, sep) =~= seq![s]);
    }
}

proof fn lemma_trimmed_items_add(a: Seq<Seq<char>>, b: Seq<Seq<char>>)
    ensures
        trimmed_items(a + b) == trimmed_items(a) + trimmed_items(b),
    decreases b.len(),
{
    if b.len() == 0 {
        assert(a + b =~= a);
        assert(trimmed_items(a) + trimmed_items(b) =~= trimmed_items(a));
    } else {
        lemma_trimmed_items_add(a, b.drop_last());
        assert((a + b).drop_last() =~= a + b.drop_last());
        assert((a + b).last() == b.last());
        assert(trimmed_items(a + b) =~= trimmed_items(a) + trimmed_items(b));
    }
}

/// A comma-separated list names the columns before a comma and those behind it, in order; a list
/// without a comma names one column, without the white space around it, or none where it is
/// blank.
pub proof fn law_lists_of_columns(a: Seq<char>, b: Seq<char>)
    ensures
        columns_of(a + seq![','] + b) == columns_of(a) + columns_of(b),
        !a.contains(',') && trimmed(a).len() > 0 ==> columns_of(a) == seq![trimmed(a)],
        !a.contains(',') && trimmed(a).len() == 0 ==> columns_of(a) == Seq::<Seq<char>>::empty(),
{
    lemma_pieces_add(a, b, ',');
    lemma_trimmed_items_add(pieces(a, ','), pieces(b, ','));
    if !a.contains(',') {
        lemma_one_piece(a, ',');
        let one = seq![a];
        assert(one.drop_last() =~= Seq::<Seq<char>>::empty());
        assert(trimmed_items(one.drop_last()) == Seq::<Seq<char>>::empty());
        assert(trimmed_items(one) =~= if trimmed(a).len() == 0 {
            Seq::empty()
        } else {
            seq![trimmed(a)]
        });
    }
}

/// The spellings of the tab, and no others, are taken for it.
pub proof fn law_spellings_of_the_tab(s: Seq<char>)
    ensures
        spells_tab(s) <==> s == "\\t"@ || s == "tab"@ || s == "TAB"@,
{
}

/// Which options make no sense, in the order in which that is found out, and which database the
/// others ask for.
pub proof fn law_usage(choices: Choices)
    ensures
        choices.error() == Some(UsageError::TableForManyInputs) <==> choices.table is Some
            && choices.inputs.len() > 1,
        choices.error() == Some(UsageError::Delimiter) <==> !(choices.table is Some
            && choices.inputs.len() > 1) && delimiter_of(choices.delim) is None,
        ({
            let good = !(choices.table is Some && choices.inputs.len() > 1) && delimiter_of(
                choices.delim,
            ) is Some;
            let inputs = choices.inputs.len();
            &&& good && choices.has_db && inputs > 0 ==> choices.error() == Some(
                UsageError::InputsWithDatabase,
            )
            &&& good && choices.has_db && inputs == 0 ==> choices.error() is None
                && choices.target() == Target::Existing
            &&& good && !choices.has_db && choices.has_output && inputs == 0 ==> choices.error()
                == Some(UsageError::NoInputs)
            &&& good && !choices.has_db && choices.has_output && inputs > 0 ==> choices.error()
                is None && choices.target() == Target::Output
            &&& good && !choices.has_db && !choices.has_output && choices.query is Some && inputs
                == 0 ==> choices.error() is None && choices.target() == Target::Memory
            &&& good && !choices.has_db && !choices.has_output && !(choices.query is Some && inputs
                == 0) ==> choices.error() == Some(UsageError::NoDatabase)
        }),
{
}

/// What is done, one by one: every input is loaded into the table that is named, or else the one
/// that its own file's name gives; then every list of columns becomes an index on the table that
/// is named, or else on the only one that is loaded; then the query is run as it is, with the
/// output format asked for. An index that cannot be is refused in its place.
pub proof fn law_tasks(choices: Choices, k: int)
    ensures
        0 <= k < choices.inputs.len() ==> choices.tasks()[k] == (Task::Load {
            input: k,
            table: match choices.table {
                Some(name) => name,
                None => choices.inputs[k],
            },
            if_exists: choices.if_exists,
        }),
        ({
            let n = choices.inputs.len() as int;
            let one_table = choices.table is Some || n == 1;
            let table = match choices.table {
                Some(name) => name,
                None => choices.inputs[0],
            };
            let indexes = if one_table || choices.index.len() == 0 {
                choices.index.len() as int
            } else {
                1
            };
            let queries: int = if choices.query is Some {
                1
            } else {
                0
            };
            &&& choices.tasks().len() == n + indexes + queries
            &&& one_table && 0 <= k < choices.index.len() && columns_of(choices.index[k]).len() > 0
                ==> choices.tasks()[n + k] == (Task::Index {
                table,
                columns: columns_of(choices.index[k]),
            })
            &&& one_table && 0 <= k < choices.index.len() && columns_of(choices.index[k]).len()
                == 0 ==> choices.tasks()[n + k] == Task::Refuse(UsageError::EmptyIndex(k as usize))
            &&& !one_table && choices.index.len() > 0 && n == 0 ==> choices.tasks()[n]
                == Task::Refuse(UsageError::IndexWithoutTable)
            &&& !one_table && choices.index.len() > 0 && n > 1 ==> choices.tasks()[n]
                == Task::Refuse(UsageError::IndexAmongManyTables)
            &&& choices.query matches Some(sql) ==> choices.tasks()[n + indexes] == (Task::Query {
                sql,
                format: choices.format,
            })
        }),
{
}

/// Options are taken as they are given.
pub proof fn law_views_of_options(options: Options)
    ensures
        options@.inputs == Seq::new(options.inputs@.len(), |i: int| options.inputs@[i]@),
        options@.has_output == options.has_output,
        options@.has_db == options.has_db,
        options.table matches Some(name) ==> options@.table == Some(name@),
        options.table is None ==> options@.table is None,
        options@.if_exists == options.if_exists,
        options@.delim == options.delim@,
        options@.no_header == options.no_header,
        options@.index == Seq::new(options.index@.len(), |i: int| options.index@[i]@),
        options.query matches Some(sql) ==> options@.query == Some(sql@),
        options.query is None ==> options@.query is None,
        options@.format == options.format,
{
    assert(options@.inputs =~= Seq::new(options.inputs@.len(), |i: int| options.inputs@[i]@));
    assert(options@.index =~= Seq::new(options.index@.len(), |i: int| options.index@[i]@));
}

/// Jobs say in full what they are about, and a list of jobs is all of them, in order.
pub proof fn law_views_of_jobs(jobs: Seq<Job>, i: int)
    requires
        0 <= i < jobs.len(),
    ensures
        tasks_of(jobs).len() == jobs.len(),
        jobs[i] matches Job::Load { input, table, if_exists } ==> tasks_of(jobs)[i] == (Task::Load {
            input: input as int,
            table: table@,
            if_exists,
        }),
        jobs[i] matches Job::Index { table, columns } ==> (tasks_of(jobs)[i] matches Task::Index {
            table: t,
            columns: list,
        } && t == table@ && list == Seq::new(columns@.len(), |c: int| columns@[c]@)),
        jobs[i] matches Job::Refuse(e) ==> tasks_of(jobs)[i] == Task::Refuse(e),
        jobs[i] matches Job::Query { sql, format } ==> tasks_of(jobs)[i] == (Task::Query {
            sql: sql@,
            format,
        }),
{
    if let Job::Index { table, columns } = jobs[i] {
        assert(texts(columns@) =~= Seq::new(columns@.len(), |c: int| columns@[c]@));
    }
}

} // verus!
