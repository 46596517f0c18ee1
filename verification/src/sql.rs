//! The SQL statements that the library sends.

use crate::ident::{
    law_quoted_identifier_reads_back, lemma_read_quoted_shrinks, quote_ident, quoted, read_quoted,
};
use crate::infer::ColType;
use crate::number::{
    all_digits, decimal, decimal_value, leading_digits, lemma_decimal, lemma_leading_digits_bounded,
    lemma_leading_digits_of, push_decimal,
};
use crate::table::{LoadedTable, Table};
use crate::text::{ascii_digit, copy_of, join, joined, lemma_joined_front, texts};
use vstd::prelude::*;

verus! {

/// A column as it is declared in `CREATE TABLE`.
pub open spec fn column_definition(name: Seq<char>, ty: ColType) -> Seq<char> {
    quoted(name) + " "@ + ty.keyword()
}

/// The declared columns of a table: those with both a name and a type.
pub open spec fn column_definitions(t: Table) -> Seq<Seq<char>> {
    let n = if t.columns.len() < t.types.len() {
        t.columns.len()
    } else {
        t.types.len()
    };
    Seq::new(n, |i: int| column_definition(t.columns[i], t.types[i]))
}

/// The `CREATE TABLE` statement for a table.
pub open spec fn create_table_sql(t: Table) -> Seq<char> {
    "CREATE TABLE "@ + quoted(t.name) + " ("@ + joined(column_definitions(t), ", "@) + ")"@
}

/// Generates the `CREATE TABLE` DDL for a loaded table.
pub fn create_table_ddl(table: &LoadedTable) -> (r: String)
    ensures
        r@ == create_table_sql(table@),
{
    let ghost full = column_definitions(table@);
    let mut definitions: Vec<String> = Vec::new();
    let mut i: usize = 0;
    while i < table.columns.len() && i < table.types.len()
        invariant
            i <= full.len(),
            full == column_definitions(table@),
            texts(definitions@) == full.take(i as int),
        decreases table.columns@.len() - i,
    {
        let mut definition = quote_ident(table.columns[i].as_str());
        definition.append(" ");
        definition.append(table.types[i].sql_keyword());
        let ghost before = definitions@;
        definitions.push(definition);
        assert(texts(definitions@) =~= texts(before).push(definition@));
        assert(full.take(i + 1) =~= full.take(i as int).push(definition@));
        i += 1;
    }
    assert(full.take(full.len() as int) == full);
    let mut out = copy_of("CREATE TABLE ");
    out.append(quote_ident(table.name.as_str()).as_str());
    out.append(" (");
    out.append(join(definitions.as_slice(), ", ").as_str());
    out.append(")");
    out
}

/// Identifiers, quoted, with commas between them.
pub open spec fn quoted_list(names: Seq<Seq<char>>) -> Seq<char> {
    joined(Seq::new(names.len(), |i: int| quoted(names[i])), ", "@)
}

fn quote_list(names: &[String]) -> (r: String)
    ensures
        r@ == quoted_list(texts(names@)),
{
    let ghost full = Seq::new(texts(names@).len(), |i: int| quoted(texts(names@)[i]));
    let mut list: Vec<String> = Vec::new();
    let mut i: usize = 0;
    while i < names.len()
        invariant
            i <= names@.len(),
            full == Seq::new(texts(names@).len(), |i: int| quoted(texts(names@)[i])),
            texts(list@) == full.take(i as int),
        decreases names@.len() - i,
    {
        let name = quote_ident(names[i].as_str());
        let ghost before = list@;
        list.push(name);
        assert(texts(list@) =~= texts(before).push(name@));
        assert(full.take(i + 1) =~= full.take(i as int).push(name@));
        i += 1;
    }
    assert(full.take(full.len() as int) == full);
    join(list.as_slice(), ", ")
}

/// The parameter at index `i` of a statement.
pub open spec fn placeholder(i: int) -> Seq<char> {
    "?"@ + decimal((i + 1) as nat)
}

/// `n` numbered parameters with commas between them.
pub open spec fn placeholders(n: nat) -> Seq<char> {
    joined(Seq::new(n, |i: int| placeholder(i)), ", "@)
}

fn make_placeholders(n: usize) -> (r: String)
    ensures
        r@ == placeholders(n as nat),
{
    let ghost full = Seq::new(n as nat, |i: int| placeholder(i));
    let mut list: Vec<String> = Vec::new();
    let mut i: usize = 0;
    while i < n
        invariant
            i <= n,
            full == Seq::new(n as nat, |i: int| placeholder(i)),
            texts(list@) == full.take(i as int),
        decreases n - i,
    {
        let mut name = copy_of("?");
        push_decimal(&mut name, (i + 1) as u64);
        let ghost before = list@;
        list.push(name);
        assert(texts(list@) =~= texts(before).push(name@));
        assert(full.take(i + 1) =~= full.take(i as int).push(name@));
        i += 1;
    }
    assert(full.take(full.len() as int) == full);
    join(list.as_slice(), ", ")
}

/// The `INSERT` statement for a table: one numbered parameter per column.
pub open spec fn insert_sql(name: Seq<char>, columns: Seq<Seq<char>>) -> Seq<char> {
    "INSERT INTO "@ + quoted(name) + " ("@ + quoted_list(columns) + ") VALUES ("@ + placeholders(
        columns.len(),
    ) + ")"@
}

/// Generates the `INSERT` statement for a table.
pub fn insert_statement(name: &str, columns: &[String]) -> (r: String)
    ensures
        r@ == insert_sql(name@, texts(columns@)),
{
    let mut out = copy_of("INSERT INTO ");
    out.append(quote_ident(name).as_str());
    out.append(" (");
    out.append(quote_list(columns).as_str());
    out.append(") VALUES (");
    out.append(make_placeholders(columns.len()).as_str());
    out.append(")");
    out
}

/// The `DROP TABLE` statement for a table.
pub open spec fn drop_table_sql(name: Seq<char>) -> Seq<char> {
    "DROP TABLE "@ + quoted(name)
}

/// Generates the `DROP TABLE` statement for a table.
pub fn drop_table_statement(name: &str) -> (r: String)
    ensures
        r@ == drop_table_sql(name@),
{
    let mut out = copy_of("DROP TABLE ");
    out.append(quote_ident(name).as_str());
    out
}

/// The `CREATE INDEX` statement for an index.
pub open spec fn create_index_sql(
    index: Seq<char>,
    table: Seq<char>,
    columns: Seq<Seq<char>>,
) -> Seq<char> {
    "CREATE INDEX "@ + quoted(index) + " ON "@ + quoted(table) + " ("@ + quoted_list(columns)
        + ")"@
}

/// Generates the `CREATE INDEX` statement for an index.
pub fn create_index_statement(index: &str, table: &str, columns: &[String]) -> (r: String)
    ensures
        r@ == create_index_sql(index@, table@, texts(columns@)),
{
    let mut out = copy_of("CREATE INDEX ");
    out.append(quote_ident(index).as_str());
    out.append(" ON ");
    out.append(quote_ident(table).as_str());
    out.append(" (");
    out.append(quote_list(columns).as_str());
    out.append(")");
    out
}

/// The pragma that lists the columns of a table.
pub open spec fn table_info_sql(table: Seq<char>) -> Seq<char> {
    "PRAGMA table_info("@ + quoted(table) + ")"@
}

/// Generates the pragma that lists the columns of a table.
pub fn table_info_statement(table: &str) -> (r: String)
    ensures
        r@ == table_info_sql(table@),
{
    let mut out = copy_of("PRAGMA table_info(");
    out.append(quote_ident(table).as_str());
    out.append(")");
    out
}

/// The pragma that lists the columns of an index.
pub open spec fn index_info_sql(index: Seq<char>) -> Seq<char> {
    "PRAGMA index_info("@ + quoted(index) + ")"@
}

/// Generates the pragma that lists the columns of an index.
pub fn index_info_statement(index: &str) -> (r: String)
    ensures
        r@ == index_info_sql(index@),
{
    let mut out = copy_of("PRAGMA index_info(");
    out.append(quote_ident(index).as_str());
    out.append(")");
    out
}

// ---------------------------------------------------------------------------
// What statements are about
// ---------------------------------------------------------------------------

/// The quoted identifiers that SQL text starts with, with a comma and a space between them,
/// and the text behind them.
pub open spec fn read_quoted_list(s: Seq<char>) -> Option<(Seq<Seq<char>>, Seq<char>)>
    decreases s.len(),
{
    proof {
        lemma_read_quoted_shrinks(s);
    }
    match read_quoted(s) {
        Some((name, rest)) => if rest.len() >= 2 && rest[0] == ',' && rest[1] == ' ' {
            match read_quoted_list(rest.skip(2)) {
                Some((names, end)) => Some((seq![name] + names, end)),
                None => None,
            }
        } else {
            Some((seq![name], rest))
        },
        None => None,
    }
}

/// Whatever the names hold, a list of quoted names in SQL text reads back as those names, and
/// the text goes on right behind it.
pub proof fn law_quoted_lists_read_back(names: Seq<Seq<char>>, rest: Seq<char>)
    requires
        names.len() > 0,
        rest.len() > 0 ==> rest[0] != '"' && rest[0] != ',',
    ensures
        read_quoted_list(quoted_list(names) + rest) == Some((names, rest)),
    decreases names.len(),
{
    let list = Seq::new(names.len(), |i: int| quoted(names[i]));
    let s = quoted_list(names) + rest;
    if names.len() == 1 {
        law_quoted_identifier_reads_back(names[0], rest);
        assert(s == quoted(names[0]) + rest);
        assert(seq![names[0]] =~= names);
    } else {
        reveal_strlit(", ");
        let others = names.drop_first();
        let tail = quoted_list(others) + rest;
        lemma_joined_front(list, ", "@);
        assert(list.drop_first() =~= Seq::new(others.len(), |i: int| quoted(others[i])));
        assert(s =~= quoted(names[0]) + (", "@ + tail));
        law_quoted_identifier_reads_back(names[0], ", "@ + tail);
        law_quoted_lists_read_back(others, rest);
        assert((", "@ + tail).skip(2) =~= tail);
        assert(seq![names[0]] + others =~= names);
    }
}

/// Two `INSERT` statements that are the same are about the same table and the same columns.
pub proof fn law_insert_statements_tell_tables_apart(
    a: Seq<char>,
    a_columns: Seq<Seq<char>>,
    b: Seq<char>,
    b_columns: Seq<Seq<char>>,
)
    requires
        insert_sql(a, a_columns) == insert_sql(b, b_columns),
    ensures
        a == b,
        a_columns == b_columns,
{
    let start = "INSERT INTO "@;
    let open = " ("@;
    reveal_strlit(" (");
    reveal_strlit(") VALUES (");
    let a_end = ") VALUES ("@ + placeholders(a_columns.len()) + ")"@;
    let b_end = ") VALUES ("@ + placeholders(b_columns.len()) + ")"@;
    let a_list = quoted_list(a_columns) + a_end;
    let b_list = quoted_list(b_columns) + b_end;
    let n = start.len() as int;
    assert(insert_sql(a, a_columns).skip(n) =~= quoted(a) + (open + a_list));
    assert(insert_sql(b, b_columns).skip(n) =~= quoted(b) + (open + b_list));
    law_quoted_identifier_reads_back(a, open + a_list);
    law_quoted_identifier_reads_back(b, open + b_list);
    assert((open + a_list).skip(2) =~= a_list);
    assert((open + b_list).skip(2) =~= b_list);
    assert(a_list == b_list);
    if a_columns.len() > 0 {
        law_quoted_lists_read_back(a_columns, a_end);
    } else {
        assert(a_list[0] == ')');
    }
    if b_columns.len() > 0 {
        law_quoted_lists_read_back(b_columns, b_end);
    } else {
        assert(b_list[0] == ')');
        assert(a_columns =~= b_columns);
    }
}

/// A well-formed table's `CREATE TABLE` declares every column, with its type.
pub proof fn law_every_column_is_declared(t: Table, c: int)
    requires
        t.well_formed(),
        0 <= c < t.columns.len(),
    ensures
        column_definitions(t).len() == t.columns.len(),
        column_definitions(t)[c] == column_definition(t.columns[c], t.types[c]),
{
}

// ---------------------------------------------------------------------------
// Reading statements
// ---------------------------------------------------------------------------

/// The numbers of the numbered parameters that SQL text starts with, with a comma and a space
/// between them, and the text behind them.
pub open spec fn read_parameters(s: Seq<char>) -> Option<(Seq<int>, Seq<char>)>
    decreases s.len(),
{
    proof {
        lemma_leading_digits_bounded(s.drop_first());
    }
    if s.len() > 0 && s[0] == '?' {
        let digits = leading_digits(s.drop_first()) as int;
        let number = decimal_value(s.subrange(1, 1 + digits));
        let rest = s.skip(1 + digits);
        if digits == 0 {
            None
        } else if rest.len() >= 2 && rest[0] == ',' && rest[1] == ' ' {
            match read_parameters(rest.skip(2)) {
                Some((numbers, end)) => Some((seq![number] + numbers, end)),
                None => None,
            }
        } else {
            Some((seq![number], rest))
        }
    } else {
        None
    }
}

spec fn placeholders_from(k: nat, n: nat) -> Seq<Seq<char>> {
    Seq::new((n - k) as nat, |i: int| placeholder(k + i))
}

spec fn numbers_from(k: nat, n: nat) -> Seq<int> {
    Seq::new((n - k) as nat, |i: int| k + i + 1)
}

proof fn lemma_read_parameter(digits: Seq<char>, rest: Seq<char>)
    requires
        all_digits(digits),
        digits.len() > 0,
        rest.len() > 0 ==> !ascii_digit(rest[0]),
    ensures
        ({
            let s = seq!['?'] + (digits + rest);
            &&& s.len() > 0 && s[0] == '?'
            &&& leading_digits(s.drop_first()) == digits.len()
            &&& s.subrange(1, 1 + digits.len() as int) == digits
            &&& s.skip(1 + digits.len() as int) == rest
        }),
{
    let s = seq!['?'] + (digits + rest);
    lemma_leading_digits_of(digits, rest);
    assert(s.drop_first() =~= digits + rest);
    assert(s.subrange(1, 1 + digits.len() as int) =~= digits);
    assert(s.skip(1 + digits.len() as int) =~= rest);
}

proof fn lemma_read_last_parameter(digits: Seq<char>, rest: Seq<char>)
    requires
        all_digits(digits),
        digits.len() > 0,
        rest.len() > 0 ==> !ascii_digit(rest[0]) && rest[0] != ',',
    ensures
        read_parameters(seq!['?'] + (digits + rest)) == Some((seq![decimal_value(digits)], rest)),
{
    lemma_read_parameter(digits, rest);
}

proof fn lemma_read_one_more_parameter(
    digits: Seq<char>,
    later: Seq<char>,
    numbers: Seq<int>,
    end: Seq<char>,
)
    requires
        all_digits(digits),
        digits.len() > 0,
        read_parameters(later) == Some((numbers, end)),
    ensures
        read_parameters(seq!['?'] + (digits + (", "@ + later))) == Some(
            (seq![decimal_value(digits)] + numbers, end),
        ),
{
    reveal_strlit(", ");
    let tail = ", "@ + later;
    lemma_read_parameter(digits, tail);
    assert(tail.skip(2) =~= later);
}

proof fn lemma_placeholders_from(k: nat, n: nat, rest: Seq<char>)
    requires
        k < n,
    ensures
        n - k == 1 ==> joined(placeholders_from(k, n), ", "@) + rest == seq!['?'] + (decimal(k + 1)
            + rest),
        n - k > 1 ==> joined(placeholders_from(k, n), ", "@) + rest == seq!['?'] + (decimal(k + 1)
            + (", "@ + (joined(placeholders_from(k + 1, n), ", "@) + rest))),
{
    reveal_strlit("?");
    let list = placeholders_from(k, n);
    let digits = decimal(k + 1);
    assert(list[0] =~= seq!['?'] + digits);
    if n - k == 1 {
        assert(joined(list, ", "@) == list[0]);
        assert(list[0] + rest =~= seq!['?'] + (digits + rest));
    } else {
        let others = placeholders_from(k + 1, n);
        assert(list.drop_first() =~= others);
        lemma_joined_front(list, ", "@);
        assert(joined(list, ", "@) + rest =~= seq!['?'] + (digits + (", "@ + (joined(others, ", "@)
            + rest))));
    }
}

proof fn lemma_parameters_read_back(n: nat, k: nat, rest: Seq<char>)
    requires
        k < n,
        rest.len() > 0 ==> !ascii_digit(rest[0]) && rest[0] != ',',
    ensures
        read_parameters(joined(placeholders_from(k, n), ", "@) + rest) == Some(
            (numbers_from(k, n), rest),
        ),
    decreases n - k,
{
    let digits = decimal(k + 1);
    lemma_decimal(k + 1);
    lemma_placeholders_from(k, n, rest);
    if n - k == 1 {
        lemma_read_last_parameter(digits, rest);
        assert(numbers_from(k, n) =~= seq![decimal_value(digits)]);
    } else {
        let later = joined(placeholders_from(k + 1, n), ", "@) + rest;
        lemma_parameters_read_back(n, k + 1, rest);
        lemma_read_one_more_parameter(digits, later, numbers_from(k + 1, n), rest);
        assert(numbers_from(k, n) =~= seq![decimal_value(digits)] + numbers_from(k + 1, n));
    }
}

/// A list of parameters, of whatever length, reads back as the numbers from one on, in order.
pub proof fn law_parameters_are_numbered_in_order(n: nat, rest: Seq<char>)
    requires
        n > 0,
        rest.len() > 0 ==> !ascii_digit(rest[0]) && rest[0] != ',',
    ensures
        read_parameters(placeholders(n) + rest) == Some((Seq::new(n, |k: int| k + 1), rest)),
{
    lemma_parameters_read_back(n, 0, rest);
    assert(placeholders_from(0, n) =~= Seq::new(n, |i: int| placeholder(i)));
    assert(numbers_from(0, n) =~= Seq::new(n, |k: int| k + 1));
}

/// The text behind a text that it starts with.
pub open spec fn behind(s: Seq<char>, start: Seq<char>) -> Option<Seq<char>> {
    if start.len() <= s.len() && s.take(start.len() as int) == start {
        Some(s.skip(start.len() as int))
    } else {
        None
    }
}

proof fn lemma_behind(start: Seq<char>, rest: Seq<char>)
    ensures
        behind(start + rest, start) == Some(rest),
{
    assert((start + rest).take(start.len() as int) =~= start);
    assert((start + rest).skip(start.len() as int) =~= rest);
}

/// What SQL text says that is a start, a quoted identifier, a middle, a list of quoted
/// identifiers and something behind it: the identifier, the list and what is behind it.
pub open spec fn read_name_and_list(
    s: Seq<char>,
    start: Seq<char>,
) -> Option<(Seq<char>, Seq<Seq<char>>, Seq<char>)> {
    match behind(s, start) {
        Some(s1) => match read_quoted(s1) {
            Some((name, s2)) => match behind(s2, " ("@) {
                Some(s3) => match read_quoted_list(s3) {
                    Some((list, s4)) => Some((name, list, s4)),
                    None => None,
                },
                None => None,
            },
            None => None,
        },
        None => None,
    }
}

proof fn lemma_name_and_list(
    start: Seq<char>,
    name: Seq<char>,
    list: Seq<Seq<char>>,
    end: Seq<char>,
)
    requires
        list.len() > 0,
        end.len() > 0 ==> end[0] != '"' && end[0] != ',',
    ensures
        read_name_and_list(start + (quoted(name) + (" ("@ + (quoted_list(list) + end))), start)
            == Some((name, list, end)),
{
    reveal_strlit(" (");
    let s3 = quoted_list(list) + end;
    let s2 = " ("@ + s3;
    lemma_behind(start, quoted(name) + s2);
    law_quoted_identifier_reads_back(name, s2);
    lemma_behind(" ("@, s3);
    law_quoted_lists_read_back(list, end);
}

/// What an `INSERT` statement says: the table, the columns, and the number of the parameter
/// that each of them gets its value from.
pub open spec fn read_insert(s: Seq<char>) -> Option<(Seq<char>, Seq<Seq<char>>, Seq<int>)> {
    match read_name_and_list(s, "INSERT INTO "@) {
        Some((name, columns, rest)) => match behind(rest, ") VALUES ("@) {
            Some(list) => match read_parameters(list) {
                Some((numbers, end)) => if end == ")"@ {
                    Some((name, columns, numbers))
                } else {
                    None
                },
                None => None,
            },
            None => None,
        },
        None => None,
    }
}

/// The `INSERT` statement reads back as the table, all columns in order, and for each column
/// the parameter of its own number: the first bound value goes to the first column, the second
/// to the second, and so on for any number of columns.
pub proof fn law_insert_statements_read_back(name: Seq<char>, columns: Seq<Seq<char>>)
    requires
        columns.len() > 0,
    ensures
        read_insert(insert_sql(name, columns)) == Some(
            (name, columns, Seq::new(columns.len(), |k: int| k + 1)),
        ),
{
    reveal_strlit(") VALUES (");
    reveal_strlit(")");
    let list = placeholders(columns.len()) + ")"@;
    let end = ") VALUES ("@ + list;
    assert(insert_sql(name, columns) =~= "INSERT INTO "@ + (quoted(name) + (" ("@ + (quoted_list(
        columns,
    ) + end))));
    lemma_name_and_list("INSERT INTO "@, name, columns, end);
    lemma_behind(") VALUES ("@, list);
    law_parameters_are_numbered_in_order(columns.len(), ")"@);
}

/// What a `CREATE INDEX` statement says: the index, the table and the columns.
pub open spec fn read_create_index(s: Seq<char>) -> Option<
    (Seq<char>, Seq<char>, Seq<Seq<char>>),
> {
    match behind(s, "CREATE INDEX "@) {
        Some(s1) => match read_quoted(s1) {
            Some((index, s2)) => match read_name_and_list(s2, " ON "@) {
                Some((table, columns, end)) => if end == ")"@ {
                    Some((index, table, columns))
                } else {
                    None
                },
                None => None,
            },
            None => None,
        },
        None => None,
    }
}

/// The `CREATE INDEX` statement reads back as the index, the table, and exactly the columns
/// asked for, all of them and in order.
pub proof fn law_create_index_statements_read_back(
    index: Seq<char>,
    table: Seq<char>,
    columns: Seq<Seq<char>>,
)
    requires
        columns.len() > 0,
    ensures
        read_create_index(create_index_sql(index, table, columns)) == Some((index, table, columns)),
{
    reveal_strlit(" ON ");
    reveal_strlit(")");
    let rest = " ON "@ + (quoted(table) + (" ("@ + (quoted_list(columns) + ")"@)));
    assert(create_index_sql(index, table, columns) =~= "CREATE INDEX "@ + (quoted(index) + rest));
    lemma_behind("CREATE INDEX "@, quoted(index) + rest);
    law_quoted_identifier_reads_back(index, rest);
    lemma_name_and_list(" ON "@, table, columns, ")"@);
}

/// How many ASCII capitals the text starts with.
pub open spec fn leading_capitals(s: Seq<char>) -> nat
    decreases s.len(),
{
    if s.len() > 0 && 'A' <= s[0] && s[0] <= 'Z' {
        1 + leading_capitals(s.drop_first())
    } else {
        0
    }
}

/// There are no more leading capitals than characters.
pub proof fn lemma_leading_capitals_bounded(s: Seq<char>)
    ensures
        leading_capitals(s) <= s.len(),
    decreases s.len(),
{
    if s.len() > 0 {
        lemma_leading_capitals_bounded(s.drop_first());
    }
}

/// The column definitions that SQL text starts with, each a quoted name, a space and a word in
/// capitals, with a comma and a space between them, and the text behind them.
pub open spec fn read_definitions(s: Seq<char>) -> Option<
    (Seq<(Seq<char>, Seq<char>)>, Seq<char>),
>
    decreases s.len(),
{
    proof {
        lemma_read_quoted_shrinks(s);
        if let Some((name, typed)) = read_quoted(s) {
            lemma_leading_capitals_bounded(typed.drop_first());
        }
    }
    match read_quoted(s) {
        Some((name, typed)) => if typed.len() > 0 && typed[0] == ' ' {
            let length = leading_capitals(typed.drop_first()) as int;
            let word = typed.subrange(1, 1 + length);
            let rest = typed.skip(1 + length);
            if rest.len() >= 2 && rest[0] == ',' && rest[1] == ' ' {
                match read_definitions(rest.skip(2)) {
                    Some((others, end)) => Some((seq![(name, word)] + others, end)),
                    None => None,
                }
            } else {
                Some((seq![(name, word)], rest))
            }
        } else {
            None
        },
        None => None,
    }
}

/// What a `CREATE TABLE` statement says: the table, and each column's name and type.
pub open spec fn read_create_table(s: Seq<char>) -> Option<
    (Seq<char>, Seq<(Seq<char>, Seq<char>)>),
> {
    match behind(s, "CREATE TABLE "@) {
        Some(s1) => match read_quoted(s1) {
            Some((name, s2)) => match behind(s2, " ("@) {
                Some(s3) => match read_definitions(s3) {
                    Some((definitions, end)) => if end == ")"@ {
                        Some((name, definitions))
                    } else {
                        None
                    },
                    None => None,
                },
                None => None,
            },
            None => None,
        },
        None => None,
    }
}

proof fn lemma_leading_capitals(word: Seq<char>, rest: Seq<char>)
    requires
        forall|i: int| 0 <= i < word.len() ==> 'A' <= #[trigger] word[i] && word[i] <= 'Z',
        rest.len() > 0 ==> !('A' <= rest[0] && rest[0] <= 'Z'),
    ensures
        leading_capitals(word + rest) == word.len(),
    decreases word.len(),
{
    if word.len() == 0 {
        assert(word + rest =~= rest);
    } else {
        let less = word.drop_first();
        assert forall|i: int| 0 <= i < less.len() implies 'A' <= #[trigger] less[i] && less[i]
            <= 'Z' by {
            assert(less[i] == word[i + 1]);
        }
        lemma_leading_capitals(less, rest);
        assert((word + rest).drop_first() =~= less + rest);
        assert((word + rest)[0] == word[0]);
    }
}

/// The keyword of a type.
pub open spec fn type_word(ty: ColType) -> Seq<char> {
    match ty {
        ColType::Integer => "INTEGER"@,
        ColType::Real => "REAL"@,
        ColType::Text => "TEXT"@,
    }
}

proof fn lemma_definition_reads_back(name: Seq<char>, ty: ColType, rest: Seq<char>)
    requires
        rest.len() > 0 ==> !('A' <= rest[0] && rest[0] <= 'Z'),
    ensures
        ({
            let s = column_definition(name, ty) + rest;
            let typed = " "@ + (type_word(ty) + rest);
            let length = leading_capitals(typed.drop_first()) as int;
            &&& read_quoted(s) == Some((name, typed))
            &&& typed[0] == ' '
            &&& typed.subrange(1, 1 + length) == type_word(ty)
            &&& typed.skip(1 + length) == rest
        }),
{
    reveal_strlit(" ");
    reveal_strlit("INTEGER");
    reveal_strlit("REAL");
    reveal_strlit("TEXT");
    let word = type_word(ty);
    let typed = " "@ + (word + rest);
    assert(column_definition(name, ty) + rest =~= quoted(name) + typed);
    law_quoted_identifier_reads_back(name, typed);
    lemma_leading_capitals(word, rest);
    assert(typed.drop_first() =~= word + rest);
    assert(typed.subrange(1, 1 + word.len() as int) =~= word);
    assert(typed.skip(1 + word.len() as int) =~= rest);
}

spec fn definitions_of(names: Seq<Seq<char>>, types: Seq<ColType>) -> Seq<Seq<char>> {
    Seq::new(names.len(), |i: int| column_definition(names[i], types[i]))
}

spec fn words_of(names: Seq<Seq<char>>, types: Seq<ColType>) -> Seq<(Seq<char>, Seq<char>)> {
    Seq::new(names.len(), |i: int| (names[i], type_word(types[i])))
}

proof fn lemma_definitions_read_back(
    names: Seq<Seq<char>>,
    types: Seq<ColType>,
    rest: Seq<char>,
)
    requires
        names.len() > 0,
        names.len() == types.len(),
        rest.len() > 0 ==> !('A' <= rest[0] && rest[0] <= 'Z') && rest[0] != ',',
    ensures
        read_definitions(joined(definitions_of(names, types), ", "@) + rest) == Some(
            (words_of(names, types), rest),
        ),
    decreases names.len(),
{
    reveal_strlit(", ");
    reveal_strlit(" ");
    let list = definitions_of(names, types);
    let s = joined(list, ", "@) + rest;
    let word = type_word(types[0]);
    if names.len() == 1 {
        assert(joined(list, ", "@) == list[0]);
        assert(s == column_definition(names[0], types[0]) + rest);
        lemma_definition_reads_back(names[0], types[0], rest);
        assert(words_of(names, types) =~= seq![(names[0], word)]);
    } else {
        let names1 = names.drop_first();
        let types1 = types.drop_first();
        lemma_joined_front(list, ", "@);
        assert(list.drop_first() =~= definitions_of(names1, types1));
        let later = joined(definitions_of(names1, types1), ", "@) + rest;
        let tail = ", "@ + later;
        assert(s =~= column_definition(names[0], types[0]) + tail);
        lemma_definition_reads_back(names[0], types[0], tail);
        assert(tail.skip(2) =~= later);
        lemma_definitions_read_back(names1, types1, rest);
        assert(words_of(names, types) =~= seq![(names[0], word)] + words_of(names1, types1));
    }
}

/// The `CREATE TABLE` statement reads back as the table and as every column with its type, all
/// of them and in order.
pub proof fn law_create_table_statements_read_back(t: Table)
    requires
        t.columns.len() > 0,
        t.columns.len() == t.types.len(),
    ensures
        read_create_table(create_table_sql(t)) == Some(
            (
                t.name,
                Seq::new(
                    t.columns.len(),
                    |c: int|
                        (
                            t.columns[c],
                            match t.types[c] {
                                ColType::Integer => "INTEGER"@,
                                ColType::Real => "REAL"@,
                                ColType::Text => "TEXT"@,
                            },
                        ),
                ),
            ),
        ),
{
    reveal_strlit(" (");
    reveal_strlit(")");
    let list = definitions_of(t.columns, t.types);
    assert(column_definitions(t) =~= list);
    let s3 = joined(list, ", "@) + ")"@;
    let s2 = " ("@ + s3;
    assert(create_table_sql(t) =~= "CREATE TABLE "@ + (quoted(t.name) + s2));
    lemma_behind("CREATE TABLE "@, quoted(t.name) + s2);
    law_quoted_identifier_reads_back(t.name, s2);
    lemma_behind(" ("@, s3);
    lemma_definitions_read_back(t.columns, t.types, ")"@);
    assert(words_of(t.columns, t.types) =~= Seq::new(
        t.columns.len(),
        |c: int|
            (
                t.columns[c],
                match t.types[c] {
                    ColType::Integer => "INTEGER"@,
                    ColType::Real => "REAL"@,
                    ColType::Text => "TEXT"@,
                },
            ),
    ));
}

/// The statements about one table or one index name it, in full, and nothing else.
pub proof fn law_short_statements_read_back(name: Seq<char>)
    ensures
        behind(drop_table_sql(name), "DROP TABLE "@) matches Some(rest) && read_quoted(rest)
            == Some((name, Seq::<char>::empty())),
        behind(table_info_sql(name), "PRAGMA table_info("@) matches Some(rest) && read_quoted(rest)
            == Some((name, ")"@)),
        behind(index_info_sql(name), "PRAGMA index_info("@) matches Some(rest) && read_quoted(rest)
            == Some((name, ")"@)),
{
    reveal_strlit(")");
    let none = Seq::<char>::empty();
    lemma_behind("DROP TABLE "@, quoted(name));
    assert(quoted(name) + none =~= quoted(name));
    law_quoted_identifier_reads_back(name, none);
    law_quoted_identifier_reads_back(name, ")"@);
    lemma_behind("PRAGMA table_info("@, quoted(name) + ")"@);
    lemma_behind("PRAGMA index_info("@, quoted(name) + ")"@);
    assert(table_info_sql(name) =~= "PRAGMA table_info("@ + (quoted(name) + ")"@));
    assert(index_info_sql(name) =~= "PRAGMA index_info("@ + (quoted(name) + ")"@));
}

/// One more column adds itself at the end of every list and changes nothing before it: a comma,
/// a space and the quoted name to a list of names, and the parameter of the next number to a
/// list of parameters. A list of one is that name or `?1`.
pub proof fn law_lists_grow_at_the_end(names: Seq<Seq<char>>, name: Seq<char>, n: nat)
    ensures
        quoted_list(seq![name]) == quoted(name),
        names.len() > 0 ==> quoted_list(names.push(name)) == quoted_list(names) + ", "@ + quoted(
            name,
        ),
        placeholders(1) == "?"@ + decimal(1),
        n > 0 ==> placeholders(n + 1) == placeholders(n) + ", "@ + ("?"@ + decimal(n + 1)),
{
    let one = Seq::new(1, |i: int| quoted(seq![name][i]));
    assert(joined(one, ", "@) == one[0]);
    let list = Seq::new(names.len(), |i: int| quoted(names[i]));
    let more = names.push(name);
    let longer = Seq::new(more.len(), |i: int| quoted(more[i]));
    assert(longer.drop_last() =~= list);
    assert(longer.last() == quoted(name));
    let first = Seq::new(1, |i: int| placeholder(i));
    assert(joined(first, ", "@) == first[0]);
    let numbers = Seq::new(n, |i: int| placeholder(i));
    let next = Seq::new(n + 1, |i: int| placeholder(i));
    assert(next.drop_last() =~= numbers);
    assert(next.last() == "?"@ + decimal(n + 1));
}

/// The statements about columns are their lists in a fixed frame: one more column changes the
/// lists in it and nothing else.
pub proof fn law_statements_frame_their_lists(
    index: Seq<char>,
    table: Seq<char>,
    columns: Seq<Seq<char>>,
)
    ensures
        insert_sql(table, columns) == "INSERT INTO "@ + quoted(table) + " ("@ + quoted_list(columns)
            + ") VALUES ("@ + placeholders(columns.len()) + ")"@,
        create_index_sql(index, table, columns) == "CREATE INDEX "@ + quoted(index) + " ON "@
            + quoted(table) + " ("@ + quoted_list(columns) + ")"@,
{
}

/// One more column is declared at the end of `CREATE TABLE`, with its name and its type, and
/// changes nothing before it.
pub proof fn law_tables_grow_at_the_end(t: Table, name: Seq<char>, ty: ColType)
    requires
        t.columns.len() == t.types.len(),
    ensures
        ({
            let more = Table { columns: t.columns.push(name), types: t.types.push(ty), ..t };
            let word = match ty {
                ColType::Integer => "INTEGER"@,
                ColType::Real => "REAL"@,
                ColType::Text => "TEXT"@,
            };
            &&& t.columns.len() > 0 ==> create_table_sql(more) == create_table_sql(t).drop_last()
                + ", "@ + quoted(name) + " "@ + word + ")"@
            &&& t.columns.len() == 0 ==> create_table_sql(more) == "CREATE TABLE "@ + quoted(t.name)
                + " ("@ + quoted(name) + " "@ + word + ")"@
        }),
{
    reveal_strlit(")");
    let more = Table { columns: t.columns.push(name), types: t.types.push(ty), ..t };
    let word = ty.keyword();
    let list = column_definitions(t);
    let longer = column_definitions(more);
    assert(longer.drop_last() =~= list);
    assert(longer.last() == quoted(name) + " "@ + word);
    if t.columns.len() > 0 {
        assert(create_table_sql(more) =~= create_table_sql(t).drop_last() + ", "@ + quoted(name)
            + " "@ + word + ")"@);
    } else {
        assert(joined(longer, ", "@) == longer[0]);
        assert(create_table_sql(more) =~= "CREATE TABLE "@ + quoted(t.name) + " ("@ + quoted(name)
            + " "@ + word + ")"@);
    }
}

} // verus!
