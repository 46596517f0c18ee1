//! Identifiers: quoting them in SQL, and deriving table and index names.

use crate::text::{
    ascii_digit, chars_of, copy_of, eq_ignoring_case, folded, is_ascii_digit, is_word_char, join, joined,
    same_ignoring_case, texts, word_char,
};
use vstd::prelude::*;

verus! {

// ---------------------------------------------------------------------------
// Quoting
// ---------------------------------------------------------------------------

/// `c` as it stands between double quotes: a double quote stands twice.
pub open spec fn doubled_char(c: char) -> Seq<char> {
    if c == '"' {
        seq!['"', '"']
    } else {
        seq![c]
    }
}

/// `s` with every double quote doubled.
pub open spec fn doubled(s: Seq<char>) -> Seq<char>
    decreases s.len(),
{
    if s.len() == 0 {
        Seq::empty()
    } else {
        doubled_char(s[0]) + doubled(s.drop_first())
    }
}

/// `name` as a quoted SQL identifier.
pub open spec fn quoted(name: Seq<char>) -> Seq<char> {
    seq!['"'] + doubled(name) + seq!['"']
}

proof fn lemma_doubled_push(s: Seq<char>, c: char)
    ensures
        doubled(s.push(c)) == doubled(s) + doubled_char(c),
    decreases s.len(),
{
    if s.len() == 0 {
        assert(s.push(c).drop_first() == Seq::<char>::empty());
        assert(doubled(s.push(c).drop_first()) == Seq::<char>::empty());
    } else {
        lemma_doubled_push(s.drop_first(), c);
        assert(s.push(c).drop_first() == s.drop_first().push(c));
    }
    assert(doubled(s.push(c)) =~= doubled(s) + doubled_char(c));
}

/// Quotes a SQL identifier (table or column name): double quotes around it, and
/// every double quote in it doubled.
pub fn quote_ident(name: &str) -> (r: String)
    ensures
        r@ == quoted(name@),
{
    let chars = chars_of(name);
    let mut out = String::new();
    out.push('"');
    let mut i: usize = 0;
    while i < chars.len()
        invariant
            i <= chars@.len(),
            out@ == seq!['"'] + doubled(chars@.take(i as int)),
        decreases chars@.len() - i,
    {
        proof {
            lemma_doubled_push(chars@.take(i as int), chars@[i as int]);
            assert(chars@.take(i + 1) == chars@.take(i as int).push(chars@[i as int]));
        }
        out.push(chars[i]);
        if chars[i] == '"' {
            out.push('"');
        }
        i += 1;
    }
    assert(chars@.take(chars@.len() as int) == chars@);
    out.push('"');
    out
}

/// What follows the opening double quote of an identifier in SQL text, read up to
/// the closing one: the identifier (two double quotes in a row stand for one), and
/// the text behind it.
pub open spec fn read_quoted_tail(s: Seq<char>) -> Option<(Seq<char>, Seq<char>)>
    decreases s.len(),
{
    if s.len() == 0 {
        None
    } else if s[0] != '"' {
        match read_quoted_tail(s.drop_first()) {
            Some((name, rest)) => Some((seq![s[0]] + name, rest)),
            None => None,
        }
    } else if s.len() > 1 && s[1] == '"' {
        match read_quoted_tail(s.skip(2)) {
            Some((name, rest)) => Some((seq!['"'] + name, rest)),
            None => None,
        }
    } else {
        Some((Seq::empty(), s.drop_first()))
    }
}

/// The quoted identifier that SQL text starts with, and the text behind it.
pub open spec fn read_quoted(s: Seq<char>) -> Option<(Seq<char>, Seq<char>)> {
    if s.len() > 0 && s[0] == '"' {
        read_quoted_tail(s.drop_first())
    } else {
        None
    }
}

proof fn lemma_read_quoted_tail_shrinks(s: Seq<char>)
    ensures
        read_quoted_tail(s) matches Some((name, rest)) ==> rest.len() < s.len(),
    decreases s.len(),
{
    if s.len() > 0 {
        if s[0] != '"' {
            lemma_read_quoted_tail_shrinks(s.drop_first());
        } else if s.len() > 1 && s[1] == '"' {
            lemma_read_quoted_tail_shrinks(s.skip(2));
        }
    }
}

/// The text behind an identifier is shorter than the text with it.
pub proof fn lemma_read_quoted_shrinks(s: Seq<char>)
    ensures
        read_quoted(s) matches Some((name, rest)) ==> rest.len() < s.len(),
{
    if s.len() > 0 {
        lemma_read_quoted_tail_shrinks(s.drop_first());
    }
}

/// Whatever a name holds, SQL text that starts with the quoted name starts with one
/// identifier, that name, and goes on right behind it: no name breaks out of its
/// quotes.
pub proof fn law_quoted_identifier_reads_back(name: Seq<char>, rest: Seq<char>)
    requires
        rest.len() > 0 ==> rest[0] != '"',
    ensures
        read_quoted(quoted(name) + rest) == Some((name, rest)),
{
    let s = quoted(name) + rest;
    assert(s.drop_first() == doubled(name) + (seq!['"'] + rest));
    lemma_read_doubled(name, rest);
}

proof fn lemma_read_doubled(name: Seq<char>, rest: Seq<char>)
    requires
        rest.len() > 0 ==> rest[0] != '"',
    ensures
        read_quoted_tail(doubled(name) + (seq!['"'] + rest)) == Some((name, rest)),
    decreases name.len(),
{
    let s = doubled(name) + (seq!['"'] + rest);
    if name.len() == 0 {
        assert(s == seq!['"'] + rest);
        assert(s.drop_first() == rest);
        assert(name == Seq::<char>::empty());
    } else {
        let tail = doubled(name.drop_first()) + (seq!['"'] + rest);
        lemma_read_doubled(name.drop_first(), rest);
        assert(s == doubled_char(name[0]) + tail);
        assert(seq![name[0]] + name.drop_first() == name);
        if name[0] == '"' {
            assert(s.skip(2) == tail);
        } else {
            assert(s.drop_first() == tail);
        }
    }
}

/// Different names are quoted differently.
pub proof fn law_quoting_is_injective(a: Seq<char>, b: Seq<char>)
    requires
        quoted(a) == quoted(b),
    ensures
        a == b,
{
    let end = Seq::<char>::empty();
    law_quoted_identifier_reads_back(a, end);
    law_quoted_identifier_reads_back(b, end);
}

// ---------------------------------------------------------------------------
// Names made of letters, digits and underscores
// ---------------------------------------------------------------------------

/// `c`, or an underscore where `c` is no ASCII letter, digit or underscore.
pub open spec fn cleaned_char(c: char) -> char {
    if word_char(c) {
        c
    } else {
        '_'
    }
}

/// `s` with everything but ASCII letters, digits and underscores replaced by
/// underscores.
pub open spec fn cleaned(s: Seq<char>) -> Seq<char> {
    Seq::new(s.len(), |i: int| cleaned_char(s[i]))
}

fn clean(s: &str) -> (r: String)
    ensures
        r@ == cleaned(s@),
{
    let chars = chars_of(s);
    let mut out = String::new();
    let mut i: usize = 0;
    while i < chars.len()
        invariant
            i <= chars@.len(),
            chars@ == s@,
            out@ == cleaned(s@).take(i as int),
        decreases chars@.len() - i,
    {
        let c = if is_word_char(chars[i]) {
            chars[i]
        } else {
            '_'
        };
        out.push(c);
        assert(cleaned(s@).take(i + 1) == cleaned(s@).take(i as int).push(c));
        i += 1;
    }
    assert(cleaned(s@).take(s@.len() as int) == cleaned(s@));
    out
}

/// The table name for a file stem: the cleaned stem, "table" where it is empty, with
/// an underscore before a leading digit.
pub open spec fn table_identifier(stem: Seq<char>) -> Seq<char> {
    let name = if stem.len() == 0 {
        "table"@
    } else {
        cleaned(stem)
    };
    if ascii_digit(name[0]) {
        seq!['_'] + name
    } else {
        name
    }
}

/// Derives a table name from a file stem.
pub fn sanitize_table_name(stem: &str) -> (r: String)
    ensures
        r@ == table_identifier(stem@),
{
    proof {
        reveal_strlit("table");
    }
    let mut name = clean(stem);
    if name.as_str().is_empty() {
        name = copy_of("table");
    }
    let chars = chars_of(name.as_str());
    if is_ascii_digit(chars[0]) {
        let mut out = String::new();
        out.push('_');
        out.append(name.as_str());
        out
    } else {
        name
    }
}

/// A plain identifier: ASCII letters, digits and underscores, at least one, and no
/// digit first.
pub open spec fn plain_identifier(s: Seq<char>) -> bool {
    &&& s.len() > 0
    &&& forall|i: int| 0 <= i < s.len() ==> word_char(#[trigger] s[i])
    &&& !ascii_digit(s[0])
}

/// The table name for a file whose stem is `stem`, or which has none.
pub open spec fn table_name(stem: Option<Seq<char>>) -> Seq<char> {
    match stem {
        Some(s) => table_identifier(s),
        None => table_identifier("table"@),
    }
}

/// Every derived table name is a plain identifier.
pub proof fn law_table_names_are_plain_identifiers(stem: Option<Seq<char>>)
    ensures
        plain_identifier(table_name(stem)),
{
    reveal_strlit("table");
    let s = match stem {
        Some(s) => s,
        None => "table"@,
    };
    let name = if s.len() == 0 {
        "table"@
    } else {
        cleaned(s)
    };
    assert forall|i: int| 0 <= i < name.len() implies word_char(#[trigger] name[i]) by {
        if s.len() > 0 {
            assert(name[i] == cleaned_char(s[i]));
        }
    }
    let full = table_identifier(s);
    if ascii_digit(name[0]) {
        assert(full[0] == '_');
        assert forall|i: int| 0 <= i < full.len() implies word_char(#[trigger] full[i]) by {
            if i > 0 {
                assert(full[i] == name[i - 1]);
            }
        }
    }
}

/// The part of a path behind its last slash.
pub open spec fn file_name(path: Seq<char>) -> Seq<char>
    decreases path.len(),
{
    if path.len() == 0 || path.last() == '/' {
        Seq::empty()
    } else {
        file_name(path.drop_last()).push(path.last())
    }
}

/// The part of a file name before its last dot, where it has one.
pub open spec fn before_last_dot(name: Seq<char>) -> Option<Seq<char>>
    decreases name.len(),
{
    if name.len() == 0 {
        None
    } else if name.last() == '.' {
        Some(name.drop_last())
    } else {
        before_last_dot(name.drop_last())
    }
}

/// A path without what is passed over at its end: slashes, and parts that are a single dot
/// with a slash before it.
pub open spec fn without_empty_end(path: Seq<char>) -> Seq<char>
    decreases path.len(),
{
    if path.len() > 0 && path.last() == '/' {
        without_empty_end(path.drop_last())
    } else if path.len() > 1 && path.last() == '.' && path[path.len() - 2] == '/' {
        without_empty_end(path.drop_last())
    } else {
        path
    }
}

/// The last part of a path that counts.
pub open spec fn last_part(path: Seq<char>) -> Seq<char> {
    file_name(without_empty_end(path))
}

/// A path that every platform takes apart in the same way: with slashes alone between its
/// parts, without two slashes in front, and without a colon in the last part where a drive
/// may stand in front.
pub open spec fn ordinary_path(path: Seq<char>) -> bool {
    &&& !path.contains('\\')
    &&& !(path.len() > 1 && path[0] == '/' && path[1] == '/')
    &&& path.len() > 1 && path[1] == ':' ==> !last_part(path).contains(':')
}

/// The stem of the file that an ordinary path names: the file's name without its extension.
/// A dot in front starts no extension. The empty path, slashes alone, `.` and a path that
/// ends in `..` name no file.
pub open spec fn file_stem(path: Seq<char>) -> Option<Seq<char>> {
    let name = last_part(path);
    if name.len() == 0 || name == seq!['.'] || name == seq!['.', '.'] {
        None
    } else {
        match before_last_dot(name) {
            Some(stem) => if stem.len() > 0 {
                Some(stem)
            } else {
                Some(name)
            },
            None => Some(name),
        }
    }
}

/// Is `c` a character that separates the parts of a path, on one platform or another?
pub open spec fn separator(c: char) -> bool {
    c == '/' || c == '\\'
}

/// A path that names a file on every platform, though perhaps not the same one: without a
/// drive or two separators in front, and ending in a character that belongs to a name.
pub open spec fn names_a_file(path: Seq<char>) -> bool {
    &&& path.len() > 0
    &&& !separator(path.last())
    &&& path.last() != '.'
    &&& !path.contains(':')
    &&& !(path.len() > 1 && separator(path[0]) && separator(path[1]))
}

/// Is `s` a part of the text, without gaps and not empty?
pub open spec fn part_of(s: Seq<char>, text: Seq<char>) -> bool {
    exists|a: int, b: int| 0 <= a < b <= text.len() && s == #[trigger] text.subrange(a, b)
}

/// Is `name` the table name for some part of the path?
pub open spec fn named_after_part(name: Seq<char>, path: Seq<char>) -> bool {
    exists|stem: Seq<char>| #[trigger] part_of(stem, path) && name == table_name(Some(stem))
}

/// `Path::file_stem`, as a string. Relied on: what the documentation says of the stem, on
/// the paths that every platform takes apart in the same way; that a stem is always a part of
/// the path; and that a path which ends in a name has one. Which part it is of other paths
/// depends on the platform's rules, and nothing is said of it.
#[verifier::external_body]
pub(crate) fn path_stem(path: &str) -> (r: Option<String>)
    ensures
        ordinary_path(path@) ==> (r is Some <==> file_stem(path@) is Some),
        ordinary_path(path@) ==> (r matches Some(s) ==> file_stem(path@) == Some(s@)),
        r matches Some(s) ==> part_of(s@, path@),
        names_a_file(path@) ==> r is Some,
{
    std::path::Path::new(path).file_stem().and_then(|s| s.to_str()).map(|s| s.to_string())
}

/// Derives a table name from a file path: the file's stem, sanitized. Whatever the path, it is
/// the name for a part of the path or for no stem at all, and a plain identifier.
pub fn table_name_from_path(path: &str) -> (r: String)
    ensures
        ordinary_path(path@) ==> r@ == table_name(file_stem(path@)),
        r@ == table_name(None) || named_after_part(r@, path@),
        names_a_file(path@) ==> named_after_part(r@, path@),
        plain_identifier(r@),
{
    match path_stem(path) {
        Some(stem) => {
            proof {
                law_table_names_are_plain_identifiers(Some(stem@));
                assert(part_of(stem@, path@));
            }
            sanitize_table_name(stem.as_str())
        },
        None => {
            proof {
                law_table_names_are_plain_identifiers(None);
            }
            sanitize_table_name("table")
        },
    }
}

/// A stem that is a plain identifier is kept as the table name.
pub proof fn law_plain_identifiers_are_kept(stem: Seq<char>)
    requires
        plain_identifier(stem),
    ensures
        table_identifier(stem) == stem,
{
    assert(cleaned(stem) == stem);
}

// ---------------------------------------------------------------------------
// Index names
// ---------------------------------------------------------------------------

/// A part of an index name: the cleaned text, an underscore where it is empty.
pub open spec fn ident_part(s: Seq<char>) -> Seq<char> {
    if s.len() == 0 {
        seq!['_']
    } else {
        cleaned(s)
    }
}

/// Sanitizes a string into a part of a generated identifier. Never empty.
pub fn sanitize_ident_part(s: &str) -> (r: String)
    ensures
        r@ == ident_part(s@),
        r@.len() > 0,
{
    let mut out = clean(s);
    if out.as_str().is_empty() {
        out = String::new();
        out.push('_');
    }
    out
}

/// The parts of an index name: the table, then the columns.
pub open spec fn index_parts(table: Seq<char>, columns: Seq<Seq<char>>) -> Seq<Seq<char>> {
    seq![ident_part(table)] + Seq::new(columns.len(), |i: int| ident_part(columns[i]))
}

/// The name of the index on `columns` of `table`.
pub open spec fn index_name_of(table: Seq<char>, columns: Seq<Seq<char>>) -> Seq<char> {
    "idx_"@ + joined(index_parts(table, columns), "_"@)
}

/// Derives an index name from a table and its columns.
pub fn index_name(table: &str, columns: &[String]) -> (r: String)
    ensures
        r@ == index_name_of(table@, texts(columns@)),
{
    let mut parts: Vec<String> = Vec::new();
    parts.push(sanitize_ident_part(table));
    let ghost all = index_parts(table@, texts(columns@));
    let mut i: usize = 0;
    assert(texts(parts@) == all.take(1));
    while i < columns.len()
        invariant
            i <= columns@.len(),
            all == index_parts(table@, texts(columns@)),
            texts(parts@) == all.take(i + 1),
        decreases columns@.len() - i,
    {
        let part = sanitize_ident_part(columns[i].as_str());
        let ghost before = parts@;
        parts.push(part);
        assert(texts(parts@) =~= texts(before).push(part@));
        assert(all.take(i + 2) =~= all.take(i + 1).push(part@));
        i += 1;
    }
    assert(all.take(all.len() as int) == all);
    let mut out = copy_of("idx_");
    out.append(join(parts.as_slice(), "_").as_str());
    out
}

/// Indexes on the same table and the same columns, as SQLite compares names, have the same
/// name, as SQLite compares names.
pub proof fn law_identical_indexes_have_the_same_name(
    table: Seq<char>,
    columns: Seq<Seq<char>>,
    other_table: Seq<char>,
    other_columns: Seq<Seq<char>>,
)
    requires
        same_ignoring_case(table, other_table),
        same_ident_lists(columns, other_columns),
    ensures
        same_ignoring_case(
            index_name_of(table, columns),
            index_name_of(other_table, other_columns),
        ),
{
    let a = index_parts(table, columns);
    let b = index_parts(other_table, other_columns);
    assert forall|k: int| 0 <= k < a.len() implies same_ignoring_case(#[trigger] a[k], b[k]) by {
        if k == 0 {
            lemma_part_ignoring_case(table, other_table);
        } else {
            assert(same_ignoring_case(columns[k - 1], other_columns[k - 1]));
            lemma_part_ignoring_case(columns[k - 1], other_columns[k - 1]);
        }
    }
    lemma_joined_ignoring_case(a, b, "_"@);
    let x = joined(a, "_"@);
    let y = joined(b, "_"@);
    let n = "idx_"@.len() as int;
    let left = index_name_of(table, columns);
    let right = index_name_of(other_table, other_columns);
    assert forall|i: int| 0 <= i < left.len() implies folded(#[trigger] left[i]) == folded(
        right[i],
    ) by {
        if i >= n {
            assert(left[i] == x[i - n]);
            assert(right[i] == y[i - n]);
        }
    }
}

proof fn lemma_part_ignoring_case(a: Seq<char>, b: Seq<char>)
    requires
        same_ignoring_case(a, b),
    ensures
        same_ignoring_case(ident_part(a), ident_part(b)),
{
    assert forall|i: int| 0 <= i < a.len() implies folded(#[trigger] cleaned(a)[i]) == folded(
        cleaned(b)[i],
    ) by {
        assert(folded(a[i]) == folded(b[i]));
        lemma_cleaned_ignoring_case(a[i], b[i]);
    }
}

proof fn lemma_cleaned_ignoring_case(x: char, y: char)
    requires
        folded(x) == folded(y),
    ensures
        folded(cleaned_char(x)) == folded(cleaned_char(y)),
{
}

proof fn lemma_joined_ignoring_case(a: Seq<Seq<char>>, b: Seq<Seq<char>>, sep: Seq<char>)
    requires
        same_ident_lists(a, b),
    ensures
        same_ignoring_case(joined(a, sep), joined(b, sep)),
    decreases a.len(),
{
    if a.len() == 1 {
        assert(same_ignoring_case(a[0], b[0]));
    } else if a.len() > 1 {
        let last = a.len() - 1;
        assert forall|k: int| 0 <= k < a.drop_last().len() implies same_ignoring_case(
            #[trigger] a.drop_last()[k],
            b.drop_last()[k],
        ) by {
            assert(same_ignoring_case(a[k], b[k]));
        }
        lemma_joined_ignoring_case(a.drop_last(), b.drop_last(), sep);
        assert(same_ignoring_case(a[last], b[last]));
        let x = joined(a.drop_last(), sep);
        let y = joined(b.drop_last(), sep);
        let n = x.len() as int;
        let m = n + sep.len();
        let left = joined(a, sep);
        let right = joined(b, sep);
        assert forall|i: int| 0 <= i < left.len() implies folded(#[trigger] left[i]) == folded(
            right[i],
        ) by {
            if i < n {
                assert(left[i] == x[i] && right[i] == y[i]);
            } else if i < m {
                assert(left[i] == sep[i - n] && right[i] == sep[i - n]);
            } else {
                assert(left[i] == a[last][i - m] && right[i] == b[last][i - m]);
            }
        }
    }
}

/// Every index name is a plain identifier.
pub proof fn law_index_names_are_plain_identifiers(table: Seq<char>, columns: Seq<Seq<char>>)
    ensures
        plain_identifier(index_name_of(table, columns)),
{
    reveal_strlit("idx_");
    reveal_strlit("_");
    let parts = index_parts(table, columns);
    assert forall|k: int| 0 <= k < parts.len() implies all_word_chars(#[trigger] parts[k]) by {
        let source = if k == 0 {
            table
        } else {
            columns[k - 1]
        };
        assert(parts[k] == ident_part(source));
    }
    lemma_joined_word_chars(parts, "_"@);
    let name = index_name_of(table, columns);
    assert forall|i: int| 0 <= i < name.len() implies word_char(#[trigger] name[i]) by {
        if i >= 4 {
            assert(name[i] == joined(parts, "_"@)[i - 4]);
        }
    }
}

spec fn all_word_chars(s: Seq<char>) -> bool {
    forall|i: int| 0 <= i < s.len() ==> word_char(#[trigger] s[i])
}

proof fn lemma_joined_word_chars(parts: Seq<Seq<char>>, sep: Seq<char>)
    requires
        all_word_chars(sep),
        forall|k: int| 0 <= k < parts.len() ==> all_word_chars(#[trigger] parts[k]),
    ensures
        all_word_chars(joined(parts, sep)),
    decreases parts.len(),
{
    if parts.len() > 1 {
        assert forall|k: int| 0 <= k < parts.drop_last().len() implies all_word_chars(
            #[trigger] parts.drop_last()[k],
        ) by {
            assert(parts.drop_last()[k] == parts[k]);
        }
        lemma_joined_word_chars(parts.drop_last(), sep);
        assert(all_word_chars(parts[parts.len() - 1]));
    }
}

// ---------------------------------------------------------------------------
// Comparing
// ---------------------------------------------------------------------------

/// Are two lists of identifiers the same to SQLite, which ignores the case of ASCII
/// letters?
pub open spec fn same_ident_lists(a: Seq<Seq<char>>, b: Seq<Seq<char>>) -> bool {
    &&& a.len() == b.len()
    &&& forall|i: int| 0 <= i < a.len() ==> same_ignoring_case(#[trigger] a[i], b[i])
}

/// Case-insensitive comparison of two identifier lists.
pub fn same_idents(a: &[String], b: &[String]) -> (r: bool)
    ensures
        r == same_ident_lists(texts(a@), texts(b@)),
{
    if a.len() != b.len() {
        return false;
    }
    let mut i: usize = 0;
    while i < a.len()
        invariant
            i <= a@.len(),
            a@.len() == b@.len(),
            forall|j: int|
                0 <= j < i ==> same_ignoring_case(#[trigger] texts(a@)[j], texts(b@)[j]),
        decreases a@.len() - i,
    {
        if !eq_ignoring_case(a[i].as_str(), b[i].as_str()) {
            assert(!same_ignoring_case(texts(a@)[i as int], texts(b@)[i as int]));
            return false;
        }
        i += 1;
    }
    true
}

/// Does the list hold the identifier, up to the case of ASCII letters?
pub open spec fn has_ident(list: Seq<Seq<char>>, name: Seq<char>) -> bool {
    exists|i: int| 0 <= i < list.len() && same_ignoring_case(#[trigger] list[i], name)
}

/// Decides [`has_ident`].
pub fn contains_ident(list: &[String], name: &str) -> (r: bool)
    ensures
        r == has_ident(texts(list@), name@),
{
    let mut i: usize = 0;
    while i < list.len()
        invariant
            i <= list@.len(),
            forall|j: int| 0 <= j < i ==> !same_ignoring_case(#[trigger] texts(list@)[j], name@),
        decreases list@.len() - i,
    {
        if eq_ignoring_case(list[i].as_str(), name) {
            assert(same_ignoring_case(texts(list@)[i as int], name@));
            return true;
        }
        i += 1;
    }
    false
}

// ---------------------------------------------------------------------------
// What holds of names
// ---------------------------------------------------------------------------

/// Doubling keeps every character but the double quote, which it doubles, in order: it works on
/// any two parts of a text separately.
pub proof fn law_doubling(a: Seq<char>, b: Seq<char>, c: char)
    ensures
        doubled(a + b) == doubled(a) + doubled(b),
        c == '"' ==> doubled(seq![c]) == seq!['"', '"'],
        c != '"' ==> doubled(seq![c]) == seq![c],
        doubled(Seq::<char>::empty()) == Seq::<char>::empty(),
    decreases a.len(),
{
    assert(seq![c].drop_first() =~= Seq::<char>::empty());
    assert(doubled(seq![c].drop_first()) == Seq::<char>::empty());
    assert(doubled(seq![c]) =~= doubled_char(c));
    if a.len() == 0 {
        assert(a + b =~= b);
        assert(doubled(a) + doubled(b) =~= doubled(b));
    } else {
        law_doubling(a.drop_first(), b, c);
        assert((a + b).drop_first() =~= a.drop_first() + b);
        assert(doubled(a + b) =~= doubled(a) + doubled(b));
    }
}

/// A quoted identifier stands between two double quotes, and is there as it is where it holds
/// none.
pub proof fn law_quoted_identifiers(name: Seq<char>)
    ensures
        quoted(name) == seq!['"'] + doubled(name) + seq!['"'],
        !name.contains('"') ==> quoted(name) == seq!['"'] + name + seq!['"'],
    decreases name.len(),
{
    if name.len() > 0 && !name.contains('"') {
        let rest = name.drop_first();
        assert(name[0] != '"');
        assert(!rest.contains('"')) by {
            if rest.contains('"') {
                let k = choose|k: int| 0 <= k < rest.len() && rest[k] == '"';
                assert(name[k + 1] == '"');
            }
        }
        law_quoted_identifiers(rest);
        let q = seq!['"'];
        assert(quoted(rest) == q + rest + q);
        assert(doubled(rest) =~= quoted(rest).subrange(1, quoted(rest).len() - 1));
        assert(rest =~= (q + rest + q).subrange(1, (q + rest + q).len() - 1));
        assert(doubled(name) =~= seq![name[0]] + rest);
        assert(doubled(name) =~= name);
    } else if name.len() == 0 {
        assert(doubled(name) =~= name);
    }
}

/// A table name has the stem's characters, in order, but for those that are no ASCII letter,
/// digit or underscore, each of which is an underscore; an underscore stands before a leading
/// digit, and nothing else is added. Without a stem, or with an empty one, it is "table".
pub proof fn law_table_names(stem: Seq<char>)
    ensures
        table_name(None) == "table"@,
        stem.len() == 0 ==> table_name(Some(stem)) == "table"@,
        stem.len() > 0 && '0' <= stem[0] && stem[0] <= '9' ==> {
            let name = table_name(Some(stem));
            &&& name.len() == stem.len() + 1
            &&& name[0] == '_'
            &&& forall|i: int|
                0 <= i < stem.len() ==> #[trigger] name.drop_first()[i] == (if word_char(stem[i]) {
                    stem[i]
                } else {
                    '_'
                })
        },
        stem.len() > 0 && !('0' <= stem[0] && stem[0] <= '9') ==> {
            let name = table_name(Some(stem));
            &&& name.len() == stem.len()
            &&& forall|i: int|
                0 <= i < stem.len() ==> #[trigger] name[i] == (if word_char(stem[i]) {
                    stem[i]
                } else {
                    '_'
                })
        },
        table_identifier(stem) == table_name(Some(stem)),
{
    reveal_strlit("table");
    assert(cleaned("table"@) =~= "table"@);
    if stem.len() > 0 {
        let name = cleaned(stem);
        assert(ascii_digit(name[0]) == ('0' <= stem[0] && stem[0] <= '9'));
        assert forall|i: int| 0 <= i < stem.len() implies name[i] == (if word_char(stem[i]) {
            stem[i]
        } else {
            '_'
        }) by {
        }
    }
}

/// A part of an index name has the text's characters, in order, but for those that are no ASCII
/// letter, digit or underscore, each of which is an underscore; for an empty text it is one.
pub proof fn law_parts_of_index_names(s: Seq<char>)
    ensures
        s.len() == 0 ==> ident_part(s) == seq!['_'],
        s.len() > 0 ==> ident_part(s).len() == s.len(),
        forall|i: int|
            0 <= i < s.len() ==> #[trigger] ident_part(s)[i] == (if word_char(s[i]) {
                s[i]
            } else {
                '_'
            }),
{
}

/// An index name starts with `idx_` and the table's part, and every further column adds an
/// underscore and its own part at the end, whatever came before.
pub proof fn law_index_names(table: Seq<char>, columns: Seq<Seq<char>>, column: Seq<char>)
    ensures
        index_name_of(table, Seq::empty()) == "idx_"@ + ident_part(table),
        index_name_of(table, columns.push(column)) == index_name_of(table, columns) + "_"@
            + ident_part(column),
{
    let none = index_parts(table, Seq::empty());
    assert(none =~= seq![ident_part(table)]);
    assert(joined(none, "_"@) == none[0]);
    let parts = index_parts(table, columns.push(column));
    assert(parts.drop_last() =~= index_parts(table, columns));
    assert(parts.last() == ident_part(column));
    assert(index_name_of(table, columns.push(column)) =~= index_name_of(table, columns) + "_"@
        + ident_part(column));
}

/// Lists of identifiers are the same where they are equally long and their identifiers are the
/// same up to case, one by one.
pub proof fn law_same_ident_lists(a: Seq<Seq<char>>, b: Seq<Seq<char>>, name: Seq<char>)
    ensures
        same_ident_lists(a, b) <==> a.len() == b.len() && (forall|i: int|
            0 <= i < a.len() ==> same_ignoring_case(#[trigger] a[i], b[i])),
        has_ident(a, name) <==> exists|i: int|
            0 <= i < a.len() && same_ignoring_case(#[trigger] a[i], name),
{
}

proof fn lemma_file_name_behind_slash(front: Seq<char>, name: Seq<char>)
    requires
        !name.contains('/'),
        front.len() == 0 || front.last() == '/',
    ensures
        file_name(front + name) == name,
    decreases name.len(),
{
    let path = front + name;
    if name.len() == 0 {
        assert(path =~= front);
        assert(file_name(path) =~= name);
    } else {
        assert(name[name.len() - 1] != '/');
        assert(!name.drop_last().contains('/')) by {
            if name.drop_last().contains('/') {
                let k = choose|k: int|
                    0 <= k < name.drop_last().len() && name.drop_last()[k] == '/';
                assert(name[k] == '/');
            }
        }
        lemma_file_name_behind_slash(front, name.drop_last());
        assert(path.drop_last() =~= front + name.drop_last());
        assert(path.last() == name.last());
        assert(file_name(path) =~= name);
    }
}

proof fn lemma_before_last_dot(stem: Seq<char>, extension: Seq<char>)
    requires
        !extension.contains('.'),
    ensures
        before_last_dot(stem + (seq!['.'] + extension)) == Some(stem),
    decreases extension.len(),
{
    let name = stem + (seq!['.'] + extension);
    if extension.len() == 0 {
        assert(name.last() == '.');
        assert(name.drop_last() =~= stem);
    } else {
        let less = extension.drop_last();
        assert(extension[extension.len() - 1] != '.');
        assert(!less.contains('.')) by {
            if less.contains('.') {
                let k = choose|k: int| 0 <= k < less.len() && less[k] == '.';
                assert(extension[k] == '.');
            }
        }
        lemma_before_last_dot(stem, less);
        assert(name.last() == extension.last());
        assert(name.drop_last() =~= stem + (seq!['.'] + less));
    }
}

/// In whatever directory, the stem of a file with an extension is its name up to the last dot.
pub proof fn law_file_stem(directory: Seq<char>, stem: Seq<char>, extension: Seq<char>)
    requires
        directory.len() == 0 || directory.last() == '/',
        stem.len() > 0,
        extension.len() > 0,
        !stem.contains('/'),
        !extension.contains('/'),
        !extension.contains('.'),
    ensures
        file_stem(directory + (stem + (seq!['.'] + extension))) == Some(stem),
{
    let name = stem + (seq!['.'] + extension);
    let path = directory + name;
    assert(path.last() == extension[extension.len() - 1]);
    assert(without_empty_end(path) == path);
    assert(!name.contains('/')) by {
        if name.contains('/') {
            let k = choose|k: int| 0 <= k < name.len() && name[k] == '/';
            if k < stem.len() {
                assert(stem[k] == '/');
            } else if k > stem.len() {
                assert(extension[k - stem.len() - 1] == '/');
            }
        }
    }
    lemma_file_name_behind_slash(directory, name);
    lemma_before_last_dot(stem, extension);
}

} // verus!
