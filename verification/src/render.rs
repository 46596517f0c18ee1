//! Query results as an aligned ASCII table.

use crate::text::{copy_of, join, joined, push_times, replicated, text_rows, texts};
use vstd::prelude::*;

verus! {

/// The larger of two numbers.
pub open spec fn larger(a: nat, b: nat) -> nat {
    if a < b {
        b
    } else {
        a
    }
}

/// The text in column `i` of a row; empty where the row is too short.
pub open spec fn cell_at(cells: Seq<Seq<char>>, i: int) -> Seq<char> {
    if i < cells.len() {
        cells[i]
    } else {
        Seq::empty()
    }
}

/// The width of column `i`: the length of its longest text, the header's or a row's.
pub open spec fn column_width(
    headers: Seq<Seq<char>>,
    rows: Seq<Seq<Seq<char>>>,
    i: int,
) -> nat
    decreases rows.len(),
{
    if rows.len() == 0 {
        headers[i].len()
    } else {
        larger(column_width(headers, rows.drop_last(), i), cell_at(rows.last(), i).len())
    }
}

/// The widths of all columns.
pub open spec fn column_widths(headers: Seq<Seq<char>>, rows: Seq<Seq<Seq<char>>>) -> Seq<nat> {
    Seq::new(headers.len(), |i: int| column_width(headers, rows, i))
}

/// The dashes above and below column `i`.
pub open spec fn rule_parts(widths: Seq<nat>) -> Seq<Seq<char>> {
    Seq::new(widths.len(), |i: int| replicated('-', widths[i] + 2))
}

/// A line between rows.
pub open spec fn rule(widths: Seq<nat>) -> Seq<char> {
    "+"@ + joined(rule_parts(widths), "+"@) + "+"@
}

/// A text in a column: padded to the column's width, with a space on either side.
pub open spec fn padded(text: Seq<char>, width: nat) -> Seq<char> {
    let pad = if text.len() < width {
        (width - text.len()) as nat
    } else {
        0
    };
    " "@ + text + replicated(' ', pad) + " "@
}

/// The texts of a row, each in its column.
pub open spec fn line_parts(cells: Seq<Seq<char>>, widths: Seq<nat>) -> Seq<Seq<char>> {
    Seq::new(widths.len(), |i: int| padded(cell_at(cells, i), widths[i]))
}

/// A row as a line.
pub open spec fn line(cells: Seq<Seq<char>>, widths: Seq<nat>) -> Seq<char> {
    "|"@ + joined(line_parts(cells, widths), "|"@) + "|"@
}

/// The lines of the rows.
pub open spec fn row_lines(rows: Seq<Seq<Seq<char>>>, widths: Seq<nat>) -> Seq<Seq<char>> {
    Seq::new(rows.len(), |i: int| line(rows[i], widths))
}

/// The lines of a table: the header between two rules, the rows, a rule.
pub open spec fn table_lines(headers: Seq<Seq<char>>, rows: Seq<Seq<Seq<char>>>) -> Seq<Seq<char>> {
    let widths = column_widths(headers, rows);
    seq![rule(widths), line(headers, widths), rule(widths)] + row_lines(rows, widths) + seq![
        rule(widths),
    ]
}

/// A table as text.
pub open spec fn table_text(headers: Seq<Seq<char>>, rows: Seq<Seq<Seq<char>>>) -> Seq<char> {
    joined(table_lines(headers, rows), "\n"@)
}

/// Widths as numbers.
pub open spec fn nats(widths: Seq<usize>) -> Seq<nat> {
    Seq::new(widths.len(), |i: int| widths[i] as nat)
}

fn measure(headers: &[String], rows: &[Vec<String>]) -> (r: Vec<usize>)
    ensures
        nats(r@) == column_widths(texts(headers@), text_rows(rows@)),
{
    let ghost head = texts(headers@);
    let ghost body = text_rows(rows@);
    let mut widths: Vec<usize> = Vec::new();
    let mut i: usize = 0;
    while i < headers.len()
        invariant
            i <= headers@.len(),
            head == texts(headers@),
            body == text_rows(rows@),
            nats(widths@) == column_widths(head, body).take(i as int),
        decreases headers@.len() - i,
    {
        let mut width: usize = headers[i].as_str().unicode_len();
        let mut k: usize = 0;
        while k < rows.len()
            invariant
                k <= rows@.len(),
                i < headers@.len(),
                head == texts(headers@),
                body == text_rows(rows@),
                width == column_width(head, body.take(k as int), i as int),
            decreases rows@.len() - k,
        {
            assert(body.take(k + 1).drop_last() == body.take(k as int));
            assert(body.take(k + 1).last() == texts(rows@[k as int]@));
            let row = &rows[k];
            if i < row.len() {
                let length = row[i].as_str().unicode_len();
                if width < length {
                    width = length;
                }
            }
            k += 1;
        }
        assert(body.take(body.len() as int) == body);
        let ghost before = widths@;
        widths.push(width);
        assert(nats(widths@) =~= nats(before).push(width as nat));
        assert(column_widths(head, body).take(i + 1) =~= column_widths(head, body).take(
            i as int,
        ).push(width as nat));
        i += 1;
    }
    assert(column_widths(head, body).take(head.len() as int) == column_widths(head, body));
    widths
}

fn render_rule(widths: &Vec<usize>) -> (r: String)
    ensures
        r@ == rule(nats(widths@)),
{
    let ghost full = rule_parts(nats(widths@));
    let mut parts: Vec<String> = Vec::new();
    let mut i: usize = 0;
    while i < widths.len()
        invariant
            i <= widths@.len(),
            full == rule_parts(nats(widths@)),
            texts(parts@) == full.take(i as int),
        decreases widths@.len() - i,
    {
        let mut part = String::new();
        push_times(&mut part, '-', widths[i]);
        push_times(&mut part, '-', 2);
        let ghost before = parts@;
        parts.push(part);
        assert(part@ =~= replicated('-', widths@[i as int] as nat + 2));
        assert(texts(parts@) =~= texts(before).push(part@));
        assert(full.take(i + 1) =~= full.take(i as int).push(part@));
        i += 1;
    }
    assert(full.take(full.len() as int) == full);
    let mut out = copy_of("+");
    out.append(join(parts.as_slice(), "+").as_str());
    out.append("+");
    out
}

fn render_line(cells: &[String], widths: &Vec<usize>) -> (r: String)
    ensures
        r@ == line(texts(cells@), nats(widths@)),
{
    let ghost full = line_parts(texts(cells@), nats(widths@));
    let mut parts: Vec<String> = Vec::new();
    let mut i: usize = 0;
    while i < widths.len()
        invariant
            i <= widths@.len(),
            full == line_parts(texts(cells@), nats(widths@)),
            texts(parts@) == full.take(i as int),
        decreases widths@.len() - i,
    {
        let cell: &str = if i < cells.len() {
            cells[i].as_str()
        } else {
            ""
        };
        proof {
            reveal_strlit("");
            assert(cell@ =~= cell_at(texts(cells@), i as int));
        }
        let length = cell.unicode_len();
        let pad: usize = if length < widths[i] {
            widths[i] - length
        } else {
            0
        };
        let mut part = copy_of(" ");
        part.append(cell);
        push_times(&mut part, ' ', pad);
        part.append(" ");
        let ghost before = parts@;
        parts.push(part);
        assert(part@ == full[i as int]);
        assert(texts(parts@) =~= texts(before).push(part@));
        assert(full.take(i + 1) =~= full.take(i as int).push(part@));
        i += 1;
    }
    assert(full.take(full.len() as int) == full);
    let mut out = copy_of("|");
    out.append(join(parts.as_slice(), "|").as_str());
    out.append("|");
    out
}

/// Renders a header and rows as an aligned ASCII table.
pub fn render_table(headers: &[String], rows: &[Vec<String>]) -> (r: String)
    ensures
        r@ == table_text(texts(headers@), text_rows(rows@)),
{
    let ghost head = texts(headers@);
    let ghost body = text_rows(rows@);
    let widths = measure(headers, rows);
    let ghost w = nats(widths@);
    let ghost full = table_lines(head, body);
    let mut lines: Vec<String> = Vec::new();
    lines.push(render_rule(&widths));
    lines.push(render_line(headers, &widths));
    lines.push(render_rule(&widths));
    assert(texts(lines@) =~= full.take(3));
    let mut i: usize = 0;
    while i < rows.len()
        invariant
            i <= rows@.len(),
            head == texts(headers@),
            body == text_rows(rows@),
            w == nats(widths@),
            w == column_widths(head, body),
            full == table_lines(head, body),
            texts(lines@) == full.take(3 + i),
        decreases rows@.len() - i,
    {
        let line = render_line(rows[i].as_slice(), &widths);
        let ghost before = lines@;
        lines.push(line);
        assert(full[3 + i] == row_lines(body, w)[i as int]);
        assert(texts(lines@) =~= texts(before).push(line@));
        assert(full.take(3 + i + 1) =~= full.take(3 + i).push(line@));
        i += 1;
    }
    let ghost before = lines@;
    lines.push(render_rule(&widths));
    assert(texts(lines@) =~= texts(before).push(rule(w)));
    assert(texts(lines@) =~= full);
    join(lines.as_slice(), "\n")
}

proof fn lemma_width_covers(headers: Seq<Seq<char>>, rows: Seq<Seq<Seq<char>>>, i: int)
    ensures
        headers[i].len() <= column_width(headers, rows, i),
        forall|k: int|
            0 <= k < rows.len() ==> cell_at(#[trigger] rows[k], i).len() <= column_width(
                headers,
                rows,
                i,
            ),
    decreases rows.len(),
{
    if rows.len() > 0 {
        lemma_width_covers(headers, rows.drop_last(), i);
        assert forall|k: int| 0 <= k < rows.len() implies cell_at(#[trigger] rows[k], i).len()
            <= column_width(headers, rows, i) by {
            if k < rows.len() - 1 {
                assert(rows.drop_last()[k] == rows[k]);
            }
        }
    }
}

proof fn lemma_joined_len(a: Seq<Seq<char>>, b: Seq<Seq<char>>, sep_a: Seq<char>, sep_b: Seq<char>)
    requires
        a.len() == b.len(),
        sep_a.len() == sep_b.len(),
        forall|i: int| 0 <= i < a.len() ==> (#[trigger] a[i]).len() == b[i].len(),
    ensures
        joined(a, sep_a).len() == joined(b, sep_b).len(),
    decreases a.len(),
{
    if a.len() > 1 {
        assert forall|i: int| 0 <= i < a.drop_last().len() implies (
        #[trigger] a.drop_last()[i]).len() == b.drop_last()[i].len() by {
            assert(a.drop_last()[i] == a[i]);
        }
        lemma_joined_len(a.drop_last(), b.drop_last(), sep_a, sep_b);
        assert(a[a.len() - 1].len() == b[a.len() - 1].len());
    } else if a.len() == 1 {
        assert(a[0].len() == b[0].len());
    }
}

proof fn lemma_line_as_long_as_rule(cells: Seq<Seq<char>>, widths: Seq<nat>)
    requires
        forall|i: int| 0 <= i < widths.len() ==> cell_at(cells, i).len() <= #[trigger] widths[i],
    ensures
        line(cells, widths).len() == rule(widths).len(),
{
    reveal_strlit("+");
    reveal_strlit("|");
    reveal_strlit(" ");
    let a = line_parts(cells, widths);
    let b = rule_parts(widths);
    assert forall|i: int| 0 <= i < a.len() implies (#[trigger] a[i]).len() == b[i].len() by {
        assert(cell_at(cells, i).len() <= widths[i]);
    }
    lemma_joined_len(a, b, "|"@, "+"@);
}

/// The lines of a table are all of the same length: the columns are aligned.
pub proof fn law_table_lines_are_aligned(headers: Seq<Seq<char>>, rows: Seq<Seq<Seq<char>>>, k: int)
    requires
        0 <= k < table_lines(headers, rows).len(),
    ensures
        table_lines(headers, rows)[k].len() == table_lines(headers, rows)[0].len(),
{
    let widths = column_widths(headers, rows);
    let lines = table_lines(headers, rows);
    assert(lines[0] == rule(widths));
    if k == 1 {
        assert(lines[1] == line(headers, widths));
        assert forall|i: int| 0 <= i < widths.len() implies cell_at(headers, i).len()
            <= #[trigger] widths[i] by {
            lemma_width_covers(headers, rows, i);
        }
        lemma_line_as_long_as_rule(headers, widths);
    } else if 3 <= k < 3 + rows.len() {
        let row = rows[k - 3];
        assert(lines[k] == row_lines(rows, widths)[k - 3]);
        assert forall|i: int| 0 <= i < widths.len() implies cell_at(row, i).len()
            <= #[trigger] widths[i] by {
            lemma_width_covers(headers, rows, i);
        }
        lemma_line_as_long_as_rule(row, widths);
    } else {
        assert(lines[k] == rule(widths));
    }
}

/// A table has one line per row, and four more.
pub proof fn law_table_has_one_line_per_row(headers: Seq<Seq<char>>, rows: Seq<Seq<Seq<char>>>)
    ensures
        table_lines(headers, rows).len() == rows.len() + 4,
{
}

/// The width of a column is just enough: no text in it, the header's or a row's, is longer, and
/// one of them is as long.
pub proof fn law_column_widths(headers: Seq<Seq<char>>, rows: Seq<Seq<Seq<char>>>, c: int)
    requires
        0 <= c < headers.len(),
    ensures
        column_widths(headers, rows).len() == headers.len(),
        headers[c].len() <= column_widths(headers, rows)[c],
        forall|k: int|
            0 <= k < rows.len() && c < (#[trigger] rows[k]).len() ==> rows[k][c].len()
                <= column_widths(headers, rows)[c],
        column_widths(headers, rows)[c] == headers[c].len() || exists|k: int|
            0 <= k < rows.len() && c < (#[trigger] rows[k]).len() && rows[k][c].len()
                == column_widths(headers, rows)[c],
    decreases rows.len(),
{
    lemma_width_covers(headers, rows, c);
    assert forall|k: int| 0 <= k < rows.len() && c < (#[trigger] rows[k]).len() implies
        rows[k][c].len() <= column_widths(headers, rows)[c] by {
        assert(cell_at(rows[k], c) == rows[k][c]);
    }
    if rows.len() > 0 {
        let front = rows.drop_last();
        law_column_widths(headers, front, c);
        let w = column_widths(headers, front)[c];
        if column_widths(headers, rows)[c] == w {
            if w != headers[c].len() {
                let k = choose|k: int|
                    0 <= k < front.len() && c < (#[trigger] front[k]).len() && front[k][c].len()
                        == w;
                assert(rows[k] == front[k]);
            }
        } else {
            assert(rows[rows.len() - 1][c].len() == column_widths(headers, rows)[c]);
        }
    }
}

/// Where column `c` starts in a line: behind a border, and the columns before it with a space
/// on either side and a border behind each.
pub open spec fn column_start(widths: Seq<nat>, c: int) -> int
    decreases c,
{
    if c <= 0 {
        1
    } else {
        column_start(widths, c - 1) + widths[c - 1] + 3
    }
}

proof fn lemma_column_start(a: Seq<nat>, b: Seq<nat>, c: int)
    requires
        0 <= c <= a.len(),
        c <= b.len(),
        forall|i: int| 0 <= i < c ==> #[trigger] a[i] == b[i],
    ensures
        column_start(a, c) == column_start(b, c),
        column_start(a, c) >= 1,
    decreases c,
{
    if c > 0 {
        lemma_column_start(a, b, c - 1);
    }
}

spec fn bordered(parts: Seq<Seq<char>>, border: char) -> Seq<char> {
    seq![border] + joined(parts, seq![border]) + seq![border]
}

proof fn lemma_bordered(parts: Seq<Seq<char>>, border: char, widths: Seq<nat>, c: int)
    requires
        parts.len() == widths.len(),
        forall|i: int| 0 <= i < parts.len() ==> (#[trigger] parts[i]).len() == widths[i] + 2,
        0 <= c < parts.len(),
    ensures
        ({
            let s = bordered(parts, border);
            let start = column_start(widths, c);
            &&& s.len() == column_start(widths, parts.len() as int)
            &&& 1 <= start
            &&& start + widths[c] + 2 < s.len()
            &&& s[start - 1] == border
            &&& s.subrange(start, start + widths[c] + 2) == parts[c]
            &&& s[start + widths[c] + 2] == border
        }),
    decreases parts.len(),
{
    let s = bordered(parts, border);
    let n = parts.len() as int;
    let last = parts[n - 1];
    let w = widths[n - 1] as int;
    if n == 1 {
        assert(joined(parts, seq![border]) == parts[0]);
        assert(s =~= seq![border] + last + seq![border]);
        assert(column_start(widths, 0) == 1);
        assert(column_start(widths, 1) == 1 + w + 3);
        assert(s.subrange(1, 1 + w + 2) =~= last);
    } else {
        let front = parts.drop_last();
        let less = widths.drop_last();
        let t = bordered(front, border);
        assert forall|i: int| 0 <= i < front.len() implies (#[trigger] front[i]).len() == less[i]
            + 2 by {
            assert(front[i] == parts[i]);
        }
        assert(s =~= t + last + seq![border]);
        lemma_column_start(less, widths, n - 1);
        lemma_bordered(front, border, less, if c < n - 1 { c } else { 0 });
        assert(t.len() == column_start(widths, n - 1));
        assert(t[t.len() - 1] == border);
        if c < n - 1 {
            lemma_column_start(less, widths, c);
            let start = column_start(widths, c);
            assert(s.subrange(start, start + widths[c] + 2) =~= t.subrange(
                start,
                start + less[c] + 2,
            ));
        } else {
            let start = t.len() as int;
            assert(s.subrange(start, start + w + 2) =~= last);
            assert(s[start - 1] == t[start - 1]);
        }
    }
}

proof fn lemma_cell_in_its_line(cells: Seq<Seq<char>>, widths: Seq<nat>, c: int)
    requires
        0 <= c < widths.len(),
        forall|i: int| 0 <= i < widths.len() ==> cell_at(cells, i).len() <= #[trigger] widths[i],
    ensures
        ({
            let s = line(cells, widths);
            let start = column_start(widths, c);
            let text = if c < cells.len() {
                cells[c]
            } else {
                Seq::empty()
            };
            &&& s.len() == column_start(widths, widths.len() as int)
            &&& 1 <= start
            &&& start + widths[c] + 2 < s.len()
            &&& s[start - 1] == '|'
            &&& s[start] == ' '
            &&& s.subrange(start + 1, start + 1 + text.len()) == text
            &&& forall|k: int|
                start + 1 + text.len() <= k < start + widths[c] + 2 ==> #[trigger] s[k] == ' '
            &&& s[start + widths[c] + 2] == '|'
        }),
{
    reveal_strlit("|");
    reveal_strlit(" ");
    let parts = line_parts(cells, widths);
    assert forall|i: int| 0 <= i < parts.len() implies (#[trigger] parts[i]).len() == widths[i]
        + 2 by {
        assert(cell_at(cells, i).len() <= widths[i]);
    }
    assert("|"@ =~= seq!['|']);
    let s = line(cells, widths);
    assert(s == bordered(parts, '|'));
    lemma_bordered(parts, '|', widths, c);
    let start = column_start(widths, c);
    let text = cell_at(cells, c);
    let part = s.subrange(start, start + widths[c] + 2);
    assert(part == parts[c]);
    assert(text.len() <= widths[c]);
    assert(s[start] == part[0]);
    assert(s.subrange(start + 1, start + 1 + text.len()) =~= text) by {
        assert forall|k: int| 0 <= k < text.len() implies s[start + 1 + k] == text[k] by {
            assert(s[start + 1 + k] == part[1 + k]);
        }
    }
    assert forall|k: int|
        start + 1 + text.len() <= k < start + widths[c] + 2 implies #[trigger] s[k] == ' ' by {
        assert(s[k] == part[k - start]);
    }
}

/// Every text of a row stands whole in its column: in the row's line, between the borders of
/// column `c`, there are a space, the full text, spaces up to the column's width, and a space. A
/// row that is too short has nothing there. The borders of a column are at the same place in
/// every line.
pub proof fn law_cells_stand_whole_in_their_columns(
    headers: Seq<Seq<char>>,
    rows: Seq<Seq<Seq<char>>>,
    i: int,
    c: int,
)
    requires
        0 <= c < headers.len(),
        0 <= i < rows.len(),
    ensures
        ({
            let widths = column_widths(headers, rows);
            let s = table_lines(headers, rows)[3 + i];
            let start = column_start(widths, c);
            let text = if c < rows[i].len() {
                rows[i][c]
            } else {
                Seq::empty()
            };
            &&& text.len() <= widths[c]
            &&& s.len() == column_start(widths, widths.len() as int)
            &&& 1 <= start
            &&& start + widths[c] + 2 < s.len()
            &&& s[start - 1] == '|'
            &&& s[start] == ' '
            &&& s.subrange(start + 1, start + 1 + text.len()) == text
            &&& forall|k: int|
                start + 1 + text.len() <= k < start + widths[c] + 2 ==> #[trigger] s[k] == ' '
            &&& s[start + widths[c] + 2] == '|'
        }),
{
    let widths = column_widths(headers, rows);
    assert forall|k: int| 0 <= k < widths.len() implies cell_at(rows[i], k).len()
        <= #[trigger] widths[k] by {
        lemma_width_covers(headers, rows, k);
    }
    lemma_cell_in_its_line(rows[i], widths, c);
    assert(table_lines(headers, rows)[3 + i] == row_lines(rows, widths)[i]);
}

/// The header's texts stand whole in their columns, as those of the rows do.
pub proof fn law_headers_stand_whole_in_their_columns(
    headers: Seq<Seq<char>>,
    rows: Seq<Seq<Seq<char>>>,
    c: int,
)
    requires
        0 <= c < headers.len(),
    ensures
        ({
            let widths = column_widths(headers, rows);
            let s = table_lines(headers, rows)[1];
            let start = column_start(widths, c);
            let text = headers[c];
            &&& text.len() <= widths[c]
            &&& s.len() == column_start(widths, widths.len() as int)
            &&& 1 <= start
            &&& start + widths[c] + 2 < s.len()
            &&& s[start - 1] == '|'
            &&& s[start] == ' '
            &&& s.subrange(start + 1, start + 1 + text.len()) == text
            &&& forall|k: int|
                start + 1 + text.len() <= k < start + widths[c] + 2 ==> #[trigger] s[k] == ' '
            &&& s[start + widths[c] + 2] == '|'
        }),
{
    let widths = column_widths(headers, rows);
    assert forall|k: int| 0 <= k < widths.len() implies cell_at(headers, k).len()
        <= #[trigger] widths[k] by {
        lemma_width_covers(headers, rows, k);
    }
    lemma_cell_in_its_line(headers, widths, c);
}

/// The lines around the header and at the end are made of dashes, with a plus where the other
/// lines have their borders.
pub proof fn law_rules_of_tables(headers: Seq<Seq<char>>, rows: Seq<Seq<Seq<char>>>, c: int)
    requires
        0 <= c < headers.len(),
    ensures
        ({
            let widths = column_widths(headers, rows);
            let lines = table_lines(headers, rows);
            let start = column_start(widths, c);
            let s = lines[0];
            &&& lines[2] == s
            &&& lines[lines.len() - 1] == s
            &&& s.len() == column_start(widths, widths.len() as int)
            &&& s[start - 1] == '+'
            &&& forall|k: int| start <= k < start + widths[c] + 2 ==> #[trigger] s[k] == '-'
            &&& s[start + widths[c] + 2] == '+'
        }),
{
    reveal_strlit("+");
    let widths = column_widths(headers, rows);
    let parts = rule_parts(widths);
    assert("+"@ =~= seq!['+']);
    let s = rule(widths);
    assert(s == bordered(parts, '+'));
    lemma_bordered(parts, '+', widths, c);
    let start = column_start(widths, c);
    let part = s.subrange(start, start + widths[c] + 2);
    assert forall|k: int| start <= k < start + widths[c] + 2 implies #[trigger] s[k] == '-' by {
        assert(s[k] == part[k - start]);
    }
}

spec fn line_start(k: int, length: int) -> int
    decreases k,
{
    if k <= 0 {
        0
    } else {
        line_start(k - 1, length) + length + 1
    }
}

proof fn lemma_line_start(k: int, length: int)
    requires
        0 <= k,
        0 <= length,
    ensures
        line_start(k, length) == k * (length + 1),
        line_start(k, length) >= 0,
    decreases k,
{
    if k > 0 {
        lemma_line_start(k - 1, length);
        assert((k - 1) * (length + 1) + (length + 1) == k * (length + 1)) by (nonlinear_arith);
    } else {
        assert(0 * (length + 1) == 0);
    }
}

proof fn lemma_lines_in_text(lines: Seq<Seq<char>>, length: int, k: int)
    requires
        0 <= k < lines.len(),
        forall|i: int| 0 <= i < lines.len() ==> (#[trigger] lines[i]).len() == length,
    ensures
        ({
            let s = joined(lines, seq!['\n']);
            let start = line_start(k, length);
            &&& s.len() == line_start(lines.len() as int, length) - 1
            &&& 0 <= start <= start + length <= s.len()
            &&& s.subrange(start, start + length) == lines[k]
            &&& k < lines.len() - 1 ==> start + length < s.len() && s[start + length] == '\n'
        }),
    decreases lines.len(),
{
    let s = joined(lines, seq!['\n']);
    let n = lines.len() as int;
    let last = lines[n - 1];
    assert(last.len() == length);
    lemma_line_start(k, length);
    if n == 1 {
        assert(s == lines[0]);
        assert(line_start(0, length) == 0);
        assert(line_start(1, length) == line_start(0, length) + length + 1);
        assert(s.subrange(0, length) =~= lines[0]);
    } else {
        let front = lines.drop_last();
        let t = joined(front, seq!['\n']);
        assert forall|i: int| 0 <= i < front.len() implies (#[trigger] front[i]).len() == length by {
            assert(front[i] == lines[i]);
        }
        let before = if k < n - 1 {
            k
        } else {
            0
        };
        lemma_lines_in_text(front, length, before);
        assert(s == t + seq!['\n'] + last);
        assert(t.len() + 1 == line_start(n - 1, length));
        let start = line_start(k, length);
        if k < n - 1 {
            assert(front[k] == lines[k]);
            assert(s.subrange(start, start + length) =~= t.subrange(start, start + length));
            if k < n - 2 {
                assert(s[start + length] == t[start + length]);
            } else {
                assert(line_start(k + 1, length) == start + length + 1);
                assert(s[t.len() as int] == '\n');
            }
        } else {
            assert(s.subrange(start, start + length) =~= last);
        }
    }
}

/// The table's text is its lines, all of them and in order, with a line break between
/// neighbours: line `k` stands behind `k` lines and as many line breaks.
pub proof fn law_table_text_is_its_lines(headers: Seq<Seq<char>>, rows: Seq<Seq<Seq<char>>>, k: int)
    requires
        0 <= k < rows.len() + 4,
    ensures
        ({
            let lines = table_lines(headers, rows);
            let s = table_text(headers, rows);
            let length = lines[0].len() as int;
            &&& lines.len() == rows.len() + 4
            &&& s.len() == (rows.len() + 4) * (length + 1) - 1
            &&& s.subrange(k * (length + 1), k * (length + 1) + length) == lines[k]
            &&& k < rows.len() + 3 ==> s[k * (length + 1) + length] == '\n'
        }),
{
    reveal_strlit("\n");
    assert("\n"@ =~= seq!['\n']);
    let lines = table_lines(headers, rows);
    let length = lines[0].len() as int;
    assert forall|i: int| 0 <= i < lines.len() implies (#[trigger] lines[i]).len() == length by {
        law_table_lines_are_aligned(headers, rows, i);
    }
    lemma_lines_in_text(lines, length, k);
    lemma_line_start(k, length);
    lemma_line_start(lines.len() as int, length);
}

/// A table without columns has lines of nothing but two borders.
pub proof fn law_tables_without_columns(rows: Seq<Seq<Seq<char>>>, i: int)
    requires
        0 <= i < rows.len() + 4,
    ensures
        ({
            let s = table_lines(Seq::empty(), rows)[i];
            &&& i == 0 || i == 2 || i == rows.len() + 3 ==> s == seq!['+', '+']
            &&& !(i == 0 || i == 2 || i == rows.len() + 3) ==> s == seq!['|', '|']
        }),
{
    reveal_strlit("+");
    reveal_strlit("|");
    let none = Seq::<Seq<char>>::empty();
    let widths = column_widths(none, rows);
    assert(rule_parts(widths) =~= none);
    assert(rule(widths) =~= seq!['+', '+']);
    assert(line_parts(none, widths) =~= none);
    assert(line(none, widths) =~= seq!['|', '|']);
    if 3 <= i < rows.len() + 3 {
        assert(table_lines(none, rows)[i] == row_lines(rows, widths)[i - 3]);
        assert(line_parts(rows[i - 3], widths) =~= none);
        assert(line(rows[i - 3], widths) =~= seq!['|', '|']);
    }
}

} // verus!
