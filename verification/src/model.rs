//! The mathematical model of the extractor.
//!
//! Every spec function here is stated over `Seq<char>`, the view of the
//! input text. `extract_model` is the meaning of the whole pipeline: split
//! the buffer into statements at top-level semicolons, parse each INSERT
//! statement into a column list and value rows, and fold the results into
//! one table (the most recent column list wins, rows accumulate).

use vstd::prelude::*;

verus! {

/// The model of an extracted table: column names and rows of cell text.
pub struct TableModel {
    pub columns: Seq<Seq<char>>,
    pub rows: Seq<Seq<Seq<char>>>,
}

/// Whitespace as the extractor understands it.
pub open spec fn is_space(c: char) -> bool {
    c == ' ' || c == '\t' || c == '\r' || c == '\n'
}

/// Index of the first non-whitespace character at or after `i`
/// (`s.len()` when the rest of `s` is all whitespace).
pub open spec fn skip_ws(s: Seq<char>, i: int) -> int
    decreases s.len() - i when 0 <= i <= s.len()
{
    if i < s.len() && is_space(s[i]) {
        skip_ws(s, i + 1)
    } else {
        i
    }
}

pub proof fn lemma_skip_ws_bounds(s: Seq<char>, i: int)
    requires
        0 <= i <= s.len(),
    ensures
        i <= skip_ws(s, i) <= s.len(),
    decreases s.len() - i,
{
    if i < s.len() && is_space(s[i]) {
        lemma_skip_ws_bounds(s, i + 1);
    }
}

/// Index of the first occurrence of `c` at or after `i`, if any.
pub open spec fn find_char(s: Seq<char>, i: int, c: char) -> Option<int>
    decreases s.len() - i when 0 <= i <= s.len()
{
    if i >= s.len() {
        None
    } else if s[i] == c {
        Some(i)
    } else {
        find_char(s, i + 1, c)
    }
}

pub proof fn lemma_find_char_bounds(s: Seq<char>, i: int, c: char)
    requires
        0 <= i <= s.len(),
        find_char(s, i, c) is Some,
    ensures
        i <= find_char(s, i, c)->Some_0 < s.len(),
        s[find_char(s, i, c)->Some_0] == c,
    decreases s.len() - i,
{
    if i < s.len() && s[i] != c {
        lemma_find_char_bounds(s, i + 1, c);
    }
}

/// Case-insensitive match of an input character against an ASCII
/// upper-case keyword character.
pub open spec fn kw_char_eq(c: char, k: char) -> bool {
    c == k || c as u32 == k as u32 + 32
}

/// The keyword `kw` (given in upper case) occurs at position `i` of `s`,
/// compared case-insensitively.
pub open spec fn matches_kw_at(s: Seq<char>, i: int, kw: Seq<char>) -> bool {
    &&& 0 <= i
    &&& i + kw.len() <= s.len()
    &&& forall|j: int| 0 <= j < kw.len() ==> kw_char_eq(s[i + j], #[trigger] kw[j])
}

pub open spec fn kw_insert() -> Seq<char> {
    seq!['I', 'N', 'S', 'E', 'R', 'T']
}

pub open spec fn kw_into() -> Seq<char> {
    seq!['I', 'N', 'T', 'O']
}

pub open spec fn kw_values() -> Seq<char> {
    seq!['V', 'A', 'L', 'U', 'E', 'S']
}

/// The end of a value tuple: the first `)` at or after `i` that stands at
/// nesting depth zero and outside a quoted string. `depth` counts open
/// parentheses inside the tuple; `in_quote` says whether position `i` lies
/// inside a single-quoted string literal.
pub open spec fn find_tuple_end(s: Seq<char>, i: int, depth: int, in_quote: bool) -> Option<int>
    decreases s.len() - i when 0 <= i <= s.len()
{
    if i >= s.len() {
        None
    } else {
        let c = s[i];
        if in_quote {
            find_tuple_end(s, i + 1, depth, c != '\'')
        } else if c == '\'' {
            find_tuple_end(s, i + 1, depth, true)
        } else if c == '(' {
            find_tuple_end(s, i + 1, depth + 1, false)
        } else if c == ')' {
            if depth == 0 {
                Some(i)
            } else {
                find_tuple_end(s, i + 1, depth - 1, false)
            }
        } else {
            find_tuple_end(s, i + 1, depth, false)
        }
    }
}

pub proof fn lemma_find_tuple_end_bounds(s: Seq<char>, i: int, depth: int, in_quote: bool)
    requires
        0 <= i <= s.len(),
        find_tuple_end(s, i, depth, in_quote) is Some,
    ensures
        i <= find_tuple_end(s, i, depth, in_quote)->Some_0 < s.len(),
    decreases s.len() - i,
{
    if i < s.len() {
        let c = s[i];
        if !in_quote && c == ')' && depth == 0 {
        } else if in_quote {
            lemma_find_tuple_end_bounds(s, i + 1, depth, c != '\'');
        } else if c == '\'' {
            lemma_find_tuple_end_bounds(s, i + 1, depth, true);
        } else if c == '(' {
            lemma_find_tuple_end_bounds(s, i + 1, depth + 1, false);
        } else if c == ')' {
            lemma_find_tuple_end_bounds(s, i + 1, depth - 1, false);
        } else {
            lemma_find_tuple_end_bounds(s, i + 1, depth, false);
        }
    }
}

/// The pieces of `s[start..end]` split at the commas of `s[i..end]`
/// (the running piece began at `start`). A trailing or empty piece is kept:
/// splitting always yields one piece more than there are separating commas.
pub open spec fn split_commas_from(s: Seq<char>, start: int, i: int, end: int) -> Seq<Seq<char>>
    decreases end - i when 0 <= start <= i <= end <= s.len()
{
    if i >= end {
        seq![s.subrange(start, end)]
    } else if s[i] == ',' {
        seq![s.subrange(start, i)] + split_commas_from(s, i + 1, i + 1, end)
    } else {
        split_commas_from(s, start, i + 1, end)
    }
}

/// `s[start..end]` split at every comma.
pub open spec fn split_commas(s: Seq<char>, start: int, end: int) -> Seq<Seq<char>> {
    split_commas_from(s, start, start, end)
}

/// The pieces of `s[start..end]` split at top-level commas: commas inside a
/// single-quoted string or inside nested parentheses do not separate.
pub open spec fn split_cells_from(
    s: Seq<char>,
    start: int,
    i: int,
    end: int,
    depth: int,
    in_quote: bool,
) -> Seq<Seq<char>>
    decreases end - i when 0 <= start <= i <= end <= s.len()
{
    if i >= end {
        seq![s.subrange(start, end)]
    } else {
        let c = s[i];
        if in_quote {
            split_cells_from(s, start, i + 1, end, depth, c != '\'')
        } else if c == '\'' {
            split_cells_from(s, start, i + 1, end, depth, true)
        } else if c == '(' {
            split_cells_from(s, start, i + 1, end, depth + 1, false)
        } else if c == ')' {
            split_cells_from(s, start, i + 1, end, if depth > 0 { depth - 1 } else { 0 }, false)
        } else if c == ',' && depth == 0 {
            seq![s.subrange(start, i)] + split_cells_from(s, i + 1, i + 1, end, 0, false)
        } else {
            split_cells_from(s, start, i + 1, end, depth, false)
        }
    }
}

/// `s[start..end]` split at top-level commas.
pub open spec fn split_cells(s: Seq<char>, start: int, end: int) -> Seq<Seq<char>> {
    split_cells_from(s, start, start, end, 0, false)
}

/// One past the last non-whitespace character of `s[..i]`
/// (`0` when `s[..i]` is all whitespace).
pub open spec fn last_non_ws(s: Seq<char>, i: int) -> int
    decreases i when 0 <= i <= s.len()
{
    if i > 0 && is_space(s[i - 1]) {
        last_non_ws(s, i - 1)
    } else {
        i
    }
}

/// `s` with leading and trailing whitespace removed.
pub open spec fn trim(s: Seq<char>) -> Seq<char> {
    let a = skip_ws(s, 0);
    let b = last_non_ws(s, s.len() as int);
    if a <= b {
        s.subrange(a, b)
    } else {
        Seq::empty()
    }
}

/// A cell's display text: the trimmed cell with one matching pair of
/// enclosing single quotes stripped, if present; any other literal is kept
/// as its own text.
pub open spec fn normalize_cell(s: Seq<char>) -> Seq<char> {
    let t = trim(s);
    if t.len() >= 2 && t[0] == '\'' && t[t.len() - 1] == '\'' {
        t.subrange(1, t.len() - 1)
    } else {
        t
    }
}

/// The statements of the buffer: `s` split at every semicolon that stands
/// outside a single-quoted string.
pub open spec fn split_stmts_from(s: Seq<char>, start: int, i: int, in_quote: bool) -> Seq<
    Seq<char>,
>
    decreases s.len() - i when 0 <= start <= i <= s.len()
{
    if i >= s.len() {
        seq![s.subrange(start, i)]
    } else if in_quote {
        split_stmts_from(s, start, i + 1, !(s[i] == '\''))
    } else if s[i] == '\'' {
        split_stmts_from(s, start, i + 1, true)
    } else if s[i] == ';' {
        seq![s.subrange(start, i)] + split_stmts_from(s, i + 1, i + 1, false)
    } else {
        split_stmts_from(s, start, i + 1, false)
    }
}

/// The statements of the buffer.
pub open spec fn split_stmts(s: Seq<char>) -> Seq<Seq<char>> {
    split_stmts_from(s, 0, 0, false)
}

/// The position just after `INSERT INTO` and its following whitespace
/// (the start of the table name), when the statement opens with those two
/// keywords; `None` otherwise.
pub open spec fn after_insert_into(s: Seq<char>) -> Option<int> {
    let i0 = skip_ws(s, 0);
    if matches_kw_at(s, i0, kw_insert()) && i0 + 6 < s.len() && is_space(s[i0 + 6]) {
        let i1 = skip_ws(s, i0 + 6);
        if matches_kw_at(s, i1, kw_into()) && i1 + 4 < s.len() && is_space(s[i1 + 4]) {
            Some(skip_ws(s, i1 + 4))
        } else {
            None
        }
    } else {
        None
    }
}

pub proof fn lemma_after_insert_into_bounds(s: Seq<char>)
    requires
        after_insert_into(s) is Some,
    ensures
        0 <= after_insert_into(s)->Some_0 <= s.len(),
{
    lemma_skip_ws_bounds(s, 0);
    let i0 = skip_ws(s, 0);
    if matches_kw_at(s, i0, kw_insert()) && i0 + 6 < s.len() && is_space(s[i0 + 6]) {
        lemma_skip_ws_bounds(s, i0 + 6);
        let i1 = skip_ws(s, i0 + 6);
        if matches_kw_at(s, i1, kw_into()) && i1 + 4 < s.len() && is_space(s[i1 + 4]) {
            lemma_skip_ws_bounds(s, i1 + 4);
        }
    }
}

/// The value rows of an INSERT statement, parsed from position `i` on:
/// a whitespace-separated, comma-separated run of parenthesized tuples.
/// Each tuple is split at top-level commas and every cell normalized; a
/// tuple with only whitespace between its parentheses yields no row. A
/// tuple without a closing parenthesis is dropped, and parsing stops.
pub open spec fn parse_tuples(s: Seq<char>, i: int) -> Seq<Seq<Seq<char>>>
    decreases s.len() - i when 0 <= i <= s.len()
{
    let j = skip_ws(s, i);
    proof {
        lemma_skip_ws_bounds(s, i);
    }
    if j < s.len() && s[j] == '(' {
        match find_tuple_end(s, j + 1, 0, false) {
            None => Seq::empty(),
            Some(e) => {
                proof {
                    lemma_find_tuple_end_bounds(s, j + 1, 0, false);
                }
                let cells = split_cells(s, j + 1, e).map_values(|c: Seq<char>| normalize_cell(c));
                let here: Seq<Seq<Seq<char>>> = if trim(s.subrange(j + 1, e)).len() == 0 {
                    Seq::empty()
                } else {
                    seq![cells]
                };
                let k = skip_ws(s, e + 1);
                proof {
                    lemma_skip_ws_bounds(s, e + 1);
                }
                if k < s.len() && s[k] == ',' {
                    here + parse_tuples(s, k + 1)
                } else {
                    here
                }
            },
        }
    } else {
        Seq::empty()
    }
}

/// The parse of one statement: `Some` exactly when the statement opens with
/// `INSERT INTO` and carries a parenthesized column list. The columns are
/// the comma-separated, trimmed names of that list; the rows are the value
/// tuples following the `VALUES` keyword (none when the keyword is absent).
pub open spec fn parse_insert(stmt: Seq<char>) -> Option<TableModel> {
    match after_insert_into(stmt) {
        None => None,
        Some(t0) => match find_char(stmt, t0, '(') {
            None => None,
            Some(p) => match find_char(stmt, p + 1, ')') {
                None => None,
                Some(q) => {
                    let columns = split_commas(stmt, p + 1, q).map_values(|c: Seq<char>| trim(c));
                    let a = skip_ws(stmt, q + 1);
                    let rows = if matches_kw_at(stmt, a, kw_values()) {
                        parse_tuples(stmt, a + 6)
                    } else {
                        Seq::empty()
                    };
                    Some(TableModel { columns, rows })
                },
            },
        },
    }
}

/// The fold of the parses of all statements into one table: each parsed
/// INSERT replaces the columns, and its rows are appended.
pub open spec fn table_of_stmts(stmts: Seq<Seq<char>>) -> TableModel
    decreases stmts.len()
{
    if stmts.len() == 0 {
        TableModel { columns: Seq::empty(), rows: Seq::empty() }
    } else {
        let prev = table_of_stmts(stmts.drop_last());
        match parse_insert(stmts.last()) {
            Some(t) => TableModel { columns: t.columns, rows: prev.rows + t.rows },
            None => prev,
        }
    }
}

/// The meaning of extraction on a whole buffer.
pub open spec fn extract_model(s: Seq<char>) -> TableModel {
    table_of_stmts(split_stmts(s))
}

/// The number of occurrences of `c` in `s[i..end]`.
pub open spec fn count_char(s: Seq<char>, i: int, end: int, c: char) -> int
    decreases end - i when 0 <= i <= end <= s.len()
{
    if i >= end {
        0
    } else {
        (if s[i] == c { 1int } else { 0int }) + count_char(s, i + 1, end, c)
    }
}

proof fn lemma_split_commas_from_count(s: Seq<char>, start: int, i: int, end: int)
    requires
        0 <= start <= i <= end <= s.len(),
    ensures
        split_commas_from(s, start, i, end).len() == count_char(s, i, end, ',') + 1,
    decreases end - i,
{
    if i >= end {
    } else if s[i] == ',' {
        lemma_split_commas_from_count(s, i + 1, i + 1, end);
    } else {
        lemma_split_commas_from_count(s, start, i + 1, end);
    }
}

/// The span `(lo, hi)` of the column list of an INSERT statement: the text
/// between the first `(` after `INSERT INTO` and the next `)`.
pub open spec fn column_list_span(stmt: Seq<char>) -> Option<(int, int)> {
    match after_insert_into(stmt) {
        None => None,
        Some(t0) => match find_char(stmt, t0, '(') {
            None => None,
            Some(p) => match find_char(stmt, p + 1, ')') {
                None => None,
                Some(q) => Some((p + 1, q)),
            },
        },
    }
}

/// Law: a statement with a column list parses, and the number of extracted
/// column names equals the number of comma-separated names in that list —
/// one more than the number of commas between the parentheses.
pub proof fn lemma_column_count(stmt: Seq<char>)
    requires
        column_list_span(stmt) is Some,
    ensures
        parse_insert(stmt) is Some,
        parse_insert(stmt)->Some_0.columns.len() == count_char(
            stmt,
            column_list_span(stmt)->Some_0.0,
            column_list_span(stmt)->Some_0.1,
            ',',
        ) + 1,
{
    lemma_after_insert_into_bounds(stmt);
    let t0 = after_insert_into(stmt)->Some_0;
    lemma_find_char_bounds(stmt, t0, '(');
    let p = find_char(stmt, t0, '(')->Some_0;
    lemma_find_char_bounds(stmt, p + 1, ')');
    let q = find_char(stmt, p + 1, ')')->Some_0;
    lemma_split_commas_from_count(stmt, p + 1, p + 1, q);
}

/// The parse of the most recent statement that parses as an INSERT.
pub open spec fn last_insert(stmts: Seq<Seq<char>>) -> Option<TableModel>
    decreases stmts.len()
{
    if stmts.len() == 0 {
        None
    } else {
        match parse_insert(stmts.last()) {
            Some(t) => Some(t),
            None => last_insert(stmts.drop_last()),
        }
    }
}

/// Law: the columns of the extracted table are exactly the columns of the
/// most recently parsed INSERT statement, and empty when no statement
/// parses as an INSERT.
pub proof fn lemma_columns_most_recent(stmts: Seq<Seq<char>>)
    ensures
        table_of_stmts(stmts).columns == match last_insert(stmts) {
            Some(t) => t.columns,
            None => Seq::<Seq<char>>::empty(),
        },
    decreases stmts.len(),
{
    if stmts.len() > 0 {
        lemma_columns_most_recent(stmts.drop_last());
    }
}

/// Law: extraction is a pure function of the input text. Two extractions
/// of the same buffer yield the same table: nothing accumulates from one
/// call to the next.
pub proof fn lemma_extract_repeatable(s: Seq<char>, t1: TableModel, t2: TableModel)
    requires
        t1 == extract_model(s),
        t2 == extract_model(s),
    ensures
        t1 == t2,
{
}

/// The cells of one line joined with commas, with no quoting or escaping
/// of embedded commas.
pub open spec fn join_commas(cells: Seq<Seq<char>>) -> Seq<char>
    decreases cells.len()
{
    if cells.len() == 0 {
        Seq::empty()
    } else if cells.len() == 1 {
        cells[0]
    } else {
        join_commas(cells.drop_last()) + seq![','] + cells.last()
    }
}

/// The lines of a table's CSV rendering: the comma-joined column names,
/// then each row comma-joined, in order.
pub open spec fn csv_model(t: TableModel) -> Seq<Seq<char>> {
    seq![join_commas(t.columns)] + t.rows.map_values(|r: Seq<Seq<char>>| join_commas(r))
}

} // verus!
