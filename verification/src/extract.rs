//! The extractor: the public [`Table`] type and the verified parsing
//! pipeline.

use vstd::prelude::*;
use crate::model::{TableModel, after_insert_into, csv_model, extract_model, join_commas,
    kw_insert, kw_into, kw_values, normalize_cell, parse_insert, parse_tuples, split_cells,
    split_commas, table_of_stmts, trim};
use crate::scan::{keyword_at, pieces_model, skip_spaces, space, split_cell_pieces, split_fields,
    split_statements, trim_chars, normalize_chars, tuple_end, find_char_from};
use crate::text::{chars_to_string, copy_range, str_to_chars};

verus! {

/// An extracted table: the column names of the most recently parsed INSERT
/// statement and the rows accumulated from every INSERT in the input.
pub struct Table {
    pub columns: Vec<String>,
    pub rows: Vec<Vec<String>>,
}

/// The character sequences of a sequence of strings.
pub open spec fn strings_model(s: Seq<String>) -> Seq<Seq<char>> {
    s.map_values(|x: String| x@)
}

/// The character sequences of a sequence of rows of strings.
pub open spec fn rows_model(s: Seq<Vec<String>>) -> Seq<Seq<Seq<char>>> {
    s.map_values(|r: Vec<String>| strings_model(r@))
}

impl View for Table {
    type V = TableModel;

    open spec fn view(&self) -> TableModel {
        TableModel { columns: strings_model(self.columns@), rows: rows_model(self.rows@) }
    }
}

fn kw_insert_vec() -> (v: Vec<char>)
    ensures
        v@ == kw_insert(),
{
    let mut v: Vec<char> = Vec::new();
    v.push('I');
    v.push('N');
    v.push('S');
    v.push('E');
    v.push('R');
    v.push('T');
    proof {
        assert(v@ =~= kw_insert());
    }
    v
}

fn kw_into_vec() -> (v: Vec<char>)
    ensures
        v@ == kw_into(),
{
    let mut v: Vec<char> = Vec::new();
    v.push('I');
    v.push('N');
    v.push('T');
    v.push('O');
    proof {
        assert(v@ =~= kw_into());
    }
    v
}

fn kw_values_vec() -> (v: Vec<char>)
    ensures
        v@ == kw_values(),
{
    let mut v: Vec<char> = Vec::new();
    v.push('V');
    v.push('A');
    v.push('L');
    v.push('U');
    v.push('E');
    v.push('S');
    proof {
        assert(v@ =~= kw_values());
    }
    v
}

/// The value rows that follow the `VALUES` keyword, parsed from `start` on.
fn parse_value_tuples(v: &Vec<char>, start: usize) -> (rows: Vec<Vec<String>>)
    requires
        start <= v@.len(),
    ensures
        rows_model(rows@) == parse_tuples(v@, start as int),
    decreases v@.len() - start,
{
    let ghost target = parse_tuples(v@, start as int);
    let j = skip_spaces(v, start);
    if j < v.len() && v[j] == '(' {
        match tuple_end(v, j + 1) {
            None => {
                let rows: Vec<Vec<String>> = Vec::new();
                proof {
                    assert(rows_model(rows@) =~= target);
                }
                rows
            },
            Some(e) => {
                let pieces = split_cell_pieces(v, j + 1, e);
                let ghost cells = split_cells(v@, j as int + 1, e as int)
                    .map_values(|c: Seq<char>| normalize_cell(c));
                let mut row: Vec<String> = Vec::new();
                let mut k: usize = 0;
                while k < pieces.len()
                    invariant
                        k <= pieces@.len(),
                        pieces_model(pieces@) == split_cells(
                            v@,
                            j as int + 1,
                            e as int,
                        ),
                        row@.len() == k,
                        forall|t: int|
                            0 <= t < k ==> row@[t]@ == normalize_cell(
                                #[trigger] pieces_model(pieces@)[t],
                            ),
                    decreases pieces@.len() - k,
                {
                    let cell_chars = normalize_chars(&pieces[k]);
                    let cell = chars_to_string(&cell_chars);
                    row.push(cell);
                    k += 1;
                }
                proof {
                    assert(strings_model(row@) =~= cells);
                }
                let content = copy_range(v, j + 1, e);
                let trimmed = trim_chars(&content);
                let mut out: Vec<Vec<String>> = Vec::new();
                if trimmed.len() > 0 {
                    let ghost o0 = rows_model(out@);
                    out.push(row);
                    proof {
                        assert(rows_model(out@) =~= o0.push(cells));
                    }
                }
                let k2 = skip_spaces(v, e + 1);
                if k2 < v.len() && v[k2] == ',' {
                    let ghost o1 = rows_model(out@);
                    let mut rest = parse_value_tuples(v, k2 + 1);
                    let ghost r1 = rows_model(rest@);
                    out.append(&mut rest);
                    proof {
                        assert(rows_model(out@) =~= o1 + r1);
                        assert(rows_model(out@) =~= target);
                    }
                } else {
                    proof {
                        assert(rows_model(out@) =~= target);
                    }
                }
                out
            },
        }
    } else {
        let rows: Vec<Vec<String>> = Vec::new();
        proof {
            assert(rows_model(rows@) =~= target);
        }
        rows
    }
}

/// The parse of one statement: `Some` exactly when it opens with
/// `INSERT INTO` and carries a parenthesized column list.
pub fn parse_insert_stmt(stmt: &Vec<char>) -> (r: Option<Table>)
    ensures
        match r {
            Some(t) => parse_insert(stmt@) == Some(t@),
            None => parse_insert(stmt@) is None,
        },
{
    let n = stmt.len();
    let i0 = skip_spaces(stmt, 0);
    let kwi = kw_insert_vec();
    if !keyword_at(stmt, i0, &kwi) {
        return None;
    }
    if n - i0 <= 6 {
        return None;
    }
    if !space(stmt[i0 + 6]) {
        return None;
    }
    let i1 = skip_spaces(stmt, i0 + 6);
    let kwn = kw_into_vec();
    if !keyword_at(stmt, i1, &kwn) {
        return None;
    }
    if n - i1 <= 4 {
        return None;
    }
    if !space(stmt[i1 + 4]) {
        return None;
    }
    let t0 = skip_spaces(stmt, i1 + 4);
    proof {
        assert(after_insert_into(stmt@) == Some(t0 as int));
    }
    let p = match find_char_from(stmt, t0, '(') {
        None => {
            return None;
        },
        Some(p) => p,
    };
    let q = match find_char_from(stmt, p + 1, ')') {
        None => {
            return None;
        },
        Some(q) => q,
    };
    let pieces = split_fields(stmt, p + 1, q);
    let ghost cols = split_commas(stmt@, p as int + 1, q as int).map_values(
        |c: Seq<char>| trim(c),
    );
    let mut columns: Vec<String> = Vec::new();
    let mut k: usize = 0;
    while k < pieces.len()
        invariant
            k <= pieces@.len(),
            pieces_model(pieces@) == split_commas(
                stmt@,
                p as int + 1,
                q as int,
            ),
            columns@.len() == k,
            forall|t: int|
                0 <= t < k ==> columns@[t]@ == trim(
                    #[trigger] pieces_model(pieces@)[t],
                ),
        decreases pieces@.len() - k,
    {
        let name_chars = trim_chars(&pieces[k]);
        let name = chars_to_string(&name_chars);
        columns.push(name);
        k += 1;
    }
    proof {
        assert(strings_model(columns@) =~= cols);
    }
    let a = skip_spaces(stmt, q + 1);
    let kwv = kw_values_vec();
    let rows: Vec<Vec<String>> = if keyword_at(stmt, a, &kwv) {
        proof {
            assert(kw_values().len() == 6);
        }
        parse_value_tuples(stmt, a + 6)
    } else {
        let rows: Vec<Vec<String>> = Vec::new();
        proof {
            assert(rows_model(rows@) =~= Seq::<Seq<Seq<char>>>::empty());
        }
        rows
    };
    let t = Table { columns, rows };
    proof {
        assert(parse_insert(stmt@) == Some(t@));
    }
    Some(t)
}

/// Extract the table of every `INSERT INTO ... VALUES ...;` statement in
/// `sql`. The columns are those of the most recent INSERT statement; the
/// rows accumulate over all of them. Malformed or non-INSERT statements
/// contribute nothing: the call never fails.
pub fn extract(sql: &str) -> (t: Table)
    ensures
        t@ == extract_model(sql@),
{
    let v = str_to_chars(sql);
    let stmts = split_statements(&v);
    let ghost sm = pieces_model(stmts@);
    let mut columns: Vec<String> = Vec::new();
    let mut rows: Vec<Vec<String>> = Vec::new();
    proof {
        assert(sm.subrange(0, 0) =~= Seq::<Seq<char>>::empty());
        assert(strings_model(columns@) =~= table_of_stmts(
            sm.subrange(0, 0),
        ).columns);
        assert(rows_model(rows@) =~= table_of_stmts(sm.subrange(0, 0)).rows);
    }
    let mut k: usize = 0;
    while k < stmts.len()
        invariant
            k <= stmts@.len(),
            sm == pieces_model(stmts@),
            strings_model(columns@) == table_of_stmts(sm.subrange(0, k as int)).columns,
            rows_model(rows@) == table_of_stmts(sm.subrange(0, k as int)).rows,
        decreases stmts@.len() - k,
    {
        proof {
            assert(sm.subrange(0, k as int + 1).drop_last() =~= sm.subrange(0, k as int));
            assert(sm.subrange(0, k as int + 1).last() == sm[k as int]);
        }
        match parse_insert_stmt(&stmts[k]) {
            Some(t) => {
                columns = t.columns;
                let mut fresh = t.rows;
                let ghost r0 = rows_model(rows@);
                let ghost r1 = rows_model(fresh@);
                rows.append(&mut fresh);
                proof {
                    assert(rows_model(rows@) =~= r0 + r1);
                }
            },
            None => {},
        }
        k += 1;
    }
    proof {
        assert(sm.subrange(0, stmts@.len() as int) =~= sm);
    }
    Table { columns, rows }
}

/// One CSV line: the cells of `row` joined with commas.
pub fn csv_line(row: &Vec<String>) -> (s: String)
    ensures
        s@ == join_commas(strings_model(row@)),
{
    let ghost cells = strings_model(row@);
    let mut s = String::new();
    let mut j: usize = 0;
    proof {
        assert(cells.subrange(0, 0) =~= Seq::<Seq<char>>::empty());
    }
    while j < row.len()
        invariant
            j <= row@.len(),
            cells == strings_model(row@),
            s@ == join_commas(cells.subrange(0, j as int)),
        decreases row@.len() - j,
    {
        proof {
            assert(cells.subrange(0, j as int + 1).drop_last() =~= cells.subrange(0, j as int));
            assert(cells.subrange(0, j as int + 1).last() == cells[j as int]);
        }
        if j > 0 {
            s.push(',');
        }
        s.append(row[j].as_str());
        proof {
            assert(s@ =~= join_commas(cells.subrange(0, j as int + 1)));
        }
        j += 1;
    }
    proof {
        assert(cells.subrange(0, row@.len() as int) =~= cells);
    }
    s
}

/// The CSV rendering of a table, one line per sequence entry: first the
/// column names, then every row, each comma-joined with no quoting of
/// embedded commas.
pub fn csv_lines(t: &Table) -> (out: Vec<String>)
    ensures
        strings_model(out@) == csv_model(t@),
{
    let ghost target = csv_model(t@);
    let mut out: Vec<String> = Vec::new();
    let header = csv_line(&t.columns);
    out.push(header);
    let mut i: usize = 0;
    while i < t.rows.len()
        invariant
            i <= t.rows@.len(),
            out@.len() == i + 1,
            out@[0]@ == join_commas(strings_model(t.columns@)),
            forall|k: int|
                0 <= k < i ==> out@[k + 1]@ == join_commas(
                    #[trigger] rows_model(t.rows@)[k],
                ),
        decreases t.rows@.len() - i,
    {
        let line = csv_line(&t.rows[i]);
        out.push(line);
        i += 1;
    }
    proof {
        assert(strings_model(out@) =~= target);
    }
    out
}

/// One body row made fit for a grid of `width` columns: the row's own cells
/// in order, then blank cells up to `width`. A row longer than `width` is
/// kept whole.
pub fn pad_row(row: &Vec<String>, width: usize) -> (r: Vec<String>)
    ensures
        r@.len() == if row@.len() >= width { row@.len() } else { width as nat },
        forall|i: int| 0 <= i < row@.len() ==> r@[i] == row@[i],
        forall|i: int| row@.len() <= i < r@.len() ==> r@[i]@ == Seq::<char>::empty(),
{
    let mut r: Vec<String> = Vec::new();
    let mut i: usize = 0;
    while i < row.len()
        invariant
            i <= row@.len(),
            r@.len() == i,
            forall|t: int| 0 <= t < i ==> r@[t] == row@[t],
        decreases row@.len() - i,
    {
        r.push(row[i].clone());
        i += 1;
    }
    while r.len() < width
        invariant
            r@.len() >= row@.len(),
            row@.len() >= width ==> r@.len() == row@.len(),
            row@.len() >= width || r@.len() <= width,
            forall|t: int| 0 <= t < row@.len() ==> r@[t] == row@[t],
            forall|t: int| row@.len() <= t < r@.len() ==> r@[t]@ == Seq::<char>::empty(),
        decreases width - r@.len(),
    {
        r.push(String::new());
    }
    r
}

} // verus!
