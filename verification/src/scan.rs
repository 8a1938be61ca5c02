//! Verified scanning primitives over `Vec<char>`, each proved equal to its
//! spec-function counterpart in [`crate::model`].

use vstd::prelude::*;
use crate::model::{is_space, skip_ws, find_char, matches_kw_at, kw_char_eq, find_tuple_end,
    split_commas, split_commas_from, split_cells, split_cells_from, split_stmts, split_stmts_from,
    last_non_ws, trim, normalize_cell};

verus! {

/// Whether `c` is whitespace.
pub fn space(c: char) -> (b: bool)
    ensures
        b == is_space(c),
{
    c == ' ' || c == '\t' || c == '\r' || c == '\n'
}

/// First index at or after `start` whose character is not whitespace.
pub fn skip_spaces(v: &Vec<char>, start: usize) -> (r: usize)
    requires
        start <= v@.len(),
    ensures
        r as int == skip_ws(v@, start as int),
        start <= r <= v@.len(),
{
    let mut i = start;
    while i < v.len() && space(v[i])
        invariant
            start <= i <= v@.len(),
            skip_ws(v@, start as int) == skip_ws(v@, i as int),
        decreases v@.len() - i,
    {
        i += 1;
    }
    i
}

/// First occurrence of `c` at or after `start`.
pub fn find_char_from(v: &Vec<char>, start: usize, c: char) -> (r: Option<usize>)
    requires
        start <= v@.len(),
    ensures
        match r {
            Some(j) => find_char(v@, start as int, c) == Some(j as int) && start <= j < v@.len()
                && v@[j as int] == c,
            None => find_char(v@, start as int, c) is None,
        },
{
    let mut i = start;
    while i < v.len() && v[i] != c
        invariant
            start <= i <= v@.len(),
            find_char(v@, start as int, c) == find_char(v@, i as int, c),
        decreases v@.len() - i,
    {
        i += 1;
    }
    if i < v.len() {
        Some(i)
    } else {
        None
    }
}

/// Whether the upper-case keyword `kw` occurs at position `start` of `v`,
/// compared case-insensitively.
pub fn keyword_at(v: &Vec<char>, start: usize, kw: &Vec<char>) -> (b: bool)
    requires
        start <= v@.len(),
    ensures
        b == matches_kw_at(v@, start as int, kw@),
{
    let n = v.len();
    if n - start < kw.len() {
        return false;
    }
    let mut j: usize = 0;
    while j < kw.len()
        invariant
            j <= kw@.len(),
            n == v@.len(),
            start + kw@.len() <= n,
            forall|t: int| 0 <= t < j ==> kw_char_eq(v@[start + t], #[trigger] kw@[t]),
        decreases kw@.len() - j,
    {
        let c = v[start + j];
        let k = kw[j];
        proof {
            vstd::utf8::char_is_scalar(c);
            vstd::utf8::char_is_scalar(k);
        }
        if !(c == k || c as u32 == k as u32 + 32) {
            return false;
        }
        j += 1;
    }
    true
}

/// The character sequences of a sequence of character vectors.
pub open spec fn pieces_model(s: Seq<Vec<char>>) -> Seq<Seq<char>> {
    s.map_values(|x: Vec<char>| x@)
}

/// The end of the value tuple that opens just before `start`: the first `)`
/// at depth zero outside quotes.
pub fn tuple_end(v: &Vec<char>, start: usize) -> (r: Option<usize>)
    requires
        start <= v@.len(),
    ensures
        match r {
            Some(e) => find_tuple_end(v@, start as int, 0, false) == Some(e as int) && start <= e
                < v@.len(),
            None => find_tuple_end(v@, start as int, 0, false) is None,
        },
{
    let mut i = start;
    let mut depth: usize = 0;
    let mut in_quote = false;
    while i < v.len()
        invariant
            start <= i <= v@.len(),
            depth <= i - start,
            find_tuple_end(v@, start as int, 0, false) == find_tuple_end(
                v@,
                i as int,
                depth as int,
                in_quote,
            ),
        decreases v@.len() - i,
    {
        let c = v[i];
        if in_quote {
            in_quote = c != '\'';
        } else if c == '\'' {
            in_quote = true;
        } else if c == '(' {
            depth += 1;
        } else if c == ')' {
            if depth == 0 {
                return Some(i);
            }
            depth -= 1;
        }
        i += 1;
    }
    None
}

/// `v[lo..hi]` split at every comma, each piece a fresh vector.
pub fn split_fields(v: &Vec<char>, lo: usize, hi: usize) -> (r: Vec<Vec<char>>)
    requires
        lo <= hi <= v@.len(),
    ensures
        pieces_model(r@) == split_commas(v@, lo as int, hi as int),
{
    let ghost target = split_commas(v@, lo as int, hi as int);
    let mut r: Vec<Vec<char>> = Vec::new();
    let mut cur = lo;
    let mut i = lo;
    proof {
        assert(pieces_model(r@) + split_commas_from(v@, lo as int, lo as int, hi as int) =~= target);
    }
    while i < hi
        invariant
            lo <= cur <= i <= hi <= v@.len(),
            pieces_model(r@) + split_commas_from(v@, cur as int, i as int, hi as int) == target,
        decreases hi - i,
    {
        if v[i] == ',' {
            let piece = crate::text::copy_range(v, cur, i);
            let ghost p0 = pieces_model(r@);
            let ghost rest = split_commas_from(v@, i as int + 1, i as int + 1, hi as int);
            proof {
                assert(split_commas_from(v@, cur as int, i as int, hi as int) == seq![
                    v@.subrange(cur as int, i as int),
                ] + rest);
            }
            r.push(piece);
            proof {
                assert(pieces_model(r@) =~= p0.push(piece@));
                assert(pieces_model(r@) + rest =~= target);
            }
            cur = i + 1;
        }
        i += 1;
    }
    let piece = crate::text::copy_range(v, cur, hi);
    let ghost p0 = pieces_model(r@);
    proof {
        assert(split_commas_from(v@, cur as int, hi as int, hi as int) == seq![
            v@.subrange(cur as int, hi as int),
        ]);
    }
    r.push(piece);
    proof {
        assert(pieces_model(r@) =~= p0.push(piece@));
        assert(pieces_model(r@) =~= target);
    }
    r
}

/// `v[lo..hi]` split at top-level commas: commas inside quotes or nested
/// parentheses do not separate.
pub fn split_cell_pieces(v: &Vec<char>, lo: usize, hi: usize) -> (r: Vec<Vec<char>>)
    requires
        lo <= hi <= v@.len(),
    ensures
        pieces_model(r@) == split_cells(v@, lo as int, hi as int),
{
    let ghost target = split_cells(v@, lo as int, hi as int);
    let mut r: Vec<Vec<char>> = Vec::new();
    let mut cur = lo;
    let mut i = lo;
    let mut depth: usize = 0;
    let mut in_quote = false;
    proof {
        assert(pieces_model(r@) + split_cells_from(v@, lo as int, lo as int, hi as int, 0, false)
            =~= target);
    }
    while i < hi
        invariant
            lo <= cur <= i <= hi <= v@.len(),
            depth <= i,
            pieces_model(r@) + split_cells_from(
                v@,
                cur as int,
                i as int,
                hi as int,
                depth as int,
                in_quote,
            ) == target,
        decreases hi - i,
    {
        let c = v[i];
        if in_quote {
            in_quote = c != '\'';
        } else if c == '\'' {
            in_quote = true;
        } else if c == '(' {
            depth += 1;
        } else if c == ')' {
            if depth > 0 {
                depth -= 1;
            }
        } else if c == ',' && depth == 0 {
            let piece = crate::text::copy_range(v, cur, i);
            let ghost p0 = pieces_model(r@);
            let ghost rest = split_cells_from(v@, i as int + 1, i as int + 1, hi as int, 0, false);
            proof {
                assert(split_cells_from(v@, cur as int, i as int, hi as int, 0, false) == seq![
                    v@.subrange(cur as int, i as int),
                ] + rest);
            }
            r.push(piece);
            proof {
                assert(pieces_model(r@) =~= p0.push(piece@));
                assert(pieces_model(r@) + rest =~= target);
            }
            cur = i + 1;
        }
        i += 1;
    }
    let piece = crate::text::copy_range(v, cur, hi);
    let ghost p0 = pieces_model(r@);
    proof {
        assert(split_cells_from(
            v@,
            cur as int,
            hi as int,
            hi as int,
            depth as int,
            in_quote,
        ) == seq![v@.subrange(cur as int, hi as int)]);
    }
    r.push(piece);
    proof {
        assert(pieces_model(r@) =~= p0.push(piece@));
        assert(pieces_model(r@) =~= target);
    }
    r
}

/// The statements of the buffer: `v` split at every semicolon outside a
/// quoted string.
pub fn split_statements(v: &Vec<char>) -> (r: Vec<Vec<char>>)
    ensures
        pieces_model(r@) == split_stmts(v@),
{
    let ghost target = split_stmts(v@);
    let mut r: Vec<Vec<char>> = Vec::new();
    let mut cur: usize = 0;
    let mut i: usize = 0;
    let mut in_quote = false;
    proof {
        assert(pieces_model(r@) + split_stmts_from(v@, 0, 0, false) =~= target);
    }
    while i < v.len()
        invariant
            cur <= i <= v@.len(),
            pieces_model(r@) + split_stmts_from(v@, cur as int, i as int, in_quote) == target,
        decreases v@.len() - i,
    {
        let c = v[i];
        if in_quote {
            in_quote = c != '\'';
        } else if c == '\'' {
            in_quote = true;
        } else if c == ';' {
            let piece = crate::text::copy_range(v, cur, i);
            let ghost p0 = pieces_model(r@);
            let ghost rest = split_stmts_from(v@, i as int + 1, i as int + 1, false);
            proof {
                assert(split_stmts_from(v@, cur as int, i as int, false) == seq![
                    v@.subrange(cur as int, i as int),
                ] + rest);
            }
            r.push(piece);
            proof {
                assert(pieces_model(r@) =~= p0.push(piece@));
                assert(pieces_model(r@) + rest =~= target);
            }
            cur = i + 1;
        }
        i += 1;
    }
    let piece = crate::text::copy_range(v, cur, v.len());
    let ghost p0 = pieces_model(r@);
    proof {
        assert(split_stmts_from(v@, cur as int, v@.len() as int, in_quote) == seq![
            v@.subrange(cur as int, v@.len() as int),
        ]);
    }
    r.push(piece);
    proof {
        assert(pieces_model(r@) =~= p0.push(piece@));
        assert(pieces_model(r@) =~= target);
    }
    r
}

/// `v` with leading and trailing whitespace removed.
pub fn trim_chars(v: &Vec<char>) -> (r: Vec<char>)
    ensures
        r@ == trim(v@),
{
    let a = skip_spaces(v, 0);
    let mut b = v.len();
    while b > 0 && space(v[b - 1])
        invariant
            b <= v@.len(),
            last_non_ws(v@, v@.len() as int) == last_non_ws(v@, b as int),
        decreases b,
    {
        b -= 1;
    }
    if a <= b {
        crate::text::copy_range(v, a, b)
    } else {
        let r: Vec<char> = Vec::new();
        proof {
            assert(r@ =~= trim(v@));
        }
        r
    }
}

/// The display text of one cell: trimmed, with one matching pair of
/// enclosing single quotes stripped.
pub fn normalize_chars(v: &Vec<char>) -> (r: Vec<char>)
    ensures
        r@ == normalize_cell(v@),
{
    let t = trim_chars(v);
    if t.len() >= 2 && t[0] == '\'' && t[t.len() - 1] == '\'' {
        crate::text::copy_range(&t, 1, t.len() - 1)
    } else {
        t
    }
}

} // verus!
