use sql_extract::{csv_lines, extract};

fn s(x: &str) -> String {
    x.to_string()
}

#[test]
fn two_rows_two_columns() {
    let t = extract("INSERT INTO users (id, name) VALUES (1, 'Alice'), (2, 'Bob');");
    assert_eq!(t.columns, vec![s("id"), s("name")]);
    assert_eq!(t.rows, vec![vec![s("1"), s("Alice")], vec![s("2"), s("Bob")]]);
}

#[test]
fn comma_inside_quotes_is_not_a_separator() {
    let t = extract("INSERT INTO t (a) VALUES ('x,y');");
    assert_eq!(t.columns, vec![s("a")]);
    assert_eq!(t.rows, vec![vec![s("x,y")]]);
}

#[test]
fn empty_input_yields_empty_table() {
    let t = extract("");
    assert_eq!(t.columns, Vec::<String>::new());
    assert_eq!(t.rows, Vec::<Vec<String>>::new());
}

#[test]
fn non_insert_statement_yields_nothing() {
    let t = extract("SELECT * FROM t;");
    assert_eq!(t.columns, Vec::<String>::new());
    assert_eq!(t.rows, Vec::<Vec<String>>::new());
}

#[test]
fn null_literal_is_kept_as_text() {
    let t = extract("INSERT INTO t (a,b) VALUES (1, NULL);");
    assert_eq!(t.rows, vec![vec![s("1"), s("NULL")]]);
}

#[test]
fn repeated_extraction_yields_identical_output() {
    let sql = "INSERT INTO t (a,b) VALUES (1, 2), (3, 4);";
    let t1 = extract(sql);
    let t2 = extract(sql);
    assert_eq!(t1.columns, t2.columns);
    assert_eq!(t1.rows, t2.rows);
}

#[test]
fn later_insert_replaces_columns_and_rows_accumulate() {
    let t = extract("INSERT INTO a (x) VALUES (1); INSERT INTO b (y, z) VALUES (2, 3);");
    assert_eq!(t.columns, vec![s("y"), s("z")]);
    assert_eq!(t.rows, vec![vec![s("1")], vec![s("2"), s("3")]]);
}

#[test]
fn insert_without_values_sets_columns_only() {
    let t = extract("INSERT INTO t (a, b);");
    assert_eq!(t.columns, vec![s("a"), s("b")]);
    assert_eq!(t.rows, Vec::<Vec<String>>::new());
}

#[test]
fn ragged_row_is_appended_as_is() {
    let t = extract("INSERT INTO t (a, b) VALUES (1);");
    assert_eq!(t.columns, vec![s("a"), s("b")]);
    assert_eq!(t.rows, vec![vec![s("1")]]);
}

#[test]
fn nested_parentheses_stay_inside_one_cell() {
    let t = extract("INSERT INTO t (a, b) VALUES (f(1,2), 3);");
    assert_eq!(t.rows, vec![vec![s("f(1,2)"), s("3")]]);
}

#[test]
fn empty_tuple_yields_no_row() {
    let t = extract("INSERT INTO t (a) VALUES (), (1);");
    assert_eq!(t.columns, vec![s("a")]);
    assert_eq!(t.rows, vec![vec![s("1")]]);
}

#[test]
fn unbalanced_tuple_is_dropped() {
    let t = extract("INSERT INTO t (a) VALUES (1), (2");
    assert_eq!(t.columns, vec![s("a")]);
    assert_eq!(t.rows, vec![vec![s("1")]]);
}

#[test]
fn keywords_match_case_insensitively() {
    let t = extract("insert into t (a) values (1);");
    assert_eq!(t.columns, vec![s("a")]);
    assert_eq!(t.rows, vec![vec![s("1")]]);
}

#[test]
fn semicolon_inside_quotes_does_not_split() {
    let t = extract("INSERT INTO t (a) VALUES ('x;y');");
    assert_eq!(t.rows, vec![vec![s("x;y")]]);
}

#[test]
fn boolean_and_numeric_literals_keep_their_text() {
    let t = extract("INSERT INTO t (a, b) VALUES (TRUE, 3.5);");
    assert_eq!(t.rows, vec![vec![s("TRUE"), s("3.5")]]);
}

#[test]
fn column_names_are_trimmed() {
    let t = extract("INSERT INTO t (  a ,\tb );");
    assert_eq!(t.columns, vec![s("a"), s("b")]);
}

#[test]
fn column_count_is_commas_plus_one() {
    let t = extract("INSERT INTO t (a, b, c);");
    assert_eq!(t.columns.len(), 3);
    let t2 = extract("INSERT INTO t (a);");
    assert_eq!(t2.columns.len(), 1);
}

#[test]
fn csv_joins_header_and_rows_with_commas() {
    let t = extract("INSERT INTO users (id, name) VALUES (1, 'Alice'), (2, 'Bob');");
    let lines = csv_lines(&t);
    assert_eq!(lines, vec![s("id,name"), s("1,Alice"), s("2,Bob")]);
}

#[test]
fn csv_does_not_escape_embedded_commas() {
    let t = extract("INSERT INTO t (a) VALUES ('x,y');");
    let lines = csv_lines(&t);
    assert_eq!(lines, vec![s("a"), s("x,y")]);
}

#[test]
fn quotes_are_stripped_without_unescaping() {
    let t = extract("INSERT INTO t (a) VALUES ('  padded  ');");
    assert_eq!(t.rows, vec![vec![s("  padded  ")]]);
}

#[test]
fn unquoted_cell_is_trimmed() {
    let t = extract("INSERT INTO t (a, b) VALUES (  7 ,  NULL  );");
    assert_eq!(t.rows, vec![vec![s("7"), s("NULL")]]);
}

#[test]
fn padding_fills_a_ragged_row_with_blanks() {
    let t = extract("INSERT INTO t (a, b, c) VALUES (1, 2);");
    let padded = sql_extract::pad_row(&t.rows[0], t.columns.len());
    assert_eq!(padded, vec![s("1"), s("2"), s("")]);
}

#[test]
fn padding_keeps_a_long_row_whole() {
    let row = vec![s("1"), s("2"), s("3")];
    let padded = sql_extract::pad_row(&row, 2);
    assert_eq!(padded, row);
}
