use rxl::cell::{Cell, CellKind};
use rxl::decimal::Decimal;
use rxl::error::{TableError, TableResult};
use rxl::grid::Grid;
use rxl::table::{apply_binary, Table};
use rxl::tokenizer::Token;

fn build(rows: &[&[&str]]) -> Table {
    let rows: Vec<Vec<String>> = rows.iter().map(|r| r.iter().map(|c| c.to_string()).collect()).collect();
    Table::from_rows(&rows).unwrap()
}

fn text(r: &TableResult<Decimal>) -> String {
    match r {
        Ok(d) => d.to_text(),
        Err(e) => e.message(),
    }
}

fn memo(table: &Table, col: usize, row: usize) -> Option<TableResult<Decimal>> {
    match table.get(col, row) {
        Ok(Cell { kind: CellKind::Expr { result, .. }, .. }) => result.clone(),
        _ => None,
    }
}

#[test]
fn end_to_end_grid() {
    let mut table = build(&[&["1", "2"], &["=a1+a2", "=b1+3"]]);
    table.run();
    assert_eq!(table.render(), "1|2|\nRecursive Cell at: (0, 1)|5|\n");
    assert_eq!(text(&memo(&table, 1, 1).unwrap()), "5");
}

#[test]
fn references_read_column_letter_then_row() {
    let mut table = build(&[&["1", "2"], &["=a1+b1", "=a2*b1"]]);
    assert_eq!(text(&table.evaluate_cell(0, 1, Vec::new())), "3");
    assert_eq!(text(&table.evaluate_cell(1, 1, Vec::new())), "6");
}

#[test]
fn empty_cell_error_propagates() {
    let mut table = build(&[&["", "=a1*2"]]);
    let r = table.evaluate_cell(1, 0, Vec::new());
    assert!(matches!(r, Err(TableError::EmptyCellEvaluation)));
}

#[test]
fn mutual_references_are_a_cycle() {
    let mut table = build(&[&["=b1", "=a1"]]);
    assert!(matches!(table.evaluate_cell(0, 0, Vec::new()), Err(TableError::RecursiveCellExpr(0, 0))));
    assert!(matches!(table.evaluate_cell(1, 0, Vec::new()), Err(TableError::RecursiveCellExpr(0, 0))));
    let mut table = build(&[&["=b1", "=a1"]]);
    assert!(matches!(table.evaluate_cell(1, 0, Vec::new()), Err(TableError::RecursiveCellExpr(1, 0))));
}

#[test]
fn self_reference_is_a_cycle() {
    let mut table = build(&[&["=a1+1"]]);
    assert!(matches!(table.evaluate_cell(0, 0, Vec::new()), Err(TableError::RecursiveCellExpr(0, 0))));
}

#[test]
fn diamond_is_not_a_cycle() {
    let mut table = build(&[&["=b1+c1", "=d1", "=d1*2", "5"]]);
    assert_eq!(text(&table.evaluate_cell(0, 0, Vec::new())), "15");
}

#[test]
fn memoized_result_is_returned_again() {
    let mut table = build(&[&["=b1+1", "4"]]);
    assert!(memo(&table, 0, 0).is_none());
    let first = table.evaluate_cell(0, 0, Vec::new());
    assert_eq!(text(&first), "5");
    assert_eq!(text(&memo(&table, 0, 0).unwrap()), "5");
    let rendered = table.render();
    let second = table.evaluate_cell(0, 0, Vec::new());
    assert_eq!(text(&second), "5");
    assert_eq!(table.render(), rendered);
}

#[test]
fn memoized_error_is_returned_again() {
    let mut table = build(&[&["=1/0"]]);
    let first = table.evaluate_cell(0, 0, Vec::new());
    assert_eq!(text(&first), "Runtime Error: Division by zero");
    assert_eq!(text(&table.evaluate_cell(0, 0, Vec::new())), "Runtime Error: Division by zero");
}

fn range_rows(hole: Option<(usize, usize)>) -> Vec<Vec<String>> {
    let mut rows = Vec::new();
    for r in 0..22 {
        let mut row = Vec::new();
        for c in 0..2 {
            if hole == Some((c, r)) {
                row.push(String::new());
            } else {
                row.push(format!("{}", c * 22 + r + 1));
            }
        }
        row.push(if r == 0 { "=sum(a1:b22)".to_string() } else { String::new() });
        rows.push(row);
    }
    rows
}

#[test]
fn sum_over_a_range_visits_every_cell() {
    let mut table = Table::from_rows(&range_rows(None)).unwrap();
    assert_eq!(text(&table.evaluate_cell(2, 0, Vec::new())), "990");
}

#[test]
fn sum_over_a_range_fails_on_an_empty_cell() {
    let mut table = Table::from_rows(&range_rows(Some((1, 21)))).unwrap();
    assert_eq!(text(&table.evaluate_cell(2, 0, Vec::new())), "Runtime Error: Error performing summation");
}

#[test]
fn nested_sums_flatten() {
    let mut table = build(&[&["1", "2", "3", "=sum(a1, sum(b1:c1), 4)"]]);
    assert_eq!(text(&table.evaluate_cell(3, 0, Vec::new())), "10");
}

#[test]
fn arithmetic_is_exact() {
    let mut table = build(&[&["=1.5+2.25", "=7-10", "=1.5*4", "=1/4", "=-3", "=0.1+0.2"]]);
    assert_eq!(text(&table.evaluate_cell(0, 0, Vec::new())), "3.75");
    assert_eq!(text(&table.evaluate_cell(1, 0, Vec::new())), "-3");
    assert_eq!(text(&table.evaluate_cell(2, 0, Vec::new())), "6.0");
    assert_eq!(text(&table.evaluate_cell(3, 0, Vec::new())), "0.25");
    assert_eq!(text(&table.evaluate_cell(4, 0, Vec::new())), "-3");
    assert_eq!(text(&table.evaluate_cell(5, 0, Vec::new())), "0.3");
}

#[test]
fn operators_on_references_and_literals() {
    let mut table = build(&[&["6", "=a1+2", "=a1-2", "=a1*2", "=a1/2", "=12/a1*3"]]);
    assert_eq!(text(&table.evaluate_cell(1, 0, Vec::new())), "8");
    assert_eq!(text(&table.evaluate_cell(2, 0, Vec::new())), "4");
    assert_eq!(text(&table.evaluate_cell(3, 0, Vec::new())), "12");
    assert_eq!(text(&table.evaluate_cell(4, 0, Vec::new())), "3");
    assert_eq!(text(&table.evaluate_cell(5, 0, Vec::new())), "6");
}

#[test]
fn range_where_one_value_is_needed() {
    let mut table = build(&[&["1", "2", "=a1:b1", "=a1:b1+1", "=-a1:b1"]]);
    assert!(matches!(table.evaluate_cell(2, 0, Vec::new()), Err(TableError::MultipleCellReturn)));
    assert_eq!(text(&table.evaluate_cell(3, 0, Vec::new())), "Runtime Error: Cannot add cell ranges together");
    assert_eq!(
        text(&table.evaluate_cell(4, 0, Vec::new())),
        "Runtime Error: Error in unary expression - expected single cell value"
    );
}

#[test]
fn invalid_callees_fail_at_evaluation() {
    let mut table = build(&[&["=5(1)", "=(sum)(1)", "=sum"]]);
    assert_eq!(
        text(&table.evaluate_cell(0, 0, Vec::new())),
        "Runtime Error: Invalid token encountered type for calle"
    );
    assert_eq!(text(&table.evaluate_cell(1, 0, Vec::new())), "Runtime Error: Invalid expr type for calle");
    assert_eq!(text(&table.evaluate_cell(2, 0, Vec::new())), "Runtime Error: Invalid token literal");
}

#[test]
fn reference_outside_the_table() {
    let mut table = build(&[&["=c9"]]);
    assert_eq!(text(&table.evaluate_cell(0, 0, Vec::new())), "Runtime Error: Cell reference outside the table");
}

#[test]
fn unreadable_cells_keep_their_error() {
    let mut table = build(&[&["abc", "12x", "=(1", "=a1"]]);
    assert!(matches!(table.get(0, 0), Err(TableError::InvalidCell(m)) if m == "Unimplemented cell kind"));
    assert!(matches!(table.get(1, 0), Err(TableError::InvalidCell(m)) if m == "Could not format 12x as a valid number"));
    assert!(matches!(table.get(2, 0), Err(TableError::ErrorConstructingAst(_))));
    assert!(matches!(table.evaluate_cell(3, 0, Vec::new()), Err(TableError::InvalidCell(_))));
}

#[test]
fn number_cells_accept_exponents() {
    let mut table = build(&[&["1e3", "=a1+1"]]);
    assert_eq!(text(&table.evaluate_cell(1, 0, Vec::new())), "1001");
}

#[test]
fn empty_and_ragged_inputs_build_no_table() {
    assert!(matches!(Table::from_rows(&Vec::new()), Err(TableError::EmptyTable)));
    let rows = vec![vec!["1".to_string(), "2".to_string()], vec!["3".to_string()]];
    assert!(matches!(Table::from_rows(&rows), Err(TableError::MismatchedColumns)));
}

#[test]
fn render_before_and_after_run() {
    let mut table = build(&[&["1", "=a1+1"], &["", "=b1*b1"]]);
    assert_eq!(table.render(), "1|=a1+1|\n |=b1*b1|\n");
    table.run();
    assert_eq!(table.render(), "1|2|\n |4|\n");
    table.run();
    assert_eq!(table.render(), "1|2|\n |4|\n");
}

#[test]
fn cell_reads_its_text() {
    assert!(matches!(Cell::new_expr("").unwrap().kind, CellKind::Empty));
    assert!(matches!(Cell::new_expr("42").unwrap().kind, CellKind::Number(_)));
    let c = Cell::new_expr("=1+1").unwrap();
    assert_eq!(c.source, "=1+1");
    assert!(matches!(c.kind, CellKind::Expr { result: None, .. }));
    assert_eq!(c.render(), "=1+1");
}

#[test]
fn grid_keeps_its_shape() {
    let g = Grid::new(2, 3, vec![1, 2, 3, 4, 5, 6]);
    assert_eq!(g.rows, 2);
    assert_eq!(g.cols, 3);
    assert_eq!(*g.get(1, 0), 3);
    assert_eq!(*g.get(2, 1), 6);
}

#[test]
fn runtime_error_keeps_its_message() {
    let e = TableError::runtime_error("boom");
    assert!(matches!(&e, TableError::RuntimeError(m) if m == "boom"));
    assert_eq!(e.message(), "Runtime Error: boom");
}

#[test]
fn sheet_text_is_split_into_rows_and_cells() {
    let mut table = Table::new_interpet("1|2\r\n=a1+b1|=a2*2\n").unwrap();
    assert_eq!(table.rows(), 2);
    assert_eq!(table.cols(), 2);
    table.run();
    assert_eq!(table.render(), "1|2|\n3|6|\n");
    assert!(matches!(Table::new_interpet(""), Err(TableError::EmptyTable)));
    assert!(matches!(Table::new_interpet("1|2\n3"), Err(TableError::MismatchedColumns)));
}

#[test]
fn rows_split_keeps_empty_cells() {
    let rows = rxl::rows::split_rows("|a\n\nb|");
    assert_eq!(rows, vec![vec!["".to_string(), "a".to_string()], vec!["".to_string()], vec!["b".to_string(), "".to_string()]]);
}

#[test]
fn binary_operators_on_decimals() {
    let a = Decimal::parse("1.25").unwrap();
    let b = Decimal::parse("0.5").unwrap();
    assert_eq!(text(&apply_binary(&Token::Plus, &a, &b)), "1.75");
    assert_eq!(text(&apply_binary(&Token::Minus, &a, &b)), "0.75");
    assert_eq!(text(&apply_binary(&Token::Star, &a, &b)), "0.625");
    assert_eq!(text(&apply_binary(&Token::Slash, &a, &b)), "2.5");
    let zero = Decimal::parse("0.00").unwrap();
    assert_eq!(text(&apply_binary(&Token::Slash, &a, &zero)), "Runtime Error: Division by zero");
    assert_eq!(text(&apply_binary(&Token::Comma, &a, &b)), "Runtime Error: Invalid token in binary expression");
    let huge = Decimal::parse("1e-2000000").unwrap();
    assert_eq!(text(&apply_binary(&Token::Plus, &a, &huge)), "Runtime Error: Decimal scale out of range");
}

#[test]
fn products_need_no_aligned_scales() {
    let a = Decimal::parse("1e-2000000").unwrap();
    let b = Decimal::parse("2").unwrap();
    let p = apply_binary(&Token::Star, &a, &b).unwrap();
    assert_eq!(p, Decimal::parse("2e-2000000").unwrap());
    let equal_scales = apply_binary(&Token::Plus, &a, &a).unwrap();
    assert_eq!(equal_scales, Decimal::parse("2e-2000000").unwrap());
}

#[test]
fn sources_survive_evaluation() {
    let mut table = Table::new_interpet("=(1|2|=b1*3").unwrap();
    assert!(matches!(table.get(0, 0), Err(TableError::ErrorConstructingAst(_))));
    assert!(matches!(table.get(1, 0), Ok(Cell { source, kind: CellKind::Number(_) }) if source == "2"));
    table.run();
    assert!(matches!(table.get(2, 0), Ok(Cell { source, kind: CellKind::Expr { result: Some(Ok(_)), .. } }) if source == "=b1*3"));
    assert!(matches!(table.get(1, 0), Ok(Cell { source, .. }) if source == "2"));
}

#[test]
fn long_chain_without_the_cell_is_no_cycle() {
    let mut table = build(&[&["=1+1", "=a1*3"]]);
    let chain = vec![(5, 5), (6, 6), (7, 7), (1, 0)];
    assert_eq!(text(&table.evaluate_cell(0, 0, chain)), "2");
    assert_eq!(text(&memo(&table, 0, 0).unwrap()), "2");
    let chain = vec![(9, 9), (9, 9), (9, 9)];
    assert_eq!(text(&table.evaluate_cell(1, 0, chain)), "6");
}

#[test]
fn divisible_quotients_are_exact() {
    let mut table = build(&[&["=1.2/0.4", "=-6/3", "=0/7"]]);
    assert_eq!(table.evaluate_cell(0, 0, Vec::new()).unwrap(), Decimal::new(false, vec![3], 0).unwrap());
    assert_eq!(table.evaluate_cell(1, 0, Vec::new()).unwrap(), Decimal::new(true, vec![2], 0).unwrap());
    assert_eq!(table.evaluate_cell(2, 0, Vec::new()).unwrap(), Decimal::zero());
}
