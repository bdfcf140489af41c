//! The table and its evaluation driver: memoized, cycle-checked resolution
//! of formula cells.
use crate::ast::{args_size, args_wf, expr_model, expr_size, expr_wf, lemma_args_wf, Expr, ExprModel};
use crate::cell::{
    copy_result, fresh_kind, kind_model, outcome, outcome_wf, outcomes, read_cell, slot_memo,
    slot_model, slot_text, slot_wf, Cell, CellKind,
};
use crate::decimal::{
    add_decimals, div_decimals, max_int, mul_decimals, neg_decimal, pow10, sub_decimals, zero_model,
    Decimal,
};
use crate::error::{ErrorModel, TableError, TableResult};
use crate::eval::SlotModel;
use crate::eval::{
    apply_operator, binary_outcome, chain_room, eval_cell, eval_columns, eval_expr, eval_rows,
    eval_sum, fold_values, pending, run_columns, run_rows, single, unary_outcome, Chain, Memo,
    TableModel,
};
use crate::grid::{flat_index, lemma_flat_index_bound, Grid};
use crate::laws::{law_run_settles, settled_from};
use crate::rows::{sheet_rows, split_rows};
use crate::tokenizer::Token;
use vstd::prelude::*;
use vstd::string::*;

verus! {

/// The cells of a sheet, `cols` by `rows`, each one read from its text or
/// holding the error that reading it gave.
pub struct Table {
    grid: Grid<TableResult<Cell>>,
}

pub open spec fn chain_model(c: Seq<(usize, usize)>) -> Chain {
    Seq::new(c.len(), |i: int| (c[i].0 as nat, c[i].1 as nat))
}

/// Every success in the sequence holds a well-formed decimal.
pub open spec fn all_wf(rs: Seq<TableResult<Decimal>>) -> bool {
    forall|i: int| 0 <= i < rs.len() ==> outcome_wf(#[trigger] rs[i])
}

fn chain_contains(chain: &Vec<(usize, usize)>, col: usize, row: usize) -> (r: bool)
    ensures
        r == chain_model(chain@).contains((col as nat, row as nat)),
{
    let mut i: usize = 0;
    while i < chain.len()
        invariant
            i <= chain.len(),
            forall|j: int| 0 <= j < i ==> chain_model(chain@)[j] != (col as nat, row as nat),
        decreases chain.len() - i,
    {
        if chain[i].0 == col && chain[i].1 == row {
            assert(chain_model(chain@)[i as int] == (col as nat, row as nat));
            return true;
        }
        i += 1;
    }
    false
}

fn copy_chain(chain: &Vec<(usize, usize)>) -> (r: Vec<(usize, usize)>)
    ensures
        chain_model(r@) == chain_model(chain@),
        r@.len() == chain@.len(),
{
    let mut r: Vec<(usize, usize)> = Vec::new();
    let mut i: usize = 0;
    while i < chain.len()
        invariant
            i <= chain.len(),
            r@.len() == i,
            forall|j: int| 0 <= j < i ==> #[trigger] r@[j] == chain@[j],
        decreases chain.len() - i,
    {
        r.push(chain[i]);
        i += 1;
    }
    assert(chain_model(r@) =~= chain_model(chain@));
    r
}

/// Applies a binary operator to two decimals. Sums, differences and
/// products are exact, and so is a quotient whose divisor's digits divide
/// the dividend's. A zero divisor, a token that is no operator, scales
/// further apart than `SCALE_LIMIT` for a sum, difference or quotient, or a
/// product whose scale does not fit, is a runtime error.
pub fn apply_binary(op: &Token, a: &Decimal, b: &Decimal) -> (r: TableResult<Decimal>)
    requires
        a@.wf(),
        b@.wf(),
    ensures
        outcome(r) == apply_operator(op@, a@, b@),
        outcome_wf(r),
        r matches Ok(d) ==> ({
            let k = max_int(max_int(a@.scale, b@.scale), d@.scale);
            let j = max_int(a@.scale + b@.scale, d@.scale);
            let q = max_int(a@.scale - b@.scale, d@.scale);
            &&& op@ is Plus ==> d@.scaled(k) == a@.scaled(k) + b@.scaled(k)
            &&& op@ is Minus ==> d@.scaled(k) == a@.scaled(k) - b@.scaled(k)
            &&& op@ is Star ==> d@.scaled(j) == a@.mantissa() * b@.mantissa() * pow10((j - a@.scale - b@.scale) as nat)
            &&& op@ is Slash && b@.mantissa() != 0 && a@.mantissa() % b@.mantissa() == 0 ==> d@.scaled(q)
                == (a@.mantissa() / b@.mantissa()) * pow10((q - (a@.scale - b@.scale)) as nat)
        }),
{
    match op {
        Token::Plus | Token::Minus | Token::Star | Token::Slash => {},
        _ => {
            return Err(TableError::runtime_error("Invalid token in binary expression"));
        },
    }
    let fits = match op {
        Token::Star => a.product_fits(b),
        _ => a.aligned(b),
    };
    if !fits {
        return Err(TableError::runtime_error("Decimal scale out of range"));
    }
    match op {
        Token::Plus => Ok(add_decimals(a, b)),
        Token::Minus => Ok(sub_decimals(a, b)),
        Token::Star => Ok(mul_decimals(a, b)),
        _ => {
            if b.is_zero() {
                Err(TableError::runtime_error("Division by zero"))
            } else {
                Ok(div_decimals(a, b))
            }
        },
    }
}

fn binary_result(ls: &Vec<TableResult<Decimal>>, op: &Token, rs: &Vec<TableResult<Decimal>>) -> (r: TableResult<Decimal>)
    requires
        all_wf(ls@),
        all_wf(rs@),
    ensures
        outcome(r) == binary_outcome(outcomes(ls@), op@, outcomes(rs@)),
        outcome_wf(r),
{
    if ls.len() != 1 || rs.len() != 1 {
        return Err(TableError::runtime_error("Cannot add cell ranges together"));
    }
    assert(outcomes(ls@)[0] == outcome(ls@[0]));
    assert(outcomes(rs@)[0] == outcome(rs@[0]));
    assert(outcome_wf(ls@[0]) && outcome_wf(rs@[0]));
    match (&ls[0], &rs[0]) {
        (Ok(a), Ok(b)) => apply_binary(op, a, b),
        (Err(e), _) => Err(e.duplicate()),
        (Ok(_), Err(e)) => Err(e.duplicate()),
    }
}

fn unary_result(op: &Token, rs: &Vec<TableResult<Decimal>>) -> (r: TableResult<Decimal>)
    requires
        all_wf(rs@),
    ensures
        outcome(r) == unary_outcome(op@, outcomes(rs@)),
        outcome_wf(r),
{
    if rs.len() != 1 {
        return Err(TableError::runtime_error("Error in unary expression - expected single cell value"));
    }
    assert(outcomes(rs@)[0] == outcome(rs@[0]));
    assert(outcome_wf(rs@[0]));
    match &rs[0] {
        Ok(v) => {
            if op.is_minus() {
                Ok(neg_decimal(v))
            } else {
                Err(TableError::runtime_error("Invalid token for unary expression"))
            }
        },
        Err(e) => Err(e.duplicate()),
    }
}

/// The slot read from a cell's text: what it holds, or the error.
pub open spec fn slot_of(r: Result<SlotModel, ErrorModel>) -> SlotModel {
    match r {
        Ok(m) => m,
        Err(e) => SlotModel::Broken(e),
    }
}

/// The source text of a readable slot.
pub open spec fn slot_source(s: TableResult<Cell>) -> Option<Seq<char>> {
    match s {
        Ok(c) => Some(c.source@),
        Err(_) => None,
    }
}

/// The source a slot built from `text` keeps: the text itself when it reads
/// as a cell, none when reading it failed.
pub open spec fn source_of(text: Seq<char>) -> Option<Seq<char>> {
    if read_cell(text) is Ok {
        Some(text)
    } else {
        None
    }
}

/// Every row has as many cells as the first.
pub open spec fn rows_even(rows: Seq<Seq<Seq<char>>>) -> bool {
    forall|i: int| 0 <= i < rows.len() ==> (#[trigger] rows[i]).len() == rows[0].len()
}

/// The texts of rows of cells.
pub open spec fn texts(rows: Seq<Vec<String>>) -> Seq<Seq<Seq<char>>> {
    Seq::new(rows.len(), |i: int| Seq::new(rows[i]@.len(), |j: int| rows[i]@[j]@))
}

/// `r` is what building a table from rows of cell texts gives: cell
/// `(col, row)` is read from `rows[row][col]`, and one that cannot be read
/// keeps its error in its slot; no rows at all, or rows of different
/// lengths, build no table.
pub open spec fn built_from(r: TableResult<Table>, rows: Seq<Seq<Seq<char>>>) -> bool {
    match r {
        Err(e) => if rows.len() == 0 {
            e@ == ErrorModel::EmptyTable
        } else {
            e@ == ErrorModel::MismatchedColumns && !rows_even(rows)
        },
        Ok(t) => {
            &&& rows.len() > 0
            &&& rows_even(rows)
            &&& t.wf()
            &&& t.model().rows == rows.len()
            &&& t.model().cols == rows[0].len()
            &&& t.model().slots.len() == t.model().size()
            &&& forall|c: nat, w: nat|
                c < t.model().cols && w < t.model().rows ==> t.model().slots[#[trigger] t.model().index(c, w)]
                    == slot_of(read_cell(rows[w as int][c as int]))
            &&& t.sources().len() == t.model().size()
            &&& forall|c: nat, w: nat|
                c < t.model().cols && w < t.model().rows ==> t.sources()[#[trigger] t.model().index(c, w)]
                    == source_of(rows[w as int][c as int])
            &&& t.memo() == Map::<int, crate::eval::Outcome>::empty()
        },
    }
}

proof fn lemma_earlier_slot(rows: nat, c: nat, r: nat, c2: nat, r2: nat)
    requires
        r < rows,
        r2 < rows,
        c < c2 || (c == c2 && r < r2),
    ensures
        flat_index(rows, c, r) < flat_index(rows, c2, r2),
{
    if c < c2 {
        assert(c * rows + r < c2 * rows + r2) by (nonlinear_arith)
            requires
                c < c2,
                r < rows,
        ;
    }
}

/// Row `r` from column `c` on: each slot followed by `|`, then a line break.
pub open spec fn row_text(g: Seq<TableResult<Cell>>, rows: nat, r: nat, c: nat, cols: nat) -> Seq<char>
    decreases cols - c,
{
    if c >= cols {
        "\n"@
    } else {
        slot_text(g[flat_index(rows, c, r)]) + "|"@ + row_text(g, rows, r, c + 1, cols)
    }
}

/// Rows `r..` of the grid, top to bottom.
pub open spec fn rows_text(g: Seq<TableResult<Cell>>, rows: nat, cols: nat, r: nat) -> Seq<char>
    decreases rows - r,
{
    if r >= rows {
        Seq::empty()
    } else {
        row_text(g, rows, r, 0, cols) + rows_text(g, rows, cols, r + 1)
    }
}

fn one(x: TableResult<Decimal>) -> (r: Vec<TableResult<Decimal>>)
    ensures
        outcomes(r@) == seq![outcome(x)],
        outcome_wf(x) ==> all_wf(r@),
{
    let mut r: Vec<TableResult<Decimal>> = Vec::new();
    r.push(x);
    assert(outcomes(r@) =~= seq![outcome(x)]);
    r
}

proof fn lemma_outcomes_push(rs: Seq<TableResult<Decimal>>, x: TableResult<Decimal>)
    ensures
        outcomes(rs.push(x)) == outcomes(rs).push(outcome(x)),
{
    assert(outcomes(rs.push(x)) =~= outcomes(rs).push(outcome(x)));
}

proof fn lemma_arg_smaller(args: Seq<ExprModel>, i: int)
    requires
        0 <= i < args.len(),
    ensures
        expr_size(args[i]) <= args_size(args),
        args_size(args) == expr_size(args[0]) + args_size(args.subrange(1, args.len() as int)),
    decreases args.len(),
{
    if i > 0 {
        let rest = args.subrange(1, args.len() as int);
        lemma_arg_smaller(rest, i - 1);
        assert(rest[i - 1] == args[i]);
    }
}

impl Table {
    /// The table's cells, memo aside.
    pub closed spec fn model(&self) -> TableModel {
        TableModel {
            cols: self.grid.cols as nat,
            rows: self.grid.rows as nat,
            slots: Seq::new(self.grid@.len(), |i: int| slot_model(self.grid@[i])),
        }
    }

    /// The memoized outcome of every slot.
    pub closed spec fn memo(&self) -> Memo {
        Map::new(
            |i: int| 0 <= i < self.grid@.len() && slot_memo(self.grid@[i]) is Some,
            |i: int| slot_memo(self.grid@[i])->Some_0,
        )
    }

    /// The source text of every slot, `None` for one that could not be read.
    pub closed spec fn sources(&self) -> Seq<Option<Seq<char>>> {
        Seq::new(self.grid@.len(), |i: int| slot_source(self.grid@[i]))
    }

    pub closed spec fn wf(&self) -> bool {
        &&& self.grid.wf()
        &&& forall|i: int| 0 <= i < self.grid@.len() ==> slot_wf(#[trigger] self.grid@[i])
    }

    /// Resolves cell `(col, row)` while the cells of `call_chain` are being
    /// resolved. A cell already in the chain closes a cycle. A formula cell is
    /// evaluated once, with itself added to a copy of the chain, and its
    /// outcome is memoized.
    pub fn evaluate_cell(&mut self, col: usize, row: usize, call_chain: Vec<(usize, usize)>) -> (r: TableResult<Decimal>)
        requires
            old(self).wf(),
        ensures
            final(self).wf(),
            final(self).model() == old(self).model(),
            final(self).sources() == old(self).sources(),
            (outcome(r), final(self).memo()) == eval_cell(
                old(self).model(),
                old(self).memo(),
                col as nat,
                row as nat,
                chain_model(call_chain@),
            ),
            outcome_wf(r),
        decreases chain_room(old(self).model(), chain_model(call_chain@)), 0int, 0int, 0int, 0int,
    {
        let ghost t = self.model();
        let ghost memo = self.memo();
        let ghost ch = chain_model(call_chain@);
        if chain_contains(&call_chain, col, row) {
            return Err(TableError::RecursiveCellExpr(col, row));
        }
        if !(col < self.grid.cols && row < self.grid.rows) {
            return Err(TableError::runtime_error("Cell reference outside the table"));
        }
        let ghost i = flat_index(self.grid.rows as nat, col as nat, row as nat);
        proof {
            lemma_flat_index_bound(self.grid.rows as nat, self.grid.cols as nat, col as nat, row as nat);
            assert(t.slots[i] == slot_model(self.grid@[i]));
            assert(memo.contains_key(i) == (slot_memo(self.grid@[i]) is Some));
            assert(slot_wf(self.grid@[i]));
        }
        let expr = match self.grid.get(col, row) {
            Err(e) => {
                return Err(e.duplicate());
            },
            Ok(cell) => match &cell.kind {
                CellKind::Empty => {
                    return Err(TableError::EmptyCellEvaluation);
                },
                CellKind::Number(d) => {
                    return Ok(d.duplicate());
                },
                CellKind::Expr { expr, result } => match result {
                    Some(r) => {
                        return copy_result(r);
                    },
                    None => expr.duplicate(),
                },
            },
        };
        let mut chain = copy_chain(&call_chain);
        chain.push((col, row));
        proof {
            assert(chain_model(chain@) =~= ch.push((col as nat, row as nat)));
            crate::eval::lemma_room_shrinks(t, ch, col as nat, row as nat);
        }
        let rs = expr.evaluate(self, &chain);
        let res = if rs.len() == 1 {
            copy_result(&rs[0])
        } else {
            Err(TableError::MultipleCellReturn)
        };
        proof {
            if rs.len() == 1 {
                assert(outcomes(rs@)[0] == outcome(rs@[0]));
            }
            assert(outcome(res) == single(outcomes(rs@)));
        }
        let ghost mid = self.grid@;
        let ghost m = self.memo();
        let memo_value = copy_result(&res);
        let previous = self.grid.replace(col, row, Err(TableError::EmptyTable));
        match previous {
            Ok(Cell { source, kind: CellKind::Expr { expr, result: _ } }) => {
                let _ = self.grid.replace(
                    col,
                    row,
                    Ok(Cell { source, kind: CellKind::Expr { expr, result: Some(memo_value) } }),
                );
            },
            other => {
                proof {
                    assert(slot_model(mid[i]) == t.slots[i]);
                    assert(false);
                }
                let _ = self.grid.replace(col, row, other);
            },
        }
        proof {
            assert(self.grid@ == mid.update(i, self.grid@[i]));
            assert(self.model().slots =~= t.slots);
            assert(self.sources() =~= old(self).sources());
            assert(self.memo() =~= m.insert(i, outcome(res)));
        }
        res
    }
}

impl Table {
    /// How the table reads, one line per row.
    pub closed spec fn text(&self) -> Seq<char> {
        rows_text(self.grid@, self.grid.rows as nat, self.grid.cols as nat, 0)
    }

    pub fn cols(&self) -> (r: usize)
        ensures
            r == self.model().cols,
    {
        self.grid.cols
    }

    pub fn rows(&self) -> (r: usize)
        ensures
            r == self.model().rows,
    {
        self.grid.rows
    }

    /// The slot of cell `(col, row)`.
    pub fn get(&self, col: usize, row: usize) -> (r: &TableResult<Cell>)
        requires
            self.wf(),
            col < self.model().cols,
            row < self.model().rows,
        ensures
            slot_model(*r) == self.model().slots[self.model().index(col as nat, row as nat)],
            slot_memo(*r) is Some <==> self.memo().contains_key(self.model().index(col as nat, row as nat)),
            slot_memo(*r) is Some ==> slot_memo(*r)->Some_0 == self.memo()[self.model().index(col as nat, row as nat)],
    {
        proof {
            lemma_flat_index_bound(self.grid.rows as nat, self.grid.cols as nat, col as nat, row as nat);
        }
        self.grid.get(col, row)
    }

    /// Every cell, row by row: its value, its error, or its source while not
    /// evaluated, each followed by `|`, and a line break after each row.
    pub fn render(&self) -> (r: String)
        requires
            self.wf(),
        ensures
            r@ == self.text(),
    {
        let ghost g = self.grid@;
        let rows = self.grid.rows;
        let cols = self.grid.cols;
        let mut out = String::new();
        let mut r: usize = 0;
        proof {
            assert(out@ + rows_text(g, rows as nat, cols as nat, 0) =~= rows_text(g, rows as nat, cols as nat, 0));
        }
        while r < rows
            invariant
                r <= rows,
                rows == self.grid.rows,
                cols == self.grid.cols,
                g == self.grid@,
                self.wf(),
                rows_text(g, rows as nat, cols as nat, 0) == out@ + rows_text(g, rows as nat, cols as nat, r as nat),
            decreases rows - r,
        {
            let mut line = String::new();
            let mut c: usize = 0;
            proof {
                assert(line@ + row_text(g, rows as nat, r as nat, 0, cols as nat) =~= row_text(g, rows as nat, r as nat, 0, cols as nat));
            }
            while c < cols
                invariant
                    c <= cols,
                    r < rows,
                    rows == self.grid.rows,
                    cols == self.grid.cols,
                    g == self.grid@,
                    self.wf(),
                    row_text(g, rows as nat, r as nat, 0, cols as nat) == line@ + row_text(g, rows as nat, r as nat, c as nat, cols as nat),
                decreases cols - c,
            {
                proof {
                    lemma_flat_index_bound(rows as nat, cols as nat, c as nat, r as nat);
                    assert(slot_wf(g[flat_index(rows as nat, c as nat, r as nat)]));
                }
                let piece = match self.grid.get(c, r) {
                    Ok(cell) => cell.render(),
                    Err(e) => e.message(),
                };
                let ghost before = line@;
                line.append(piece.as_str());
                line.append("|");
                proof {
                    assert(before + row_text(g, rows as nat, r as nat, c as nat, cols as nat) =~= line@ + row_text(g, rows as nat, r as nat, (c + 1) as nat, cols as nat));
                }
                c += 1;
            }
            let ghost before = out@;
            out.append(line.as_str());
            out.append("\n");
            proof {
                assert(before + rows_text(g, rows as nat, cols as nat, r as nat) =~= out@ + rows_text(g, rows as nat, cols as nat, (r + 1) as nat));
            }
            r += 1;
        }
        proof {
            assert(out@ + rows_text(g, rows as nat, cols as nat, r as nat) =~= out@);
        }
        out
    }

    /// Builds a table from a sheet's text: one row per line, cells separated
    /// by `|`.
    pub fn new_interpet(source: &str) -> (r: TableResult<Table>)
        ensures
            built_from(r, sheet_rows(source@)),
    {
        let rows = split_rows(source);
        Table::from_rows(&rows)
    }

    /// Builds a table from rows of cell texts: cell `(col, row)` is read from
    /// `rows[row][col]`, and one that cannot be read keeps its error in its
    /// slot. No rows at all, or rows of different lengths, build no table.
    pub fn from_rows(rows: &Vec<Vec<String>>) -> (r: TableResult<Table>)
        ensures
            built_from(r, texts(rows@)),
    {
        if rows.len() == 0 {
            return Err(TableError::EmptyTable);
        }
        let cols = rows[0].len();
        let n_rows = rows.len();
        let mut k: usize = 0;
        while k < n_rows
            invariant
                k <= n_rows,
                n_rows == rows@.len(),
                cols == rows@[0]@.len(),
                forall|i: int| 0 <= i < k ==> (#[trigger] rows@[i])@.len() == cols,
            decreases n_rows - k,
        {
            if rows[k].len() != cols {
                proof {
                    assert(texts(rows@)[k as int].len() != texts(rows@)[0].len());
                }
                return Err(TableError::MismatchedColumns);
            }
            k += 1;
        }
        proof {
            assert forall|i: int| 0 <= i < texts(rows@).len() implies (#[trigger] texts(rows@)[i]).len() == texts(rows@)[0].len() by {
                assert(rows@[i]@.len() == cols);
            }
        }
        let mut cells: Vec<TableResult<Cell>> = Vec::new();
        let mut c: usize = 0;
        while c < cols
            invariant
                c <= cols,
                n_rows == rows@.len(),
                n_rows > 0,
                rows_even(texts(rows@)),
                cols == rows@[0]@.len(),
                cells@.len() == c * n_rows,
                forall|i: int| 0 <= i < cells@.len() ==> slot_wf(#[trigger] cells@[i]) && slot_memo(cells@[i]) is None,
                forall|c2: nat, w: nat|
                    c2 < c && w < n_rows ==> slot_model(#[trigger] cells@[flat_index(n_rows as nat, c2, w)])
                        == slot_of(read_cell(texts(rows@)[w as int][c2 as int]))
                        && slot_source(cells@[flat_index(n_rows as nat, c2, w)])
                        == source_of(texts(rows@)[w as int][c2 as int]),
            decreases cols - c,
        {
            let mut w: usize = 0;
            while w < n_rows
                invariant
                    c < cols,
                    w <= n_rows,
                    n_rows == rows@.len(),
                    rows_even(texts(rows@)),
                    cols == rows@[0]@.len(),
                    cells@.len() == c * n_rows + w,
                    forall|i: int| 0 <= i < cells@.len() ==> slot_wf(#[trigger] cells@[i]) && slot_memo(cells@[i]) is None,
                    forall|c2: nat, w2: nat|
                        (c2 < c && w2 < n_rows) || (c2 == c && w2 < w) ==> slot_model(
                            #[trigger] cells@[flat_index(n_rows as nat, c2, w2)],
                        ) == slot_of(read_cell(texts(rows@)[w2 as int][c2 as int]))
                        && slot_source(cells@[flat_index(n_rows as nat, c2, w2)])
                        == source_of(texts(rows@)[w2 as int][c2 as int]),
                decreases n_rows - w,
            {
                proof {
                    assert(texts(rows@)[w as int].len() == cols);
                    assert(rows@[w as int]@.len() == cols);
                    assert(texts(rows@)[w as int][c as int] == rows@[w as int]@[c as int]@);
                }
                let cell = Cell::new_expr(rows[w][c].as_str());
                let ghost before = cells@;
                cells.push(cell);
                proof {
                    assert forall|c2: nat, w2: nat|
                        (c2 < c && w2 < n_rows) || (c2 == c && w2 < w + 1) implies slot_model(
                            #[trigger] cells@[flat_index(n_rows as nat, c2, w2)],
                        ) == slot_of(read_cell(texts(rows@)[w2 as int][c2 as int]))
                        && slot_source(cells@[flat_index(n_rows as nat, c2, w2)])
                        == source_of(texts(rows@)[w2 as int][c2 as int]) by {
                        if c2 == c && w2 == w {
                            assert(flat_index(n_rows as nat, c2, w2) == before.len());
                        } else {
                            lemma_earlier_slot(n_rows as nat, c2, w2, c as nat, w as nat);
                            assert(flat_index(n_rows as nat, c as nat, w as nat) == before.len());
                            lemma_flat_index_bound(n_rows as nat, cols as nat, c2, w2);
                        }
                    }
                }
                w += 1;
            }
            proof {
                assert((c + 1) * n_rows == c * n_rows + n_rows) by (nonlinear_arith);
            }
            c += 1;
        }
        let grid = Grid::new(n_rows, cols, cells);
        let t = Table { grid };
        proof {
            assert(t.grid.wf()) by {
                assert(cols * n_rows == n_rows * cols) by (nonlinear_arith);
            }
            assert(t.memo() =~= Map::<int, crate::eval::Outcome>::empty());
            assert forall|c2: nat, w: nat|
                c2 < t.model().cols && w < t.model().rows implies t.model().slots[#[trigger] t.model().index(c2, w)]
                    == slot_of(read_cell(texts(rows@)[w as int][c2 as int])) by {
                lemma_flat_index_bound(n_rows as nat, cols as nat, c2, w);
            }
            assert forall|c2: nat, w: nat|
                c2 < t.model().cols && w < t.model().rows implies t.sources()[#[trigger] t.model().index(c2, w)]
                    == source_of(texts(rows@)[w as int][c2 as int]) by {
                lemma_flat_index_bound(n_rows as nat, cols as nat, c2, w);
            }
        }
        Ok(t)
    }

    /// Evaluates every formula cell that is not memoized yet, column by
    /// column and top to bottom within a column, each with an empty chain.
    /// Cells resolved on the way as a dependency are skipped when reached.
    /// Afterwards every formula cell is memoized, so running again changes
    /// nothing.
    pub fn run(&mut self)
        requires
            old(self).wf(),
        ensures
            final(self).wf(),
            final(self).model() == old(self).model(),
            final(self).sources() == old(self).sources(),
            final(self).memo() == run_columns(old(self).model(), old(self).memo(), 0),
            settled_from(final(self).model(), final(self).memo(), 0),
    {
        let ghost t = self.model();
        let ghost memo0 = self.memo();
        let mut c: usize = 0;
        while c < self.grid.cols
            invariant
                self.wf(),
                self.model() == t,
                self.sources() == old(self).sources(),
                t.cols == self.grid.cols,
                t.rows == self.grid.rows,
                c <= self.grid.cols,
                run_columns(t, memo0, 0) == run_columns(t, self.memo(), c as nat),
            decreases self.grid.cols - c,
        {
            let ghost memo_c = self.memo();
            let mut r: usize = 0;
            while r < self.grid.rows
                invariant
                    self.wf(),
                    self.model() == t,
                    self.sources() == old(self).sources(),
                    t.cols == self.grid.cols,
                    t.rows == self.grid.rows,
                    c < self.grid.cols,
                    r <= self.grid.rows,
                    run_rows(t, memo_c, c as nat, 0) == run_rows(t, self.memo(), c as nat, r as nat),
                decreases self.grid.rows - r,
            {
                let ghost i = flat_index(self.grid.rows as nat, c as nat, r as nat);
                proof {
                    lemma_flat_index_bound(self.grid.rows as nat, self.grid.cols as nat, c as nat, r as nat);
                    assert(t.slots[i] == slot_model(self.grid@[i]));
                    assert(self.memo().contains_key(i) == (slot_memo(self.grid@[i]) is Some));
                }
                let waiting = match self.grid.get(c, r) {
                    Ok(cell) => match &cell.kind {
                        CellKind::Expr { result: None, .. } => true,
                        _ => false,
                    },
                    Err(_) => false,
                };
                if waiting {
                    let _ = self.evaluate_cell(c, r, Vec::new());
                    proof {
                        assert(chain_model(Seq::<(usize, usize)>::empty()) =~= Seq::<(nat, nat)>::empty());
                    }
                }
                r += 1;
            }
            c += 1;
        }
        proof {
            law_run_settles(t, memo0);
        }
    }
}

impl Expr {
    /// Evaluates the tree against `table`, resolving each cell it refers to
    /// with `Table::evaluate_cell` under a copy of `chain`. The result holds
    /// one value, or one per cell of a range that stands directly in it.
    pub fn evaluate(&self, table: &mut Table, chain: &Vec<(usize, usize)>) -> (r: Vec<TableResult<Decimal>>)
        requires
            old(table).wf(),
            expr_wf(self@),
        ensures
            final(table).wf(),
            final(table).model() == old(table).model(),
            final(table).sources() == old(table).sources(),
            (outcomes(r@), final(table).memo()) == eval_expr(
                old(table).model(),
                old(table).memo(),
                self@,
                chain_model(chain@),
            ),
            all_wf(r@),
        decreases chain_room(old(table).model(), chain_model(chain@)), 1int, expr_size(self@), 0int, 0int,
    {
        let ghost t = table.model();
        let ghost memo0 = table.memo();
        let ghost ch = chain_model(chain@);
        match self {
            Expr::Binary { left, operator, right } => {
                let ls = left.evaluate(table, chain);
                let rs = right.evaluate(table, chain);
                let x = binary_result(&ls, operator, &rs);
                one(x)
            },
            Expr::Grouping(inner) => inner.evaluate(table, chain),
            Expr::Literal(tok) => match tok {
                Token::Number(d) => {
                    let x: TableResult<Decimal> = Ok(d.duplicate());
                    one(x)
                },
                Token::CellRef(p) => {
                    let x = table.evaluate_cell(p.0, p.1, copy_chain(chain));
                    one(x)
                },
                Token::CellRange(p) => evaluate_range(table, chain, p.0.start, p.0.end, p.1.start, p.1.end),
                _ => {
                    let x: TableResult<Decimal> = Err(TableError::runtime_error("Invalid token literal"));
                    one(x)
                },
            },
            Expr::Unary { operator, right } => {
                let rs = right.evaluate(table, chain);
                let x = unary_result(operator, &rs);
                one(x)
            },
            Expr::Call { calle, arguments } => {
                let x = match &**calle {
                    Expr::Literal(tok) => {
                        assert(self@->Call_callee == Box::new(ExprModel::Literal(tok@)));
                        if tok.is_builtin_fn() {
                            self.evaluate_sum(table, chain)
                        } else {
                            Err(TableError::runtime_error("Invalid token encountered type for calle"))
                        }
                    },
                    _ => {
                        assert(!(expr_model(&**calle) is Literal));
                        Err(TableError::runtime_error("Invalid expr type for calle"))
                    },
                };
                one(x)
            },
        }
    }
}

/// The cells of columns `c0..c1`, rows `r0..r1`, column by column.
fn evaluate_range(
    table: &mut Table,
    chain: &Vec<(usize, usize)>,
    c0: usize,
    c1: usize,
    r0: usize,
    r1: usize,
) -> (r: Vec<TableResult<Decimal>>)
    requires
        old(table).wf(),
    ensures
        final(table).wf(),
        final(table).model() == old(table).model(),
        final(table).sources() == old(table).sources(),
        (outcomes(r@), final(table).memo()) == eval_columns(
            old(table).model(),
            old(table).memo(),
            c0 as nat,
            c1 as nat,
            r0 as nat,
            r1 as nat,
            chain_model(chain@),
        ),
        all_wf(r@),
    decreases chain_room(old(table).model(), chain_model(chain@)), 1int, 0int, 0int, 0int,
{
    let ghost t = table.model();
    let ghost memo0 = table.memo();
    let ghost ch = chain_model(chain@);
    let mut out: Vec<TableResult<Decimal>> = Vec::new();
    let mut c = c0;
    proof {
        assert(outcomes(out@) =~= Seq::<crate::eval::Outcome>::empty());
        assert(outcomes(out@) + eval_columns(t, memo0, c0 as nat, c1 as nat, r0 as nat, r1 as nat, ch).0
            =~= eval_columns(t, memo0, c0 as nat, c1 as nat, r0 as nat, r1 as nat, ch).0);
    }
    while c < c1
        invariant
            c0 <= c,
            c <= c1 || c == c0,
            table.wf(),
            table.model() == t,
            t == old(table).model(),
            table.sources() == old(table).sources(),
            ch == chain_model(chain@),
            all_wf(out@),
            ({
                let (rest, m) = eval_columns(t, table.memo(), c as nat, c1 as nat, r0 as nat, r1 as nat, ch);
                eval_columns(t, memo0, c0 as nat, c1 as nat, r0 as nat, r1 as nat, ch) == (outcomes(out@) + rest, m)
            }),
        decreases c1 - c,
    {
        let ghost memo_c = table.memo();
        let mut col_out: Vec<TableResult<Decimal>> = Vec::new();
        let mut r = r0;
        proof {
            assert(outcomes(col_out@) + eval_rows(t, memo_c, c as nat, r0 as nat, r1 as nat, ch).0
                =~= eval_rows(t, memo_c, c as nat, r0 as nat, r1 as nat, ch).0);
        }
        while r < r1
            invariant
                r0 <= r,
                r <= r1 || r == r0,
                c < c1,
                table.wf(),
                table.model() == t,
                t == old(table).model(),
                table.sources() == old(table).sources(),
                ch == chain_model(chain@),
                all_wf(col_out@),
                ({
                    let (rest, m) = eval_rows(t, table.memo(), c as nat, r as nat, r1 as nat, ch);
                    eval_rows(t, memo_c, c as nat, r0 as nat, r1 as nat, ch) == (outcomes(col_out@) + rest, m)
                }),
            decreases r1 - r,
        {
            let ghost memo_r = table.memo();
            let x = table.evaluate_cell(c, r, copy_chain(chain));
            proof {
                lemma_outcomes_push(col_out@, x);
                let (rest, m) = eval_rows(t, table.memo(), c as nat, (r + 1) as nat, r1 as nat, ch);
                assert(outcomes(col_out@) + eval_rows(t, memo_r, c as nat, r as nat, r1 as nat, ch).0
                    =~= outcomes(col_out@.push(x)) + rest);
            }
            col_out.push(x);
            r += 1;
        }
        let ghost before = out@;
        proof {
            assert(outcomes(before + col_out@) =~= outcomes(before) + outcomes(col_out@));
            let (rest, m) = eval_columns(t, table.memo(), (c + 1) as nat, c1 as nat, r0 as nat, r1 as nat, ch);
            let (a, m1) = eval_rows(t, memo_c, c as nat, r0 as nat, r1 as nat, ch);
            assert(a =~= outcomes(col_out@));
            assert(outcomes(before) + (a + rest) =~= outcomes(before + col_out@) + rest);
        }
        out.append(&mut col_out);
        c += 1;
    }
    out
}

impl Expr {
    /// Evaluates the arguments of a call to `sum` in turn, adding up every
    /// value they give; the first failing value fails the whole sum.
    fn evaluate_sum(&self, table: &mut Table, chain: &Vec<(usize, usize)>) -> (r: TableResult<Decimal>)
        requires
            old(table).wf(),
            self is Call,
            expr_wf(self@),
        ensures
            final(table).wf(),
            final(table).model() == old(table).model(),
            final(table).sources() == old(table).sources(),
            (outcome(r), final(table).memo()) == eval_sum(
                old(table).model(),
                old(table).memo(),
                self@->Call_arguments,
                zero_model(),
                chain_model(chain@),
            ),
            outcome_wf(r),
        decreases chain_room(old(table).model(), chain_model(chain@)), 1int, args_size(self@->Call_arguments), 1int, 0int,
    {
        let ghost t = table.model();
        let ghost memo0 = table.memo();
        let ghost ch = chain_model(chain@);
        let ghost args = self@->Call_arguments;
        let arguments = match self {
            Expr::Call { arguments, .. } => arguments,
            _ => {
                proof {
                    assert(false);
                }
                return Err(TableError::EmptyTable);
            },
        };
        let mut acc = Decimal::zero();
        let mut i: usize = 0;
        proof {
            assert(args.subrange(0, args.len() as int) =~= args);
        }
        while i < arguments.len()
            invariant
                i <= arguments.len(),
                args.len() == arguments.len(),
                forall|j: int| 0 <= j < args.len() ==> args[j] == (#[trigger] arguments@[j])@,
                args_wf(args),
                args == self@->Call_arguments,
                table.wf(),
                table.model() == t,
                t == old(table).model(),
                table.sources() == old(table).sources(),
                memo0 == old(table).memo(),
                ch == chain_model(chain@),
                acc@.wf(),
                eval_sum(t, memo0, args, zero_model(), ch) == eval_sum(
                    t,
                    table.memo(),
                    args.subrange(i as int, args.len() as int),
                    acc@,
                    ch,
                ),
            decreases arguments.len() - i,
        {
            let ghost memo_i = table.memo();
            let ghost acc_i = acc@;
            let ghost rest = args.subrange(i as int, args.len() as int);
            proof {
                lemma_arg_smaller(args, i as int);
                lemma_args_wf(args, i as int);
                assert(rest[0] == args[i as int]);
                assert(rest.subrange(1, rest.len() as int) =~= args.subrange(i + 1, args.len() as int));
            }
            let rs = arguments[i].evaluate(table, chain);
            let mut j: usize = 0;
            proof {
                assert(outcomes(rs@).subrange(0, rs@.len() as int) =~= outcomes(rs@));
            }
            while j < rs.len()
                invariant
                    j <= rs.len(),
                    all_wf(rs@),
                    acc@.wf(),
                    table.wf(),
                    table.model() == t,
                    t == old(table).model(),
                    table.sources() == old(table).sources(),
                    memo0 == old(table).memo(),
                    ch == chain_model(chain@),
                    args == self@->Call_arguments,
                    (outcomes(rs@), table.memo()) == eval_expr(t, memo_i, args[i as int], ch),
                    eval_sum(t, memo0, args, zero_model(), ch) == eval_sum(t, memo_i, rest, acc_i, ch),
                    i < args.len(),
                    args.len() == arguments.len(),
                    rest.len() > 0,
                    rest[0] == args[i as int],
                    fold_values(outcomes(rs@), acc_i) == fold_values(
                        outcomes(rs@).subrange(j as int, rs@.len() as int),
                        acc@,
                    ),
                decreases rs.len() - j,
            {
                let ghost sub = outcomes(rs@).subrange(j as int, rs@.len() as int);
                proof {
                    assert(sub[0] == outcome(rs@[j as int]));
                    assert(sub.subrange(1, sub.len() as int) =~= outcomes(rs@).subrange(j + 1, rs@.len() as int));
                    assert(outcome_wf(rs@[j as int]));
                }
                match &rs[j] {
                    Err(_) => {
                        proof {
                            assert(fold_values(sub, acc@) == Err::<crate::decimal::DecimalModel, _>(crate::error::ErrorModel::RuntimeError(crate::eval::msg_sum())));
                        }
                        return Err(TableError::runtime_error("Error performing summation"));
                    },
                    Ok(v) => {
                        if !acc.aligned(v) {
                            proof {
                                assert(fold_values(sub, acc@) == Err::<crate::decimal::DecimalModel, _>(crate::error::ErrorModel::RuntimeError(crate::eval::msg_scale())));
                            }
                            return Err(TableError::runtime_error("Decimal scale out of range"));
                        }
                        acc = add_decimals(&acc, v);
                    },
                }
                j += 1;
            }
            proof {
                assert(outcomes(rs@).subrange(j as int, rs@.len() as int) =~= Seq::<crate::eval::Outcome>::empty());
            }
            i += 1;
        }
        proof {
            assert(args.subrange(i as int, args.len() as int) =~= Seq::<ExprModel>::empty());
        }
        Ok(acc)
    }
}

} // verus!
