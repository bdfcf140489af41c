//! The meaning of evaluation: how a formula and the cells it refers to
//! resolve, with the memo of every formula cell threaded through in the order
//! in which cells are visited.
use crate::ast::{args_size, expr_size, ExprModel};
use crate::decimal::{
    decimal_difference, decimal_negation, decimal_product, decimal_quotient, decimal_sum,
    DecimalModel,
};
use crate::error::ErrorModel;
use crate::tokenizer::TokenModel;
use vstd::prelude::*;

verus! {

/// What evaluating one value gives: a decimal or an error.
pub type Outcome = Result<DecimalModel, ErrorModel>;

/// What a table slot holds, memo aside.
pub enum SlotModel {
    /// The cell's text could not be read; the error stands in its place.
    Broken(ErrorModel),
    Empty,
    Number(DecimalModel),
    Formula(ExprModel),
}

/// A table: `cols * rows` slots stored column by column, so that cell
/// `(col, row)` sits at `col * rows + row`.
pub struct TableModel {
    pub cols: nat,
    pub rows: nat,
    pub slots: Seq<SlotModel>,
}

/// The memoized outcome of each evaluated slot, by slot index.
pub type Memo = Map<int, Outcome>;

/// The cells currently being resolved, outermost first.
pub type Chain = Seq<(nat, nat)>;

impl TableModel {
    pub open spec fn size(self) -> nat {
        self.cols * self.rows
    }

    pub open spec fn in_bounds(self, col: nat, row: nat) -> bool {
        col < self.cols && row < self.rows
    }

    pub open spec fn index(self, col: nat, row: nat) -> int {
        (col * self.rows + row) as int
    }
}

pub open spec fn msg_outside() -> Seq<char> {
    "Cell reference outside the table"@
}

pub open spec fn msg_ranges() -> Seq<char> {
    "Cannot add cell ranges together"@
}

pub open spec fn msg_operator() -> Seq<char> {
    "Invalid token in binary expression"@
}

pub open spec fn msg_scale() -> Seq<char> {
    "Decimal scale out of range"@
}

pub open spec fn msg_division() -> Seq<char> {
    "Division by zero"@
}

pub open spec fn msg_literal() -> Seq<char> {
    "Invalid token literal"@
}

pub open spec fn msg_unary_single() -> Seq<char> {
    "Error in unary expression - expected single cell value"@
}

pub open spec fn msg_unary_operator() -> Seq<char> {
    "Invalid token for unary expression"@
}

pub open spec fn msg_sum() -> Seq<char> {
    "Error performing summation"@
}

pub open spec fn msg_callee_token() -> Seq<char> {
    "Invalid token encountered type for calle"@
}

pub open spec fn msg_callee() -> Seq<char> {
    "Invalid expr type for calle"@
}

/// The one value of a sequence that must hold exactly one.
pub open spec fn single(rs: Seq<Outcome>) -> Outcome {
    if rs.len() == 1 {
        rs[0]
    } else {
        Err(ErrorModel::MultipleCellReturn)
    }
}

/// A binary operator applied to two decimals.
pub open spec fn apply_operator(op: TokenModel, a: DecimalModel, b: DecimalModel) -> Outcome {
    if !(op is Plus || op is Minus || op is Star || op is Slash) {
        Err(ErrorModel::RuntimeError(msg_operator()))
    } else if op is Star && !a.product_fits(b) || !(op is Star) && !a.aligned(b) {
        Err(ErrorModel::RuntimeError(msg_scale()))
    } else if op is Plus {
        Ok(decimal_sum(a, b))
    } else if op is Minus {
        Ok(decimal_difference(a, b))
    } else if op is Star {
        Ok(decimal_product(a, b))
    } else if b.is_zero() {
        Err(ErrorModel::RuntimeError(msg_division()))
    } else {
        Ok(decimal_quotient(a, b))
    }
}

/// A binary node, once both sides are evaluated.
pub open spec fn binary_outcome(ls: Seq<Outcome>, op: TokenModel, rs: Seq<Outcome>) -> Outcome {
    if ls.len() != 1 || rs.len() != 1 {
        Err(ErrorModel::RuntimeError(msg_ranges()))
    } else {
        match (ls[0], rs[0]) {
            (Ok(a), Ok(b)) => apply_operator(op, a, b),
            (Err(e), _) => Err(e),
            (Ok(_), Err(e)) => Err(e),
        }
    }
}

/// A unary node, once its operand is evaluated.
pub open spec fn unary_outcome(op: TokenModel, rs: Seq<Outcome>) -> Outcome {
    if rs.len() != 1 {
        Err(ErrorModel::RuntimeError(msg_unary_single()))
    } else {
        match rs[0] {
            Ok(r) => if op is Minus {
                Ok(decimal_negation(r))
            } else {
                Err(ErrorModel::RuntimeError(msg_unary_operator()))
            },
            Err(e) => Err(e),
        }
    }
}

/// Adds the values `rs` to `acc` from left to right; the first failing value
/// fails the whole sum.
pub open spec fn fold_values(rs: Seq<Outcome>, acc: DecimalModel) -> Outcome
    decreases rs.len(),
{
    if rs.len() == 0 {
        Ok(acc)
    } else {
        match rs[0] {
            Err(_) => Err(ErrorModel::RuntimeError(msg_sum())),
            Ok(v) => if !acc.aligned(v) {
                Err(ErrorModel::RuntimeError(msg_scale()))
            } else {
                fold_values(rs.subrange(1, rs.len() as int), decimal_sum(acc, v))
            },
        }
    }
}

/// How many cells of rows `r..` of column `c` are not in the chain.
pub open spec fn free_rows(t: TableModel, chain: Chain, c: nat, r: nat) -> nat
    decreases t.rows - r,
{
    if r >= t.rows {
        0
    } else {
        (if chain.contains((c, r)) { 0nat } else { 1nat }) + free_rows(t, chain, c, r + 1)
    }
}

/// How many cells of columns `c..` are not in the chain.
pub open spec fn free_cols(t: TableModel, chain: Chain, c: nat) -> nat
    decreases t.cols - c,
{
    if c >= t.cols {
        0
    } else {
        free_rows(t, chain, c, 0) + free_cols(t, chain, c + 1)
    }
}

/// The cells of the table that the chain does not hold yet: each step of
/// resolution adds one of them, so resolution ends.
pub open spec fn chain_room(t: TableModel, chain: Chain) -> nat {
    free_cols(t, chain, 0)
}

proof fn lemma_push_contains(chain: Chain, x: (nat, nat), p: (nat, nat))
    ensures
        chain.push(x).contains(p) == (chain.contains(p) || p == x),
{
    if chain.contains(p) {
        let i = choose|i: int| 0 <= i < chain.len() && chain[i] == p;
        assert(chain.push(x)[i] == p);
    }
    if p == x {
        assert(chain.push(x)[chain.len() as int] == p);
    }
    if chain.push(x).contains(p) {
        let i = choose|i: int| 0 <= i < chain.push(x).len() && chain.push(x)[i] == p;
        if i < chain.len() {
            assert(chain[i] == p);
        }
    }
}

proof fn lemma_free_rows_push(t: TableModel, chain: Chain, x: (nat, nat), c: nat, r: nat)
    ensures
        free_rows(t, chain.push(x), c, r) <= free_rows(t, chain, c, r),
        x.0 == c && r <= x.1 < t.rows && !chain.contains(x) ==> free_rows(t, chain.push(x), c, r) < free_rows(t, chain, c, r),
    decreases t.rows - r,
{
    if r < t.rows {
        lemma_push_contains(chain, x, (c, r));
        lemma_free_rows_push(t, chain, x, c, r + 1);
    }
}

proof fn lemma_free_cols_push(t: TableModel, chain: Chain, x: (nat, nat), c: nat)
    ensures
        free_cols(t, chain.push(x), c) <= free_cols(t, chain, c),
        c <= x.0 < t.cols && x.1 < t.rows && !chain.contains(x) ==> free_cols(t, chain.push(x), c) < free_cols(t, chain, c),
    decreases t.cols - c,
{
    if c < t.cols {
        lemma_free_rows_push(t, chain, x, c, 0);
        lemma_free_cols_push(t, chain, x, c + 1);
    }
}

/// Adding a cell of the table that the chain does not hold leaves less room.
pub proof fn lemma_room_shrinks(t: TableModel, chain: Chain, col: nat, row: nat)
    requires
        t.in_bounds(col, row),
        !chain.contains((col, row)),
    ensures
        chain_room(t, chain.push((col, row))) < chain_room(t, chain),
{
    lemma_free_cols_push(t, chain, (col, row), 0);
}

/// Resolves cell `(col, row)` while the cells of `chain` are being resolved.
pub open spec fn eval_cell(t: TableModel, memo: Memo, col: nat, row: nat, chain: Chain) -> (Outcome, Memo)
    decreases chain_room(t, chain), 0int, 0int, 0int, 0int,
    via eval_cell_decreases
{
    if chain.contains((col, row)) {
        (Err(ErrorModel::RecursiveCellExpr(col, row)), memo)
    } else if !t.in_bounds(col, row) {
        (Err(ErrorModel::RuntimeError(msg_outside())), memo)
    } else {
        let i = t.index(col, row);
        match t.slots[i] {
            SlotModel::Broken(e) => (Err(e), memo),
            SlotModel::Empty => (Err(ErrorModel::EmptyCellEvaluation), memo),
            SlotModel::Number(d) => (Ok(d), memo),
            SlotModel::Formula(e) => if memo.contains_key(i) {
                (memo[i], memo)
            } else {
                let (rs, m) = eval_expr(t, memo, e, chain.push((col, row)));
                (single(rs), m.insert(i, single(rs)))
            },
        }
    }
}

/// Evaluates a tree to its sequence of values.
pub open spec fn eval_expr(t: TableModel, memo: Memo, e: ExprModel, chain: Chain) -> (Seq<Outcome>, Memo)
    decreases chain_room(t, chain), 1int, expr_size(e), 0int, 0int,
{
    match e {
        ExprModel::Binary { left, operator, right } => {
            let (ls, m1) = eval_expr(t, memo, *left, chain);
            let (rs, m2) = eval_expr(t, m1, *right, chain);
            (seq![binary_outcome(ls, operator, rs)], m2)
        },
        ExprModel::Grouping(inner) => eval_expr(t, memo, *inner, chain),
        ExprModel::Literal(tok) => match tok {
            TokenModel::Number(d) => (seq![Ok(d)], memo),
            TokenModel::CellRef(c, r) => {
                let (x, m) = eval_cell(t, memo, c, r, chain);
                (seq![x], m)
            },
            TokenModel::CellRange(c0, c1, r0, r1) => eval_columns(t, memo, c0, c1, r0, r1, chain),
            _ => (seq![Err(ErrorModel::RuntimeError(msg_literal()))], memo),
        },
        ExprModel::Unary { operator, right } => {
            let (rs, m) = eval_expr(t, memo, *right, chain);
            (seq![unary_outcome(operator, rs)], m)
        },
        ExprModel::Call { callee, arguments } => match *callee {
            ExprModel::Literal(tok) => if tok is Sum {
                let (r, m) = eval_sum(t, memo, arguments, crate::decimal::zero_model(), chain);
                (seq![r], m)
            } else {
                (seq![Err(ErrorModel::RuntimeError(msg_callee_token()))], memo)
            },
            _ => (seq![Err(ErrorModel::RuntimeError(msg_callee()))], memo),
        },
    }
}

/// The cells of columns `c..c1`, rows `r0..r1`, column by column.
pub open spec fn eval_columns(t: TableModel, memo: Memo, c: nat, c1: nat, r0: nat, r1: nat, chain: Chain) -> (Seq<Outcome>, Memo)
    decreases chain_room(t, chain), 1int, 0int, c1 - c, r1 - r0 + 1,
{
    if c >= c1 {
        (Seq::empty(), memo)
    } else {
        let (a, m1) = eval_rows(t, memo, c, r0, r1, chain);
        let (b, m2) = eval_columns(t, m1, c + 1, c1, r0, r1, chain);
        (a + b, m2)
    }
}

/// The cells of column `c`, rows `r..r1`.
pub open spec fn eval_rows(t: TableModel, memo: Memo, c: nat, r: nat, r1: nat, chain: Chain) -> (Seq<Outcome>, Memo)
    decreases chain_room(t, chain), 1int, 0int, 0int, r1 - r,
{
    if r >= r1 {
        (Seq::empty(), memo)
    } else {
        let (x, m1) = eval_cell(t, memo, c, r, chain);
        let (b, m2) = eval_rows(t, m1, c, r + 1, r1, chain);
        (seq![x] + b, m2)
    }
}

/// The arguments of a sum, evaluated in turn and added to `acc`.
pub open spec fn eval_sum(t: TableModel, memo: Memo, args: Seq<ExprModel>, acc: DecimalModel, chain: Chain) -> (Outcome, Memo)
    decreases chain_room(t, chain), 1int, args_size(args), 1int, 0int,
    via eval_sum_decreases
{
    if args.len() == 0 {
        (Ok(acc), memo)
    } else {
        let (rs, m1) = eval_expr(t, memo, args[0], chain);
        match fold_values(rs, acc) {
            Ok(a) => eval_sum(t, m1, args.subrange(1, args.len() as int), a, chain),
            Err(e) => (Err(e), m1),
        }
    }
}

/// Whether a full pass still has to evaluate slot `i`.
pub open spec fn pending(t: TableModel, memo: Memo, i: int) -> bool {
    t.slots[i] is Formula && !memo.contains_key(i)
}

/// A pass over rows `r..` of column `c`: every formula cell not memoized yet
/// is evaluated with an empty chain.
pub open spec fn run_rows(t: TableModel, memo: Memo, c: nat, r: nat) -> Memo
    decreases t.rows - r,
{
    if r >= t.rows {
        memo
    } else {
        let i = t.index(c, r);
        let m = if pending(t, memo, i) {
            eval_cell(t, memo, c, r, Seq::empty()).1
        } else {
            memo
        };
        run_rows(t, m, c, r + 1)
    }
}

/// A pass over columns `c..`, each one top to bottom.
pub open spec fn run_columns(t: TableModel, memo: Memo, c: nat) -> Memo
    decreases t.cols - c,
{
    if c >= t.cols {
        memo
    } else {
        run_columns(t, run_rows(t, memo, c, 0), c + 1)
    }
}

#[via_fn]
proof fn eval_cell_decreases(t: TableModel, memo: Memo, col: nat, row: nat, chain: Chain) {
    if !chain.contains((col, row)) && t.in_bounds(col, row) {
        lemma_room_shrinks(t, chain, col, row);
    }
}

#[via_fn]
proof fn eval_sum_decreases(t: TableModel, memo: Memo, args: Seq<ExprModel>, acc: DecimalModel, chain: Chain) {
    if args.len() > 0 {
        crate::ast::lemma_size_positive(args[0]);
    }
}

} // verus!
