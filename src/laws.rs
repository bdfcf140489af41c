//! Properties that relate the parser, the evaluator and the table driver.
use crate::ast::{args_size, expr_size, lemma_size_positive, ExprModel};
use crate::decimal::{
    decimal_difference, decimal_product, decimal_quotient, decimal_sum, DecimalModel,
};
use crate::error::ErrorModel;
use crate::eval::{
    chain_room, eval_cell, eval_columns, eval_expr, eval_rows, eval_sum, fold_values, pending,
    run_columns, run_rows, Chain, Memo, Outcome, SlotModel, TableModel,
};
use crate::parser::{
    current, load, parse_call, parse_call_rest, parse_expression, parse_factor, parse_factor_rest,
    parse_primary, parse_term, parse_term_rest, parse_tokens, parse_unary,
};
use crate::decimal::decimal_number;
use crate::tokenizer::{
    all_ascii_digits, ascii_alpha, column_number, is_numeral, letter_span, numeric_span,
    read_reference, Lexed, TokenModel,
};
use vstd::prelude::*;

verus! {

pub open spec fn is_arithmetic(op: TokenModel) -> bool {
    op is Plus || op is Minus || op is Star || op is Slash
}

/// A literal number or a cell reference.
pub open spec fn is_simple_operand(x: TokenModel) -> bool {
    x is Number || x is CellRef
}

/// The operand `x` stands for the decimal `v`: it is `v` itself, or refers to
/// a number cell holding `v` that is not being resolved.
pub open spec fn operand_value(t: TableModel, chain: Chain, x: TokenModel, v: DecimalModel) -> bool {
    ||| x == TokenModel::Number(v)
    ||| (x matches TokenModel::CellRef(c, w) && t.in_bounds(c, w) && !chain.contains((c, w))
        && t.slots[t.index(c, w)] == SlotModel::Number(v))
}

/// The decimal that an arithmetic operator gives.
pub open spec fn operator_result(op: TokenModel, a: DecimalModel, b: DecimalModel) -> DecimalModel {
    if op is Plus {
        decimal_sum(a, b)
    } else if op is Minus {
        decimal_difference(a, b)
    } else if op is Star {
        decimal_product(a, b)
    } else {
        decimal_quotient(a, b)
    }
}

pub open spec fn binary_tree(l: TokenModel, op: TokenModel, r: TokenModel) -> ExprModel {
    ExprModel::Binary {
        left: Box::new(ExprModel::Literal(l)),
        operator: op,
        right: Box::new(ExprModel::Literal(r)),
    }
}

proof fn lemma_parse_operand(ts: Seq<Lexed>, p: int, x: TokenModel)
    requires
        0 <= p < ts.len(),
        ts[p] == Ok::<TokenModel, ErrorModel>(x),
        is_simple_operand(x),
        p + 1 < ts.len() ==> ts[p + 1] is Ok,
        p + 1 < ts.len() ==> !(ts[p + 1] == Ok::<TokenModel, ErrorModel>(TokenModel::LeftParen)),
    ensures
        parse_unary(ts, p) == Ok::<(ExprModel, int), ErrorModel>((ExprModel::Literal(x), p + 1)),
{
    assert(current(ts, p) == Some(x));
    assert(load(ts, p + 1) == Ok::<int, ErrorModel>(p + 1));
    assert(parse_primary(ts, p) == Ok::<(ExprModel, int), ErrorModel>((ExprModel::Literal(x), p + 1)));
    assert(current(ts, p + 1) != Some(TokenModel::LeftParen));
    assert(parse_call_rest(ts, ExprModel::Literal(x), p + 1) == Ok::<(ExprModel, int), ErrorModel>((ExprModel::Literal(x), p + 1)));
    assert(parse_call(ts, p) == Ok::<(ExprModel, int), ErrorModel>((ExprModel::Literal(x), p + 1)));
}

/// A binary formula over two operands, each a literal number or a cell
/// reference, parses into one binary node over the two literals, whatever the
/// operator; and evaluating that node applies the operator to the operands'
/// values, leaving every memo as it was.
pub proof fn law_binary_round_trip(
    t: TableModel,
    memo: Memo,
    chain: Chain,
    l: TokenModel,
    op: TokenModel,
    r: TokenModel,
    a: DecimalModel,
    b: DecimalModel,
)
    requires
        is_arithmetic(op),
        is_simple_operand(l),
        is_simple_operand(r),
        operand_value(t, chain, l, a),
        operand_value(t, chain, r, b),
        op is Star ==> a.product_fits(b),
        !(op is Star) ==> a.aligned(b),
        op is Slash ==> !b.is_zero(),
    ensures
        parse_tokens(seq![Ok(l), Ok(op), Ok(r)]) == Ok::<ExprModel, ErrorModel>(binary_tree(l, op, r)),
        eval_expr(t, memo, binary_tree(l, op, r), chain) == (seq![Ok::<DecimalModel, ErrorModel>(operator_result(op, a, b))], memo),
{
    let ts: Seq<Lexed> = seq![Ok(l), Ok(op), Ok(r)];
    let e = binary_tree(l, op, r);
    assert(load(ts, 0) == Ok::<int, ErrorModel>(0));
    assert(current(ts, 0) == Some(l));
    lemma_parse_operand(ts, 0, l);
    lemma_parse_operand(ts, 2, r);
    assert(current(ts, 1) == Some(op));
    assert(load(ts, 2) == Ok::<int, ErrorModel>(2));
    assert(current(ts, 3) is None);
    if op is Star || op is Slash {
        assert(parse_factor_rest(ts, e, 3) == Ok::<(ExprModel, int), ErrorModel>((e, 3)));
        assert(parse_factor_rest(ts, ExprModel::Literal(l), 1) == Ok::<(ExprModel, int), ErrorModel>((e, 3)));
        assert(parse_factor(ts, 0) == Ok::<(ExprModel, int), ErrorModel>((e, 3)));
        assert(parse_term_rest(ts, e, 3) == Ok::<(ExprModel, int), ErrorModel>((e, 3)));
        assert(parse_term(ts, 0) == Ok::<(ExprModel, int), ErrorModel>((e, 3)));
    } else {
        assert(parse_factor_rest(ts, ExprModel::Literal(l), 1) == Ok::<(ExprModel, int), ErrorModel>((ExprModel::Literal(l), 1)));
        assert(parse_factor(ts, 0) == Ok::<(ExprModel, int), ErrorModel>((ExprModel::Literal(l), 1)));
        assert(parse_factor_rest(ts, ExprModel::Literal(r), 3) == Ok::<(ExprModel, int), ErrorModel>((ExprModel::Literal(r), 3)));
        assert(parse_factor(ts, 2) == Ok::<(ExprModel, int), ErrorModel>((ExprModel::Literal(r), 3)));
        assert(parse_term_rest(ts, e, 3) == Ok::<(ExprModel, int), ErrorModel>((e, 3)));
        assert(parse_term_rest(ts, ExprModel::Literal(l), 1) == Ok::<(ExprModel, int), ErrorModel>((e, 3)));
        assert(parse_term(ts, 0) == Ok::<(ExprModel, int), ErrorModel>((e, 3)));
    }
    assert(parse_expression(ts, 0) == Ok::<(ExprModel, int), ErrorModel>((e, 3)));
    lemma_operand(t, memo, chain, l, a);
    lemma_operand(t, memo, chain, r, b);
}

proof fn lemma_operand(t: TableModel, memo: Memo, chain: Chain, x: TokenModel, v: DecimalModel)
    requires
        is_simple_operand(x),
        operand_value(t, chain, x, v),
    ensures
        eval_expr(t, memo, ExprModel::Literal(x), chain) == (seq![Ok::<DecimalModel, ErrorModel>(v)], memo),
{
    match x {
        TokenModel::CellRef(c, w) => {
            assert(eval_cell(t, memo, c, w, chain) == (Ok::<DecimalModel, ErrorModel>(v), memo));
        },
        _ => {},
    }
}

proof fn lemma_letter_span(s: Seq<char>, pos: int, n: nat)
    requires
        0 <= pos,
        pos + n <= s.len(),
        forall|i: int| pos <= i < pos + n ==> ascii_alpha(#[trigger] s[i]),
        pos + n < s.len() ==> !ascii_alpha(s[pos + n]),
    ensures
        letter_span(s, pos) == n,
    decreases n,
{
    if n > 0 {
        lemma_letter_span(s, pos + 1, (n - 1) as nat);
    }
}

proof fn lemma_numeric_span(s: Seq<char>, pos: int, n: nat)
    requires
        0 <= pos,
        pos + n <= s.len(),
        forall|i: int| pos <= i < pos + n ==> is_numeral(#[trigger] s[i]),
        pos + n < s.len() ==> !is_numeral(s[pos + n]),
    ensures
        numeric_span(s, pos) == n,
    decreases n,
{
    if n > 0 {
        lemma_numeric_span(s, pos + 1, (n - 1) as nat);
    }
}

/// Column encoding: ASCII letters followed by ASCII digits read as the
/// reference to column `column_number(letters) - 1` (letters in base 26, `a`
/// or `A` as one, no zero digit) and row `digits - 1`, when both fit and the
/// row is not zero; reading stops after the digits.
pub proof fn law_reference(letters: Seq<char>, digits: Seq<char>, rest: Seq<char>)
    requires
        letters.len() > 0,
        forall|i: int| 0 <= i < letters.len() ==> ascii_alpha(#[trigger] letters[i]),
        column_number(letters) <= usize::MAX,
        digits.len() > 0,
        all_ascii_digits(digits),
        1 <= decimal_number(digits) <= usize::MAX,
        rest.len() > 0 ==> !is_numeral(rest[0]),
    ensures
        read_reference(letters + digits + rest, 0) == (
            Ok::<(nat, nat), ErrorModel>(((column_number(letters) - 1) as nat, (decimal_number(digits) - 1) as nat)),
            (letters.len() + digits.len()) as int,
        ),
{
    let s = letters + digits + rest;
    let a = letters.len();
    let d = digits.len();
    assert forall|i: int| 0 <= i < a implies ascii_alpha(#[trigger] s[i]) by {
        assert(s[i] == letters[i]);
    }
    assert(s[a as int] == digits[0]);
    lemma_letter_span(s, 0, a);
    assert forall|i: int| a <= i < a + d implies is_numeral(#[trigger] s[i]) by {
        assert(s[i] == digits[i - a]);
    }
    if a + d < s.len() {
        assert(s[(a + d) as int] == rest[0]);
    }
    lemma_numeric_span(s, a as int, d);
    assert(s.subrange(0, a as int) =~= letters);
    assert(s.subrange(a as int, (a + d) as int) =~= digits);
}

/// Memoization: once a cell is resolved, resolving it again, under any chain
/// that does not hold it, gives the same outcome and changes no memo.
pub proof fn law_memoized(t: TableModel, memo: Memo, col: nat, row: nat, chain1: Chain, chain2: Chain)
    requires
        t.in_bounds(col, row),
        !chain1.contains((col, row)),
        !chain2.contains((col, row)),
    ensures
        ({
            let (r1, m1) = eval_cell(t, memo, col, row, chain1);
            eval_cell(t, m1, col, row, chain2) == (r1, m1)
        }),
{
}

/// Cycle detection: when two formula cells each consist of a reference to
/// the other, resolving either one fails with a cycle error at that cell.
pub proof fn law_mutual_reference(t: TableModel, memo: Memo, a: (nat, nat), b: (nat, nat))
    requires
        t.in_bounds(a.0, a.1),
        t.in_bounds(b.0, b.1),
        a != b,
        t.slots[t.index(a.0, a.1)] == SlotModel::Formula(ExprModel::Literal(TokenModel::CellRef(b.0, b.1))),
        t.slots[t.index(b.0, b.1)] == SlotModel::Formula(ExprModel::Literal(TokenModel::CellRef(a.0, a.1))),
        !memo.contains_key(t.index(a.0, a.1)),
        !memo.contains_key(t.index(b.0, b.1)),
    ensures
        eval_cell(t, memo, a.0, a.1, Seq::empty()).0 == Err::<DecimalModel, ErrorModel>(ErrorModel::RecursiveCellExpr(a.0, a.1)),
{
    crate::grid::lemma_flat_index_bound(t.rows, t.cols, a.0, a.1);
    crate::grid::lemma_flat_index_bound(t.rows, t.cols, b.0, b.1);
    let ch1: Chain = Seq::empty().push(a);
    let ch2: Chain = ch1.push(b);
    assert(ch2.contains(a)) by {
        assert(ch2[0] == a);
    }
    assert(!ch1.contains(b)) by {
        assert(ch1.len() == 1);
    }
    assert(t.index(a.0, a.1) != t.index(b.0, b.1)) by {
        lemma_index_injective(t, a, b);
    }
    let (x, m) = eval_cell(t, memo, a.0, a.1, ch2);
    assert(x == Err::<DecimalModel, ErrorModel>(ErrorModel::RecursiveCellExpr(a.0, a.1)));
    let (y, mb) = eval_cell(t, memo, b.0, b.1, ch1);
    assert(y == x);
}

pub open spec fn reference(c: (nat, nat)) -> ExprModel {
    ExprModel::Literal(TokenModel::CellRef(c.0, c.1))
}

/// A diamond is no cycle: when `top` adds up cells `c` and `d`, each of
/// which refers to the number cell `e`, resolving `top` succeeds with the
/// sum of `e`'s value with itself.
pub proof fn law_diamond(
    t: TableModel,
    memo: Memo,
    top: (nat, nat),
    c: (nat, nat),
    d: (nat, nat),
    e: (nat, nat),
    v: DecimalModel,
)
    requires
        t.in_bounds(top.0, top.1),
        t.in_bounds(c.0, c.1),
        t.in_bounds(d.0, d.1),
        t.in_bounds(e.0, e.1),
        top != c && top != d && top != e && c != d && c != e && d != e,
        t.slots[t.index(top.0, top.1)] == SlotModel::Formula(ExprModel::Binary {
            left: Box::new(reference(c)),
            operator: TokenModel::Plus,
            right: Box::new(reference(d)),
        }),
        t.slots[t.index(c.0, c.1)] == SlotModel::Formula(reference(e)),
        t.slots[t.index(d.0, d.1)] == SlotModel::Formula(reference(e)),
        t.slots[t.index(e.0, e.1)] == SlotModel::Number(v),
        !memo.contains_key(t.index(top.0, top.1)),
        !memo.contains_key(t.index(c.0, c.1)),
        !memo.contains_key(t.index(d.0, d.1)),
    ensures
        eval_cell(t, memo, top.0, top.1, Seq::empty()).0 == Ok::<DecimalModel, ErrorModel>(decimal_sum(v, v)),
{
    lemma_index_injective(t, c, d);
    let ch1: Chain = Seq::empty().push(top);
    let ch_c: Chain = ch1.push(c);
    let ch_d: Chain = ch1.push(d);
    assert(!ch1.contains(c) && !ch1.contains(d)) by {
        assert(ch1.len() == 1 && ch1[0] == top);
    }
    assert(!ch_c.contains(e)) by {
        assert(ch_c.len() == 2 && ch_c[0] == top && ch_c[1] == c);
    }
    assert(!ch_d.contains(e)) by {
        assert(ch_d.len() == 2 && ch_d[0] == top && ch_d[1] == d);
    }
    let (x, m1) = eval_cell(t, memo, c.0, c.1, ch1);
    assert(eval_cell(t, memo, e.0, e.1, ch_c) == (Ok::<DecimalModel, ErrorModel>(v), memo));
    assert(x == Ok::<DecimalModel, ErrorModel>(v));
    assert(!m1.contains_key(t.index(d.0, d.1)));
    let (y, m2) = eval_cell(t, m1, d.0, d.1, ch1);
    assert(eval_cell(t, m1, e.0, e.1, ch_d) == (Ok::<DecimalModel, ErrorModel>(v), m1));
    assert(y == Ok::<DecimalModel, ErrorModel>(v));
    assert(eval_expr(t, memo, reference(c), ch1) == (seq![x], m1));
    assert(eval_expr(t, m1, reference(d), ch1) == (seq![y], m2));
    let (zs, m3) = eval_expr(t, memo, t.slots[t.index(top.0, top.1)]->Formula_0, ch1);
    assert(zs == seq![Ok::<DecimalModel, ErrorModel>(decimal_sum(v, v))]);
}

/// A cell that fails whatever the memo: outside the table, being resolved,
/// empty, or unreadable.
pub open spec fn cell_fails(t: TableModel, chain: Chain, c: nat, w: nat) -> bool {
    ||| chain.contains((c, w))
    ||| !t.in_bounds(c, w)
    ||| t.slots[t.index(c, w)] is Empty
    ||| t.slots[t.index(c, w)] is Broken
}

proof fn lemma_fold_fails(rs: Seq<Outcome>, acc: DecimalModel, k: int)
    requires
        0 <= k < rs.len(),
        rs[k] is Err,
    ensures
        fold_values(rs, acc) is Err,
    decreases rs.len(),
{
    if k > 0 && rs[0] is Ok && acc.aligned(rs[0]->Ok_0) {
        let rest = rs.subrange(1, rs.len() as int);
        assert(rest[k - 1] == rs[k]);
        lemma_fold_fails(rest, decimal_sum(acc, rs[0]->Ok_0), k - 1);
    }
}

proof fn lemma_rows_fail(t: TableModel, memo: Memo, c: nat, r: nat, r1: nat, chain: Chain, w: nat)
    requires
        r <= w < r1,
        cell_fails(t, chain, c, w),
    ensures
        exists|k: int| 0 <= k < eval_rows(t, memo, c, r, r1, chain).0.len() && (#[trigger] eval_rows(t, memo, c, r, r1, chain).0[k]) is Err,
    decreases r1 - r,
{
    let (x, m1) = eval_cell(t, memo, c, r, chain);
    let (b, m2) = eval_rows(t, m1, c, r + 1, r1, chain);
    let out = eval_rows(t, memo, c, r, r1, chain).0;
    assert(out == seq![x] + b);
    if w == r {
        assert(x is Err);
        assert(out[0] is Err);
    } else {
        lemma_rows_fail(t, m1, c, r + 1, r1, chain, w);
        let k = choose|k: int| 0 <= k < b.len() && (#[trigger] b[k]) is Err;
        assert(out[k + 1] == b[k]);
    }
}

proof fn lemma_columns_fail(t: TableModel, memo: Memo, c: nat, c1: nat, r0: nat, r1: nat, chain: Chain, fc: nat, w: nat)
    requires
        c <= fc < c1,
        r0 <= w < r1,
        cell_fails(t, chain, fc, w),
    ensures
        exists|k: int| 0 <= k < eval_columns(t, memo, c, c1, r0, r1, chain).0.len() && (#[trigger] eval_columns(t, memo, c, c1, r0, r1, chain).0[k]) is Err,
    decreases c1 - c,
{
    let (a, m1) = eval_rows(t, memo, c, r0, r1, chain);
    let (b, m2) = eval_columns(t, m1, c + 1, c1, r0, r1, chain);
    let out = eval_columns(t, memo, c, c1, r0, r1, chain).0;
    assert(out == a + b);
    if fc == c {
        lemma_rows_fail(t, memo, c, r0, r1, chain, w);
        let k = choose|k: int| 0 <= k < a.len() && (#[trigger] a[k]) is Err;
        assert(out[k] == a[k]);
    } else {
        lemma_columns_fail(t, m1, c + 1, c1, r0, r1, chain, fc, w);
        let k = choose|k: int| 0 <= k < b.len() && (#[trigger] b[k]) is Err;
        assert(out[a.len() + k] == b[k]);
    }
}

pub open spec fn sum_of_range(c0: nat, c1: nat, r0: nat, r1: nat) -> ExprModel {
    ExprModel::Call {
        callee: Box::new(ExprModel::Literal(TokenModel::Sum)),
        arguments: seq![ExprModel::Literal(TokenModel::CellRange(c0, c1, r0, r1))],
    }
}

/// A sum over a range fails as a whole when one cell of the range is empty,
/// unreadable, outside the table or being resolved.
pub proof fn law_range_sum_fails(t: TableModel, memo: Memo, chain: Chain, c0: nat, c1: nat, r0: nat, r1: nat, c: nat, w: nat)
    requires
        c0 <= c < c1,
        r0 <= w < r1,
        cell_fails(t, chain, c, w),
    ensures
        ({
            let (rs, m) = eval_expr(t, memo, sum_of_range(c0, c1, r0, r1), chain);
            rs.len() == 1 && rs[0] is Err
        }),
{
    let args = seq![ExprModel::Literal(TokenModel::CellRange(c0, c1, r0, r1))];
    lemma_columns_fail(t, memo, c0, c1, r0, r1, chain, c, w);
    let (vs, m1) = eval_expr(t, memo, args[0], chain);
    assert(vs == eval_columns(t, memo, c0, c1, r0, r1, chain).0);
    let k = choose|k: int| 0 <= k < vs.len() && (#[trigger] vs[k]) is Err;
    lemma_fold_fails(vs, crate::decimal::zero_model(), k);
    assert(eval_sum(t, memo, args, crate::decimal::zero_model(), chain).0 is Err);
}

/// Every value that the arguments of a sum give, one argument after the
/// other, each evaluated with the memo the previous ones left.
pub open spec fn arg_values(t: TableModel, memo: Memo, args: Seq<ExprModel>, chain: Chain) -> Seq<Outcome>
    decreases args.len(),
{
    if args.len() == 0 {
        Seq::empty()
    } else {
        let (rs, m1) = eval_expr(t, memo, args[0], chain);
        rs + arg_values(t, m1, args.subrange(1, args.len() as int), chain)
    }
}

proof fn lemma_sum_fails(t: TableModel, memo: Memo, args: Seq<ExprModel>, acc: DecimalModel, chain: Chain, k: int)
    requires
        0 <= k < arg_values(t, memo, args, chain).len(),
        arg_values(t, memo, args, chain)[k] is Err,
    ensures
        eval_sum(t, memo, args, acc, chain).0 is Err,
    decreases args.len(),
{
    let (rs, m1) = eval_expr(t, memo, args[0], chain);
    let rest = args.subrange(1, args.len() as int);
    let vals = arg_values(t, memo, args, chain);
    assert(vals == rs + arg_values(t, m1, rest, chain));
    if k < rs.len() {
        assert(rs[k] == vals[k]);
        lemma_fold_fails(rs, acc, k);
    } else if fold_values(rs, acc) is Ok {
        assert(arg_values(t, m1, rest, chain)[k - rs.len()] == vals[k]);
        lemma_sum_fails(t, m1, rest, fold_values(rs, acc)->Ok_0, chain, k - rs.len());
    }
}

/// A sum fails as a whole, with no partial result, as soon as any value
/// that its arguments give fails.
pub proof fn law_sum_fails(t: TableModel, memo: Memo, args: Seq<ExprModel>, chain: Chain, k: int)
    requires
        0 <= k < arg_values(t, memo, args, chain).len(),
        arg_values(t, memo, args, chain)[k] is Err,
    ensures
        ({
            let (rs, m) = eval_expr(
                t,
                memo,
                ExprModel::Call { callee: Box::new(ExprModel::Literal(TokenModel::Sum)), arguments: args },
                chain,
            );
            rs.len() == 1 && rs[0] is Err
        }),
{
    lemma_sum_fails(t, memo, args, crate::decimal::zero_model(), chain, k);
}

/// The values of number cells `(c, r..r1)`.
pub open spec fn column_numbers(t: TableModel, c: nat, r: nat, r1: nat) -> Seq<Outcome>
    decreases r1 - r,
{
    if r >= r1 {
        Seq::empty()
    } else {
        seq![Ok(t.slots[t.index(c, r)]->Number_0)] + column_numbers(t, c, r + 1, r1)
    }
}

/// The values of the number cells of columns `c..c1`, rows `r0..r1`, column
/// by column and top to bottom within a column.
pub open spec fn range_numbers(t: TableModel, c: nat, c1: nat, r0: nat, r1: nat) -> Seq<Outcome>
    decreases c1 - c,
{
    if c >= c1 {
        Seq::empty()
    } else {
        column_numbers(t, c, r0, r1) + range_numbers(t, c + 1, c1, r0, r1)
    }
}

/// Every cell of the rectangle is a number cell of the table, none being
/// resolved.
pub open spec fn all_numbers(t: TableModel, chain: Chain, c0: nat, c1: nat, r0: nat, r1: nat) -> bool {
    forall|c: nat, r: nat|
        c0 <= c < c1 && r0 <= r < r1 ==> t.in_bounds(c, r) && !chain.contains((c, r))
            && (#[trigger] t.slots[t.index(c, r)]) is Number
}

proof fn lemma_column_numbers(t: TableModel, memo: Memo, c: nat, r: nat, r1: nat, chain: Chain, c0: nat, c1: nat, r0: nat)
    requires
        all_numbers(t, chain, c0, c1, r0, r1),
        c0 <= c < c1,
        r0 <= r,
    ensures
        eval_rows(t, memo, c, r, r1, chain) == (column_numbers(t, c, r, r1), memo),
        column_numbers(t, c, r, r1).len() == if r <= r1 { r1 - r } else { 0 },
    decreases r1 - r,
{
    if r < r1 {
        assert(t.slots[t.index(c, r)] is Number);
        let v = t.slots[t.index(c, r)]->Number_0;
        assert(eval_cell(t, memo, c, r, chain) == (Ok::<DecimalModel, ErrorModel>(v), memo));
        lemma_column_numbers(t, memo, c, r + 1, r1, chain, c0, c1, r0);
        assert(eval_rows(t, memo, c, r, r1, chain).0 == seq![Ok::<DecimalModel, ErrorModel>(v)] + column_numbers(t, c, r + 1, r1));
    }
}

proof fn lemma_range_numbers(t: TableModel, memo: Memo, c: nat, c1: nat, r0: nat, r1: nat, chain: Chain, c0: nat)
    requires
        all_numbers(t, chain, c0, c1, r0, r1),
        c0 <= c,
        r0 <= r1,
    ensures
        eval_columns(t, memo, c, c1, r0, r1, chain) == (range_numbers(t, c, c1, r0, r1), memo),
        range_numbers(t, c, c1, r0, r1).len() == if c <= c1 { (c1 - c) * (r1 - r0) } else { 0 },
    decreases c1 - c,
{
    if c < c1 {
        lemma_column_numbers(t, memo, c, r0, r1, chain, c0, c1, r0);
        lemma_range_numbers(t, memo, c + 1, c1, r0, r1, chain, c0);
        let h: int = r1 - r0;
        let w: int = c1 - c;
        assert(w * h == h + (w - 1) * h) by (nonlinear_arith);
        assert(c1 - (c + 1) == w - 1);
        assert(column_numbers(t, c, r0, r1).len() == h);
        assert(range_numbers(t, c + 1, c1, r0, r1).len() == (w - 1) * h);
        assert(range_numbers(t, c, c1, r0, r1) == column_numbers(t, c, r0, r1) + range_numbers(t, c + 1, c1, r0, r1));
        assert(range_numbers(t, c, c1, r0, r1).len() == w * h);
    } else if c == c1 {
        assert((c1 - c) * (r1 - r0) == 0) by (nonlinear_arith)
            requires
                c == c1,
        ;
    }
}

/// A sum over a rectangle of number cells reads every cell once, column by
/// column and top to bottom within a column, one value per cell, adds the
/// values in that order, and memoizes nothing.
pub proof fn law_range_sum(t: TableModel, memo: Memo, chain: Chain, c0: nat, c1: nat, r0: nat, r1: nat)
    requires
        all_numbers(t, chain, c0, c1, r0, r1),
        c0 <= c1,
        r0 <= r1,
    ensures
        range_numbers(t, c0, c1, r0, r1).len() == (c1 - c0) * (r1 - r0),
        eval_expr(t, memo, ExprModel::Literal(TokenModel::CellRange(c0, c1, r0, r1)), chain)
            == (range_numbers(t, c0, c1, r0, r1), memo),
        eval_expr(t, memo, sum_of_range(c0, c1, r0, r1), chain)
            == (seq![fold_values(range_numbers(t, c0, c1, r0, r1), crate::decimal::zero_model())], memo),
{
    lemma_range_numbers(t, memo, c0, c1, r0, r1, chain, c0);
    let args = seq![ExprModel::Literal(TokenModel::CellRange(c0, c1, r0, r1))];
    let vs = range_numbers(t, c0, c1, r0, r1);
    assert(args.subrange(1, 1) =~= Seq::<ExprModel>::empty());
    assert(eval_expr(t, memo, args[0], chain) == (vs, memo));
    match fold_values(vs, crate::decimal::zero_model()) {
        Ok(a) => {
            assert(eval_sum(t, memo, args.subrange(1, 1), a, chain) == (Ok::<DecimalModel, ErrorModel>(a), memo));
        },
        Err(_) => {},
    }
    assert(eval_sum(t, memo, args, crate::decimal::zero_model(), chain) == (fold_values(vs, crate::decimal::zero_model()), memo));
    assert(sum_of_range(c0, c1, r0, r1) == (ExprModel::Call { callee: Box::new(ExprModel::Literal(TokenModel::Sum)), arguments: args }));
}

/// `m2` keeps every memo of `m1`.
pub open spec fn extends(m1: Memo, m2: Memo) -> bool {
    forall|k: int| #[trigger] m1.contains_key(k) ==> m2.contains_key(k) && m2[k] == m1[k]
}

proof fn lemma_extends_trans(m1: Memo, m2: Memo, m3: Memo)
    requires
        extends(m1, m2),
        extends(m2, m3),
    ensures
        extends(m1, m3),
{
    assert forall|k: int| m1.contains_key(k) implies m3.contains_key(k) && m3[k] == m1[k] by {
        assert(m2.contains_key(k));
    }
}

proof fn lemma_extends_insert(m1: Memo, m2: Memo, i: int, v: Outcome)
    requires
        extends(m1, m2),
        !m1.contains_key(i),
    ensures
        extends(m1, m2.insert(i, v)),
{
    assert forall|k: int| m1.contains_key(k) implies m2.insert(i, v).contains_key(k) && m2.insert(i, v)[k] == m1[k] by {
        assert(k != i);
    }
}

/// Evaluation only adds memos: none is dropped or changed.
pub proof fn lemma_cell_extends(t: TableModel, memo: Memo, col: nat, row: nat, chain: Chain)
    ensures
        extends(memo, eval_cell(t, memo, col, row, chain).1),
    decreases chain_room(t, chain), 0int, 0int, 0int, 0int,
{
    if !chain.contains((col, row)) && t.in_bounds(col, row) {
        let i = t.index(col, row);
        if t.slots[i] is Formula && !memo.contains_key(i) {
            crate::eval::lemma_room_shrinks(t, chain, col, row);
            let (rs, m) = eval_expr(t, memo, t.slots[i]->Formula_0, chain.push((col, row)));
            lemma_expr_extends(t, memo, t.slots[i]->Formula_0, chain.push((col, row)));
            lemma_extends_insert(memo, m, i, crate::eval::single(rs));
        }
    }
}

pub proof fn lemma_expr_extends(t: TableModel, memo: Memo, e: ExprModel, chain: Chain)
    ensures
        extends(memo, eval_expr(t, memo, e, chain).1),
    decreases chain_room(t, chain), 1int, expr_size(e), 0int, 0int,
{
    match e {
        ExprModel::Binary { left, operator, right } => {
            let (ls, m1) = eval_expr(t, memo, *left, chain);
            lemma_expr_extends(t, memo, *left, chain);
            lemma_expr_extends(t, m1, *right, chain);
            lemma_extends_trans(memo, m1, eval_expr(t, m1, *right, chain).1);
        },
        ExprModel::Grouping(inner) => {
            lemma_expr_extends(t, memo, *inner, chain);
        },
        ExprModel::Literal(tok) => match tok {
            TokenModel::CellRef(c, r) => {
                lemma_cell_extends(t, memo, c, r, chain);
            },
            TokenModel::CellRange(c0, c1, r0, r1) => {
                lemma_columns_extends(t, memo, c0, c1, r0, r1, chain);
            },
            _ => {},
        },
        ExprModel::Unary { operator, right } => {
            lemma_expr_extends(t, memo, *right, chain);
        },
        ExprModel::Call { callee, arguments } => {
            if *callee matches ExprModel::Literal(TokenModel::Sum) {
                lemma_sum_extends(t, memo, arguments, crate::decimal::zero_model(), chain);
            }
        },
    }
}

pub proof fn lemma_columns_extends(t: TableModel, memo: Memo, c: nat, c1: nat, r0: nat, r1: nat, chain: Chain)
    ensures
        extends(memo, eval_columns(t, memo, c, c1, r0, r1, chain).1),
    decreases chain_room(t, chain), 1int, 0int, c1 - c, r1 - r0 + 1,
{
    if c < c1 {
        let (a, m1) = eval_rows(t, memo, c, r0, r1, chain);
        lemma_rows_extends(t, memo, c, r0, r1, chain);
        lemma_columns_extends(t, m1, c + 1, c1, r0, r1, chain);
        lemma_extends_trans(memo, m1, eval_columns(t, m1, c + 1, c1, r0, r1, chain).1);
    }
}

pub proof fn lemma_rows_extends(t: TableModel, memo: Memo, c: nat, r: nat, r1: nat, chain: Chain)
    ensures
        extends(memo, eval_rows(t, memo, c, r, r1, chain).1),
    decreases chain_room(t, chain), 1int, 0int, 0int, r1 - r,
{
    if r < r1 {
        let (x, m1) = eval_cell(t, memo, c, r, chain);
        lemma_cell_extends(t, memo, c, r, chain);
        lemma_rows_extends(t, m1, c, r + 1, r1, chain);
        lemma_extends_trans(memo, m1, eval_rows(t, m1, c, r + 1, r1, chain).1);
    }
}

pub proof fn lemma_sum_extends(t: TableModel, memo: Memo, args: Seq<ExprModel>, acc: DecimalModel, chain: Chain)
    ensures
        extends(memo, eval_sum(t, memo, args, acc, chain).1),
    decreases chain_room(t, chain), 1int, args_size(args), 1int, 0int,
{
    if args.len() > 0 {
        lemma_size_positive(args[0]);
        let (rs, m1) = eval_expr(t, memo, args[0], chain);
        lemma_expr_extends(t, memo, args[0], chain);
        if fold_values(rs, acc) is Ok {
            let rest = args.subrange(1, args.len() as int);
            let a = fold_values(rs, acc)->Ok_0;
            lemma_sum_extends(t, m1, rest, a, chain);
            lemma_extends_trans(memo, m1, eval_sum(t, m1, rest, a, chain).1);
        }
    }
}

/// Every formula cell of columns `c..` is memoized.
pub open spec fn settled_from(t: TableModel, memo: Memo, c: nat) -> bool {
    forall|c2: nat, w: nat|
        c <= c2 < t.cols && w < t.rows && (#[trigger] t.slots[t.index(c2, w)]) is Formula ==> memo.contains_key(t.index(c2, w))
}

proof fn lemma_run_rows(t: TableModel, memo: Memo, c: nat, r: nat)
    requires
        c < t.cols,
    ensures
        extends(memo, run_rows(t, memo, c, r)),
        forall|w: nat|
            r <= w < t.rows && (#[trigger] t.slots[t.index(c, w)]) is Formula ==> run_rows(t, memo, c, r).contains_key(t.index(c, w)),
    decreases t.rows - r,
{
    if r < t.rows {
        let i = t.index(c, r);
        let m = if pending(t, memo, i) {
            eval_cell(t, memo, c, r, Seq::empty()).1
        } else {
            memo
        };
        if pending(t, memo, i) {
            lemma_cell_extends(t, memo, c, r, Seq::empty());
            crate::grid::lemma_flat_index_bound(t.rows, t.cols, c, r);
            assert(m.contains_key(i));
        }
        lemma_run_rows(t, m, c, r + 1);
        lemma_extends_trans(memo, m, run_rows(t, m, c, r + 1));
        let out = run_rows(t, m, c, r + 1);
        assert(run_rows(t, memo, c, r) == out);
        assert forall|w: nat| r <= w < t.rows && (#[trigger] t.slots[t.index(c, w)]) is Formula implies out.contains_key(t.index(c, w)) by {
            if w == r {
                if !pending(t, memo, i) {
                    assert(memo.contains_key(i));
                }
                assert(m.contains_key(i));
            }
        }
    }
}

proof fn lemma_run_columns(t: TableModel, memo: Memo, c: nat)
    ensures
        extends(memo, run_columns(t, memo, c)),
        settled_from(t, run_columns(t, memo, c), c),
    decreases t.cols - c,
{
    if c < t.cols {
        let m = run_rows(t, memo, c, 0);
        lemma_run_rows(t, memo, c, 0);
        lemma_run_columns(t, m, c + 1);
        lemma_extends_trans(memo, m, run_columns(t, m, c + 1));
        let out = run_columns(t, m, c + 1);
        assert forall|c2: nat, w: nat|
            c <= c2 < t.cols && w < t.rows && (#[trigger] t.slots[t.index(c2, w)]) is Formula implies out.contains_key(t.index(c2, w)) by {
            if c2 == c {
                assert(m.contains_key(t.index(c, w)));
            }
        }
    }
}

proof fn lemma_settled_run_rows(t: TableModel, memo: Memo, c: nat, r: nat)
    requires
        c < t.cols,
        settled_from(t, memo, c),
    ensures
        run_rows(t, memo, c, r) == memo,
    decreases t.rows - r,
{
    if r < t.rows {
        assert(!pending(t, memo, t.index(c, r)));
        lemma_settled_run_rows(t, memo, c, r + 1);
    }
}

proof fn lemma_settled_run_columns(t: TableModel, memo: Memo, c: nat)
    requires
        settled_from(t, memo, c),
    ensures
        run_columns(t, memo, c) == memo,
    decreases t.cols - c,
{
    if c < t.cols {
        lemma_settled_run_rows(t, memo, c, 0);
        lemma_settled_run_columns(t, memo, c + 1);
    }
}

/// A full pass memoizes every formula cell, so a second pass changes
/// nothing.
pub proof fn law_run_settles(t: TableModel, memo: Memo)
    ensures
        settled_from(t, run_columns(t, memo, 0), 0),
        run_columns(t, run_columns(t, memo, 0), 0) == run_columns(t, memo, 0),
{
    lemma_run_columns(t, memo, 0);
    lemma_settled_run_columns(t, run_columns(t, memo, 0), 0);
}

/// Distinct cells sit in distinct slots.
pub proof fn lemma_index_injective(t: TableModel, a: (nat, nat), b: (nat, nat))
    requires
        t.in_bounds(a.0, a.1),
        t.in_bounds(b.0, b.1),
        a != b,
    ensures
        t.index(a.0, a.1) != t.index(b.0, b.1),
{
    if a.0 < b.0 {
        assert(a.0 * t.rows + a.1 < b.0 * t.rows + b.1) by (nonlinear_arith)
            requires
                a.0 < b.0,
                a.1 < t.rows,
        ;
    } else if b.0 < a.0 {
        assert(b.0 * t.rows + b.1 < a.0 * t.rows + a.1) by (nonlinear_arith)
            requires
                b.0 < a.0,
                b.1 < t.rows,
        ;
    }
}

} // verus!
