//! Cells: reading one from its text, and how it reads back.
use crate::ast::{expr_wf, Expr};
use crate::decimal::{decimal_text, parsed_decimal, Decimal};
use crate::error::{error_text, ErrorModel, TableError, TableResult};
use crate::eval::{Outcome, SlotModel};
use crate::parser::{parse_tokens, Parser};
use crate::tokenizer::{is_numeral, lex_from, number_message, Tokenizer};
use vstd::prelude::*;
use vstd::string::*;

verus! {

/// What a cell holds.
pub enum CellKind {
    Empty,
    /// A formula and, once evaluated, its memoized outcome.
    Expr { expr: Expr, result: Option<TableResult<Decimal>> },
    Number(Decimal),
}

/// A cell: its source text and what was read from it.
pub struct Cell {
    pub source: String,
    pub kind: CellKind,
}

pub open spec fn outcome(r: TableResult<Decimal>) -> Outcome {
    match r {
        Ok(d) => Ok(d@),
        Err(e) => Err(e@),
    }
}

pub open spec fn outcomes(rs: Seq<TableResult<Decimal>>) -> Seq<Outcome> {
    Seq::new(rs.len(), |i: int| outcome(rs[i]))
}

/// A successful outcome holds a well-formed decimal.
pub open spec fn outcome_wf(r: TableResult<Decimal>) -> bool {
    r matches Ok(d) ==> d@.wf()
}

/// What a table slot stands for, memo aside.
pub open spec fn slot_model(s: TableResult<Cell>) -> SlotModel {
    match s {
        Err(e) => SlotModel::Broken(e@),
        Ok(c) => match c.kind {
            CellKind::Empty => SlotModel::Empty,
            CellKind::Number(d) => SlotModel::Number(d@),
            CellKind::Expr { expr, .. } => SlotModel::Formula(expr@),
        },
    }
}

/// The memoized outcome of a table slot.
pub open spec fn slot_memo(s: TableResult<Cell>) -> Option<Outcome> {
    match s {
        Ok(c) => match c.kind {
            CellKind::Expr { result: Some(r), .. } => Some(outcome(r)),
            _ => None,
        },
        Err(_) => None,
    }
}

/// Every decimal in the slot is well formed.
pub open spec fn slot_wf(s: TableResult<Cell>) -> bool {
    match s {
        Err(_) => true,
        Ok(c) => match c.kind {
            CellKind::Empty => true,
            CellKind::Number(d) => d@.wf(),
            CellKind::Expr { expr, result } => expr_wf(expr@) && (result matches Some(r) ==> outcome_wf(r)),
        },
    }
}

/// What a formula's text (after the `=`) reads as.
pub open spec fn read_formula(s: Seq<char>) -> Result<SlotModel, ErrorModel> {
    match parse_tokens(lex_from(s, 0)) {
        Ok(e) => Ok(SlotModel::Formula(e)),
        Err(e) => Err(e),
    }
}

/// What a cell's text reads as: nothing, a formula after `=`, or a number
/// when it starts with a numeric character.
pub open spec fn read_cell(s: Seq<char>) -> Result<SlotModel, ErrorModel> {
    if s.len() == 0 {
        Ok(SlotModel::Empty)
    } else if s[0] == '=' {
        read_formula(s.subrange(1, s.len() as int))
    } else if is_numeral(s[0]) {
        match parsed_decimal(s) {
            Some(d) => Ok(SlotModel::Number(d)),
            None => Err(ErrorModel::InvalidCell(number_message(s))),
        }
    } else {
        Err(ErrorModel::InvalidCell("Unimplemented cell kind"@))
    }
}

pub open spec fn kind_model(k: CellKind) -> SlotModel {
    match k {
        CellKind::Empty => SlotModel::Empty,
        CellKind::Number(d) => SlotModel::Number(d@),
        CellKind::Expr { expr, .. } => SlotModel::Formula(expr@),
    }
}

pub open spec fn kind_result(r: TableResult<CellKind>) -> Result<SlotModel, ErrorModel> {
    match r {
        Ok(k) => Ok(kind_model(k)),
        Err(e) => Err(e@),
    }
}

/// A kind that is freshly read: well formed and not evaluated.
pub open spec fn fresh_kind(k: CellKind) -> bool {
    match k {
        CellKind::Empty => true,
        CellKind::Number(d) => d@.wf(),
        CellKind::Expr { expr, result } => expr_wf(expr@) && result is None,
    }
}

fn parse_expr(chars: &[char]) -> (r: TableResult<CellKind>)
    ensures
        kind_result(r) == read_formula(chars@),
        r matches Ok(k) ==> fresh_kind(k),
{
    let mut tokenizer = Tokenizer::new(chars);
    let tokens = tokenizer.tokens();
    let mut parser = Parser::new(tokens);
    match parser.ast() {
        Ok(e) => Ok(CellKind::Expr { expr: e, result: None }),
        Err(e) => Err(e),
    }
}

fn parse_number(num: &str) -> (r: TableResult<CellKind>)
    ensures
        kind_result(r) == (match parsed_decimal(num@) {
            Some(d) => Ok(SlotModel::Number(d)),
            None => Err(ErrorModel::InvalidCell(number_message(num@))),
        }),
        r matches Ok(k) ==> fresh_kind(k),
{
    match Decimal::parse(num) {
        Some(d) => Ok(CellKind::Number(d)),
        None => {
            let message = String::from_str("Could not format ").concat(num).concat(" as a valid number");
            Err(TableError::InvalidCell(message))
        },
    }
}

impl Cell {
    /// Reads a cell from its text: empty text is an empty cell, text that
    /// starts with `=` a formula, text that starts with a numeric character a
    /// number; anything else cannot be read.
    pub fn new_expr(source: &str) -> (r: TableResult<Cell>)
        ensures
            match r {
                Ok(c) => read_cell(source@) == Ok::<SlotModel, ErrorModel>(kind_model(c.kind)) && c.source@ == source@
                    && fresh_kind(c.kind),
                Err(e) => read_cell(source@) == Err::<SlotModel, ErrorModel>(e@),
            },
    {
        let n = source.unicode_len();
        let mut chars: Vec<char> = Vec::new();
        let mut i: usize = 0;
        while i < n
            invariant
                i <= n,
                n == source@.len(),
                chars@ == source@.subrange(0, i as int),
            decreases n - i,
        {
            chars.push(source.get_char(i));
            i += 1;
        }
        proof {
            assert(chars@ =~= source@);
        }
        let kind = if n == 0 {
            CellKind::Empty
        } else if chars[0] == '=' {
            let mut rest: Vec<char> = Vec::new();
            let mut j: usize = 1;
            while j < n
                invariant
                    1 <= j <= n,
                    n == chars@.len(),
                    rest@ == chars@.subrange(1, j as int),
                decreases n - j,
            {
                rest.push(chars[j]);
                j += 1;
            }
            match parse_expr(rest.as_slice()) {
                Ok(k) => k,
                Err(e) => {
                    return Err(e);
                },
            }
        } else if crate::tokenizer::is_numeric(chars[0]) {
            match parse_number(source) {
                Ok(k) => k,
                Err(e) => {
                    return Err(e);
                },
            }
        } else {
            return Err(TableError::invalid_cell("Unimplemented cell kind"));
        };
        Ok(Cell { source: String::from_str(source), kind })
    }
}

/// How a cell reads: blank when empty, its value once it has one, its
/// error once evaluation failed, and its source while not evaluated.
pub open spec fn cell_text(c: Cell) -> Seq<char> {
    match c.kind {
        CellKind::Empty => " "@,
        CellKind::Number(d) => decimal_text(d@),
        CellKind::Expr { result, .. } => match result {
            None => c.source@,
            Some(Ok(d)) => decimal_text(d@),
            Some(Err(e)) => error_text(e@),
        },
    }
}

/// How a table slot reads: its cell, or the error that reading it gave.
pub open spec fn slot_text(s: TableResult<Cell>) -> Seq<char> {
    match s {
        Ok(c) => cell_text(c),
        Err(e) => error_text(e@),
    }
}

impl Cell {
    pub fn render(&self) -> (r: String)
        requires
            slot_wf(Ok(*self)),
        ensures
            r@ == cell_text(*self),
    {
        match &self.kind {
            CellKind::Empty => String::from_str(" "),
            CellKind::Number(d) => d.to_text(),
            CellKind::Expr { result, .. } => match result {
                None => self.source.clone(),
                Some(Ok(d)) => d.to_text(),
                Some(Err(e)) => e.message(),
            },
        }
    }
}

/// An independent copy of an outcome.
pub fn copy_result(r: &TableResult<Decimal>) -> (c: TableResult<Decimal>)
    ensures
        outcome(c) == outcome(*r),
        outcome_wf(*r) ==> outcome_wf(c),
{
    match r {
        Ok(d) => Ok(d.duplicate()),
        Err(e) => Err(e.duplicate()),
    }
}

} // verus!
