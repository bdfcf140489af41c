//! The errors of building and evaluating a table, and how they read.
use vstd::prelude::*;
use vstd::string::*;
use crate::tokenizer::char_text;

verus! {

/// Everything that can go wrong while building or evaluating a table.
#[derive(Debug, Clone)]
pub enum TableError {
    MismatchedColumns,
    EmptyTable,
    ErrorReadingFile,
    InvalidCell(String),
    ErrorConstructingAst(String),
    RuntimeError(String),
    RecursiveCellExpr(usize, usize),
    EmptyCellEvaluation,
    MultipleCellReturn,
}

/// The mathematical model of a `TableError`: messages become character sequences.
pub enum ErrorModel {
    MismatchedColumns,
    EmptyTable,
    ErrorReadingFile,
    InvalidCell(Seq<char>),
    ErrorConstructingAst(Seq<char>),
    RuntimeError(Seq<char>),
    RecursiveCellExpr(nat, nat),
    EmptyCellEvaluation,
    MultipleCellReturn,
}

impl View for TableError {
    type V = ErrorModel;

    open spec fn view(&self) -> ErrorModel {
        match self {
            TableError::MismatchedColumns => ErrorModel::MismatchedColumns,
            TableError::EmptyTable => ErrorModel::EmptyTable,
            TableError::ErrorReadingFile => ErrorModel::ErrorReadingFile,
            TableError::InvalidCell(m) => ErrorModel::InvalidCell(m@),
            TableError::ErrorConstructingAst(m) => ErrorModel::ErrorConstructingAst(m@),
            TableError::RuntimeError(m) => ErrorModel::RuntimeError(m@),
            TableError::RecursiveCellExpr(c, r) => ErrorModel::RecursiveCellExpr(*c as nat, *r as nat),
            TableError::EmptyCellEvaluation => ErrorModel::EmptyCellEvaluation,
            TableError::MultipleCellReturn => ErrorModel::MultipleCellReturn,
        }
    }
}

pub type TableResult<T> = Result<T, TableError>;

pub open spec fn digit_char(d: nat) -> char {
    ((48 + d) as u8) as char
}

/// A number in decimal digits.
pub open spec fn nat_text(n: nat) -> Seq<char>
    decreases n,
{
    if n < 10 {
        seq![digit_char(n)]
    } else {
        nat_text(n / 10) + seq![digit_char(n % 10)]
    }
}

/// How an error reads.
pub open spec fn error_text(e: ErrorModel) -> Seq<char> {
    match e {
        ErrorModel::MismatchedColumns => "Mismatched column"@,
        ErrorModel::EmptyTable => "Empty table"@,
        ErrorModel::ErrorReadingFile => "Error reading file"@,
        ErrorModel::InvalidCell(m) => "Invalid cell: "@ + m,
        ErrorModel::ErrorConstructingAst(m) => "Error parsing AST: "@ + m,
        ErrorModel::RuntimeError(m) => "Runtime Error: "@ + m,
        ErrorModel::RecursiveCellExpr(c, r) => "Recursive Cell at: ("@ + nat_text(c) + ", "@ + nat_text(r) + ")"@,
        ErrorModel::EmptyCellEvaluation => "Error attempting to evaluate empty cell"@,
        ErrorModel::MultipleCellReturn => "Multiple cell values returned where a single was expected"@,
    }
}

/// `n` in decimal digits.
pub fn usize_text(n: usize) -> (r: String)
    ensures
        r@ == nat_text(n as nat),
    decreases n,
{
    let d = (n % 10) as u8;
    let c = (d + 48) as char;
    let mut r = if n < 10 {
        String::new()
    } else {
        usize_text(n / 10)
    };
    let one = char_text(c);
    r.append(one.as_str());
    proof {
        if n < 10 {
            assert(r@ =~= seq![c]);
        }
    }
    r
}

impl TableError {
    /// A runtime error carrying `err` as its message.
    pub fn runtime_error(err: &str) -> (r: Self)
        ensures
            r@ == ErrorModel::RuntimeError(err@),
    {
        TableError::RuntimeError(String::from_str(err))
    }

    /// A construction error for a cell whose text cannot be read.
    pub fn invalid_cell(err: &str) -> (r: Self)
        ensures
            r@ == ErrorModel::InvalidCell(err@),
    {
        TableError::InvalidCell(String::from_str(err))
    }

    /// A construction error raised by the parser.
    pub fn ast_error(err: &str) -> (r: Self)
        ensures
            r@ == ErrorModel::ErrorConstructingAst(err@),
    {
        TableError::ErrorConstructingAst(String::from_str(err))
    }

    /// How the error reads.
    pub fn message(&self) -> (r: String)
        ensures
            r@ == error_text(self@),
    {
        match self {
            TableError::MismatchedColumns => String::from_str("Mismatched column"),
            TableError::EmptyTable => String::from_str("Empty table"),
            TableError::ErrorReadingFile => String::from_str("Error reading file"),
            TableError::InvalidCell(m) => String::from_str("Invalid cell: ").concat(m.as_str()),
            TableError::ErrorConstructingAst(m) => String::from_str("Error parsing AST: ").concat(m.as_str()),
            TableError::RuntimeError(m) => String::from_str("Runtime Error: ").concat(m.as_str()),
            TableError::RecursiveCellExpr(c, r) => {
                let col = usize_text(*c);
                let row = usize_text(*r);
                String::from_str("Recursive Cell at: (").concat(col.as_str()).concat(", ").concat(row.as_str()).concat(")")
            },
            TableError::EmptyCellEvaluation => String::from_str("Error attempting to evaluate empty cell"),
            TableError::MultipleCellReturn => String::from_str(
                "Multiple cell values returned where a single was expected",
            ),
        }
    }

    /// An independent copy with the same model.
    pub fn duplicate(&self) -> (r: Self)
        ensures
            r@ == self@,
    {
        match self {
            TableError::MismatchedColumns => TableError::MismatchedColumns,
            TableError::EmptyTable => TableError::EmptyTable,
            TableError::ErrorReadingFile => TableError::ErrorReadingFile,
            TableError::InvalidCell(m) => TableError::InvalidCell(m.clone()),
            TableError::ErrorConstructingAst(m) => TableError::ErrorConstructingAst(m.clone()),
            TableError::RuntimeError(m) => TableError::RuntimeError(m.clone()),
            TableError::RecursiveCellExpr(c, r) => TableError::RecursiveCellExpr(*c, *r),
            TableError::EmptyCellEvaluation => TableError::EmptyCellEvaluation,
            TableError::MultipleCellReturn => TableError::MultipleCellReturn,
        }
    }
}

} // verus!
