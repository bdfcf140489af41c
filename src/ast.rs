//! Syntax trees of formulas.
use crate::tokenizer::{Token, TokenModel};
use vstd::prelude::*;

verus! {

/// A formula's syntax tree. Each node owns its children.
#[derive(Debug, PartialEq, Eq)]
pub enum Expr {
    Binary { left: Box<Expr>, operator: Token, right: Box<Expr> },
    Grouping(Box<Expr>),
    Literal(Token),
    Unary { operator: Token, right: Box<Expr> },
    Call { calle: Box<Expr>, arguments: Vec<Box<Expr>> },
}

/// The mathematical model of an `Expr`.
pub enum ExprModel {
    Binary { left: Box<ExprModel>, operator: TokenModel, right: Box<ExprModel> },
    Grouping(Box<ExprModel>),
    Literal(TokenModel),
    Unary { operator: TokenModel, right: Box<ExprModel> },
    Call { callee: Box<ExprModel>, arguments: Seq<ExprModel> },
}

pub open spec fn expr_model(e: &Expr) -> ExprModel
    decreases e,
{
    match e {
        Expr::Binary { left, operator, right } => ExprModel::Binary {
            left: Box::new(expr_model(left)),
            operator: operator@,
            right: Box::new(expr_model(right)),
        },
        Expr::Grouping(inner) => ExprModel::Grouping(Box::new(expr_model(inner))),
        Expr::Literal(t) => ExprModel::Literal(t@),
        Expr::Unary { operator, right } => ExprModel::Unary {
            operator: operator@,
            right: Box::new(expr_model(right)),
        },
        Expr::Call { calle, arguments } => ExprModel::Call {
            callee: Box::new(expr_model(calle)),
            arguments: Seq::new(
                arguments.len() as nat,
                |i: int|
                    if 0 <= i < arguments.len() {
                        expr_model(&arguments[i])
                    } else {
                        ExprModel::Grouping(Box::new(expr_model(calle)))
                    },
            ),
        },
    }
}

/// The models of a sequence of trees.
pub open spec fn models(s: Seq<Expr>) -> Seq<ExprModel> {
    Seq::new(s.len(), |i: int| s[i]@)
}

impl View for Expr {
    type V = ExprModel;

    open spec fn view(&self) -> ExprModel {
        expr_model(self)
    }
}

/// The number of nodes in a tree.
pub open spec fn expr_size(e: ExprModel) -> nat
    decreases e,
{
    match e {
        ExprModel::Binary { left, right, .. } => 1 + expr_size(*left) + expr_size(*right),
        ExprModel::Grouping(inner) => 1 + expr_size(*inner),
        ExprModel::Literal(_) => 1,
        ExprModel::Unary { right, .. } => 1 + expr_size(*right),
        ExprModel::Call { callee, arguments } => 1 + expr_size(*callee) + args_size(arguments),
    }
}

/// The number of nodes in a list of trees.
pub open spec fn args_size(s: Seq<ExprModel>) -> nat
    decreases s,
{
    if s.len() == 0 {
        0
    } else {
        expr_size(s[0]) + args_size(s.subrange(1, s.len() as int))
    }
}

pub proof fn lemma_size_positive(e: ExprModel)
    ensures
        expr_size(e) >= 1,
{
    match e {
        ExprModel::Call { arguments, .. } => {
            assert(args_size(arguments) >= 0);
        },
        _ => {},
    }
}

pub proof fn lemma_args_wf(s: Seq<ExprModel>, i: int)
    requires
        args_wf(s),
        0 <= i < s.len(),
    ensures
        expr_wf(s[i]),
    decreases s.len(),
{
    if i > 0 {
        let rest = s.subrange(1, s.len() as int);
        lemma_args_wf(rest, i - 1);
        assert(rest[i - 1] == s[i]);
    }
}

pub proof fn lemma_args_wf_all(s: Seq<ExprModel>)
    requires
        forall|i: int| 0 <= i < s.len() ==> expr_wf(#[trigger] s[i]),
    ensures
        args_wf(s),
    decreases s.len(),
{
    if s.len() > 0 {
        let rest = s.subrange(1, s.len() as int);
        assert forall|i: int| 0 <= i < rest.len() implies expr_wf(#[trigger] rest[i]) by {
            assert(rest[i] == s[i + 1]);
        }
        lemma_args_wf_all(rest);
    }
}

/// Every decimal literal in the tree is well formed.
pub open spec fn expr_wf(e: ExprModel) -> bool
    decreases e,
{
    match e {
        ExprModel::Binary { left, operator, right } => expr_wf(*left) && operator.wf() && expr_wf(*right),
        ExprModel::Grouping(inner) => expr_wf(*inner),
        ExprModel::Literal(t) => t.wf(),
        ExprModel::Unary { operator, right } => operator.wf() && expr_wf(*right),
        ExprModel::Call { callee, arguments } => expr_wf(*callee) && args_wf(arguments),
    }
}

pub open spec fn args_wf(s: Seq<ExprModel>) -> bool
    decreases s,
{
    if s.len() == 0 {
        true
    } else {
        expr_wf(s[0]) && args_wf(s.subrange(1, s.len() as int))
    }
}

impl Expr {
    pub fn binary(left: Expr, operator: Token, right: Expr) -> (r: Expr)
        ensures
            r@ == (ExprModel::Binary { left: Box::new(left@), operator: operator@, right: Box::new(right@) }),
    {
        Expr::Binary { left: Box::new(left), operator, right: Box::new(right) }
    }

    pub fn grouping(expr: Expr) -> (r: Expr)
        ensures
            r@ == ExprModel::Grouping(Box::new(expr@)),
    {
        Expr::Grouping(Box::new(expr))
    }

    pub fn literal(token: Token) -> (r: Expr)
        ensures
            r@ == ExprModel::Literal(token@),
    {
        Expr::Literal(token)
    }

    pub fn unary(operator: Token, right: Expr) -> (r: Expr)
        ensures
            r@ == (ExprModel::Unary { operator: operator@, right: Box::new(right@) }),
    {
        Expr::Unary { operator, right: Box::new(right) }
    }

    pub fn call(calle: Expr, arguments: Vec<Expr>) -> (r: Expr)
        ensures
            r@ == (ExprModel::Call {
                callee: Box::new(calle@),
                arguments: models(arguments@),
            }),
    {
        let mut boxed: Vec<Box<Expr>> = Vec::new();
        let mut rest = arguments;
        let ghost all = rest@;
        while rest.len() > 0
            invariant
                boxed@.len() + rest@.len() == all.len(),
                forall|i: int| 0 <= i < boxed@.len() ==> (#[trigger] boxed@[i])@ == all[i]@,
                rest@ == all.subrange(boxed@.len() as int, all.len() as int),
            decreases rest@.len(),
        {
            let a = rest.remove(0);
            boxed.push(Box::new(a));
        }
        let r = Expr::Call { calle: Box::new(calle), arguments: boxed };
        assert(r@ == (ExprModel::Call {
            callee: Box::new(calle@),
            arguments: models(all),
        })) by {
            let m = Seq::new(
                boxed.len() as nat,
                |i: int|
                    if 0 <= i < boxed.len() {
                        expr_model(&boxed[i])
                    } else {
                        ExprModel::Grouping(Box::new(expr_model(&calle)))
                    },
            );
            assert forall|i: int| 0 <= i < m.len() implies m[i] == models(all)[i] by {
                assert(boxed@[i]@ == all[i]@);
            }
            assert(m =~= models(all));
            assert(r@->Call_arguments == m);
            assert(r@->Call_callee == Box::new(calle@));
        }
        r
    }

    /// An independent copy with the same model.
    pub fn duplicate(&self) -> (r: Expr)
        ensures
            r@ == self@,
        decreases self,
    {
        match self {
            Expr::Binary { left, operator, right } => Expr::Binary {
                left: Box::new(left.duplicate()),
                operator: operator.duplicate(),
                right: Box::new(right.duplicate()),
            },
            Expr::Grouping(inner) => Expr::Grouping(Box::new(inner.duplicate())),
            Expr::Literal(t) => Expr::Literal(t.duplicate()),
            Expr::Unary { operator, right } => Expr::Unary {
                operator: operator.duplicate(),
                right: Box::new(right.duplicate()),
            },
            Expr::Call { calle, arguments } => {
                let c = calle.duplicate();
                let mut args: Vec<Box<Expr>> = Vec::new();
                let mut i: usize = 0;
                while i < arguments.len()
                    invariant
                        i <= arguments.len(),
                        self is Call,
                        self->Call_arguments == *arguments,
                        args@.len() == i,
                        forall|j: int| 0 <= j < i ==> (#[trigger] args@[j])@ == arguments@[j]@,
                    decreases arguments.len() - i,
                {
                    proof {
                        assert(decreases_to!(*self => self->Call_arguments));
                        assert(decreases_to!(*arguments => arguments[i as int]));
                    }
                    args.push(Box::new(arguments[i].duplicate()));
                    i += 1;
                }
                let r = Expr::Call { calle: Box::new(c), arguments: args };
                assert(r@ == self@) by {
                    assert(expr_model(&r)->Call_arguments =~= expr_model(self)->Call_arguments);
                }
                r
            },
        }
    }
}

impl Clone for Expr {
    fn clone(&self) -> Self {
        self.duplicate()
    }
}

} // verus!
