//! The recursive-descent parser: tokens to one syntax tree, with the
//! grammar written out as spec functions that the parser is proved against.
use crate::ast::{Expr, ExprModel};
use crate::error::{ErrorModel, TableError, TableResult};
use crate::ast::{args_wf, expr_wf, lemma_args_wf_all, models};
use crate::tokenizer::{lexed, lexed_all, stream_wf, Lexed, Token, TokenModel};
use vstd::prelude::*;

verus! {

/// A parse of part of the token sequence: the tree and the position of the
/// first token after it.
pub type Parsed = Result<(ExprModel, int), ErrorModel>;

/// The token at `p`, if it was read.
pub open spec fn current(ts: Seq<Lexed>, p: int) -> Option<TokenModel> {
    if 0 <= p < ts.len() {
        match ts[p] {
            Ok(t) => Some(t),
            Err(_) => None,
        }
    } else {
        None
    }
}

/// Moves to token `k`, failing with the lexer's error if that is what stands
/// there.
pub open spec fn load(ts: Seq<Lexed>, k: int) -> Result<int, ErrorModel> {
    if 0 <= k < ts.len() {
        match ts[k] {
            Err(e) => Err(e),
            Ok(_) => Ok(k),
        }
    } else {
        Ok(ts.len() as int)
    }
}

/// Each successful parse consumes at least one token; `progress` names that
/// fact where the parse goes on from the new position.
pub open spec fn progress(ts: Seq<Lexed>, p: int, q: int) -> bool {
    p < q <= ts.len()
}

pub open spec fn stuck() -> ErrorModel {
    ErrorModel::ErrorConstructingAst("Parser made no progress"@)
}

pub open spec fn msg_arguments() -> Seq<char> {
    "Expect ')' after arguments"@
}

pub open spec fn msg_grouping() -> Seq<char> {
    "Expected ')' after expression"@
}

pub open spec fn msg_primary() -> Seq<char> {
    "Invalid primary expression token"@
}

pub open spec fn is_term_operator(t: Option<TokenModel>) -> bool {
    t == Some(TokenModel::Plus) || t == Some(TokenModel::Minus)
}

pub open spec fn is_factor_operator(t: Option<TokenModel>) -> bool {
    t == Some(TokenModel::Star) || t == Some(TokenModel::Slash)
}

/// `expression := term`
pub open spec fn parse_expression(ts: Seq<Lexed>, p: int) -> Parsed
    decreases ts.len() - p, 9int,
{
    if p < 0 || p > ts.len() {
        Err(stuck())
    } else {
        parse_term(ts, p)
    }
}

/// `term := factor (('+' | '-') factor)*`, grouping to the left.
pub open spec fn parse_term(ts: Seq<Lexed>, p: int) -> Parsed
    decreases ts.len() - p, 8int,
{
    if p < 0 || p > ts.len() {
        Err(stuck())
    } else {
        match parse_factor(ts, p) {
            Err(e) => Err(e),
            Ok((e, q)) => if progress(ts, p, q) {
                parse_term_rest(ts, e, q)
            } else {
                Err(stuck())
            },
        }
    }
}

pub open spec fn parse_term_rest(ts: Seq<Lexed>, acc: ExprModel, p: int) -> Parsed
    decreases ts.len() - p, 8int,
{
    if p < 0 || p > ts.len() {
        Err(stuck())
    } else if is_term_operator(current(ts, p)) {
        match load(ts, p + 1) {
            Err(e) => Err(e),
            Ok(q) => match parse_factor(ts, q) {
                Err(e) => Err(e),
                Ok((r, q2)) => if progress(ts, p, q2) {
                    parse_term_rest(
                        ts,
                        ExprModel::Binary { left: Box::new(acc), operator: current(ts, p)->0, right: Box::new(r) },
                        q2,
                    )
                } else {
                    Err(stuck())
                },
            },
        }
    } else {
        Ok((acc, p))
    }
}

/// `factor := unary (('*' | '/') unary)*`, grouping to the left.
pub open spec fn parse_factor(ts: Seq<Lexed>, p: int) -> Parsed
    decreases ts.len() - p, 7int,
{
    if p < 0 || p > ts.len() {
        Err(stuck())
    } else {
        match parse_unary(ts, p) {
            Err(e) => Err(e),
            Ok((e, q)) => if progress(ts, p, q) {
                parse_factor_rest(ts, e, q)
            } else {
                Err(stuck())
            },
        }
    }
}

pub open spec fn parse_factor_rest(ts: Seq<Lexed>, acc: ExprModel, p: int) -> Parsed
    decreases ts.len() - p, 7int,
{
    if p < 0 || p > ts.len() {
        Err(stuck())
    } else if is_factor_operator(current(ts, p)) {
        match load(ts, p + 1) {
            Err(e) => Err(e),
            Ok(q) => match parse_unary(ts, q) {
                Err(e) => Err(e),
                Ok((r, q2)) => if progress(ts, p, q2) {
                    parse_factor_rest(
                        ts,
                        ExprModel::Binary { left: Box::new(acc), operator: current(ts, p)->0, right: Box::new(r) },
                        q2,
                    )
                } else {
                    Err(stuck())
                },
            },
        }
    } else {
        Ok((acc, p))
    }
}

/// `unary := '-' unary | call`
pub open spec fn parse_unary(ts: Seq<Lexed>, p: int) -> Parsed
    decreases ts.len() - p, 6int,
{
    if p < 0 || p > ts.len() {
        Err(stuck())
    } else if current(ts, p) == Some(TokenModel::Minus) {
        match load(ts, p + 1) {
            Err(e) => Err(e),
            Ok(q) => if progress(ts, p, q) {
                match parse_unary(ts, q) {
                    Err(e) => Err(e),
                    Ok((r, q2)) => Ok((ExprModel::Unary { operator: TokenModel::Minus, right: Box::new(r) }, q2)),
                }
            } else {
                Err(stuck())
            },
        }
    } else {
        parse_call(ts, p)
    }
}

/// `call := primary ('(' arguments ')')*`
pub open spec fn parse_call(ts: Seq<Lexed>, p: int) -> Parsed
    decreases ts.len() - p, 5int,
{
    if p < 0 || p > ts.len() {
        Err(stuck())
    } else {
        match parse_primary(ts, p) {
            Err(e) => Err(e),
            Ok((e, q)) => if progress(ts, p, q) {
                parse_call_rest(ts, e, q)
            } else {
                Err(stuck())
            },
        }
    }
}

pub open spec fn parse_call_rest(ts: Seq<Lexed>, callee: ExprModel, p: int) -> Parsed
    decreases ts.len() - p, 5int,
{
    if p < 0 || p > ts.len() {
        Err(stuck())
    } else if current(ts, p) == Some(TokenModel::LeftParen) {
        match load(ts, p + 1) {
            Err(e) => Err(e),
            Ok(q) => if progress(ts, p, q) {
                match parse_arguments(ts, q) {
                    Err(e) => Err(e),
                    Ok((args, q2)) => if current(ts, q2) == Some(TokenModel::RightParen) {
                        match load(ts, q2 + 1) {
                            Err(e) => Err(e),
                            Ok(q3) => if progress(ts, p, q3) {
                                parse_call_rest(ts, ExprModel::Call { callee: Box::new(callee), arguments: args }, q3)
                            } else {
                                Err(stuck())
                            },
                        }
                    } else {
                        Err(ErrorModel::ErrorConstructingAst(msg_arguments()))
                    },
                }
            } else {
                Err(stuck())
            },
        }
    } else {
        Ok((callee, p))
    }
}

/// `arguments := expression (',' expression)*`
pub open spec fn parse_arguments(ts: Seq<Lexed>, p: int) -> Result<(Seq<ExprModel>, int), ErrorModel>
    decreases ts.len() - p, 10int,
{
    if p < 0 || p > ts.len() {
        Err(stuck())
    } else {
        match parse_expression(ts, p) {
            Err(e) => Err(e),
            Ok((a, q)) => if current(ts, q) == Some(TokenModel::Comma) {
                match load(ts, q + 1) {
                    Err(e) => Err(e),
                    Ok(q2) => if progress(ts, p, q2) {
                        match parse_arguments(ts, q2) {
                            Err(e) => Err(e),
                            Ok((rest, q3)) => Ok((seq![a] + rest, q3)),
                        }
                    } else {
                        Err(stuck())
                    },
                }
            } else {
                Ok((seq![a], q))
            },
        }
    }
}

/// `primary := NUMBER | CELLREF | CELLRANGE | BUILTIN_FN | '(' expression ')'`
pub open spec fn parse_primary(ts: Seq<Lexed>, p: int) -> Parsed
    decreases ts.len() - p, 4int,
{
    if p < 0 || p > ts.len() {
        Err(stuck())
    } else {
        match current(ts, p) {
            Some(t) => if t.is_operand() {
                match load(ts, p + 1) {
                    Err(e) => Err(e),
                    Ok(q) => Ok((ExprModel::Literal(t), q)),
                }
            } else if t == TokenModel::LeftParen {
                match load(ts, p + 1) {
                    Err(e) => Err(e),
                    Ok(q) => if progress(ts, p, q) {
                        match parse_expression(ts, q) {
                            Err(e) => Err(e),
                            Ok((e, q2)) => if current(ts, q2) == Some(TokenModel::RightParen) {
                                match load(ts, q2 + 1) {
                                    Err(e) => Err(e),
                                    Ok(q3) => Ok((ExprModel::Grouping(Box::new(e)), q3)),
                                }
                            } else {
                                Err(ErrorModel::ErrorConstructingAst(msg_grouping()))
                            },
                        }
                    } else {
                        Err(stuck())
                    },
                }
            } else {
                Err(ErrorModel::ErrorConstructingAst(msg_primary()))
            },
            None => Err(ErrorModel::ErrorConstructingAst(msg_primary())),
        }
    }
}

/// The tree of a whole token sequence: the first token is read, then an
/// expression. Tokens after the expression are left unread.
pub open spec fn parse_tokens(ts: Seq<Lexed>) -> Result<ExprModel, ErrorModel> {
    match load(ts, 0) {
        Err(e) => Err(e),
        Ok(p) => match parse_expression(ts, p) {
            Err(e) => Err(e),
            Ok((e, _)) => Ok(e),
        },
    }
}

/// What a parse method's outcome says, with the position it stopped at.
pub open spec fn parse_result(r: TableResult<Expr>, pos: int) -> Parsed {
    match r {
        Ok(e) => Ok((e@, pos)),
        Err(e) => Err(e@),
    }
}

pub open spec fn tree_result(r: TableResult<Expr>) -> Result<ExprModel, ErrorModel> {
    match r {
        Ok(e) => Ok(e@),
        Err(e) => Err(e@),
    }
}

/// A recursive-descent parser over a sequence of lexed tokens, with one token
/// of lookahead: the current token is the one at `pos`.
pub struct Parser {
    tokens: Vec<TableResult<Token>>,
    pos: usize,
}

impl Parser {
    /// The token sequence.
    pub closed spec fn stream(&self) -> Seq<Lexed> {
        lexed_all(self.tokens@)
    }

    pub closed spec fn position(&self) -> int {
        self.pos as int
    }

    pub closed spec fn wf(&self) -> bool {
        self.pos <= self.tokens@.len()
    }

    pub fn new(tokens: Vec<TableResult<Token>>) -> (r: Parser)
        ensures
            r.stream() == lexed_all(tokens@),
            r.wf(),
    {
        Parser { tokens, pos: 0 }
    }

    /// Parses the whole sequence into one tree.
    pub fn ast(&mut self) -> (r: TableResult<Expr>)
        requires
            old(self).wf(),
            stream_wf(old(self).stream()),
        ensures
            tree_result(r) == parse_tokens(old(self).stream()),
            r matches Ok(e) ==> expr_wf(e@),
    {
        let ghost ts = self.stream();
        match self.load(0) {
            Err(e) => Err(e),
            Ok(()) => {
                let r = self.expression();
                proof {
                    assert(self.stream() == ts);
                }
                r
            },
        }
    }

    /// The token at the current position, if it was read.
    fn current_token(&self) -> (r: Option<&Token>)
        requires
            self.wf(),
        ensures
            match r {
                Some(t) => current(self.stream(), self.position()) == Some(t@),
                None => current(self.stream(), self.position()) is None,
            },
            stream_wf(self.stream()) ==> (r matches Some(t) ==> t@.wf()),
    {
        if self.pos < self.tokens.len() {
            proof {
                assert(self.stream()[self.pos as int] == lexed(self.tokens@[self.pos as int]));
            }
            match &self.tokens[self.pos] {
                Ok(t) => Some(t),
                Err(_) => None,
            }
        } else {
            None
        }
    }

    /// Moves to token `k`, or to the end.
    fn load(&mut self, k: usize) -> (r: TableResult<()>)
        requires
            old(self).wf(),
        ensures
            final(self).wf(),
            final(self).stream() == old(self).stream(),
            match load(old(self).stream(), k as int) {
                Err(e) => r matches Err(x) && x@ == e,
                Ok(q) => r is Ok && final(self).position() == q,
            },
    {
        if k < self.tokens.len() {
            proof {
                assert(self.stream()[k as int] == lexed(self.tokens@[k as int]));
            }
            match &self.tokens[k] {
                Err(e) => {
                    return Err(e.duplicate());
                },
                Ok(_) => {},
            }
            self.pos = k;
        } else {
            self.pos = self.tokens.len();
        }
        Ok(())
    }

    /// Moves past the current token.
    fn advance(&mut self) -> (r: TableResult<()>)
        requires
            old(self).wf(),
            old(self).position() < old(self).stream().len(),
        ensures
            final(self).wf(),
            final(self).stream() == old(self).stream(),
            match load(old(self).stream(), old(self).position() + 1) {
                Err(e) => r matches Err(x) && x@ == e,
                Ok(q) => r is Ok && final(self).position() == q,
            },
            r is Ok ==> final(self).position() == old(self).position() + 1,
    {
        let _len = self.tokens.len();
        let k = self.pos + 1;
        self.load(k)
    }

    fn expression(&mut self) -> (r: TableResult<Expr>)
        requires
            old(self).wf(),
            stream_wf(old(self).stream()),
        ensures
            final(self).wf(),
            final(self).stream() == old(self).stream(),
            parse_result(r, final(self).position()) == parse_expression(old(self).stream(), old(self).position()),
            r is Ok ==> old(self).position() < final(self).position(),
            r matches Ok(e) ==> expr_wf(e@),
        decreases old(self).stream().len() - old(self).position(), 9int,
    {
        self.term()
    }

    fn term(&mut self) -> (r: TableResult<Expr>)
        requires
            old(self).wf(),
            stream_wf(old(self).stream()),
        ensures
            final(self).wf(),
            final(self).stream() == old(self).stream(),
            parse_result(r, final(self).position()) == parse_term(old(self).stream(), old(self).position()),
            r is Ok ==> old(self).position() < final(self).position(),
            r matches Ok(e) ==> expr_wf(e@),
        decreases old(self).stream().len() - old(self).position(), 8int,
    {
        let ghost ts = self.stream();
        let ghost p0 = self.position();
        let mut expr = match self.factor() {
            Ok(e) => e,
            Err(e) => {
                return Err(e);
            },
        };
        loop
            invariant
                self.wf(),
                self.stream() == ts,
                ts == old(self).stream(),
                p0 == old(self).position(),
                p0 < self.position() <= ts.len(),
                parse_term(ts, p0) == parse_term_rest(ts, expr@, self.position()),
                stream_wf(ts),
                expr_wf(expr@),
            decreases ts.len() - self.position(),
        {
            let ghost p = self.position();
            let op = match self.current_token() {
                Some(t) => {
                    if matches!(t, Token::Plus | Token::Minus) {
                        t.duplicate()
                    } else {
                        return Ok(expr);
                    }
                },
                None => {
                    return Ok(expr);
                },
            };
            match self.advance() {
                Err(e) => {
                    return Err(e);
                },
                Ok(()) => {},
            }
            let right = match self.factor() {
                Ok(e) => e,
                Err(e) => {
                    return Err(e);
                },
            };
            expr = Expr::binary(expr, op, right);
        }
    }

    fn factor(&mut self) -> (r: TableResult<Expr>)
        requires
            old(self).wf(),
            stream_wf(old(self).stream()),
        ensures
            final(self).wf(),
            final(self).stream() == old(self).stream(),
            parse_result(r, final(self).position()) == parse_factor(old(self).stream(), old(self).position()),
            r is Ok ==> old(self).position() < final(self).position(),
            r matches Ok(e) ==> expr_wf(e@),
        decreases old(self).stream().len() - old(self).position(), 7int,
    {
        let ghost ts = self.stream();
        let ghost p0 = self.position();
        let mut expr = match self.unary() {
            Ok(e) => e,
            Err(e) => {
                return Err(e);
            },
        };
        loop
            invariant
                self.wf(),
                self.stream() == ts,
                ts == old(self).stream(),
                p0 == old(self).position(),
                p0 < self.position() <= ts.len(),
                parse_factor(ts, p0) == parse_factor_rest(ts, expr@, self.position()),
                stream_wf(ts),
                expr_wf(expr@),
            decreases ts.len() - self.position(),
        {
            let op = match self.current_token() {
                Some(t) => {
                    if matches!(t, Token::Star | Token::Slash) {
                        t.duplicate()
                    } else {
                        return Ok(expr);
                    }
                },
                None => {
                    return Ok(expr);
                },
            };
            match self.advance() {
                Err(e) => {
                    return Err(e);
                },
                Ok(()) => {},
            }
            let right = match self.unary() {
                Ok(e) => e,
                Err(e) => {
                    return Err(e);
                },
            };
            expr = Expr::binary(expr, op, right);
        }
    }

    fn unary(&mut self) -> (r: TableResult<Expr>)
        requires
            old(self).wf(),
            stream_wf(old(self).stream()),
        ensures
            final(self).wf(),
            final(self).stream() == old(self).stream(),
            parse_result(r, final(self).position()) == parse_unary(old(self).stream(), old(self).position()),
            r is Ok ==> old(self).position() < final(self).position(),
            r matches Ok(e) ==> expr_wf(e@),
        decreases old(self).stream().len() - old(self).position(), 6int,
    {
        let minus = match self.current_token() {
            Some(t) => t.is_minus(),
            None => false,
        };
        if minus {
            match self.advance() {
                Err(e) => {
                    return Err(e);
                },
                Ok(()) => {},
            }
            let right = match self.unary() {
                Ok(e) => e,
                Err(e) => {
                    return Err(e);
                },
            };
            Ok(Expr::unary(Token::Minus, right))
        } else {
            self.call()
        }
    }

    fn call(&mut self) -> (r: TableResult<Expr>)
        requires
            old(self).wf(),
            stream_wf(old(self).stream()),
        ensures
            final(self).wf(),
            final(self).stream() == old(self).stream(),
            parse_result(r, final(self).position()) == parse_call(old(self).stream(), old(self).position()),
            r is Ok ==> old(self).position() < final(self).position(),
            r matches Ok(e) ==> expr_wf(e@),
        decreases old(self).stream().len() - old(self).position(), 5int,
    {
        let ghost ts = self.stream();
        let ghost p0 = self.position();
        let mut expr = match self.primary() {
            Ok(e) => e,
            Err(e) => {
                return Err(e);
            },
        };
        loop
            invariant
                self.wf(),
                self.stream() == ts,
                ts == old(self).stream(),
                p0 == old(self).position(),
                p0 < self.position() <= ts.len(),
                parse_call(ts, p0) == parse_call_rest(ts, expr@, self.position()),
                stream_wf(ts),
                expr_wf(expr@),
            decreases ts.len() - self.position(),
        {
            let open = match self.current_token() {
                Some(t) => matches!(t, Token::LeftParen),
                None => false,
            };
            if !open {
                return Ok(expr);
            }
            match self.advance() {
                Err(e) => {
                    return Err(e);
                },
                Ok(()) => {},
            }
            expr = match self.generate_call(expr) {
                Ok(e) => e,
                Err(e) => {
                    return Err(e);
                },
            };
        }
    }

    /// The arguments of a call and its closing parenthesis, the opening one
    /// being read.
    fn generate_call(&mut self, calle: Expr) -> (r: TableResult<Expr>)
        requires
            old(self).wf(),
            stream_wf(old(self).stream()),
            expr_wf(calle@),
            0 < old(self).position(),
        ensures
            final(self).wf(),
            final(self).stream() == old(self).stream(),
            match parse_arguments(old(self).stream(), old(self).position()) {
                Err(e) => parse_result(r, final(self).position()) == Err::<(ExprModel, int), ErrorModel>(e),
                Ok((args, q2)) => if current(old(self).stream(), q2) == Some(TokenModel::RightParen) {
                    match load(old(self).stream(), q2 + 1) {
                        Err(e) => parse_result(r, final(self).position()) == Err::<(ExprModel, int), ErrorModel>(e),
                        Ok(q3) => parse_result(r, final(self).position()) == Ok::<(ExprModel, int), ErrorModel>(
                            (ExprModel::Call { callee: Box::new(calle@), arguments: args }, q3),
                        ),
                    }
                } else {
                    parse_result(r, final(self).position()) == Err::<(ExprModel, int), ErrorModel>(
                        ErrorModel::ErrorConstructingAst(msg_arguments()),
                    )
                },
            },
            r is Ok ==> old(self).position() < final(self).position(),
            r matches Ok(e) ==> expr_wf(e@),
        decreases old(self).stream().len() - old(self).position(), 11int,
    {
        let ghost ts = self.stream();
        let ghost p0 = self.position();
        let mut arguments: Vec<Expr> = Vec::new();
        proof {
            assert(parse_arguments(ts, p0) == (match parse_arguments(ts, p0) {
                Err(e) => Err(e),
                Ok((rest, q3)) => Ok((Seq::<ExprModel>::empty() + rest, q3)),
            })) by {
                match parse_arguments(ts, p0) {
                    Err(e) => {},
                    Ok((rest, q3)) => {
                        assert(Seq::<ExprModel>::empty() + rest =~= rest);
                    },
                }
            }
        }
        loop
            invariant_except_break
                parse_arguments(ts, p0) == (match parse_arguments(ts, self.position()) {
                    Err(e) => Err(e),
                    Ok((rest, q3)) => Ok((models(arguments@) + rest, q3)),
                }),
            invariant
                self.wf(),
                self.stream() == ts,
                ts == old(self).stream(),
                p0 == old(self).position(),
                p0 <= self.position() <= ts.len(),
                stream_wf(ts),
                forall|i: int| 0 <= i < arguments@.len() ==> expr_wf((#[trigger] arguments@[i])@),
            ensures
                parse_arguments(ts, p0) == Ok::<(Seq<ExprModel>, int), ErrorModel>((models(arguments@), self.position())),
                p0 < self.position(),
            decreases ts.len() - self.position(),
        {
            let ghost p = self.position();
            let a = match self.expression() {
                Ok(e) => e,
                Err(e) => {
                    return Err(e);
                },
            };
            let comma = match self.current_token() {
                Some(t) => matches!(t, Token::Comma),
                None => false,
            };
            let ghost before = arguments@;
            arguments.push(a);
            proof {
                assert(models(arguments@) =~= models(before).push(a@));
            }
            if !comma {
                proof {
                    assert(models(before) + seq![a@] =~= models(arguments@));
                }
                break;
            }
            match self.advance() {
                Err(e) => {
                    return Err(e);
                },
                Ok(()) => {},
            }
            proof {
                match parse_arguments(ts, self.position()) {
                    Err(e) => {},
                    Ok((rest, q3)) => {
                        assert(models(before) + (seq![a@] + rest) =~= models(arguments@) + rest);
                    },
                }
            }
        }
        let close = match self.current_token() {
            Some(t) => matches!(t, Token::RightParen),
            None => false,
        };
        if !close {
            return Err(TableError::ast_error("Expect ')' after arguments"));
        }
        match self.advance() {
            Err(e) => {
                return Err(e);
            },
            Ok(()) => {},
        }
        proof {
            lemma_args_wf_all(models(arguments@));
        }
        Ok(Expr::call(calle, arguments))
    }

    fn primary(&mut self) -> (r: TableResult<Expr>)
        requires
            old(self).wf(),
            stream_wf(old(self).stream()),
        ensures
            final(self).wf(),
            final(self).stream() == old(self).stream(),
            parse_result(r, final(self).position()) == parse_primary(old(self).stream(), old(self).position()),
            r is Ok ==> old(self).position() < final(self).position(),
            r matches Ok(e) ==> expr_wf(e@),
        decreases old(self).stream().len() - old(self).position(), 4int,
    {
        let (operand, open) = match self.current_token() {
            Some(t) => {
                if t.is_number() || t.is_cell_ref() || t.is_builtin_fn() || t.is_cell_range() {
                    (Some(t.duplicate()), false)
                } else {
                    (None, matches!(t, Token::LeftParen))
                }
            },
            None => (None, false),
        };
        match operand {
            Some(token) => {
                match self.advance() {
                    Err(e) => {
                        return Err(e);
                    },
                    Ok(()) => {},
                }
                Ok(Expr::literal(token))
            },
            None => {
                if !open {
                    return Err(TableError::ast_error("Invalid primary expression token"));
                }
                match self.advance() {
                    Err(e) => {
                        return Err(e);
                    },
                    Ok(()) => {},
                }
                let expr = match self.expression() {
                    Ok(e) => e,
                    Err(e) => {
                        return Err(e);
                    },
                };
                let close = match self.current_token() {
                    Some(t) => matches!(t, Token::RightParen),
                    None => false,
                };
                if !close {
                    return Err(TableError::ast_error("Expected ')' after expression"));
                }
                match self.advance() {
                    Err(e) => {
                        return Err(e);
                    },
                    Ok(()) => {},
                }
                Ok(Expr::grouping(expr))
            },
        }
    }
}

} // verus!
