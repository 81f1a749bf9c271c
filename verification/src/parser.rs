//! The parser: recursive descent for statements, precedence climbing for
//! expressions.
//!
//! Every function here computes what [`crate::grammar`] defines for the
//! tokens at the parser's position, and leaves the parser behind what it
//! parsed, or at the token that it could not accept.

use crate::ast::{
    expr_views, function_views, lemma_binop_view, lemma_call_view, name_views, statement_views,
    Assignment, BuiltIn, ExprAST, ExprView, FunctionAST, FunctionView, IfBlock, PrototypeAST,
    Statement, StatementView, Value, WhileBlock,
};
use crate::grammar;
use crate::grammar::{
    left, lemma_function_spans, lemma_operand_spans, lemma_statement_spans, priority, token_at,
    failure, Expected, Failure, Parsed,
};
use crate::lexer::{token_views, Operator, Token, TokenView};
use vstd::prelude::*;

verus! {

/// A parse error: what was expected, and the token that stands there,
/// with its position.  Positions count from the parser's first token;
/// behind the last token stands end-of-stream.
#[derive(Clone, Debug, PartialEq, Eq)]
pub struct ParseError {
    pub expected: Expected,
    pub at: usize,
    pub found: Token,
}

impl View for ParseError {
    type V = Failure;

    open spec fn view(&self) -> Failure {
        Failure { expected: self.expected, at: self.at as nat, found: self.found@ }
    }
}

/// What a parser call returns, as a mathematical value.
pub open spec fn view_result<T: View>(r: Result<T, ParseError>) -> Result<T::V, Failure> {
    match r {
        Ok(node) => Ok(node@),
        Err(e) => Err(e@),
    }
}

/// What parsing a list of names returns, as a mathematical value.
pub open spec fn names_result(r: Result<Vec<String>, ParseError>) -> Result<
    Seq<Seq<char>>,
    Failure,
> {
    match r {
        Ok(names) => Ok(name_views(&names)),
        Err(e) => Err(e@),
    }
}

/// What parsing a list of expressions returns, as a mathematical value.
pub open spec fn exprs_result(r: Result<Vec<ExprAST>, ParseError>) -> Result<
    Seq<ExprView>,
    Failure,
> {
    match r {
        Ok(exprs) => Ok(expr_views(&exprs)),
        Err(e) => Err(e@),
    }
}

/// What parsing a list of statements returns, as a mathematical value.
pub open spec fn statements_result(r: Result<Vec<Statement>, ParseError>) -> Result<
    Seq<StatementView>,
    Failure,
> {
    match r {
        Ok(statements) => Ok(statement_views(&statements)),
        Err(e) => Err(e@),
    }
}

/// What parsing a program returns, as a mathematical value.
pub open spec fn functions_result(r: Result<Vec<FunctionAST>, ParseError>) -> Result<
    Seq<FunctionView>,
    Failure,
> {
    match r {
        Ok(functions) => Ok(function_views(&functions)),
        Err(e) => Err(e@),
    }
}

/// Whether a parser that started at `start`, returned `got` and stands at
/// `end` did what the grammar says: it returned the tree and stands behind
/// it, or it returned the error and stands where the error is.
pub open spec fn agrees<V>(
    got: Result<V, Failure>,
    end: nat,
    expected: Result<Parsed<V>, Failure>,
    start: nat,
) -> bool {
    match expected {
        Ok(p) => got == Ok::<V, Failure>(p.node) && end == start + p.len,
        Err(f) => got == Err::<V, Failure>(f) && end == f.at,
    }
}

/// A parse of the tokens from `at` on, as seen from `start`: the same tree
/// or error, with the tokens between the two positions counted in.
pub open spec fn seen_from<V>(later: Result<Parsed<V>, Failure>, start: nat, at: nat) -> Result<
    Parsed<V>,
    Failure,
> {
    match later {
        Ok(p) => Ok(Parsed { node: p.node, len: (at - start + p.len) as nat }),
        Err(f) => Err(f),
    }
}

/// A parse of a list from `at` on, as seen from `start`, where the items
/// of `front` stand between the two positions.
pub open spec fn continued<V>(
    front: Seq<V>,
    later: Result<Parsed<Seq<V>>, Failure>,
    start: nat,
    at: nat,
) -> Result<Parsed<Seq<V>>, Failure> {
    match later {
        Ok(p) => Ok(Parsed { node: front + p.node, len: (at - start + p.len) as nat }),
        Err(f) => Err(f),
    }
}

/// How tightly an operator binds.
pub fn get_priority(operator: &Operator) -> (p: u32)
    ensures
        p == priority(*operator),
{
    match operator {
        Operator::And | Operator::Or | Operator::Xor => 10,
        Operator::LEq | Operator::Ls | Operator::GEq | Operator::Gr | Operator::Eq => 20,
        Operator::BAnd | Operator::BOr | Operator::BXor => 30,
        Operator::Add | Operator::Sub => 40,
        Operator::Mult | Operator::Div => 50,
    }
}

/// The mathematical value of the token that a parser looks at; where no
/// token is left, end-of-stream.
pub open spec fn seen(token: Option<&Token>) -> TokenView {
    match token {
        Some(t) => t@,
        None => TokenView::EndOfFile,
    }
}

/// The parser: the tokens of a program and a position in them.
pub struct ParsingMachine {
    tokens: Vec<Token>,
    pos: usize,
}

impl ParsingMachine {
    /// The tokens that the parser works on.
    pub closed spec fn stream(&self) -> Seq<TokenView> {
        token_views(&self.tokens)
    }

    /// The position of the token that the parser looks at.
    pub closed spec fn position(&self) -> nat {
        self.pos as nat
    }

    /// The position is inside the tokens or right behind them.
    pub closed spec fn wf(&self) -> bool {
        self.pos <= self.tokens.len()
    }

    /// The number of tokens from the position on.
    pub open spec fn remaining(&self) -> nat {
        left(self.stream(), self.position())
    }

    /// A parser that looks at `cur_tok`, with `tok_iter` behind it.
    pub fn new(cur_tok: Token, tok_iter: Vec<Token>) -> (machine: Self)
        ensures
            machine.wf(),
            machine.position() == 0,
            machine.stream() == seq![cur_tok@] + token_views(&tok_iter),
    {
        let mut tokens: Vec<Token> = Vec::new();
        let mut rest = tok_iter;
        tokens.push(cur_tok);
        tokens.append(&mut rest);
        let machine = ParsingMachine { tokens, pos: 0 };
        proof {
            assert(machine.stream() =~= seq![cur_tok@] + token_views(&tok_iter));
        }
        machine
    }

    /// The token under the position, if one is left.
    fn cur(&self) -> (r: Option<&Token>)
        requires
            self.wf(),
        ensures
            seen(r) == token_at(self.stream(), self.position()),
            r is Some <==> self.position() < self.stream().len(),
    {
        if self.pos < self.tokens.len() {
            Some(&self.tokens[self.pos])
        } else {
            None
        }
    }

    /// The token behind the one under the position, if there is one.
    fn peek(&self) -> (r: Option<&Token>)
        requires
            self.wf(),
            self.position() < self.stream().len(),
        ensures
            seen(r) == token_at(self.stream(), self.position() + 1),
    {
        if self.pos + 1 < self.tokens.len() {
            Some(&self.tokens[self.pos + 1])
        } else {
            None
        }
    }

    /// The error that `expected` is missing at the position.
    fn fail(&self, expected: Expected) -> (e: ParseError)
        requires
            self.wf(),
        ensures
            e@ == failure(self.stream(), expected, self.position()),
    {
        let found = match self.cur() {
            Some(token) => token.clone(),
            None => Token::EndOfFile,
        };
        ParseError { expected, at: self.pos, found }
    }

    /// Moves on to the next token.
    fn eat_tok(&mut self)
        requires
            old(self).wf(),
            old(self).position() < old(self).stream().len(),
        ensures
            final(self).wf(),
            final(self).stream() == old(self).stream(),
            final(self).position() == old(self).position() + 1,
    {
        self.pos = self.pos + 1;
    }

    /// Parses a program: every function definition up to the end of the
    /// stream.
    pub fn activate_parsing_machine(&mut self) -> (r: Result<Vec<FunctionAST>, ParseError>)
        requires
            old(self).wf(),
        ensures
            final(self).wf(),
            final(self).stream() == old(self).stream(),
            agrees(
                functions_result(r),
                final(self).position(),
                grammar::parse_program(old(self).stream(), old(self).position()),
                old(self).position(),
            ),
    {
        let mut ansvec: Vec<FunctionAST> = Vec::new();
        let ghost start = self.position();
        let ghost tokens = self.stream();
        proof {
            assert(function_views(&ansvec) =~= Seq::<FunctionView>::empty());
            let whole = grammar::parse_program(tokens, start);
            match whole {
                Ok(p) => {
                    assert(function_views(&ansvec) + p.node =~= p.node);
                },
                Err(_) => {},
            }
        }
        loop
            invariant
                self.wf(),
                self.stream() == tokens,
                start <= self.position(),
                tokens == old(self).stream(),
                start == old(self).position(),
                grammar::parse_program(tokens, start) == continued(
                    function_views(&ansvec),
                    grammar::parse_program(tokens, self.position()),
                    start,
                    self.position(),
                ),
            decreases self.remaining(),
        {
            let ghost at = self.position();
            let ghost front = function_views(&ansvec);
            match self.cur() {
                Some(Token::Fun) => {
                    let fun = match self.parse_function() {
                        Err(e) => {
                            return Err(e);
                        },
                        Ok(fun) => fun,
                    };
                    proof {
                        lemma_function_spans(tokens, at);
                        let rest = grammar::parse_program(tokens, self.position());
                        match rest {
                            Ok(p) => {
                                assert(front + (seq![fun@] + p.node) =~= front.push(fun@) + p.node);
                            },
                            Err(_) => {},
                        }
                    }
                    ansvec.push(fun);
                    proof {
                        assert(function_views(&ansvec) =~= front.push(fun@));
                    }
                },
                Some(Token::EndOfFile) | None => {
                    proof {
                        assert(front + Seq::<FunctionView>::empty() =~= front);
                    }
                    return Ok(ansvec);
                },
                _ => {
                    return Err(self.fail(Expected::FunctionOrEnd));
                },
            }
        }
    }

    /// Parses a function definition.
    fn parse_function(&mut self) -> (r: Result<FunctionAST, ParseError>)
        requires
            old(self).wf(),
        ensures
            final(self).wf(),
            final(self).stream() == old(self).stream(),
            agrees(
                view_result(r),
                final(self).position(),
                grammar::parse_function(old(self).stream(), old(self).position()),
                old(self).position(),
            ),
    {
        proof {
            reveal(grammar::parse_function);
        }
        let proto = self.parse_proto()?;
        let body = self.collect_statements()?;
        Ok(FunctionAST::new(proto, body))
    }

    /// Parses the head of a function definition.
    fn parse_proto(&mut self) -> (r: Result<PrototypeAST, ParseError>)
        requires
            old(self).wf(),
        ensures
            final(self).wf(),
            final(self).stream() == old(self).stream(),
            agrees(
                view_result(r),
                final(self).position(),
                grammar::parse_proto(old(self).stream(), old(self).position()),
                old(self).position(),
            ),
    {
        proof {
            reveal(grammar::parse_proto);
        }
        let Some(Token::Fun) = self.cur() else {
            return Err(self.fail(Expected::FunctionOrEnd));
        };
        self.eat_tok();
        let name = match self.cur() {
            Some(Token::Identifier(name)) => name.clone(),
            _ => {
                return Err(self.fail(Expected::FunctionName));
            },
        };
        self.eat_tok();
        let Some(Token::LeftParen) = self.cur() else {
            return Err(self.fail(Expected::ParameterListOpen));
        };
        self.eat_tok();
        let args = self.parse_params()?;
        Ok(PrototypeAST::new(name, args))
    }

    /// Parses the parameters of a function, up to and including `)`.
    fn parse_params(&mut self) -> (r: Result<Vec<String>, ParseError>)
        requires
            old(self).wf(),
        ensures
            final(self).wf(),
            final(self).stream() == old(self).stream(),
            agrees(
                names_result(r),
                final(self).position(),
                grammar::parse_params(old(self).stream(), old(self).position()),
                old(self).position(),
            ),
    {
        let mut args: Vec<String> = Vec::new();
        let ghost start = self.position();
        let ghost tokens = self.stream();
        proof {
            assert(name_views(&args) =~= Seq::<Seq<char>>::empty());
            match grammar::parse_params(tokens, start) {
                Ok(p) => {
                    assert(name_views(&args) + p.node =~= p.node);
                },
                Err(_) => {},
            }
        }
        loop
            invariant
                self.wf(),
                self.stream() == tokens,
                start <= self.position(),
                tokens == old(self).stream(),
                start == old(self).position(),
                grammar::parse_params(tokens, start) == continued(
                    name_views(&args),
                    grammar::parse_params(tokens, self.position()),
                    start,
                    self.position(),
                ),
            decreases self.remaining(),
        {
            let ghost front = name_views(&args);
            match self.cur() {
                Some(Token::RightParen) => {
                    self.eat_tok();
                    proof {
                        assert(front + Seq::<Seq<char>>::empty() =~= front);
                    }
                    return Ok(args);
                },
                Some(Token::Identifier(arg_name)) => {
                    let arg_name = arg_name.clone();
                    self.eat_tok();
                    args.push(arg_name);
                    proof {
                        assert(name_views(&args) =~= front.push(arg_name@));
                        assert(front + seq![arg_name@] =~= front.push(arg_name@));
                    }
                    match self.cur() {
                        Some(Token::Comma) => {
                            self.eat_tok();
                            proof {
                                match grammar::parse_params(tokens, self.position()) {
                                    Ok(p) => {
                                        assert(front + (seq![arg_name@] + p.node) =~= front.push(
                                            arg_name@,
                                        ) + p.node);
                                    },
                                    Err(_) => {},
                                }
                            }
                        },
                        Some(Token::RightParen) => {
                            self.eat_tok();
                            return Ok(args);
                        },
                        _ => {
                            return Err(self.fail(Expected::ParameterSeparator));
                        },
                    }
                },
                _ => {
                    return Err(self.fail(Expected::ParameterName));
                },
            }
        }
    }

    /// Parses a statement.
    fn parse_statement(&mut self) -> (r: Result<Statement, ParseError>)
        requires
            old(self).wf(),
        ensures
            final(self).wf(),
            final(self).stream() == old(self).stream(),
            agrees(
                view_result(r),
                final(self).position(),
                grammar::parse_statement(old(self).stream(), old(self).position()),
                old(self).position(),
            ),
        decreases old(self).remaining(), 4nat,
    {
        match self.cur() {
            Some(Token::Var) => Ok(Statement::Assign(self.parse_assignment()?)),
            Some(Token::Identifier(_)) => match self.peek() {
                Some(Token::LeftParen) => self.parse_call(),
                _ => Ok(Statement::Assign(self.parse_assignment()?)),
            },
            Some(Token::If) => Ok(Statement::If(self.parse_ifblock()?)),
            Some(Token::While) => Ok(Statement::While(self.parse_whileblock()?)),
            Some(Token::Print) | Some(Token::Input) | Some(Token::Drop) | Some(Token::Return) => {
                Ok(Statement::Built(self.parse_builtin()?))
            },
            _ => Err(self.fail(Expected::Statement)),
        }
    }

    /// Parses a block: `{`, statements, `}`.
    fn collect_statements(&mut self) -> (r: Result<Vec<Statement>, ParseError>)
        requires
            old(self).wf(),
        ensures
            final(self).wf(),
            final(self).stream() == old(self).stream(),
            agrees(
                statements_result(r),
                final(self).position(),
                grammar::parse_block(old(self).stream(), old(self).position()),
                old(self).position(),
            ),
        decreases old(self).remaining(), 0nat,
    {
        let Some(Token::LeftCurly) = self.cur() else {
            return Err(self.fail(Expected::BlockOpen));
        };
        self.eat_tok();
        let mut codevec: Vec<Statement> = Vec::new();
        let ghost start = self.position();
        let ghost tokens = self.stream();
        proof {
            assert(statement_views(&codevec) =~= Seq::<StatementView>::empty());
            match grammar::parse_statements(tokens, start) {
                Ok(p) => {
                    assert(statement_views(&codevec) + p.node =~= p.node);
                },
                Err(_) => {},
            }
        }
        loop
            invariant
                self.wf(),
                self.stream() == tokens,
                start <= self.position(),
                tokens == old(self).stream(),
                start == old(self).position() + 1,
                token_at(tokens, old(self).position()) is LeftCurly,
                self.remaining() < old(self).remaining(),
                grammar::parse_statements(tokens, start) == continued(
                    statement_views(&codevec),
                    grammar::parse_statements(tokens, self.position()),
                    start,
                    self.position(),
                ),
            decreases self.remaining(),
        {
            let ghost front = statement_views(&codevec);
            let ghost at = self.position();
            if let Some(Token::RightCurly) = self.cur() {
                self.eat_tok();
                proof {
                    assert(front + Seq::<StatementView>::empty() =~= front);
                }
                return Ok(codevec);
            }
            let statement = match self.parse_statement() {
                Err(e) => {
                    return Err(e);
                },
                Ok(statement) => statement,
            };
            proof {
                lemma_statement_spans(tokens, at);
                match grammar::parse_statements(tokens, self.position()) {
                    Ok(p) => {
                        assert(front + (seq![statement@] + p.node) =~= front.push(statement@)
                            + p.node);
                    },
                    Err(_) => {},
                }
            }
            codevec.push(statement);
            proof {
                assert(statement_views(&codevec) =~= front.push(statement@));
            }
        }
    }

    /// Parses `print`, `return`, `input` or `drop` with its operand.
    fn parse_builtin(&mut self) -> (r: Result<BuiltIn, ParseError>)
        requires
            old(self).wf(),
        ensures
            final(self).wf(),
            final(self).stream() == old(self).stream(),
            ({
                let got = match r {
                    Ok(built) => Ok::<StatementView, Failure>(Statement::Built(built)@),
                    Err(e) => Err::<StatementView, Failure>(e@),
                };
                agrees(
                    got,
                    final(self).position(),
                    grammar::parse_builtin(old(self).stream(), old(self).position()),
                    old(self).position(),
                )
            }),
        decreases old(self).remaining(), 3nat,
    {
        proof {
            reveal(grammar::parse_builtin);
        }
        match self.cur() {
            Some(Token::Print) => {
                self.eat_tok();
                let expr = self.parse_expr()?;
                let Some(Token::Semicolon) = self.cur() else {
                    return Err(self.fail(Expected::Semicolon));
                };
                self.eat_tok();
                Ok(BuiltIn::Print(expr))
            },
            Some(Token::Return) => {
                self.eat_tok();
                let expr = self.parse_expr()?;
                let Some(Token::Semicolon) = self.cur() else {
                    return Err(self.fail(Expected::Semicolon));
                };
                self.eat_tok();
                Ok(BuiltIn::Return(expr))
            },
            Some(Token::Input) => {
                self.eat_tok();
                let expr = self.parse_expr()?;
                let ExprAST::Variable(_) = expr else {
                    return Err(self.fail(Expected::Variable));
                };
                let Some(Token::Semicolon) = self.cur() else {
                    return Err(self.fail(Expected::Semicolon));
                };
                self.eat_tok();
                Ok(BuiltIn::Input(expr))
            },
            Some(Token::Drop) => {
                self.eat_tok();
                let expr = self.parse_expr()?;
                let ExprAST::Variable(_) = expr else {
                    return Err(self.fail(Expected::Variable));
                };
                let Some(Token::Semicolon) = self.cur() else {
                    return Err(self.fail(Expected::Semicolon));
                };
                self.eat_tok();
                Ok(BuiltIn::Drop(expr))
            },
            _ => Err(self.fail(Expected::Statement)),
        }
    }

    /// Parses `if`, the condition and the block.
    fn parse_ifblock(&mut self) -> (r: Result<IfBlock, ParseError>)
        requires
            old(self).wf(),
            token_at(old(self).stream(), old(self).position()) is If,
        ensures
            final(self).wf(),
            final(self).stream() == old(self).stream(),
            agrees(
                view_result(r),
                final(self).position(),
                grammar::parse_conditional(old(self).stream(), old(self).position()),
                old(self).position(),
            ),
        decreases old(self).remaining(), 3nat,
    {
        self.eat_tok();
        let conditional = self.parse_expr()?;
        let statements = self.collect_statements()?;
        Ok(IfBlock::new(conditional, statements))
    }

    /// Parses `while`, the condition and the block.
    fn parse_whileblock(&mut self) -> (r: Result<WhileBlock, ParseError>)
        requires
            old(self).wf(),
            token_at(old(self).stream(), old(self).position()) is While,
        ensures
            final(self).wf(),
            final(self).stream() == old(self).stream(),
            agrees(
                view_result(r),
                final(self).position(),
                grammar::parse_conditional(old(self).stream(), old(self).position()),
                old(self).position(),
            ),
        decreases old(self).remaining(), 3nat,
    {
        self.eat_tok();
        let conditional = self.parse_expr()?;
        let statements = self.collect_statements()?;
        Ok(WhileBlock::new(conditional, statements))
    }

    /// Parses a call that stands as a statement.
    fn parse_call(&mut self) -> (r: Result<Statement, ParseError>)
        requires
            old(self).wf(),
        ensures
            final(self).wf(),
            final(self).stream() == old(self).stream(),
            agrees(
                view_result(r),
                final(self).position(),
                grammar::parse_call(old(self).stream(), old(self).position()),
                old(self).position(),
            ),
        decreases old(self).remaining(), 3nat,
    {
        proof {
            reveal(grammar::parse_call);
        }
        let expr = self.parse_expr()?;
        let ExprAST::Call(_, _) = expr else {
            return Err(self.fail(Expected::CallExpression));
        };
        Ok(Statement::Call(expr))
    }

    /// Parses a declaration or a plain assignment.
    fn parse_assignment(&mut self) -> (r: Result<Assignment, ParseError>)
        requires
            old(self).wf(),
        ensures
            final(self).wf(),
            final(self).stream() == old(self).stream(),
            ({
                let got = match r {
                    Ok(a) => Ok::<StatementView, Failure>(Statement::Assign(a)@),
                    Err(e) => Err::<StatementView, Failure>(e@),
                };
                agrees(
                    got,
                    final(self).position(),
                    grammar::parse_assignment(old(self).stream(), old(self).position()),
                    old(self).position(),
                )
            }),
        decreases old(self).remaining(), 3nat,
    {
        proof {
            reveal(grammar::parse_assignment);
        }
        let is_declaration = match self.cur() {
            Some(Token::Var) => {
                self.eat_tok();
                true
            },
            _ => false,
        };
        let target = self.parse_expr()?;
        let ExprAST::Variable(_) = target else {
            return Err(self.fail(Expected::AssignmentTarget));
        };
        let Some(Token::Assignment) = self.cur() else {
            return Err(self.fail(Expected::AssignmentMarker));
        };
        self.eat_tok();
        let expr = self.parse_expr()?;
        match self.cur() {
            Some(Token::Semicolon) => {
                self.eat_tok();
                Ok(Assignment::new(is_declaration, target, expr))
            },
            _ => Err(self.fail(Expected::Semicolon)),
        }
    }

    /// Parses an expression.
    fn parse_expr(&mut self) -> (r: Result<ExprAST, ParseError>)
        requires
            old(self).wf(),
        ensures
            final(self).wf(),
            final(self).stream() == old(self).stream(),
            agrees(
                view_result(r),
                final(self).position(),
                grammar::parse_expr(old(self).stream(), old(self).position()),
                old(self).position(),
            ),
        decreases old(self).remaining(), 2nat,
    {
        proof {
            reveal(grammar::parse_expr);
            reveal(grammar::parse_primary);
            reveal(grammar::parse_rhs);
        }
        let lhs = self.parse_primary()?;
        self.parse_rhs(0, lhs)
    }

    /// Grows `lhs` by the operators that bind at least as tightly as
    /// `expr_prior`.
    fn parse_rhs(&mut self, expr_prior: u32, lhs: ExprAST) -> (r: Result<ExprAST, ParseError>)
        requires
            old(self).wf(),
        ensures
            final(self).wf(),
            final(self).stream() == old(self).stream(),
            agrees(
                view_result(r),
                final(self).position(),
                grammar::parse_rhs(
                    old(self).stream(),
                    old(self).position(),
                    expr_prior as nat,
                    lhs@,
                ),
                old(self).position(),
            ),
        decreases old(self).remaining(), 1nat,
    {
        proof {
            reveal(grammar::parse_rhs);
            reveal(grammar::parse_primary);
        }
        let ghost start = self.position();
        let ghost tokens = self.stream();
        let mut grown = lhs;
        loop
            invariant
                self.wf(),
                self.stream() == tokens,
                start <= self.position(),
                tokens == old(self).stream(),
                start == old(self).position(),
                self.remaining() <= old(self).remaining(),
                grammar::parse_rhs(tokens, start, expr_prior as nat, lhs@) == seen_from(
                    grammar::parse_rhs(tokens, self.position(), expr_prior as nat, grown@),
                    start,
                    self.position(),
                ),
            decreases self.remaining(),
        {
            proof {
                reveal(grammar::parse_rhs);
                reveal(grammar::parse_primary);
            }
            let binop = match self.cur() {
                Some(Token::Op(binop)) => *binop,
                _ => {
                    return Ok(grown);
                },
            };
            let tok_prior = get_priority(&binop);
            if tok_prior < expr_prior {
                return Ok(grown);
            }
            self.eat_tok();
            let mut rhs = match self.parse_primary() {
                Err(e) => {
                    return Err(e);
                },
                Ok(rhs) => rhs,
            };
            let higher = match self.cur() {
                Some(Token::Op(new_binop)) => get_priority(new_binop) > tok_prior,
                _ => false,
            };
            if higher {
                rhs = match self.parse_rhs(tok_prior + 1, rhs) {
                    Err(e) => {
                        return Err(e);
                    },
                    Ok(rhs) => rhs,
                };
            }
            proof {
                lemma_binop_view(binop, Box::new(grown), Box::new(rhs));
            }
            grown = ExprAST::BinOp(binop, Box::new(grown), Box::new(rhs));
        }
    }

    /// Parses a variable or a call.
    fn parse_ident(&mut self) -> (r: Result<ExprAST, ParseError>)
        requires
            old(self).wf(),
        ensures
            final(self).wf(),
            final(self).stream() == old(self).stream(),
            agrees(
                view_result(r),
                final(self).position(),
                grammar::parse_ident(old(self).stream(), old(self).position()),
                old(self).position(),
            ),
        decreases old(self).remaining(), 0nat,
    {
        proof {
            reveal(grammar::parse_ident);
            reveal(grammar::parse_args);
        }
        let ident_string = match self.cur() {
            Some(Token::Identifier(ident_string)) => ident_string.clone(),
            _ => {
                return Err(self.fail(Expected::Operand));
            },
        };
        self.eat_tok();
        if let Some(Token::LeftParen) = self.cur() {
            self.eat_tok();
            let arg_vec = self.parse_args()?;
            proof {
                lemma_call_view(ident_string, arg_vec);
            }
            return Ok(ExprAST::Call(ident_string, arg_vec));
        }
        Ok(ExprAST::Variable(ident_string))
    }

    /// Parses the arguments of a call, up to and including `)`.
    fn parse_args(&mut self) -> (r: Result<Vec<ExprAST>, ParseError>)
        requires
            old(self).wf(),
        ensures
            final(self).wf(),
            final(self).stream() == old(self).stream(),
            agrees(
                exprs_result(r),
                final(self).position(),
                grammar::parse_args(old(self).stream(), old(self).position()),
                old(self).position(),
            ),
        decreases old(self).remaining(), 3nat,
    {
        proof {
            reveal(grammar::parse_args);
            reveal(grammar::parse_expr);
        }
        let mut arg_vec: Vec<ExprAST> = Vec::new();
        let ghost start = self.position();
        let ghost tokens = self.stream();
        proof {
            assert(expr_views(&arg_vec) =~= Seq::<ExprView>::empty());
            match grammar::parse_args(tokens, start) {
                Ok(p) => {
                    assert(expr_views(&arg_vec) + p.node =~= p.node);
                },
                Err(_) => {},
            }
        }
        loop
            invariant
                self.wf(),
                self.stream() == tokens,
                start <= self.position(),
                tokens == old(self).stream(),
                start == old(self).position(),
                self.remaining() <= old(self).remaining(),
                grammar::parse_args(tokens, start) == continued(
                    expr_views(&arg_vec),
                    grammar::parse_args(tokens, self.position()),
                    start,
                    self.position(),
                ),
            decreases self.remaining(),
        {
            proof {
                reveal(grammar::parse_args);
                reveal(grammar::parse_expr);
            }
            let ghost front = expr_views(&arg_vec);
            let ghost at = self.position();
            let expr = match self.parse_expr() {
                Err(e) => {
                    return Err(e);
                },
                Ok(expr) => expr,
            };
            proof {
                lemma_operand_spans(tokens, at);
            }
            arg_vec.push(expr);
            proof {
                assert(expr_views(&arg_vec) =~= front.push(expr@));
                assert(front + seq![expr@] =~= front.push(expr@));
            }
            match self.cur() {
                Some(Token::RightParen) => {
                    self.eat_tok();
                    return Ok(arg_vec);
                },
                Some(Token::Comma) => {
                    self.eat_tok();
                    proof {
                        match grammar::parse_args(tokens, self.position()) {
                            Ok(p) => {
                                assert(front + (seq![expr@] + p.node) =~= front.push(expr@)
                                    + p.node);
                            },
                            Err(_) => {},
                        }
                    }
                },
                _ => {
                    return Err(self.fail(Expected::ArgumentSeparator));
                },
            }
        }
    }

    /// Parses a number.
    fn parse_num(&mut self) -> (r: Result<ExprAST, ParseError>)
        requires
            old(self).wf(),
            token_at(old(self).stream(), old(self).position()) is Number,
        ensures
            final(self).wf(),
            final(self).stream() == old(self).stream(),
            agrees(
                view_result(r),
                final(self).position(),
                grammar::parse_primary(old(self).stream(), old(self).position()),
                old(self).position(),
            ),
    {
        proof {
            reveal(grammar::parse_primary);
        }
        let num = match self.cur() {
            Some(Token::Number(num)) => *num,
            _ => {
                return Err(self.fail(Expected::Operand));
            },
        };
        self.eat_tok();
        Ok(ExprAST::Val(Value::Int(num)))
    }

    /// Parses an expression in parentheses.
    fn parse_paren(&mut self) -> (r: Result<ExprAST, ParseError>)
        requires
            old(self).wf(),
        ensures
            final(self).wf(),
            final(self).stream() == old(self).stream(),
            agrees(
                view_result(r),
                final(self).position(),
                grammar::parse_paren(old(self).stream(), old(self).position()),
                old(self).position(),
            ),
        decreases old(self).remaining(), 0nat,
    {
        proof {
            reveal(grammar::parse_paren);
            reveal(grammar::parse_expr);
        }
        let Some(Token::LeftParen) = self.cur() else {
            return Err(self.fail(Expected::Operand));
        };
        self.eat_tok();
        let expr = self.parse_expr()?;
        match self.cur() {
            Some(Token::RightParen) => {
                self.eat_tok();
                Ok(expr)
            },
            _ => Err(self.fail(Expected::ClosingParen)),
        }
    }

    /// Parses an operand.
    fn parse_primary(&mut self) -> (r: Result<ExprAST, ParseError>)
        requires
            old(self).wf(),
        ensures
            final(self).wf(),
            final(self).stream() == old(self).stream(),
            agrees(
                view_result(r),
                final(self).position(),
                grammar::parse_primary(old(self).stream(), old(self).position()),
                old(self).position(),
            ),
        decreases old(self).remaining(), 1nat,
    {
        proof {
            reveal(grammar::parse_primary);
            reveal(grammar::parse_ident);
            reveal(grammar::parse_paren);
        }
        match self.cur() {
            Some(Token::Identifier(_)) => self.parse_ident(),
            Some(Token::Number(_)) => self.parse_num(),
            Some(Token::LeftParen) => self.parse_paren(),
            _ => Err(self.fail(Expected::Operand)),
        }
    }
}

} // verus!
