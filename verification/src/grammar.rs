//! The grammar of the language, as functions from a sequence of tokens
//! and a position to the syntax tree that starts there.
//!
//! A function of this module looks at the tokens from `at` on.  Where the
//! construct it describes stands there, it gives the tree and the number of
//! tokens that the construct spans.  Where it does not, it gives what was
//! expected and the token that stands there instead, with its position.
//! Behind the last token the sequence goes on with end-of-stream tokens.
//!
//! The larger functions are opaque, to keep proofs small: a proof reveals
//! the ones it reasons about.

use crate::ast::{
    ConditionalView, ExprView, FunctionView, PrototypeView, StatementView, ValueView,
};
use crate::lexer::{Operator, TokenView};
use vstd::prelude::*;

verus! {

/// The construct that a parse error misses.
#[derive(Clone, Copy, Debug, PartialEq, Eq, Structural)]
pub enum Expected {
    /// `fun`, or the end of the program.
    FunctionOrEnd,
    /// The name of a function, behind `fun`.
    FunctionName,
    /// `(`, behind the name of a function.
    ParameterListOpen,
    /// The name of a parameter, or `)`.
    ParameterName,
    /// `,` or `)`, behind the name of a parameter.
    ParameterSeparator,
    /// `{`, where a block starts.
    BlockOpen,
    /// `var`, a name, `if`, `while`, `print`, `input`, `drop` or `return`,
    /// where a statement starts.
    Statement,
    /// A variable and nothing else, left of `=`.
    AssignmentTarget,
    /// `=`, behind the target of an assignment.
    AssignmentMarker,
    /// `;`, at the end of a statement.
    Semicolon,
    /// A variable and nothing else, behind `input` or `drop`.
    Variable,
    /// A call and nothing else, where a statement starts with a name and
    /// `(`.
    CallExpression,
    /// `,` or `)`, behind an argument.
    ArgumentSeparator,
    /// `)`, behind an expression in parentheses.
    ClosingParen,
    /// A name, a number or `(`, where an operand starts.
    Operand,
}

/// A parse error: what was expected, and the token that stands there,
/// with its position.
pub struct Failure {
    pub expected: Expected,
    pub at: nat,
    pub found: TokenView,
}

/// A tree and the number of tokens that it spans.
pub struct Parsed<T> {
    pub node: T,
    pub len: nat,
}

/// The token at position `at`; behind the last token, end-of-stream.
pub open spec fn token_at(tokens: Seq<TokenView>, at: nat) -> TokenView {
    if at < tokens.len() {
        tokens[at as int]
    } else {
        TokenView::EndOfFile
    }
}

/// The error that `expected` is missing at position `at`.
pub open spec fn failure(tokens: Seq<TokenView>, expected: Expected, at: nat) -> Failure {
    Failure { expected, at, found: token_at(tokens, at) }
}

/// How tightly an operator binds, in five bands: logical, comparison,
/// bitwise, additive, multiplicative.
pub open spec fn priority(op: Operator) -> nat {
    match op {
        Operator::And | Operator::Or | Operator::Xor => 10,
        Operator::LEq | Operator::Ls | Operator::GEq | Operator::Gr | Operator::Eq => 20,
        Operator::BAnd | Operator::BOr | Operator::BXor => 30,
        Operator::Add | Operator::Sub => 40,
        Operator::Mult | Operator::Div => 50,
    }
}

/// The tokens that are left from `at` on.
pub open spec fn left(tokens: Seq<TokenView>, at: nat) -> nat {
    if at < tokens.len() {
        (tokens.len() - at) as nat
    } else {
        0
    }
}

/// A program: function definitions, one after the other, up to the end of
/// the stream.
pub open spec fn parse_program(tokens: Seq<TokenView>, at: nat) -> Result<
    Parsed<Seq<FunctionView>>,
    Failure,
>
    decreases left(tokens, at),
    via parse_program_terminates
{
    match token_at(tokens, at) {
        TokenView::Fun => match parse_function(tokens, at) {
            Err(f) => Err(f),
            Ok(first) => match parse_program(tokens, at + first.len) {
                Err(f) => Err(f),
                Ok(rest) => Ok(
                    Parsed { node: seq![first.node] + rest.node, len: first.len + rest.len },
                ),
            },
        },
        TokenView::EndOfFile => Ok(Parsed { node: Seq::empty(), len: 0 }),
        _ => Err(failure(tokens, Expected::FunctionOrEnd, at)),
    }
}

#[via_fn]
proof fn parse_program_terminates(tokens: Seq<TokenView>, at: nat) {
    lemma_function_spans(tokens, at);
}

/// A function definition spans at least one token.
pub proof fn lemma_function_spans(tokens: Seq<TokenView>, at: nat)
    ensures
        parse_function(tokens, at) matches Ok(f) ==> f.len >= 1 && at < tokens.len(),
{
    reveal(parse_function);
    reveal(parse_proto);
}

/// A program ends where the stream ends: behind its last function stands
/// the end-of-stream token.
pub proof fn law_program_ends_the_stream(tokens: Seq<TokenView>, at: nat)
    requires
        parse_program(tokens, at) is Ok,
    ensures
        token_at(tokens, at + parse_program(tokens, at)->Ok_0.len) is EndOfFile,
    decreases left(tokens, at),
{
    if token_at(tokens, at) is Fun {
        lemma_function_spans(tokens, at);
        let first = parse_function(tokens, at)->Ok_0;
        law_program_ends_the_stream(tokens, at + first.len);
    }
}

/// A function definition: `fun`, a name, the parameters in parentheses,
/// and a block.
#[verifier::opaque]
pub open spec fn parse_function(tokens: Seq<TokenView>, at: nat) -> Result<
    Parsed<FunctionView>,
    Failure,
> {
    match parse_proto(tokens, at) {
        Err(f) => Err(f),
        Ok(proto) => match parse_block(tokens, at + proto.len) {
            Err(f) => Err(f),
            Ok(body) => Ok(
                Parsed {
                    node: FunctionView {
                        name: proto.node.name,
                        params: proto.node.params,
                        body: body.node,
                    },
                    len: proto.len + body.len,
                },
            ),
        },
    }
}

/// The head of a function definition: `fun`, a name, `(`, and the
/// parameters up to `)`.
#[verifier::opaque]
pub open spec fn parse_proto(tokens: Seq<TokenView>, at: nat) -> Result<
    Parsed<PrototypeView>,
    Failure,
> {
    match token_at(tokens, at) {
        TokenView::Fun => match token_at(tokens, at + 1) {
            TokenView::Identifier(name) => match token_at(tokens, at + 2) {
                TokenView::LeftParen => match parse_params(tokens, at + 3) {
                    Err(f) => Err(f),
                    Ok(params) => Ok(
                        Parsed {
                            node: PrototypeView { name, params: params.node },
                            len: 3 + params.len,
                        },
                    ),
                },
                _ => Err(failure(tokens, Expected::ParameterListOpen, at + 2)),
            },
            _ => Err(failure(tokens, Expected::FunctionName, at + 1)),
        },
        _ => Err(failure(tokens, Expected::FunctionOrEnd, at)),
    }
}

/// The parameters of a function up to and including `)`: names, each
/// followed by `,` or by the closing `)`.
pub open spec fn parse_params(tokens: Seq<TokenView>, at: nat) -> Result<
    Parsed<Seq<Seq<char>>>,
    Failure,
>
    decreases left(tokens, at),
{
    match token_at(tokens, at) {
        TokenView::RightParen => Ok(Parsed { node: Seq::empty(), len: 1 }),
        TokenView::Identifier(name) => match token_at(tokens, at + 1) {
            TokenView::RightParen => Ok(Parsed { node: seq![name], len: 2 }),
            TokenView::Comma => match parse_params(tokens, at + 2) {
                Err(f) => Err(f),
                Ok(rest) => Ok(Parsed { node: seq![name] + rest.node, len: 2 + rest.len }),
            },
            _ => Err(failure(tokens, Expected::ParameterSeparator, at + 1)),
        },
        _ => Err(failure(tokens, Expected::ParameterName, at)),
    }
}

/// A block: `{`, statements, `}`.
pub open spec fn parse_block(tokens: Seq<TokenView>, at: nat) -> Result<
    Parsed<Seq<StatementView>>,
    Failure,
>
    decreases left(tokens, at), 0nat,
{
    match token_at(tokens, at) {
        TokenView::LeftCurly => match parse_statements(tokens, at + 1) {
            Err(f) => Err(f),
            Ok(body) => Ok(Parsed { node: body.node, len: 1 + body.len }),
        },
        _ => Err(failure(tokens, Expected::BlockOpen, at)),
    }
}

/// The statements of a block up to and including its `}`.
///
/// A statement takes at least one token of the sequence
/// ([`lemma_statement_spans`]); the function says so where it goes on
/// behind one, which is what shows that it ends.
pub open spec fn parse_statements(tokens: Seq<TokenView>, at: nat) -> Result<
    Parsed<Seq<StatementView>>,
    Failure,
>
    decreases left(tokens, at), 5nat,
{
    match token_at(tokens, at) {
        TokenView::RightCurly => Ok(Parsed { node: Seq::empty(), len: 1 }),
        _ => match parse_statement(tokens, at) {
            Err(f) => Err(f),
            Ok(first) => if left(tokens, at + first.len) < left(tokens, at) {
                match parse_statements(tokens, at + first.len) {
                    Err(f) => Err(f),
                    Ok(rest) => Ok(
                        Parsed { node: seq![first.node] + rest.node, len: first.len + rest.len },
                    ),
                }
            } else {
                Err(failure(tokens, Expected::Statement, at))
            },
        },
    }
}

/// An operand spans at least one token, and so does an expression; both
/// start inside the sequence.
pub proof fn lemma_operand_spans(tokens: Seq<TokenView>, at: nat)
    ensures
        parse_primary(tokens, at) matches Ok(p) ==> p.len >= 1 && at < tokens.len(),
        parse_expr(tokens, at) matches Ok(p) ==> p.len >= 1 && at < tokens.len(),
{
    reveal(parse_expr);
    reveal(parse_primary);
    reveal(parse_ident);
    reveal(parse_paren);
}

/// A statement spans at least one token and starts inside the sequence,
/// so fewer tokens are left behind it than at its start.
pub proof fn lemma_statement_spans(tokens: Seq<TokenView>, at: nat)
    ensures
        parse_statement(tokens, at) matches Ok(s) ==> left(tokens, at + s.len) < left(tokens, at),
{
    reveal(parse_assignment);
    reveal(parse_call);
    reveal(parse_builtin);
    lemma_operand_spans(tokens, at);
}

/// A statement, told by its first token: `var` starts a declaration; a
/// name starts a call where `(` follows it, an assignment otherwise; `if`
/// and `while` start a block; `print`, `input`, `drop` and `return` start a
/// built-in.
pub open spec fn parse_statement(tokens: Seq<TokenView>, at: nat) -> Result<
    Parsed<StatementView>,
    Failure,
>
    decreases left(tokens, at), 4nat,
{
    match token_at(tokens, at) {
        TokenView::Var => parse_assignment(tokens, at),
        TokenView::Identifier(_) => match token_at(tokens, at + 1) {
            TokenView::LeftParen => parse_call(tokens, at),
            _ => parse_assignment(tokens, at),
        },
        TokenView::If => match parse_conditional(tokens, at) {
            Err(f) => Err(f),
            Ok(block) => Ok(
                Parsed {
                    node: StatementView::If {
                        conditional: block.node.conditional,
                        body: block.node.body,
                    },
                    len: block.len,
                },
            ),
        },
        TokenView::While => match parse_conditional(tokens, at) {
            Err(f) => Err(f),
            Ok(block) => Ok(
                Parsed {
                    node: StatementView::While {
                        conditional: block.node.conditional,
                        body: block.node.body,
                    },
                    len: block.len,
                },
            ),
        },
        TokenView::Print | TokenView::Input | TokenView::Drop | TokenView::Return => parse_builtin(
            tokens,
            at,
        ),
        _ => Err(failure(tokens, Expected::Statement, at)),
    }
}

/// An assignment: `var` or nothing, an expression that is a variable,
/// `=`, an expression, `;`.
#[verifier::opaque]
pub open spec fn parse_assignment(tokens: Seq<TokenView>, at: nat) -> Result<
    Parsed<StatementView>,
    Failure,
>
    decreases left(tokens, at), 3nat,
{
    let is_declaration = token_at(tokens, at) is Var;
    let lead: nat = if is_declaration {
        1
    } else {
        0
    };
    match parse_expr(tokens, at + lead) {
        Err(f) => Err(f),
        Ok(target) => {
            let marker = at + lead + target.len;
            if !(target.node is Variable) {
                Err(failure(tokens, Expected::AssignmentTarget, marker))
            } else if !(token_at(tokens, marker) is Assignment) {
                Err(failure(tokens, Expected::AssignmentMarker, marker))
            } else {
                match parse_expr(tokens, marker + 1) {
                    Err(f) => Err(f),
                    Ok(value) => {
                        let end = marker + 1 + value.len;
                        if token_at(tokens, end) is Semicolon {
                            Ok(
                                Parsed {
                                    node: StatementView::Assign {
                                        is_declaration,
                                        variable: target.node,
                                        right_hand: value.node,
                                    },
                                    len: lead + target.len + 1 + value.len + 1,
                                },
                            )
                        } else {
                            Err(failure(tokens, Expected::Semicolon, end))
                        }
                    },
                }
            }
        },
    }
}

/// A call used as a statement: an expression that is a call.  No `;`
/// follows it.
#[verifier::opaque]
pub open spec fn parse_call(tokens: Seq<TokenView>, at: nat) -> Result<
    Parsed<StatementView>,
    Failure,
>
    decreases left(tokens, at), 3nat,
{
    match parse_expr(tokens, at) {
        Err(f) => Err(f),
        Ok(e) => if e.node is Call {
            Ok(Parsed { node: StatementView::Call(e.node), len: e.len })
        } else {
            Err(failure(tokens, Expected::CallExpression, at + e.len))
        },
    }
}

/// `if` or `while`, an expression, and a block.
pub open spec fn parse_conditional(tokens: Seq<TokenView>, at: nat) -> Result<
    Parsed<ConditionalView>,
    Failure,
>
    decreases left(tokens, at), 3nat,
{
    match token_at(tokens, at) {
        TokenView::If | TokenView::While => match parse_expr(tokens, at + 1) {
            Err(f) => Err(f),
            Ok(cond) => match parse_block(tokens, at + 1 + cond.len) {
                Err(f) => Err(f),
                Ok(body) => Ok(
                    Parsed {
                        node: ConditionalView { conditional: cond.node, body: body.node },
                        len: 1 + cond.len + body.len,
                    },
                ),
            },
        },
        _ => Err(failure(tokens, Expected::Statement, at)),
    }
}

/// A built-in: `print`, `return`, `input` or `drop`, an expression, `;`.
/// Behind `input` and `drop` the expression is a variable.
#[verifier::opaque]
pub open spec fn parse_builtin(tokens: Seq<TokenView>, at: nat) -> Result<
    Parsed<StatementView>,
    Failure,
>
    decreases left(tokens, at), 3nat,
{
    match token_at(tokens, at) {
        TokenView::Print | TokenView::Return | TokenView::Input | TokenView::Drop => match parse_expr(
            tokens,
            at + 1,
        ) {
            Err(f) => Err(f),
            Ok(e) => {
                let end = at + 1 + e.len;
                let needs_variable = token_at(tokens, at) is Input || token_at(tokens, at) is Drop;
                if needs_variable && !(e.node is Variable) {
                    Err(failure(tokens, Expected::Variable, end))
                } else if !(token_at(tokens, end) is Semicolon) {
                    Err(failure(tokens, Expected::Semicolon, end))
                } else {
                    let node = match token_at(tokens, at) {
                        TokenView::Print => StatementView::Print(e.node),
                        TokenView::Return => StatementView::Return(e.node),
                        TokenView::Input => StatementView::Input(e.node),
                        _ => StatementView::Drop(e.node),
                    };
                    Ok(Parsed { node, len: 1 + e.len + 1 })
                }
            },
        },
        _ => Err(failure(tokens, Expected::Statement, at)),
    }
}

/// An expression: an operand and the operators and operands behind it.
#[verifier::opaque]
pub open spec fn parse_expr(tokens: Seq<TokenView>, at: nat) -> Result<Parsed<ExprView>, Failure>
    decreases left(tokens, at), 2nat,
{
    match parse_primary(tokens, at) {
        Err(f) => Err(f),
        Ok(lhs) => match parse_rhs(tokens, at + lhs.len, 0, lhs.node) {
            Err(f) => Err(f),
            Ok(whole) => Ok(Parsed { node: whole.node, len: lhs.len + whole.len }),
        },
    }
}

/// What `lhs` grows into by the operators at `at` that bind at least as
/// tightly as `min`.
///
/// An operator takes the operand behind it as its right side.  Where the
/// operator behind that operand binds more tightly, the operand first grows
/// by every operator that binds more tightly than the one at `at`.  So
/// operators of one priority group to the left, and an operator of higher
/// priority groups before one of lower priority.
#[verifier::opaque]
pub open spec fn parse_rhs(tokens: Seq<TokenView>, at: nat, min: nat, lhs: ExprView) -> Result<
    Parsed<ExprView>,
    Failure,
>
    decreases left(tokens, at), 1nat,
{
    match token_at(tokens, at) {
        TokenView::Op(op) => if priority(op) < min {
            Ok(Parsed { node: lhs, len: 0 })
        } else {
            match parse_primary(tokens, at + 1) {
                Err(f) => Err(f),
                Ok(operand) => {
                    let behind = at + 1 + operand.len;
                    let grown = match token_at(tokens, behind) {
                        TokenView::Op(next) => if priority(next) > priority(op) {
                            parse_rhs(tokens, behind, priority(op) + 1, operand.node)
                        } else {
                            Ok(Parsed { node: operand.node, len: 0 })
                        },
                        _ => Ok(Parsed { node: operand.node, len: 0 }),
                    };
                    match grown {
                        Err(f) => Err(f),
                        Ok(rhs) => {
                            let node = ExprView::BinOp(op, Box::new(lhs), Box::new(rhs.node));
                            match parse_rhs(tokens, behind + rhs.len, min, node) {
                                Err(f) => Err(f),
                                Ok(whole) => Ok(
                                    Parsed {
                                        node: whole.node,
                                        len: 1 + operand.len + rhs.len + whole.len,
                                    },
                                ),
                            }
                        },
                    }
                },
            }
        },
        _ => Ok(Parsed { node: lhs, len: 0 }),
    }
}

/// An operand: a variable or a call, a number, or an expression in
/// parentheses.
#[verifier::opaque]
pub open spec fn parse_primary(tokens: Seq<TokenView>, at: nat) -> Result<
    Parsed<ExprView>,
    Failure,
>
    decreases left(tokens, at), 1nat,
{
    match token_at(tokens, at) {
        TokenView::Identifier(_) => parse_ident(tokens, at),
        TokenView::Number(n) => Ok(Parsed { node: ExprView::Val(ValueView::Int(n)), len: 1 }),
        TokenView::LeftParen => parse_paren(tokens, at),
        _ => Err(failure(tokens, Expected::Operand, at)),
    }
}

/// A name: a call where `(` follows it, a variable otherwise.
#[verifier::opaque]
pub open spec fn parse_ident(tokens: Seq<TokenView>, at: nat) -> Result<Parsed<ExprView>, Failure>
    decreases left(tokens, at), 0nat,
{
    match token_at(tokens, at) {
        TokenView::Identifier(name) => match token_at(tokens, at + 1) {
            TokenView::LeftParen => match parse_args(tokens, at + 2) {
                Err(f) => Err(f),
                Ok(args) => Ok(Parsed { node: ExprView::Call(name, args.node), len: 2 + args.len }),
            },
            _ => Ok(Parsed { node: ExprView::Variable(name), len: 1 }),
        },
        _ => Err(failure(tokens, Expected::Operand, at)),
    }
}

/// The arguments of a call up to and including `)`: one expression or
/// more, with `,` between them.
#[verifier::opaque]
pub open spec fn parse_args(tokens: Seq<TokenView>, at: nat) -> Result<
    Parsed<Seq<ExprView>>,
    Failure,
>
    decreases left(tokens, at), 3nat,
{
    match parse_expr(tokens, at) {
        Err(f) => Err(f),
        Ok(first) => match token_at(tokens, at + first.len) {
            TokenView::RightParen => Ok(Parsed { node: seq![first.node], len: first.len + 1 }),
            TokenView::Comma => match parse_args(tokens, at + first.len + 1) {
                Err(f) => Err(f),
                Ok(rest) => Ok(
                    Parsed { node: seq![first.node] + rest.node, len: first.len + 1 + rest.len },
                ),
            },
            _ => Err(failure(tokens, Expected::ArgumentSeparator, at + first.len)),
        },
    }
}

/// An expression in parentheses.
#[verifier::opaque]
pub open spec fn parse_paren(tokens: Seq<TokenView>, at: nat) -> Result<Parsed<ExprView>, Failure>
    decreases left(tokens, at), 0nat,
{
    match token_at(tokens, at) {
        TokenView::LeftParen => match parse_expr(tokens, at + 1) {
            Err(f) => Err(f),
            Ok(e) => match token_at(tokens, at + 1 + e.len) {
                TokenView::RightParen => Ok(Parsed { node: e.node, len: 1 + e.len + 1 }),
                _ => Err(failure(tokens, Expected::ClosingParen, at + 1 + e.len)),
            },
        },
        _ => Err(failure(tokens, Expected::Operand, at)),
    }
}

} // verus!
