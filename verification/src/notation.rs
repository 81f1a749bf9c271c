//! How syntax trees are written down as tokens, and the law that ties
//! writing to parsing: the parser reads back what was written.
//!
//! An expression is written with parentheses around every operand that is
//! itself an operation, so that its grouping does not rest on the
//! priorities of its operators.

use crate::ast::{ExprView, FunctionView, StatementView, ValueView};
use crate::grammar::{
    lemma_statement_spans, parse_args, parse_assignment, parse_builtin, parse_call, parse_expr,
    parse_function, parse_ident, parse_params, parse_paren, parse_primary, parse_program,
    parse_proto, parse_rhs, parse_statement, parse_statements, token_at, Failure, Parsed,
};
use crate::lexer::{tokenize, LexError, TokenView};
use crate::spelling::{law_spaced_round_trip, source_of, spellable};
use vstd::prelude::*;

verus! {

/// Whether an expression can be written down: its literals are integers,
/// and its calls have an argument.
pub open spec fn writable_expr(e: ExprView) -> bool
    decreases e,
{
    match e {
        ExprView::Variable(_) => true,
        ExprView::Val(v) => v is Int,
        ExprView::BinOp(_, lhs, rhs) => writable_expr(*lhs) && writable_expr(*rhs),
        ExprView::Call(_, args) => args.len() > 0 && forall|i: int|
            0 <= i < args.len() ==> writable_expr(#[trigger] args[i]),
    }
}

/// The tokens of an expression.
pub open spec fn write_expr(e: ExprView) -> Seq<TokenView>
    decreases e, 0nat,
{
    match e {
        ExprView::Variable(name) => seq![TokenView::Identifier(name)],
        ExprView::Val(ValueView::Int(n)) => seq![TokenView::Number(n)],
        ExprView::Val(ValueView::Str(_)) => Seq::empty(),
        ExprView::BinOp(op, lhs, rhs) => write_operand(*lhs) + seq![TokenView::Op(op)]
            + write_operand(*rhs),
        ExprView::Call(name, args) => seq![TokenView::Identifier(name), TokenView::LeftParen]
            + write_args(args, 0),
    }
}

/// The tokens of an operand: those of the expression, in parentheses
/// where it is an operation.
pub open spec fn write_operand(e: ExprView) -> Seq<TokenView>
    decreases e, 1nat,
{
    if e is BinOp {
        seq![TokenView::LeftParen] + write_expr(e) + seq![TokenView::RightParen]
    } else {
        write_expr(e)
    }
}

/// The tokens of the arguments from position `i` on, with `,` between
/// them and `)` behind the last.
pub open spec fn write_args(args: Seq<ExprView>, i: nat) -> Seq<TokenView>
    decreases args, args.len() - i,
{
    if i >= args.len() {
        Seq::empty()
    } else if i + 1 == args.len() {
        write_expr(args[i as int]) + seq![TokenView::RightParen]
    } else {
        write_expr(args[i as int]) + seq![TokenView::Comma] + write_args(args, i + 1)
    }
}

/// Whether the tokens from `at` on start with `written`.
pub open spec fn holds(tokens: Seq<TokenView>, at: nat, written: Seq<TokenView>) -> bool {
    &&& at + written.len() <= tokens.len()
    &&& forall|i: int| 0 <= i < written.len() ==> tokens[at + i] == #[trigger] written[i]
}

/// Whether `token` can stand behind an expression without changing how
/// the expression is read: it is neither an operator nor `(`.
pub open spec fn closes(token: TokenView) -> bool {
    !(token is Op) && !(token is LeftParen)
}

/// Tokens that start with two pieces in a row start with the first, and
/// go on with the second.
pub proof fn lemma_holds_both(
    tokens: Seq<TokenView>,
    at: nat,
    first: Seq<TokenView>,
    second: Seq<TokenView>,
)
    requires
        holds(tokens, at, first + second),
    ensures
        holds(tokens, at, first),
        holds(tokens, at + first.len(), second),
{
    let whole = first + second;
    assert forall|i: int| 0 <= i < first.len() implies tokens[at + i] == #[trigger] first[i] by {
        assert(whole[i] == first[i]);
    }
    assert forall|i: int| 0 <= i < second.len() implies tokens[at + first.len() + i]
        == #[trigger] second[i] by {
        assert(whole[first.len() + i] == second[i]);
    }
}

/// Tokens that start with one token and more have that token at their
/// start.
pub proof fn lemma_holds_first(
    tokens: Seq<TokenView>,
    at: nat,
    token: TokenView,
    more: Seq<TokenView>,
)
    requires
        holds(tokens, at, seq![token] + more),
    ensures
        token_at(tokens, at) == token,
        holds(tokens, at + 1, more),
{
    lemma_holds_both(tokens, at, seq![token], more);
    assert(seq![token][0] == token);
}

/// An operand that was written down is read back, where no `(` follows it.
pub proof fn lemma_operand_read_back(e: ExprView, tokens: Seq<TokenView>, at: nat)
    requires
        writable_expr(e),
        holds(tokens, at, write_operand(e)),
        !(token_at(tokens, at + write_operand(e).len()) is LeftParen),
    ensures
        parse_primary(tokens, at) == Ok::<Parsed<ExprView>, Failure>(
            Parsed { node: e, len: write_operand(e).len() },
        ),
    decreases e, 1nat,
{
    reveal(parse_primary);
    reveal(parse_ident);
    reveal(parse_paren);
    reveal(parse_args);
    reveal(parse_expr);
    reveal_with_fuel(write_operand, 2);
    reveal_with_fuel(write_expr, 2);
    match e {
        ExprView::Variable(name) => {
            assert(write_operand(e)[0] == TokenView::Identifier(name));
        },
        ExprView::Val(v) => {
            assert(write_operand(e)[0] == TokenView::Number(v->Int_0));
        },
        ExprView::Call(name, args) => {
            let head = seq![TokenView::Identifier(name), TokenView::LeftParen];
            lemma_holds_both(tokens, at, head, write_args(args, 0));
            assert(head[0] == TokenView::Identifier(name));
            assert(head[1] == TokenView::LeftParen);
            assert(token_at(tokens, at) == TokenView::Identifier(name));
            assert(token_at(tokens, at + 1) == TokenView::LeftParen);
            lemma_args_read_back(args, 0, tokens, at + 2);
            assert(args.skip(0) =~= args);
        },
        ExprView::BinOp(_, _, _) => {
            let inner = write_expr(e);
            assert(seq![TokenView::LeftParen] + inner + seq![TokenView::RightParen] =~= seq![
                TokenView::LeftParen,
            ] + (inner + seq![TokenView::RightParen]));
            lemma_holds_first(
                tokens,
                at,
                TokenView::LeftParen,
                inner + seq![TokenView::RightParen],
            );
            lemma_holds_both(tokens, at + 1, inner, seq![TokenView::RightParen]);
            assert(seq![TokenView::RightParen][0] == TokenView::RightParen);
            assert(token_at(tokens, at + 1 + inner.len()) == TokenView::RightParen);
            lemma_expr_read_back(e, tokens, at + 1);
        },
    }
}

/// An expression that was written down is read back, where neither an
/// operator nor `(` follows it.
pub proof fn lemma_expr_read_back(e: ExprView, tokens: Seq<TokenView>, at: nat)
    requires
        writable_expr(e),
        holds(tokens, at, write_expr(e)),
        closes(token_at(tokens, at + write_expr(e).len())),
    ensures
        parse_expr(tokens, at) == Ok::<Parsed<ExprView>, Failure>(
            Parsed { node: e, len: write_expr(e).len() },
        ),
    decreases e,
        (if e is BinOp {
            0nat
        } else {
            2nat
        }),
{
    reveal(parse_expr);
    reveal(parse_rhs);
    reveal(parse_primary);
    reveal_with_fuel(write_operand, 2);
    reveal_with_fuel(write_expr, 2);
    match e {
        ExprView::BinOp(op, lhs, rhs) => {
            let l = write_operand(*lhs);
            let r = write_operand(*rhs);
            let mark = seq![TokenView::Op(op)];
            assert(write_expr(e) =~= l + (mark + r));
            lemma_holds_both(tokens, at, l, mark + r);
            lemma_holds_first(tokens, at + l.len(), TokenView::Op(op), r);
            lemma_operand_read_back(*lhs, tokens, at);
            lemma_operand_read_back(*rhs, tokens, at + l.len() + 1);
            let behind = at + l.len() + 1 + r.len();
            assert(parse_rhs(tokens, behind, 0, e) == Ok::<Parsed<ExprView>, Failure>(
                Parsed { node: e, len: 0 },
            ));
        },
        _ => {
            lemma_operand_read_back(e, tokens, at);
        },
    }
}

/// Arguments that were written down are read back.
pub proof fn lemma_args_read_back(args: Seq<ExprView>, i: nat, tokens: Seq<TokenView>, at: nat)
    requires
        i < args.len(),
        forall|j: int| 0 <= j < args.len() ==> writable_expr(#[trigger] args[j]),
        holds(tokens, at, write_args(args, i)),
    ensures
        parse_args(tokens, at) == Ok::<Parsed<Seq<ExprView>>, Failure>(
            Parsed { node: args.skip(i as int), len: write_args(args, i).len() },
        ),
    decreases args, args.len() - i,
{
    reveal(parse_args);
    reveal(parse_expr);
    reveal_with_fuel(write_args, 2);
    let first = write_expr(args[i as int]);
    if i + 1 == args.len() {
        lemma_holds_both(tokens, at, first, seq![TokenView::RightParen]);
        assert(seq![TokenView::RightParen][0] == TokenView::RightParen);
        assert(token_at(tokens, at + first.len()) == TokenView::RightParen);
        lemma_expr_read_back(args[i as int], tokens, at);
        assert(args.skip(i as int) =~= seq![args[i as int]]);
    } else {
        let rest = write_args(args, i + 1);
        assert(write_args(args, i) =~= first + (seq![TokenView::Comma] + rest));
        lemma_holds_both(tokens, at, first, seq![TokenView::Comma] + rest);
        lemma_holds_first(tokens, at + first.len(), TokenView::Comma, rest);
        lemma_expr_read_back(args[i as int], tokens, at);
        lemma_args_read_back(args, i + 1, tokens, at + first.len() + 1);
        assert(args.skip(i as int) =~= seq![args[i as int]] + args.skip(i as int + 1));
    }
}

/// Whether a statement can be written down: its expressions can, its
/// targets are variables, and a call that stands as a statement is a call.
pub open spec fn writable_statement(s: StatementView) -> bool
    decreases s,
{
    match s {
        StatementView::Assign { is_declaration, variable, right_hand } => variable is Variable
            && writable_expr(right_hand),
        StatementView::If { conditional, body } => writable_expr(conditional) && forall|i: int|
            0 <= i < body.len() ==> writable_statement(#[trigger] body[i]),
        StatementView::While { conditional, body } => writable_expr(conditional) && forall|i: int|
            0 <= i < body.len() ==> writable_statement(#[trigger] body[i]),
        StatementView::Call(e) => e is Call && writable_expr(e),
        StatementView::Print(e) => writable_expr(e),
        StatementView::Return(e) => writable_expr(e),
        StatementView::Input(e) => e is Variable,
        StatementView::Drop(e) => e is Variable,
    }
}

/// The tokens of a statement.
pub open spec fn write_statement(s: StatementView) -> Seq<TokenView>
    decreases s, 0nat,
{
    match s {
        StatementView::Assign { is_declaration, variable, right_hand } => (if is_declaration {
            seq![TokenView::Var]
        } else {
            Seq::empty()
        }) + write_expr(variable) + seq![TokenView::Assignment] + write_expr(right_hand) + seq![
            TokenView::Semicolon,
        ],
        StatementView::If { conditional, body } => seq![TokenView::If] + write_expr(conditional)
            + seq![TokenView::LeftCurly] + write_statements(body, 0),
        StatementView::While { conditional, body } => seq![TokenView::While] + write_expr(
            conditional,
        ) + seq![TokenView::LeftCurly] + write_statements(body, 0),
        StatementView::Call(e) => write_expr(e),
        StatementView::Print(e) => seq![TokenView::Print] + write_expr(e) + seq![
            TokenView::Semicolon,
        ],
        StatementView::Return(e) => seq![TokenView::Return] + write_expr(e) + seq![
            TokenView::Semicolon,
        ],
        StatementView::Input(e) => seq![TokenView::Input] + write_expr(e) + seq![
            TokenView::Semicolon,
        ],
        StatementView::Drop(e) => seq![TokenView::Drop] + write_expr(e) + seq![
            TokenView::Semicolon,
        ],
    }
}

/// The tokens of the statements from position `i` on, and the `}` behind
/// them.
pub open spec fn write_statements(statements: Seq<StatementView>, i: nat) -> Seq<TokenView>
    decreases statements, statements.len() - i,
{
    if i >= statements.len() {
        seq![TokenView::RightCurly]
    } else {
        write_statement(statements[i as int]) + write_statements(statements, i + 1)
    }
}

/// The tokens of the parameters from position `i` on, with `,` between
/// them and `)` behind the last.
pub open spec fn write_params(params: Seq<Seq<char>>, i: nat) -> Seq<TokenView>
    decreases params.len() - i,
{
    if i >= params.len() {
        seq![TokenView::RightParen]
    } else if i + 1 == params.len() {
        seq![TokenView::Identifier(params[i as int]), TokenView::RightParen]
    } else {
        seq![TokenView::Identifier(params[i as int]), TokenView::Comma] + write_params(
            params,
            i + 1,
        )
    }
}

/// Whether a function can be written down: its statements can.
pub open spec fn writable_function(f: FunctionView) -> bool {
    forall|i: int| 0 <= i < f.body.len() ==> writable_statement(#[trigger] f.body[i])
}

/// The tokens of a function definition.
pub open spec fn write_function(f: FunctionView) -> Seq<TokenView> {
    seq![TokenView::Fun, TokenView::Identifier(f.name), TokenView::LeftParen] + write_params(
        f.params,
        0,
    ) + seq![TokenView::LeftCurly] + write_statements(f.body, 0)
}

/// The tokens of the functions from position `i` on, and the end of the
/// stream behind them.
pub open spec fn write_program(functions: Seq<FunctionView>, i: nat) -> Seq<TokenView>
    decreases functions.len() - i,
{
    if i >= functions.len() {
        seq![TokenView::EndOfFile]
    } else {
        write_function(functions[i as int]) + write_program(functions, i + 1)
    }
}

/// Whether `token` can start a statement or end a block.
pub open spec fn starts_statement(token: TokenView) -> bool {
    token is Var || token is Identifier || token is If || token is While || token is Print
        || token is Input || token is Drop || token is Return
}

/// What is written of an expression starts with a name, a number or `(`.
proof fn lemma_expr_start(e: ExprView)
    requires
        writable_expr(e),
    ensures
        write_expr(e).len() > 0,
        write_expr(e)[0] is Identifier || write_expr(e)[0] is Number || write_expr(e)[0]
            is LeftParen,
        e is Call ==> write_expr(e).len() > 1 && write_expr(e)[0] is Identifier && write_expr(
            e,
        )[1] is LeftParen,
        e is Variable ==> write_expr(e) == seq![TokenView::Identifier(e->Variable_0)],
    decreases e,
{
    reveal_with_fuel(write_expr, 2);
    reveal_with_fuel(write_operand, 2);
    match e {
        ExprView::BinOp(op, lhs, rhs) => {
            lemma_expr_start(*lhs);
            let l = write_operand(*lhs);
            assert(l.len() > 0);
            assert(write_expr(e)[0] == l[0]);
        },
        _ => {},
    }
}

/// What is written of a statement starts with a token that starts a
/// statement.
proof fn lemma_statement_start(s: StatementView)
    requires
        writable_statement(s),
    ensures
        write_statement(s).len() > 0,
        starts_statement(write_statement(s)[0]),
{
    match s {
        StatementView::Assign { is_declaration, variable, right_hand } => {
            lemma_expr_start(variable);
        },
        StatementView::Call(e) => {
            lemma_expr_start(e);
        },
        _ => {},
    }
}

/// What is written of statements and their `}` starts with a token that
/// closes an expression.
proof fn lemma_statements_start(statements: Seq<StatementView>, i: nat)
    requires
        forall|j: int| 0 <= j < statements.len() ==> writable_statement(#[trigger] statements[j]),
    ensures
        write_statements(statements, i).len() > 0,
        closes(write_statements(statements, i)[0]),
        i < statements.len() ==> starts_statement(write_statements(statements, i)[0]),
        i >= statements.len() ==> write_statements(statements, i)[0] is RightCurly,
{
    if i < statements.len() {
        lemma_statement_start(statements[i as int]);
        let first = write_statement(statements[i as int]);
        assert(write_statements(statements, i)[0] == first[0]);
    }
}

/// A statement that was written down is read back, where neither an
/// operator nor `(` follows it.
pub proof fn lemma_statement_read_back(s: StatementView, tokens: Seq<TokenView>, at: nat)
    requires
        writable_statement(s),
        holds(tokens, at, write_statement(s)),
        closes(token_at(tokens, at + write_statement(s).len())),
    ensures
        parse_statement(tokens, at) == Ok::<Parsed<StatementView>, Failure>(
            Parsed { node: s, len: write_statement(s).len() },
        ),
    decreases s, 0nat,
{
    match s {
        StatementView::Assign { is_declaration, variable, right_hand } => {
            reveal(parse_assignment);
            lemma_expr_start(variable);
            let name = TokenView::Identifier(variable->Variable_0);
            let value = write_expr(right_hand);
            let tail = seq![name] + (seq![TokenView::Assignment] + (value + seq![
                TokenView::Semicolon,
            ]));
            let lead: nat = if is_declaration {
                1
            } else {
                0
            };
            if is_declaration {
                assert(write_statement(s) =~= seq![TokenView::Var] + tail);
                lemma_holds_first(tokens, at, TokenView::Var, tail);
            } else {
                assert(write_statement(s) =~= tail);
            }
            lemma_holds_first(
                tokens,
                at + lead,
                name,
                seq![TokenView::Assignment] + (value + seq![TokenView::Semicolon]),
            );
            lemma_holds_first(
                tokens,
                at + lead + 1,
                TokenView::Assignment,
                value + seq![TokenView::Semicolon],
            );
            lemma_holds_both(tokens, at + lead + 2, value, seq![TokenView::Semicolon]);
            assert(seq![TokenView::Semicolon][0] == TokenView::Semicolon);
            assert(token_at(tokens, at + lead + 2 + value.len()) == TokenView::Semicolon);
            assert(holds(tokens, at + lead, write_expr(variable))) by {
                assert(write_expr(variable)[0] == name);
            }
            lemma_expr_read_back(variable, tokens, at + lead);
            lemma_expr_read_back(right_hand, tokens, at + lead + 2);
        },
        StatementView::If { conditional, body } => {
            lemma_conditional_read_back(TokenView::If, conditional, body, tokens, at);
        },
        StatementView::While { conditional, body } => {
            lemma_conditional_read_back(TokenView::While, conditional, body, tokens, at);
        },
        StatementView::Call(e) => {
            reveal(parse_call);
            lemma_expr_start(e);
            assert(tokens[at as int + 0] == write_expr(e)[0]);
            assert(tokens[at as int + 1] == write_expr(e)[1]);
            lemma_expr_read_back(e, tokens, at);
        },
        StatementView::Print(e) => {
            lemma_builtin_read_back(TokenView::Print, e, tokens, at);
        },
        StatementView::Return(e) => {
            lemma_builtin_read_back(TokenView::Return, e, tokens, at);
        },
        StatementView::Input(e) => {
            lemma_builtin_read_back(TokenView::Input, e, tokens, at);
        },
        StatementView::Drop(e) => {
            lemma_builtin_read_back(TokenView::Drop, e, tokens, at);
        },
    }
}

/// The statement that a keyword and an expression make.
pub open spec fn builtin(keyword: TokenView, e: ExprView) -> StatementView
    recommends
        keyword is Print || keyword is Return || keyword is Input || keyword is Drop,
{
    match keyword {
        TokenView::Print => StatementView::Print(e),
        TokenView::Return => StatementView::Return(e),
        TokenView::Input => StatementView::Input(e),
        _ => StatementView::Drop(e),
    }
}

/// A built-in that was written down is read back.
proof fn lemma_builtin_read_back(keyword: TokenView, e: ExprView, tokens: Seq<TokenView>, at: nat)
    requires
        keyword is Print || keyword is Return || keyword is Input || keyword is Drop,
        writable_expr(e),
        keyword is Input || keyword is Drop ==> e is Variable,
        holds(tokens, at, seq![keyword] + write_expr(e) + seq![TokenView::Semicolon]),
    ensures
        parse_statement(tokens, at) == Ok::<Parsed<StatementView>, Failure>(
            Parsed { node: builtin(keyword, e), len: write_expr(e).len() + 2 },
        ),
{
    reveal(parse_builtin);
    let written = write_expr(e);
    assert(seq![keyword] + written + seq![TokenView::Semicolon] =~= seq![keyword] + (written
        + seq![TokenView::Semicolon]));
    lemma_holds_first(tokens, at, keyword, written + seq![TokenView::Semicolon]);
    lemma_holds_both(tokens, at + 1, written, seq![TokenView::Semicolon]);
    assert(seq![TokenView::Semicolon][0] == TokenView::Semicolon);
    assert(token_at(tokens, at + 1 + written.len()) == TokenView::Semicolon);
    lemma_expr_read_back(e, tokens, at + 1);
}

/// An `if` or a `while` that was written down is read back.
proof fn lemma_conditional_read_back(
    keyword: TokenView,
    conditional: ExprView,
    body: Seq<StatementView>,
    tokens: Seq<TokenView>,
    at: nat,
)
    requires
        keyword is If || keyword is While,
        writable_expr(conditional),
        forall|i: int| 0 <= i < body.len() ==> writable_statement(#[trigger] body[i]),
        holds(
            tokens,
            at,
            seq![keyword] + write_expr(conditional) + seq![TokenView::LeftCurly]
                + write_statements(body, 0),
        ),
    ensures
        parse_statement(tokens, at) == Ok::<Parsed<StatementView>, Failure>(
            Parsed {
                node: if keyword is If {
                    StatementView::If { conditional, body }
                } else {
                    StatementView::While { conditional, body }
                },
                len: 1 + write_expr(conditional).len() + 1 + write_statements(body, 0).len(),
            },
        ),
    decreases body, body.len() + 1,
{
    let cond = write_expr(conditional);
    let block = write_statements(body, 0);
    assert(seq![keyword] + cond + seq![TokenView::LeftCurly] + block =~= seq![keyword] + (cond + (
    seq![TokenView::LeftCurly] + block)));
    lemma_holds_first(tokens, at, keyword, cond + (seq![TokenView::LeftCurly] + block));
    lemma_holds_both(tokens, at + 1, cond, seq![TokenView::LeftCurly] + block);
    lemma_holds_first(tokens, at + 1 + cond.len(), TokenView::LeftCurly, block);
    lemma_expr_read_back(conditional, tokens, at + 1);
    lemma_statements_read_back(body, 0, tokens, at + 1 + cond.len() + 1);
    assert(body.skip(0) =~= body);
}

/// Statements that were written down, with the `}` behind them, are read
/// back.
pub proof fn lemma_statements_read_back(
    statements: Seq<StatementView>,
    i: nat,
    tokens: Seq<TokenView>,
    at: nat,
)
    requires
        i <= statements.len(),
        forall|j: int| 0 <= j < statements.len() ==> writable_statement(#[trigger] statements[j]),
        holds(tokens, at, write_statements(statements, i)),
    ensures
        parse_statements(tokens, at) == Ok::<Parsed<Seq<StatementView>>, Failure>(
            Parsed { node: statements.skip(i as int), len: write_statements(statements, i).len() },
        ),
    decreases statements, statements.len() - i,
{
    if i == statements.len() {
        assert(write_statements(statements, i)[0] == TokenView::RightCurly);
        assert(statements.skip(i as int) =~= Seq::<StatementView>::empty());
    } else {
        let s = statements[i as int];
        let first = write_statement(s);
        let rest = write_statements(statements, i + 1);
        lemma_holds_both(tokens, at, first, rest);
        lemma_statement_start(s);
        lemma_statements_start(statements, i + 1);
        assert(tokens[at as int + 0] == first[0]);
        assert(tokens[at as int + first.len() + 0] == rest[0]);
        lemma_statement_read_back(s, tokens, at);
        lemma_statement_spans(tokens, at);
        lemma_statements_read_back(statements, i + 1, tokens, at + first.len());
        assert(statements.skip(i as int) =~= seq![s] + statements.skip(i as int + 1));
    }
}

/// Parameters that were written down, with the `)` behind them, are read
/// back.
pub proof fn lemma_params_read_back(
    params: Seq<Seq<char>>,
    i: nat,
    tokens: Seq<TokenView>,
    at: nat,
)
    requires
        i <= params.len(),
        holds(tokens, at, write_params(params, i)),
    ensures
        parse_params(tokens, at) == Ok::<Parsed<Seq<Seq<char>>>, Failure>(
            Parsed { node: params.skip(i as int), len: write_params(params, i).len() },
        ),
    decreases params.len() - i,
{
    let written = write_params(params, i);
    if i == params.len() {
        assert(written[0] == TokenView::RightParen);
        assert(params.skip(i as int) =~= Seq::<Seq<char>>::empty());
    } else if i + 1 == params.len() {
        assert(written[0] == TokenView::Identifier(params[i as int]));
        assert(written[1] == TokenView::RightParen);
        assert(tokens[at as int + 0] == written[0]);
        assert(tokens[at as int + 1] == written[1]);
        assert(params.skip(i as int) =~= seq![params[i as int]]);
    } else {
        let head = seq![TokenView::Identifier(params[i as int]), TokenView::Comma];
        lemma_holds_both(tokens, at, head, write_params(params, i + 1));
        assert(head[0] == TokenView::Identifier(params[i as int]));
        assert(head[1] == TokenView::Comma);
        assert(tokens[at as int + 0] == head[0]);
        assert(tokens[at as int + 1] == head[1]);
        lemma_params_read_back(params, i + 1, tokens, at + 2);
        assert(params.skip(i as int) =~= seq![params[i as int]] + params.skip(i as int + 1));
    }
}

/// A function definition that was written down is read back.
pub proof fn lemma_function_read_back(f: FunctionView, tokens: Seq<TokenView>, at: nat)
    requires
        writable_function(f),
        holds(tokens, at, write_function(f)),
    ensures
        parse_function(tokens, at) == Ok::<Parsed<FunctionView>, Failure>(
            Parsed { node: f, len: write_function(f).len() },
        ),
{
    reveal(parse_function);
    reveal(parse_proto);
    let head = seq![TokenView::Fun, TokenView::Identifier(f.name), TokenView::LeftParen];
    let params = write_params(f.params, 0);
    let body = write_statements(f.body, 0);
    assert(write_function(f) =~= head + (params + (seq![TokenView::LeftCurly] + body)));
    lemma_holds_both(tokens, at, head, params + (seq![TokenView::LeftCurly] + body));
    assert(head[0] == TokenView::Fun);
    assert(head[1] == TokenView::Identifier(f.name));
    assert(head[2] == TokenView::LeftParen);
    assert(tokens[at as int + 0] == head[0]);
    assert(tokens[at as int + 1] == head[1]);
    assert(tokens[at as int + 2] == head[2]);
    lemma_holds_both(tokens, at + 3, params, seq![TokenView::LeftCurly] + body);
    lemma_holds_first(tokens, at + 3 + params.len(), TokenView::LeftCurly, body);
    lemma_params_read_back(f.params, 0, tokens, at + 3);
    assert(f.params.skip(0) =~= f.params);
    lemma_statements_read_back(f.body, 0, tokens, at + 3 + params.len() + 1);
    assert(f.body.skip(0) =~= f.body);
}

/// Function definitions that were written down, with the end of the
/// stream behind them, are read back.
pub proof fn lemma_program_read_back(
    functions: Seq<FunctionView>,
    i: nat,
    tokens: Seq<TokenView>,
    at: nat,
)
    requires
        i <= functions.len(),
        forall|j: int| 0 <= j < functions.len() ==> writable_function(#[trigger] functions[j]),
        holds(tokens, at, write_program(functions, i)),
    ensures
        parse_program(tokens, at) == Ok::<Parsed<Seq<FunctionView>>, Failure>(
            Parsed {
                node: functions.skip(i as int),
                len: (write_program(functions, i).len() - 1) as nat,
            },
        ),
    decreases functions.len() - i,
{
    if i == functions.len() {
        assert(write_program(functions, i)[0] == TokenView::EndOfFile);
        assert(tokens[at as int + 0] == TokenView::EndOfFile);
        assert(functions.skip(i as int) =~= Seq::<FunctionView>::empty());
    } else {
        let f = functions[i as int];
        let first = write_function(f);
        let rest = write_program(functions, i + 1);
        lemma_holds_both(tokens, at, first, rest);
        assert(first[0] == TokenView::Fun);
        assert(tokens[at as int + 0] == first[0]);
        lemma_function_read_back(f, tokens, at);
        lemma_program_read_back(functions, i + 1, tokens, at + first.len());
        assert(functions.skip(i as int) =~= seq![f] + functions.skip(i as int + 1));
    }
}

/// The parser reads back what was written: the tokens of a program that
/// can be written down parse to that program, and the parser stops at the
/// end of the stream.
pub proof fn law_parser_round_trip(functions: Seq<FunctionView>)
    requires
        forall|j: int| 0 <= j < functions.len() ==> writable_function(#[trigger] functions[j]),
    ensures
        parse_program(write_program(functions, 0), 0) == Ok::<
            Parsed<Seq<FunctionView>>,
            Failure,
        >(Parsed { node: functions, len: (write_program(functions, 0).len() - 1) as nat }),
{
    let tokens = write_program(functions, 0);
    lemma_program_read_back(functions, 0, tokens, 0);
    assert(functions.skip(0) =~= functions);
}

/// What is written of a program ends with the end of the stream.
pub proof fn lemma_program_ends(functions: Seq<FunctionView>, i: nat)
    ensures
        write_program(functions, i).len() > 0,
        write_program(functions, i).last() == TokenView::EndOfFile,
    decreases functions.len() - i,
{
    if i < functions.len() {
        lemma_program_ends(functions, i + 1);
    }
}

/// From a program to its source and back: where the tokens of a program
/// can be spelled, the source that spells them lexes to these tokens, and
/// the tokens parse to the program.
pub proof fn law_source_round_trip(functions: Seq<FunctionView>)
    requires
        forall|j: int| 0 <= j < functions.len() ==> writable_function(#[trigger] functions[j]),
        forall|i: int|
            0 <= i < write_program(functions, 0).len() - 1 ==> spellable(
                #[trigger] write_program(functions, 0)[i],
            ),
    ensures
        ({
            let tokens = write_program(functions, 0);
            let source = source_of(tokens.drop_last());
            &&& tokenize(source).tokens == Ok::<Seq<TokenView>, LexError>(tokens)
            &&& parse_program(tokens, 0) == Ok::<Parsed<Seq<FunctionView>>, Failure>(
                Parsed { node: functions, len: (tokens.len() - 1) as nat },
            )
        }),
{
    let tokens = write_program(functions, 0);
    lemma_program_ends(functions, 0);
    let spelled = tokens.drop_last();
    assert forall|i: int| 0 <= i < spelled.len() implies spellable(#[trigger] spelled[i]) by {
        assert(spelled[i] == tokens[i]);
    }
    law_spaced_round_trip(spelled);
    assert(spelled.push(TokenView::EndOfFile) =~= tokens);
    law_parser_round_trip(functions);
}

} // verus!
