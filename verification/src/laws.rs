//! What holds of every program: the discipline of declarations, the rule
//! of truth values, the value of a function that does not return, what
//! fuel decides, and how operators group.

use crate::ast::{text_of, ExprView, FunctionView, StatementView, ValueView};
use crate::grammar::{
    parse_expr, parse_ident, parse_primary, parse_rhs, priority, token_at, Failure, Parsed,
};
use crate::lexer::{Operator, TokenView};
use crate::semantics::{
    all_digits, bind_params, call_function, eval_args, eval_expr, exec_block, exec_statement,
    exec_while, implicit_return, input_value, load, run, table, truthy, with_implicit_return,
    ConsoleView, Env, Evaluated, Executed, Program, RuntimeError,
};
use crate::spelling::{decimal_digits, lemma_decimal_digits};
use vstd::prelude::*;

verus! {

/// The declaration `var name = e;`.
pub open spec fn declaration(name: Seq<char>, e: ExprView) -> StatementView {
    StatementView::Assign { is_declaration: true, variable: ExprView::Variable(name), right_hand: e }
}

/// The plain assignment `name = e;`.
pub open spec fn assignment(name: Seq<char>, e: ExprView) -> StatementView {
    StatementView::Assign {
        is_declaration: false,
        variable: ExprView::Variable(name),
        right_hand: e,
    }
}

/// Declaring a variable that is bound fails, whatever value it was to get.
pub proof fn law_redeclaration_fails(
    program: Program,
    fuel: nat,
    name: Seq<char>,
    e: ExprView,
    env: Env,
    console: ConsoleView,
)
    requires
        env.contains_key(name),
        eval_expr(program, fuel, e, env, console).value is Ok,
    ensures
        exec_statement(program, fuel, declaration(name, e), env, console).flow == Err::<
            Option<ValueView>,
            RuntimeError,
        >(RuntimeError::DuplicateDeclaration),
{
}

/// A declaration binds its variable: where it succeeds, the variable was
/// not bound before and is bound to the value of the expression after.
pub proof fn law_declaration_binds(
    program: Program,
    fuel: nat,
    name: Seq<char>,
    e: ExprView,
    env: Env,
    console: ConsoleView,
)
    requires
        exec_statement(program, fuel, declaration(name, e), env, console).flow is Ok,
    ensures
        !env.contains_key(name),
        eval_expr(program, fuel, e, env, console).value is Ok,
        exec_statement(program, fuel, declaration(name, e), env, console).env == env.insert(
            name,
            eval_expr(program, fuel, e, env, console).value->Ok_0,
        ),
{
}

/// Two declarations of one variable, one behind the other, never both
/// succeed: the block fails, and it fails on the second declaration where
/// both expressions have a value.
pub proof fn law_declaring_twice_fails(
    program: Program,
    fuel: nat,
    name: Seq<char>,
    first: ExprView,
    second: ExprView,
    env: Env,
    console: ConsoleView,
)
    ensures
        exec_block(
            program,
            fuel,
            seq![declaration(name, first), declaration(name, second)],
            0,
            env,
            console,
        ).flow is Err,
        ({
            let one = exec_statement(program, fuel, declaration(name, first), env, console);
            one.flow is Ok && eval_expr(program, fuel, second, one.env, one.console).value is Ok
                ==> exec_block(
                program,
                fuel,
                seq![declaration(name, first), declaration(name, second)],
                0,
                env,
                console,
            ).flow == Err::<Option<ValueView>, RuntimeError>(RuntimeError::DuplicateDeclaration)
        }),
{
    let block = seq![declaration(name, first), declaration(name, second)];
    let one = exec_statement(program, fuel, block[0], env, console);
    assert(exec_block(program, fuel, block, 0, env, console) == match one.flow {
        Ok(None) => exec_block(program, fuel, block, 1, one.env, one.console),
        _ => one,
    });
    if one.flow is Ok {
        let two = exec_statement(program, fuel, block[1], one.env, one.console);
        assert(exec_block(program, fuel, block, 1, one.env, one.console) == match two.flow {
            Ok(None) => exec_block(program, fuel, block, 2, two.env, two.console),
            _ => two,
        });
        assert(one.env.contains_key(name));
    }
}

/// Assigning to a variable that is not bound fails, whatever value it was
/// to get.
pub proof fn law_assignment_needs_declaration(
    program: Program,
    fuel: nat,
    name: Seq<char>,
    e: ExprView,
    env: Env,
    console: ConsoleView,
)
    requires
        !env.contains_key(name),
        eval_expr(program, fuel, e, env, console).value is Ok,
    ensures
        exec_statement(program, fuel, assignment(name, e), env, console).flow == Err::<
            Option<ValueView>,
            RuntimeError,
        >(RuntimeError::AssignToUndeclared),
{
}

/// Reading a variable behind its `drop` fails: the `drop` succeeds, and in
/// the environment it leaves the variable has no value.
pub proof fn law_dropped_variable_is_gone(
    program: Program,
    fuel: nat,
    name: Seq<char>,
    env: Env,
    console: ConsoleView,
    later: ConsoleView,
)
    ensures
        ({
            let dropped = exec_statement(
                program,
                fuel,
                StatementView::Drop(ExprView::Variable(name)),
                env,
                console,
            );
            &&& dropped.flow == Ok::<Option<ValueView>, RuntimeError>(None)
            &&& dropped.env == env.remove(name)
            &&& eval_expr(program, fuel, ExprView::Variable(name), dropped.env, later).value
                == Err::<ValueView, RuntimeError>(RuntimeError::UndeclaredVariable)
        }),
{
}

/// Every string and every integer but zero is true; zero is false.
pub proof fn law_truth_values(v: ValueView)
    ensures
        v is Str ==> truthy(v),
        v matches ValueView::Int(n) ==> (truthy(v) <==> n != 0),
{
}

/// A condition with the value zero skips the body of an `if` and ends a
/// `while`: nothing of the body runs, and execution goes on with the
/// environment as it was.
pub proof fn law_false_condition_skips(
    program: Program,
    fuel: nat,
    conditional: ExprView,
    body: Seq<StatementView>,
    env: Env,
    console: ConsoleView,
)
    requires
        eval_expr(program, fuel, conditional, env, console).value == Ok::<ValueView, RuntimeError>(
            ValueView::Int(0),
        ),
    ensures
        exec_statement(program, fuel, StatementView::If { conditional, body }, env, console) == (
        Executed {
            flow: Ok(None),
            env,
            console: eval_expr(program, fuel, conditional, env, console).console,
        }),
        exec_statement(program, fuel, StatementView::While { conditional, body }, env, console)
            == (Executed {
            flow: Ok(None),
            env,
            console: eval_expr(program, fuel, conditional, env, console).console,
        }),
{
}

/// A condition with a true value runs the body of an `if` once.
pub proof fn law_true_condition_runs_if(
    program: Program,
    fuel: nat,
    conditional: ExprView,
    body: Seq<StatementView>,
    env: Env,
    console: ConsoleView,
)
    requires
        eval_expr(program, fuel, conditional, env, console).value matches Ok(v) && truthy(v),
    ensures
        exec_statement(program, fuel, StatementView::If { conditional, body }, env, console)
            == exec_block(
            program,
            fuel,
            body,
            0,
            env,
            eval_expr(program, fuel, conditional, env, console).console,
        ),
{
}

/// A condition with a true value runs the body of a `while` where fuel is
/// left: where the body returns or fails, so does the loop; where it does
/// not, the loop starts over behind it.
pub proof fn law_true_condition_runs_while(
    program: Program,
    fuel: nat,
    conditional: ExprView,
    body: Seq<StatementView>,
    env: Env,
    console: ConsoleView,
)
    requires
        fuel > 0,
        eval_expr(program, fuel, conditional, env, console).value matches Ok(v) && truthy(v),
    ensures
        ({
            let turn = exec_block(
                program,
                (fuel - 1) as nat,
                body,
                0,
                env,
                eval_expr(program, fuel, conditional, env, console).console,
            );
            exec_statement(program, fuel, StatementView::While { conditional, body }, env, console)
                == match turn.flow {
                Ok(None) => exec_while(
                    program,
                    (fuel - 1) as nat,
                    conditional,
                    body,
                    turn.env,
                    turn.console,
                ),
                _ => turn,
            }
        }),
{
}

/// A block with one more statement behind it: the block runs first, and
/// the statement runs where the block neither returned nor failed.
pub proof fn lemma_block_then_statement(
    program: Program,
    fuel: nat,
    block: Seq<StatementView>,
    last: StatementView,
    i: nat,
    env: Env,
    console: ConsoleView,
)
    requires
        i <= block.len(),
    ensures
        exec_block(program, fuel, block.push(last), i, env, console) == ({
            let done = exec_block(program, fuel, block, i, env, console);
            match done.flow {
                Ok(None) => exec_statement(program, fuel, last, done.env, done.console),
                _ => done,
            }
        }),
    decreases block.len() - i,
{
    let whole = block.push(last);
    if i < block.len() {
        assert(whole[i as int] == block[i as int]);
        let first = exec_statement(program, fuel, block[i as int], env, console);
        match first.flow {
            Ok(None) => {
                lemma_block_then_statement(
                    program,
                    fuel,
                    block,
                    last,
                    i + 1,
                    first.env,
                    first.console,
                );
            },
            _ => {},
        }
    } else {
        assert(whole[i as int] == last);
        let only = exec_statement(program, fuel, last, env, console);
        assert(exec_block(program, fuel, whole, i + 1, only.env, only.console) == (Executed {
            flow: Ok(None),
            env: only.env,
            console: only.console,
        }));
    }
}

/// Every function of a loaded program is one of the definitions, with
/// `return 0;` behind its body.
pub proof fn lemma_loaded_function(functions: Seq<FunctionView>, name: Seq<char>)
    requires
        load(functions).contains_key(name),
    ensures
        exists|i: int|
            0 <= i < functions.len() && functions[i].name == name && load(functions)[name]
                == with_implicit_return(#[trigger] functions[i]),
{
    let loaded = functions.map_values(|f: FunctionView| with_implicit_return(f));
    lemma_table_entry(loaded, name);
    let i = choose|i: int| 0 <= i < loaded.len() && table(loaded)[name] == #[trigger] loaded[i];
    assert(loaded[i] == with_implicit_return(functions[i]));
}

/// Every function of a table is one of the functions it was made of, and
/// has the name it is found by.
pub proof fn lemma_table_entry(functions: Seq<FunctionView>, name: Seq<char>)
    requires
        table(functions).contains_key(name),
    ensures
        exists|i: int|
            0 <= i < functions.len() && table(functions)[name] == #[trigger] functions[i],
        table(functions)[name].name == name,
    decreases functions.len(),
{
    if functions.len() > 0 {
        if functions.last().name == name {
            assert(table(functions)[name] == functions[functions.len() - 1]);
        } else {
            lemma_table_entry(functions.drop_last(), name);
            let i = choose|i: int|
                0 <= i < functions.drop_last().len() && table(functions.drop_last())[name]
                    == #[trigger] functions.drop_last()[i];
            assert(table(functions)[name] == functions[i]);
        }
    }
}

/// A function whose body, as it was written, runs to its end without a
/// `return` yields the integer 0, and leaves the console as its body left
/// it.
pub proof fn law_implicit_return(
    functions: Seq<FunctionView>,
    fuel: nat,
    name: Seq<char>,
    args: Seq<ValueView>,
    console: ConsoleView,
)
    requires
        load(functions).contains_key(name),
        load(functions)[name].params.len() <= args.len(),
        ({
            let f = load(functions)[name];
            exec_block(
                load(functions),
                fuel,
                f.body.drop_last(),
                0,
                bind_params(f.params, args, f.params.len()),
                console,
            ).flow == Ok::<Option<ValueView>, RuntimeError>(None)
        }),
    ensures
        load(functions)[name].body.len() > 0,
        load(functions)[name].body.last() == implicit_return(),
        ({
            let f = load(functions)[name];
            call_function(load(functions), fuel, name, args, console) == (Evaluated {
                value: Ok(ValueView::Int(0)),
                console: exec_block(
                    load(functions),
                    fuel,
                    f.body.drop_last(),
                    0,
                    bind_params(f.params, args, f.params.len()),
                    console,
                ).console,
            })
        }),
{
    let program = load(functions);
    let f = program[name];
    lemma_loaded_function(functions, name);
    let written = f.body.drop_last();
    assert(f.body =~= written.push(implicit_return()));
    let env = bind_params(f.params, args, f.params.len());
    lemma_block_then_statement(program, fuel, written, implicit_return(), 0, env, console);
}

/// A run that does not run out of fuel ends the same way on any more
/// fuel: fuel decides whether a run is cut short, and nothing else.
pub proof fn law_fuel_only_cuts_short(program: Program, fuel: nat, more: nat, console: ConsoleView)
    requires
        fuel <= more,
        run(program, fuel, console).value != Err::<ValueView, RuntimeError>(
            RuntimeError::OutOfFuel,
        ),
    ensures
        run(program, more, console) == run(program, fuel, console),
{
    lemma_fuel_call(program, fuel, more, "main"@, Seq::empty(), console);
}

/// More fuel does not change the value of an expression that has one, nor
/// an error other than the lack of fuel.
pub proof fn lemma_fuel_expr(
    program: Program,
    fuel: nat,
    more: nat,
    e: ExprView,
    env: Env,
    console: ConsoleView,
)
    requires
        fuel <= more,
        eval_expr(program, fuel, e, env, console).value != Err::<ValueView, RuntimeError>(
            RuntimeError::OutOfFuel,
        ),
    ensures
        eval_expr(program, more, e, env, console) == eval_expr(program, fuel, e, env, console),
    decreases fuel, 0nat, e, 0nat,
{
    match e {
        ExprView::Variable(_) => {},
        ExprView::Val(_) => {},
        ExprView::Call(name, args) => {
            lemma_fuel_args(program, fuel, more, args, 0, env, console);
            let evaluated = eval_args(program, fuel, args, 0, env, console);
            if let Ok(values) = evaluated.values {
                lemma_fuel_call(
                    program,
                    (fuel - 1) as nat,
                    (more - 1) as nat,
                    name,
                    values,
                    evaluated.console,
                );
            }
        },
        ExprView::BinOp(op, lhs, rhs) => {
            lemma_fuel_expr(program, fuel, more, *lhs, env, console);
            let left = eval_expr(program, fuel, *lhs, env, console);
            if left.value is Ok {
                lemma_fuel_expr(program, fuel, more, *rhs, env, left.console);
            }
        },
    }
}

/// More fuel does not change the values of arguments.
pub proof fn lemma_fuel_args(
    program: Program,
    fuel: nat,
    more: nat,
    args: Seq<ExprView>,
    i: nat,
    env: Env,
    console: ConsoleView,
)
    requires
        fuel <= more,
        eval_args(program, fuel, args, i, env, console).values != Err::<
            Seq<ValueView>,
            RuntimeError,
        >(RuntimeError::OutOfFuel),
    ensures
        eval_args(program, more, args, i, env, console) == eval_args(
            program,
            fuel,
            args,
            i,
            env,
            console,
        ),
    decreases fuel, 0nat, args, args.len() - i,
{
    if i < args.len() {
        lemma_fuel_expr(program, fuel, more, args[i as int], env, console);
        let first = eval_expr(program, fuel, args[i as int], env, console);
        if first.value is Ok {
            lemma_fuel_args(program, fuel, more, args, i + 1, env, first.console);
        }
    }
}

/// More fuel does not change the result of a call.
pub proof fn lemma_fuel_call(
    program: Program,
    fuel: nat,
    more: nat,
    name: Seq<char>,
    args: Seq<ValueView>,
    console: ConsoleView,
)
    requires
        fuel <= more,
        call_function(program, fuel, name, args, console).value != Err::<ValueView, RuntimeError>(
            RuntimeError::OutOfFuel,
        ),
    ensures
        call_function(program, more, name, args, console) == call_function(
            program,
            fuel,
            name,
            args,
            console,
        ),
    decreases fuel, 2nat,
{
    if program.contains_key(name) && args.len() >= program[name].params.len() {
        let f = program[name];
        let env = bind_params(f.params, args, f.params.len());
        lemma_fuel_block(program, fuel, more, f.body, 0, env, console);
    }
}

/// More fuel does not change the result of a block.
pub proof fn lemma_fuel_block(
    program: Program,
    fuel: nat,
    more: nat,
    statements: Seq<StatementView>,
    i: nat,
    env: Env,
    console: ConsoleView,
)
    requires
        fuel <= more,
        exec_block(program, fuel, statements, i, env, console).flow != Err::<
            Option<ValueView>,
            RuntimeError,
        >(RuntimeError::OutOfFuel),
    ensures
        exec_block(program, more, statements, i, env, console) == exec_block(
            program,
            fuel,
            statements,
            i,
            env,
            console,
        ),
    decreases fuel, 1nat, statements, statements.len() - i,
{
    if i < statements.len() {
        lemma_fuel_statement(program, fuel, more, statements[i as int], env, console);
        let first = exec_statement(program, fuel, statements[i as int], env, console);
        if first.flow == Ok::<Option<ValueView>, RuntimeError>(None) {
            lemma_fuel_block(program, fuel, more, statements, i + 1, first.env, first.console);
        }
    }
}

/// More fuel does not change the result of a statement.
pub proof fn lemma_fuel_statement(
    program: Program,
    fuel: nat,
    more: nat,
    statement: StatementView,
    env: Env,
    console: ConsoleView,
)
    requires
        fuel <= more,
        exec_statement(program, fuel, statement, env, console).flow != Err::<
            Option<ValueView>,
            RuntimeError,
        >(RuntimeError::OutOfFuel),
    ensures
        exec_statement(program, more, statement, env, console) == exec_statement(
            program,
            fuel,
            statement,
            env,
            console,
        ),
    decreases fuel, 1nat, statement, 0nat,
{
    match statement {
        StatementView::Assign { is_declaration, variable, right_hand } => {
            lemma_fuel_expr(program, fuel, more, right_hand, env, console);
        },
        StatementView::If { conditional, body } => {
            lemma_fuel_expr(program, fuel, more, conditional, env, console);
            let cond = eval_expr(program, fuel, conditional, env, console);
            if cond.value matches Ok(v) && truthy(v) {
                lemma_fuel_block(program, fuel, more, body, 0, env, cond.console);
            }
        },
        StatementView::While { conditional, body } => {
            lemma_fuel_while(program, fuel, more, conditional, body, env, console);
        },
        StatementView::Call(e) => {
            lemma_fuel_expr(program, fuel, more, e, env, console);
        },
        StatementView::Print(e) => {
            lemma_fuel_expr(program, fuel, more, e, env, console);
        },
        StatementView::Return(e) => {
            lemma_fuel_expr(program, fuel, more, e, env, console);
        },
        StatementView::Input(_) => {},
        StatementView::Drop(_) => {},
    }
}

/// More fuel does not change the result of a loop.
pub proof fn lemma_fuel_while(
    program: Program,
    fuel: nat,
    more: nat,
    conditional: ExprView,
    body: Seq<StatementView>,
    env: Env,
    console: ConsoleView,
)
    requires
        fuel <= more,
        exec_while(program, fuel, conditional, body, env, console).flow != Err::<
            Option<ValueView>,
            RuntimeError,
        >(RuntimeError::OutOfFuel),
    ensures
        exec_while(program, more, conditional, body, env, console) == exec_while(
            program,
            fuel,
            conditional,
            body,
            env,
            console,
        ),
    decreases fuel, 1nat, body, body.len() + 1,
{
    lemma_fuel_expr(program, fuel, more, conditional, env, console);
    let cond = eval_expr(program, fuel, conditional, env, console);
    if cond.value matches Ok(v) && truthy(v) {
        let turn = exec_block(program, (fuel - 1) as nat, body, 0, env, cond.console);
        lemma_fuel_block(program, (fuel - 1) as nat, (more - 1) as nat, body, 0, env, cond.console);
        if turn.flow == Ok::<Option<ValueView>, RuntimeError>(None) {
            lemma_fuel_while(
                program,
                (fuel - 1) as nat,
                (more - 1) as nat,
                conditional,
                body,
                turn.env,
                turn.console,
            );
        }
    }
}

/// Whether `token` is an operand of one token: a number or a name.
pub open spec fn is_atom(token: TokenView) -> bool {
    token is Number || token is Identifier
}

/// The expression that an operand of one token stands for.
pub open spec fn atom(token: TokenView) -> ExprView
    recommends
        is_atom(token),
{
    match token {
        TokenView::Number(n) => ExprView::Val(ValueView::Int(n)),
        TokenView::Identifier(name) => ExprView::Variable(name),
        _ => arbitrary(),
    }
}

/// An operand of one token, with no `(` behind it, is parsed as itself.
proof fn lemma_atom(tokens: Seq<TokenView>, at: nat)
    requires
        is_atom(token_at(tokens, at)),
        !(token_at(tokens, at + 1) is LeftParen),
    ensures
        parse_primary(tokens, at) == Ok::<Parsed<ExprView>, Failure>(
            Parsed { node: atom(token_at(tokens, at)), len: 1 },
        ),
{
    reveal(parse_primary);
    reveal(parse_ident);
}

/// How two operators in a row group: in `a op1 b op2 c` the second
/// operator takes `b` where it binds more tightly than the first, and the
/// first takes it otherwise.  So operators of one priority group to the
/// left, and a product groups before a sum on either side of it.
pub proof fn law_two_operators_group_by_priority(
    a: TokenView,
    op1: Operator,
    b: TokenView,
    op2: Operator,
    c: TokenView,
    end: TokenView,
)
    requires
        is_atom(a),
        is_atom(b),
        is_atom(c),
        !(end is Op),
        !(end is LeftParen),
    ensures
        parse_expr(seq![a, TokenView::Op(op1), b, TokenView::Op(op2), c, end], 0) == Ok::<
            Parsed<ExprView>,
            Failure,
        >(
            Parsed {
                node: if priority(op2) > priority(op1) {
                    ExprView::BinOp(
                        op1,
                        Box::new(atom(a)),
                        Box::new(ExprView::BinOp(op2, Box::new(atom(b)), Box::new(atom(c)))),
                    )
                } else {
                    ExprView::BinOp(
                        op2,
                        Box::new(ExprView::BinOp(op1, Box::new(atom(a)), Box::new(atom(b)))),
                        Box::new(atom(c)),
                    )
                },
                len: 5,
            },
        ),
{
    let tokens = seq![a, TokenView::Op(op1), b, TokenView::Op(op2), c, end];
    assert(token_at(tokens, 0) == a);
    assert(token_at(tokens, 1) == TokenView::Op(op1));
    assert(token_at(tokens, 2) == b);
    assert(token_at(tokens, 3) == TokenView::Op(op2));
    assert(token_at(tokens, 4) == c);
    assert(token_at(tokens, 5) == end);
    lemma_atom(tokens, 0);
    lemma_atom(tokens, 2);
    lemma_atom(tokens, 4);
    reveal(parse_expr);
    reveal_with_fuel(parse_rhs, 4);
    let inner = ExprView::BinOp(op2, Box::new(atom(b)), Box::new(atom(c)));
    let left = ExprView::BinOp(op1, Box::new(atom(a)), Box::new(atom(b)));
    if priority(op2) > priority(op1) {
        // `op2` takes `b` and `c`; nothing is left for it behind `c`.
        assert(parse_rhs(tokens, 5, priority(op1) + 1, inner) == Ok::<Parsed<ExprView>, Failure>(
            Parsed { node: inner, len: 0 },
        ));
        assert(parse_rhs(tokens, 3, priority(op1) + 1, atom(b)) == Ok::<
            Parsed<ExprView>,
            Failure,
        >(Parsed { node: inner, len: 2 }));
        let whole = ExprView::BinOp(op1, Box::new(atom(a)), Box::new(inner));
        assert(parse_rhs(tokens, 5, 0, whole) == Ok::<Parsed<ExprView>, Failure>(
            Parsed { node: whole, len: 0 },
        ));
        assert(parse_rhs(tokens, 1, 0, atom(a)) == Ok::<Parsed<ExprView>, Failure>(
            Parsed { node: whole, len: 4 },
        ));
    } else {
        let whole = ExprView::BinOp(op2, Box::new(left), Box::new(atom(c)));
        assert(parse_rhs(tokens, 5, 0, whole) == Ok::<Parsed<ExprView>, Failure>(
            Parsed { node: whole, len: 0 },
        ));
        assert(parse_rhs(tokens, 3, 0, left) == Ok::<Parsed<ExprView>, Failure>(
            Parsed { node: whole, len: 2 },
        ));
        assert(parse_rhs(tokens, 1, 0, atom(a)) == Ok::<Parsed<ExprView>, Failure>(
            Parsed { node: whole, len: 4 },
        ));
    }
}

/// What `print` writes of an integer, `input` reads as that integer.
pub proof fn law_printed_integer_reads_back(n: i32)
    ensures
        input_value(text_of(ValueView::Int(n))) == ValueView::Int(n),
{
    let text = text_of(ValueView::Int(n));
    if n < 0 {
        let digits = decimal_digits((-n) as nat);
        lemma_decimal_digits((-n) as nat);
        assert(text[0] == '-');
        assert(text.skip(1) =~= digits);
        assert(all_digits(digits));
    } else {
        lemma_decimal_digits(n as nat);
        assert(text[0] != '-' && text[0] != '+');
        assert(all_digits(text));
    }
}

} // verus!
