//! What a program means: the value, the output and the errors of running
//! a function, as mathematical functions on syntax trees.
//!
//! Execution is metered by `fuel`.  Calling a function costs one unit, and
//! so does every turn of a `while` loop; the units left are handed down to
//! whatever runs inside.  With no unit left, a call or a turn fails with
//! [`RuntimeError::OutOfFuel`].

use crate::ast::{ExprView, FunctionView, StatementView, ValueView};
use crate::lexer::{decimal_value, is_digit, Operator};
use vstd::prelude::*;

verus! {

/// Why a run stopped without a result.
#[derive(Clone, Copy, Debug, PartialEq, Eq, Structural)]
pub enum RuntimeError {
    /// A call names a function that the program does not define.
    UnknownFunction,
    /// A call has fewer arguments than the function has parameters.
    TooFewArguments,
    /// A variable is read that is not bound.
    UndeclaredVariable,
    /// A declaration names a variable that is already bound.
    DuplicateDeclaration,
    /// A plain assignment names a variable that is not bound.
    AssignToUndeclared,
    /// An arithmetic or bitwise operator got a string.
    TypeMismatch,
    /// The right operand of a division is zero.
    DivisionByZero,
    /// The target of an assignment, an `input` or a `drop` is no variable.
    InvalidTarget,
    /// The fuel ran out.
    OutOfFuel,
}

/// The variables of one call: a flat mapping from names to values.
pub type Env = Map<Seq<char>, ValueView>;

/// The functions of a program, by name.
pub type Program = Map<Seq<char>, FunctionView>;

/// The world outside the program: the lines that `input` has yet to read
/// and the values that `print` has written.
pub struct ConsoleView {
    pub input: Seq<Seq<char>>,
    pub output: Seq<ValueView>,
}

/// The result of evaluating an expression.
pub struct Evaluated {
    pub value: Result<ValueView, RuntimeError>,
    pub console: ConsoleView,
}

/// The result of evaluating the arguments of a call.
pub struct EvaluatedArgs {
    pub values: Result<Seq<ValueView>, RuntimeError>,
    pub console: ConsoleView,
}

/// The result of executing statements: `Ok(Some(v))` where a `return`
/// was reached, `Ok(None)` where execution goes on with the next statement.
pub struct Executed {
    pub flow: Result<Option<ValueView>, RuntimeError>,
    pub env: Env,
    pub console: ConsoleView,
}

/// Every value is true but the integer zero.
pub open spec fn truthy(v: ValueView) -> bool {
    v != ValueView::Int(0)
}

/// The integer that stands for a truth value.
pub open spec fn flag(b: bool) -> ValueView {
    ValueView::Int(
        if b {
            1
        } else {
            0
        },
    )
}

/// Whether `a` comes before `b` in the lexicographic order of their
/// characters.
pub open spec fn text_less(a: Seq<char>, b: Seq<char>) -> bool
    decreases a.len(),
{
    if b.len() == 0 {
        false
    } else if a.len() == 0 {
        true
    } else if a[0] != b[0] {
        (a[0] as u32) < (b[0] as u32)
    } else {
        text_less(a.drop_first(), b.drop_first())
    }
}

/// Whether `a` orders before `b`: a string before every integer, two
/// strings by their characters, two integers by their size.
pub open spec fn value_less(a: ValueView, b: ValueView) -> bool {
    match (a, b) {
        (ValueView::Str(x), ValueView::Str(y)) => text_less(x, y),
        (ValueView::Str(_), ValueView::Int(_)) => true,
        (ValueView::Int(_), ValueView::Str(_)) => false,
        (ValueView::Int(x), ValueView::Int(y)) => x < y,
    }
}

/// The size of an integer without its sign.
pub open spec fn magnitude(n: i32) -> nat {
    if n < 0 {
        (-n) as nat
    } else {
        n as nat
    }
}

/// The quotient of `l` by `r`, rounded towards zero.  The one quotient
/// that does not fit, `i32::MIN / -1`, wraps around to `i32::MIN`.
pub open spec fn quotient(l: i32, r: i32) -> i32
    recommends
        r != 0,
{
    let q = magnitude(l) / magnitude(r);
    if (l < 0) != (r < 0) {
        (-q) as i32
    } else if q > i32::MAX {
        i32::MIN
    } else {
        q as i32
    }
}

/// The result of an arithmetic or bitwise operator on two integers.
/// Sums, differences and products wrap around.
pub open spec fn integer_op(op: Operator, l: i32, r: i32) -> Result<ValueView, RuntimeError>
    recommends
        is_integer_operator(op),
{
    match op {
        Operator::BAnd => Ok(ValueView::Int(l & r)),
        Operator::BOr => Ok(ValueView::Int(l | r)),
        Operator::BXor => Ok(ValueView::Int(l ^ r)),
        Operator::Add => Ok(ValueView::Int(vstd::wrapping::i32_specs::wrapping_add(l, r))),
        Operator::Sub => Ok(ValueView::Int(vstd::wrapping::i32_specs::wrapping_sub(l, r))),
        Operator::Mult => Ok(ValueView::Int(vstd::wrapping::i32_specs::wrapping_mul(l, r))),
        _ => if r == 0 {
            Err(RuntimeError::DivisionByZero)
        } else {
            Ok(ValueView::Int(quotient(l, r)))
        },
    }
}

/// Whether `op` works on integers only.
pub open spec fn is_integer_operator(op: Operator) -> bool {
    op == Operator::BAnd || op == Operator::BOr || op == Operator::BXor || op == Operator::Add
        || op == Operator::Sub || op == Operator::Mult || op == Operator::Div
}

/// The result of a binary operator on two values.
///
/// The logical operators work on truth values and the comparisons on the
/// order of values; both give 1 or 0.  The other operators need two
/// integers.
pub open spec fn apply_binop(op: Operator, l: ValueView, r: ValueView) -> Result<
    ValueView,
    RuntimeError,
> {
    match op {
        Operator::And => Ok(flag(truthy(l) && truthy(r))),
        Operator::Or => Ok(flag(truthy(l) || truthy(r))),
        Operator::Xor => Ok(flag(truthy(l) != truthy(r))),
        Operator::LEq => Ok(flag(!value_less(r, l))),
        Operator::GEq => Ok(flag(!value_less(l, r))),
        Operator::Eq => Ok(flag(l == r)),
        Operator::Ls => Ok(flag(value_less(l, r))),
        Operator::Gr => Ok(flag(value_less(r, l))),
        _ => match (l, r) {
            (ValueView::Int(x), ValueView::Int(y)) => integer_op(op, x, y),
            _ => Err(RuntimeError::TypeMismatch),
        },
    }
}

/// Whether every character of `s` is a decimal digit.
pub open spec fn all_digits(s: Seq<char>) -> bool {
    forall|i: int| 0 <= i < s.len() ==> is_digit(#[trigger] s[i])
}

/// The integer that `text` denotes: an optional sign and one or more
/// decimal digits, within the range of `i32`.
pub open spec fn parse_integer(text: Seq<char>) -> Option<i32> {
    let signed = text.len() > 0 && (text[0] == '-' || text[0] == '+');
    let digits = if signed {
        text.skip(1)
    } else {
        text
    };
    if digits.len() == 0 || !all_digits(digits) {
        None
    } else if text[0] == '-' {
        if decimal_value(digits) <= 0x8000_0000 {
            Some((-(decimal_value(digits) as int)) as i32)
        } else {
            None
        }
    } else {
        if decimal_value(digits) <= i32::MAX {
            Some(decimal_value(digits) as i32)
        } else {
            None
        }
    }
}

/// The value that a line of input stands for: an integer where the line
/// denotes one, the line itself otherwise.
pub open spec fn input_value(line: Seq<char>) -> ValueView {
    match parse_integer(line) {
        Some(n) => ValueView::Int(n),
        None => ValueView::Str(line),
    }
}

/// The environment in which a function body starts: the first `n`
/// parameters bound, in order, to the arguments at their positions.
pub open spec fn bind_params(params: Seq<Seq<char>>, args: Seq<ValueView>, n: nat) -> Env
    decreases n,
{
    if n == 0 {
        Map::empty()
    } else {
        bind_params(params, args, (n - 1) as nat).insert(params[n - 1], args[n - 1])
    }
}

/// The value of `e` in `env`, and what evaluating it does to the console.
///
/// The operands of an operator and the arguments of a call are evaluated
/// from left to right, all of them; the first error ends the evaluation.
pub open spec fn eval_expr(
    program: Program,
    fuel: nat,
    e: ExprView,
    env: Env,
    console: ConsoleView,
) -> Evaluated
    decreases fuel, 0nat, e, 0nat,
{
    match e {
        ExprView::Variable(name) => if env.contains_key(name) {
            Evaluated { value: Ok(env[name]), console }
        } else {
            Evaluated { value: Err(RuntimeError::UndeclaredVariable), console }
        },
        ExprView::Val(v) => Evaluated { value: Ok(v), console },
        ExprView::Call(name, args) => {
            let evaluated = eval_args(program, fuel, args, 0, env, console);
            match evaluated.values {
                Err(e) => Evaluated { value: Err(e), console: evaluated.console },
                Ok(values) => if fuel == 0 {
                    Evaluated { value: Err(RuntimeError::OutOfFuel), console: evaluated.console }
                } else {
                    call_function(program, (fuel - 1) as nat, name, values, evaluated.console)
                },
            }
        },
        ExprView::BinOp(op, lhs, rhs) => {
            let left = eval_expr(program, fuel, *lhs, env, console);
            match left.value {
                Err(_) => left,
                Ok(l) => {
                    let right = eval_expr(program, fuel, *rhs, env, left.console);
                    match right.value {
                        Err(_) => right,
                        Ok(r) => Evaluated { value: apply_binop(op, l, r), console: right.console },
                    }
                },
            }
        },
    }
}

/// The values of the arguments from position `i` on.
pub open spec fn eval_args(
    program: Program,
    fuel: nat,
    args: Seq<ExprView>,
    i: nat,
    env: Env,
    console: ConsoleView,
) -> EvaluatedArgs
    decreases fuel, 0nat, args, args.len() - i,
{
    if i >= args.len() {
        EvaluatedArgs { values: Ok(Seq::empty()), console }
    } else {
        let first = eval_expr(program, fuel, args[i as int], env, console);
        match first.value {
            Err(e) => EvaluatedArgs { values: Err(e), console: first.console },
            Ok(v) => {
                let rest = eval_args(program, fuel, args, i + 1, env, first.console);
                match rest.values {
                    Err(_) => rest,
                    Ok(values) => EvaluatedArgs {
                        values: Ok(seq![v] + values),
                        console: rest.console,
                    },
                }
            },
        }
    }
}

/// The result of calling the function `name` with `args`, its body
/// running on `fuel`.
///
/// The body starts in a fresh environment that binds the parameters by
/// position; arguments beyond the parameters are ignored.  A body that
/// ends without a `return` yields the integer 0.
pub open spec fn call_function(
    program: Program,
    fuel: nat,
    name: Seq<char>,
    args: Seq<ValueView>,
    console: ConsoleView,
) -> Evaluated
    decreases fuel, 2nat,
{
    if !program.contains_key(name) {
        Evaluated { value: Err(RuntimeError::UnknownFunction), console }
    } else if args.len() < program[name].params.len() {
        Evaluated { value: Err(RuntimeError::TooFewArguments), console }
    } else {
        let f = program[name];
        let env = bind_params(f.params, args, f.params.len());
        let done = exec_block(program, fuel, f.body, 0, env, console);
        match done.flow {
            Err(e) => Evaluated { value: Err(e), console: done.console },
            Ok(Some(v)) => Evaluated { value: Ok(v), console: done.console },
            Ok(None) => Evaluated { value: Ok(ValueView::Int(0)), console: done.console },
        }
    }
}

/// The result of executing the statements from position `i` on, one after
/// the other, until one of them returns or fails.
pub open spec fn exec_block(
    program: Program,
    fuel: nat,
    statements: Seq<StatementView>,
    i: nat,
    env: Env,
    console: ConsoleView,
) -> Executed
    decreases fuel, 1nat, statements, statements.len() - i,
{
    if i >= statements.len() {
        Executed { flow: Ok(None), env, console }
    } else {
        let first = exec_statement(program, fuel, statements[i as int], env, console);
        match first.flow {
            Ok(None) => exec_block(program, fuel, statements, i + 1, first.env, first.console),
            _ => first,
        }
    }
}

/// The result of executing one statement.
pub open spec fn exec_statement(
    program: Program,
    fuel: nat,
    statement: StatementView,
    env: Env,
    console: ConsoleView,
) -> Executed
    decreases fuel, 1nat, statement, 0nat,
{
    match statement {
        StatementView::Assign { is_declaration, variable, right_hand } => {
            let rhs = eval_expr(program, fuel, right_hand, env, console);
            match rhs.value {
                Err(e) => Executed { flow: Err(e), env, console: rhs.console },
                Ok(v) => match variable {
                    ExprView::Variable(name) => if is_declaration && env.contains_key(name) {
                        Executed {
                            flow: Err(RuntimeError::DuplicateDeclaration),
                            env,
                            console: rhs.console,
                        }
                    } else if !is_declaration && !env.contains_key(name) {
                        Executed {
                            flow: Err(RuntimeError::AssignToUndeclared),
                            env,
                            console: rhs.console,
                        }
                    } else {
                        Executed { flow: Ok(None), env: env.insert(name, v), console: rhs.console }
                    },
                    _ => Executed {
                        flow: Err(RuntimeError::InvalidTarget),
                        env,
                        console: rhs.console,
                    },
                },
            }
        },
        StatementView::If { conditional, body } => {
            let cond = eval_expr(program, fuel, conditional, env, console);
            match cond.value {
                Err(e) => Executed { flow: Err(e), env, console: cond.console },
                Ok(v) => if truthy(v) {
                    exec_block(program, fuel, body, 0, env, cond.console)
                } else {
                    Executed { flow: Ok(None), env, console: cond.console }
                },
            }
        },
        StatementView::While { conditional, body } => exec_while(
            program,
            fuel,
            conditional,
            body,
            env,
            console,
        ),
        StatementView::Call(e) => {
            let called = eval_expr(program, fuel, e, env, console);
            match called.value {
                Err(e) => Executed { flow: Err(e), env, console: called.console },
                Ok(_) => Executed { flow: Ok(None), env, console: called.console },
            }
        },
        StatementView::Print(e) => {
            let shown = eval_expr(program, fuel, e, env, console);
            match shown.value {
                Err(e) => Executed { flow: Err(e), env, console: shown.console },
                Ok(v) => Executed {
                    flow: Ok(None),
                    env,
                    console: ConsoleView {
                        input: shown.console.input,
                        output: shown.console.output.push(v),
                    },
                },
            }
        },
        StatementView::Return(e) => {
            let result = eval_expr(program, fuel, e, env, console);
            match result.value {
                Err(e) => Executed { flow: Err(e), env, console: result.console },
                Ok(v) => Executed { flow: Ok(Some(v)), env, console: result.console },
            }
        },
        StatementView::Input(target) => match target {
            ExprView::Variable(name) => if console.input.len() > 0 {
                Executed {
                    flow: Ok(None),
                    env: env.insert(name, input_value(console.input[0])),
                    console: ConsoleView { input: console.input.skip(1), output: console.output },
                }
            } else {
                Executed {
                    flow: Ok(None),
                    env: env.insert(name, ValueView::Str(Seq::empty())),
                    console,
                }
            },
            _ => Executed { flow: Err(RuntimeError::InvalidTarget), env, console },
        },
        StatementView::Drop(target) => match target {
            ExprView::Variable(name) => Executed { flow: Ok(None), env: env.remove(name), console },
            _ => Executed { flow: Err(RuntimeError::InvalidTarget), env, console },
        },
    }
}

/// The result of a `while` loop: as long as the condition is true and a
/// unit of fuel is left, the body runs on the remaining fuel.
pub open spec fn exec_while(
    program: Program,
    fuel: nat,
    conditional: ExprView,
    body: Seq<StatementView>,
    env: Env,
    console: ConsoleView,
) -> Executed
    decreases fuel, 1nat, body, body.len() + 1,
{
    let cond = eval_expr(program, fuel, conditional, env, console);
    match cond.value {
        Err(e) => Executed { flow: Err(e), env, console: cond.console },
        Ok(v) => if !truthy(v) {
            Executed { flow: Ok(None), env, console: cond.console }
        } else if fuel == 0 {
            Executed { flow: Err(RuntimeError::OutOfFuel), env, console: cond.console }
        } else {
            let turn = exec_block(program, (fuel - 1) as nat, body, 0, env, cond.console);
            match turn.flow {
                Ok(None) => exec_while(
                    program,
                    (fuel - 1) as nat,
                    conditional,
                    body,
                    turn.env,
                    turn.console,
                ),
                _ => turn,
            }
        },
    }
}

/// The statement that ends every function body of a loaded program.
pub open spec fn implicit_return() -> StatementView {
    StatementView::Return(ExprView::Val(ValueView::Int(0)))
}

/// `f` with `return 0;` behind its body.
pub open spec fn with_implicit_return(f: FunctionView) -> FunctionView {
    FunctionView { name: f.name, params: f.params, body: f.body.push(implicit_return()) }
}

/// The functions of `functions` by name.  Of two functions with one name
/// the later one stays.
pub open spec fn table(functions: Seq<FunctionView>) -> Program
    decreases functions.len(),
{
    if functions.len() == 0 {
        Map::empty()
    } else {
        table(functions.drop_last()).insert(functions.last().name, functions.last())
    }
}

/// The program that a list of function definitions stands for: each body
/// ends with `return 0;`, and of two functions with one name the later one
/// stays.
pub open spec fn load(functions: Seq<FunctionView>) -> Program {
    table(functions.map_values(|f: FunctionView| with_implicit_return(f)))
}

/// The function that the table shows for `name` is the last one of that
/// name.
pub proof fn lemma_table_last(functions: Seq<FunctionView>, name: Seq<char>, i: int)
    requires
        0 <= i < functions.len(),
        functions[i].name == name,
        forall|j: int| i < j < functions.len() ==> functions[j].name != name,
    ensures
        table(functions).contains_key(name),
        table(functions)[name] == functions[i],
    decreases functions.len(),
{
    if i < functions.len() - 1 {
        lemma_table_last(functions.drop_last(), name, i);
    }
}

/// The table shows nothing for a name that no function has.
pub proof fn lemma_table_none(functions: Seq<FunctionView>, name: Seq<char>)
    requires
        forall|j: int| 0 <= j < functions.len() ==> functions[j].name != name,
    ensures
        !table(functions).contains_key(name),
    decreases functions.len(),
{
    if functions.len() > 0 {
        lemma_table_none(functions.drop_last(), name);
    }
}

/// The result of running a program: its function `main`, called without
/// arguments.
pub open spec fn run(program: Program, fuel: nat, console: ConsoleView) -> Evaluated {
    call_function(program, fuel, "main"@, Seq::empty(), console)
}

} // verus!
