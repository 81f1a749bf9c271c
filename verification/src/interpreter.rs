//! The tree-walking interpreter.
//!
//! Every function here computes what [`crate::semantics`] defines: the
//! contracts say so, and Verus proves them.

use crate::ast::{
    expr_views, function_views, lemma_binop_view, lemma_call_view, lemma_expr_views, name_views,
    statement_views, Assignment, BuiltIn, ExprAST, ExprView, FunctionAST, FunctionView, IfBlock,
    Statement, StatementView, Value, ValueView, WhileBlock,
};
use crate::environment::Environment;
use crate::lexer::{decimal_value, is_digit, lemma_decimal_value_push, Operator};
use crate::semantics::{
    all_digits, apply_binop, bind_params, call_function, eval_args, eval_expr, exec_block,
    exec_statement, exec_while, flag, implicit_return, input_value, lemma_table_last,
    lemma_table_none, load, parse_integer, quotient, run, table, text_less, truthy, value_less,
    with_implicit_return, ConsoleView, Program, RuntimeError,
};
use vstd::prelude::*;
use vstd::string::*;

verus! {

/// The values of a vector of values, in order.
pub open spec fn value_views(values: &Vec<Value>) -> Seq<ValueView> {
    Seq::new(values.len() as nat, |i: int| values[i]@)
}

/// The values of a vector of lines, in order.
pub open spec fn line_views(lines: &Vec<String>) -> Seq<Seq<char>> {
    Seq::new(lines.len() as nat, |i: int| lines[i]@)
}

/// What evaluating an expression returns, as a mathematical value.
pub open spec fn value_result_view(r: Result<Value, RuntimeError>) -> Result<
    ValueView,
    RuntimeError,
> {
    match r {
        Ok(v) => Ok(v@),
        Err(e) => Err(e),
    }
}

/// What executing a statement returns, as a mathematical value.
pub open spec fn flow_view(r: Result<Option<Value>, RuntimeError>) -> Result<
    Option<ValueView>,
    RuntimeError,
> {
    match r {
        Ok(Some(v)) => Ok(Some(v@)),
        Ok(None) => Ok(None),
        Err(e) => Err(e),
    }
}

/// Whether `v` counts as true.
fn is_true(v: &Value) -> (r: bool)
    ensures
        r == truthy(v@),
{
    match v {
        Value::Str(_) => true,
        Value::Int(n) => *n != 0,
    }
}

/// The integer that stands for `b`.
fn flag_value(b: bool) -> (r: Value)
    ensures
        r@ == flag(b),
{
    if b {
        Value::Int(1)
    } else {
        Value::Int(0)
    }
}

/// Whether `a` comes before `b`, character by character.
fn text_before(a: &String, b: &String) -> (r: bool)
    ensures
        r == text_less(a@, b@),
{
    let x = a.as_str();
    let y = b.as_str();
    let n = x.unicode_len();
    let m = y.unicode_len();
    let mut i: usize = 0;
    proof {
        assert(a@.skip(0) =~= a@);
        assert(b@.skip(0) =~= b@);
    }
    loop
        invariant
            i <= n,
            i <= m,
            n == a@.len(),
            m == b@.len(),
            x@ == a@,
            y@ == b@,
            text_less(a@, b@) == text_less(a@.skip(i as int), b@.skip(i as int)),
        decreases n - i,
    {
        if i >= m {
            return false;
        }
        if i >= n {
            return true;
        }
        let c = x.get_char(i);
        let d = y.get_char(i);
        if c != d {
            return c < d;
        }
        proof {
            assert(a@.skip(i as int).drop_first() =~= a@.skip(i + 1));
            assert(b@.skip(i as int).drop_first() =~= b@.skip(i + 1));
        }
        i += 1;
    }
}

/// Whether `a` orders before `b`.
fn value_before(a: &Value, b: &Value) -> (r: bool)
    ensures
        r == value_less(a@, b@),
{
    match a {
        Value::Str(x) => match b {
            Value::Str(y) => text_before(x, y),
            Value::Int(_) => true,
        },
        Value::Int(x) => match b {
            Value::Str(_) => false,
            Value::Int(y) => *x < *y,
        },
    }
}

/// Whether `a` and `b` are the same value.
fn value_same(a: &Value, b: &Value) -> (r: bool)
    ensures
        r == (a@ == b@),
{
    match a {
        Value::Str(x) => match b {
            Value::Str(y) => *x == *y,
            Value::Int(_) => false,
        },
        Value::Int(x) => match b {
            Value::Str(_) => false,
            Value::Int(y) => *x == *y,
        },
    }
}

/// The quotient of `l` by `r`, rounded towards zero.
fn divide(l: i32, r: i32) -> (q: i32)
    requires
        r != 0,
    ensures
        q == quotient(l, r),
{
    let a: u64 = if l < 0 {
        (-(l as i64)) as u64
    } else {
        l as u64
    };
    let b: u64 = if r < 0 {
        (-(r as i64)) as u64
    } else {
        r as u64
    };
    let q: u64 = a / b;
    assert(q <= a) by (nonlinear_arith)
        requires
            q == a / b,
            b > 0,
    ;
    if (l < 0) != (r < 0) {
        (-(q as i64)) as i32
    } else if q > 0x7fff_ffff {
        i32::MIN
    } else {
        q as i32
    }
}

/// The result of `op` on `l` and `r`.
fn apply(op: Operator, l: &Value, r: &Value) -> (res: Result<Value, RuntimeError>)
    ensures
        value_result_view(res) == apply_binop(op, l@, r@),
{
    match op {
        Operator::And => Ok(flag_value(is_true(l) && is_true(r))),
        Operator::Or => Ok(flag_value(is_true(l) || is_true(r))),
        Operator::Xor => Ok(flag_value(is_true(l) != is_true(r))),
        Operator::LEq => Ok(flag_value(!value_before(r, l))),
        Operator::GEq => Ok(flag_value(!value_before(l, r))),
        Operator::Eq => Ok(flag_value(value_same(l, r))),
        Operator::Ls => Ok(flag_value(value_before(l, r))),
        Operator::Gr => Ok(flag_value(value_before(r, l))),
        _ => {
            let Value::Int(x) = l else {
                return Err(RuntimeError::TypeMismatch);
            };
            let Value::Int(y) = r else {
                return Err(RuntimeError::TypeMismatch);
            };
            let x = *x;
            let y = *y;
            match op {
                Operator::BAnd => Ok(Value::Int(x & y)),
                Operator::BOr => Ok(Value::Int(x | y)),
                Operator::BXor => Ok(Value::Int(x ^ y)),
                Operator::Add => Ok(Value::Int(x.wrapping_add(y))),
                Operator::Sub => Ok(Value::Int(x.wrapping_sub(y))),
                Operator::Mult => Ok(Value::Int(x.wrapping_mul(y))),
                _ => if y == 0 {
                    Err(RuntimeError::DivisionByZero)
                } else {
                    Ok(Value::Int(divide(x, y)))
                },
            }
        },
    }
}

/// A number as the reader of integers records it: anything above the
/// largest magnitude of an `i32` counts for one value.
spec fn capped(n: nat) -> nat {
    if n > 0x8000_0000 {
        0x8000_0001
    } else {
        n
    }
}

/// The integer that `line` denotes, if it denotes one.
fn read_integer(line: &String) -> (r: Option<i32>)
    ensures
        r == parse_integer(line@),
{
    let text = line.as_str();
    let n = text.unicode_len();
    if n == 0 {
        return None;
    }
    let first = text.get_char(0);
    let start: usize = if first == '-' || first == '+' {
        1
    } else {
        0
    };
    if start == n {
        return None;
    }
    let ghost digits = line@.skip(start as int);
    proof {
        assert(line@.skip(0) =~= line@);
    }
    let mut i: usize = start;
    let mut value: u64 = 0;
    proof {
        assert(line@.subrange(start as int, start as int) =~= Seq::<char>::empty());
    }
    while i < n
        invariant
            start <= i <= n,
            0 < n == line@.len(),
            text@ == line@,
            first == line@[0],
            start == (if first == '-' || first == '+' {
                1usize
            } else {
                0usize
            }),
            line@.skip(0) == line@,
            digits == line@.skip(start as int),
            forall|j: int| start <= j < i ==> is_digit(line@[j]),
            value == capped(decimal_value(line@.subrange(start as int, i as int))),
        decreases n - i,
    {
        let c = text.get_char(i);
        if !(c >= '0' && c <= '9') {
            proof {
                assert(digits[i - start] == c);
            }
            return None;
        }
        let digit = (c as u32 - '0' as u32) as u64;
        proof {
            lemma_decimal_value_push(line@.subrange(start as int, i as int), c);
            assert(line@.subrange(start as int, i as int).push(c) =~= line@.subrange(
                start as int,
                i + 1,
            ));
        }
        value = value * 10 + digit;
        if value > 0x8000_0000 {
            value = 0x8000_0001;
        }
        i += 1;
    }
    proof {
        assert(line@.subrange(start as int, n as int) =~= digits);
        assert(all_digits(digits)) by {
            assert forall|j: int| 0 <= j < digits.len() implies is_digit(#[trigger] digits[j]) by {
                assert(digits[j] == line@[j + start]);
            }
        }
    }
    if first == '-' {
        if value <= 0x8000_0000 {
            Some((-(value as i64)) as i32)
        } else {
            None
        }
    } else {
        if value <= 0x7fff_ffff {
            Some(value as i32)
        } else {
            None
        }
    }
}

/// The lines that `input` reads and the values that `print` writes.
struct Console {
    input: Vec<String>,
    consumed: usize,
    output: Vec<Value>,
}

impl View for Console {
    type V = ConsoleView;

    closed spec fn view(&self) -> ConsoleView {
        ConsoleView {
            input: line_views(&self.input).skip(self.consumed as int),
            output: value_views(&self.output),
        }
    }
}

impl Console {
    closed spec fn wf(&self) -> bool {
        self.consumed <= self.input.len()
    }

    /// Appends `v` to the output.
    fn write(&mut self, v: Value)
        requires
            old(self).wf(),
        ensures
            final(self).wf(),
            final(self)@ == (ConsoleView { input: old(self)@.input, output: old(self)@.output.push(v@) }),
    {
        self.output.push(v);
        proof {
            assert(value_views(&self.output) =~= value_views(&old(self).output).push(v@));
        }
    }

    /// Takes the next line of input, if one is left, as the value it
    /// stands for.
    fn read(&mut self) -> (r: Value)
        requires
            old(self).wf(),
        ensures
            final(self).wf(),
            old(self)@.input.len() > 0 ==> r@ == input_value(old(self)@.input[0]) && final(self)@ == (
            ConsoleView { input: old(self)@.input.skip(1), output: old(self)@.output }),
            old(self)@.input.len() == 0 ==> r@ == ValueView::Str(Seq::empty()) && final(self)@
                == old(self)@,
    {
        if self.consumed < self.input.len() {
            let line = &self.input[self.consumed];
            let value = match read_integer(line) {
                Some(n) => Value::Int(n),
                None => Value::Str(line.clone()),
            };
            self.consumed = self.consumed + 1;
            proof {
                assert(line_views(&self.input).skip(old(self).consumed as int).skip(1)
                    =~= line_views(&self.input).skip(self.consumed as int));
            }
            value
        } else {
            Value::Str(String::new())
        }
    }
}

/// The interpreter: the functions of a program, ready to run.
pub struct InterpretingMastermind {
    funcmap: Vec<FunctionAST>,
}

impl View for InterpretingMastermind {
    type V = Program;

    /// The functions by name.
    closed spec fn view(&self) -> Program {
        table(function_views(&self.funcmap))
    }
}

impl InterpretingMastermind {
    /// Loads a program: appends `return 0;` to every body and files the
    /// functions by name.
    pub fn new(funcvec: Vec<FunctionAST>) -> (machine: Self)
        ensures
            machine@ == load(function_views(&funcvec)),
    {
        let ghost source = function_views(&funcvec);
        let ghost target = source.map_values(|f: FunctionView| with_implicit_return(f));
        let mut funcvec = funcvec;
        let mut reversed: Vec<FunctionAST> = Vec::new();
        while funcvec.len() > 0
            invariant
                funcvec.len() + reversed.len() == source.len(),
                forall|i: int| 0 <= i < funcvec.len() ==> funcvec[i]@ == source[i],
                forall|i: int|
                    0 <= i < reversed.len() ==> reversed[i]@ == source[source.len() - 1 - i],
            decreases funcvec.len(),
        {
            let f = funcvec.pop().unwrap();
            reversed.push(f);
        }
        let mut funcmap: Vec<FunctionAST> = Vec::new();
        while reversed.len() > 0
            invariant
                funcmap.len() + reversed.len() == source.len(),
                target == source.map_values(|f: FunctionView| with_implicit_return(f)),
                forall|i: int|
                    0 <= i < reversed.len() ==> reversed[i]@ == source[source.len() - 1 - i],
                function_views(&funcmap) == target.take(funcmap.len() as int),
            decreases reversed.len(),
        {
            let ghost k = funcmap.len() as int;
            let mut f = reversed.pop().unwrap();
            assert(f@ == source[k]);
            let ghost before = f;
            let ret = Statement::Built(BuiltIn::Return(ExprAST::Val(Value::Int(0))));
            assert(ret@ == implicit_return());
            f.body.push(ret);
            proof {
                assert(f.proto == before.proto);
                assert(statement_views(&f.body) =~= statement_views(&before.body).push(
                    implicit_return(),
                ));
                assert(target[k] == with_implicit_return(source[k]));
                assert(f@ == target[k]);
            }
            funcmap.push(f);
            proof {
                assert(function_views(&funcmap) =~= target.take(k + 1));
            }
        }
        proof {
            assert(target.take(funcmap.len() as int) =~= target);
        }
        InterpretingMastermind { funcmap }
    }

    /// The function of the given name, if the program has one.
    fn find(&self, name: &String) -> (r: Option<&FunctionAST>)
        ensures
            match r {
                Some(f) => self@.contains_key(name@) && self@[name@] == f@,
                None => !self@.contains_key(name@),
            },
    {
        let ghost functions = function_views(&self.funcmap);
        let mut i: usize = self.funcmap.len();
        while i > 0
            invariant
                i <= self.funcmap.len(),
                functions == function_views(&self.funcmap),
                forall|j: int| i <= j < functions.len() ==> functions[j].name != name@,
            decreases i,
        {
            i -= 1;
            if self.funcmap[i].proto.name == *name {
                proof {
                    lemma_table_last(functions, name@, i as int);
                }
                return Some(&self.funcmap[i]);
            }
        }
        proof {
            lemma_table_none(functions, name@);
        }
        None
    }

    /// Runs the function `main` without arguments on `fuel`, with `input`
    /// as the lines that `input` statements read.  Returns what `main`
    /// returned, or the error that stopped the run, and the values printed
    /// up to there.
    pub fn run_main(&self, input: Vec<String>, fuel: u64) -> (r: (
        Result<Value, RuntimeError>,
        Vec<Value>,
    ))
        ensures
            ({
                let outcome = run(
                    self@,
                    fuel as nat,
                    ConsoleView { input: line_views(&input), output: Seq::empty() },
                );
                &&& value_result_view(r.0) == outcome.value
                &&& value_views(&r.1) == outcome.console.output
            }),
    {
        let mut console = Console { input, consumed: 0, output: Vec::new() };
        proof {
            assert(console@.input =~= line_views(&input));
            assert(console@.output =~= Seq::<ValueView>::empty());
        }
        let name = "main".to_string();
        let args: Vec<Value> = Vec::new();
        proof {
            assert(value_views(&args) =~= Seq::<ValueView>::empty());
        }
        let result = self.run_function(fuel, &name, args, &mut console);
        (result, console.output)
    }

    /// Calls the function `func_name` with `args`.
    fn run_function(
        &self,
        fuel: u64,
        func_name: &String,
        args: Vec<Value>,
        console: &mut Console,
    ) -> (r: Result<Value, RuntimeError>)
        requires
            old(console).wf(),
        ensures
            final(console).wf(),
            ({
                let m = call_function(
                    self@,
                    fuel as nat,
                    func_name@,
                    value_views(&args),
                    old(console)@,
                );
                &&& value_result_view(r) == m.value
                &&& final(console)@ == m.console
            }),
        decreases fuel, 3nat,
    {
        let Some(func) = self.find(func_name) else {
            return Err(RuntimeError::UnknownFunction);
        };
        let params = &func.proto.args;
        if args.len() < params.len() {
            return Err(RuntimeError::TooFewArguments);
        }
        let mut env = Environment::new();
        let mut i: usize = 0;
        while i < params.len()
            invariant
                i <= params.len(),
                params.len() <= args.len(),
                env.wf(),
                env@ == bind_params(name_views(params), value_views(&args), i as nat),
            decreases params.len() - i,
        {
            env.insert(params[i].clone(), args[i].clone());
            i += 1;
        }
        match self.run_block(fuel, &func.body, &mut env, console) {
            Err(e) => Err(e),
            Ok(Some(v)) => Ok(v),
            Ok(None) => Ok(Value::Int(0)),
        }
    }

    /// Executes `statements` in order until one returns or fails.
    fn run_block(
        &self,
        fuel: u64,
        statements: &Vec<Statement>,
        env: &mut Environment,
        console: &mut Console,
    ) -> (r: Result<Option<Value>, RuntimeError>)
        requires
            old(env).wf(),
            old(console).wf(),
        ensures
            final(env).wf(),
            final(console).wf(),
            ({
                let m = exec_block(
                    self@,
                    fuel as nat,
                    statement_views(statements),
                    0,
                    old(env)@,
                    old(console)@,
                );
                &&& flow_view(r) == m.flow
                &&& final(env)@ == m.env
                &&& final(console)@ == m.console
            }),
        decreases fuel, 2nat, statements, 1nat,
    {
        let mut i: usize = 0;
        while i < statements.len()
            invariant
                i <= statements.len(),
                env.wf(),
                console.wf(),
                exec_block(
                    self@,
                    fuel as nat,
                    statement_views(statements),
                    0,
                    old(env)@,
                    old(console)@,
                ) == exec_block(
                    self@,
                    fuel as nat,
                    statement_views(statements),
                    i as nat,
                    env@,
                    console@,
                ),
            decreases statements.len() - i,
        {
            match self.run_statement(fuel, &statements[i], env, console) {
                Ok(None) => {},
                other => {
                    return other;
                },
            }
            i += 1;
        }
        Ok(None)
    }

    /// Executes one statement.
    fn run_statement(
        &self,
        fuel: u64,
        statement: &Statement,
        env: &mut Environment,
        console: &mut Console,
    ) -> (r: Result<Option<Value>, RuntimeError>)
        requires
            old(env).wf(),
            old(console).wf(),
        ensures
            final(env).wf(),
            final(console).wf(),
            ({
                let m = exec_statement(
                    self@,
                    fuel as nat,
                    statement@,
                    old(env)@,
                    old(console)@,
                );
                &&& flow_view(r) == m.flow
                &&& final(env)@ == m.env
                &&& final(console)@ == m.console
            }),
        decreases fuel, 2nat, statement, 0nat,
    {
        match statement {
            Statement::Assign(x) => self.run_assignment(fuel, x, env, console),
            Statement::Call(x) => {
                match self.eval_expr(fuel, x, env, console) {
                    Err(e) => Err(e),
                    Ok(_) => Ok(None),
                }
            },
            Statement::If(x) => self.run_if_block(fuel, x, env, console),
            Statement::While(x) => self.run_while_block(fuel, x, env, console),
            Statement::Built(x) => self.run_built(fuel, x, env, console),
        }
    }

    /// Executes a declaration or a plain assignment.
    fn run_assignment(
        &self,
        fuel: u64,
        assignment: &Assignment,
        env: &mut Environment,
        console: &mut Console,
    ) -> (r: Result<Option<Value>, RuntimeError>)
        requires
            old(env).wf(),
            old(console).wf(),
        ensures
            final(env).wf(),
            final(console).wf(),
            ({
                let m = exec_statement(
                    self@,
                    fuel as nat,
                    (StatementView::Assign {
                        is_declaration: assignment.is_declaration,
                        variable: assignment.variable@,
                        right_hand: assignment.right_hand@,
                    }),
                    old(env)@,
                    old(console)@,
                );
                &&& flow_view(r) == m.flow
                &&& final(env)@ == m.env
                &&& final(console)@ == m.console
            }),
        decreases fuel, 1nat,
    {
        let rhs = match self.eval_expr(fuel, &assignment.right_hand, env, console) {
            Err(e) => {
                return Err(e);
            },
            Ok(v) => v,
        };
        let ExprAST::Variable(ref varname) = assignment.variable else {
            return Err(RuntimeError::InvalidTarget);
        };
        if assignment.is_declaration {
            if env.contains(varname) {
                return Err(RuntimeError::DuplicateDeclaration);
            }
            env.insert(varname.clone(), rhs);
        } else {
            if !env.contains(varname) {
                return Err(RuntimeError::AssignToUndeclared);
            }
            env.insert(varname.clone(), rhs);
        }
        Ok(None)
    }

    /// Executes an `if` block.
    fn run_if_block(
        &self,
        fuel: u64,
        if_block: &IfBlock,
        env: &mut Environment,
        console: &mut Console,
    ) -> (r: Result<Option<Value>, RuntimeError>)
        requires
            old(env).wf(),
            old(console).wf(),
        ensures
            final(env).wf(),
            final(console).wf(),
            ({
                let m = exec_statement(
                    self@,
                    fuel as nat,
                    (StatementView::If {
                        conditional: if_block.conditional@,
                        body: statement_views(&if_block.body),
                    }),
                    old(env)@,
                    old(console)@,
                );
                &&& flow_view(r) == m.flow
                &&& final(env)@ == m.env
                &&& final(console)@ == m.console
            }),
        decreases fuel, 2nat, if_block, 0nat,
    {
        let cond = match self.eval_expr(fuel, &if_block.conditional, env, console) {
            Err(e) => {
                return Err(e);
            },
            Ok(v) => v,
        };
        if is_true(&cond) {
            self.run_block(fuel, &if_block.body, env, console)
        } else {
            Ok(None)
        }
    }

    /// Executes a `while` block.
    fn run_while_block(
        &self,
        fuel: u64,
        while_block: &WhileBlock,
        env: &mut Environment,
        console: &mut Console,
    ) -> (r: Result<Option<Value>, RuntimeError>)
        requires
            old(env).wf(),
            old(console).wf(),
        ensures
            final(env).wf(),
            final(console).wf(),
            ({
                let m = exec_while(
                    self@,
                    fuel as nat,
                    while_block.conditional@,
                    statement_views(&while_block.body),
                    old(env)@,
                    old(console)@,
                );
                &&& flow_view(r) == m.flow
                &&& final(env)@ == m.env
                &&& final(console)@ == m.console
            }),
        decreases fuel, 2nat, while_block, 0nat,
    {
        let mut left: u64 = fuel;
        loop
            invariant
                left <= fuel,
                env.wf(),
                console.wf(),
                exec_while(
                    self@,
                    fuel as nat,
                    while_block.conditional@,
                    statement_views(&while_block.body),
                    old(env)@,
                    old(console)@,
                ) == exec_while(
                    self@,
                    left as nat,
                    while_block.conditional@,
                    statement_views(&while_block.body),
                    env@,
                    console@,
                ),
            decreases left,
        {
            let cond = match self.eval_expr(left, &while_block.conditional, env, console) {
                Err(e) => {
                    return Err(e);
                },
                Ok(v) => v,
            };
            if !is_true(&cond) {
                return Ok(None);
            }
            if left == 0 {
                return Err(RuntimeError::OutOfFuel);
            }
            left -= 1;
            match self.run_block(left, &while_block.body, env, console) {
                Ok(None) => {},
                other => {
                    return other;
                },
            }
        }
    }

    /// Executes a built-in.
    fn run_built(
        &self,
        fuel: u64,
        built: &BuiltIn,
        env: &mut Environment,
        console: &mut Console,
    ) -> (r: Result<Option<Value>, RuntimeError>)
        requires
            old(env).wf(),
            old(console).wf(),
        ensures
            final(env).wf(),
            final(console).wf(),
            ({
                let m = exec_statement(
                    self@,
                    fuel as nat,
                    Statement::Built(*built)@,
                    old(env)@,
                    old(console)@,
                );
                &&& flow_view(r) == m.flow
                &&& final(env)@ == m.env
                &&& final(console)@ == m.console
            }),
        decreases fuel, 1nat,
    {
        match built {
            BuiltIn::Print(x) => {
                match self.eval_expr(fuel, x, env, console) {
                    Err(e) => Err(e),
                    Ok(v) => {
                        console.write(v);
                        Ok(None)
                    },
                }
            },
            BuiltIn::Input(x) => {
                let ExprAST::Variable(name) = x else {
                    return Err(RuntimeError::InvalidTarget);
                };
                let value = console.read();
                env.insert(name.clone(), value);
                Ok(None)
            },
            BuiltIn::Drop(x) => {
                let ExprAST::Variable(name) = x else {
                    return Err(RuntimeError::InvalidTarget);
                };
                env.remove(name);
                Ok(None)
            },
            BuiltIn::Return(x) => {
                match self.eval_expr(fuel, x, env, console) {
                    Err(e) => Err(e),
                    Ok(v) => Ok(Some(v)),
                }
            },
        }
    }

    /// Evaluates an expression.
    fn eval_expr(&self, fuel: u64, binop: &ExprAST, env: &Environment, console: &mut Console) -> (r:
        Result<Value, RuntimeError>)
        requires
            env.wf(),
            old(console).wf(),
        ensures
            final(console).wf(),
            ({
                let m = eval_expr(self@, fuel as nat, binop@, env@, old(console)@);
                &&& value_result_view(r) == m.value
                &&& final(console)@ == m.console
            }),
        decreases fuel, 0nat, binop, 0nat,
    {
        match binop {
            ExprAST::Variable(x) => match env.get(x) {
                Some(v) => Ok(v.clone()),
                None => Err(RuntimeError::UndeclaredVariable),
            },
            ExprAST::Val(x) => Ok(x.clone()),
            ExprAST::Call(name, exprvec) => {
                let mut argvec: Vec<Value> = Vec::new();
                let mut i: usize = 0;
                proof {
                    lemma_call_view(*name, *exprvec);
                    assert(value_views(&argvec) =~= Seq::<ValueView>::empty());
                }
                while i < exprvec.len()
                    invariant
                        i <= exprvec.len(),
                        env.wf(),
                        console.wf(),
                        decreases_to!(binop => exprvec),
                        binop@ == ExprView::Call(name@, expr_views(exprvec)),
                        ({
                            let all = eval_args(
                                self@,
                                fuel as nat,
                                expr_views(exprvec),
                                0,
                                env@,
                                old(console)@,
                            );
                            let rest = eval_args(
                                self@,
                                fuel as nat,
                                expr_views(exprvec),
                                i as nat,
                                env@,
                                console@,
                            );
                            &&& all.console == rest.console
                            &&& match rest.values {
                                Ok(values) => all.values == Ok::<Seq<ValueView>, RuntimeError>(
                                    value_views(&argvec) + values,
                                ),
                                Err(e) => all.values == Err::<Seq<ValueView>, RuntimeError>(e),
                            }
                        }),
                    decreases exprvec.len() - i,
                {
                    let ghost sofar = value_views(&argvec);
                    proof {
                        lemma_expr_views(exprvec);
                    }
                    match self.eval_expr(fuel, &exprvec[i], env, console) {
                        Err(e) => {
                            return Err(e);
                        },
                        Ok(v) => {
                            proof {
                                let rest = eval_args(
                                    self@,
                                    fuel as nat,
                                    expr_views(exprvec),
                                    (i + 1) as nat,
                                    env@,
                                    console@,
                                );
                                match rest.values {
                                    Ok(values) => {
                                        assert(sofar + (seq![v@] + values) =~= sofar.push(v@)
                                            + values);
                                    },
                                    Err(_) => {},
                                }
                            }
                            argvec.push(v);
                            proof {
                                assert(value_views(&argvec) =~= sofar.push(v@));
                            }
                        },
                    }
                    i += 1;
                }
                proof {
                    assert(value_views(&argvec) + Seq::<ValueView>::empty() =~= value_views(
                        &argvec,
                    ));
                }
                if fuel == 0 {
                    return Err(RuntimeError::OutOfFuel);
                }
                self.run_function(fuel - 1, name, argvec, console)
            },
            ExprAST::BinOp(op, lhs, rhs) => {
                proof {
                    lemma_binop_view(*op, *lhs, *rhs);
                }
                let lhs = match self.eval_expr(fuel, lhs, env, console) {
                    Err(e) => {
                        return Err(e);
                    },
                    Ok(v) => v,
                };
                let rhs = match self.eval_expr(fuel, rhs, env, console) {
                    Err(e) => {
                        return Err(e);
                    },
                    Ok(v) => v,
                };
                apply(*op, &lhs, &rhs)
            },
        }
    }
}

} // verus!
