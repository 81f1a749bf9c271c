use willscript::ast::{
    Assignment, BuiltIn, ExprAST, FunctionAST, IfBlock, PrototypeAST, Statement, Value, WhileBlock,
};
use willscript::interpreter::InterpretingMastermind;
use willscript::lexer::Operator;
use willscript::semantics::RuntimeError;

const FUEL: u64 = 10_000;

fn var(name: &str) -> ExprAST {
    ExprAST::Variable(name.to_string())
}

fn num(n: i32) -> ExprAST {
    ExprAST::Val(Value::Int(n))
}

fn text(s: &str) -> ExprAST {
    ExprAST::Val(Value::Str(s.to_string()))
}

fn bin(op: Operator, lhs: ExprAST, rhs: ExprAST) -> ExprAST {
    ExprAST::BinOp(op, Box::new(lhs), Box::new(rhs))
}

fn call(name: &str, args: Vec<ExprAST>) -> ExprAST {
    ExprAST::Call(name.to_string(), args)
}

fn declare(name: &str, e: ExprAST) -> Statement {
    Statement::Assign(Assignment::new(true, var(name), e))
}

fn assign(name: &str, e: ExprAST) -> Statement {
    Statement::Assign(Assignment::new(false, var(name), e))
}

fn print(e: ExprAST) -> Statement {
    Statement::Built(BuiltIn::Print(e))
}

fn ret(e: ExprAST) -> Statement {
    Statement::Built(BuiltIn::Return(e))
}

fn input(name: &str) -> Statement {
    Statement::Built(BuiltIn::Input(var(name)))
}

fn drop_var(name: &str) -> Statement {
    Statement::Built(BuiltIn::Drop(var(name)))
}

fn when(cond: ExprAST, body: Vec<Statement>) -> Statement {
    Statement::If(IfBlock::new(cond, body))
}

fn repeat(cond: ExprAST, body: Vec<Statement>) -> Statement {
    Statement::While(WhileBlock::new(cond, body))
}

fn function(name: &str, params: &[&str], body: Vec<Statement>) -> FunctionAST {
    FunctionAST::new(
        PrototypeAST::new(name.to_string(), params.iter().map(|p| p.to_string()).collect()),
        body,
    )
}

fn run_with(
    functions: Vec<FunctionAST>,
    lines: &[&str],
    fuel: u64,
) -> (Result<Value, RuntimeError>, Vec<Value>) {
    let machine = InterpretingMastermind::new(functions);
    machine.run_main(lines.iter().map(|l| l.to_string()).collect(), fuel)
}

/// Runs a `main` with the given body.
fn run_body(body: Vec<Statement>) -> (Result<Value, RuntimeError>, Vec<Value>) {
    run_with(vec![function("main", &[], body)], &[], FUEL)
}

/// The value of `e`, evaluated as the result of `main`.
fn eval(e: ExprAST) -> Result<Value, RuntimeError> {
    run_body(vec![ret(e)]).0
}

fn ints(values: &[i32]) -> Vec<Value> {
    values.iter().map(|n| Value::Int(*n)).collect()
}

#[test]
fn a_literal_is_its_own_value() {
    assert_eq!(eval(num(7)), Ok(Value::Int(7)));
    assert_eq!(eval(text("abc")), Ok(Value::Str("abc".to_string())));
}

#[test]
fn arithmetic_on_integers() {
    assert_eq!(eval(bin(Operator::Add, num(2), num(3))), Ok(Value::Int(5)));
    assert_eq!(eval(bin(Operator::Sub, num(2), num(3))), Ok(Value::Int(-1)));
    assert_eq!(eval(bin(Operator::Mult, num(-4), num(3))), Ok(Value::Int(-12)));
    assert_eq!(eval(bin(Operator::Div, num(7), num(2))), Ok(Value::Int(3)));
}

#[test]
fn arithmetic_wraps_around() {
    assert_eq!(eval(bin(Operator::Add, num(i32::MAX), num(1))), Ok(Value::Int(i32::MIN)));
    assert_eq!(eval(bin(Operator::Sub, num(i32::MIN), num(1))), Ok(Value::Int(i32::MAX)));
    assert_eq!(eval(bin(Operator::Mult, num(65536), num(65536))), Ok(Value::Int(0)));
    assert_eq!(
        eval(bin(Operator::Mult, num(123456789), num(1000))),
        Ok(Value::Int(123456789i32.wrapping_mul(1000)))
    );
    assert_eq!(eval(bin(Operator::Mult, num(i32::MIN), num(-1))), Ok(Value::Int(i32::MIN)));
}

#[test]
fn division_rounds_towards_zero() {
    assert_eq!(eval(bin(Operator::Div, num(7), num(-2))), Ok(Value::Int(-3)));
    assert_eq!(eval(bin(Operator::Div, num(-7), num(2))), Ok(Value::Int(-3)));
    assert_eq!(eval(bin(Operator::Div, num(-7), num(-2))), Ok(Value::Int(3)));
    assert_eq!(eval(bin(Operator::Div, num(0), num(-5))), Ok(Value::Int(0)));
    assert_eq!(eval(bin(Operator::Div, num(i32::MIN), num(2))), Ok(Value::Int(-1073741824)));
    assert_eq!(eval(bin(Operator::Div, num(i32::MIN), num(i32::MIN))), Ok(Value::Int(1)));
    assert_eq!(eval(bin(Operator::Div, num(i32::MAX), num(i32::MIN))), Ok(Value::Int(0)));
}

#[test]
fn the_one_quotient_that_does_not_fit_wraps_around() {
    assert_eq!(eval(bin(Operator::Div, num(i32::MIN), num(-1))), Ok(Value::Int(i32::MIN)));
}

#[test]
fn division_by_zero_is_an_error() {
    assert_eq!(eval(bin(Operator::Div, num(1), num(0))), Err(RuntimeError::DivisionByZero));
    assert_eq!(eval(bin(Operator::Div, num(0), num(0))), Err(RuntimeError::DivisionByZero));
}

#[test]
fn bitwise_operators_on_integers() {
    assert_eq!(eval(bin(Operator::BAnd, num(12), num(10))), Ok(Value::Int(8)));
    assert_eq!(eval(bin(Operator::BOr, num(12), num(10))), Ok(Value::Int(14)));
    assert_eq!(eval(bin(Operator::BXor, num(12), num(10))), Ok(Value::Int(6)));
    assert_eq!(eval(bin(Operator::BAnd, num(-1), num(255))), Ok(Value::Int(255)));
    assert_eq!(eval(bin(Operator::BXor, num(-1), num(0))), Ok(Value::Int(-1)));
}

#[test]
fn integer_operators_refuse_strings() {
    for op in [
        Operator::BAnd,
        Operator::BOr,
        Operator::BXor,
        Operator::Add,
        Operator::Sub,
        Operator::Mult,
        Operator::Div,
    ] {
        assert_eq!(eval(bin(op, text("a"), num(1))), Err(RuntimeError::TypeMismatch));
        assert_eq!(eval(bin(op, num(1), text("a"))), Err(RuntimeError::TypeMismatch));
        assert_eq!(eval(bin(op, text("a"), text("b"))), Err(RuntimeError::TypeMismatch));
    }
}

#[test]
fn a_string_divided_by_zero_is_a_type_error() {
    assert_eq!(eval(bin(Operator::Div, text("a"), num(0))), Err(RuntimeError::TypeMismatch));
}

#[test]
fn logical_operators_work_on_truth_values() {
    assert_eq!(eval(bin(Operator::And, num(2), num(3))), Ok(Value::Int(1)));
    assert_eq!(eval(bin(Operator::And, num(2), num(0))), Ok(Value::Int(0)));
    assert_eq!(eval(bin(Operator::And, num(0), num(0))), Ok(Value::Int(0)));
    assert_eq!(eval(bin(Operator::Or, num(0), num(3))), Ok(Value::Int(1)));
    assert_eq!(eval(bin(Operator::Or, num(0), num(0))), Ok(Value::Int(0)));
    assert_eq!(eval(bin(Operator::Xor, num(0), num(3))), Ok(Value::Int(1)));
    assert_eq!(eval(bin(Operator::Xor, num(5), num(0))), Ok(Value::Int(1)));
    assert_eq!(eval(bin(Operator::Xor, num(2), num(3))), Ok(Value::Int(0)));
    assert_eq!(eval(bin(Operator::Xor, num(0), num(0))), Ok(Value::Int(0)));
}

#[test]
fn every_string_is_true() {
    assert_eq!(eval(bin(Operator::And, text(""), text("0"))), Ok(Value::Int(1)));
    assert_eq!(eval(bin(Operator::Or, text(""), num(0))), Ok(Value::Int(1)));
    assert_eq!(eval(bin(Operator::Xor, text("x"), num(0))), Ok(Value::Int(1)));
}

#[test]
fn logical_operators_evaluate_both_sides() {
    // The right side fails although the left side alone decides.
    assert_eq!(
        eval(bin(Operator::And, num(0), var("missing"))),
        Err(RuntimeError::UndeclaredVariable)
    );
    assert_eq!(
        eval(bin(Operator::Or, num(1), bin(Operator::Div, num(1), num(0)))),
        Err(RuntimeError::DivisionByZero)
    );
}

#[test]
fn the_left_side_is_evaluated_first() {
    assert_eq!(
        eval(bin(Operator::Add, bin(Operator::Div, num(1), num(0)), var("missing"))),
        Err(RuntimeError::DivisionByZero)
    );
    assert_eq!(
        eval(bin(Operator::Add, var("missing"), bin(Operator::Div, num(1), num(0)))),
        Err(RuntimeError::UndeclaredVariable)
    );
}

#[test]
fn comparisons_of_integers() {
    assert_eq!(eval(bin(Operator::Ls, num(1), num(2))), Ok(Value::Int(1)));
    assert_eq!(eval(bin(Operator::Ls, num(2), num(2))), Ok(Value::Int(0)));
    assert_eq!(eval(bin(Operator::LEq, num(2), num(2))), Ok(Value::Int(1)));
    assert_eq!(eval(bin(Operator::LEq, num(3), num(2))), Ok(Value::Int(0)));
    assert_eq!(eval(bin(Operator::Gr, num(3), num(2))), Ok(Value::Int(1)));
    assert_eq!(eval(bin(Operator::Gr, num(-3), num(2))), Ok(Value::Int(0)));
    assert_eq!(eval(bin(Operator::GEq, num(2), num(2))), Ok(Value::Int(1)));
    assert_eq!(eval(bin(Operator::GEq, num(1), num(2))), Ok(Value::Int(0)));
    assert_eq!(eval(bin(Operator::Eq, num(2), num(2))), Ok(Value::Int(1)));
    assert_eq!(eval(bin(Operator::Eq, num(2), num(-2))), Ok(Value::Int(0)));
}

#[test]
fn comparisons_of_strings_go_by_characters() {
    assert_eq!(eval(bin(Operator::Ls, text("abc"), text("abd"))), Ok(Value::Int(1)));
    assert_eq!(eval(bin(Operator::Ls, text("ab"), text("abc"))), Ok(Value::Int(1)));
    assert_eq!(eval(bin(Operator::Ls, text("abc"), text("ab"))), Ok(Value::Int(0)));
    assert_eq!(eval(bin(Operator::Ls, text(""), text("a"))), Ok(Value::Int(1)));
    assert_eq!(eval(bin(Operator::Ls, text(""), text(""))), Ok(Value::Int(0)));
    assert_eq!(eval(bin(Operator::Ls, text("B"), text("a"))), Ok(Value::Int(1)));
    assert_eq!(eval(bin(Operator::Gr, text("b"), text("abc"))), Ok(Value::Int(1)));
    assert_eq!(eval(bin(Operator::LEq, text("abc"), text("abc"))), Ok(Value::Int(1)));
    assert_eq!(eval(bin(Operator::GEq, text("abc"), text("abd"))), Ok(Value::Int(0)));
    assert_eq!(eval(bin(Operator::Eq, text("abc"), text("abc"))), Ok(Value::Int(1)));
    assert_eq!(eval(bin(Operator::Eq, text("abc"), text("abd"))), Ok(Value::Int(0)));
    assert_eq!(eval(bin(Operator::Ls, text("z"), text("é"))), Ok(Value::Int(1)));
    assert_eq!(eval(bin(Operator::Ls, text("é"), text("日"))), Ok(Value::Int(1)));
}

#[test]
fn a_string_orders_before_every_integer() {
    assert_eq!(eval(bin(Operator::Ls, text("zzz"), num(i32::MIN))), Ok(Value::Int(1)));
    assert_eq!(eval(bin(Operator::LEq, text("9"), num(1))), Ok(Value::Int(1)));
    assert_eq!(eval(bin(Operator::Gr, num(-5), text("5"))), Ok(Value::Int(1)));
    assert_eq!(eval(bin(Operator::GEq, text("5"), num(5))), Ok(Value::Int(0)));
    assert_eq!(eval(bin(Operator::Eq, text("5"), num(5))), Ok(Value::Int(0)));
    assert_eq!(eval(bin(Operator::Ls, num(1), text("a"))), Ok(Value::Int(0)));
}

#[test]
fn the_order_of_values_is_the_derived_one() {
    let values = [
        Value::Str(String::new()),
        Value::Str("a".to_string()),
        Value::Str("ab".to_string()),
        Value::Str("b".to_string()),
        Value::Str("é".to_string()),
        Value::Int(i32::MIN),
        Value::Int(-1),
        Value::Int(0),
        Value::Int(i32::MAX),
    ];
    for a in values.iter() {
        for b in values.iter() {
            let less = eval(bin(
                Operator::Ls,
                ExprAST::Val(a.clone()),
                ExprAST::Val(b.clone()),
            ));
            assert_eq!(less, Ok(Value::Int(if a < b { 1 } else { 0 })), "{:?} < {:?}", a, b);
            let at_most = eval(bin(
                Operator::LEq,
                ExprAST::Val(a.clone()),
                ExprAST::Val(b.clone()),
            ));
            assert_eq!(at_most, Ok(Value::Int(if a <= b { 1 } else { 0 })), "{:?} <= {:?}", a, b);
            let same = eval(bin(
                Operator::Eq,
                ExprAST::Val(a.clone()),
                ExprAST::Val(b.clone()),
            ));
            assert_eq!(same, Ok(Value::Int(if a == b { 1 } else { 0 })), "{:?} == {:?}", a, b);
        }
    }
}

#[test]
fn a_declared_variable_can_be_read_and_assigned() {
    assert_eq!(
        run_body(vec![
            declare("x", num(1)),
            print(var("x")),
            assign("x", bin(Operator::Add, var("x"), num(41))),
            ret(var("x")),
        ]),
        (Ok(Value::Int(42)), ints(&[1]))
    );
}

#[test]
fn declaring_a_variable_twice_fails() {
    assert_eq!(
        run_body(vec![declare("x", num(1)), declare("x", num(2)), ret(var("x"))]),
        (Err(RuntimeError::DuplicateDeclaration), vec![])
    );
}

#[test]
fn declaring_a_parameter_again_fails() {
    assert_eq!(
        run_with(
            vec![
                function("f", &["a"], vec![declare("a", num(2))]),
                function("main", &[], vec![ret(call("f", vec![num(1)]))]),
            ],
            &[],
            FUEL
        ),
        (Err(RuntimeError::DuplicateDeclaration), vec![])
    );
}

#[test]
fn assigning_to_an_undeclared_variable_fails() {
    assert_eq!(
        run_body(vec![assign("x", num(1))]),
        (Err(RuntimeError::AssignToUndeclared), vec![])
    );
}

#[test]
fn the_right_side_is_evaluated_before_the_target_is_checked() {
    assert_eq!(
        run_body(vec![assign("x", var("y"))]),
        (Err(RuntimeError::UndeclaredVariable), vec![])
    );
    assert_eq!(
        run_body(vec![declare("x", num(1)), declare("x", bin(Operator::Div, num(1), num(0)))]),
        (Err(RuntimeError::DivisionByZero), vec![])
    );
}

#[test]
fn reading_an_undeclared_variable_fails() {
    assert_eq!(run_body(vec![print(var("y"))]), (Err(RuntimeError::UndeclaredVariable), vec![]));
}

#[test]
fn reading_a_dropped_variable_fails() {
    assert_eq!(
        run_body(vec![declare("x", num(1)), print(var("x")), drop_var("x"), print(var("x"))]),
        (Err(RuntimeError::UndeclaredVariable), ints(&[1]))
    );
}

#[test]
fn a_dropped_variable_can_be_declared_again() {
    assert_eq!(
        run_body(vec![declare("x", num(1)), drop_var("x"), declare("x", num(2)), ret(var("x"))]),
        (Ok(Value::Int(2)), vec![])
    );
}

#[test]
fn dropping_an_unbound_variable_does_nothing() {
    assert_eq!(run_body(vec![drop_var("x"), ret(num(3))]), (Ok(Value::Int(3)), vec![]));
}

#[test]
fn a_target_that_is_no_variable_is_refused() {
    assert_eq!(
        run_body(vec![Statement::Assign(Assignment::new(true, num(1), num(2)))]),
        (Err(RuntimeError::InvalidTarget), vec![])
    );
    assert_eq!(
        run_body(vec![Statement::Built(BuiltIn::Input(num(1)))]),
        (Err(RuntimeError::InvalidTarget), vec![])
    );
    assert_eq!(
        run_body(vec![Statement::Built(BuiltIn::Drop(call("f", vec![num(1)])))]),
        (Err(RuntimeError::InvalidTarget), vec![])
    );
}

#[test]
fn a_false_condition_skips_the_body() {
    assert_eq!(
        run_body(vec![when(num(0), vec![print(num(1))]), print(num(2))]),
        (Ok(Value::Int(0)), ints(&[2]))
    );
    assert_eq!(
        run_body(vec![repeat(num(0), vec![print(num(1))]), print(num(2))]),
        (Ok(Value::Int(0)), ints(&[2]))
    );
}

#[test]
fn a_true_condition_runs_the_body() {
    assert_eq!(
        run_body(vec![when(num(-1), vec![print(num(1))]), print(num(2))]),
        (Ok(Value::Int(0)), ints(&[1, 2]))
    );
    assert_eq!(
        run_body(vec![when(text(""), vec![print(num(1))]), print(num(2))]),
        (Ok(Value::Int(0)), ints(&[1, 2]))
    );
    assert_eq!(
        run_body(vec![when(text("0"), vec![print(num(1))])]),
        (Ok(Value::Int(0)), ints(&[1]))
    );
}

#[test]
fn a_block_shares_the_variables_of_its_function() {
    assert_eq!(
        run_body(vec![
            declare("x", num(1)),
            when(num(1), vec![assign("x", num(2)), declare("y", num(3))]),
            ret(bin(Operator::Add, var("x"), var("y"))),
        ]),
        (Ok(Value::Int(5)), vec![])
    );
}

#[test]
fn a_loop_counts() {
    assert_eq!(
        run_body(vec![
            declare("x", num(0)),
            repeat(
                bin(Operator::Ls, var("x"), num(3)),
                vec![print(var("x")), assign("x", bin(Operator::Add, var("x"), num(1)))]
            ),
            ret(var("x")),
        ]),
        (Ok(Value::Int(3)), ints(&[0, 1, 2]))
    );
}

#[test]
fn a_return_inside_a_loop_ends_the_call() {
    assert_eq!(
        run_body(vec![
            declare("x", num(0)),
            repeat(
                num(1),
                vec![
                    assign("x", bin(Operator::Add, var("x"), num(1))),
                    when(bin(Operator::Eq, var("x"), num(5)), vec![ret(var("x")), print(num(99))]),
                    print(var("x")),
                ]
            ),
            print(num(100)),
        ]),
        (Ok(Value::Int(5)), ints(&[1, 2, 3, 4]))
    );
}

#[test]
fn a_body_without_a_return_yields_zero() {
    assert_eq!(run_body(vec![]), (Ok(Value::Int(0)), vec![]));
    assert_eq!(run_body(vec![print(num(1))]), (Ok(Value::Int(0)), ints(&[1])));
    assert_eq!(
        run_with(
            vec![
                function("f", &[], vec![declare("x", num(9))]),
                function("main", &[], vec![ret(bin(Operator::Add, call("f", vec![num(0)]), num(1)))]),
            ],
            &[],
            FUEL
        ),
        (Ok(Value::Int(1)), vec![])
    );
}

#[test]
fn statements_behind_a_return_do_not_run() {
    assert_eq!(run_body(vec![ret(num(1)), print(num(2)), ret(num(3))]), (Ok(Value::Int(1)), vec![]));
}

#[test]
fn a_call_binds_parameters_by_position() {
    assert_eq!(
        run_with(
            vec![
                function("sub", &["a", "b"], vec![ret(bin(Operator::Sub, var("a"), var("b")))]),
                function("main", &[], vec![ret(call("sub", vec![num(10), num(3)]))]),
            ],
            &[],
            FUEL
        ),
        (Ok(Value::Int(7)), vec![])
    );
}

#[test]
fn arguments_beyond_the_parameters_are_evaluated_and_ignored() {
    assert_eq!(
        run_with(
            vec![
                function("shout", &[], vec![print(num(7)), ret(num(7))]),
                function("first", &["a"], vec![ret(var("a"))]),
                function(
                    "main",
                    &[],
                    vec![ret(call("first", vec![num(1), call("shout", vec![num(0)])]))]
                ),
            ],
            &[],
            FUEL
        ),
        (Ok(Value::Int(1)), ints(&[7]))
    );
}

#[test]
fn too_few_arguments_are_an_error() {
    assert_eq!(
        run_with(
            vec![
                function("add", &["a", "b"], vec![ret(bin(Operator::Add, var("a"), var("b")))]),
                function("main", &[], vec![ret(call("add", vec![num(1)]))]),
            ],
            &[],
            FUEL
        ),
        (Err(RuntimeError::TooFewArguments), vec![])
    );
}

#[test]
fn an_unknown_function_is_an_error() {
    assert_eq!(
        run_body(vec![print(num(1)), Statement::Call(call("nowhere", vec![num(1)]))]),
        (Err(RuntimeError::UnknownFunction), ints(&[1]))
    );
}

#[test]
fn the_arguments_are_evaluated_before_the_function_is_looked_up() {
    assert_eq!(
        run_body(vec![Statement::Call(call("nowhere", vec![var("missing")]))]),
        (Err(RuntimeError::UndeclaredVariable), vec![])
    );
}

#[test]
fn a_program_without_main_fails_at_once() {
    assert_eq!(
        run_with(vec![function("f", &[], vec![print(num(1))])], &[], FUEL),
        (Err(RuntimeError::UnknownFunction), vec![])
    );
    assert_eq!(run_with(vec![], &[], FUEL), (Err(RuntimeError::UnknownFunction), vec![]));
}

#[test]
fn a_main_with_parameters_has_too_few_arguments() {
    assert_eq!(
        run_with(vec![function("main", &["a"], vec![])], &[], FUEL),
        (Err(RuntimeError::TooFewArguments), vec![])
    );
}

#[test]
fn a_callee_does_not_see_the_variables_of_its_caller() {
    assert_eq!(
        run_with(
            vec![
                function("peek", &["a"], vec![ret(var("x"))]),
                function(
                    "main",
                    &[],
                    vec![declare("x", num(1)), ret(call("peek", vec![num(0)]))]
                ),
            ],
            &[],
            FUEL
        ),
        (Err(RuntimeError::UndeclaredVariable), vec![])
    );
}

#[test]
fn a_callee_does_not_change_the_variables_of_its_caller() {
    assert_eq!(
        run_with(
            vec![
                function("set", &["x"], vec![assign("x", num(99)), ret(var("x"))]),
                function(
                    "main",
                    &[],
                    vec![
                        declare("x", num(1)),
                        print(call("set", vec![var("x")])),
                        ret(var("x")),
                    ]
                ),
            ],
            &[],
            FUEL
        ),
        (Ok(Value::Int(1)), ints(&[99]))
    );
}

#[test]
fn of_two_functions_with_one_name_the_later_one_runs() {
    assert_eq!(
        run_with(
            vec![
                function("main", &[], vec![ret(num(1))]),
                function("other", &[], vec![ret(num(5))]),
                function("main", &[], vec![ret(num(2))]),
            ],
            &[],
            FUEL
        ),
        (Ok(Value::Int(2)), vec![])
    );
}

#[test]
fn of_two_parameters_with_one_name_the_later_one_counts() {
    assert_eq!(
        run_with(
            vec![
                function("f", &["a", "a"], vec![ret(var("a"))]),
                function("main", &[], vec![ret(call("f", vec![num(1), num(2)]))]),
            ],
            &[],
            FUEL
        ),
        (Ok(Value::Int(2)), vec![])
    );
}

#[test]
fn recursion_computes_a_factorial() {
    let fact = function(
        "fact",
        &["n"],
        vec![
            when(bin(Operator::LEq, var("n"), num(1)), vec![ret(num(1))]),
            ret(bin(
                Operator::Mult,
                var("n"),
                call("fact", vec![bin(Operator::Sub, var("n"), num(1))]),
            )),
        ],
    );
    assert_eq!(
        run_with(
            vec![fact, function("main", &[], vec![ret(call("fact", vec![num(10)]))])],
            &[],
            FUEL
        ),
        (Ok(Value::Int(3628800)), vec![])
    );
}

#[test]
fn input_binds_an_integer_where_the_line_is_one() {
    assert_eq!(
        run_with(vec![function("main", &[], vec![input("x"), ret(var("x"))])], &["42"], FUEL),
        (Ok(Value::Int(42)), vec![])
    );
    assert_eq!(
        run_with(vec![function("main", &[], vec![input("x"), ret(var("x"))])], &["-17"], FUEL),
        (Ok(Value::Int(-17)), vec![])
    );
    assert_eq!(
        run_with(vec![function("main", &[], vec![input("x"), ret(var("x"))])], &["+5"], FUEL),
        (Ok(Value::Int(5)), vec![])
    );
    assert_eq!(
        run_with(
            vec![function("main", &[], vec![input("x"), ret(var("x"))])],
            &["-2147483648"],
            FUEL
        ),
        (Ok(Value::Int(i32::MIN)), vec![])
    );
    assert_eq!(
        run_with(
            vec![function("main", &[], vec![input("x"), ret(var("x"))])],
            &["0002147483647"],
            FUEL
        ),
        (Ok(Value::Int(i32::MAX)), vec![])
    );
}

#[test]
fn input_binds_the_line_where_it_is_no_integer() {
    for line in [
        "abc",
        "",
        "-",
        "+",
        "4 2",
        " 42",
        "42 ",
        "--1",
        "1.5",
        "2147483648",
        "-2147483649",
        "99999999999999999999999",
        "٤٢",
    ] {
        assert_eq!(
            run_with(vec![function("main", &[], vec![input("x"), ret(var("x"))])], &[line], FUEL),
            (Ok(Value::Str(line.to_string())), vec![]),
            "{:?}",
            line
        );
    }
}

#[test]
fn input_agrees_with_the_standard_integer_parser() {
    for line in ["0", "-0", "+0", "007", "-007", "12a", "a12", "+-1", "2147483647", "-2147483647"] {
        let expected = match line.parse::<i32>() {
            Ok(n) => Value::Int(n),
            Err(_) => Value::Str(line.to_string()),
        };
        assert_eq!(
            run_with(vec![function("main", &[], vec![input("x"), ret(var("x"))])], &[line], FUEL),
            (Ok(expected), vec![]),
            "{:?}",
            line
        );
    }
}

#[test]
fn input_reads_the_lines_in_order() {
    assert_eq!(
        run_with(
            vec![function(
                "main",
                &[],
                vec![input("a"), input("b"), print(var("a")), print(var("b")), input("c"), ret(var("c"))]
            )],
            &["1", "two", "3", "unread"],
            FUEL
        ),
        (Ok(Value::Int(3)), vec![Value::Int(1), Value::Str("two".to_string())])
    );
}

#[test]
fn input_behind_the_last_line_binds_the_empty_string() {
    assert_eq!(
        run_with(
            vec![function("main", &[], vec![input("a"), input("b"), print(var("a")), ret(var("b"))])],
            &["1"],
            FUEL
        ),
        (Ok(Value::Str(String::new())), ints(&[1]))
    );
}

#[test]
fn input_binds_a_variable_whether_or_not_it_was_declared() {
    assert_eq!(
        run_with(
            vec![function(
                "main",
                &[],
                vec![declare("x", num(1)), input("x"), input("y"), ret(bin(Operator::Add, var("x"), var("y")))]
            )],
            &["2", "3"],
            FUEL
        ),
        (Ok(Value::Int(5)), vec![])
    );
}

#[test]
fn a_call_inside_an_expression_may_read_input_and_print() {
    assert_eq!(
        run_with(
            vec![
                function("ask", &["n"], vec![input("x"), print(var("n")), ret(var("x"))]),
                function(
                    "main",
                    &[],
                    vec![ret(bin(
                        Operator::Sub,
                        call("ask", vec![num(1)]),
                        call("ask", vec![num(2)])
                    ))]
                ),
            ],
            &["10", "3"],
            FUEL
        ),
        (Ok(Value::Int(7)), ints(&[1, 2]))
    );
}

#[test]
fn output_up_to_an_error_is_kept() {
    assert_eq!(
        run_body(vec![print(num(1)), print(num(2)), print(bin(Operator::Div, num(1), num(0))), print(num(3))]),
        (Err(RuntimeError::DivisionByZero), ints(&[1, 2]))
    );
}

#[test]
fn main_runs_on_no_fuel_as_long_as_it_neither_calls_nor_loops() {
    assert_eq!(
        run_with(
            vec![function("main", &[], vec![when(num(1), vec![print(num(1))]), ret(num(2))])],
            &[],
            0
        ),
        (Ok(Value::Int(2)), ints(&[1]))
    );
}

#[test]
fn a_call_costs_a_unit_of_fuel() {
    let program = || {
        vec![
            function("id", &["a"], vec![ret(var("a"))]),
            function("main", &[], vec![ret(call("id", vec![call("id", vec![num(4)])]))]),
        ]
    };
    assert_eq!(run_with(program(), &[], 0), (Err(RuntimeError::OutOfFuel), vec![]));
    assert_eq!(run_with(program(), &[], 1), (Ok(Value::Int(4)), vec![]));
}

#[test]
fn nested_calls_need_fuel_for_their_depth() {
    let program = || {
        vec![
            function(
                "down",
                &["n"],
                vec![
                    when(bin(Operator::Eq, var("n"), num(0)), vec![ret(num(0))]),
                    ret(call("down", vec![bin(Operator::Sub, var("n"), num(1))])),
                ],
            ),
            function("main", &[], vec![ret(call("down", vec![num(5)]))]),
        ]
    };
    assert_eq!(run_with(program(), &[], 5), (Err(RuntimeError::OutOfFuel), vec![]));
    assert_eq!(run_with(program(), &[], 6), (Ok(Value::Int(0)), vec![]));
}

#[test]
fn a_turn_of_a_loop_costs_a_unit_of_fuel() {
    let program = || {
        vec![function(
            "main",
            &[],
            vec![
                declare("x", num(0)),
                repeat(
                    bin(Operator::Ls, var("x"), num(3)),
                    vec![print(var("x")), assign("x", bin(Operator::Add, var("x"), num(1)))],
                ),
                ret(var("x")),
            ],
        )]
    };
    assert_eq!(run_with(program(), &[], 2), (Err(RuntimeError::OutOfFuel), ints(&[0, 1])));
    assert_eq!(run_with(program(), &[], 3), (Ok(Value::Int(3)), ints(&[0, 1, 2])));
}

#[test]
fn a_loop_without_end_runs_out_of_fuel() {
    assert_eq!(
        run_with(
            vec![function("main", &[], vec![repeat(num(1), vec![print(num(0))])])],
            &[],
            4
        ),
        (Err(RuntimeError::OutOfFuel), ints(&[0, 0, 0, 0]))
    );
}

#[test]
fn a_recursion_without_end_runs_out_of_fuel() {
    assert_eq!(
        run_with(
            vec![
                function("f", &["n"], vec![ret(call("f", vec![var("n")]))]),
                function("main", &[], vec![ret(call("f", vec![num(0)]))]),
            ],
            &[],
            1000
        ),
        (Err(RuntimeError::OutOfFuel), vec![])
    );
}

#[test]
fn more_fuel_does_not_change_a_result() {
    let program = || {
        vec![function(
            "main",
            &[],
            vec![
                declare("x", num(0)),
                repeat(
                    bin(Operator::Ls, var("x"), num(10)),
                    vec![assign("x", bin(Operator::Add, var("x"), num(1)))],
                ),
                ret(var("x")),
            ],
        )]
    };
    assert_eq!(run_with(program(), &[], 10), (Ok(Value::Int(10)), vec![]));
    assert_eq!(run_with(program(), &[], 11), (Ok(Value::Int(10)), vec![]));
    assert_eq!(run_with(program(), &[], u64::MAX), (Ok(Value::Int(10)), vec![]));
}

#[test]
fn a_long_loop_does_not_exhaust_the_stack() {
    let program = vec![function(
        "main",
        &[],
        vec![
            declare("x", num(0)),
            repeat(
                bin(Operator::Ls, var("x"), num(200000)),
                vec![assign("x", bin(Operator::Add, var("x"), num(1)))],
            ),
            ret(var("x")),
        ],
    )];
    assert_eq!(run_with(program, &[], 1_000_000), (Ok(Value::Int(200000)), vec![]));
}
