use willscript::ast::{
    Assignment, BuiltIn, ExprAST, FunctionAST, IfBlock, PrototypeAST, Statement, Value, WhileBlock,
};
use willscript::grammar::Expected;
use willscript::lexer::{LexingMachine, Operator, Token};
use willscript::parser::{get_priority, ParseError, ParsingMachine};

fn tokens_of(source: &str) -> Vec<Token> {
    let mut chars = source.chars();
    let first = chars.next().expect("a source to lex has a first character");
    let mut machine = LexingMachine::new(first, chars.collect());
    machine.activate_lexing().expect("the source lexes")
}

fn parse_tokens(tokens: Vec<Token>) -> Result<Vec<FunctionAST>, ParseError> {
    let mut rest = tokens.into_iter();
    let first = rest.next().expect("a token stream has a first token");
    let mut machine = ParsingMachine::new(first, rest.collect());
    machine.activate_parsing_machine()
}

fn parse(source: &str) -> Result<Vec<FunctionAST>, ParseError> {
    parse_tokens(tokens_of(source))
}

fn error(expected: Expected, at: usize, found: Token) -> Result<Vec<FunctionAST>, ParseError> {
    Err(ParseError { expected, at, found })
}

fn name(text: &str) -> Token {
    Token::Identifier(text.to_string())
}

fn var(name: &str) -> ExprAST {
    ExprAST::Variable(name.to_string())
}

fn num(n: i32) -> ExprAST {
    ExprAST::Val(Value::Int(n))
}

fn bin(op: Operator, lhs: ExprAST, rhs: ExprAST) -> ExprAST {
    ExprAST::BinOp(op, Box::new(lhs), Box::new(rhs))
}

fn call(name: &str, args: Vec<ExprAST>) -> ExprAST {
    ExprAST::Call(name.to_string(), args)
}

fn function(name: &str, params: &[&str], body: Vec<Statement>) -> FunctionAST {
    FunctionAST::new(
        PrototypeAST::new(name.to_string(), params.iter().map(|p| p.to_string()).collect()),
        body,
    )
}

fn ret(e: ExprAST) -> Statement {
    Statement::Built(BuiltIn::Return(e))
}

/// The expression of `return <source>;` in a function of its own.
fn parse_expression(source: &str) -> ExprAST {
    let program = parse(&format!("fun f() {{ return {}; }}", source)).expect("the source parses");
    let mut functions = program.into_iter();
    let f = functions.next().expect("one function");
    let mut body = f.body.into_iter();
    match body.next() {
        Some(Statement::Built(BuiltIn::Return(e))) => e,
        other => panic!("not a return: {:?}", other),
    }
}

#[test]
fn multiplication_binds_tighter_on_the_right() {
    assert_eq!(
        parse_expression("1 + 2 * 3"),
        bin(Operator::Add, num(1), bin(Operator::Mult, num(2), num(3)))
    );
}

#[test]
fn multiplication_binds_tighter_on_the_left() {
    assert_eq!(
        parse_expression("1 * 2 + 3"),
        bin(Operator::Add, bin(Operator::Mult, num(1), num(2)), num(3))
    );
}

#[test]
fn equal_priority_groups_to_the_left() {
    assert_eq!(
        parse_expression("1 - 2 - 3"),
        bin(Operator::Sub, bin(Operator::Sub, num(1), num(2)), num(3))
    );
    assert_eq!(
        parse_expression("1 - 2 + 3 - 4"),
        bin(
            Operator::Sub,
            bin(Operator::Add, bin(Operator::Sub, num(1), num(2)), num(3)),
            num(4)
        )
    );
}

#[test]
fn the_five_bands_nest_in_order() {
    // a && b < c & d + e * f
    assert_eq!(
        parse_expression("a && b < c & d + e * f"),
        bin(
            Operator::And,
            var("a"),
            bin(
                Operator::Ls,
                var("b"),
                bin(
                    Operator::BAnd,
                    var("c"),
                    bin(Operator::Add, var("d"), bin(Operator::Mult, var("e"), var("f")))
                )
            )
        )
    );
    // a * b + c & d < e && f
    assert_eq!(
        parse_expression("a * b + c & d < e && f"),
        bin(
            Operator::And,
            bin(
                Operator::Ls,
                bin(
                    Operator::BAnd,
                    bin(Operator::Add, bin(Operator::Mult, var("a"), var("b")), var("c")),
                    var("d")
                ),
                var("e")
            ),
            var("f")
        )
    );
}

#[test]
fn a_tight_operator_between_two_loose_ones() {
    assert_eq!(
        parse_expression("1 + 2 * 3 + 4"),
        bin(
            Operator::Add,
            bin(Operator::Add, num(1), bin(Operator::Mult, num(2), num(3))),
            num(4)
        )
    );
    assert_eq!(
        parse_expression("1 < 2 + 3 * 4 - 5"),
        bin(
            Operator::Ls,
            num(1),
            bin(
                Operator::Sub,
                bin(Operator::Add, num(2), bin(Operator::Mult, num(3), num(4))),
                num(5)
            )
        )
    );
}

#[test]
fn parentheses_group() {
    assert_eq!(
        parse_expression("(1 + 2) * 3"),
        bin(Operator::Mult, bin(Operator::Add, num(1), num(2)), num(3))
    );
    assert_eq!(
        parse_expression("1 - (2 - 3)"),
        bin(Operator::Sub, num(1), bin(Operator::Sub, num(2), num(3)))
    );
    assert_eq!(parse_expression("((x))"), var("x"));
}

#[test]
fn calls_take_expressions_as_arguments() {
    assert_eq!(
        parse_expression("f(1, x + 2, g(y))"),
        call("f", vec![num(1), bin(Operator::Add, var("x"), num(2)), call("g", vec![var("y")])])
    );
    assert_eq!(
        parse_expression("f(1) + g(2) * 3"),
        bin(
            Operator::Add,
            call("f", vec![num(1)]),
            bin(Operator::Mult, call("g", vec![num(2)]), num(3))
        )
    );
}

#[test]
fn priorities_fall_into_five_bands() {
    assert_eq!(get_priority(&Operator::And), 10);
    assert_eq!(get_priority(&Operator::Or), 10);
    assert_eq!(get_priority(&Operator::Xor), 10);
    assert_eq!(get_priority(&Operator::LEq), 20);
    assert_eq!(get_priority(&Operator::GEq), 20);
    assert_eq!(get_priority(&Operator::Eq), 20);
    assert_eq!(get_priority(&Operator::Ls), 20);
    assert_eq!(get_priority(&Operator::Gr), 20);
    assert_eq!(get_priority(&Operator::BAnd), 30);
    assert_eq!(get_priority(&Operator::BOr), 30);
    assert_eq!(get_priority(&Operator::BXor), 30);
    assert_eq!(get_priority(&Operator::Add), 40);
    assert_eq!(get_priority(&Operator::Sub), 40);
    assert_eq!(get_priority(&Operator::Mult), 50);
    assert_eq!(get_priority(&Operator::Div), 50);
}

#[test]
fn a_division_token_parses_like_a_product() {
    let tokens = vec![
        Token::Fun,
        Token::Identifier("f".to_string()),
        Token::LeftParen,
        Token::RightParen,
        Token::LeftCurly,
        Token::Return,
        Token::Number(1),
        Token::Op(Operator::Add),
        Token::Number(6),
        Token::Op(Operator::Div),
        Token::Number(3),
        Token::Semicolon,
        Token::RightCurly,
        Token::EndOfFile,
    ];
    assert_eq!(
        parse_tokens(tokens),
        Ok(vec![function(
            "f",
            &[],
            vec![ret(bin(Operator::Add, num(1), bin(Operator::Div, num(6), num(3))))]
        )])
    );
}

#[test]
fn an_empty_program_has_no_functions() {
    assert_eq!(parse(" "), Ok(vec![]));
    assert_eq!(parse_tokens(vec![Token::EndOfFile]), Ok(vec![]));
}

#[test]
fn a_stream_without_an_end_token_ends_all_the_same() {
    let tokens = vec![
        Token::Fun,
        Token::Identifier("f".to_string()),
        Token::LeftParen,
        Token::RightParen,
        Token::LeftCurly,
        Token::RightCurly,
    ];
    assert_eq!(parse_tokens(tokens), Ok(vec![function("f", &[], vec![])]));
}

#[test]
fn functions_come_in_order() {
    assert_eq!(
        parse("fun add(a, b) { return a + b; } fun main() { print add(2, 3); }"),
        Ok(vec![
            function("add", &["a", "b"], vec![ret(bin(Operator::Add, var("a"), var("b")))]),
            function(
                "main",
                &[],
                vec![Statement::Built(BuiltIn::Print(call("add", vec![num(2), num(3)])))]
            ),
        ])
    );
}

#[test]
fn parameters_may_end_with_a_comma() {
    assert_eq!(parse("fun f(a, b,) { }"), Ok(vec![function("f", &["a", "b"], vec![])]));
}

#[test]
fn every_kind_of_statement() {
    let source = "fun main() {
        var x = 0;
        x = x + 1;
        if x { print x; }
        while x < 3 { x = x + 1; }
        f(x)
        input y;
        drop y;
        return x;
    }";
    assert_eq!(
        parse(source),
        Ok(vec![function(
            "main",
            &[],
            vec![
                Statement::Assign(Assignment::new(true, var("x"), num(0))),
                Statement::Assign(Assignment::new(
                    false,
                    var("x"),
                    bin(Operator::Add, var("x"), num(1))
                )),
                Statement::If(IfBlock::new(
                    var("x"),
                    vec![Statement::Built(BuiltIn::Print(var("x")))]
                )),
                Statement::While(WhileBlock::new(
                    bin(Operator::Ls, var("x"), num(3)),
                    vec![Statement::Assign(Assignment::new(
                        false,
                        var("x"),
                        bin(Operator::Add, var("x"), num(1))
                    ))]
                )),
                Statement::Call(call("f", vec![var("x")])),
                Statement::Built(BuiltIn::Input(var("y"))),
                Statement::Built(BuiltIn::Drop(var("y"))),
                ret(var("x")),
            ]
        )])
    );
}

#[test]
fn blocks_nest() {
    assert_eq!(
        parse("fun f() { if 1 { while 2 { if 3 { } } } }"),
        Ok(vec![function(
            "f",
            &[],
            vec![Statement::If(IfBlock::new(
                num(1),
                vec![Statement::While(WhileBlock::new(
                    num(2),
                    vec![Statement::If(IfBlock::new(num(3), vec![]))]
                ))]
            ))]
        )])
    );
}

#[test]
fn a_program_starts_with_fun() {
    assert_eq!(parse("var x = 1;"), error(Expected::FunctionOrEnd, 0, Token::Var));
    assert_eq!(parse("fun f() { } x"), error(Expected::FunctionOrEnd, 6, name("x")));
}

#[test]
fn a_function_needs_a_name() {
    assert_eq!(parse("fun () { }"), error(Expected::FunctionName, 1, Token::LeftParen));
    assert_eq!(parse("fun"), error(Expected::FunctionName, 1, Token::EndOfFile));
}

#[test]
fn a_function_needs_its_parentheses() {
    assert_eq!(parse("fun f { }"), error(Expected::ParameterListOpen, 2, Token::LeftCurly));
}

#[test]
fn a_parameter_is_a_name() {
    assert_eq!(parse("fun f(1) { }"), error(Expected::ParameterName, 3, Token::Number(1)));
    assert_eq!(parse("fun f(a, 1) { }"), error(Expected::ParameterName, 5, Token::Number(1)));
    assert_eq!(parse("fun f("), error(Expected::ParameterName, 3, Token::EndOfFile));
}

#[test]
fn parameters_are_separated_by_commas() {
    assert_eq!(parse("fun f(a b) { }"), error(Expected::ParameterSeparator, 4, name("b")));
}

#[test]
fn a_body_starts_with_a_brace() {
    assert_eq!(parse("fun f() return 1;"), error(Expected::BlockOpen, 4, Token::Return));
    assert_eq!(parse("fun f() { if 1 return 1; }"), error(Expected::BlockOpen, 7, Token::Return));
    assert_eq!(parse("fun f() { while 1 ; }"), error(Expected::BlockOpen, 7, Token::Semicolon));
}

#[test]
fn a_body_ends_with_a_brace() {
    assert_eq!(parse("fun f() { return 1;"), error(Expected::Statement, 8, Token::EndOfFile));
}

#[test]
fn a_statement_starts_with_one_of_its_tokens() {
    assert_eq!(parse("fun f() { 1 = 2; }"), error(Expected::Statement, 5, Token::Number(1)));
    assert_eq!(parse("fun f() { ; }"), error(Expected::Statement, 5, Token::Semicolon));
    assert_eq!(parse("fun f() { fun g() { } }"), error(Expected::Statement, 5, Token::Fun));
}

#[test]
fn a_call_statement_takes_no_semicolon() {
    assert_eq!(parse("fun f() { g(1); }"), error(Expected::Statement, 9, Token::Semicolon));
}

#[test]
fn a_call_statement_is_a_call_and_nothing_else() {
    assert_eq!(parse("fun f() { g(1) + 2 }"), error(Expected::CallExpression, 11, Token::RightCurly));
}

#[test]
fn the_target_of_an_assignment_is_a_variable() {
    assert_eq!(parse("fun f() { var 1 = 2; }"), error(Expected::AssignmentTarget, 7, Token::Assignment));
    assert_eq!(parse("fun f() { var g(1) = 2; }"), error(Expected::AssignmentTarget, 10, Token::Assignment));
    assert_eq!(parse("fun f() { x + 1 = 2; }"), error(Expected::AssignmentTarget, 8, Token::Assignment));
}

#[test]
fn an_assignment_has_its_marker() {
    assert_eq!(parse("fun f() { var x 1; }"), error(Expected::AssignmentMarker, 7, Token::Number(1)));
    assert_eq!(parse("fun f() { x; }"), error(Expected::AssignmentMarker, 6, Token::Semicolon));
}

#[test]
fn statements_end_with_a_semicolon() {
    assert_eq!(parse("fun f() { var x = 1 }"), error(Expected::Semicolon, 9, Token::RightCurly));
    assert_eq!(parse("fun f() { print 1 }"), error(Expected::Semicolon, 7, Token::RightCurly));
    assert_eq!(parse("fun f() { return 1 }"), error(Expected::Semicolon, 7, Token::RightCurly));
    assert_eq!(parse("fun f() { input x }"), error(Expected::Semicolon, 7, Token::RightCurly));
    assert_eq!(parse("fun f() { drop x }"), error(Expected::Semicolon, 7, Token::RightCurly));
}

#[test]
fn input_and_drop_take_a_variable() {
    assert_eq!(parse("fun f() { input 1; }"), error(Expected::Variable, 7, Token::Semicolon));
    assert_eq!(parse("fun f() { drop x + 1; }"), error(Expected::Variable, 9, Token::Semicolon));
    assert_eq!(parse("fun f() { input g(1); }"), error(Expected::Variable, 10, Token::Semicolon));
}

#[test]
fn an_operand_is_a_name_a_number_or_a_group() {
    assert_eq!(parse("fun f() { return ; }"), error(Expected::Operand, 6, Token::Semicolon));
    assert_eq!(parse("fun f() { return 1 + ; }"), error(Expected::Operand, 8, Token::Semicolon));
    assert_eq!(parse("fun f() { return 1 + * 2; }"), error(Expected::Operand, 8, Token::Op(Operator::Mult)));
}

#[test]
fn a_group_is_closed() {
    assert_eq!(parse("fun f() { return (1 + 2; }"), error(Expected::ClosingParen, 10, Token::Semicolon));
}

#[test]
fn a_call_has_an_argument() {
    assert_eq!(parse("fun f() { return g(); }"), error(Expected::Operand, 8, Token::RightParen));
    assert_eq!(parse("fun f() { return g(1,); }"), error(Expected::Operand, 10, Token::RightParen));
}

#[test]
fn arguments_are_separated_by_commas() {
    assert_eq!(parse("fun f() { return g(1 2); }"), error(Expected::ArgumentSeparator, 9, Token::Number(2)));
    assert_eq!(parse("fun f() { return g(1; }"), error(Expected::ArgumentSeparator, 9, Token::Semicolon));
}

#[test]
fn the_first_error_ends_the_parse() {
    assert_eq!(parse("fun f( { } fun g() { 1 }"), error(Expected::ParameterName, 3, Token::LeftCurly));
}

#[test]
fn the_parser_stops_where_the_error_is() {
    let mut tokens = tokens_of("fun f() { return ; } fun g() { }").into_iter();
    let first = tokens.next().expect("a first token");
    let mut machine = ParsingMachine::new(first, tokens.collect());
    assert_eq!(
        machine.activate_parsing_machine(),
        Err(ParseError { expected: Expected::Operand, at: 6, found: Token::Semicolon })
    );
    // From the offending `;` on nothing starts with `fun`.
    assert_eq!(
        machine.activate_parsing_machine(),
        Err(ParseError { expected: Expected::FunctionOrEnd, at: 6, found: Token::Semicolon })
    );
}

#[test]
fn an_error_names_the_token_it_found() {
    assert_eq!(
        parse("fun f() { var total 12; }"),
        Err(ParseError { expected: Expected::AssignmentMarker, at: 7, found: Token::Number(12) })
    );
    assert_eq!(
        parse("fun f() { return g(1 other); }"),
        Err(ParseError { expected: Expected::ArgumentSeparator, at: 9, found: name("other") })
    );
    let tokens = vec![Token::Fun, name("f")];
    assert_eq!(
        parse_tokens(tokens),
        Err(ParseError { expected: Expected::ParameterListOpen, at: 2, found: Token::EndOfFile })
    );
}
