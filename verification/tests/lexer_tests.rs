use willscript::lexer::{LexError, LexingMachine, Operator, Token};

fn lex(source: &str) -> Result<Vec<Token>, LexError> {
    let mut chars = source.chars();
    let first = chars.next().expect("a source to lex has a first character");
    let mut machine = LexingMachine::new(first, chars.collect());
    machine.activate_lexing()
}

fn ident(name: &str) -> Token {
    Token::Identifier(name.to_string())
}

#[test]
fn lexes_a_declaration() {
    assert_eq!(
        lex("var x = 10;"),
        Ok(vec![
            Token::Var,
            ident("x"),
            Token::Assignment,
            Token::Number(10),
            Token::Semicolon,
            Token::EndOfFile,
        ])
    );
}

#[test]
fn two_character_operators_are_one_token() {
    assert_eq!(
        lex("a <= b >= c == d && e || f ^^ g"),
        Ok(vec![
            ident("a"),
            Token::Op(Operator::LEq),
            ident("b"),
            Token::Op(Operator::GEq),
            ident("c"),
            Token::Op(Operator::Eq),
            ident("d"),
            Token::Op(Operator::And),
            ident("e"),
            Token::Op(Operator::Or),
            ident("f"),
            Token::Op(Operator::Xor),
            ident("g"),
            Token::EndOfFile,
        ])
    );
}

#[test]
fn single_character_operators() {
    assert_eq!(
        lex("a < b > c & d | e ^ f + g - h * i"),
        Ok(vec![
            ident("a"),
            Token::Op(Operator::Ls),
            ident("b"),
            Token::Op(Operator::Gr),
            ident("c"),
            Token::Op(Operator::BAnd),
            ident("d"),
            Token::Op(Operator::BOr),
            ident("e"),
            Token::Op(Operator::BXor),
            ident("f"),
            Token::Op(Operator::Add),
            ident("g"),
            Token::Op(Operator::Sub),
            ident("h"),
            Token::Op(Operator::Mult),
            ident("i"),
            Token::EndOfFile,
        ])
    );
}

#[test]
fn every_keyword_is_its_own_token() {
    assert_eq!(
        lex("var fun if while return print input drop"),
        Ok(vec![
            Token::Var,
            Token::Fun,
            Token::If,
            Token::While,
            Token::Return,
            Token::Print,
            Token::Input,
            Token::Drop,
            Token::EndOfFile,
        ])
    );
}

#[test]
fn a_keyword_inside_a_word_is_an_identifier() {
    assert_eq!(
        lex("variable iff whiles fun1"),
        Ok(vec![ident("variable"), ident("iff"), ident("whiles"), ident("fun1"), Token::EndOfFile])
    );
}

#[test]
fn punctuation_needs_no_blanks() {
    assert_eq!(
        lex("(){},;"),
        Ok(vec![
            Token::LeftParen,
            Token::RightParen,
            Token::LeftCurly,
            Token::RightCurly,
            Token::Comma,
            Token::Semicolon,
            Token::EndOfFile,
        ])
    );
}

#[test]
fn a_word_may_hold_digits_behind_its_first_letter() {
    assert_eq!(lex("x1y2 "), Ok(vec![ident("x1y2"), Token::EndOfFile]));
}

#[test]
fn digits_before_letters_are_a_number_and_a_word() {
    assert_eq!(lex("12ab"), Ok(vec![Token::Number(12), ident("ab"), Token::EndOfFile]));
}

#[test]
fn whitespace_of_every_kind_is_skipped() {
    assert_eq!(
        lex(" \t\n\r\x0C a \n\n b\t"),
        Ok(vec![ident("a"), ident("b"), Token::EndOfFile])
    );
}

#[test]
fn only_whitespace_is_only_the_end() {
    assert_eq!(lex("   "), Ok(vec![Token::EndOfFile]));
}

#[test]
fn the_largest_number_is_accepted() {
    assert_eq!(lex("2147483647"), Ok(vec![Token::Number(2147483647), Token::EndOfFile]));
}

#[test]
fn leading_zeros_do_not_count() {
    assert_eq!(lex("000000000000042"), Ok(vec![Token::Number(42), Token::EndOfFile]));
}

#[test]
fn a_number_above_the_largest_is_an_error() {
    assert_eq!(lex("2147483648"), Err(LexError::NumberTooLarge));
    assert_eq!(lex("x = 99999999999999999999999999;"), Err(LexError::NumberTooLarge));
}

#[test]
fn an_operator_behind_a_comparison_is_an_error() {
    assert_eq!(lex("a <- b"), Err(LexError::BadOperator));
    assert_eq!(lex("a >+ b"), Err(LexError::BadOperator));
    assert_eq!(lex("a =- b"), Err(LexError::BadOperator));
    assert_eq!(lex("a <> b"), Err(LexError::BadOperator));
}

#[test]
fn an_operator_behind_a_bitwise_operator_is_an_error() {
    assert_eq!(lex("a &| b"), Err(LexError::BadOperator));
    assert_eq!(lex("a |& b"), Err(LexError::BadOperator));
    assert_eq!(lex("a ^- b"), Err(LexError::BadOperator));
    assert_eq!(lex("a &= b"), Err(LexError::BadOperator));
}

#[test]
fn arithmetic_operators_may_follow_each_other() {
    assert_eq!(
        lex("a+-*b"),
        Ok(vec![
            ident("a"),
            Token::Op(Operator::Add),
            Token::Op(Operator::Sub),
            Token::Op(Operator::Mult),
            ident("b"),
            Token::EndOfFile,
        ])
    );
}

#[test]
fn an_operator_may_end_the_input() {
    assert_eq!(lex("a <"), Ok(vec![ident("a"), Token::Op(Operator::Ls), Token::EndOfFile]));
    assert_eq!(lex("a<"), Ok(vec![ident("a"), Token::Op(Operator::Ls), Token::EndOfFile]));
    assert_eq!(lex("a&&"), Ok(vec![ident("a"), Token::Op(Operator::And), Token::EndOfFile]));
    assert_eq!(lex("="), Ok(vec![Token::Assignment, Token::EndOfFile]));
}

#[test]
fn three_equal_signs_are_an_equality_and_an_assignment() {
    assert_eq!(
        lex("a === b"),
        Ok(vec![
            ident("a"),
            Token::Op(Operator::Eq),
            Token::Assignment,
            ident("b"),
            Token::EndOfFile,
        ])
    );
}

#[test]
fn a_character_outside_the_language_is_an_error() {
    assert_eq!(lex("a @ b"), Err(LexError::UnexpectedCharacter));
    assert_eq!(lex("a / b"), Err(LexError::UnexpectedCharacter));
    assert_eq!(lex("x = \"text\";"), Err(LexError::UnexpectedCharacter));
    assert_eq!(lex("é"), Err(LexError::UnexpectedCharacter));
    assert_eq!(lex("_x"), Err(LexError::UnexpectedCharacter));
}

#[test]
fn tokens_before_an_error_are_not_returned() {
    assert_eq!(lex("var x = 1; #"), Err(LexError::UnexpectedCharacter));
}

#[test]
fn an_exhausted_lexer_keeps_yielding_the_end() {
    let mut machine = LexingMachine::new('a', vec![' ', 'b']);
    assert_eq!(machine.activate_lexing(), Ok(vec![ident("a"), ident("b"), Token::EndOfFile]));
    assert_eq!(machine.activate_lexing(), Ok(vec![Token::EndOfFile]));
    assert_eq!(machine.activate_lexing(), Ok(vec![Token::EndOfFile]));
}

#[test]
fn lexing_goes_on_behind_an_error() {
    let mut machine = LexingMachine::new('#', vec!['a']);
    assert_eq!(machine.activate_lexing(), Err(LexError::UnexpectedCharacter));
    assert_eq!(machine.activate_lexing(), Ok(vec![ident("a"), Token::EndOfFile]));
}

#[test]
fn spelled_tokens_with_blanks_between_them_come_back() {
    let tokens = vec![
        ident("total"),
        Token::Number(0),
        Token::Number(2147483647),
        Token::Var,
        Token::Fun,
        Token::LeftParen,
        Token::RightParen,
        Token::LeftCurly,
        Token::RightCurly,
        Token::Op(Operator::And),
        Token::Op(Operator::Or),
        Token::Op(Operator::Xor),
        Token::Op(Operator::LEq),
        Token::Op(Operator::GEq),
        Token::Op(Operator::Eq),
        Token::Op(Operator::Ls),
        Token::Op(Operator::Gr),
        Token::Op(Operator::BAnd),
        Token::Op(Operator::BOr),
        Token::Op(Operator::BXor),
        Token::Op(Operator::Add),
        Token::Op(Operator::Sub),
        Token::Op(Operator::Mult),
        Token::Return,
        Token::If,
        Token::While,
        Token::Assignment,
        Token::Semicolon,
        Token::Comma,
        Token::Print,
        Token::Input,
        Token::Drop,
    ];
    let source = "total 0 2147483647 var fun ( ) { } && || ^^ <= >= == < > & | ^ + - * return if \
                  while = ; , print input drop ";
    let mut expected = tokens;
    expected.push(Token::EndOfFile);
    assert_eq!(lex(source), Ok(expected));
}

#[test]
fn spelled_tokens_without_blanks_come_back_where_none_runs_on() {
    // fun f(a,b){while a<=b&&b{a=a+1;}return(a*2)-b;}
    let expected = vec![
        Token::Fun,
        ident("f"),
        Token::LeftParen,
        ident("a"),
        Token::Comma,
        ident("b"),
        Token::RightParen,
        Token::LeftCurly,
        Token::While,
        ident("a"),
        Token::Op(Operator::LEq),
        ident("b"),
        Token::Op(Operator::And),
        ident("b"),
        Token::LeftCurly,
        ident("a"),
        Token::Assignment,
        ident("a"),
        Token::Op(Operator::Add),
        Token::Number(1),
        Token::Semicolon,
        Token::RightCurly,
        Token::Return,
        Token::LeftParen,
        ident("a"),
        Token::Op(Operator::Mult),
        Token::Number(2),
        Token::RightParen,
        Token::Op(Operator::Sub),
        ident("b"),
        Token::Semicolon,
        Token::RightCurly,
        Token::EndOfFile,
    ];
    assert_eq!(lex("fun f(a,b){while a<=b&&b{a=a+1;}return(a*2)-b;}"), Ok(expected));
}

#[test]
fn tokens_that_run_on_do_not_come_back() {
    // Two names, a name and a number, two numbers, `<` and `=`.
    assert_eq!(lex("ab"), Ok(vec![ident("ab"), Token::EndOfFile]));
    assert_eq!(lex("a1"), Ok(vec![ident("a1"), Token::EndOfFile]));
    assert_eq!(lex("12"), Ok(vec![Token::Number(12), Token::EndOfFile]));
    assert_eq!(lex("<="), Ok(vec![Token::Op(Operator::LEq), Token::EndOfFile]));
    assert_eq!(lex("varx"), Ok(vec![ident("varx"), Token::EndOfFile]));
}
