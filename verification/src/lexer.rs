//! Tokens and the lexer that produces them.
//!
//! The lexer reads characters one at a time with a single character of
//! lookahead.  Its behaviour is defined by [`next_token`] and [`tokenize`],
//! two functions on the sequence of characters that have not been read yet.

use vstd::prelude::*;
use vstd::string::*;

verus! {

/// A binary operator.  The variants are listed from the loosest binding
/// band to the tightest; see [`priority`].
#[derive(Clone, Copy, Debug, PartialEq, Eq, Structural)]
pub enum Operator {
    // Logical
    And,
    Or,
    Xor,
    // Comparison
    LEq,
    GEq,
    Eq,
    Ls,
    Gr,
    // Bitwise
    BAnd,
    BOr,
    BXor,
    // Additive
    Add,
    Sub,
    // Multiplicative
    Mult,
    Div,
}

/// A classified lexical unit.
#[derive(Debug, PartialEq, Eq)]
pub enum Token {
    Identifier(String),
    Number(i32),
    Var,
    Fun,
    LeftParen,
    RightParen,
    LeftCurly,
    RightCurly,
    Op(Operator),
    Return,
    If,
    While,
    Assignment,
    Semicolon,
    Comma,
    EndOfFile,
    Print,
    Input,
    Drop,
}

/// The mathematical value of a [`Token`]: the same variants, with the
/// identifier held as a sequence of characters.
pub enum TokenView {
    Identifier(Seq<char>),
    Number(i32),
    Var,
    Fun,
    LeftParen,
    RightParen,
    LeftCurly,
    RightCurly,
    Op(Operator),
    Return,
    If,
    While,
    Assignment,
    Semicolon,
    Comma,
    EndOfFile,
    Print,
    Input,
    Drop,
}

impl View for Token {
    type V = TokenView;

    open spec fn view(&self) -> TokenView {
        match self {
            Token::Identifier(name) => TokenView::Identifier(name@),
            Token::Number(n) => TokenView::Number(*n),
            Token::Var => TokenView::Var,
            Token::Fun => TokenView::Fun,
            Token::LeftParen => TokenView::LeftParen,
            Token::RightParen => TokenView::RightParen,
            Token::LeftCurly => TokenView::LeftCurly,
            Token::RightCurly => TokenView::RightCurly,
            Token::Op(op) => TokenView::Op(*op),
            Token::Return => TokenView::Return,
            Token::If => TokenView::If,
            Token::While => TokenView::While,
            Token::Assignment => TokenView::Assignment,
            Token::Semicolon => TokenView::Semicolon,
            Token::Comma => TokenView::Comma,
            Token::EndOfFile => TokenView::EndOfFile,
            Token::Print => TokenView::Print,
            Token::Input => TokenView::Input,
            Token::Drop => TokenView::Drop,
        }
    }
}

impl Clone for Token {
    /// A copy with the same value.
    fn clone(&self) -> (copy: Self)
        ensures
            copy@ == self@,
    {
        match self {
            Token::Identifier(name) => Token::Identifier(name.clone()),
            Token::Number(n) => Token::Number(*n),
            Token::Var => Token::Var,
            Token::Fun => Token::Fun,
            Token::LeftParen => Token::LeftParen,
            Token::RightParen => Token::RightParen,
            Token::LeftCurly => Token::LeftCurly,
            Token::RightCurly => Token::RightCurly,
            Token::Op(op) => Token::Op(*op),
            Token::Return => Token::Return,
            Token::If => Token::If,
            Token::While => Token::While,
            Token::Assignment => Token::Assignment,
            Token::Semicolon => Token::Semicolon,
            Token::Comma => Token::Comma,
            Token::EndOfFile => Token::EndOfFile,
            Token::Print => Token::Print,
            Token::Input => Token::Input,
            Token::Drop => Token::Drop,
        }
    }
}

/// Why a character sequence is not a sequence of tokens.
#[derive(Clone, Copy, Debug, PartialEq, Eq, Structural)]
pub enum LexError {
    /// An operator character follows `<`, `>`, `=`, `&`, `|` or `^` without
    /// forming one of the two-character operators.
    BadOperator,
    /// A run of digits denotes a number above `i32::MAX`.
    NumberTooLarge,
    /// A character that starts no token.
    UnexpectedCharacter,
}

/// The classes of characters that the lexer collects greedily.
pub enum CharClass {
    /// ASCII whitespace: space, tab, line feed, form feed, carriage return.
    Space,
    /// ASCII letters and digits.
    Word,
    /// ASCII digits.
    Digit,
}

pub open spec fn is_space(c: char) -> bool {
    c == ' ' || c == '\t' || c == '\n' || c == '\x0C' || c == '\r'
}

pub open spec fn is_letter(c: char) -> bool {
    ('a' <= c && c <= 'z') || ('A' <= c && c <= 'Z')
}

pub open spec fn is_digit(c: char) -> bool {
    '0' <= c && c <= '9'
}

pub open spec fn is_operator_char(c: char) -> bool {
    c == '<' || c == '>' || c == '&' || c == '=' || c == '|' || c == '^' || c == '+' || c == '-'
        || c == '*'
}

pub open spec fn in_class(c: char, class: CharClass) -> bool {
    match class {
        CharClass::Space => is_space(c),
        CharClass::Word => is_letter(c) || is_digit(c),
        CharClass::Digit => is_digit(c),
    }
}

/// The length of the longest prefix of `s` made of characters of `class`.
pub open spec fn run_len(s: Seq<char>, class: CharClass) -> nat
    decreases s.len(),
{
    if s.len() > 0 && in_class(s[0], class) {
        1 + run_len(s.drop_first(), class)
    } else {
        0
    }
}

/// The number that a sequence of decimal digits denotes.
pub open spec fn decimal_value(digits: Seq<char>) -> nat
    decreases digits.len(),
{
    if digits.len() == 0 {
        0
    } else {
        10 * decimal_value(digits.drop_last()) + (digits.last() as nat - '0' as nat) as nat
    }
}

/// The token that a word (a letter followed by letters and digits) stands
/// for: one of the eight keywords, or an identifier.
pub open spec fn word_token(word: Seq<char>) -> TokenView {
    if word == "var"@ {
        TokenView::Var
    } else if word == "fun"@ {
        TokenView::Fun
    } else if word == "if"@ {
        TokenView::If
    } else if word == "while"@ {
        TokenView::While
    } else if word == "return"@ {
        TokenView::Return
    } else if word == "print"@ {
        TokenView::Print
    } else if word == "input"@ {
        TokenView::Input
    } else if word == "drop"@ {
        TokenView::Drop
    } else {
        TokenView::Identifier(word)
    }
}

/// The character at the front of `s`; past the end of the input the lexer
/// sees a blank.
pub open spec fn front(s: Seq<char>) -> char {
    if s.len() > 0 {
        s[0]
    } else {
        ' '
    }
}

/// What one step of the lexer yields: a token or an error, and the
/// characters that are left.
pub struct Lexed {
    pub token: Result<TokenView, LexError>,
    pub rest: Seq<char>,
}

/// The token at the front of `s`, which starts with an operator character.
///
/// `<`, `>` and `=` may be followed by `=`; `&`, `|` and `^` may be doubled.
/// Any other operator character behind one of these six is an error.
pub open spec fn operator_token(s: Seq<char>) -> Lexed
    recommends
        s.len() > 0,
        is_operator_char(s[0]),
{
    let c = s[0];
    let d = front(s.skip(1));
    if c == '+' {
        Lexed { token: Ok(TokenView::Op(Operator::Add)), rest: s.skip(1) }
    } else if c == '-' {
        Lexed { token: Ok(TokenView::Op(Operator::Sub)), rest: s.skip(1) }
    } else if c == '*' {
        Lexed { token: Ok(TokenView::Op(Operator::Mult)), rest: s.skip(1) }
    } else if c == '<' || c == '>' || c == '=' {
        if d == '=' {
            let op = if c == '<' {
                Operator::LEq
            } else if c == '>' {
                Operator::GEq
            } else {
                Operator::Eq
            };
            Lexed { token: Ok(TokenView::Op(op)), rest: s.skip(2) }
        } else if is_operator_char(d) {
            Lexed { token: Err(LexError::BadOperator), rest: s.skip(1) }
        } else {
            let token = if c == '<' {
                TokenView::Op(Operator::Ls)
            } else if c == '>' {
                TokenView::Op(Operator::Gr)
            } else {
                TokenView::Assignment
            };
            Lexed { token: Ok(token), rest: s.skip(1) }
        }
    } else {
        if d == c {
            let op = if c == '&' {
                Operator::And
            } else if c == '|' {
                Operator::Or
            } else {
                Operator::Xor
            };
            Lexed { token: Ok(TokenView::Op(op)), rest: s.skip(2) }
        } else if is_operator_char(d) {
            Lexed { token: Err(LexError::BadOperator), rest: s.skip(1) }
        } else {
            let op = if c == '&' {
                Operator::BAnd
            } else if c == '|' {
                Operator::BOr
            } else {
                Operator::BXor
            };
            Lexed { token: Ok(TokenView::Op(op)), rest: s.skip(1) }
        }
    }
}

/// The token that a punctuation character stands for, if any.
pub open spec fn punctuation_token(c: char) -> Result<TokenView, LexError> {
    if c == '(' {
        Ok(TokenView::LeftParen)
    } else if c == ')' {
        Ok(TokenView::RightParen)
    } else if c == '{' {
        Ok(TokenView::LeftCurly)
    } else if c == '}' {
        Ok(TokenView::RightCurly)
    } else if c == ',' {
        Ok(TokenView::Comma)
    } else if c == ';' {
        Ok(TokenView::Semicolon)
    } else {
        Err(LexError::UnexpectedCharacter)
    }
}

/// The first token of `s`, and what is left of `s` behind it.
///
/// Leading whitespace is skipped.  A word or a number is the longest run of
/// its characters.  Exhausted input yields the end-of-stream token and
/// stays exhausted.
pub open spec fn next_token(s: Seq<char>) -> Lexed {
    let t = s.skip(run_len(s, CharClass::Space) as int);
    if t.len() == 0 {
        Lexed { token: Ok(TokenView::EndOfFile), rest: t }
    } else if is_letter(t[0]) {
        let n = run_len(t, CharClass::Word) as int;
        Lexed { token: Ok(word_token(t.take(n))), rest: t.skip(n) }
    } else if is_digit(t[0]) {
        let n = run_len(t, CharClass::Digit) as int;
        let value = decimal_value(t.take(n));
        if value <= i32::MAX {
            Lexed { token: Ok(TokenView::Number(value as i32)), rest: t.skip(n) }
        } else {
            Lexed { token: Err(LexError::NumberTooLarge), rest: t.skip(n) }
        }
    } else if is_operator_char(t[0]) {
        operator_token(t)
    } else {
        Lexed { token: punctuation_token(t[0]), rest: t.skip(1) }
    }
}

/// All the tokens of `s` and the characters left unread.
pub struct Tokenized {
    pub tokens: Result<Seq<TokenView>, LexError>,
    pub rest: Seq<char>,
}

/// The tokens of `s` up to and including the end-of-stream token, or the
/// first error; and what is left of `s` where the lexer stops.
pub open spec fn tokenize(s: Seq<char>) -> Tokenized
    decreases s.len(),
    via tokenize_terminates
{
    let first = next_token(s);
    match first.token {
        Err(e) => Tokenized { tokens: Err(e), rest: first.rest },
        Ok(TokenView::EndOfFile) => Tokenized {
            tokens: Ok(seq![TokenView::EndOfFile]),
            rest: first.rest,
        },
        Ok(token) => {
            let more = tokenize(first.rest);
            match more.tokens {
                Err(e) => more,
                Ok(tokens) => Tokenized { tokens: Ok(seq![token] + tokens), rest: more.rest },
            }
        },
    }
}

#[via_fn]
proof fn tokenize_terminates(s: Seq<char>) {
    lemma_token_consumes(s);
}

/// A run never extends past the end of the sequence.
pub proof fn lemma_run_len_bound(s: Seq<char>, class: CharClass)
    ensures
        run_len(s, class) <= s.len(),
    decreases s.len(),
{
    if s.len() > 0 && in_class(s[0], class) {
        lemma_run_len_bound(s.drop_first(), class);
    }
}

/// Every token but the end-of-stream token takes at least one character,
/// and no step of the lexer gives characters back.
pub proof fn lemma_token_consumes(s: Seq<char>)
    ensures
        next_token(s).rest.len() <= s.len(),
        next_token(s).token is Ok && next_token(s).token != Ok::<TokenView, LexError>(
            TokenView::EndOfFile,
        ) ==> next_token(s).rest.len() < s.len(),
{
    lemma_run_len_bound(s, CharClass::Space);
    let t = s.skip(run_len(s, CharClass::Space) as int);
    lemma_run_len_bound(t, CharClass::Word);
    lemma_run_len_bound(t, CharClass::Digit);
}

/// The tokens of a source end with the end-of-stream token and hold no
/// other; where there are tokens, nothing of the source is left unread.
pub proof fn law_one_end_of_stream(s: Seq<char>)
    requires
        tokenize(s).tokens is Ok,
    ensures
        ({
            let tokens = tokenize(s).tokens->Ok_0;
            &&& tokens.len() > 0
            &&& tokens.last() == TokenView::EndOfFile
            &&& forall|i: int| 0 <= i < tokens.len() - 1 ==> tokens[i] != TokenView::EndOfFile
            &&& tokenize(s).rest.len() == 0
        }),
    decreases s.len(),
{
    let first = next_token(s);
    if first.token != Ok::<TokenView, LexError>(TokenView::EndOfFile) {
        lemma_token_consumes(s);
        law_one_end_of_stream(first.rest);
        let more = tokenize(first.rest).tokens->Ok_0;
        let tokens = tokenize(s).tokens->Ok_0;
        assert(tokens == seq![first.token->Ok_0] + more);
        assert forall|i: int| 0 <= i < tokens.len() - 1 implies tokens[i]
            != TokenView::EndOfFile by {
            if i > 0 {
                assert(tokens[i] == more[i - 1]);
            }
        }
        assert(tokens.last() == more.last());
    }
}

/// An exhausted source yields the end-of-stream token, again and again.
pub proof fn law_end_of_stream_stays()
    ensures
        next_token(Seq::empty()) == (Lexed {
            token: Ok(TokenView::EndOfFile),
            rest: Seq::empty(),
        }),
{
    let s = Seq::<char>::empty();
    assert(s.skip(0) =~= s);
}

/// The values of a vector of tokens, in order.
pub open spec fn token_views(tokens: &Vec<Token>) -> Seq<TokenView> {
    Seq::new(tokens.len() as nat, |i: int| tokens[i]@)
}

/// What a lexer call returns, as a mathematical value.
pub open spec fn token_result_view(r: Result<Token, LexError>) -> Result<TokenView, LexError> {
    match r {
        Ok(token) => Ok(token@),
        Err(e) => Err(e),
    }
}

/// What [`LexingMachine::activate_lexing`] returns, as a mathematical value.
pub open spec fn tokens_result_view(r: Result<Vec<Token>, LexError>) -> Result<
    Seq<TokenView>,
    LexError,
> {
    match r {
        Ok(tokens) => Ok(token_views(&tokens)),
        Err(e) => Err(e),
    }
}

/// `String::push`: the character is appended to the string and nothing else
/// changes.
#[verifier::external_body]
pub(crate) fn push_char(text: &mut String, c: char)
    ensures
        final(text)@ == old(text)@.push(c),
{
    text.push(c)
}

/// Whether `word` spells `text`.
fn spells(word: &Vec<char>, text: &str) -> (r: bool)
    ensures
        r == (word@ == text@),
{
    let n = text.unicode_len();
    if word.len() != n {
        return false;
    }
    let mut i: usize = 0;
    while i < n
        invariant
            i <= n,
            n == text@.len(),
            n == word.len(),
            forall|j: int| 0 <= j < i ==> word@[j] == text@[j],
        decreases n - i,
    {
        if word[i] != text.get_char(i) {
            return false;
        }
        i += 1;
    }
    assert(word@ =~= text@);
    true
}

/// The token that `word`, spelled `text`, stands for.
fn classify_word(word: &Vec<char>, text: String) -> (token: Token)
    requires
        word@ == text@,
    ensures
        token@ == word_token(word@),
{
    if spells(word, "var") {
        Token::Var
    } else if spells(word, "fun") {
        Token::Fun
    } else if spells(word, "if") {
        Token::If
    } else if spells(word, "while") {
        Token::While
    } else if spells(word, "return") {
        Token::Return
    } else if spells(word, "print") {
        Token::Print
    } else if spells(word, "input") {
        Token::Input
    } else if spells(word, "drop") {
        Token::Drop
    } else {
        Token::Identifier(text)
    }
}

proof fn lemma_skip_step(s: Seq<char>, k: int)
    requires
        0 <= k < s.len(),
    ensures
        s.skip(k).drop_first() == s.skip(k + 1),
        s.take(k).push(s[k]) == s.take(k + 1),
        s.skip(k)[0] == s[k],
{
    assert(s.skip(k).drop_first() =~= s.skip(k + 1));
    assert(s.take(k).push(s[k]) =~= s.take(k + 1));
}

proof fn lemma_skip_skip(s: Seq<char>, a: int, b: int)
    requires
        0 <= a,
        0 <= b,
        a + b <= s.len(),
    ensures
        s.skip(a).skip(b) == s.skip(a + b),
        s.skip(0) == s,
{
    assert(s.skip(a).skip(b) =~= s.skip(a + b));
    assert(s.skip(0) =~= s);
}

/// A digit behind a run of digits: ten times the run's number, plus the
/// digit.
pub proof fn lemma_decimal_value_push(digits: Seq<char>, c: char)
    ensures
        decimal_value(digits.push(c)) == 10 * decimal_value(digits) + (c as nat - '0' as nat) as nat,
{
    assert(digits.push(c).drop_last() =~= digits);
}

/// The lexer: the character under the cursor and the characters behind it.
pub struct LexingMachine {
    cur_char: char,
    chars: Vec<char>,
    next: usize,
    lexing_finished: bool,
}

impl View for LexingMachine {
    type V = Seq<char>;

    /// The characters that have not been read yet, the one under the cursor
    /// first.
    closed spec fn view(&self) -> Seq<char> {
        if self.lexing_finished {
            Seq::empty()
        } else {
            seq![self.cur_char] + self.chars@.skip(self.next as int)
        }
    }
}

/// The largest number a digit run is followed up to; anything above
/// `i32::MAX` is recorded as this.
const NUMBER_CAP: u64 = 0x8000_0000;

/// A number as the lexer records it: anything above `i32::MAX` counts for
/// one value.
spec fn capped(n: nat) -> nat {
    if n >= 0x8000_0000 {
        0x8000_0000
    } else {
        n
    }
}

impl LexingMachine {
    /// The cursor is inside the input, or the input is exhausted and the
    /// cursor shows a blank.
    pub closed spec fn wf(&self) -> bool {
        &&& self.next <= self.chars.len()
        &&& self.lexing_finished ==> self.cur_char == ' ' && self.next == self.chars.len()
    }

    /// A lexer over `cur_char` followed by `chars`.
    pub fn new(cur_char: char, chars: Vec<char>) -> (machine: Self)
        ensures
            machine.wf(),
            machine@ == seq![cur_char] + chars@,
    {
        let machine = LexingMachine { cur_char, chars, next: 0, lexing_finished: false };
        proof {
            lemma_skip_skip(chars@, 0, 0);
        }
        machine
    }

    /// Lexes the whole input: every token up to and including the
    /// end-of-stream token, or the first error.
    pub fn activate_lexing(&mut self) -> (r: Result<Vec<Token>, LexError>)
        requires
            old(self).wf(),
        ensures
            final(self).wf(),
            tokens_result_view(r) == tokenize(old(self)@).tokens,
            final(self)@ == tokenize(old(self)@).rest,
    {
        let mut tokvec: Vec<Token> = Vec::new();
        loop
            invariant
                self.wf(),
                match tokenize(self@).tokens {
                    Ok(more) => tokenize(old(self)@).tokens == Ok::<Seq<TokenView>, LexError>(
                        token_views(&tokvec) + more,
                    ),
                    Err(e) => tokenize(old(self)@).tokens == Err::<Seq<TokenView>, LexError>(e),
                },
                tokenize(old(self)@).rest == tokenize(self@).rest,
            decreases self@.len(),
        {
            let ghost before = self@;
            let ghost sofar = token_views(&tokvec);
            match self.get_token() {
                Err(e) => {
                    return Err(e);
                },
                Ok(tok) => {
                    let done = matches!(tok, Token::EndOfFile);
                    tokvec.push(tok);
                    proof {
                        assert(token_views(&tokvec) =~= sofar.push(tok@));
                    }
                    if done {
                        proof {
                            assert(sofar.push(tok@) =~= sofar + seq![TokenView::EndOfFile]);
                        }
                        return Ok(tokvec);
                    }
                    proof {
                        lemma_token_consumes(before);
                        match tokenize(self@).tokens {
                            Ok(more) => {
                                assert(sofar + (seq![tok@] + more) =~= sofar.push(tok@) + more);
                            },
                            Err(e) => {},
                        }
                    }
                },
            }
        }
    }

    /// Moves the cursor to the next character; at the end of the input the
    /// cursor shows a blank from then on.
    fn eat_char(&mut self)
        requires
            old(self).wf(),
            old(self)@.len() > 0,
        ensures
            final(self).wf(),
            final(self)@ == old(self)@.skip(1),
            final(self).lexing_finished == (old(self)@.len() <= 1),
    {
        if self.next < self.chars.len() {
            self.cur_char = self.chars[self.next];
            self.next = self.next + 1;
            proof {
                lemma_skip_step(old(self).chars@, old(self).next as int);
                assert(self@ =~= old(self)@.skip(1));
            }
        } else {
            self.lexing_finished = true;
            self.cur_char = ' ';
            proof {
                assert(self@ =~= old(self)@.skip(1));
            }
        }
    }

    /// Whether the cursor shows a letter or, unless `no_nums`, a digit.
    fn cur_is_alpha(&self, no_nums: bool) -> (r: bool)
        requires
            self.wf(),
        ensures
            r == (is_letter(front(self@)) || (!no_nums && is_digit(front(self@)))),
    {
        if (self.cur_char >= 'a' && self.cur_char <= 'z') || (self.cur_char >= 'A' && self.cur_char
            <= 'Z') {
            true
        } else if !no_nums && self.cur_char >= '0' && self.cur_char <= '9' {
            true
        } else {
            false
        }
    }

    /// Whether the cursor shows a digit.
    fn cur_is_digit(&self) -> (r: bool)
        requires
            self.wf(),
        ensures
            r == is_digit(front(self@)),
    {
        if self.cur_char >= '0' && self.cur_char <= '9' {
            true
        } else {
            false
        }
    }

    /// Whether the cursor shows one of the nine operator characters.
    fn cur_is_op(&self) -> (r: bool)
        requires
            self.wf(),
        ensures
            r == is_operator_char(front(self@)),
    {
        match self.cur_char {
            '<' => true,
            '>' => true,
            '&' => true,
            '=' => true,
            '|' => true,
            '^' => true,
            '+' => true,
            '-' => true,
            '*' => true,
            _ => false,
        }
    }

    /// Whether the cursor shows whitespace inside the input.
    fn cur_is_space(&self) -> (r: bool)
        requires
            self.wf(),
        ensures
            r == (self@.len() > 0 && is_space(self@[0])),
    {
        let c = self.cur_char;
        !self.lexing_finished && (c == ' ' || c == '\t' || c == '\n' || c == '\x0C' || c == '\r')
    }

    /// The character under the cursor.
    fn cur(&self) -> (c: char)
        requires
            self.wf(),
        ensures
            c == front(self@),
    {
        self.cur_char
    }

    /// Reads the word under the cursor.
    fn word(&mut self) -> (token: Token)
        requires
            old(self).wf(),
            old(self)@.len() > 0,
            is_letter(old(self)@[0]),
        ensures
            final(self).wf(),
            token@ == word_token(old(self)@.take(run_len(old(self)@, CharClass::Word) as int)),
            final(self)@ == old(self)@.skip(run_len(old(self)@, CharClass::Word) as int),
    {
        let ghost start = self@;
        let mut word: Vec<char> = Vec::new();
        let mut text = String::new();
        proof {
            lemma_skip_skip(start, 0, 0);
            assert(start.take(0) =~= Seq::<char>::empty());
        }
        while self.cur_is_alpha(false) && !self.lexing_finished
            invariant
                self.wf(),
                word.len() <= start.len(),
                word@ == start.take(word.len() as int),
                text@ == word@,
                self@ == start.skip(word.len() as int),
                word.len() + run_len(self@, CharClass::Word) == run_len(start, CharClass::Word),
            decreases self@.len(),
        {
            proof {
                lemma_skip_step(start, word.len() as int);
            }
            word.push(self.cur_char);
            push_char(&mut text, self.cur_char);
            self.eat_char();
            proof {
                lemma_skip_skip(start, word.len() - 1, 1);
            }
        }
        classify_word(&word, text)
    }

    /// Reads the number under the cursor.
    fn number(&mut self) -> (r: Result<Token, LexError>)
        requires
            old(self).wf(),
        ensures
            final(self).wf(),
            final(self)@ == old(self)@.skip(run_len(old(self)@, CharClass::Digit) as int),
            ({
                let value = decimal_value(
                    old(self)@.take(run_len(old(self)@, CharClass::Digit) as int),
                );
                token_result_view(r) == if value <= i32::MAX {
                    Ok::<TokenView, LexError>(TokenView::Number(value as i32))
                } else {
                    Err::<TokenView, LexError>(LexError::NumberTooLarge)
                }
            }),
    {
        let ghost start = self@;
        let ghost mut count: int = 0;
        let mut value: u64 = 0;
        proof {
            lemma_skip_skip(start, 0, 0);
            assert(start.take(0) =~= Seq::<char>::empty());
        }
        while self.cur_is_digit() && !self.lexing_finished
            invariant
                self.wf(),
                0 <= count <= start.len(),
                self@ == start.skip(count),
                count + run_len(self@, CharClass::Digit) == run_len(start, CharClass::Digit),
                value == capped(decimal_value(start.take(count))),
            decreases self@.len(),
        {
            let digit = (self.cur_char as u32 - '0' as u32) as u64;
            proof {
                lemma_skip_step(start, count);
                lemma_decimal_value_push(start.take(count), start[count]);
            }
            value = value * 10 + digit;
            if value > NUMBER_CAP {
                value = NUMBER_CAP;
            }
            self.eat_char();
            proof {
                lemma_skip_skip(start, count, 1);
                count = count + 1;
            }
        }
        if value < NUMBER_CAP {
            Ok(Token::Number(value as i32))
        } else {
            Err(LexError::NumberTooLarge)
        }
    }

    /// Reads the operator under the cursor.
    fn operator(&mut self) -> (r: Result<Token, LexError>)
        requires
            old(self).wf(),
            old(self)@.len() > 0,
            is_operator_char(old(self)@[0]),
        ensures
            final(self).wf(),
            token_result_view(r) == operator_token(old(self)@).token,
            final(self)@ == operator_token(old(self)@).rest,
    {
        let c = self.cur_char;
        self.eat_char();
        proof {
            if old(self)@.len() >= 2 {
                lemma_skip_skip(old(self)@, 1, 1);
            }
        }
        if c == '+' {
            Ok(Token::Op(Operator::Add))
        } else if c == '-' {
            Ok(Token::Op(Operator::Sub))
        } else if c == '*' {
            Ok(Token::Op(Operator::Mult))
        } else if c == '<' || c == '>' || c == '=' {
            if self.cur() == '=' && !self.lexing_finished {
                self.eat_char();
                if c == '<' {
                    Ok(Token::Op(Operator::LEq))
                } else if c == '>' {
                    Ok(Token::Op(Operator::GEq))
                } else {
                    Ok(Token::Op(Operator::Eq))
                }
            } else if self.cur_is_op() {
                Err(LexError::BadOperator)
            } else if c == '<' {
                Ok(Token::Op(Operator::Ls))
            } else if c == '>' {
                Ok(Token::Op(Operator::Gr))
            } else {
                Ok(Token::Assignment)
            }
        } else {
            if self.cur() == c && !self.lexing_finished {
                self.eat_char();
                if c == '&' {
                    Ok(Token::Op(Operator::And))
                } else if c == '|' {
                    Ok(Token::Op(Operator::Or))
                } else {
                    Ok(Token::Op(Operator::Xor))
                }
            } else if self.cur_is_op() {
                Err(LexError::BadOperator)
            } else if c == '&' {
                Ok(Token::Op(Operator::BAnd))
            } else if c == '|' {
                Ok(Token::Op(Operator::BOr))
            } else {
                Ok(Token::Op(Operator::BXor))
            }
        }
    }

    /// Reads the next token.
    fn get_token(&mut self) -> (r: Result<Token, LexError>)
        requires
            old(self).wf(),
        ensures
            final(self).wf(),
            token_result_view(r) == next_token(old(self)@).token,
            final(self)@ == next_token(old(self)@).rest,
    {
        let ghost start = self@;
        let ghost mut count: int = 0;
        proof {
            lemma_skip_skip(start, 0, 0);
        }
        while self.cur_is_space()
            invariant
                self.wf(),
                0 <= count <= start.len(),
                self@ == start.skip(count),
                count + run_len(self@, CharClass::Space) == run_len(start, CharClass::Space),
            decreases self@.len(),
        {
            proof {
                lemma_skip_step(start, count);
            }
            self.eat_char();
            proof {
                lemma_skip_skip(start, count, 1);
                count = count + 1;
            }
        }
        if self.lexing_finished {
            return Ok(Token::EndOfFile);
        }
        let ghost t = self@;
        proof {
            lemma_run_len_bound(t, CharClass::Word);
            lemma_run_len_bound(t, CharClass::Digit);
        }
        if self.cur_is_alpha(true) {
            return Ok(self.word());
        }
        if self.cur_is_digit() {
            return self.number();
        }
        if self.cur_is_op() {
            return self.operator();
        }
        let this_char = self.cur_char;
        self.eat_char();
        match this_char {
            '(' => Ok(Token::LeftParen),
            ')' => Ok(Token::RightParen),
            '{' => Ok(Token::LeftCurly),
            '}' => Ok(Token::RightCurly),
            ',' => Ok(Token::Comma),
            ';' => Ok(Token::Semicolon),
            _ => Err(LexError::UnexpectedCharacter),
        }
    }
}

} // verus!
