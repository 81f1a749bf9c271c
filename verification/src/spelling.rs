//! How tokens are spelled, and the law that ties spelling to lexing: the
//! lexer reads back what was spelled.

use crate::lexer::{
    decimal_value, in_class, is_letter, is_operator_char, lemma_run_len_bound, next_token, run_len,
    tokenize, word_token, CharClass, Lexed, Operator, TokenView, Tokenized,
};
use vstd::prelude::*;

verus! {

/// The character of a decimal digit.
pub open spec fn digit_char(d: nat) -> char
    recommends
        d < 10,
{
    if d == 0 {
        '0'
    } else if d == 1 {
        '1'
    } else if d == 2 {
        '2'
    } else if d == 3 {
        '3'
    } else if d == 4 {
        '4'
    } else if d == 5 {
        '5'
    } else if d == 6 {
        '6'
    } else if d == 7 {
        '7'
    } else if d == 8 {
        '8'
    } else {
        '9'
    }
}

/// The decimal digits of a number, without leading zeros.
pub open spec fn decimal_digits(n: nat) -> Seq<char>
    decreases n,
{
    if n < 10 {
        seq![digit_char(n)]
    } else {
        decimal_digits(n / 10).push(digit_char(n % 10))
    }
}

/// How an operator is spelled.  Division has no spelling.
pub open spec fn operator_spelling(op: Operator) -> Seq<char> {
    match op {
        Operator::And => seq!['&', '&'],
        Operator::Or => seq!['|', '|'],
        Operator::Xor => seq!['^', '^'],
        Operator::LEq => seq!['<', '='],
        Operator::GEq => seq!['>', '='],
        Operator::Eq => seq!['=', '='],
        Operator::Ls => seq!['<'],
        Operator::Gr => seq!['>'],
        Operator::BAnd => seq!['&'],
        Operator::BOr => seq!['|'],
        Operator::BXor => seq!['^'],
        Operator::Add => seq!['+'],
        Operator::Sub => seq!['-'],
        Operator::Mult => seq!['*'],
        Operator::Div => Seq::empty(),
    }
}

/// How a token is spelled.  The end of the stream has no spelling.
pub open spec fn spelling(token: TokenView) -> Seq<char> {
    match token {
        TokenView::Identifier(name) => name,
        TokenView::Number(n) => decimal_digits(n as nat),
        TokenView::Var => "var"@,
        TokenView::Fun => "fun"@,
        TokenView::LeftParen => seq!['('],
        TokenView::RightParen => seq![')'],
        TokenView::LeftCurly => seq!['{'],
        TokenView::RightCurly => seq!['}'],
        TokenView::Op(op) => operator_spelling(op),
        TokenView::Return => "return"@,
        TokenView::If => "if"@,
        TokenView::While => "while"@,
        TokenView::Assignment => seq!['='],
        TokenView::Semicolon => seq![';'],
        TokenView::Comma => seq![','],
        TokenView::EndOfFile => Seq::empty(),
        TokenView::Print => "print"@,
        TokenView::Input => "input"@,
        TokenView::Drop => "drop"@,
    }
}

/// Whether `word` is a name: a letter, then letters and digits, and not
/// one of the keywords.
pub open spec fn is_name(word: Seq<char>) -> bool {
    &&& word.len() > 0
    &&& is_letter(word[0])
    &&& forall|i: int| 0 <= i < word.len() ==> in_class(#[trigger] word[i], CharClass::Word)
    &&& word_token(word) == TokenView::Identifier(word)
}

/// Whether the lexer can yield `token` from a source: its identifier is a
/// name, its number is not negative, and it is neither a division nor the
/// end of the stream.
pub open spec fn spellable(token: TokenView) -> bool {
    match token {
        TokenView::Identifier(name) => is_name(name),
        TokenView::Number(n) => n >= 0,
        TokenView::Op(op) => op != Operator::Div,
        TokenView::EndOfFile => false,
        _ => true,
    }
}

/// Whether `c`, right behind the spelling of `token`, would be read as
/// part of the token or spoil it: a letter or a digit behind a word, a
/// digit behind a number, an operator character behind `<`, `>`, `=`, `&`,
/// `|` or `^`.
pub open spec fn runs_on(token: TokenView, c: char) -> bool {
    match token {
        TokenView::Identifier(_) | TokenView::Var | TokenView::Fun | TokenView::If
        | TokenView::While | TokenView::Return | TokenView::Print | TokenView::Input
        | TokenView::Drop => in_class(c, CharClass::Word),
        TokenView::Number(_) => in_class(c, CharClass::Digit),
        TokenView::Assignment => is_operator_char(c),
        TokenView::Op(op) => (op == Operator::Ls || op == Operator::Gr || op == Operator::BAnd
            || op == Operator::BOr || op == Operator::BXor) && is_operator_char(c),
        _ => false,
    }
}

/// Whether every character of `gap` is whitespace.
pub open spec fn is_gap(gap: Seq<char>) -> bool {
    forall|i: int| 0 <= i < gap.len() ==> in_class(#[trigger] gap[i], CharClass::Space)
}

/// The source that spells the tokens from position `i` on, each with its
/// gap behind it.
pub open spec fn layout(tokens: Seq<TokenView>, gaps: Seq<Seq<char>>, i: nat) -> Seq<char>
    decreases tokens.len() - i,
{
    if i >= tokens.len() {
        Seq::empty()
    } else {
        spelling(tokens[i as int]) + gaps[i as int] + layout(tokens, gaps, i + 1)
    }
}

/// Whether the tokens can be told apart in a layout: every gap is
/// whitespace, and where a gap is empty, the token behind it does not run
/// on from the token before it.
pub open spec fn lays_out(tokens: Seq<TokenView>, gaps: Seq<Seq<char>>) -> bool {
    &&& gaps.len() == tokens.len()
    &&& forall|i: int| 0 <= i < tokens.len() ==> spellable(#[trigger] tokens[i])
    &&& forall|i: int| 0 <= i < gaps.len() ==> is_gap(#[trigger] gaps[i])
    &&& forall|i: int|
        0 <= i && i + 1 < tokens.len() && (#[trigger] gaps[i]).len() == 0 ==> !runs_on(
            tokens[i],
            spelling(tokens[i + 1])[0],
        )
}

/// A blank behind each of `n` tokens.
pub open spec fn blanks(n: nat) -> Seq<Seq<char>> {
    Seq::new(n, |i: int| seq![' '])
}

/// Nothing behind any of `n` tokens.
pub open spec fn no_gaps(n: nat) -> Seq<Seq<char>> {
    Seq::new(n, |i: int| Seq::empty())
}

/// The source that spells `tokens` with a blank behind each.
pub open spec fn source_of(tokens: Seq<TokenView>) -> Seq<char> {
    layout(tokens, blanks(tokens.len()), 0)
}

/// The source that spells `tokens` one right behind the other.
pub open spec fn concatenation(tokens: Seq<TokenView>) -> Seq<char> {
    layout(tokens, no_gaps(tokens.len()), 0)
}

/// A run of `class` that fills `word` and ends with it.
proof fn lemma_run_of_word(word: Seq<char>, tail: Seq<char>, class: CharClass)
    requires
        forall|i: int| 0 <= i < word.len() ==> in_class(#[trigger] word[i], class),
        tail.len() == 0 || !in_class(tail[0], class),
    ensures
        run_len(word + tail, class) == word.len(),
    decreases word.len(),
{
    let s = word + tail;
    if word.len() == 0 {
        assert(s =~= tail);
    } else {
        assert(s[0] == word[0]);
        assert(s.drop_first() =~= word.drop_first() + tail);
        assert forall|i: int| 0 <= i < word.drop_first().len() implies in_class(
            #[trigger] word.drop_first()[i],
            class,
        ) by {
            assert(word.drop_first()[i] == word[i + 1]);
        }
        lemma_run_of_word(word.drop_first(), tail, class);
    }
}

/// The decimal digits of a number are digits, and they denote the number.
pub proof fn lemma_decimal_digits(n: nat)
    ensures
        decimal_digits(n).len() > 0,
        forall|i: int|
            0 <= i < decimal_digits(n).len() ==> in_class(
                #[trigger] decimal_digits(n)[i],
                CharClass::Digit,
            ),
        decimal_value(decimal_digits(n)) == n,
    decreases n,
{
    if n < 10 {
        let d = seq![digit_char(n)];
        assert(d.drop_last() =~= Seq::<char>::empty());
        assert(decimal_value(d.drop_last()) == 0);
        assert(d.last() == digit_char(n));
    } else {
        lemma_decimal_digits(n / 10);
        let front = decimal_digits(n / 10);
        let d = front.push(digit_char(n % 10));
        assert(d.drop_last() =~= front);
        assert(d.last() == digit_char(n % 10));
        assert forall|i: int| 0 <= i < d.len() implies in_class(#[trigger] d[i], CharClass::Digit) by {
            if i < front.len() {
                assert(d[i] == front[i]);
            }
        }
    }
}

/// What the keywords are made of.
proof fn lemma_keywords()
    ensures
        "var"@ == seq!['v', 'a', 'r'],
        "fun"@ == seq!['f', 'u', 'n'],
        "if"@ == seq!['i', 'f'],
        "while"@ == seq!['w', 'h', 'i', 'l', 'e'],
        "return"@ == seq!['r', 'e', 't', 'u', 'r', 'n'],
        "print"@ == seq!['p', 'r', 'i', 'n', 't'],
        "input"@ == seq!['i', 'n', 'p', 'u', 't'],
        "drop"@ == seq!['d', 'r', 'o', 'p'],
{
    reveal_strlit("var");
    reveal_strlit("fun");
    reveal_strlit("if");
    reveal_strlit("while");
    reveal_strlit("return");
    reveal_strlit("print");
    reveal_strlit("input");
    reveal_strlit("drop");
    assert("var"@ =~= seq!['v', 'a', 'r']);
    assert("fun"@ =~= seq!['f', 'u', 'n']);
    assert("if"@ =~= seq!['i', 'f']);
    assert("while"@ =~= seq!['w', 'h', 'i', 'l', 'e']);
    assert("return"@ =~= seq!['r', 'e', 't', 'u', 'r', 'n']);
    assert("print"@ =~= seq!['p', 'r', 'i', 'n', 't']);
    assert("input"@ =~= seq!['i', 'n', 'p', 'u', 't']);
    assert("drop"@ =~= seq!['d', 'r', 'o', 'p']);
}

/// A keyword is a word that stands for its own token.
proof fn lemma_keyword_token(token: TokenView)
    requires
        token is Var || token is Fun || token is If || token is While || token is Return
            || token is Print || token is Input || token is Drop,
    ensures
        spelling(token).len() > 0,
        is_letter(spelling(token)[0]),
        forall|i: int|
            0 <= i < spelling(token).len() ==> in_class(
                #[trigger] spelling(token)[i],
                CharClass::Word,
            ),
        word_token(spelling(token)) == token,
{
    lemma_keywords();
    let w = spelling(token);
    assert("var"@.len() == 3 && "fun"@.len() == 3 && "if"@.len() == 2 && "while"@.len() == 5
        && "return"@.len() == 6 && "print"@.len() == 5 && "input"@.len() == 5 && "drop"@.len()
        == 4);
    assert("var"@[0] == 'v' && "fun"@[0] == 'f');
    assert("while"@[0] == 'w');
    assert("print"@[0] == 'p' && "input"@[0] == 'i');
    assert("return"@[0] == 'r');
    assert("drop"@[0] == 'd');
    assert("if"@[0] == 'i');
}

/// Every token that can be spelled has a spelling.
pub proof fn lemma_spelling_not_empty(token: TokenView)
    requires
        spellable(token),
    ensures
        spelling(token).len() > 0,
{
    match token {
        TokenView::Number(n) => {
            lemma_decimal_digits(n as nat);
        },
        TokenView::Identifier(_) | TokenView::Op(_) => {},
        TokenView::LeftParen | TokenView::RightParen | TokenView::LeftCurly
        | TokenView::RightCurly | TokenView::Comma | TokenView::Semicolon
        | TokenView::Assignment => {},
        _ => {
            lemma_keyword_token(token);
        },
    }
}

/// A word is read back as the token it stands for, where no letter and no
/// digit follows it.
proof fn lemma_word_read_back(word: Seq<char>, behind: Seq<char>)
    requires
        word.len() > 0,
        is_letter(word[0]),
        forall|i: int| 0 <= i < word.len() ==> in_class(#[trigger] word[i], CharClass::Word),
        behind.len() == 0 || !in_class(behind[0], CharClass::Word),
    ensures
        next_token(word + behind) == (Lexed { token: Ok(word_token(word)), rest: behind }),
{
    let s = word + behind;
    assert(s[0] == word[0]);
    assert(run_len(s, CharClass::Space) == 0);
    assert(s.skip(0) =~= s);
    lemma_run_of_word(word, behind, CharClass::Word);
    assert(s.take(word.len() as int) =~= word);
    assert(s.skip(word.len() as int) =~= behind);
}

/// The digits of a number are read back as the number, where no digit
/// follows them.
proof fn lemma_number_read_back(n: i32, behind: Seq<char>)
    requires
        n >= 0,
        behind.len() == 0 || !in_class(behind[0], CharClass::Digit),
    ensures
        next_token(decimal_digits(n as nat) + behind) == (Lexed {
            token: Ok(TokenView::Number(n)),
            rest: behind,
        }),
{
    let word = decimal_digits(n as nat);
    lemma_decimal_digits(n as nat);
    let s = word + behind;
    assert(s[0] == word[0]);
    assert(in_class(word[0], CharClass::Digit));
    assert(run_len(s, CharClass::Space) == 0);
    assert(s.skip(0) =~= s);
    lemma_run_of_word(word, behind, CharClass::Digit);
    assert(s.take(word.len() as int) =~= word);
    assert(s.skip(word.len() as int) =~= behind);
}

/// An operator is read back as the operator, where nothing follows it that
/// runs on from it.
proof fn lemma_operator_read_back(op: Operator, behind: Seq<char>)
    requires
        op != Operator::Div,
        behind.len() == 0 || !runs_on(TokenView::Op(op), behind[0]),
    ensures
        next_token(operator_spelling(op) + behind) == (Lexed {
            token: Ok(TokenView::Op(op)),
            rest: behind,
        }),
{
    let word = operator_spelling(op);
    let s = word + behind;
    assert(s[0] == word[0]);
    assert(run_len(s, CharClass::Space) == 0);
    assert(s.skip(0) =~= s);
    assert(s.skip(word.len() as int) =~= behind);
    if word.len() == 2 {
        assert(s.skip(1)[0] == word[1]);
    } else {
        assert(s.skip(1) =~= behind);
    }
}

/// A punctuation mark or the assignment marker is read back as its token,
/// where nothing follows it that runs on from it.
proof fn lemma_mark_read_back(token: TokenView, behind: Seq<char>)
    requires
        token is LeftParen || token is RightParen || token is LeftCurly || token is RightCurly
            || token is Comma || token is Semicolon || token is Assignment,
        behind.len() == 0 || !runs_on(token, behind[0]),
    ensures
        next_token(spelling(token) + behind) == (Lexed { token: Ok(token), rest: behind }),
{
    let word = spelling(token);
    let s = word + behind;
    assert(s[0] == word[0]);
    assert(run_len(s, CharClass::Space) == 0);
    assert(s.skip(0) =~= s);
    assert(s.skip(1) =~= behind);
}

/// A spelled token is read back as the token, and what stands behind it
/// is left, where that does not run on from the token.
pub proof fn lemma_token_read_back(token: TokenView, behind: Seq<char>)
    requires
        spellable(token),
        behind.len() == 0 || !runs_on(token, behind[0]),
    ensures
        next_token(spelling(token) + behind) == (Lexed { token: Ok(token), rest: behind }),
{
    match token {
        TokenView::Identifier(name) => {
            lemma_word_read_back(name, behind);
        },
        TokenView::Number(n) => {
            lemma_number_read_back(n, behind);
        },
        TokenView::Op(op) => {
            lemma_operator_read_back(op, behind);
        },
        TokenView::LeftParen | TokenView::RightParen | TokenView::LeftCurly
        | TokenView::RightCurly | TokenView::Comma | TokenView::Semicolon
        | TokenView::Assignment => {
            lemma_mark_read_back(token, behind);
        },
        _ => {
            lemma_keyword_token(token);
            lemma_word_read_back(spelling(token), behind);
        },
    }
}

/// Whitespace in front of a source changes nothing of what is read.
pub proof fn lemma_leading_gap(gap: Seq<char>, s: Seq<char>)
    requires
        is_gap(gap),
    ensures
        next_token(gap + s) == next_token(s),
        tokenize(gap + s) == tokenize(s),
    decreases gap.len(),
{
    if gap.len() == 0 {
        assert(gap + s =~= s);
    } else {
        let b = gap + s;
        let shorter = gap.drop_first() + s;
        assert(b.drop_first() =~= shorter);
        assert(b[0] == gap[0]);
        assert forall|i: int| 0 <= i < gap.drop_first().len() implies in_class(
            #[trigger] gap.drop_first()[i],
            CharClass::Space,
        ) by {
            assert(gap.drop_first()[i] == gap[i + 1]);
        }
        lemma_leading_gap(gap.drop_first(), s);
        let k = run_len(shorter, CharClass::Space);
        lemma_run_len_bound(shorter, CharClass::Space);
        assert(run_len(b, CharClass::Space) == k + 1);
        assert(b.skip(k as int + 1) =~= shorter.skip(k as int));
        assert(next_token(b) == next_token(shorter));
    }
}

/// Lexing reads back what was spelled, in every layout: the source that
/// spells a sequence of tokens, with whitespace between them wherever one
/// would run on into the next, lexes to that sequence and the
/// end-of-stream token, and nothing of the source is left.
pub proof fn law_lexer_round_trip(tokens: Seq<TokenView>, gaps: Seq<Seq<char>>)
    requires
        lays_out(tokens, gaps),
    ensures
        tokenize(layout(tokens, gaps, 0)) == (Tokenized {
            tokens: Ok(tokens.push(TokenView::EndOfFile)),
            rest: Seq::empty(),
        }),
{
    lemma_layout_read_back(tokens, gaps, 0);
    assert(tokens.skip(0) =~= tokens);
}

/// The layout of the tokens from position `i` on lexes to these tokens.
proof fn lemma_layout_read_back(tokens: Seq<TokenView>, gaps: Seq<Seq<char>>, i: nat)
    requires
        lays_out(tokens, gaps),
        i <= tokens.len(),
    ensures
        tokenize(layout(tokens, gaps, i)) == (Tokenized {
            tokens: Ok(tokens.skip(i as int).push(TokenView::EndOfFile)),
            rest: Seq::empty(),
        }),
    decreases tokens.len() - i,
{
    let s = layout(tokens, gaps, i);
    if i == tokens.len() {
        assert(s.skip(0) =~= s);
        assert(tokens.skip(i as int).push(TokenView::EndOfFile) =~= seq![TokenView::EndOfFile]);
    } else {
        let token = tokens[i as int];
        let gap = gaps[i as int];
        let rest = layout(tokens, gaps, i + 1);
        let behind = gap + rest;
        assert(spellable(token));
        assert(is_gap(gap));
        assert(s =~= spelling(token) + behind);
        if gap.len() > 0 {
            assert(behind[0] == gap[0]);
            assert(in_class(gap[0], CharClass::Space));
        } else {
            assert(behind =~= rest);
            if i + 1 < tokens.len() {
                let next = tokens[i as int + 1];
                assert(spellable(next));
                lemma_spelling_not_empty(next);
                assert(rest[0] == spelling(next)[0]);
                assert(!runs_on(tokens[i as int], spelling(tokens[i as int + 1])[0]));
            }
        }
        lemma_token_read_back(token, behind);
        lemma_leading_gap(gap, rest);
        lemma_layout_read_back(tokens, gaps, i + 1);
        assert(seq![token] + tokens.skip(i as int + 1).push(TokenView::EndOfFile) =~= tokens.skip(
            i as int,
        ).push(TokenView::EndOfFile));
    }
}

/// The source that spells tokens with a blank behind each lexes to these
/// tokens.
pub proof fn law_spaced_round_trip(tokens: Seq<TokenView>)
    requires
        forall|i: int| 0 <= i < tokens.len() ==> spellable(#[trigger] tokens[i]),
    ensures
        tokenize(source_of(tokens)) == (Tokenized {
            tokens: Ok(tokens.push(TokenView::EndOfFile)),
            rest: Seq::empty(),
        }),
{
    let gaps = blanks(tokens.len());
    assert forall|i: int| 0 <= i < gaps.len() implies is_gap(#[trigger] gaps[i]) by {
        assert(gaps[i] == seq![' ']);
    }
    assert forall|i: int| 0 <= i && i + 1 < tokens.len() implies (#[trigger] gaps[i]).len()
        != 0 by {
        assert(gaps[i] == seq![' ']);
    }
    law_lexer_round_trip(tokens, gaps);
}

/// The source that spells tokens one right behind the other lexes to
/// these tokens, where none of them runs on into the next.
pub proof fn law_concatenation_round_trip(tokens: Seq<TokenView>)
    requires
        forall|i: int| 0 <= i < tokens.len() ==> spellable(#[trigger] tokens[i]),
        forall|i: int|
            0 <= i && i + 1 < tokens.len() ==> !runs_on(
                #[trigger] tokens[i],
                spelling(tokens[i + 1])[0],
            ),
    ensures
        tokenize(concatenation(tokens)) == (Tokenized {
            tokens: Ok(tokens.push(TokenView::EndOfFile)),
            rest: Seq::empty(),
        }),
{
    let gaps = no_gaps(tokens.len());
    assert forall|i: int| 0 <= i < gaps.len() implies is_gap(#[trigger] gaps[i]) by {
        assert(gaps[i] == Seq::<char>::empty());
    }
    law_lexer_round_trip(tokens, gaps);
}

} // verus!
