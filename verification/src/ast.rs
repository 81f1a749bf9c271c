//! The syntax tree that the parser builds and the interpreter walks, and
//! the mathematical value of each of its nodes.

use crate::lexer::{push_char, Operator};
use crate::spelling::{decimal_digits, digit_char};
use vstd::prelude::*;

verus! {

/// An expression.
#[derive(Debug, PartialEq, Eq)]
pub enum ExprAST {
    Variable(String),
    Val(Value),
    BinOp(Operator, Box<ExprAST>, Box<ExprAST>),
    Call(String, Vec<ExprAST>),
}

/// A runtime value.  A string orders before every integer.
#[derive(Debug, PartialEq, Eq, PartialOrd, Ord)]
pub enum Value {
    Str(String),
    Int(i32),
}

/// A function definition.
#[derive(Debug, PartialEq, Eq)]
pub struct FunctionAST {
    pub proto: PrototypeAST,
    pub body: Vec<Statement>,
}

/// A function's name and the names of its parameters.
#[derive(Debug, PartialEq, Eq)]
pub struct PrototypeAST {
    pub name: String,
    pub args: Vec<String>,
}

/// A statement.
#[derive(Debug, PartialEq, Eq)]
pub enum Statement {
    Assign(Assignment),
    If(IfBlock),
    While(WhileBlock),
    Call(ExprAST),
    Built(BuiltIn),
}

/// A declaration (`var x = e;`) or a plain assignment (`x = e;`).
#[derive(Debug, PartialEq, Eq)]
pub struct Assignment {
    pub is_declaration: bool,
    pub variable: ExprAST,
    pub right_hand: ExprAST,
}

/// A condition and the statements that run once if it holds.
#[derive(Debug, PartialEq, Eq)]
pub struct IfBlock {
    pub conditional: ExprAST,
    pub body: Vec<Statement>,
}

/// A condition and the statements that run for as long as it holds.
#[derive(Debug, PartialEq, Eq)]
pub struct WhileBlock {
    pub conditional: ExprAST,
    pub body: Vec<Statement>,
}

/// One of the four built-in operations.
#[derive(Debug, PartialEq, Eq)]
pub enum BuiltIn {
    Print(ExprAST),
    Return(ExprAST),
    /// The operand is a variable.
    Input(ExprAST),
    /// The operand is a variable.
    Drop(ExprAST),
}

/// The mathematical value of a [`Value`].
pub enum ValueView {
    Str(Seq<char>),
    Int(i32),
}

/// The mathematical value of an [`ExprAST`].
pub enum ExprView {
    Variable(Seq<char>),
    Val(ValueView),
    BinOp(Operator, Box<ExprView>, Box<ExprView>),
    Call(Seq<char>, Seq<ExprView>),
}

/// The mathematical value of a [`Statement`].
pub enum StatementView {
    Assign { is_declaration: bool, variable: ExprView, right_hand: ExprView },
    If { conditional: ExprView, body: Seq<StatementView> },
    While { conditional: ExprView, body: Seq<StatementView> },
    Call(ExprView),
    Print(ExprView),
    Return(ExprView),
    Input(ExprView),
    Drop(ExprView),
}

/// The mathematical value of a [`FunctionAST`].
pub struct FunctionView {
    pub name: Seq<char>,
    pub params: Seq<Seq<char>>,
    pub body: Seq<StatementView>,
}

/// The mathematical value of a [`PrototypeAST`].
pub struct PrototypeView {
    pub name: Seq<char>,
    pub params: Seq<Seq<char>>,
}

/// The mathematical value of an [`IfBlock`] or a [`WhileBlock`].
pub struct ConditionalView {
    pub conditional: ExprView,
    pub body: Seq<StatementView>,
}

impl View for Value {
    type V = ValueView;

    open spec fn view(&self) -> ValueView {
        match self {
            Value::Str(text) => ValueView::Str(text@),
            Value::Int(n) => ValueView::Int(*n),
        }
    }
}

impl View for ExprAST {
    type V = ExprView;

    open spec fn view(&self) -> ExprView {
        expr_view(*self)
    }
}

/// The value of an expression.
pub open spec fn expr_view(e: ExprAST) -> ExprView
    decreases e,
{
    match e {
        ExprAST::Variable(name) => ExprView::Variable(name@),
        ExprAST::Val(value) => ExprView::Val(value@),
        ExprAST::BinOp(op, lhs, rhs) => ExprView::BinOp(
            op,
            Box::new(expr_view(*lhs)),
            Box::new(expr_view(*rhs)),
        ),
        ExprAST::Call(name, args) => ExprView::Call(
            name@,
            Seq::new(
                args.len() as nat,
                |i: int|
                    if 0 <= i < args.len() {
                        expr_view(args[i])
                    } else {
                        arbitrary()
                    },
            ),
        ),
    }
}

/// The values of a vector of expressions, in order.
pub open spec fn expr_views(exprs: &Vec<ExprAST>) -> Seq<ExprView> {
    Seq::new(exprs.len() as nat, |i: int| exprs[i]@)
}

impl View for Statement {
    type V = StatementView;

    open spec fn view(&self) -> StatementView
        decreases self,
    {
        match self {
            Statement::Assign(a) => StatementView::Assign {
                is_declaration: a.is_declaration,
                variable: a.variable@,
                right_hand: a.right_hand@,
            },
            Statement::If(block) => StatementView::If {
                conditional: block.conditional@,
                body: statement_views(&block.body),
            },
            Statement::While(block) => StatementView::While {
                conditional: block.conditional@,
                body: statement_views(&block.body),
            },
            Statement::Call(e) => StatementView::Call(e@),
            Statement::Built(BuiltIn::Print(e)) => StatementView::Print(e@),
            Statement::Built(BuiltIn::Return(e)) => StatementView::Return(e@),
            Statement::Built(BuiltIn::Input(e)) => StatementView::Input(e@),
            Statement::Built(BuiltIn::Drop(e)) => StatementView::Drop(e@),
        }
    }
}

/// The values of a vector of statements, in order.
pub open spec fn statement_views(statements: &Vec<Statement>) -> Seq<StatementView>
    decreases statements,
{
    Seq::new(
        statements.len() as nat,
        |i: int|
            if 0 <= i < statements.len() {
                statements[i].view()
            } else {
                arbitrary()
            },
    )
}

/// The values of a vector of names, in order.
pub open spec fn name_views(names: &Vec<String>) -> Seq<Seq<char>> {
    Seq::new(names.len() as nat, |i: int| names[i]@)
}

impl View for PrototypeAST {
    type V = PrototypeView;

    open spec fn view(&self) -> PrototypeView {
        PrototypeView { name: self.name@, params: name_views(&self.args) }
    }
}

impl View for IfBlock {
    type V = ConditionalView;

    open spec fn view(&self) -> ConditionalView {
        ConditionalView { conditional: self.conditional@, body: statement_views(&self.body) }
    }
}

impl View for WhileBlock {
    type V = ConditionalView;

    open spec fn view(&self) -> ConditionalView {
        ConditionalView { conditional: self.conditional@, body: statement_views(&self.body) }
    }
}

/// The values of a vector of functions, in order.
pub open spec fn function_views(functions: &Vec<FunctionAST>) -> Seq<FunctionView> {
    Seq::new(functions.len() as nat, |i: int| functions[i]@)
}

impl View for FunctionAST {
    type V = FunctionView;

    open spec fn view(&self) -> FunctionView {
        FunctionView {
            name: self.proto.name@,
            params: name_views(&self.proto.args),
            body: statement_views(&self.body),
        }
    }
}

/// The value of a vector of expressions has the value of each expression
/// at its place.
pub proof fn lemma_expr_views(exprs: &Vec<ExprAST>)
    ensures
        expr_views(exprs).len() == exprs.len(),
        forall|i: int| 0 <= i < exprs.len() ==> #[trigger] expr_views(exprs)[i] == exprs[i]@,
{
}

/// The value of a call holds the values of its arguments.
pub proof fn lemma_call_view(name: String, args: Vec<ExprAST>)
    ensures
        ExprAST::Call(name, args)@ == ExprView::Call(name@, expr_views(&args)),
{
    reveal_with_fuel(expr_view, 2);
    let e = ExprAST::Call(name, args);
    assert(e@->Call_1 =~= expr_views(&args));
}

/// The value of an operation holds the values of its operands.
pub proof fn lemma_binop_view(op: Operator, lhs: Box<ExprAST>, rhs: Box<ExprAST>)
    ensures
        ExprAST::BinOp(op, lhs, rhs)@ == ExprView::BinOp(op, Box::new((*lhs)@), Box::new((*rhs)@)),
{
    reveal_with_fuel(expr_view, 2);
}

/// The value of a vector of statements has the value of each statement at
/// its place.
pub proof fn lemma_statement_views(statements: &Vec<Statement>)
    ensures
        statement_views(statements).len() == statements.len(),
        forall|i: int|
            0 <= i < statements.len() ==> #[trigger] statement_views(statements)[i]
                == statements[i]@,
{
}

impl FunctionAST {
    pub fn new(proto: PrototypeAST, body: Vec<Statement>) -> (f: Self)
        ensures
            f.proto == proto,
            f.body == body,
    {
        FunctionAST { proto, body }
    }
}

impl PrototypeAST {
    pub fn new(name: String, args: Vec<String>) -> (p: Self)
        ensures
            p.name == name,
            p.args == args,
    {
        PrototypeAST { name, args }
    }
}

impl Assignment {
    pub fn new(is_declaration: bool, variable: ExprAST, right_hand: ExprAST) -> (a: Self)
        ensures
            a.is_declaration == is_declaration,
            a.variable == variable,
            a.right_hand == right_hand,
    {
        Assignment { is_declaration, variable, right_hand }
    }
}

impl IfBlock {
    pub fn new(conditional: ExprAST, body: Vec<Statement>) -> (block: Self)
        ensures
            block.conditional == conditional,
            block.body == body,
    {
        IfBlock { conditional, body }
    }
}

impl WhileBlock {
    pub fn new(conditional: ExprAST, body: Vec<Statement>) -> (block: Self)
        ensures
            block.conditional == conditional,
            block.body == body,
    {
        WhileBlock { conditional, body }
    }
}

/// The textual form of a value: a string as it is, an integer in decimal
/// digits, with `-` in front where it is negative.
pub open spec fn text_of(v: ValueView) -> Seq<char> {
    match v {
        ValueView::Str(text) => text,
        ValueView::Int(n) => if n < 0 {
            seq!['-'] + decimal_digits((-n) as nat)
        } else {
            decimal_digits(n as nat)
        },
    }
}

/// The character of the decimal digit `d`.
fn digit_of(d: u64) -> (c: char)
    requires
        d < 10,
    ensures
        c == digit_char(d as nat),
{
    if d == 0 {
        '0'
    } else if d == 1 {
        '1'
    } else if d == 2 {
        '2'
    } else if d == 3 {
        '3'
    } else if d == 4 {
        '4'
    } else if d == 5 {
        '5'
    } else if d == 6 {
        '6'
    } else if d == 7 {
        '7'
    } else if d == 8 {
        '8'
    } else {
        '9'
    }
}

/// Appends the decimal digits of `n` to `text`.
fn push_decimal(text: &mut String, n: u64)
    ensures
        final(text)@ == old(text)@ + decimal_digits(n as nat),
    decreases n,
{
    if n >= 10 {
        push_decimal(text, n / 10);
    }
    push_char(text, digit_of(n % 10));
    proof {
        if n >= 10 {
            assert(old(text)@ + decimal_digits(n as nat / 10).push(digit_char(n as nat % 10))
                =~= (old(text)@ + decimal_digits(n as nat / 10)).push(digit_char(n as nat % 10)));
        } else {
            assert(old(text)@ + seq![digit_char(n as nat)] =~= old(text)@.push(
                digit_char(n as nat),
            ));
        }
    }
}

impl Value {
    /// The textual form of the value, as `print` writes it.
    pub fn to_text(&self) -> (text: String)
        ensures
            text@ == text_of(self@),
    {
        match self {
            Value::Str(s) => s.clone(),
            Value::Int(n) => {
                let mut text = String::new();
                if *n < 0 {
                    push_char(&mut text, '-');
                    push_decimal(&mut text, (-(*n as i64)) as u64);
                    proof {
                        assert(Seq::<char>::empty().push('-') =~= seq!['-']);
                    }
                } else {
                    push_decimal(&mut text, *n as u64);
                    proof {
                        assert(Seq::<char>::empty() + decimal_digits(*n as nat)
                            =~= decimal_digits(*n as nat));
                    }
                }
                text
            },
        }
    }
}

impl Clone for Value {
    /// A copy with the same value.
    fn clone(&self) -> (copy: Self)
        ensures
            copy@ == self@,
    {
        match self {
            Value::Str(text) => Value::Str(text.clone()),
            Value::Int(n) => Value::Int(*n),
        }
    }
}

impl Clone for ExprAST {
    /// A copy with the same value.
    fn clone(&self) -> (copy: Self)
        ensures
            copy@ == self@,
        decreases self,
    {
        match self {
            ExprAST::Variable(name) => ExprAST::Variable(name.clone()),
            ExprAST::Val(Value::Str(text)) => ExprAST::Val(Value::Str(text.clone())),
            ExprAST::Val(Value::Int(n)) => ExprAST::Val(Value::Int(*n)),
            ExprAST::BinOp(op, lhs, rhs) => {
                let left = (**lhs).clone();
                let right = (**rhs).clone();
                proof {
                    lemma_binop_view(*op, *lhs, *rhs);
                    lemma_binop_view(*op, Box::new(left), Box::new(right));
                }
                ExprAST::BinOp(*op, Box::new(left), Box::new(right))
            },
            ExprAST::Call(name, args) => {
                let mut copies: Vec<ExprAST> = Vec::new();
                let mut i: usize = 0;
                while i < args.len()
                    invariant
                        i <= args.len(),
                        copies.len() == i,
                        decreases_to!(self => args),
                        forall|j: int| 0 <= j < i ==> copies[j]@ == args[j]@,
                    decreases args.len() - i,
                {
                    copies.push(args[i].clone());
                    i += 1;
                }
                let copied_name = name.clone();
                proof {
                    lemma_call_view(*name, *args);
                    lemma_call_view(copied_name, copies);
                    assert(expr_views(&copies) =~= expr_views(args));
                }
                ExprAST::Call(copied_name, copies)
            },
        }
    }
}

/// Copies of `statements`, in order.
fn clone_statements(statements: &Vec<Statement>) -> (copies: Vec<Statement>)
    ensures
        statement_views(&copies) == statement_views(statements),
    decreases statements,
{
    let mut copies: Vec<Statement> = Vec::new();
    let mut i: usize = 0;
    while i < statements.len()
        invariant
            i <= statements.len(),
            copies.len() == i,
            forall|j: int| 0 <= j < i ==> copies[j]@ == statements[j]@,
        decreases statements.len() - i,
    {
        copies.push(statements[i].clone());
        i += 1;
    }
    proof {
        lemma_statement_views(&copies);
        lemma_statement_views(statements);
        assert(statement_views(&copies) =~= statement_views(statements));
    }
    copies
}

impl Clone for Statement {
    /// A copy with the same value.
    fn clone(&self) -> (copy: Self)
        ensures
            copy@ == self@,
        decreases self,
    {
        match self {
            Statement::Assign(a) => Statement::Assign(
                Assignment {
                    is_declaration: a.is_declaration,
                    variable: a.variable.clone(),
                    right_hand: a.right_hand.clone(),
                },
            ),
            Statement::If(block) => Statement::If(
                IfBlock {
                    conditional: block.conditional.clone(),
                    body: clone_statements(&block.body),
                },
            ),
            Statement::While(block) => Statement::While(
                WhileBlock {
                    conditional: block.conditional.clone(),
                    body: clone_statements(&block.body),
                },
            ),
            Statement::Call(e) => Statement::Call(e.clone()),
            Statement::Built(BuiltIn::Print(e)) => Statement::Built(BuiltIn::Print(e.clone())),
            Statement::Built(BuiltIn::Return(e)) => Statement::Built(BuiltIn::Return(e.clone())),
            Statement::Built(BuiltIn::Input(e)) => Statement::Built(BuiltIn::Input(e.clone())),
            Statement::Built(BuiltIn::Drop(e)) => Statement::Built(BuiltIn::Drop(e.clone())),
        }
    }
}

impl Clone for Assignment {
    /// A copy with the same value.
    fn clone(&self) -> (copy: Self)
        ensures
            copy.is_declaration == self.is_declaration,
            copy.variable@ == self.variable@,
            copy.right_hand@ == self.right_hand@,
    {
        Assignment {
            is_declaration: self.is_declaration,
            variable: self.variable.clone(),
            right_hand: self.right_hand.clone(),
        }
    }
}

impl Clone for IfBlock {
    /// A copy with the same value.
    fn clone(&self) -> (copy: Self)
        ensures
            copy@ == self@,
    {
        IfBlock { conditional: self.conditional.clone(), body: clone_statements(&self.body) }
    }
}

impl Clone for WhileBlock {
    /// A copy with the same value.
    fn clone(&self) -> (copy: Self)
        ensures
            copy@ == self@,
    {
        WhileBlock { conditional: self.conditional.clone(), body: clone_statements(&self.body) }
    }
}

impl Clone for BuiltIn {
    /// A copy with the same value.
    fn clone(&self) -> (copy: Self)
        ensures
            Statement::Built(copy)@ == Statement::Built(*self)@,
    {
        match self {
            BuiltIn::Print(e) => BuiltIn::Print(e.clone()),
            BuiltIn::Return(e) => BuiltIn::Return(e.clone()),
            BuiltIn::Input(e) => BuiltIn::Input(e.clone()),
            BuiltIn::Drop(e) => BuiltIn::Drop(e.clone()),
        }
    }
}

impl Clone for PrototypeAST {
    /// A copy with the same value.
    fn clone(&self) -> (copy: Self)
        ensures
            copy@ == self@,
    {
        let mut args: Vec<String> = Vec::new();
        let mut i: usize = 0;
        while i < self.args.len()
            invariant
                i <= self.args.len(),
                args.len() == i,
                forall|j: int| 0 <= j < i ==> args[j]@ == self.args[j]@,
            decreases self.args.len() - i,
        {
            args.push(self.args[i].clone());
            i += 1;
        }
        proof {
            assert(name_views(&args) =~= name_views(&self.args));
        }
        PrototypeAST { name: self.name.clone(), args }
    }
}

impl Clone for FunctionAST {
    /// A copy with the same value.
    fn clone(&self) -> (copy: Self)
        ensures
            copy@ == self@,
    {
        FunctionAST { proto: self.proto.clone(), body: clone_statements(&self.body) }
    }
}

} // verus!
