//! Expressions of the syntax tree.

use vstd::prelude::*;
use vstd::string::*;
use crate::lexer::token::{Token, TokenView};
use crate::number::{decimal_text, with_fraction, Number};

verus! {

#[derive(Debug)]
pub enum Expr {
    Binary(Binary),
    Grouping(Grouping),
    Literal(Literal),
    Unary(Unary),
    Variable(Variable),
    Assign(Assign),
}

#[derive(Debug)]
pub struct Binary {
    pub left: Box<Expr>,
    pub operator: BinaryOp,
    pub right: Box<Expr>,
    pub line_number: usize,
}

#[derive(Debug)]
pub struct Grouping {
    pub expression: Box<Expr>,
    pub line_number: usize,
}

#[derive(Debug)]
pub struct Literal {
    pub literal_type: LiteralType,
    pub line_number: usize,
}

#[derive(Debug)]
pub struct Unary {
    pub operator: UnaryOp,
    pub right: Box<Expr>,
    pub line_number: usize,
}

#[derive(Debug)]
pub struct Variable {
    pub name: Token,
}

#[derive(Debug)]
pub struct Assign {
    pub name: Token,
    pub value: Box<Expr>,
}

#[derive(Debug, Clone, Copy, PartialEq, Eq, Structural)]
pub enum BinaryOp {
    Plus,
    Minus,
    Mul,
    Div,
    Greater,
    GreaterEqual,
    Less,
    LessEqual,
    Equal,
    NotEqual,
}

#[derive(Debug)]
pub enum LiteralType {
    String { value: String },
    Number { value: Number },
    Bool { value: bool },
    Nil,
}

#[derive(Debug, Clone, Copy, PartialEq, Eq, Structural)]
pub enum UnaryOp {
    Bang,
    Minus,
}

pub enum LiteralTypeView {
    String { value: Seq<char> },
    Number { value: Number },
    Bool { value: bool },
    Nil,
}

/// An expression with its text held as sequences of characters.
pub enum ExprView {
    Binary { left: Box<ExprView>, operator: BinaryOp, right: Box<ExprView>, line_number: usize },
    Grouping { expression: Box<ExprView>, line_number: usize },
    Literal { literal_type: LiteralTypeView, line_number: usize },
    Unary { operator: UnaryOp, right: Box<ExprView>, line_number: usize },
    Variable { name: TokenView },
    Assign { name: TokenView, value: Box<ExprView> },
}

impl View for LiteralType {
    type V = LiteralTypeView;

    open spec fn view(&self) -> LiteralTypeView {
        match self {
            LiteralType::String { value } => LiteralTypeView::String { value: value@ },
            LiteralType::Number { value } => LiteralTypeView::Number { value: *value },
            LiteralType::Bool { value } => LiteralTypeView::Bool { value: *value },
            LiteralType::Nil => LiteralTypeView::Nil,
        }
    }
}

impl Expr {
    /// The expression with its text as sequences of characters.
    pub open spec fn model(&self) -> ExprView
        decreases self,
    {
        match self {
            Expr::Binary(binary) => ExprView::Binary {
                left: Box::new(binary.left.model()),
                operator: binary.operator,
                right: Box::new(binary.right.model()),
                line_number: binary.line_number,
            },
            Expr::Grouping(grouping) => ExprView::Grouping {
                expression: Box::new(grouping.expression.model()),
                line_number: grouping.line_number,
            },
            Expr::Literal(literal) => ExprView::Literal {
                literal_type: literal.literal_type@,
                line_number: literal.line_number,
            },
            Expr::Unary(unary) => ExprView::Unary {
                operator: unary.operator,
                right: Box::new(unary.right.model()),
                line_number: unary.line_number,
            },
            Expr::Variable(variable) => ExprView::Variable { name: variable.name@ },
            Expr::Assign(assign) => ExprView::Assign {
                name: assign.name@,
                value: Box::new(assign.value.model()),
            },
        }
    }
}

impl View for Expr {
    type V = ExprView;

    open spec fn view(&self) -> ExprView {
        self.model()
    }
}

impl Clone for LiteralType {
    fn clone(&self) -> (copy: LiteralType)
        ensures
            copy == *self,
    {
        match self {
            LiteralType::String { value } => LiteralType::String { value: value.clone() },
            LiteralType::Number { value } => LiteralType::Number { value: *value },
            LiteralType::Bool { value } => LiteralType::Bool { value: *value },
            LiteralType::Nil => LiteralType::Nil,
        }
    }
}

impl Clone for Expr {
    fn clone(&self) -> (copy: Expr)
        ensures
            copy == *self,
        decreases self, 1nat,
    {
        match self {
            Expr::Binary(binary) => Expr::Binary(binary.clone()),
            Expr::Grouping(grouping) => Expr::Grouping(grouping.clone()),
            Expr::Literal(literal) => Expr::Literal(literal.clone()),
            Expr::Unary(unary) => Expr::Unary(unary.clone()),
            Expr::Variable(variable) => Expr::Variable(variable.clone()),
            Expr::Assign(assign) => Expr::Assign(assign.clone()),
        }
    }
}

impl Clone for Binary {
    fn clone(&self) -> (copy: Binary)
        ensures
            copy == *self,
        decreases self, 0nat,
    {
        Binary {
            left: Box::new((*self.left).clone()),
            operator: self.operator,
            right: Box::new((*self.right).clone()),
            line_number: self.line_number,
        }
    }
}

impl Clone for Grouping {
    fn clone(&self) -> (copy: Grouping)
        ensures
            copy == *self,
        decreases self, 0nat,
    {
        Grouping {
            expression: Box::new((*self.expression).clone()),
            line_number: self.line_number,
        }
    }
}

impl Clone for Literal {
    fn clone(&self) -> (copy: Literal)
        ensures
            copy == *self,
    {
        Literal { literal_type: self.literal_type.clone(), line_number: self.line_number }
    }
}

impl Clone for Unary {
    fn clone(&self) -> (copy: Unary)
        ensures
            copy == *self,
        decreases self, 0nat,
    {
        Unary {
            operator: self.operator,
            right: Box::new((*self.right).clone()),
            line_number: self.line_number,
        }
    }
}

impl Clone for Variable {
    fn clone(&self) -> (copy: Variable)
        ensures
            copy == *self,
    {
        Variable { name: self.name.clone() }
    }
}

impl Clone for Assign {
    fn clone(&self) -> (copy: Assign)
        ensures
            copy == *self,
        decreases self, 0nat,
    {
        Assign { name: self.name.clone(), value: Box::new((*self.value).clone()) }
    }
}

impl Binary {
    pub fn new(left: Box<Expr>, operator: BinaryOp, right: Box<Expr>, line_number: usize) -> (b:
        Binary)
        ensures
            b.left == left,
            b.operator == operator,
            b.right == right,
            b.line_number == line_number,
    {
        Binary { left, operator, right, line_number }
    }
}

impl Grouping {
    pub fn new(expression: Box<Expr>, line_number: usize) -> (g: Grouping)
        ensures
            g.expression == expression,
            g.line_number == line_number,
    {
        Grouping { expression, line_number }
    }
}

impl Literal {
    pub fn new(literal_type: LiteralType, line_number: usize) -> (l: Literal)
        ensures
            l.literal_type == literal_type,
            l.line_number == line_number,
    {
        Literal { literal_type, line_number }
    }

    /// The display form of the literal; `format` renders a number in decimal.
    pub fn to_string<F: Fn(Number) -> String>(&self, format: &F) -> (text: String)
        requires
            forall|n: Number| call_requires(format, (n,)),
        ensures
            exists|shown: String|
                {
                    &&& self.literal_type matches LiteralType::Number { value }
                        ==> call_ensures(format, (value,), shown)
                    &&& text@ == self.literal_type@.display(shown@)
                },
    {
        self.literal_type.to_string(format)
    }
}

impl Unary {
    pub fn new(operator: UnaryOp, right: Box<Expr>, line_number: usize) -> (u: Unary)
        ensures
            u.operator == operator,
            u.right == right,
            u.line_number == line_number,
    {
        Unary { operator, right, line_number }
    }
}

impl Variable {
    pub fn new(name: Token) -> (v: Variable)
        ensures
            v.name == name,
    {
        Variable { name }
    }
}

impl Assign {
    pub fn new(name: Token, value: Box<Expr>) -> (a: Assign)
        ensures
            a.name == name,
            a.value == value,
    {
        Assign { name, value }
    }
}

impl BinaryOp {
    /// The operator as source text writes it.
    pub open spec fn symbol(self) -> Seq<char> {
        match self {
            BinaryOp::Plus => "+"@,
            BinaryOp::Minus => "-"@,
            BinaryOp::Mul => "*"@,
            BinaryOp::Div => "/"@,
            BinaryOp::Greater => ">"@,
            BinaryOp::GreaterEqual => ">="@,
            BinaryOp::Less => "<"@,
            BinaryOp::LessEqual => "<="@,
            BinaryOp::Equal => "=="@,
            BinaryOp::NotEqual => "!="@,
        }
    }

    pub fn to_string(&self) -> (s: String)
        ensures
            s@ == self.symbol(),
    {
        match self {
            BinaryOp::Plus => "+".to_string(),
            BinaryOp::Minus => "-".to_string(),
            BinaryOp::Mul => "*".to_string(),
            BinaryOp::Div => "/".to_string(),
            BinaryOp::Greater => ">".to_string(),
            BinaryOp::GreaterEqual => ">=".to_string(),
            BinaryOp::Less => "<".to_string(),
            BinaryOp::LessEqual => "<=".to_string(),
            BinaryOp::Equal => "==".to_string(),
            BinaryOp::NotEqual => "!=".to_string(),
        }
    }
}

impl UnaryOp {
    /// The operator as source text writes it.
    pub open spec fn symbol(self) -> Seq<char> {
        match self {
            UnaryOp::Bang => "!"@,
            UnaryOp::Minus => "-"@,
        }
    }

    pub fn to_string(&self) -> (s: String)
        ensures
            s@ == self.symbol(),
    {
        match self {
            UnaryOp::Bang => "!".to_string(),
            UnaryOp::Minus => "-".to_string(),
        }
    }
}

impl LiteralTypeView {
    /// The display form of a literal, given the decimal text `shown` that the
    /// host produced for its number (unused for other kinds): `nil`, `true`
    /// or `false`, a string's content, a number with a fraction part.
    pub open spec fn display(self, shown: Seq<char>) -> Seq<char> {
        match self {
            LiteralTypeView::Nil => "nil"@,
            LiteralTypeView::Bool { value } => if value {
                "true"@
            } else {
                "false"@
            },
            LiteralTypeView::String { value } => value,
            LiteralTypeView::Number { .. } => with_fraction(shown),
        }
    }
}

impl LiteralType {
    /// The display form of the literal; `format` renders a number in decimal.
    pub fn to_string<F: Fn(Number) -> String>(&self, format: &F) -> (text: String)
        requires
            forall|n: Number| call_requires(format, (n,)),
        ensures
            exists|shown: String|
                {
                    &&& self matches LiteralType::Number { value } ==> call_ensures(
                        format,
                        (*value,),
                        shown,
                    )
                    &&& text@ == self@.display(shown@)
                },
    {
        match self {
            LiteralType::Nil => {
                let text = "nil".to_string();
                assert(text@ == self@.display(text@));
                text
            },
            LiteralType::Bool { value } => {
                let text = if *value {
                    "true".to_string()
                } else {
                    "false".to_string()
                };
                assert(text@ == self@.display(text@));
                text
            },
            LiteralType::String { value } => {
                let text = value.clone();
                assert(text@ == self@.display(text@));
                text
            },
            LiteralType::Number { value } => {
                let shown = format(*value);
                let ghost witness = shown;
                let text = decimal_text(shown);
                assert(text@ == self@.display(witness@));
                text
            },
        }
    }
}

} // verus!
