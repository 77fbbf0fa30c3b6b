//! Statements of the syntax tree.

use vstd::prelude::*;
use crate::parser::expr::{Expr, ExprView};

verus! {

#[derive(Debug)]
pub enum Stmt {
    Print(Print),
    Expression(Expression),
    Var(Var),
    Block(Block),
}

#[derive(Debug)]
pub struct Print {
    pub expression: Expr,
}

#[derive(Debug)]
pub struct Expression {
    pub expression: Expr,
}

#[derive(Debug)]
pub struct Var {
    pub name: String,
    pub initializer: Option<Expr>,
}

#[derive(Debug)]
pub struct Block {
    pub statements: Vec<Stmt>,
}

/// A statement with its text held as sequences of characters.
pub enum StmtView {
    Print { expression: ExprView },
    Expression { expression: ExprView },
    Var { name: Seq<char>, initializer: Option<ExprView> },
    Block { statements: Seq<StmtView> },
}

impl Stmt {
    /// The statement with its text as sequences of characters.
    pub open spec fn model(&self) -> StmtView
        decreases self,
    {
        match self {
            Stmt::Print(print) => StmtView::Print { expression: print.expression@ },
            Stmt::Expression(expression) => StmtView::Expression {
                expression: expression.expression@,
            },
            Stmt::Var(var) => StmtView::Var {
                name: var.name@,
                initializer: match var.initializer {
                    Some(expr) => Some(expr@),
                    None => None,
                },
            },
            Stmt::Block(block) => StmtView::Block {
                statements: Seq::new(
                    block.statements.len() as nat,
                    |i: int|
                        if 0 <= i < block.statements.len() {
                            block.statements[i].model()
                        } else {
                            arbitrary()
                        },
                ),
            },
        }
    }
}

impl View for Stmt {
    type V = StmtView;

    open spec fn view(&self) -> StmtView {
        self.model()
    }
}

/// The views of a list of statements, in order.
pub open spec fn stmt_views(stmts: Seq<Stmt>) -> Seq<StmtView> {
    Seq::new(stmts.len(), |i: int| stmts[i]@)
}

impl Clone for Stmt {
    fn clone(&self) -> (copy: Stmt)
        ensures
            copy@ == self@,
        decreases self, 1nat,
    {
        match self {
            Stmt::Print(print) => Stmt::Print(print.clone()),
            Stmt::Expression(expression) => Stmt::Expression(expression.clone()),
            Stmt::Var(var) => Stmt::Var(var.clone()),
            Stmt::Block(block) => {
                let copy = block.clone();
                proof {
                    lemma_block_view(*block);
                    lemma_block_view(copy);
                }
                Stmt::Block(copy)
            },
        }
    }
}

impl Clone for Print {
    fn clone(&self) -> (copy: Print)
        ensures
            copy == *self,
    {
        Print { expression: self.expression.clone() }
    }
}

impl Clone for Expression {
    fn clone(&self) -> (copy: Expression)
        ensures
            copy == *self,
    {
        Expression { expression: self.expression.clone() }
    }
}

impl Clone for Var {
    fn clone(&self) -> (copy: Var)
        ensures
            copy == *self,
    {
        Var {
            name: self.name.clone(),
            initializer: match &self.initializer {
                Some(expr) => Some(expr.clone()),
                None => None,
            },
        }
    }
}

impl Clone for Block {
    fn clone(&self) -> (copy: Block)
        ensures
            stmt_views(copy.statements@) == stmt_views(self.statements@),
        decreases self, 0nat,
    {
        Block { statements: clone_all(self.statements.as_slice()) }
    }
}

/// Copies of the statements, in order.
fn clone_all(stmts: &[Stmt]) -> (copies: Vec<Stmt>)
    ensures
        stmt_views(copies@) == stmt_views(stmts@),
    decreases stmts@, 0nat,
{
    let mut copies: Vec<Stmt> = Vec::new();
    let mut i: usize = 0;
    while i < stmts.len()
        invariant
            i <= stmts.len(),
            copies.len() == i,
            forall|j: int| 0 <= j < i ==> copies[j]@ == stmts[j]@,
        decreases stmts.len() - i,
    {
        copies.push(stmts[i].clone());
        i += 1;
    }
    proof {
        assert(stmt_views(copies@) =~= stmt_views(stmts@));
    }
    copies
}

impl Print {
    pub fn new(expression: Expr) -> (p: Print)
        ensures
            p.expression == expression,
    {
        Print { expression }
    }
}

impl Expression {
    pub fn new(expression: Expr) -> (e: Expression)
        ensures
            e.expression == expression,
    {
        Expression { expression }
    }
}

impl Var {
    pub fn new(name: String, initializer: Option<Expr>) -> (v: Var)
        ensures
            v.name == name,
            v.initializer == initializer,
    {
        Var { name, initializer }
    }
}

impl Block {
    pub fn new(statements: Vec<Stmt>) -> (b: Block)
        ensures
            b.statements == statements,
    {
        Block { statements }
    }
}

/// A block's view lists the views of its statements.
pub proof fn lemma_block_view(block: Block)
    ensures
        Stmt::Block(block)@ == (StmtView::Block { statements: stmt_views(block.statements@) }),
{
    assert(Stmt::Block(block)@->Block_statements =~= stmt_views(block.statements@));
}

} // verus!
