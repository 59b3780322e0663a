//! Statement trees.
use vstd::prelude::*;
use crate::expr::Expr;

verus! {

/// A statement.
#[derive(Debug)]
pub enum Stmt {
    /// Does nothing. Also stands for the absent `else` of a conditional.
    Empty,
    /// Statements run in order in a scope of their own.
    Block(Vec<Stmt>),
    /// An expression evaluated for its effects.
    Expression(Box<Expr>),
    /// Condition, then-branch, else-branch.
    If(Box<Expr>, Box<Stmt>, Box<Stmt>),
    Print(Box<Expr>),
    /// A declaration: the name and its initializer.
    Var(String, Box<Expr>),
    /// Condition and body.
    While(Box<Expr>, Box<Stmt>),
}

impl Stmt {
    /// Whether every expression in the tree is well formed.
    pub open spec fn well_formed(self) -> bool
        decreases self,
    {
        match self {
            Stmt::Empty => true,
            Stmt::Block(stmts) => all_well_formed(stmts@),
            Stmt::Expression(e) => e.well_formed(),
            Stmt::If(cond, then_branch, else_branch) => {
                &&& cond.well_formed()
                &&& then_branch.well_formed()
                &&& else_branch.well_formed()
            },
            Stmt::Print(e) => e.well_formed(),
            Stmt::Var(_, init) => init.well_formed(),
            Stmt::While(cond, body) => cond.well_formed() && body.well_formed(),
        }
    }

    /// Checks every expression in the tree.
    pub fn is_well_formed(&self) -> (yes: bool)
        ensures
            yes == self.well_formed(),
        decreases *self,
    {
        match self {
            Stmt::Empty => true,
            Stmt::Block(stmts) => are_well_formed(stmts),
            Stmt::Expression(e) => e.is_well_formed(),
            Stmt::If(cond, then_branch, else_branch) => {
                cond.is_well_formed() && then_branch.is_well_formed()
                    && else_branch.is_well_formed()
            },
            Stmt::Print(e) => e.is_well_formed(),
            Stmt::Var(_, init) => init.is_well_formed(),
            Stmt::While(cond, body) => cond.is_well_formed() && body.is_well_formed(),
        }
    }
}

/// Whether each of the statements is well formed.
pub open spec fn all_well_formed(stmts: Seq<Stmt>) -> bool
    decreases stmts,
{
    forall|i: int| 0 <= i < stmts.len() ==> (#[trigger] stmts[i]).well_formed()
}

/// Checks each of the statements.
pub fn are_well_formed(stmts: &Vec<Stmt>) -> (yes: bool)
    ensures
        yes == all_well_formed(stmts@),
    decreases *stmts,
{
    let mut i: usize = 0;
    while i < stmts.len()
        invariant
            i <= stmts.len(),
            forall|j: int| 0 <= j < i ==> (#[trigger] stmts@[j]).well_formed(),
        decreases stmts.len() - i,
    {
        if !stmts[i].is_well_formed() {
            return false;
        }
        i += 1;
    }
    true
}

} // verus!
