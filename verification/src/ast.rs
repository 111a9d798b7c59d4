//! The statement-level syntax tree.

use vstd::prelude::*;

verus! {

/// A name, as it was written in the source text.
#[derive(Debug, PartialEq)]
pub struct Identifier(pub String);

impl View for Identifier {
    type V = Seq<char>;

    open spec fn view(&self) -> Seq<char> {
        self.0@
    }
}

impl Clone for Identifier {
    fn clone(&self) -> (copy: Identifier)
        ensures
            copy@ == self@,
    {
        Identifier(self.0.clone())
    }
}

impl Identifier {
    pub fn new(value: String) -> (identifier: Identifier)
        ensures
            identifier.0 == value,
    {
        Identifier(value)
    }
}

/// An expression. Expressions are not parsed yet: the right-hand side of a
/// binding is recorded as `Empty`.
#[derive(Debug, PartialEq)]
pub enum Expr {
    Empty,
    Identifier(Identifier),
}

/// The mathematical value of an [`Expr`].
pub enum ExprView {
    Empty,
    Identifier(Seq<char>),
}

impl View for Expr {
    type V = ExprView;

    open spec fn view(&self) -> ExprView {
        match *self {
            Expr::Empty => ExprView::Empty,
            Expr::Identifier(name) => ExprView::Identifier(name@),
        }
    }
}

impl Clone for Expr {
    fn clone(&self) -> (copy: Expr)
        ensures
            copy@ == self@,
    {
        match self {
            Expr::Empty => Expr::Empty,
            Expr::Identifier(name) => Expr::Identifier(name.clone()),
        }
    }
}

/// A statement: nothing at all, or a variable binding.
#[derive(Debug, PartialEq)]
pub enum Stmt {
    Blank,
    Let(Identifier, Expr),
}

/// The mathematical value of a [`Stmt`].
pub enum StmtView {
    Blank,
    Let(Seq<char>, ExprView),
}

impl View for Stmt {
    type V = StmtView;

    open spec fn view(&self) -> StmtView {
        match *self {
            Stmt::Blank => StmtView::Blank,
            Stmt::Let(name, value) => StmtView::Let(name@, value@),
        }
    }
}

impl Clone for Stmt {
    fn clone(&self) -> (copy: Stmt)
        ensures
            copy@ == self@,
    {
        match self {
            Stmt::Blank => Stmt::Blank,
            Stmt::Let(name, value) => Stmt::Let(name.clone(), value.clone()),
        }
    }
}

pub type BlockStmt = Vec<Stmt>;

/// A program: its statements in source order.
#[derive(Debug, PartialEq)]
pub struct Program(pub BlockStmt);

impl View for Program {
    type V = Seq<StmtView>;

    open spec fn view(&self) -> Seq<StmtView> {
        Seq::new(self.0@.len(), |i: int| self.0@[i]@)
    }
}

impl Program {
    pub fn new() -> (program: Program)
        ensures
            program.0@.len() == 0,
            program@ == Seq::<StmtView>::empty(),
    {
        Program(Vec::new())
    }
}

impl Clone for Program {
    fn clone(&self) -> (copy: Program)
        ensures
            copy@ == self@,
    {
        let mut statements: Vec<Stmt> = Vec::new();
        let mut i: usize = 0;
        while i < self.0.len()
            invariant
                i <= self.0@.len(),
                statements@.len() == i,
                forall|j: int| 0 <= j < i ==> statements@[j]@ == self.0@[j]@,
            decreases self.0@.len() - i,
        {
            statements.push(self.0[i].clone());
            i += 1;
        }
        Program(statements)
    }
}

} // verus!
