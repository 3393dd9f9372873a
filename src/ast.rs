//! The syntax tree of one calculator statement.
use vstd::prelude::*;

verus! {

/// A leaf value: a number as written, a parameter of the enclosing function
/// (by position), or a global variable (by key).
#[derive(Debug)]
pub enum Valuable {
    Value(String),
    Arg(usize),
    Var(usize),
}

#[derive(Debug, Clone, Copy, PartialEq, Eq, Structural)]
pub enum UnaryOp {
    Minus,
    Ftl,
}

#[derive(Debug, Clone, Copy, PartialEq, Eq, Structural)]
pub enum BinaryOp {
    Plus,
    Sub,
    Mult,
    Div,
    Square,
}

/// An expression. Each node owns its children.
#[derive(Debug)]
#[allow(inconsistent_fields)]
pub enum Expr {
    Literal { value: Valuable },
    Group { body: Box<Expr> },
    Unary { op: UnaryOp, operand: Box<Expr> },
    Binary { left: Box<Expr>, op: BinaryOp, right: Box<Expr> },
    Call { idx: usize, args: Args },
}

/// The argument list of a call, first argument first.
#[derive(Debug)]
pub enum Args {
    Nil,
    Cons { head: Box<Expr>, tail: Box<Args> },
}

/// A special command: `%plot2d(f, start, end, step)`.
#[derive(Debug)]
pub enum MagicKind {
    Plot(usize, Box<Expr>, Box<Expr>, Box<Expr>),
}

/// One statement: a function definition, an assignment, an expression, or a command.
#[derive(Debug)]
pub enum Stmt {
    Fun { idx: usize, body: Box<Expr> },
    Assign { idx: usize, expr: Box<Expr> },
    Expr { expr: Box<Expr> },
    Magic { kind: MagicKind },
}

impl Args {
    /// The arguments as a sequence.
    pub open spec fn to_seq(&self) -> Seq<Expr>
        decreases self,
    {
        match self {
            Args::Nil => seq![],
            Args::Cons { head, tail } => seq![**head] + tail.to_seq(),
        }
    }

}

} // verus!
