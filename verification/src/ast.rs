//! A syntax tree for the parts of Python that the deprecation checks read.
use vstd::prelude::*;

use crate::position::Span;

verus! {

/// A binary (or augmented-assignment) operator.
#[derive(Clone, Copy, PartialEq, Eq, Structural, Debug)]
pub enum Operator {
    Add,
    Sub,
    Mult,
    Div,
    Mod,
    Pow,
    LShift,
    RShift,
    BitOr,
    BitXor,
    BitAnd,
    FloorDiv,
    MatMult,
}

/// An expression. Forms the checks do not look into are `Other`.
pub enum Expr {
    Name { id: Vec<char>, span: Span },
    /// A call with its positional arguments.
    Call { func: Box<Expr>, args: Vec<Expr>, span: Span },
    Attribute { value: Box<Expr>, attr: Vec<char>, span: Span },
    BinOp { left: Box<Expr>, op: Operator, right: Box<Expr>, span: Span },
    Tuple { elts: Vec<Expr> },
    List { elts: Vec<Expr> },
    /// A string literal, its implicit concatenations joined.
    StringLiteral { text: Vec<char> },
    Other,
}

/// `name` or `name as asname` in an import.
pub struct ImportAlias {
    pub name: Vec<char>,
    pub asname: Option<Vec<char>>,
}

/// How a parameter may be passed.
#[derive(Clone, Copy, PartialEq, Eq, Structural, Debug)]
pub enum ParamKind {
    PositionalOnly,
    Regular,
    KeywordOnly,
}

/// A parameter and the text of its annotation. A function lists its
/// positional-only parameters, then the regular ones, then the keyword-only
/// ones.
pub struct Parameter {
    pub name: Vec<char>,
    pub kind: ParamKind,
    pub annotation: Option<Vec<char>>,
}

/// A statement. Forms the checks do not look into are `Other`.
pub enum Stmt {
    Expr { value: Expr },
    Assign { targets: Vec<Expr>, value: Expr },
    AugAssign { target: Expr, op: Operator, value: Expr, span: Span },
    /// `target: annotation = assigned`, with the annotation's text and the
    /// statement's span.
    AnnAssign { target: Expr, annotation: Vec<char>, assigned: Option<Expr>, span: Span },
    Return { returned: Option<Expr> },
    FunctionDef {
        name: Vec<char>,
        decorators: Vec<Expr>,
        params: Vec<Parameter>,
        body: Vec<Stmt>,
        span: Span,
    },
    ClassDef { name: Vec<char>, decorators: Vec<Expr>, body: Vec<Stmt>, span: Span },
    /// An `if`, with the bodies of its `elif` and `else` clauses in order.
    If { test: Expr, body: Vec<Stmt>, clauses: Vec<Vec<Stmt>> },
    For { iter: Expr, body: Vec<Stmt> },
    While { test: Expr, body: Vec<Stmt> },
    /// `from module import names`; `module` is `None` for `from . import ...`.
    ImportFrom { module: Option<Vec<char>>, names: Vec<ImportAlias>, span: Span },
    Import { names: Vec<ImportAlias> },
    Other,
}

} // verus!
