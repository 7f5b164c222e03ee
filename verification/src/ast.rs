//! The abstract syntax tree the parser builds, and the ghost models the
//! parser's contracts speak of.
//!
//! Every node owns its children: the tree has no shared or cyclic ownership,
//! and nothing is mutated after construction.  Each executable type has a
//! ghost model in which text is a sequence of characters, so that the spec
//! parser can construct and compare values.

use vstd::prelude::*;
use crate::numeral::Numeral;

verus! {

broadcast use vstd::std_specs::vec::axiom_vec_index_decreases, vstd::seq::axiom_seq_index_decreases;

/// The ghost model of an expression node.
pub enum Expr {
    Number(Numeral),
    Variable(Seq<char>),
    BinaryOperation(char, Box<Expr>, Box<Expr>),
    FunctionCall(Seq<char>, Seq<Expr>),
    IfElse(Box<Expr>, Box<Expr>, Box<Expr>),
    ForLoop(Box<Expr>, Box<Expr>, Option<Box<Expr>>, Box<Expr>),
}

/// One expression of the language.
pub enum ExprNode {
    /// A numeric literal, exact.
    Number(Numeral),
    /// A reference to a parameter or an outer binding, by name.
    Variable(String),
    /// An application of a binary operator to two subexpressions.
    BinaryOperation(char, Box<ExprNode>, Box<ExprNode>),
    /// A call of a named function on an ordered list of arguments.
    FunctionCall(String, Vec<ExprNode>),
    /// A conditional expression; both branches are mandatory.
    IfElse(Box<ExprNode>, Box<ExprNode>, Box<ExprNode>),
    /// A bounded loop: start, end, optional step (an implicit one when
    /// absent), and body.
    ForLoop(Box<ExprNode>, Box<ExprNode>, Option<Box<ExprNode>>, Box<ExprNode>),
}

/// The model of an expression node: the same tree, with text as character
/// sequences.
pub open spec fn expr_model(e: ExprNode) -> Expr
    decreases e,
{
    match e {
        ExprNode::Number(n) => Expr::Number(n),
        ExprNode::Variable(name) => Expr::Variable(name@),
        ExprNode::BinaryOperation(op, l, r) => Expr::BinaryOperation(
            op,
            Box::new(expr_model(*l)),
            Box::new(expr_model(*r)),
        ),
        ExprNode::FunctionCall(callee, args) => Expr::FunctionCall(
            callee@,
            Seq::new(
                args@.len(),
                |i: int|
                    if 0 <= i < args@.len() {
                        expr_model(args@[i])
                    } else {
                        Expr::Number(Numeral { mantissa: 0, scale: 0 })
                    },
            ),
        ),
        ExprNode::IfElse(c, t, e2) => Expr::IfElse(
            Box::new(expr_model(*c)),
            Box::new(expr_model(*t)),
            Box::new(expr_model(*e2)),
        ),
        ExprNode::ForLoop(start, end, step, body) => Expr::ForLoop(
            Box::new(expr_model(*start)),
            Box::new(expr_model(*end)),
            match step {
                Some(e2) => Some(Box::new(expr_model(*e2))),
                None => None,
            },
            Box::new(expr_model(*body)),
        ),
    }
}

impl View for ExprNode {
    type V = Expr;

    open spec fn view(&self) -> Expr {
        expr_model(*self)
    }
}

/// Every numeral in the expression is well formed (in lowest decimal terms).
pub open spec fn expr_wf(e: Expr) -> bool
    decreases e,
{
    match e {
        Expr::Number(n) => n.wf(),
        Expr::Variable(_) => true,
        Expr::BinaryOperation(_, l, r) => expr_wf(*l) && expr_wf(*r),
        Expr::FunctionCall(_, args) => forall|i: int|
            0 <= i < args.len() ==> expr_wf(#[trigger] args[i]),
        Expr::IfElse(c, t, e2) => expr_wf(*c) && expr_wf(*t) && expr_wf(*e2),
        Expr::ForLoop(start, end, step, body) => expr_wf(*start) && expr_wf(*end) && (match step {
            Some(x) => expr_wf(*x),
            None => true,
        }) && expr_wf(*body),
    }
}

/// The ghost model of a prototype.
pub struct ProtoModel {
    pub name: Seq<char>,
    pub args: Seq<Seq<char>>,
}

/// A function's name and ordered parameter names, shared by definitions and
/// external declarations.
///
/// Duplicate parameter names are not rejected here: checking them belongs to
/// a later binding-resolution pass, outside this front end.
pub struct Prototype {
    pub name: String,
    pub args: Vec<String>,
}

impl View for Prototype {
    type V = ProtoModel;

    open spec fn view(&self) -> ProtoModel {
        ProtoModel {
            name: self.name@,
            args: Seq::new(
                self.args@.len(),
                |i: int|
                    if 0 <= i < self.args@.len() {
                        self.args@[i]@
                    } else {
                        Seq::empty()
                    },
            ),
        }
    }
}

/// The ghost model of a function.
pub struct FuncModel {
    pub proto: ProtoModel,
    pub body: Expr,
}

/// A defined function: one prototype and one body expression.
pub struct Function {
    pub proto: Prototype,
    pub body: ExprNode,
}

impl View for Function {
    type V = FuncModel;

    open spec fn view(&self) -> FuncModel {
        FuncModel { proto: self.proto@, body: self.body@ }
    }
}

/// The ghost model of a top-level construct.
pub enum TopModel {
    Definition(FuncModel),
    Declaration(ProtoModel),
}

/// One top-level construct of a program.
pub enum TopLevel {
    /// A `def`: a full function, or a bare expression wrapped into the
    /// anonymous zero-argument function.
    Definition(Function),
    /// An external declaration: a bare prototype with no body.
    Declaration(Prototype),
}

impl View for TopLevel {
    type V = TopModel;

    open spec fn view(&self) -> TopModel {
        match self {
            TopLevel::Definition(f) => TopModel::Definition(f@),
            TopLevel::Declaration(p) => TopModel::Declaration(p@),
        }
    }
}

/// The models of the expressions in a sequence, in order.
pub open spec fn expr_views(v: Seq<ExprNode>) -> Seq<Expr> {
    Seq::new(v.len(), |i: int| v[i]@)
}

/// The models of the strings in a sequence, in order.
pub open spec fn name_views(v: Seq<String>) -> Seq<Seq<char>> {
    Seq::new(v.len(), |i: int| v[i]@)
}

/// The models of the top-level constructs in a sequence, in order.
pub open spec fn top_views(v: Seq<TopLevel>) -> Seq<TopModel> {
    Seq::new(v.len(), |i: int| v[i]@)
}

/// The models of the diagnostics in a sequence, in order.
pub open spec fn diag_views(v: Seq<Diagnostic>) -> Seq<DiagModel> {
    Seq::new(v.len(), |i: int| v[i]@)
}

/// The ghost model of a diagnostic.
pub struct DiagModel {
    pub message: Seq<char>,
    pub line: int,
    pub fatal: bool,
}

/// One diagnostic record: a human-readable message and the 1-based source
/// line it concerns.  A fatal diagnostic (a lexical error) ends the whole
/// run; a syntax error only ends its construct.
pub struct Diagnostic {
    pub message: String,
    pub line: usize,
    pub fatal: bool,
}

impl View for Diagnostic {
    type V = DiagModel;

    open spec fn view(&self) -> DiagModel {
        DiagModel { message: self.message@, line: self.line as int, fatal: self.fatal }
    }
}

} // verus!
