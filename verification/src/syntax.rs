//! The part of the syntax of a program that the inference of local types
//! reads: expressions, blocks and patterns, with the names that matter.

use vstd::prelude::*;

verus! {

/// A path such as `Choice::Left`, which has at least one segment.
#[derive(Debug)]
pub struct Path {
    /// The name of the first segment.
    pub first: String,
    /// The name of the last segment.
    pub last: String,
    /// The whole path, where it is one plain name.
    pub ident: Option<String>,
}

/// A type, of which only a path is read.
#[derive(Debug)]
pub enum Type {
    Path(Path),
    Other,
}

/// A generic argument, of which only a type is read.
#[derive(Debug)]
pub enum GenericArgument {
    Type(Type),
    Other,
}

/// A pattern, of which only the path of a variant is read.
#[derive(Debug)]
pub enum Pat {
    TupleStruct(Path),
    Path(Path),
    Other,
}

/// One arm of a match.
#[derive(Debug)]
pub struct Arm {
    pub pat: Pat,
    pub body: Expr,
}

/// A statement of a block.
#[derive(Debug)]
pub enum Stmt {
    /// An expression, with or without a semicolon behind it.
    Expr(Expr),
    /// A binding, an item or a macro call.
    Other,
}

/// A block of statements.
#[derive(Debug)]
pub struct Block {
    pub stmts: Vec<Stmt>,
}

/// An expression.
#[derive(Debug)]
pub enum Expr {
    Call { func: Box<Expr>, args: Vec<Expr> },
    MethodCall {
        receiver: Box<Expr>,
        method: String,
        /// The generic arguments behind the method's name, if there are
        /// any.
        turbofish: Option<Vec<GenericArgument>>,
        args: Vec<Expr>,
    },
    While { cond: Box<Expr>, body: Block },
    ForLoop { expr: Box<Expr>, body: Block },
    Match { expr: Box<Expr>, arms: Vec<Arm> },
    If { cond: Box<Expr>, then_branch: Block, else_branch: Option<Box<Expr>> },
    Break,
    Loop { body: Block },
    Let { expr: Box<Expr> },
    Assign { right: Box<Expr> },
    Struct { path: Path, fields: Vec<Expr> },
    Binary { left: Box<Expr>, right: Box<Expr> },
    Unary { expr: Box<Expr> },
    Range { start: Option<Box<Expr>>, end: Option<Box<Expr>> },
    Lit,
    Path(Path),
    Block(Block),
    Group(Box<Expr>),
    Paren(Box<Expr>),
    /// Any other expression: its source text, where that is at hand, and
    /// its tokens.
    Other { source: Option<String>, tokens: String },
}

/// A parameter of a function.
#[derive(Debug)]
pub enum FnArg {
    /// `self` in one of its forms.
    Receiver,
    /// A parameter with a type: its name, where its pattern is a plain
    /// name, and its type.
    Typed { name: Option<String>, ty: Type },
}

/// The mathematical value of a path.
pub ghost struct PathSpec {
    pub first: Seq<char>,
    pub last: Seq<char>,
    pub ident: Option<Seq<char>>,
}

/// The mathematical value of a type.
pub ghost enum TypeSpec {
    Path(PathSpec),
    Other,
}

/// The mathematical value of a generic argument.
pub ghost enum GenericArgumentSpec {
    Type(TypeSpec),
    Other,
}

/// The mathematical value of a pattern.
pub ghost enum PatSpec {
    TupleStruct(PathSpec),
    Path(PathSpec),
    Other,
}

/// The mathematical value of an arm of a match.
pub ghost struct ArmSpec {
    pub pat: PatSpec,
    pub body: ExprSpec,
}

/// The mathematical value of a statement.
pub ghost enum StmtSpec {
    Expr(ExprSpec),
    Other,
}

/// The mathematical value of a block.
pub ghost struct BlockSpec {
    pub stmts: Seq<StmtSpec>,
}

/// The mathematical value of an expression.
pub ghost enum ExprSpec {
    Call { func: Box<ExprSpec>, args: Seq<ExprSpec> },
    MethodCall {
        receiver: Box<ExprSpec>,
        method: Seq<char>,
        turbofish: Option<Seq<GenericArgumentSpec>>,
        args: Seq<ExprSpec>,
    },
    While { cond: Box<ExprSpec>, body: BlockSpec },
    ForLoop { expr: Box<ExprSpec>, body: BlockSpec },
    Match { expr: Box<ExprSpec>, arms: Seq<ArmSpec> },
    If { cond: Box<ExprSpec>, then_branch: BlockSpec, else_branch: Option<Box<ExprSpec>> },
    Break,
    Loop { body: BlockSpec },
    Let { expr: Box<ExprSpec> },
    Assign { right: Box<ExprSpec> },
    Struct { path: PathSpec, fields: Seq<ExprSpec> },
    Binary { left: Box<ExprSpec>, right: Box<ExprSpec> },
    Unary { expr: Box<ExprSpec> },
    Range { start: Option<Box<ExprSpec>>, end: Option<Box<ExprSpec>> },
    Lit,
    Path(PathSpec),
    Block(BlockSpec),
    Group(Box<ExprSpec>),
    Paren(Box<ExprSpec>),
    Other { source: Option<Seq<char>>, tokens: Seq<char> },
}

/// The mathematical value of a parameter of a function.
pub ghost enum FnArgSpec {
    Receiver,
    Typed { name: Option<Seq<char>>, ty: TypeSpec },
}

/// The mathematical value of an optional text.
pub open spec fn text_view(t: Option<String>) -> Option<Seq<char>> {
    match t {
        Some(s) => Some(s@),
        None => None,
    }
}

impl View for Path {
    type V = PathSpec;

    open spec fn view(&self) -> PathSpec {
        PathSpec { first: self.first@, last: self.last@, ident: text_view(self.ident) }
    }
}

impl View for Type {
    type V = TypeSpec;

    open spec fn view(&self) -> TypeSpec {
        match self {
            Type::Path(p) => TypeSpec::Path(p@),
            Type::Other => TypeSpec::Other,
        }
    }
}

impl View for GenericArgument {
    type V = GenericArgumentSpec;

    open spec fn view(&self) -> GenericArgumentSpec {
        match self {
            GenericArgument::Type(t) => GenericArgumentSpec::Type(t@),
            GenericArgument::Other => GenericArgumentSpec::Other,
        }
    }
}

impl View for Pat {
    type V = PatSpec;

    open spec fn view(&self) -> PatSpec {
        match self {
            Pat::TupleStruct(p) => PatSpec::TupleStruct(p@),
            Pat::Path(p) => PatSpec::Path(p@),
            Pat::Other => PatSpec::Other,
        }
    }
}

impl View for FnArg {
    type V = FnArgSpec;

    open spec fn view(&self) -> FnArgSpec {
        match self {
            FnArg::Receiver => FnArgSpec::Receiver,
            FnArg::Typed { name, ty } => FnArgSpec::Typed { name: text_view(*name), ty: ty@ },
        }
    }
}

/// The mathematical values of a list of generic arguments.
pub open spec fn generics_view(gs: Seq<GenericArgument>) -> Seq<GenericArgumentSpec> {
    Seq::new(gs.len(), |i: int| gs[i]@)
}

/// The mathematical values of the generic arguments of a method call.
pub open spec fn turbofish_view(t: Option<Vec<GenericArgument>>) -> Option<Seq<GenericArgumentSpec>> {
    match t {
        Some(gs) => Some(generics_view(gs@)),
        None => None,
    }
}

/// The mathematical value of an expression.
pub open spec fn expr_view(e: Expr) -> ExprSpec
    decreases e,
{
    match e {
        Expr::Call { func, args } => ExprSpec::Call {
            func: Box::new(expr_view(*func)),
            args: exprs_view(args@),
        },
        Expr::MethodCall { receiver, method, turbofish, args } => ExprSpec::MethodCall {
            receiver: Box::new(expr_view(*receiver)),
            method: method@,
            turbofish: turbofish_view(turbofish),
            args: exprs_view(args@),
        },
        Expr::While { cond, body } => ExprSpec::While {
            cond: Box::new(expr_view(*cond)),
            body: block_view(body),
        },
        Expr::ForLoop { expr, body } => ExprSpec::ForLoop {
            expr: Box::new(expr_view(*expr)),
            body: block_view(body),
        },
        Expr::Match { expr, arms } => ExprSpec::Match {
            expr: Box::new(expr_view(*expr)),
            arms: arms_view(arms@),
        },
        Expr::If { cond, then_branch, else_branch } => ExprSpec::If {
            cond: Box::new(expr_view(*cond)),
            then_branch: block_view(then_branch),
            else_branch: match else_branch {
                Some(other) => Some(Box::new(expr_view(*other))),
                None => None,
            },
        },
        Expr::Break => ExprSpec::Break,
        Expr::Loop { body } => ExprSpec::Loop { body: block_view(body) },
        Expr::Let { expr } => ExprSpec::Let { expr: Box::new(expr_view(*expr)) },
        Expr::Assign { right } => ExprSpec::Assign { right: Box::new(expr_view(*right)) },
        Expr::Struct { path, fields } => ExprSpec::Struct { path: path@, fields: exprs_view(fields@) },
        Expr::Binary { left, right } => ExprSpec::Binary {
            left: Box::new(expr_view(*left)),
            right: Box::new(expr_view(*right)),
        },
        Expr::Unary { expr } => ExprSpec::Unary { expr: Box::new(expr_view(*expr)) },
        Expr::Range { start, end } => ExprSpec::Range {
            start: match start {
                Some(from) => Some(Box::new(expr_view(*from))),
                None => None,
            },
            end: match end {
                Some(to) => Some(Box::new(expr_view(*to))),
                None => None,
            },
        },
        Expr::Lit => ExprSpec::Lit,
        Expr::Path(p) => ExprSpec::Path(p@),
        Expr::Block(b) => ExprSpec::Block(block_view(b)),
        Expr::Group(inner) => ExprSpec::Group(Box::new(expr_view(*inner))),
        Expr::Paren(inner) => ExprSpec::Paren(Box::new(expr_view(*inner))),
        Expr::Other { source, tokens } => ExprSpec::Other { source: text_view(source), tokens: tokens@ },
    }
}

/// The mathematical values of a list of expressions.
pub open spec fn exprs_view(es: Seq<Expr>) -> Seq<ExprSpec>
    decreases es,
{
    Seq::new(
        es.len(),
        |i: int|
            if 0 <= i < es.len() {
                expr_view(es[i])
            } else {
                ExprSpec::Lit
            },
    )
}

/// The mathematical values of the arms of a match.
pub open spec fn arms_view(arms: Seq<Arm>) -> Seq<ArmSpec>
    decreases arms,
{
    Seq::new(
        arms.len(),
        |i: int|
            if 0 <= i < arms.len() {
                ArmSpec { pat: arms[i].pat@, body: expr_view(arms[i].body) }
            } else {
                ArmSpec { pat: PatSpec::Other, body: ExprSpec::Lit }
            },
    )
}

/// The mathematical value of a statement.
pub open spec fn stmt_view(s: Stmt) -> StmtSpec
    decreases s,
{
    match s {
        Stmt::Expr(e) => StmtSpec::Expr(expr_view(e)),
        Stmt::Other => StmtSpec::Other,
    }
}

/// The mathematical values of the statements of a block.
pub open spec fn stmts_view(stmts: Seq<Stmt>) -> Seq<StmtSpec>
    decreases stmts,
{
    Seq::new(
        stmts.len(),
        |i: int|
            if 0 <= i < stmts.len() {
                stmt_view(stmts[i])
            } else {
                StmtSpec::Other
            },
    )
}

/// The mathematical value of a block.
pub open spec fn block_view(b: Block) -> BlockSpec
    decreases b,
{
    BlockSpec { stmts: stmts_view(b.stmts@) }
}

impl View for Expr {
    type V = ExprSpec;

    open spec fn view(&self) -> ExprSpec {
        expr_view(*self)
    }
}

impl View for Arm {
    type V = ArmSpec;

    open spec fn view(&self) -> ArmSpec {
        ArmSpec { pat: self.pat@, body: self.body@ }
    }
}

impl View for Stmt {
    type V = StmtSpec;

    open spec fn view(&self) -> StmtSpec {
        stmt_view(*self)
    }
}

impl View for Block {
    type V = BlockSpec;

    open spec fn view(&self) -> BlockSpec {
        block_view(*self)
    }
}

/// The mathematical values of the parameters of a function.
pub open spec fn fn_args_view(args: Seq<FnArg>) -> Seq<FnArgSpec> {
    Seq::new(args.len(), |i: int| args[i]@)
}

} // verus!
