//! The analysed program, as an upstream frontend delivers it: declarations,
//! bodies made of basic blocks, call statements and types, all resolved.
use vstd::prelude::*;

verus! {

/// A position in a source file.
#[derive(Clone, Copy, Debug, PartialEq, Eq, Structural)]
pub struct Loc {
    pub line: usize,
    pub col: usize,
}

/// A region of a source file, from `beg` to `end`.
#[derive(Clone, Copy, Debug, PartialEq, Eq, Structural)]
pub struct Span {
    pub file_id: usize,
    pub beg: Loc,
    pub end: Loc,
}

/// A source file of the program, by its kind of path.
#[derive(Clone, Debug)]
pub enum FileName {
    Local(String),
    Virtual(String),
}

/// A qualified name: its path elements, outermost first.
#[derive(Clone, Debug)]
pub struct Name {
    pub elems: Vec<String>,
}

impl View for Name {
    type V = Seq<Seq<char>>;

    open spec fn view(&self) -> Seq<Seq<char>> {
        self.elems@.map_values(|e: String| e@)
    }
}

/// Whether a reference or raw pointer is shared or unique.
#[derive(Clone, Copy, Debug, PartialEq, Eq, Structural)]
pub enum RefKind {
    Shared,
    Mut,
}

/// A type of the analysed program.
#[derive(Debug)]
pub enum Ty {
    /// A nominal type declared by the program, by its declaration id.
    Adt(usize),
    Tuple(Vec<Ty>),
    /// A builtin type constructor (box, array, slice, str).
    Builtin,
    TypeVar,
    Literal,
    Never,
    Ref(Box<Ty>, RefKind),
    RawPtr(Box<Ty>, RefKind),
    TraitType,
    DynTrait,
    Arrow,
}

/// How a trait obligation was discharged.
#[derive(Debug)]
pub enum TraitRefKind {
    /// By a concrete impl, with the generic arguments it was instantiated with.
    TraitImpl(usize, GenericArgs),
    /// By a where-clause or another not yet resolved source.
    Unresolved,
}

/// The generic arguments of an item: types and trait obligations.
#[derive(Debug)]
pub struct GenericArgs {
    pub types: Vec<Ty>,
    pub trait_refs: Vec<TraitRefKind>,
}

/// What a call statement calls.
#[derive(Debug)]
pub enum FnOperand {
    /// A function declared by the program, by its id.
    Regular(usize, GenericArgs),
    /// A trait method, with the trait reference, the method's name and its generics.
    TraitMethod(TraitRefKind, String, GenericArgs),
    /// A builtin function or a function pointer.
    Other,
}

/// An argument of a call.
#[derive(Clone, Copy, Debug, PartialEq, Eq, Structural)]
pub enum Operand {
    /// A place (local variable or projection of one), copied or moved.
    Place,
    /// A constant `usize` literal.
    UsizeConst(usize),
    /// Another constant.
    OtherConst,
}

#[derive(Debug)]
pub struct Call {
    pub func: FnOperand,
    pub args: Vec<Operand>,
}

#[derive(Debug)]
pub enum StatementKind {
    Call(Call),
    Other,
}

#[derive(Debug)]
pub struct Statement {
    pub span: Span,
    pub kind: StatementKind,
}

/// How control leaves a basic block.
#[derive(Clone, Debug)]
pub enum Terminator {
    Goto(usize),
    Switch(Vec<usize>),
    /// A call with its normal continuation and, if any, its cleanup one.
    Call(usize, Option<usize>),
    Return,
    Abort,
    /// A form that the analysis does not interpret.
    Unsupported,
}

#[derive(Debug)]
pub struct BasicBlock {
    pub statements: Vec<Statement>,
    pub terminator: Terminator,
}

/// A function body: its control-flow graph, block 0 first.
#[derive(Debug)]
pub struct Body {
    pub blocks: Vec<BasicBlock>,
}

#[derive(Clone, Debug)]
pub struct FunDecl {
    pub name: Name,
    pub span: Span,
    /// The index of its body in `Program::bodies`, if it has one.
    pub body: Option<usize>,
}

#[derive(Clone, Debug)]
pub struct TraitDecl {
    pub def_id: usize,
    pub name: Name,
}

#[derive(Debug)]
pub struct TraitImpl {
    pub def_id: usize,
    pub trait_id: usize,
    pub generics: GenericArgs,
}

/// The whole input program. A function's id is its index in `fun_decls`.
#[derive(Debug)]
pub struct Program {
    pub files: Vec<FileName>,
    pub fun_decls: Vec<FunDecl>,
    pub bodies: Vec<Body>,
    pub trait_decls: Vec<TraitDecl>,
    pub trait_impls: Vec<TraitImpl>,
}

/// The blocks that control may reach directly after `t`.
pub open spec fn terminator_targets(t: Terminator) -> Seq<usize> {
    match t {
        Terminator::Goto(b) => seq![b],
        Terminator::Switch(bs) => bs@,
        Terminator::Call(b, None) => seq![b],
        Terminator::Call(b, Some(c)) => seq![b, c],
        _ => Seq::empty(),
    }
}

/// An edge of a body's control-flow graph: `v` is a successor of block `u`,
/// and both are blocks of the body.
pub open spec fn body_edge(body: Body, u: int, v: int) -> bool {
    &&& 0 <= u < body.blocks@.len()
    &&& 0 <= v < body.blocks@.len()
    &&& terminator_targets(body.blocks@[u].terminator).contains(v as usize)
}

/// The successors of a terminator.
pub fn successors(t: &Terminator) -> (r: Vec<usize>)
    ensures
        r@ == terminator_targets(*t),
{
    match t {
        Terminator::Goto(b) => vec![*b],
        Terminator::Switch(bs) => bs.clone(),
        Terminator::Call(b, None) => vec![*b],
        Terminator::Call(b, Some(c)) => vec![*b, *c],
        _ => Vec::new(),
    }
}

} // verus!
