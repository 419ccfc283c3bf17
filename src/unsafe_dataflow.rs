//! Unsafe dataflow analysis: per function, marks the blocks that call a
//! lifetime-bypass function as taint sources and the blocks whose calls reach
//! code that cannot be resolved as sinks, then reports the bypass categories
//! whose taint can flow to a sink.
use vstd::prelude::*;

use crate::context::{spec_is_copyable, CtxOwner};
use crate::flags::{bit_set, flag_report_level, BehaviorFlag, VEC_SET_LEN};
use crate::graph::{lemma_propagated_by_edges, GraphTaint, TaintAnalyzer, TaintGraph};
use crate::paths::{
    first_match, join_path, spec_matches, strong_bypass_flag, strong_flag_bits, weak_bypass_flag,
    weak_flag_bits, Catalog, PathSet,
};
use crate::report::{with_sub_spans, Color, ColorEvent, ColorSpan, Report, ReportLevel};
use crate::program::{
    body_edge, terminator_targets, BasicBlock, Body, FnOperand, FunDecl, GenericArgs, Name,
    Operand, Program, Span, Statement, StatementKind, TraitRefKind,
};

verus! {

/// Why a step of the analysis could not be carried out.
#[derive(Clone, Copy, Debug, PartialEq, Eq, Structural)]
pub enum UnsafeDataflowError {
    PushPopBlock,
    ResolveError,
    InvalidSpan,
}

/// How an analysis error is to be read.
#[derive(Clone, Copy, Debug, PartialEq, Eq, Structural)]
pub enum AnalysisErrorKind {
    /// The analysis reached a state that it should never reach.
    Unreachable,
    /// The input holds something that the analysis does not cover.
    OutOfScope,
}

impl UnsafeDataflowError {
    pub fn kind(&self) -> (r: AnalysisErrorKind)
        ensures
            r == (match *self {
                UnsafeDataflowError::ResolveError => AnalysisErrorKind::OutOfScope,
                _ => AnalysisErrorKind::Unreachable,
            }),
    {
        match self {
            UnsafeDataflowError::PushPopBlock => AnalysisErrorKind::Unreachable,
            UnsafeDataflowError::ResolveError => AnalysisErrorKind::OutOfScope,
            UnsafeDataflowError::InvalidSpan => AnalysisErrorKind::Unreachable,
        }
    }
}

/// What one statement contributes to the taint graph of its block.
#[derive(Clone, Copy, Debug, PartialEq, Eq, Structural)]
pub enum CallClass {
    /// A source, of the flag bits given, from a bypass that fabricates or
    /// duplicates an owned value.
    StrongBypass(u16),
    /// A source, of the flag bits given, from a bypass that reinterprets or
    /// reborrows memory.
    WeakBypass(u16),
    /// A call into code that cannot be resolved.
    Sink,
    Nothing,
}

/// The three kinds of sub-span of a report.
#[derive(Clone, Copy, Debug, PartialEq, Eq, Structural)]
pub enum SpanKind {
    StrongBypass,
    WeakBypass,
    UnresolvedCall,
}

/// Some trait obligation of `g` is not discharged by a concrete impl.
pub open spec fn generics_unresolved(g: GenericArgs) -> bool {
    exists|k: int| 0 <= k < g.trait_refs@.len() && #[trigger] g.trait_refs@[k] is Unresolved
}

/// The first generic type argument of `g` exists and is copyable.
pub open spec fn first_type_copyable(copyable: Set<usize>, g: GenericArgs) -> bool {
    g.types@.len() > 0 && spec_is_copyable(copyable, g.types@[0])
}

/// Some argument is the literal `0usize`.
pub open spec fn has_zero_literal(args: Seq<Operand>) -> bool {
    exists|k: int| 0 <= k < args.len() && args[k] == Operand::UsizeConst(0)
}

/// The class of a call of the declared function `id`.
pub open spec fn spec_classify_direct(
    program: Program,
    copyable: Set<usize>,
    cat: Catalog,
    id: usize,
    g: GenericArgs,
    args: Seq<Operand>,
) -> CallClass {
    if id >= program.fun_decls@.len() {
        CallClass::Nothing
    } else {
        let name = program.fun_decls@[id as int].name@;
        match first_match(cat.strong(), name) {
            Some(i) => if (first_match(cat.ptr_read(), name) is Some && first_type_copyable(
                copyable,
                g,
            )) || (spec_matches(cat.vec_set_len(), name) && has_zero_literal(args)) {
                CallClass::Nothing
            } else {
                CallClass::StrongBypass(strong_flag_bits(i))
            },
            None => match first_match(cat.weak(), name) {
                Some(i) => if first_match(cat.ptr_write(), name) is Some && first_type_copyable(
                    copyable,
                    g,
                ) {
                    CallClass::Nothing
                } else {
                    CallClass::WeakBypass(weak_flag_bits(i))
                },
                None => if first_match(cat.generic_fns(), name) is Some || generics_unresolved(g) {
                    CallClass::Sink
                } else {
                    CallClass::Nothing
                },
            },
        }
    }
}

/// The class of a statement.
pub open spec fn spec_classify(
    program: Program,
    copyable: Set<usize>,
    cat: Catalog,
    st: Statement,
) -> CallClass {
    match st.kind {
        StatementKind::Call(call) => match call.func {
            FnOperand::Regular(id, g) => spec_classify_direct(
                program,
                copyable,
                cat,
                id,
                g,
                call.args@,
            ),
            FnOperand::TraitMethod(tref, _, g) => {
                let impl_unresolved = match tref {
                    TraitRefKind::TraitImpl(_, ig) => generics_unresolved(ig),
                    TraitRefKind::Unresolved => true,
                };
                if impl_unresolved || generics_unresolved(g) {
                    CallClass::Sink
                } else {
                    CallClass::Nothing
                }
            },
            FnOperand::Other => CallClass::Nothing,
        },
        StatementKind::Other => CallClass::Nothing,
    }
}

pub open spec fn class_atoms(c: CallClass) -> Set<nat> {
    match c {
        CallClass::StrongBypass(b) => bit_set(b),
        CallClass::WeakBypass(b) => bit_set(b),
        _ => Set::empty(),
    }
}

pub open spec fn class_has_kind(c: CallClass, kind: SpanKind) -> bool {
    match kind {
        SpanKind::StrongBypass => c is StrongBypass,
        SpanKind::WeakBypass => c is WeakBypass,
        SpanKind::UnresolvedCall => c is Sink,
    }
}

/// The source atoms of a block's statements.
pub open spec fn stmts_sources(
    program: Program,
    copyable: Set<usize>,
    cat: Catalog,
    stmts: Seq<Statement>,
) -> Set<nat>
    decreases stmts.len(),
{
    if stmts.len() == 0 {
        Set::empty()
    } else {
        stmts_sources(program, copyable, cat, stmts.drop_last()).union(
            class_atoms(spec_classify(program, copyable, cat, stmts.last())),
        )
    }
}

/// Some statement of a block is a sink.
pub open spec fn stmts_sink(
    program: Program,
    copyable: Set<usize>,
    cat: Catalog,
    stmts: Seq<Statement>,
) -> bool {
    exists|k: int|
        0 <= k < stmts.len() && spec_classify(program, copyable, cat, #[trigger] stmts[k]) is Sink
}

/// The spans of the statements of one kind, in order.
pub open spec fn stmts_spans(
    program: Program,
    copyable: Set<usize>,
    cat: Catalog,
    stmts: Seq<Statement>,
    kind: SpanKind,
) -> Seq<Span>
    decreases stmts.len(),
{
    if stmts.len() == 0 {
        Seq::empty()
    } else {
        let prev = stmts_spans(program, copyable, cat, stmts.drop_last(), kind);
        if class_has_kind(spec_classify(program, copyable, cat, stmts.last()), kind) {
            prev.push(stmts.last().span)
        } else {
            prev
        }
    }
}

/// The spans of the statements of one kind over blocks, in block order.
pub open spec fn blocks_spans(
    program: Program,
    copyable: Set<usize>,
    cat: Catalog,
    blocks: Seq<BasicBlock>,
    kind: SpanKind,
) -> Seq<Span>
    decreases blocks.len(),
{
    if blocks.len() == 0 {
        Seq::empty()
    } else {
        blocks_spans(program, copyable, cat, blocks.drop_last(), kind) + stmts_spans(
            program,
            copyable,
            cat,
            blocks.last().statements@,
            kind,
        )
    }
}

/// The taint graph of a body: its control-flow edges, each block a source of
/// the atoms of its bypass calls and a sink when it holds an unresolved call.
pub open spec fn body_taint_graph(
    program: Program,
    copyable: Set<usize>,
    cat: Catalog,
    body: Body,
) -> TaintGraph {
    TaintGraph {
        edges: body.blocks@.map_values(|b: BasicBlock| terminator_targets(b.terminator)),
        sources: body.blocks@.map_values(
            |b: BasicBlock| stmts_sources(program, copyable, cat, b.statements@),
        ),
        sinks: body.blocks@.map_values(
            |b: BasicBlock| stmts_sink(program, copyable, cat, b.statements@),
        ),
    }
}

/// The outcome of analysing one function body.
#[derive(Debug)]
pub struct UnsafeDataflowStatus {
    strong_bypasses: Vec<Span>,
    weak_bypasses: Vec<Span>,
    unresolvable_generic_functions: Vec<Span>,
    behavior_flag: BehaviorFlag,
}

impl UnsafeDataflowStatus {
    pub closed spec fn spec_flag(&self) -> Set<nat> {
        self.behavior_flag@
    }

    pub closed spec fn spans(&self, kind: SpanKind) -> Seq<Span> {
        match kind {
            SpanKind::StrongBypass => self.strong_bypasses@,
            SpanKind::WeakBypass => self.weak_bypasses@,
            SpanKind::UnresolvedCall => self.unresolvable_generic_functions@,
        }
    }

    /// The bypass categories whose taint reaches a sink.
    pub fn behavior_flag(&self) -> (r: BehaviorFlag)
        ensures
            r@ == self.spec_flag(),
    {
        self.behavior_flag
    }

    pub fn strong_bypass_spans(&self) -> (r: &Vec<Span>)
        ensures
            r@ == self.spans(SpanKind::StrongBypass),
    {
        &self.strong_bypasses
    }

    pub fn weak_bypass_spans(&self) -> (r: &Vec<Span>)
        ensures
            r@ == self.spans(SpanKind::WeakBypass),
    {
        &self.weak_bypasses
    }

    pub fn unresolvable_generic_function_spans(&self) -> (r: &Vec<Span>)
        ensures
            r@ == self.spans(SpanKind::UnresolvedCall),
    {
        &self.unresolvable_generic_functions
    }
}

/// Whether some trait obligation of `generics` is not discharged by a
/// concrete impl.
fn generics_have_unresolved(generics: &GenericArgs) -> (r: bool)
    ensures
        r == generics_unresolved(*generics),
{
    let mut k: usize = 0;
    while k < generics.trait_refs.len()
        invariant
            k <= generics.trait_refs@.len(),
            forall|j: int| 0 <= j < k ==> !(#[trigger] generics.trait_refs@[j] is Unresolved),
        decreases generics.trait_refs@.len() - k,
    {
        match &generics.trait_refs[k] {
            TraitRefKind::Unresolved => {
                return true;
            },
            TraitRefKind::TraitImpl(_, _) => {},
        }
        k = k + 1;
    }
    false
}

/// Whether some argument is the literal `0usize` (`vec.set_len(0)` leaks,
/// which is safe).
fn vec_set_len_to_0(args: &Vec<Operand>) -> (r: bool)
    ensures
        r == has_zero_literal(args@),
{
    let mut k: usize = 0;
    while k < args.len()
        invariant
            k <= args@.len(),
            forall|j: int| 0 <= j < k ==> args@[j] != Operand::UsizeConst(0),
        decreases args@.len() - k,
    {
        if let Operand::UsizeConst(x) = args[k] {
            if x == 0 {
                return true;
            }
        }
        k = k + 1;
    }
    false
}

/// Analyses one function body against the catalog.
pub struct UnsafeDataflowBodyAnalyzer<'a> {
    rcx: &'a CtxOwner,
    catalog: &'a Catalog,
    body: &'a Body,
}

impl<'a> UnsafeDataflowBodyAnalyzer<'a> {
    fn new(rcx: &'a CtxOwner, catalog: &'a Catalog, body: &'a Body) -> (r: Self)
        ensures
            r.rcx == rcx,
            r.catalog == catalog,
            r.body == body,
    {
        UnsafeDataflowBodyAnalyzer { rcx, catalog, body }
    }

    /// The analysis of `decl`'s body: none when it has no body, or when it is
    /// a paths-discovery function, whose calls are listed instead.
    pub fn analyze_body(rcx: &'a CtxOwner, catalog: &'a Catalog, decl: &FunDecl) -> (r: Option<
        UnsafeDataflowStatus,
    >)
        ensures
            match spec_body_of(rcx.crate_data, *catalog, *decl) {
                Some(b) => r matches Some(s) && status_of(rcx, catalog, b, s),
                None => r is None,
            },
    {
        let body_id = match decl.body {
            Some(id) => id,
            None => {
                return None;
            },
        };
        if body_id >= rcx.crate_data.bodies.len() {
            return None;
        }
        let body = &rcx.crate_data.bodies[body_id];
        let discovery = catalog.paths_discovery_set();
        if discovery.find(&decl.name).is_some() {
            return None;
        }
        let analyzer = UnsafeDataflowBodyAnalyzer::new(rcx, catalog, body);
        Some(analyzer.analyze())
    }

    /// Classifies each call, marks sources and sinks block by block, then
    /// propagates once.
    fn analyze(self) -> (r: UnsafeDataflowStatus)
        ensures
            status_of(self.rcx, self.catalog, *self.body, r),
    {
        let ghost program = self.rcx.crate_data;
        let ghost copyable = self.rcx.copyable@;
        let ghost cat = *self.catalog;
        let ghost blocks = self.body.blocks@;
        let mut taint: TaintAnalyzer<BehaviorFlag> = TaintAnalyzer::new(self.body);
        let mut strong: Vec<Span> = Vec::new();
        let mut weak: Vec<Span> = Vec::new();
        let mut unresolved: Vec<Span> = Vec::new();
        let n = self.body.blocks.len();
        let mut b: usize = 0;
        while b < n
            invariant
                program == self.rcx.crate_data,
                copyable == self.rcx.copyable@,
                cat == *self.catalog,
                blocks == self.body.blocks@,
                n == blocks.len(),
                b <= n,
                taint.wf(),
                taint@.len() == n,
                forall|u: int, v: int| taint@.edge(u, v) <==> body_edge(*self.body, u, v),
                forall|u: int|
                    0 <= u < b ==> #[trigger] taint@.sources[u] == stmts_sources(
                        program,
                        copyable,
                        cat,
                        blocks[u].statements@,
                    ),
                forall|u: int| b <= u < n ==> #[trigger] taint@.sources[u] == Set::<nat>::empty(),
                forall|u: int|
                    0 <= u < b ==> #[trigger] taint@.sinks[u] == stmts_sink(
                        program,
                        copyable,
                        cat,
                        blocks[u].statements@,
                    ),
                forall|u: int| b <= u < n ==> !#[trigger] taint@.sinks[u],
                strong@ == blocks_spans(
                    program,
                    copyable,
                    cat,
                    blocks.subrange(0, b as int),
                    SpanKind::StrongBypass,
                ),
                weak@ == blocks_spans(
                    program,
                    copyable,
                    cat,
                    blocks.subrange(0, b as int),
                    SpanKind::WeakBypass,
                ),
                unresolved@ == blocks_spans(
                    program,
                    copyable,
                    cat,
                    blocks.subrange(0, b as int),
                    SpanKind::UnresolvedCall,
                ),
            decreases n - b,
        {
            let block = &self.body.blocks[b];
            let ghost stmts = block.statements@;
            let ghost strong0 = strong@;
            let ghost weak0 = weak@;
            let ghost unresolved0 = unresolved@;
            proof {
                assert(stmts.subrange(0, 0) =~= Seq::<Statement>::empty());
                assert(strong@ == strong0 + stmts_spans(
                    program,
                    copyable,
                    cat,
                    stmts.subrange(0, 0),
                    SpanKind::StrongBypass,
                ));
                assert(weak@ == weak0 + stmts_spans(
                    program,
                    copyable,
                    cat,
                    stmts.subrange(0, 0),
                    SpanKind::WeakBypass,
                ));
                assert(unresolved@ == unresolved0 + stmts_spans(
                    program,
                    copyable,
                    cat,
                    stmts.subrange(0, 0),
                    SpanKind::UnresolvedCall,
                ));
                assert(stmts_sources(program, copyable, cat, stmts.subrange(0, 0))
                    == Set::<nat>::empty());
            }
            let mut j: usize = 0;
            while j < block.statements.len()
                invariant
                    program == self.rcx.crate_data,
                    copyable == self.rcx.copyable@,
                    cat == *self.catalog,
                    blocks == self.body.blocks@,
                    n == blocks.len(),
                    b < n,
                    *block == blocks[b as int],
                    stmts == block.statements@,
                    j <= stmts.len(),
                    taint.wf(),
                    taint@.len() == n,
                    forall|u: int, v: int| taint@.edge(u, v) <==> body_edge(*self.body, u, v),
                    forall|u: int|
                        0 <= u < b ==> #[trigger] taint@.sources[u] == stmts_sources(
                            program,
                            copyable,
                            cat,
                            blocks[u].statements@,
                        ),
                    forall|u: int|
                        b < u < n ==> #[trigger] taint@.sources[u] == Set::<nat>::empty(),
                    forall|u: int|
                        0 <= u < b ==> #[trigger] taint@.sinks[u] == stmts_sink(
                            program,
                            copyable,
                            cat,
                            blocks[u].statements@,
                        ),
                    forall|u: int| b < u < n ==> !#[trigger] taint@.sinks[u],
                    taint@.sources[b as int] == stmts_sources(
                        program,
                        copyable,
                        cat,
                        stmts.subrange(0, j as int),
                    ),
                    taint@.sinks[b as int] == stmts_sink(
                        program,
                        copyable,
                        cat,
                        stmts.subrange(0, j as int),
                    ),
                    strong@ == strong0 + stmts_spans(
                        program,
                        copyable,
                        cat,
                        stmts.subrange(0, j as int),
                        SpanKind::StrongBypass,
                    ),
                    weak@ == weak0 + stmts_spans(
                        program,
                        copyable,
                        cat,
                        stmts.subrange(0, j as int),
                        SpanKind::WeakBypass,
                    ),
                    unresolved@ == unresolved0 + stmts_spans(
                        program,
                        copyable,
                        cat,
                        stmts.subrange(0, j as int),
                        SpanKind::UnresolvedCall,
                    ),
                decreases stmts.len() - j,
            {
                let st = &block.statements[j];
                let cls = self.classify(st);
                proof {
                    lemma_stmts_step(program, copyable, cat, stmts, j as int);
                }
                let ghost before = taint@;
                match cls {
                    CallClass::StrongBypass(bits) => {
                        let flag = BehaviorFlag::from_bits(bits);
                        taint.mark_source(b, &flag);
                        strong.push(st.span);
                    },
                    CallClass::WeakBypass(bits) => {
                        let flag = BehaviorFlag::from_bits(bits);
                        taint.mark_source(b, &flag);
                        weak.push(st.span);
                    },
                    CallClass::Sink => {
                        taint.mark_sink(b);
                        unresolved.push(st.span);
                    },
                    CallClass::Nothing => {},
                }
                proof {
                    if cls is Sink || cls is Nothing {
                        assert(class_atoms(cls) =~= Set::<nat>::empty());
                        assert(taint@.sources[b as int] =~= taint@.sources[b as int].union(
                            class_atoms(cls),
                        ));
                    }
                }
                j = j + 1;
            }
            proof {
                assert(stmts.subrange(0, j as int) == stmts);
                lemma_blocks_step(program, copyable, cat, blocks, b as int);
            }
            b = b + 1;
        }
        let behavior_flag = taint.propagate();
        proof {
            let g = body_taint_graph(program, copyable, cat, *self.body);
            assert(taint@.sources =~= g.sources);
            assert(taint@.sinks =~= g.sinks);
            assert forall|u: int, v: int| taint@.edge(u, v) <==> g.edge(u, v) by {
                if 0 <= u < n {
                    assert(g.edges[u] == terminator_targets(blocks[u].terminator));
                }
            }
            lemma_propagated_by_edges(taint@, g);
            assert(blocks.subrange(0, n as int) == blocks);
        }
        let r = UnsafeDataflowStatus {
            strong_bypasses: strong,
            weak_bypasses: weak,
            unresolvable_generic_functions: unresolved,
            behavior_flag,
        };
        assert forall|kind: SpanKind| #[trigger]
            r.spans(kind) == blocks_spans(program, copyable, cat, blocks, kind) by {
            match kind {
                SpanKind::StrongBypass => {},
                SpanKind::WeakBypass => {},
                SpanKind::UnresolvedCall => {},
            }
        }
        r
    }

    /// Whether the callee `callee_did` is in `paths` and called on a
    /// copyable first generic type argument.
    fn fn_called_on_copy(&self, callee_did: usize, generics: &GenericArgs, paths: &PathSet) -> (r:
        bool)
        ensures
            r == (callee_did < self.rcx.crate_data.fun_decls@.len() && first_match(
                paths@,
                self.rcx.crate_data.fun_decls@[callee_did as int].name@,
            ) is Some && first_type_copyable(self.rcx.copyable@, *generics)),
    {
        if callee_did < self.rcx.crate_data.fun_decls.len() {
            let decl = &self.rcx.crate_data.fun_decls[callee_did];
            if paths.find(&decl.name).is_some() {
                if generics.types.len() > 0 {
                    return self.rcx.is_copyable(&generics.types[0]);
                }
            }
        }
        false
    }

    /// The class of one statement.
    fn classify(&self, st: &Statement) -> (r: CallClass)
        ensures
            r == spec_classify(self.rcx.crate_data, self.rcx.copyable@, *self.catalog, *st),
    {
        let program = &self.rcx.crate_data;
        match &st.kind {
            StatementKind::Call(call) => match &call.func {
                FnOperand::Regular(callee_did, generics) => {
                    let id = *callee_did;
                    if id >= program.fun_decls.len() {
                        // The callee is not declared: skip the statement.
                        return CallClass::Nothing;
                    }
                    let name = &program.fun_decls[id].name;
                    match self.catalog.strong_set().find(name) {
                        Some(i) => {
                            if self.fn_called_on_copy(id, generics, self.catalog.ptr_read_set()) {
                                // Reading a copyable type bypasses no lifetime.
                                return CallClass::Nothing;
                            }
                            if self.catalog.vec_set_len_pattern().matches(program, name)
                                && vec_set_len_to_0(&call.args) {
                                return CallClass::Nothing;
                            }
                            CallClass::StrongBypass(strong_bypass_flag(i))
                        },
                        None => match self.catalog.weak_set().find(name) {
                            Some(i) => {
                                if self.fn_called_on_copy(
                                    id,
                                    generics,
                                    self.catalog.ptr_write_set(),
                                ) {
                                    // Writing a copyable type bypasses no lifetime.
                                    return CallClass::Nothing;
                                }
                                CallClass::WeakBypass(weak_bypass_flag(i))
                            },
                            None => {
                                if self.catalog.generic_fn_set().find(name).is_some() {
                                    CallClass::Sink
                                } else if generics_have_unresolved(generics) {
                                    // Unresolved code may be user code, which may do anything.
                                    CallClass::Sink
                                } else {
                                    CallClass::Nothing
                                }
                            },
                        },
                    }
                },
                FnOperand::TraitMethod(tref, _, generics) => {
                    let impl_unresolved = match tref {
                        TraitRefKind::TraitImpl(_, impl_generics) => generics_have_unresolved(
                            impl_generics,
                        ),
                        TraitRefKind::Unresolved => true,
                    };
                    if impl_unresolved || generics_have_unresolved(generics) {
                        CallClass::Sink
                    } else {
                        CallClass::Nothing
                    }
                },
                FnOperand::Other => CallClass::Nothing,
            },
            StatementKind::Other => CallClass::Nothing,
        }
    }
}

proof fn lemma_stmts_step(
    program: Program,
    copyable: Set<usize>,
    cat: Catalog,
    stmts: Seq<Statement>,
    j: int,
)
    requires
        0 <= j < stmts.len(),
    ensures
        ({
            let c = spec_classify(program, copyable, cat, stmts[j]);
            let pre = stmts.subrange(0, j);
            let post = stmts.subrange(0, j + 1);
            &&& stmts_sources(program, copyable, cat, post) == stmts_sources(
                program,
                copyable,
                cat,
                pre,
            ).union(class_atoms(c))
            &&& stmts_sink(program, copyable, cat, post) == (stmts_sink(
                program,
                copyable,
                cat,
                pre,
            ) || c is Sink)
            &&& forall|kind: SpanKind| #[trigger]
                stmts_spans(program, copyable, cat, post, kind) == if class_has_kind(c, kind) {
                    stmts_spans(program, copyable, cat, pre, kind).push(stmts[j].span)
                } else {
                    stmts_spans(program, copyable, cat, pre, kind)
                }
        }),
{
    let pre = stmts.subrange(0, j);
    let post = stmts.subrange(0, j + 1);
    assert(post.drop_last() =~= pre);
    assert(post.last() == stmts[j]);
    let c = spec_classify(program, copyable, cat, stmts[j]);
    if stmts_sink(program, copyable, cat, post) {
        let k = choose|k: int|
            0 <= k < post.len() && spec_classify(program, copyable, cat, #[trigger] post[k]) is Sink;
        if k < j {
            assert(pre[k] == post[k]);
        }
    }
    if stmts_sink(program, copyable, cat, pre) {
        let k = choose|k: int|
            0 <= k < pre.len() && spec_classify(program, copyable, cat, #[trigger] pre[k]) is Sink;
        assert(pre[k] == post[k]);
    }
    if c is Sink {
        assert(post[j] == stmts[j]);
    }
}

proof fn lemma_blocks_step(
    program: Program,
    copyable: Set<usize>,
    cat: Catalog,
    blocks: Seq<BasicBlock>,
    b: int,
)
    requires
        0 <= b < blocks.len(),
    ensures
        forall|kind: SpanKind| #[trigger]
            blocks_spans(program, copyable, cat, blocks.subrange(0, b + 1), kind) == blocks_spans(
                program,
                copyable,
                cat,
                blocks.subrange(0, b),
                kind,
            ) + stmts_spans(program, copyable, cat, blocks[b].statements@, kind),
{
    assert(blocks.subrange(0, b + 1).drop_last() =~= blocks.subrange(0, b));
    assert(blocks.subrange(0, b + 1).last() == blocks[b]);
}

/// What a report states, as values.
pub struct ReportView {
    pub level: ReportLevel,
    pub flag: Set<nat>,
    pub message: Seq<char>,
    pub main_span: Span,
    pub events: Seq<ColorEvent>,
}

pub open spec fn report_view(r: Report) -> ReportView {
    ReportView {
        level: r.level,
        flag: r.behavior@,
        message: r.message@,
        main_span: r.color_span.spec_main_span(),
        events: r.color_span.events(),
    }
}

/// The message of a report on the function `name`.
pub open spec fn dataflow_message(name: Seq<Seq<char>>) -> Seq<char> {
    "Potential unsafe dataflow issue in `"@ + join_path(name) + "`"@
}

/// The sub-span events of a report on `decl`: strong bypasses in red, weak
/// ones in yellow, unresolved calls in cyan, those of other files left out.
pub open spec fn report_events(
    program: Program,
    copyable: Set<usize>,
    cat: Catalog,
    decl: FunDecl,
    body: Body,
) -> Seq<ColorEvent> {
    let spans = |kind: SpanKind| blocks_spans(program, copyable, cat, body.blocks@, kind);
    let red = with_sub_spans(Seq::empty(), decl.span, Color::Red, spans(SpanKind::StrongBypass));
    let yellow = with_sub_spans(red, decl.span, Color::Yellow, spans(SpanKind::WeakBypass));
    with_sub_spans(yellow, decl.span, Color::Cyan, spans(SpanKind::UnresolvedCall))
}

/// The report on `decl`, if any: when its analysis propagates a non-empty
/// flag whose severity reaches `threshold`.
pub open spec fn expected_report(
    program: Program,
    copyable: Set<usize>,
    threshold: ReportLevel,
    cat: Catalog,
    decl: FunDecl,
) -> Option<ReportView> {
    match spec_body_of(program, cat, decl) {
        Some(body) => {
            let flag = body_taint_graph(program, copyable, cat, body).propagated();
            let level = flag_report_level(flag);
            if flag != Set::<nat>::empty() && level.rank() >= threshold.rank() {
                Some(
                    ReportView {
                        level,
                        flag,
                        message: dataflow_message(decl.name@),
                        main_span: decl.span,
                        events: report_events(program, copyable, cat, decl, body),
                    },
                )
            } else {
                None
            }
        },
        None => None,
    }
}

/// The reports on `decls`, in order.
pub open spec fn expected_reports(
    program: Program,
    copyable: Set<usize>,
    threshold: ReportLevel,
    cat: Catalog,
    decls: Seq<FunDecl>,
) -> Seq<ReportView>
    decreases decls.len(),
{
    if decls.len() == 0 {
        Seq::empty()
    } else {
        let prev = expected_reports(program, copyable, threshold, cat, decls.drop_last());
        match expected_report(program, copyable, threshold, cat, decls.last()) {
            Some(r) => prev.push(r),
            None => prev,
        }
    }
}

/// The path of a name, joined by `::`.
pub fn format_name(name: &Name) -> (r: String)
    ensures
        r@ == join_path(name@),
{
    let mut r = String::new();
    let mut i: usize = 0;
    while i < name.elems.len()
        invariant
            i <= name@.len(),
            name@.len() == name.elems@.len(),
            r@ == join_path(name@.subrange(0, i as int)),
        decreases name@.len() - i,
    {
        assert(name@.subrange(0, i + 1).drop_last() == name@.subrange(0, i as int));
        if i > 0 {
            r.append("::");
            proof {
                reveal_strlit("::");
            }
        }
        r.append(name.elems[i].as_str());
        i = i + 1;
    }
    assert(name@.subrange(0, i as int) == name@);
    r
}

/// Adds the sub-spans `spans` in colour `color`.
fn add_sub_spans(color_span: &mut ColorSpan, color: Color, spans: &Vec<Span>)
    ensures
        final(color_span).spec_main_span() == old(color_span).spec_main_span(),
        final(color_span).events() == with_sub_spans(
            old(color_span).events(),
            old(color_span).spec_main_span(),
            color,
            spans@,
        ),
{
    let ghost start = color_span.events();
    let ghost main = color_span.spec_main_span();
    let mut k: usize = 0;
    while k < spans.len()
        invariant
            k <= spans@.len(),
            color_span.spec_main_span() == main,
            color_span.events() == with_sub_spans(start, main, color, spans@.subrange(0, k as int)),
        decreases spans@.len() - k,
    {
        assert(spans@.subrange(0, k + 1).drop_last() == spans@.subrange(0, k as int));
        color_span.add_sub_span(color, spans[k]);
        k = k + 1;
    }
    assert(spans@.subrange(0, k as int) == spans@);
}

/// The path of the declared function that a statement calls directly, if any.
pub open spec fn direct_callee(program: Program, st: Statement) -> Option<Seq<char>> {
    match st.kind {
        StatementKind::Call(call) => match call.func {
            FnOperand::Regular(id, _) => if id < program.fun_decls@.len() {
                Some(join_path(program.fun_decls@[id as int].name@))
            } else {
                None
            },
            _ => None,
        },
        StatementKind::Other => None,
    }
}

pub open spec fn stmts_callees(program: Program, stmts: Seq<Statement>) -> Seq<Seq<char>>
    decreases stmts.len(),
{
    if stmts.len() == 0 {
        Seq::empty()
    } else {
        let prev = stmts_callees(program, stmts.drop_last());
        match direct_callee(program, stmts.last()) {
            Some(c) => prev.push(c),
            None => prev,
        }
    }
}

pub open spec fn blocks_callees(program: Program, blocks: Seq<BasicBlock>) -> Seq<Seq<char>>
    decreases blocks.len(),
{
    if blocks.len() == 0 {
        Seq::empty()
    } else {
        blocks_callees(program, blocks.drop_last()) + stmts_callees(
            program,
            blocks.last().statements@,
        )
    }
}

/// The paths of the declared functions that `body` calls directly, in block
/// and statement order.
pub fn trace_calls_in_body(rcx: &CtxOwner, body: &Body) -> (r: Vec<String>)
    ensures
        r@.map_values(|x: String| x@) == blocks_callees(rcx.crate_data, body.blocks@),
{
    let ghost program = rcx.crate_data;
    let ghost blocks = body.blocks@;
    let mut r: Vec<String> = Vec::new();
    let mut b: usize = 0;
    while b < body.blocks.len()
        invariant
            program == rcx.crate_data,
            blocks == body.blocks@,
            b <= blocks.len(),
            r@.map_values(|x: String| x@) == blocks_callees(program, blocks.subrange(0, b as int)),
        decreases blocks.len() - b,
    {
        let stmts = &body.blocks[b].statements;
        let ghost r0 = r@.map_values(|x: String| x@);
        let mut j: usize = 0;
        while j < stmts.len()
            invariant
                program == rcx.crate_data,
                j <= stmts@.len(),
                r@.map_values(|x: String| x@) == r0 + stmts_callees(
                    program,
                    stmts@.subrange(0, j as int),
                ),
            decreases stmts@.len() - j,
        {
            proof {
                assert(stmts@.subrange(0, j + 1).drop_last() == stmts@.subrange(0, j as int));
            }
            let ghost before = r@;
            if let StatementKind::Call(call) = &stmts[j].kind {
                if let FnOperand::Regular(id, _) = &call.func {
                    if *id < rcx.crate_data.fun_decls.len() {
                        let line = format_name(&rcx.crate_data.fun_decls[*id].name);
                        r.push(line);
                        proof {
                            assert(r@.map_values(|x: String| x@) =~= before.map_values(
                                |x: String| x@,
                            ).push(line@));
                        }
                    }
                }
            }
            j = j + 1;
        }
        proof {
            assert(stmts@.subrange(0, j as int) == stmts@);
            assert(blocks.subrange(0, b + 1).drop_last() == blocks.subrange(0, b as int));
            assert(blocks.subrange(0, b + 1).last() == blocks[b as int]);
        }
        b = b + 1;
    }
    assert(blocks.subrange(0, b as int) == blocks);
    r
}

/// The body of a paths-discovery function `decl`, whose calls are listed.
pub open spec fn discovery_body_of(program: Program, cat: Catalog, decl: FunDecl) -> Option<Body> {
    match decl.body {
        Some(id) => if id < program.bodies@.len() && first_match(
            cat.paths_discovery(),
            decl.name@,
        ) is Some {
            Some(program.bodies@[id as int])
        } else {
            None
        },
        None => None,
    }
}

/// The callee paths listed for the paths-discovery functions among `decls`.
pub open spec fn discovered_paths(program: Program, cat: Catalog, decls: Seq<FunDecl>) -> Seq<
    Seq<char>,
>
    decreases decls.len(),
{
    if decls.len() == 0 {
        Seq::empty()
    } else {
        let prev = discovered_paths(program, cat, decls.drop_last());
        match discovery_body_of(program, cat, decls.last()) {
            Some(body) => prev + blocks_callees(program, body.blocks@),
            None => prev,
        }
    }
}

/// Runs the unsafe dataflow analysis over every function of a program.
pub struct UnsafeDataflowChecker<'a> {
    rcx: &'a CtxOwner,
    catalog: &'a Catalog,
}

impl<'a> UnsafeDataflowChecker<'a> {
    pub fn new(rcx: &'a CtxOwner, catalog: &'a Catalog) -> (r: Self)
        ensures
            r.spec_rcx() == rcx,
            r.spec_catalog() == catalog,
    {
        UnsafeDataflowChecker { rcx, catalog }
    }

    pub closed spec fn spec_rcx(&self) -> &'a CtxOwner {
        self.rcx
    }

    pub closed spec fn spec_catalog(&self) -> &'a Catalog {
        self.catalog
    }

    /// The callees of every paths-discovery function, in declaration order.
    pub fn paths_discovery(&self) -> (r: Vec<String>)
        ensures
            r@.map_values(|x: String| x@) == discovered_paths(
                self.spec_rcx().crate_data,
                *self.spec_catalog(),
                self.spec_rcx().crate_data.fun_decls@,
            ),
    {
        let rcx = self.rcx;
        let discovery = self.catalog.paths_discovery_set();
        let ghost decls = rcx.crate_data.fun_decls@;
        let mut r: Vec<String> = Vec::new();
        let mut i: usize = 0;
        while i < rcx.crate_data.fun_decls.len()
            invariant
                decls == rcx.crate_data.fun_decls@,
                rcx == self.spec_rcx(),
                discovery@ == self.spec_catalog().paths_discovery(),
                i <= decls.len(),
                r@.map_values(|x: String| x@) == discovered_paths(
                    rcx.crate_data,
                    *self.spec_catalog(),
                    decls.subrange(0, i as int),
                ),
            decreases decls.len() - i,
        {
            let decl = &rcx.crate_data.fun_decls[i];
            proof {
                assert(decls.subrange(0, i + 1).drop_last() == decls.subrange(0, i as int));
                assert(decls.subrange(0, i + 1).last() == *decl);
            }
            if let Some(body_id) = decl.body {
                if body_id < rcx.crate_data.bodies.len() && discovery.find(&decl.name).is_some() {
                    let lines = trace_calls_in_body(rcx, &rcx.crate_data.bodies[body_id]);
                    let ghost before = r@;
                    let mut k: usize = 0;
                    while k < lines.len()
                        invariant
                            k <= lines@.len(),
                            r@.map_values(|x: String| x@) == before.map_values(|x: String| x@)
                                + lines@.subrange(0, k as int).map_values(|x: String| x@),
                        decreases lines@.len() - k,
                    {
                        let ghost mid = r@;
                        r.push(lines[k].clone());
                        proof {
                            assert(lines@.subrange(0, k + 1).map_values(|x: String| x@)
                                =~= lines@.subrange(0, k as int).map_values(|x: String| x@).push(
                                lines@[k as int]@,
                            ));
                            assert(r@.map_values(|x: String| x@) =~= mid.map_values(
                                |x: String| x@,
                            ).push(lines@[k as int]@));
                        }
                        k = k + 1;
                    }
                    proof {
                        assert(lines@.subrange(0, k as int) == lines@);
                    }
                }
            }
            i = i + 1;
        }
        assert(decls.subrange(0, i as int) == decls);
        r
    }

    /// The reports on every function, in declaration order.
    pub fn analyze(self) -> (r: Vec<Report>)
        ensures
            r@.map_values(|x: Report| report_view(x)) == expected_reports(
                self.spec_rcx().crate_data,
                self.spec_rcx().copyable@,
                self.spec_rcx().report_level,
                *self.spec_catalog(),
                self.spec_rcx().crate_data.fun_decls@,
            ),
    {
        let rcx = self.rcx;
        let catalog = self.catalog;
        let ghost decls = rcx.crate_data.fun_decls@;
        let mut reports: Vec<Report> = Vec::new();
        let mut i: usize = 0;
        while i < rcx.crate_data.fun_decls.len()
            invariant
                decls == rcx.crate_data.fun_decls@,
                i <= decls.len(),
                reports@.map_values(|x: Report| report_view(x)) == expected_reports(
                    rcx.crate_data,
                    rcx.copyable@,
                    rcx.report_level,
                    *catalog,
                    decls.subrange(0, i as int),
                ),
            decreases decls.len() - i,
        {
            let decl = &rcx.crate_data.fun_decls[i];
            proof {
                assert(decls.subrange(0, i + 1).drop_last() == decls.subrange(0, i as int));
                assert(decls.subrange(0, i + 1).last() == *decl);
            }
            let ghost before = reports@;
            if let Some(status) = UnsafeDataflowBodyAnalyzer::analyze_body(rcx, catalog, decl) {
                let behavior_flag = status.behavior_flag();
                let level = behavior_flag.report_level();
                if !behavior_flag.is_empty() && level.at_least(&rcx.report_level()) {
                    if let Some(mut color_span) = ColorSpan::new(&rcx.crate_data, decl.span) {
                        add_sub_spans(&mut color_span, Color::Red, status.strong_bypass_spans());
                        add_sub_spans(&mut color_span, Color::Yellow, status.weak_bypass_spans());
                        add_sub_spans(
                            &mut color_span,
                            Color::Cyan,
                            status.unresolvable_generic_function_spans(),
                        );
                        let mut message = "Potential unsafe dataflow issue in `".to_owned();
                        let name = format_name(&decl.name);
                        message.append(name.as_str());
                        message.append("`");
                        let report = Report { level, behavior: behavior_flag, message, color_span };
                        reports.push(report);
                        proof {
                            assert(reports@.map_values(|x: Report| report_view(x)) =~= before.map_values(
                                |x: Report| report_view(x),
                            ).push(report_view(report)));
                        }
                    }
                }
            }
            i = i + 1;
        }
        assert(decls.subrange(0, i as int) == decls);
        reports
    }
}

/// A call of a read-family strong bypass whose first generic argument is
/// copyable (a raw pointer, a shared reference, or a registered copyable
/// type) is no source: it adds no atom to its block.
pub proof fn lemma_copyable_read_not_marked(
    program: Program,
    copyable: Set<usize>,
    cat: Catalog,
    id: usize,
    g: GenericArgs,
    args: Seq<Operand>,
)
    requires
        id < program.fun_decls@.len(),
        first_match(cat.strong(), program.fun_decls@[id as int].name@) is Some,
        first_match(cat.ptr_read(), program.fun_decls@[id as int].name@) is Some,
        first_type_copyable(copyable, g),
    ensures
        spec_classify_direct(program, copyable, cat, id, g, args) == CallClass::Nothing,
        class_atoms(spec_classify_direct(program, copyable, cat, id, g, args)) == Set::<
            nat,
        >::empty(),
{
}

/// A call of the length-override bypass marks nothing when an argument is the
/// literal zero, and otherwise marks the length-override flag, of the high
/// severity tier.
pub proof fn lemma_set_len_marking(
    program: Program,
    copyable: Set<usize>,
    cat: Catalog,
    id: usize,
    g: GenericArgs,
    args: Seq<Operand>,
)
    requires
        cat.wf(),
        id < program.fun_decls@.len(),
        first_match(cat.strong(), program.fun_decls@[id as int].name@) == Some(4int),
    ensures
        has_zero_literal(args) ==> spec_classify_direct(program, copyable, cat, id, g, args)
            == CallClass::Nothing,
        !has_zero_literal(args) ==> spec_classify_direct(program, copyable, cat, id, g, args)
            == CallClass::StrongBypass(VEC_SET_LEN),
        flag_report_level(bit_set(VEC_SET_LEN)) == ReportLevel::Error,
{
    let name = program.fun_decls@[id as int].name@;
    crate::paths::lemma_first_match(cat.strong(), name);
    crate::paths::lemma_first_match(cat.ptr_read(), name);
    assert(cat.strong()[4].1 == cat.vec_set_len());
    assert(cat.ptr_read()[0] == cat.strong()[0]);
    assert(cat.ptr_read()[1] == cat.strong()[1]);
    assert(!spec_matches(cat.strong()[0].1, name));
    assert(!spec_matches(cat.strong()[1].1, name));
    crate::flags::lemma_high_tier_set_len();
}

/// A function whose body has no source yields no report.
pub proof fn lemma_no_source_no_report(
    program: Program,
    copyable: Set<usize>,
    threshold: ReportLevel,
    cat: Catalog,
    decl: FunDecl,
)
    requires
        spec_body_of(program, cat, decl) is Some,
        forall|b: int|
            0 <= b < spec_body_of(program, cat, decl)->0.blocks@.len() ==> stmts_sources(
                program,
                copyable,
                cat,
                #[trigger] spec_body_of(program, cat, decl)->0.blocks@[b].statements@,
            ) == Set::<nat>::empty(),
    ensures
        expected_report(program, copyable, threshold, cat, decl) is None,
{
    let body = spec_body_of(program, cat, decl)->0;
    let g = body_taint_graph(program, copyable, cat, body);
    assert forall|a: nat| !g.propagated().contains(a) by {
        if g.propagated().contains(a) {
            let u = choose|u: int|
                0 <= u < g.len() && g.reaches_sink(u) && #[trigger] g.sources[u].contains(a);
            assert(g.sources[u] == stmts_sources(program, copyable, cat, body.blocks@[u].statements@));
        }
    }
    assert(g.propagated() =~= Set::<nat>::empty());
}

/// The body that `decl` is analysed on: its own, unless it has none or is a
/// paths-discovery function.
pub open spec fn spec_body_of(program: Program, cat: Catalog, decl: FunDecl) -> Option<Body> {
    match decl.body {
        Some(id) => if id < program.bodies@.len() && first_match(
            cat.paths_discovery(),
            decl.name@,
        ) is None {
            Some(program.bodies@[id as int])
        } else {
            None
        },
        None => None,
    }
}

/// `s` is the analysis of `body`: the propagated atoms of its taint graph,
/// and the spans of its calls of each kind in block and statement order.
pub open spec fn status_of(rcx: &CtxOwner, cat: &Catalog, body: Body, s: UnsafeDataflowStatus) -> bool {
    &&& s.spec_flag() == body_taint_graph(rcx.crate_data, rcx.copyable@, *cat, body).propagated()
    &&& forall|kind: SpanKind| #[trigger]
        s.spans(kind) == blocks_spans(rcx.crate_data, rcx.copyable@, *cat, body.blocks@, kind)
}

} // verus!
