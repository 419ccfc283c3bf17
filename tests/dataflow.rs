use rudra_dataflow::context::CtxOwner;
use rudra_dataflow::driver::{analyze, compile_time_sysroot, run_analysis, BuildEnv, RudraConfig, Verbosity};
use rudra_dataflow::flags::{COPY_FLOW, READ_FLOW, SLICE_FROM_RAW, TRANSMUTE, VEC_FROM_RAW, VEC_SET_LEN, WRITE_FLOW};
use rudra_dataflow::graph::GraphTaint;
use rudra_dataflow::paths::Catalog;
use rudra_dataflow::program::{
    BasicBlock, Body, Call, FnOperand, FunDecl, GenericArgs, Loc, Name, Operand, Program, RefKind,
    Span, Statement, StatementKind, Terminator, TraitDecl, TraitImpl, TraitRefKind, Ty,
};
use rudra_dataflow::report::{Color, ReportLevel};
use rudra_dataflow::unsafe_dataflow::{
    format_name, trace_calls_in_body, AnalysisErrorKind, UnsafeDataflowBodyAnalyzer,
    UnsafeDataflowChecker, UnsafeDataflowError,
};

fn name(path: &[&str]) -> Name {
    Name { elems: path.iter().map(|s| s.to_string()).collect() }
}

fn span(line: usize) -> Span {
    Span { file_id: 0, beg: Loc { line, col: 4 }, end: Loc { line, col: 20 } }
}

fn generics(types: Vec<Ty>, trait_refs: Vec<TraitRefKind>) -> GenericArgs {
    GenericArgs { types, trait_refs }
}

fn call(callee: usize, g: GenericArgs, args: Vec<Operand>, line: usize) -> Statement {
    Statement {
        span: span(line),
        kind: StatementKind::Call(Call { func: FnOperand::Regular(callee, g), args }),
    }
}

fn block(statements: Vec<Statement>, terminator: Terminator) -> BasicBlock {
    BasicBlock { statements, terminator }
}

fn decl(path: &[&str], body: Option<usize>, line: usize) -> FunDecl {
    FunDecl {
        name: name(path),
        span: Span { file_id: 0, beg: Loc { line, col: 0 }, end: Loc { line: line + 20, col: 1 } },
        body,
    }
}

const READ: usize = 0;
const GENERIC: usize = 1;
const SET_LEN: usize = 2;
const TRANSMUTE_FN: usize = 3;
const COPY_NONOVERLAPPING: usize = 4;
const DROP_IN_PLACE: usize = 5;
const FROM_RAW_PARTS: usize = 6;
const WRITE: usize = 7;
const VICTIM: usize = 8;

/// Declarations shared by the scenarios; the function under analysis is the
/// last one and owns body 0.
fn program(body: Body, with_copy_trait: bool) -> Program {
    let (trait_decls, trait_impls) = if with_copy_trait {
        (
            vec![TraitDecl { def_id: 0, name: name(&["core", "marker", "Copy"]) }],
            vec![TraitImpl { def_id: 0, trait_id: 0, generics: generics(vec![Ty::Adt(5)], vec![]) }],
        )
    } else {
        (vec![], vec![])
    };
    Program {
        files: vec![],
        fun_decls: vec![
            decl(&["core", "ptr", "read"], None, 1),
            decl(&["user", "generic_fn"], None, 2),
            decl(&["alloc", "vec", "<Vec<_>>", "set_len"], None, 3),
            decl(&["core", "intrinsics", "", "transmute"], None, 4),
            decl(&["core", "intrinsics", "copy_nonoverlapping"], None, 5),
            decl(&["core", "ptr", "drop_in_place"], None, 6),
            decl(&["alloc", "vec", "<Vec<_>>", "from_raw_parts"], None, 7),
            decl(&["core", "ptr", "write"], None, 8),
            decl(&["user", "victim"], Some(0), 100),
        ],
        bodies: vec![body],
        trait_decls,
        trait_impls,
    }
}

fn unresolved_call(line: usize) -> Statement {
    call(GENERIC, generics(vec![], vec![TraitRefKind::Unresolved]), vec![], line)
}

fn read_then_sink(read_ty: Ty) -> Body {
    Body {
        blocks: vec![
            block(vec![call(READ, generics(vec![read_ty], vec![]), vec![Operand::Place], 101)], Terminator::Goto(1)),
            block(vec![unresolved_call(102)], Terminator::Return),
        ],
    }
}

fn status_bits(p: Program) -> (u16, usize, usize, usize) {
    let catalog = Catalog::new().unwrap();
    let ctx = CtxOwner::new(p, ReportLevel::Info);
    let d = &ctx.crate_data.fun_decls[VICTIM];
    let s = UnsafeDataflowBodyAnalyzer::analyze_body(&ctx, &catalog, d).unwrap();
    (
        s.behavior_flag().bits(),
        s.strong_bypass_spans().len(),
        s.weak_bypass_spans().len(),
        s.unresolvable_generic_function_spans().len(),
    )
}

fn reports(p: Program, level: ReportLevel) -> Vec<rudra_dataflow::report::Report> {
    let catalog = Catalog::new().unwrap();
    let ctx = CtxOwner::new(p, level);
    UnsafeDataflowChecker::new(&ctx, &catalog).analyze()
}

#[test]
fn read_of_non_copyable_then_unresolved_call_is_reported() {
    let r = reports(program(read_then_sink(Ty::Adt(9)), false), ReportLevel::Info);
    assert_eq!(r.len(), 1);
    assert_eq!(r[0].level, ReportLevel::Warning);
    assert_eq!(r[0].behavior.bits(), READ_FLOW);
    assert_eq!(r[0].message, "Potential unsafe dataflow issue in `user::victim`");
    let events = r[0].color_span.sub_span_events();
    assert_eq!(events.len(), 4);
    assert_eq!(events[0].color, Some(Color::Red));
    assert_eq!(events[0].line, 101);
    assert_eq!(events[1].color, None);
    assert_eq!(events[2].color, Some(Color::Cyan));
    assert_eq!(events[2].line, 102);
    assert_eq!(r[0].color_span.main_span(), decl(&["user", "victim"], Some(0), 100).span);
}

#[test]
fn read_flowing_only_to_return_is_not_reported() {
    let body = Body {
        blocks: vec![block(
            vec![call(READ, generics(vec![Ty::Adt(9)], vec![]), vec![Operand::Place], 101)],
            Terminator::Return,
        )],
    };
    let r = reports(program(body, false), ReportLevel::Info);
    assert_eq!(r.len(), 0);
}

#[test]
fn read_of_copyable_type_is_not_a_source() {
    assert_eq!(status_bits(program(read_then_sink(Ty::Adt(5)), true)), (0, 0, 0, 1));
    let r = reports(program(read_then_sink(Ty::Adt(5)), true), ReportLevel::Info);
    assert_eq!(r.len(), 0);
}

#[test]
fn read_through_raw_pointer_or_shared_ref_is_not_a_source() {
    let raw = Ty::RawPtr(Box::new(Ty::Adt(5)), RefKind::Shared);
    assert_eq!(status_bits(program(read_then_sink(raw), true)), (0, 0, 0, 1));
    let shared = Ty::Ref(Box::new(Ty::Adt(5)), RefKind::Shared);
    assert_eq!(status_bits(program(read_then_sink(shared), true)), (0, 0, 0, 1));
}

fn set_len_body(arg: Operand) -> Body {
    Body {
        blocks: vec![block(
            vec![
                call(SET_LEN, generics(vec![Ty::Adt(9)], vec![]), vec![Operand::Place, arg], 101),
                unresolved_call(102),
            ],
            Terminator::Return,
        )],
    }
}

#[test]
fn set_len_to_literal_zero_is_not_marked() {
    assert_eq!(status_bits(program(set_len_body(Operand::UsizeConst(0)), false)), (0, 0, 0, 1));
}

#[test]
fn set_len_to_other_value_is_high_severity() {
    assert_eq!(status_bits(program(set_len_body(Operand::UsizeConst(3)), false)), (VEC_SET_LEN, 1, 0, 1));
    assert_eq!(status_bits(program(set_len_body(Operand::Place), false)), (VEC_SET_LEN, 1, 0, 1));
    assert_eq!(status_bits(program(set_len_body(Operand::OtherConst), false)), (VEC_SET_LEN, 1, 0, 1));
    let r = reports(program(set_len_body(Operand::UsizeConst(3)), false), ReportLevel::Error);
    assert_eq!(r.len(), 1);
    assert_eq!(r[0].level, ReportLevel::Error);
}

#[test]
fn weak_bypasses_and_generic_functions() {
    let body = Body {
        blocks: vec![
            block(vec![call(TRANSMUTE_FN, generics(vec![], vec![]), vec![], 101)], Terminator::Goto(1)),
            block(
                vec![call(DROP_IN_PLACE, generics(vec![Ty::Adt(9)], vec![]), vec![], 102)],
                Terminator::Return,
            ),
        ],
    };
    assert_eq!(status_bits(program(body, false)), (TRANSMUTE, 0, 1, 1));
}

#[test]
fn write_of_copyable_type_is_not_a_source() {
    let body = Body {
        blocks: vec![block(
            vec![call(WRITE, generics(vec![Ty::Adt(5)], vec![]), vec![], 101), unresolved_call(102)],
            Terminator::Return,
        )],
    };
    assert_eq!(status_bits(program(body, true)), (0, 0, 0, 1));
    let body = Body {
        blocks: vec![block(
            vec![call(WRITE, generics(vec![Ty::Adt(9)], vec![]), vec![], 101), unresolved_call(102)],
            Terminator::Return,
        )],
    };
    assert_eq!(status_bits(program(body, true)), (WRITE_FLOW, 0, 1, 1));
}

#[test]
fn copy_of_copyable_type_is_still_a_source() {
    let body = Body {
        blocks: vec![block(
            vec![
                call(COPY_NONOVERLAPPING, generics(vec![Ty::Adt(5)], vec![]), vec![], 101),
                call(FROM_RAW_PARTS, generics(vec![], vec![]), vec![], 102),
                unresolved_call(103),
            ],
            Terminator::Return,
        )],
    };
    assert_eq!(status_bits(program(body, true)), (COPY_FLOW | VEC_FROM_RAW, 2, 0, 1));
}

#[test]
fn trait_method_calls() {
    let resolved = Statement {
        span: span(101),
        kind: StatementKind::Call(Call {
            func: FnOperand::TraitMethod(
                TraitRefKind::TraitImpl(3, generics(vec![], vec![])),
                "next".to_string(),
                generics(vec![], vec![]),
            ),
            args: vec![],
        }),
    };
    let via_clause = Statement {
        span: span(102),
        kind: StatementKind::Call(Call {
            func: FnOperand::TraitMethod(TraitRefKind::Unresolved, "next".to_string(), generics(vec![], vec![])),
            args: vec![],
        }),
    };
    let body = Body {
        blocks: vec![block(
            vec![
                call(READ, generics(vec![Ty::Adt(9)], vec![]), vec![], 100),
                resolved,
                Statement { span: span(103), kind: StatementKind::Other },
            ],
            Terminator::Goto(1),
        ), block(vec![via_clause], Terminator::Return)],
    };
    assert_eq!(status_bits(program(body, false)), (READ_FLOW, 1, 0, 1));
}

#[test]
fn undeclared_callee_is_skipped() {
    let body = Body {
        blocks: vec![block(
            vec![call(77, generics(vec![], vec![TraitRefKind::Unresolved]), vec![], 101),
                 call(SET_LEN, generics(vec![], vec![]), vec![], 102)],
            Terminator::Return,
        )],
    };
    assert_eq!(status_bits(program(body, false)), (0, 1, 0, 0));
}

#[test]
fn bodiless_function_is_not_analysed() {
    let catalog = Catalog::new().unwrap();
    let ctx = CtxOwner::new(program(read_then_sink(Ty::Adt(9)), false), ReportLevel::Info);
    let d = &ctx.crate_data.fun_decls[READ];
    assert!(UnsafeDataflowBodyAnalyzer::analyze_body(&ctx, &catalog, d).is_none());
}

#[test]
fn threshold_filters_reports() {
    let r = reports(program(read_then_sink(Ty::Adt(9)), false), ReportLevel::Error);
    assert_eq!(r.len(), 0);
    let r = reports(program(read_then_sink(Ty::Adt(9)), false), ReportLevel::Warning);
    assert_eq!(r.len(), 1);
}

#[test]
fn paths_discovery_lists_callees() {
    let mut p = program(read_then_sink(Ty::Adt(9)), false);
    p.fun_decls[VICTIM].name = name(&["discover"]);
    let catalog = Catalog::new().unwrap();
    let ctx = CtxOwner::new(p, ReportLevel::Info);
    assert!(UnsafeDataflowBodyAnalyzer::analyze_body(&ctx, &catalog, &ctx.crate_data.fun_decls[VICTIM]).is_none());
    let checker = UnsafeDataflowChecker::new(&ctx, &catalog);
    assert_eq!(checker.paths_discovery(), vec!["core::ptr::read".to_string(), "user::generic_fn".to_string()]);
    assert_eq!(checker.analyze().len(), 0);
    assert_eq!(trace_calls_in_body(&ctx, &ctx.crate_data.bodies[0]).len(), 2);
}

#[test]
fn format_name_joins_path() {
    assert_eq!(format_name(&name(&["a", "<T>", "b"])), "a::<T>::b");
    assert_eq!(format_name(&name(&[])), "");
}

#[test]
fn error_kinds() {
    assert_eq!(UnsafeDataflowError::ResolveError.kind(), AnalysisErrorKind::OutOfScope);
    assert_eq!(UnsafeDataflowError::PushPopBlock.kind(), AnalysisErrorKind::Unreachable);
    assert_eq!(UnsafeDataflowError::InvalidSpan.kind(), AnalysisErrorKind::Unreachable);
}

#[test]
fn driver_runs_enabled_analysis() {
    let catalog = Catalog::new().unwrap();
    let config = RudraConfig::default();
    assert_eq!(config.verbosity, Verbosity::Normal);
    assert_eq!(config.report_level, ReportLevel::Info);
    assert!(config.unsafe_dataflow_enabled && config.send_sync_variance_enabled);
    assert!(!config.unsafe_destructor_enabled);
    assert_eq!(analyze(program(read_then_sink(Ty::Adt(9)), false), config, &catalog).0.len(), 1);
    let off = RudraConfig { unsafe_dataflow_enabled: false, ..RudraConfig::default() };
    assert_eq!(analyze(program(read_then_sink(Ty::Adt(9)), false), off, &catalog).0.len(), 0);
}

#[test]
fn run_analysis_returns_closure_result() {
    assert_eq!(run_analysis("x", || 41 + 1), 42);
}

#[test]
fn sysroot_from_environment() {
    let none = BuildEnv {
        rustc_stage: None,
        rustup_home: None,
        multirust_home: None,
        rustup_toolchain: None,
        multirust_toolchain: None,
        rust_sysroot: Some("/sys".to_string()),
    };
    assert_eq!(compile_time_sysroot(&none), Some("/sys".to_string()));
    let rustup = BuildEnv {
        rustup_home: Some("/h".to_string()),
        multirust_toolchain: Some("nightly".to_string()),
        ..none.clone()
    };
    assert_eq!(compile_time_sysroot(&rustup), Some("/h/toolchains/nightly".to_string()));
    let stage = BuildEnv { rustc_stage: Some("1".to_string()), ..rustup };
    assert_eq!(compile_time_sysroot(&stage), None);
}

#[test]
fn slice_from_raw_is_weak() {
    let mut p = program(Body { blocks: vec![] }, false);
    p.fun_decls[TRANSMUTE_FN].name = name(&["core", "slice", "from_raw_parts"]);
    p.bodies[0] = Body {
        blocks: vec![block(vec![call(TRANSMUTE_FN, generics(vec![], vec![]), vec![], 101), unresolved_call(102)], Terminator::Return)],
    };
    assert_eq!(status_bits(p), (SLICE_FROM_RAW, 0, 1, 1));
}
