use rudra_dataflow::flags::{BehaviorFlag, COPY_FLOW, READ_FLOW, TRANSMUTE, VEC_FROM_RAW, VEC_SET_LEN, WRITE_FLOW};
use rudra_dataflow::graph::{GraphTaint, TaintAnalyzer};
use rudra_dataflow::program::{BasicBlock, Body, Terminator};
use rudra_dataflow::report::ReportLevel;

fn body(terminators: Vec<Terminator>) -> Body {
    Body {
        blocks: terminators
            .into_iter()
            .map(|terminator| BasicBlock { statements: vec![], terminator })
            .collect(),
    }
}

fn flag(bits: u16) -> BehaviorFlag {
    BehaviorFlag::from_bits(bits)
}

#[test]
fn source_flows_forward_to_sink() {
    let b = body(vec![Terminator::Goto(1), Terminator::Goto(2), Terminator::Return]);
    let mut g: TaintAnalyzer<BehaviorFlag> = TaintAnalyzer::new(&b);
    g.mark_source(0, &flag(READ_FLOW));
    g.mark_sink(2);
    assert_eq!(g.propagate().bits(), READ_FLOW);
}

#[test]
fn source_after_sink_is_not_reported() {
    let b = body(vec![Terminator::Goto(1), Terminator::Return]);
    let mut g: TaintAnalyzer<BehaviorFlag> = TaintAnalyzer::new(&b);
    g.mark_sink(0);
    g.mark_source(1, &flag(TRANSMUTE));
    assert!(g.propagate().is_empty());
}

#[test]
fn branches_and_cleanup_edges_are_followed() {
    let b = body(vec![
        Terminator::Switch(vec![1, 2]),
        Terminator::Return,
        Terminator::Call(3, Some(4)),
        Terminator::Return,
        Terminator::Abort,
    ]);
    let mut g: TaintAnalyzer<BehaviorFlag> = TaintAnalyzer::new(&b);
    g.mark_source(0, &flag(COPY_FLOW));
    g.mark_source(1, &flag(WRITE_FLOW));
    g.mark_sink(4);
    assert_eq!(g.propagate().bits(), COPY_FLOW);
}

#[test]
fn unsupported_terminator_and_stray_target_are_dead_ends() {
    let b = body(vec![Terminator::Unsupported, Terminator::Goto(7), Terminator::Return]);
    let mut g: TaintAnalyzer<BehaviorFlag> = TaintAnalyzer::new(&b);
    g.mark_source(0, &flag(READ_FLOW));
    g.mark_source(1, &flag(COPY_FLOW));
    g.mark_sink(2);
    assert!(g.propagate().is_empty());
}

#[test]
fn marking_a_source_twice_is_idempotent() {
    let b = body(vec![Terminator::Goto(1), Terminator::Return]);
    let mut once: TaintAnalyzer<BehaviorFlag> = TaintAnalyzer::new(&b);
    once.mark_source(0, &flag(READ_FLOW));
    once.mark_sink(1);
    let mut twice: TaintAnalyzer<BehaviorFlag> = TaintAnalyzer::new(&b);
    twice.mark_source(0, &flag(READ_FLOW));
    twice.mark_source(0, &flag(READ_FLOW));
    twice.mark_sink(1);
    assert_eq!(once.propagate().bits(), twice.propagate().bits());
}

#[test]
fn adding_a_source_never_removes_a_flag() {
    let b = body(vec![Terminator::Goto(1), Terminator::Goto(2), Terminator::Return]);
    let mut g: TaintAnalyzer<BehaviorFlag> = TaintAnalyzer::new(&b);
    g.mark_source(0, &flag(READ_FLOW));
    g.mark_sink(1);
    let before = g.propagate();
    g.mark_source(2, &flag(TRANSMUTE));
    g.mark_source(1, &flag(VEC_SET_LEN));
    let after = g.propagate();
    assert!(after.contains(&before));
    assert_eq!(after.bits(), READ_FLOW | VEC_SET_LEN);
}

#[test]
fn no_sink_gives_empty_flag() {
    let b = body(vec![Terminator::Goto(1), Terminator::Goto(0)]);
    let mut g: TaintAnalyzer<BehaviorFlag> = TaintAnalyzer::new(&b);
    g.mark_source(0, &flag(READ_FLOW));
    g.mark_source(1, &flag(VEC_FROM_RAW));
    assert_eq!(g.propagate().bits(), 0);
}

#[test]
fn source_sink_on_cycle_counts_once() {
    let b = body(vec![Terminator::Goto(1), Terminator::Goto(0)]);
    let mut g: TaintAnalyzer<BehaviorFlag> = TaintAnalyzer::new(&b);
    g.mark_source(0, &flag(READ_FLOW | COPY_FLOW));
    g.mark_sink(0);
    assert_eq!(g.propagate().bits(), READ_FLOW | COPY_FLOW);
    let self_loop = body(vec![Terminator::Goto(0)]);
    let mut h: TaintAnalyzer<BehaviorFlag> = TaintAnalyzer::new(&self_loop);
    h.mark_source(0, &flag(TRANSMUTE));
    h.mark_sink(0);
    assert_eq!(h.propagate().bits(), TRANSMUTE);
}

#[test]
fn flag_operations() {
    let mut f = BehaviorFlag::empty();
    assert!(f.is_empty());
    f.join(&flag(READ_FLOW));
    f.join(&flag(TRANSMUTE));
    assert_eq!(f.bits(), READ_FLOW | TRANSMUTE);
    assert!(f.contains(&flag(TRANSMUTE)));
    assert!(!f.contains(&flag(COPY_FLOW)));
    assert!(!f.is_empty());
}

#[test]
fn report_level_tiers() {
    assert_eq!(flag(VEC_SET_LEN).report_level(), ReportLevel::Error);
    assert_eq!(flag(VEC_FROM_RAW | READ_FLOW).report_level(), ReportLevel::Error);
    assert_eq!(flag(READ_FLOW).report_level(), ReportLevel::Warning);
    assert_eq!(flag(WRITE_FLOW | TRANSMUTE).report_level(), ReportLevel::Warning);
    assert_eq!(flag(TRANSMUTE).report_level(), ReportLevel::Info);
    assert!(ReportLevel::Error.at_least(&ReportLevel::Warning));
    assert!(!ReportLevel::Info.at_least(&ReportLevel::Warning));
}
