use rudra_dataflow::paths::{slice_to_string, Catalog, PathSet, Pattern, PatternElem, PatternError};
use rudra_dataflow::program::{Name, Program};

fn name(path: &[&str]) -> Name {
    Name { elems: path.iter().map(|s| s.to_string()).collect() }
}

fn empty_program() -> Program {
    Program {
        files: vec![],
        fun_decls: vec![],
        bodies: vec![],
        trait_decls: vec![],
        trait_impls: vec![],
    }
}

#[test]
fn wildcard_segment_matches_any_segment() {
    let p = Pattern::parse("a::b::<_>::c").unwrap();
    let prog = empty_program();
    assert!(p.matches(&prog, &name(&["a", "b", "X", "c"])));
    assert!(p.matches(&prog, &name(&["a", "b", "<Vec<T>>", "c"])));
    assert!(p.matches(&prog, &name(&["a", "b", "anything_else", "c"])));
}

#[test]
fn wildcard_pattern_rejects_other_lengths() {
    let p = Pattern::parse("a::b::<_>::c").unwrap();
    let prog = empty_program();
    assert!(!p.matches(&prog, &name(&["a", "b", "c"])));
    assert!(!p.matches(&prog, &name(&["a", "b", "X", "Y", "c"])));
}

#[test]
fn wildcard_pattern_rejects_exact_mismatch() {
    let p = Pattern::parse("a::b::<_>::c").unwrap();
    let prog = empty_program();
    assert!(!p.matches(&prog, &name(&["a", "z", "X", "c"])));
    assert!(!p.matches(&prog, &name(&["a", "b", "X", "d"])));
}

#[test]
fn parse_splits_outside_brackets() {
    let p = Pattern::parse("core::ptr::<impl core::X>::read").unwrap();
    assert_eq!(p.elems.len(), 4);
    match &p.elems[2] {
        PatternElem::Exact(s) => assert_eq!(s, "<impl core::X>"),
        PatternElem::Wildcard => panic!("exact segment expected"),
    }
    let q = Pattern::parse("_::x").unwrap();
    assert!(matches!(q.elems[0], PatternElem::Wildcard));
}

#[test]
fn parse_rejects_empty_string() {
    assert_eq!(Pattern::parse("").unwrap_err(), PatternError::Empty);
}

#[test]
fn parse_rejects_unbalanced_brackets() {
    assert_eq!(Pattern::parse("a::<b").unwrap_err(), PatternError::Unbalanced);
    assert_eq!(Pattern::parse("a>::b").unwrap_err(), PatternError::Unbalanced);
}

#[test]
fn slice_to_string_joins_segments() {
    assert_eq!(slice_to_string(&["core", "ptr", "read"]), "core::ptr::read");
    assert_eq!(slice_to_string(&["one"]), "one");
    assert_eq!(slice_to_string(&[]), "");
}

#[test]
fn path_set_returns_first_catalog_match() {
    let set = PathSet::new(&[&["a", "b"], &["a", "<_>"], &["a", "b"]]).unwrap();
    let prog = empty_program();
    assert_eq!(set.contains(&prog, &name(&["a", "b"])), Some("a::b".to_string()));
    assert_eq!(set.find(&name(&["a", "b"])), Some(0));
    let later = PathSet::new(&[&["x"], &["a", "<_>"], &["a", "b"]]).unwrap();
    assert_eq!(later.contains(&prog, &name(&["a", "b"])), Some("a::<_>".to_string()));
    assert_eq!(later.find(&name(&["a", "b"])), Some(1));
    assert_eq!(later.contains(&prog, &name(&["b"])), None);
}

#[test]
fn path_set_reports_parse_error() {
    assert_eq!(PathSet::new(&[&["a"], &["<b"]]).unwrap_err(), PatternError::Unbalanced);
}

#[test]
fn catalog_parses() {
    assert!(Catalog::new().is_ok());
}
