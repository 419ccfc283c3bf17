use rudra_dataflow::context::{copy_trait_ids, Ctx, CtxOwner};
use rudra_dataflow::iter::LocalTraitIter;
use rudra_dataflow::program::{
    GenericArgs, Loc, Name, Program, RefKind, Span, TraitDecl, TraitImpl, Ty,
};
use rudra_dataflow::report::ReportLevel;

fn name(path: &[&str]) -> Name {
    Name { elems: path.iter().map(|s| s.to_string()).collect() }
}

fn trait_impl(def_id: usize, trait_id: usize, types: Vec<Ty>) -> TraitImpl {
    TraitImpl { def_id, trait_id, generics: GenericArgs { types, trait_refs: vec![] } }
}

fn program(trait_decls: Vec<TraitDecl>, trait_impls: Vec<TraitImpl>) -> Program {
    Program { files: vec![], fun_decls: vec![], bodies: vec![], trait_decls, trait_impls }
}

fn copy_program() -> Program {
    program(
        vec![
            TraitDecl { def_id: 0, name: name(&["core", "marker", "Copy"]) },
            TraitDecl { def_id: 1, name: name(&["core", "clone", "Clone"]) },
        ],
        vec![
            trait_impl(10, 0, vec![Ty::Adt(5)]),
            trait_impl(11, 1, vec![Ty::Adt(6)]),
            trait_impl(12, 0, vec![Ty::Literal]),
        ],
    )
}

#[test]
fn copy_impls_register_nominal_types() {
    let ctx = CtxOwner::new(copy_program(), ReportLevel::Info);
    assert!(ctx.is_copyable(&Ty::Adt(5)));
    assert!(!ctx.is_copyable(&Ty::Adt(6)));
    assert!(!ctx.is_copyable(&Ty::Adt(7)));
    assert_eq!(ctx.report_level(), ReportLevel::Info);
}

#[test]
fn no_copy_trait_means_no_copyable_nominal_type() {
    let p = program(vec![], vec![trait_impl(10, 0, vec![Ty::Adt(5)])]);
    let ctx = CtxOwner::new(p, ReportLevel::Warning);
    assert!(!ctx.is_copyable(&Ty::Adt(5)));
}

#[test]
fn tuple_copyable_iff_all_elements_are() {
    let ctx = CtxOwner::new(copy_program(), ReportLevel::Info);
    assert!(ctx.is_copyable(&Ty::Tuple(vec![Ty::Adt(5), Ty::Literal])));
    assert!(!ctx.is_copyable(&Ty::Tuple(vec![Ty::Adt(5), Ty::Adt(6)])));
    assert!(ctx.is_copyable(&Ty::Tuple(vec![])));
    assert!(ctx.is_copyable(&Ty::Tuple(vec![Ty::Tuple(vec![Ty::Literal])])));
}

#[test]
fn references_and_pointers() {
    let ctx = CtxOwner::new(copy_program(), ReportLevel::Info);
    assert!(ctx.is_copyable(&Ty::Ref(Box::new(Ty::Adt(6)), RefKind::Shared)));
    assert!(!ctx.is_copyable(&Ty::Ref(Box::new(Ty::Adt(5)), RefKind::Mut)));
    assert!(ctx.is_copyable(&Ty::RawPtr(Box::new(Ty::TypeVar), RefKind::Mut)));
    assert!(!ctx.is_copyable(&Ty::TypeVar));
    assert!(!ctx.is_copyable(&Ty::DynTrait));
    assert!(!ctx.is_copyable(&Ty::Never));
    assert!(!ctx.is_copyable(&Ty::Builtin));
}

#[test]
fn copy_trait_ids_lists_every_match() {
    assert_eq!(copy_trait_ids(&copy_program()), vec![0]);
    let two = program(
        vec![
            TraitDecl { def_id: 3, name: name(&["core", "marker", "Copy"]) },
            TraitDecl { def_id: 4, name: name(&["core", "marker", "Copy"]) },
        ],
        vec![],
    );
    assert_eq!(copy_trait_ids(&two), vec![3, 4]);
}

#[test]
fn trait_impl_map_keeps_undeclared_traits() {
    let p = program(
        vec![TraitDecl { def_id: 0, name: name(&["t"]) }, TraitDecl { def_id: 1, name: name(&["u"]) }],
        vec![trait_impl(10, 0, vec![]), trait_impl(11, 5, vec![]), trait_impl(12, 0, vec![])],
    );
    let ctx = Ctx::new(p);
    let mut zero = ctx.trait_impl_map.get(&0).unwrap().clone();
    zero.sort();
    assert_eq!(zero, vec![10, 12]);
    assert_eq!(ctx.trait_impl_map.get(&1).unwrap().len(), 0);
    assert_eq!(ctx.trait_impl_map.get(&5).unwrap(), &vec![11]);
    assert!(ctx.trait_impl_map.get(&2).is_none());
}

#[test]
fn local_trait_iter_walks_impls() {
    let ctx = CtxOwner::new(copy_program(), ReportLevel::Info);
    let mut it = LocalTraitIter::new(&ctx, 0);
    let mut seen = vec![];
    while let Some(id) = it.next() {
        seen.push(id);
    }
    seen.sort();
    assert_eq!(seen, vec![10, 12]);
    let mut none = LocalTraitIter::new(&ctx, 9);
    assert_eq!(none.next(), None);
}

#[test]
fn span_type_is_plain_data() {
    let s = Span { file_id: 1, beg: Loc { line: 1, col: 2 }, end: Loc { line: 3, col: 4 } };
    let t = s;
    assert_eq!(s, t);
}
