//! Whole-program facts that every function's analysis reads: which impls
//! implement each trait, and which nominal types are bitwise-copyable.
use std::collections::{HashMap, HashSet};
use vstd::prelude::*;

use crate::graph::lemma_push_contains;
use crate::paths::{spec_matches, Pattern, PatternElem};
use crate::program::{Program, RefKind, TraitDecl, TraitImpl, Ty};
use crate::report::ReportLevel;

verus! {

broadcast use vstd::std_specs::hash::group_hash_axioms;

/// The pattern of the copy-marker trait, `core::marker::Copy`.
pub open spec fn copy_marker_pattern() -> Seq<Option<Seq<char>>> {
    seq![Some("core"@), Some("marker"@), Some("Copy"@)]
}

pub open spec fn is_copy_marker(d: TraitDecl) -> bool {
    spec_matches(copy_marker_pattern(), d.name@)
}

/// The ids of the copy-marker trait declarations among the first `n`, in order.
pub open spec fn copy_trait_ids_upto(decls: Seq<TraitDecl>, n: int) -> Seq<usize>
    decreases n,
{
    if n <= 0 {
        Seq::empty()
    } else if is_copy_marker(decls[n - 1]) {
        copy_trait_ids_upto(decls, n - 1).push(decls[n - 1].def_id)
    } else {
        copy_trait_ids_upto(decls, n - 1)
    }
}

/// The ids of the trait declarations that match the copy-marker pattern.
pub open spec fn spec_copy_trait_ids(program: Program) -> Seq<usize> {
    copy_trait_ids_upto(program.trait_decls@, program.trait_decls@.len() as int)
}

/// An impl of trait `trait_id` whose first generic type argument is the
/// nominal type `ty_id`.
pub open spec fn impl_targets(im: TraitImpl, trait_id: usize, ty_id: usize) -> bool {
    &&& im.trait_id == trait_id
    &&& im.generics.types@.len() > 0
    &&& im.generics.types@[0] matches Ty::Adt(id) && id == ty_id
}

/// The nominal types that some impl of the copy-marker trait targets; none
/// when the program declares no such trait.
pub open spec fn spec_copyable(program: Program) -> Set<usize> {
    let ids = spec_copy_trait_ids(program);
    if ids.len() == 0 {
        Set::empty()
    } else {
        Set::new(
            |ty_id: usize|
                exists|k: int|
                    0 <= k < program.trait_impls@.len() && impl_targets(
                        #[trigger] program.trait_impls@[k],
                        ids[0],
                        ty_id,
                    ),
        )
    }
}

/// Whether a type is bitwise-copyable, as far as `copyable` tells for
/// nominal types: tuples when all elements are, shared references, raw
/// pointers and literals always, unique references, type variables and
/// dynamically dispatched types never.
pub open spec fn spec_is_copyable(copyable: Set<usize>, ty: Ty) -> bool
    decreases ty,
{
    match ty {
        Ty::Tuple(elems) => all_copyable(copyable, elems@),
        Ty::Adt(id) => copyable.contains(id),
        Ty::Literal => true,
        Ty::Ref(_, kind) => kind == RefKind::Shared,
        Ty::RawPtr(_, _) => true,
        _ => false,
    }
}

/// Whether every type of `tys` is copyable.
pub open spec fn all_copyable(copyable: Set<usize>, tys: Seq<Ty>) -> bool
    decreases tys,
{
    if tys.len() == 0 {
        true
    } else {
        all_copyable(copyable, tys.drop_last()) && spec_is_copyable(copyable, tys.last())
    }
}

/// `all_copyable` holds exactly when each element is copyable.
pub proof fn lemma_all_copyable(copyable: Set<usize>, tys: Seq<Ty>)
    ensures
        all_copyable(copyable, tys) <==> forall|i: int|
            0 <= i < tys.len() ==> #[trigger] spec_is_copyable(copyable, tys[i]),
    decreases tys.len(),
{
    if tys.len() > 0 {
        let init = tys.drop_last();
        lemma_all_copyable(copyable, init);
        if forall|i: int| 0 <= i < tys.len() ==> #[trigger] spec_is_copyable(copyable, tys[i]) {
            assert forall|i: int| 0 <= i < init.len() implies #[trigger] spec_is_copyable(
                copyable,
                init[i],
            ) by {
                assert(init[i] == tys[i]);
            }
            assert(spec_is_copyable(copyable, tys[tys.len() - 1]));
        }
        if all_copyable(copyable, tys) {
            assert forall|i: int| 0 <= i < tys.len() implies #[trigger] spec_is_copyable(
                copyable,
                tys[i],
            ) by {
                if i < init.len() {
                    assert(init[i] == tys[i]);
                }
            }
        }
    }
}

/// A tuple is copyable exactly when all its elements are; a shared
/// reference always is and a unique reference never is, whatever it points to.
pub proof fn lemma_copyable_structure(copyable: Set<usize>, elems: Vec<Ty>, pointee: Box<Ty>)
    ensures
        spec_is_copyable(copyable, Ty::Tuple(elems)) <==> forall|i: int|
            0 <= i < elems@.len() ==> #[trigger] spec_is_copyable(copyable, elems@[i]),
        spec_is_copyable(copyable, Ty::Ref(pointee, RefKind::Shared)),
        !spec_is_copyable(copyable, Ty::Ref(pointee, RefKind::Mut)),
{
    lemma_all_copyable(copyable, elems@);
}

/// The pattern `core::marker::Copy`, written segment by segment.
fn copy_marker() -> (r: Pattern)
    ensures
        r@ == copy_marker_pattern(),
{
    let r = Pattern {
        elems: vec![
            PatternElem::Exact("core".to_owned()),
            PatternElem::Exact("marker".to_owned()),
            PatternElem::Exact("Copy".to_owned()),
        ],
    };
    assert(r@ =~= copy_marker_pattern());
    r
}

/// The ids of the trait declarations that match `core::marker::Copy`, in
/// declaration order.
pub fn copy_trait_ids(program: &Program) -> (r: Vec<usize>)
    ensures
        r@ == spec_copy_trait_ids(*program),
{
    let pat = copy_marker();
    let mut r: Vec<usize> = Vec::new();
    let mut i: usize = 0;
    while i < program.trait_decls.len()
        invariant
            pat@ == copy_marker_pattern(),
            i <= program.trait_decls@.len(),
            r@ == copy_trait_ids_upto(program.trait_decls@, i as int),
        decreases program.trait_decls@.len() - i,
    {
        if pat.matches(program, &program.trait_decls[i].name) {
            r.push(program.trait_decls[i].def_id);
        }
        i = i + 1;
    }
    r
}

/// The copyable nominal types of a program with at most one copy-marker trait.
fn collect_copyable(program: &Program) -> (r: HashSet<usize>)
    requires
        spec_copy_trait_ids(*program).len() <= 1,
    ensures
        r@ == spec_copyable(*program),
{
    let ids = copy_trait_ids(program);
    let mut r: HashSet<usize> = HashSet::new();
    if ids.len() == 0 {
        assert(r@ =~= spec_copyable(*program));
        return r;
    }
    let copy_id = ids[0];
    let ghost impls = program.trait_impls@;
    let mut k: usize = 0;
    while k < program.trait_impls.len()
        invariant
            impls == program.trait_impls@,
            ids@ == spec_copy_trait_ids(*program),
            ids@.len() == 1,
            copy_id == ids@[0],
            k <= impls.len(),
            forall|t: usize|
                r@.contains(t) <==> exists|j: int|
                    0 <= j < k && impl_targets(#[trigger] impls[j], copy_id, t),
        decreases impls.len() - k,
    {
        let im = &program.trait_impls[k];
        if im.trait_id == copy_id && im.generics.types.len() > 0 {
            if let Ty::Adt(id) = &im.generics.types[0] {
                r.insert(*id);
            }
        }
        proof {
            assert forall|t: usize|
                r@.contains(t) <==> exists|j: int|
                    0 <= j < k + 1 && impl_targets(#[trigger] impls[j], copy_id, t) by {
                if impl_targets(impls[k as int], copy_id, t) {
                    assert(r@.contains(t));
                }
            }
        }
        k = k + 1;
    }
    assert(r@ =~= spec_copyable(*program));
    r
}


/// The ids of the impls, among the first `n`, of trait `t`.
pub open spec fn impls_of(impls: Seq<TraitImpl>, n: int, t: usize) -> Set<usize> {
    Set::new(
        |id: usize|
            exists|k: int|
                0 <= k < n && #[trigger] impls[k].trait_id == t && impls[k].def_id == id,
    )
}

/// `t` is the id of a trait declaration of `decls`.
pub open spec fn declares_trait(decls: Seq<TraitDecl>, t: usize) -> bool {
    exists|i: int| 0 <= i < decls.len() && #[trigger] decls[i].def_id == t
}

/// `t` is the trait of one of the first `n` impls.
pub open spec fn implemented_upto(impls: Seq<TraitImpl>, n: int, t: usize) -> bool {
    exists|k: int| 0 <= k < n && #[trigger] impls[k].trait_id == t
}

/// `m` maps every declared or implemented trait, and no other, to the ids of
/// its impls among the first `n`, each once.
pub open spec fn trait_map_upto(program: Program, n: int, m: Map<usize, Vec<usize>>) -> bool {
    &&& forall|t: usize|
        m.contains_key(t) <==> (declares_trait(program.trait_decls@, t) || implemented_upto(
            program.trait_impls@,
            n,
            t,
        ))
    &&& forall|t: usize, id: usize|
        #![trigger m[t]@.contains(id)]
        m.contains_key(t) ==> (m[t]@.contains(id) <==> impls_of(program.trait_impls@, n, t).contains(
            id,
        ))
    &&& forall|t: usize| m.contains_key(t) ==> (#[trigger] m[t])@.no_duplicates()
}

/// The map of a whole program: every impl taken into account.
pub open spec fn trait_impl_map_of(program: Program, m: Map<usize, Vec<usize>>) -> bool {
    trait_map_upto(program, program.trait_impls@.len() as int, m)
}

/// Maps each trait declared or implemented in `program` to its impls. Impls
/// of a trait that has no declaration are kept too.
pub fn build_trait_impl_map(program: &Program) -> (r: HashMap<usize, Vec<usize>>)
    ensures
        trait_impl_map_of(*program, r@),
{
    let ghost decls = program.trait_decls@;
    let ghost impls = program.trait_impls@;
    let mut m: HashMap<usize, Vec<usize>> = HashMap::new();
    let mut i: usize = 0;
    while i < program.trait_decls.len()
        invariant
            decls == program.trait_decls@,
            i <= decls.len(),
            forall|t: usize|
                m@.contains_key(t) <==> exists|j: int| 0 <= j < i && #[trigger] decls[j].def_id == t,
            forall|t: usize| m@.contains_key(t) ==> (#[trigger] m@[t])@.len() == 0,
        decreases decls.len() - i,
    {
        m.insert(program.trait_decls[i].def_id, Vec::new());
        proof {
            assert forall|t: usize|
                m@.contains_key(t) <==> exists|j: int|
                    0 <= j < i + 1 && #[trigger] decls[j].def_id == t by {
                if t == decls[i as int].def_id {
                    assert(decls[i as int].def_id == t);
                }
            }
        }
        i = i + 1;
    }
    proof {
        assert forall|t: usize, id: usize|
            #![trigger m@[t]@.contains(id)]
            m@.contains_key(t) implies (m@[t]@.contains(id) <==> impls_of(impls, 0, t).contains(
                id,
            )) by {}
    }
    let mut k: usize = 0;
    while k < program.trait_impls.len()
        invariant
            decls == program.trait_decls@,
            impls == program.trait_impls@,
            k <= impls.len(),
            trait_map_upto(*program, k as int, m@),
        decreases impls.len() - k,
    {
        let t = program.trait_impls[k].trait_id;
        let id = program.trait_impls[k].def_id;
        let ghost before = m@;
        let mut ids = match m.remove(&t) {
            Some(v) => v,
            None => Vec::new(),
        };
        proof {
            if !before.contains_key(t) {
                assert forall|x: usize| !impls_of(impls, k as int, t).contains(x) by {
                    if impls_of(impls, k as int, t).contains(x) {
                        let j = choose|j: int|
                            0 <= j < k && #[trigger] impls[j].trait_id == t && impls[j].def_id == x;
                        assert(implemented_upto(impls, k as int, t));
                    }
                }
            }
        }
        let ghost old_ids = ids@;
        let mut present = false;
        let mut j: usize = 0;
        while j < ids.len()
            invariant
                j <= ids@.len(),
                ids@ == old_ids,
                present <==> ids@.subrange(0, j as int).contains(id),
            decreases ids@.len() - j,
        {
            proof {
                lemma_push_contains(ids@.subrange(0, j as int), ids@[j as int], id);
                assert(ids@.subrange(0, j + 1) == ids@.subrange(0, j as int).push(ids@[j as int]));
            }
            if ids[j] == id {
                present = true;
            }
            j = j + 1;
        }
        proof {
            assert(ids@.subrange(0, j as int) == ids@);
        }
        if !present {
            ids.push(id);
        }
        proof {
            assert forall|x: usize| ids@.contains(x) <==> (old_ids.contains(x) || x == id) by {
                if !present {
                    lemma_push_contains(old_ids, id, x);
                }
            }
            if !present {
                assert forall|a: int, b: int|
                    0 <= a < ids@.len() && 0 <= b < ids@.len() && a != b implies ids@[a]
                    != ids@[b] by {
                    if a == old_ids.len() as int {
                        assert(old_ids.contains(ids@[b]) || true);
                        assert(ids@[b] == old_ids[b]);
                    } else if b == old_ids.len() as int {
                        assert(ids@[a] == old_ids[a]);
                    }
                }
            }
        }
        m.insert(t, ids);
        proof {
            let n = k as int + 1;
            assert forall|u: usize|
                m@.contains_key(u) <==> (declares_trait(decls, u) || implemented_upto(
                    impls,
                    n,
                    u,
                )) by {
                if implemented_upto(impls, n, u) && u != t {
                    let j = choose|j: int| 0 <= j < n && #[trigger] impls[j].trait_id == u;
                    assert(implemented_upto(impls, k as int, u));
                }
                if u == t {
                    assert(impls[k as int].trait_id == t);
                }
                if implemented_upto(impls, k as int, u) {
                    let j = choose|j: int| 0 <= j < k && #[trigger] impls[j].trait_id == u;
                    assert(impls[j].trait_id == u);
                }
            }
            assert forall|u: usize, x: usize|
                #![trigger m@[u]@.contains(x)]
                m@.contains_key(u) implies (m@[u]@.contains(x) <==> impls_of(
                    impls,
                    n,
                    u,
                ).contains(x)) by {
                if impls_of(impls, n, u).contains(x) {
                    let j = choose|j: int|
                        0 <= j < n && #[trigger] impls[j].trait_id == u && impls[j].def_id == x;
                    if j < k {
                        assert(impls_of(impls, k as int, u).contains(x));
                    }
                }
                if u == t && old_ids.contains(x) {
                    if before.contains_key(t) {
                        assert(before[t]@.contains(x));
                    }
                    let j = choose|j: int|
                        0 <= j < k && #[trigger] impls[j].trait_id == u && impls[j].def_id == x;
                    assert(impls_of(impls, n, u).contains(x));
                }
                if u == t && x == id {
                    assert(impls[k as int].trait_id == u && impls[k as int].def_id == x);
                }
                if u != t && m@[u]@.contains(x) {
                    assert(before[u]@.contains(x));
                    let j = choose|j: int|
                        0 <= j < k && #[trigger] impls[j].trait_id == u && impls[j].def_id == x;
                    assert(impls_of(impls, n, u).contains(x));
                }
            }
        }
        k = k + 1;
    }
    m
}

/// The program together with its trait-to-impls map.
pub struct Ctx {
    pub crate_data: Program,
    /// The map from trait declaration ids to the ids of their impls.
    pub trait_impl_map: HashMap<usize, Vec<usize>>,
}

impl Ctx {
    pub fn new(crate_data: Program) -> (r: Ctx)
        ensures
            r.crate_data == crate_data,
            trait_impl_map_of(crate_data, r.trait_impl_map@),
    {
        let trait_impl_map = build_trait_impl_map(&crate_data);
        Ctx { crate_data, trait_impl_map }
    }
}

/// The whole-program context of the analyses.
pub struct CtxOwner {
    pub crate_data: Program,
    /// The map from trait declaration ids to the ids of their impls.
    pub trait_impl_map: HashMap<usize, Vec<usize>>,
    /// The copy-marker trait's implementing nominal types. This forgets the
    /// impls' own bounds: an under-approximation of the copyable types.
    pub copyable: HashSet<usize>,
    pub report_level: ReportLevel,
}

impl CtxOwner {
    /// Builds the context of `crate_data`, which declares at most one trait
    /// that matches the copy-marker pattern.
    pub fn new(crate_data: Program, report_level: ReportLevel) -> (r: CtxOwner)
        requires
            spec_copy_trait_ids(crate_data).len() <= 1,
        ensures
            r.crate_data == crate_data,
            trait_impl_map_of(crate_data, r.trait_impl_map@),
            r.copyable@ == spec_copyable(crate_data),
            r.report_level == report_level,
    {
        let trait_impl_map = build_trait_impl_map(&crate_data);
        let copyable = collect_copyable(&crate_data);
        CtxOwner { crate_data, trait_impl_map, copyable, report_level }
    }

    /// Whether values of `ty` may be duplicated bitwise.
    pub fn is_copyable(&self, ty: &Ty) -> (r: bool)
        ensures
            r == spec_is_copyable(self.copyable@, *ty),
        decreases ty,
    {
        match ty {
            Ty::Tuple(elems) => {
                let mut i: usize = 0;
                while i < elems.len()
                    invariant
                        *ty == Ty::Tuple(*elems),
                        i <= elems@.len(),
                        all_copyable(self.copyable@, elems@.subrange(0, i as int)),
                    decreases elems@.len() - i,
                {
                    assert((*ty)->Tuple_0 == *elems);
                    assert(decreases_to!(*ty => (*ty)->Tuple_0));
                    assert(decreases_to!(*elems => elems@));
                    assert(decreases_to!(elems@ => elems@[i as int]));
                    if !self.is_copyable(&elems[i]) {
                        proof {
                            lemma_all_copyable(self.copyable@, elems@);
                        }
                        return false;
                    }
                    assert(elems@.subrange(0, i + 1).drop_last() == elems@.subrange(0, i as int));
                    i = i + 1;
                }
                assert(elems@.subrange(0, i as int) == elems@);
                true
            },
            Ty::Adt(id) => self.copyable.contains(id),
            Ty::Literal => true,
            Ty::Ref(_, kind) => match kind {
                RefKind::Shared => true,
                RefKind::Mut => false,
            },
            Ty::RawPtr(_, _) => true,
            _ => false,
        }
    }

    /// The least severity that gets reported.
    pub fn report_level(&self) -> (r: ReportLevel)
        ensures
            r == self.report_level,
    {
        self.report_level
    }
}

} // verus!
