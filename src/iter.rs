//! Iteration over the impls of one trait.
use vstd::prelude::*;

use crate::context::CtxOwner;

verus! {

broadcast use vstd::std_specs::hash::group_hash_axioms;

/// The impls of one trait, handed out one at a time.
pub struct LocalTraitIter {
    inner: Vec<usize>,
    pos: usize,
}

impl View for LocalTraitIter {
    type V = Seq<usize>;

    /// The impl ids not handed out yet.
    closed spec fn view(&self) -> Seq<usize> {
        self.inner@.subrange(self.pos as int, self.inner@.len() as int)
    }
}

impl LocalTraitIter {
    pub closed spec fn wf(&self) -> bool {
        self.pos <= self.inner@.len()
    }

    /// The impls that `ctx` records for the trait `trait_def_id`; none when
    /// it records no such trait.
    pub fn new(ctx: &CtxOwner, trait_def_id: usize) -> (r: LocalTraitIter)
        ensures
            r.wf(),
            ctx.trait_impl_map@.contains_key(trait_def_id) ==> r@ == ctx.trait_impl_map@[trait_def_id]@,
            !ctx.trait_impl_map@.contains_key(trait_def_id) ==> r@ == Seq::<usize>::empty(),
    {
        let mut inner: Vec<usize> = Vec::new();
        match ctx.trait_impl_map.get(&trait_def_id) {
            Some(ids) => {
                let mut k: usize = 0;
                while k < ids.len()
                    invariant
                        k <= ids@.len(),
                        inner@ == ids@.subrange(0, k as int),
                    decreases ids@.len() - k,
                {
                    inner.push(ids[k]);
                    k = k + 1;
                }
            },
            None => {},
        }
        let r = LocalTraitIter { inner, pos: 0 };
        assert(r@ =~= r.inner@);
        r
    }

    /// The next impl id, if any is left.
    pub fn next(&mut self) -> (r: Option<usize>)
        requires
            old(self).wf(),
        ensures
            final(self).wf(),
            old(self)@.len() == 0 ==> r is None && final(self)@ == old(self)@,
            old(self)@.len() > 0 ==> r == Some(old(self)@[0]) && final(self)@ == old(self)@.drop_first(),
    {
        if self.pos < self.inner.len() {
            let id = self.inner[self.pos];
            self.pos = self.pos + 1;
            assert(self@ =~= old(self)@.drop_first());
            Some(id)
        } else {
            None
        }
    }
}

} // verus!
