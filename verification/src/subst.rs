//! Variable substitution over a decoded template: every text the decode chain
//! holds — each level's pre and post and the innermost core — receives the
//! binding pairs, applied left to right.

use vstd::prelude::*;

verus! {

use crate::decode::{Decoded, Level, levels_view};
use crate::text::{apply_bindings, apply_pairs, views_of};

/// Each level's texts with the binding pairs applied.
pub open spec fn subst_levels(
    lv: Seq<(Seq<u8>, Seq<u8>)>,
    pairs: Seq<Seq<u8>>,
) -> Seq<(Seq<u8>, Seq<u8>)> {
    lv.map_values(|l: (Seq<u8>, Seq<u8>)| (apply_pairs(l.0, pairs), apply_pairs(l.1, pairs)))
}

/// With no usable pairs, substitution leaves every text unchanged.
pub proof fn lemma_empty_table_substitutes_nothing(
    lv: Seq<(Seq<u8>, Seq<u8>)>,
    core: Seq<u8>,
    pairs: Seq<Seq<u8>>,
)
    requires
        pairs.len() < 2,
    ensures
        subst_levels(lv, pairs) == lv,
        apply_pairs(core, pairs) == core,
{
    assert(subst_levels(lv, pairs) =~~= lv);
}

pub fn substitute(d: Decoded, pairs: &Vec<Vec<u8>>) -> (r: Decoded)
    ensures
        levels_view(r.levels@) == subst_levels(levels_view(d.levels@), views_of(pairs@)),
        r.core@ == apply_pairs(d.core@, views_of(pairs@)),
{
    let Decoded { levels, core } = d;
    let ghost lv0 = levels_view(levels@);
    let ghost pv = views_of(pairs@);
    let mut new_levels: Vec<Level> = Vec::new();
    let mut i: usize = 0;
    while i < levels.len()
        invariant
            i <= levels@.len(),
            lv0 == levels_view(levels@),
            pv == views_of(pairs@),
            new_levels@.len() == i,
            forall|j: int| 0 <= j < i ==> #[trigger] new_levels@[j].pre@ == apply_pairs(
                levels@[j].pre@,
                pv,
            ) && new_levels@[j].post@ == apply_pairs(levels@[j].post@, pv),
        decreases levels@.len() - i,
    {
        let pre = apply_bindings(&levels[i].pre, pairs);
        let post = apply_bindings(&levels[i].post, pairs);
        new_levels.push(Level { pre, post });
        i += 1;
    }
    let new_core = apply_bindings(&core, pairs);
    proof {
        assert(levels_view(new_levels@) =~~= subst_levels(lv0, pv));
    }
    Decoded { levels: new_levels, core: new_core }
}

} // verus!
