//! The re-encoder: walks a decode chain from the innermost core outward,
//! base64-encoding each level's inner text and splicing it back, quoted,
//! between the level's pre and post texts. Encoding the deepest level first
//! mirrors decoding exactly, so the nesting the decoder removed is restored.

use vstd::prelude::*;

verus! {

use crate::decode::{Decoded, levels_view, quote};
use crate::ext::{base64_text_of, encode_base64};
use crate::text::extend;

/// The text a decode chain re-encodes to: the innermost core, then outward,
/// each level wrapping the base64 of the text below between its pre and post.
pub open spec fn encode_chain(levels: Seq<(Seq<u8>, Seq<u8>)>, core: Seq<u8>) -> Seq<u8>
    decreases levels.len(),
{
    if levels.len() == 0 {
        core
    } else {
        levels[0].0 + quote() + base64_text_of(encode_chain(levels.skip(1), core)) + quote()
            + levels[0].1
    }
}

pub fn encode(d: Decoded) -> (r: Vec<u8>)
    ensures
        r@ == encode_chain(levels_view(d.levels@), d.core@),
{
    let Decoded { levels, core } = d;
    let ghost lv = levels_view(levels@);
    let ghost core0 = core@;
    let mut acc = core;
    let mut i: usize = levels.len();
    proof {
        assert(lv.skip(levels@.len() as int) =~= Seq::<(Seq<u8>, Seq<u8>)>::empty());
    }
    while i > 0
        invariant
            i <= levels@.len(),
            lv == levels_view(levels@),
            acc@ == encode_chain(lv.skip(i as int), core0),
        decreases i,
    {
        i -= 1;
        let encoded = encode_base64(&acc);
        let mut next: Vec<u8> = Vec::new();
        extend(&mut next, &levels[i].pre);
        next.push(34);
        extend(&mut next, &encoded);
        next.push(34);
        extend(&mut next, &levels[i].post);
        proof {
            assert(lv.skip(i as int)[0] == lv[i as int]);
            assert(lv.skip(i as int).skip(1) =~= lv.skip(i + 1));
            assert(next@ =~= lv[i as int].0 + quote() + base64_text_of(
                encode_chain(lv.skip(i + 1), core0),
            ) + quote() + lv[i as int].1);
        }
        acc = next;
    }
    proof {
        assert(lv.skip(0) =~= lv);
    }
    acc
}

} // verus!
