//! Byte-level text utilities: substring search, global replacement, space
//! stripping, and the left-to-right application of name/value binding pairs.

use vstd::prelude::*;

verus! {

/// First position at or after `from` where `pat` occurs as a sub-sequence of `text`.
pub open spec fn find_from(text: Seq<u8>, pat: Seq<u8>, from: int) -> Option<int>
    decreases text.len() - from + 1,
{
    if from < 0 || from + pat.len() > text.len() {
        None
    } else if text.subrange(from, from + pat.len() as int) == pat {
        Some(from)
    } else {
        find_from(text, pat, from + 1)
    }
}

pub proof fn lemma_find_from_props(text: Seq<u8>, pat: Seq<u8>, from: int)
    ensures
        find_from(text, pat, from) matches Some(i) ==> {
            &&& from <= i
            &&& 0 <= i
            &&& i + pat.len() <= text.len()
            &&& text.subrange(i, i + pat.len() as int) == pat
        },
    decreases text.len() - from + 1,
{
    if from < 0 || from + pat.len() > text.len() {
    } else if text.subrange(from, from + pat.len() as int) == pat {
    } else {
        lemma_find_from_props(text, pat, from + 1);
    }
}

fn match_at(t: &Vec<u8>, p: &Vec<u8>, i: usize) -> (r: bool)
    requires
        i + p@.len() <= t@.len(),
    ensures
        r == (t@.subrange(i as int, i + p@.len()) == p@),
{
    let tlen = t.len();
    let mut j: usize = 0;
    while j < p.len()
        invariant
            j <= p@.len(),
            i + p@.len() <= t@.len(),
            tlen == t@.len(),
            forall|k: int| 0 <= k < j ==> t@[i + k] == p@[k],
        decreases p@.len() - j,
    {
        proof {
            assert(i + j < t@.len());
        }
        if t[i + j] != p[j] {
            proof {
                assert(t@.subrange(i as int, i + p@.len())[j as int] == t@[i + j]);
            }
            return false;
        }
        j += 1;
    }
    proof {
        assert(t@.subrange(i as int, i + p@.len()) =~= p@);
    }
    true
}

pub(crate) fn find_sub(t: &Vec<u8>, p: &Vec<u8>, from: usize) -> (r: Option<usize>)
    ensures
        match r {
            Some(i) => find_from(t@, p@, from as int) == Some(i as int) && from <= i && i
                + p@.len() <= t@.len(),
            None => find_from(t@, p@, from as int) is None,
        },
{
    proof {
        lemma_find_from_props(t@, p@, from as int);
    }
    if from > t.len() {
        return None;
    }
    if p.len() == 0 {
        proof {
            assert(t@.subrange(from as int, from as int) =~= p@);
        }
        return Some(from);
    }
    let mut i: usize = from;
    while t.len() - i >= p.len()
        invariant
            from <= i <= t@.len(),
            p@.len() >= 1,
            find_from(t@, p@, from as int) == find_from(t@, p@, i as int),
        decreases t@.len() - i,
    {
        if match_at(t, p, i) {
            return Some(i);
        }
        i += 1;
    }
    None
}

/// Copy of `t[a..b]`.
pub(crate) fn subvec(t: &Vec<u8>, a: usize, b: usize) -> (r: Vec<u8>)
    requires
        a <= b <= t@.len(),
    ensures
        r@ == t@.subrange(a as int, b as int),
{
    let mut r: Vec<u8> = Vec::new();
    let mut i: usize = a;
    while i < b
        invariant
            a <= i <= b <= t@.len(),
            r@ == t@.subrange(a as int, i as int),
        decreases b - i,
    {
        r.push(t[i]);
        proof {
            assert(t@.subrange(a as int, i + 1) =~= t@.subrange(a as int, i as int).push(
                t@[i as int],
            ));
        }
        i += 1;
    }
    r
}

pub(crate) fn extend(out: &mut Vec<u8>, s: &Vec<u8>)
    ensures
        final(out)@ == old(out)@ + s@,
{
    let mut i: usize = 0;
    while i < s.len()
        invariant
            i <= s@.len(),
            out@ == old(out)@ + s@.subrange(0, i as int),
        decreases s@.len() - i,
    {
        out.push(s[i]);
        proof {
            assert(s@.subrange(0, i + 1) =~= s@.subrange(0, i as int).push(s@[i as int]));
            assert(old(out)@ + s@.subrange(0, i + 1) =~= (old(out)@ + s@.subrange(0, i as int)).push(
                s@[i as int],
            ));
        }
        i += 1;
    }
    proof {
        assert(s@.subrange(0, s@.len() as int) =~= s@);
    }
}

/// Every occurrence of `pat` in `s` replaced by `val`, scanning left to right
/// over non-overlapping occurrences. An empty `pat` replaces nothing.
pub open spec fn replace_all(s: Seq<u8>, pat: Seq<u8>, val: Seq<u8>) -> Seq<u8>
    decreases s.len(),
    via replace_all_decreases
{
    if pat.len() == 0 {
        s
    } else {
        match find_from(s, pat, 0) {
            None => s,
            Some(i) => s.subrange(0, i) + val + replace_all(
                s.subrange(i + pat.len() as int, s.len() as int),
                pat,
                val,
            ),
        }
    }
}

#[via_fn]
proof fn replace_all_decreases(s: Seq<u8>, pat: Seq<u8>, val: Seq<u8>) {
    lemma_find_from_props(s, pat, 0);
}

/// A name that does not occur in the text is replaced nowhere.
pub proof fn lemma_absent_name_is_noop(s: Seq<u8>, pat: Seq<u8>, val: Seq<u8>)
    requires
        find_from(s, pat, 0) is None,
    ensures
        replace_all(s, pat, val) == s,
{
}

pub(crate) fn replace_all_vec(s: &Vec<u8>, p: &Vec<u8>, v: &Vec<u8>) -> (r: Vec<u8>)
    ensures
        r@ == replace_all(s@, p@, v@),
{
    if p.len() == 0 {
        return s.clone();
    }
    let mut out: Vec<u8> = Vec::new();
    let mut rest: Vec<u8> = s.clone();
    loop
        invariant
            p@.len() >= 1,
            replace_all(s@, p@, v@) == out@ + replace_all(rest@, p@, v@),
        decreases rest@.len(),
    {
        match find_sub(&rest, p, 0) {
            None => {
                extend(&mut out, &rest);
                return out;
            },
            Some(i) => {
                let ghost prev = rest@;
                let ghost out0 = out@;
                let chunk = subvec(&rest, 0, i);
                extend(&mut out, &chunk);
                extend(&mut out, v);
                let rest_len = rest.len();
                let new_rest = subvec(&rest, i + p.len(), rest_len);
                proof {
                    assert(replace_all(prev, p@, v@) == prev.subrange(0, i as int) + v@
                        + replace_all(new_rest@, p@, v@));
                    assert(out@ + replace_all(new_rest@, p@, v@) =~= out0 + replace_all(
                        prev,
                        p@,
                        v@,
                    ));
                }
                rest = new_rest;
            },
        }
    }
}

/// All space bytes removed; the normalization both the template and the
/// bindings blob receive before scanning.
pub open spec fn strip_spaces(s: Seq<u8>) -> Seq<u8>
    decreases s.len(),
{
    if s.len() == 0 {
        Seq::empty()
    } else if s[0] == 32 {
        strip_spaces(s.skip(1))
    } else {
        seq![s[0]] + strip_spaces(s.skip(1))
    }
}

pub(crate) fn strip_spaces_vec(s: &Vec<u8>) -> (r: Vec<u8>)
    ensures
        r@ == strip_spaces(s@),
{
    let mut out: Vec<u8> = Vec::new();
    let mut i: usize = 0;
    proof {
        assert(s@.skip(0) =~= s@);
        assert(Seq::<u8>::empty() + strip_spaces(s@) =~= strip_spaces(s@));
    }
    while i < s.len()
        invariant
            i <= s@.len(),
            strip_spaces(s@) == out@ + strip_spaces(s@.skip(i as int)),
        decreases s@.len() - i,
    {
        proof {
            assert(s@.skip(i as int).skip(1) =~= s@.skip(i + 1));
            assert(s@.skip(i as int)[0] == s@[i as int]);
        }
        if s[i] != 32 {
            out.push(s[i]);
            proof {
                assert(out@ + strip_spaces(s@.skip(i + 1)) =~= (out@.drop_last() + seq![
                    s@[i as int],
                ]) + strip_spaces(s@.skip(i + 1)));
            }
        }
        i += 1;
    }
    proof {
        assert(s@.skip(s@.len() as int) =~= Seq::<u8>::empty());
    }
    out
}

/// Every colon byte turned into a comma, as the bindings normalization does.
pub open spec fn colons_to_commas(s: Seq<u8>) -> Seq<u8> {
    s.map_values(|b: u8| if b == 58 { 44u8 } else { b })
}

pub(crate) fn colons_to_commas_vec(s: &Vec<u8>) -> (r: Vec<u8>)
    ensures
        r@ == colons_to_commas(s@),
{
    let mut out: Vec<u8> = Vec::new();
    let mut i: usize = 0;
    while i < s.len()
        invariant
            i <= s@.len(),
            out@.len() == i,
            forall|k: int| 0 <= k < i ==> out@[k] == (if s@[k] == 58 {
                44u8
            } else {
                s@[k]
            }),
        decreases s@.len() - i,
    {
        if s[i] == 58 {
            out.push(44);
        } else {
            out.push(s[i]);
        }
        i += 1;
    }
    proof {
        assert(out@ =~= colons_to_commas(s@));
    }
    out
}

/// The views of a list of byte vectors.
pub open spec fn views_of(ps: Seq<Vec<u8>>) -> Seq<Seq<u8>> {
    ps.map_values(|p: Vec<u8>| p@)
}

/// Binding pairs applied in order: entries are read two at a time as
/// (name, value), each replacement acting on the text the earlier pairs
/// produced. A trailing unpaired entry is ignored.
pub open spec fn apply_pairs(s: Seq<u8>, pairs: Seq<Seq<u8>>) -> Seq<u8>
    decreases pairs.len(),
{
    if pairs.len() < 2 {
        s
    } else {
        apply_pairs(replace_all(s, pairs[0], pairs[1]), pairs.skip(2))
    }
}

/// Substitution composes left to right: applying a whole binding sequence is
/// applying its front and then its back, so a later pair sees the text the
/// earlier pairs already rewrote and rewrites no further.
pub proof fn lemma_apply_pairs_append(s: Seq<u8>, a: Seq<Seq<u8>>, b: Seq<Seq<u8>>)
    requires
        a.len() % 2 == 0,
    ensures
        apply_pairs(s, a + b) == apply_pairs(apply_pairs(s, a), b),
    decreases a.len(),
{
    if a.len() == 0 {
        assert(a + b =~= b);
    } else {
        assert((a + b).skip(2) =~= a.skip(2) + b);
        lemma_apply_pairs_append(replace_all(s, a[0], a[1]), a.skip(2), b);
    }
}

/// A binding whose name does not occur in the text at its turn leaves the
/// outcome exactly as if the pair were absent from the sequence.
pub proof fn lemma_unused_binding_is_noop(
    s: Seq<u8>,
    front: Seq<Seq<u8>>,
    name: Seq<u8>,
    val: Seq<u8>,
    back: Seq<Seq<u8>>,
)
    requires
        front.len() % 2 == 0,
        find_from(apply_pairs(s, front), name, 0) is None,
    ensures
        apply_pairs(s, front + seq![name, val] + back) == apply_pairs(s, front + back),
{
    let mid = apply_pairs(s, front);
    lemma_apply_pairs_append(s, front, seq![name, val] + back);
    lemma_apply_pairs_append(s, front, back);
    lemma_absent_name_is_noop(mid, name, val);
    assert((seq![name, val] + back).skip(2) =~= back);
    assert(front + seq![name, val] + back =~= front + (seq![name, val] + back));
}

pub(crate) fn apply_bindings(s: &Vec<u8>, pairs: &Vec<Vec<u8>>) -> (r: Vec<u8>)
    ensures
        r@ == apply_pairs(s@, views_of(pairs@)),
{
    let ghost pv = views_of(pairs@);
    let mut cur = s.clone();
    let mut i: usize = 0;
    proof {
        assert(pv.skip(0) =~= pv);
    }
    while pairs.len() - i >= 2
        invariant
            i <= pairs@.len(),
            pv == views_of(pairs@),
            apply_pairs(s@, pv) == apply_pairs(cur@, pv.skip(i as int)),
        decreases pairs@.len() - i,
    {
        let next = replace_all_vec(&cur, &pairs[i], &pairs[i + 1]);
        proof {
            assert(pv.skip(i as int)[0] == pairs@[i as int]@);
            assert(pv.skip(i as int)[1] == pairs@[i + 1]@);
            assert(pv.skip(i as int).skip(2) =~= pv.skip(i + 2));
        }
        cur = next;
        i += 2;
    }
    proof {
        assert(pv.skip(i as int).len() < 2);
    }
    cur
}

} // verus!
