//! The variable table: the bindings blob is normalized (colons to commas,
//! spaces stripped, a trailing comma before the closing bracket dropped) and
//! read as a JSON array of strings, consumed pairwise as (name, value). A
//! blob that cannot be read that way, or one with an odd number of entries,
//! yields an empty table rather than failing hydration.

use vstd::prelude::*;

verus! {

use crate::ext::{parse_string_list, string_list_of};
use crate::text::{
    colons_to_commas,
    colons_to_commas_vec,
    replace_all,
    replace_all_vec,
    strip_spaces,
    strip_spaces_vec,
    views_of,
};

/// The bindings blob after normalization.
pub open spec fn normalize_bindings(v: Seq<u8>) -> Seq<u8> {
    replace_all(strip_spaces(colons_to_commas(v)), seq![44u8, 93u8], seq![93u8])
}

/// The binding pairs a blob yields: the parsed string list when it parses and
/// has an even number of entries, and the empty table otherwise.
pub open spec fn table_spec(v: Seq<u8>) -> Seq<Seq<u8>> {
    match string_list_of(normalize_bindings(v)) {
        None => Seq::empty(),
        Some(l) => if l.len() % 2 == 0 {
            l
        } else {
            Seq::empty()
        },
    }
}

/// A blob that does not parse as a string list contributes no bindings.
pub proof fn lemma_malformed_bindings_empty_table(v: Seq<u8>)
    ensures
        string_list_of(normalize_bindings(v)) is None ==> table_spec(v) == Seq::<Seq<u8>>::empty(),
{
}

pub fn build_table(vars: &Vec<u8>) -> (r: Vec<Vec<u8>>)
    ensures
        views_of(r@) == table_spec(vars@),
{
    let commas = colons_to_commas_vec(vars);
    let stripped = strip_spaces_vec(&commas);
    let mut pat: Vec<u8> = Vec::new();
    pat.push(44);
    pat.push(93);
    let mut val: Vec<u8> = Vec::new();
    val.push(93);
    proof {
        assert(pat@ =~= seq![44u8, 93u8]);
        assert(val@ =~= seq![93u8]);
    }
    let normalized = replace_all_vec(&stripped, &pat, &val);
    match parse_string_list(&normalized) {
        Ok(l) => {
            if l.len() % 2 == 0 {
                l
            } else {
                let empty: Vec<Vec<u8>> = Vec::new();
                proof {
                    assert(views_of(empty@) =~= Seq::<Seq<u8>>::empty());
                }
                empty
            }
        },
        Err(_) => {
            let empty: Vec<Vec<u8>> = Vec::new();
            proof {
                assert(views_of(empty@) =~= Seq::<Seq<u8>>::empty());
            }
            empty
        },
    }
}

} // verus!
