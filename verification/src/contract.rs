//! The hydration pipeline: normalize the template, decode its nested encoded
//! fields, apply the variable table, re-encode, and parse the result as the
//! dispatch layer's message type.

use vstd::prelude::*;

verus! {

use crate::decode::{
    Step,
    chain_to,
    comma,
    decode,
    flattens,
    reaches_bad_payload,
    reaches_unterminated,
    step_of,
    token,
};
use crate::encode::{encode, encode_chain};
use crate::error::{
    ContractError,
    deserialization_error,
    is_deserialization_error,
    is_unterminated_error,
};
use crate::ext::{is_cosmos_text, parse_cosmos_msg};
use crate::subst::{lemma_empty_table_substitutes_nothing, subst_levels, substitute};
use crate::table::{build_table, table_spec};
use crate::text::{apply_pairs, find_from, strip_spaces, strip_spaces_vec};
use vstd::string::StrSliceExecFns;
use vstd::utf8::encode_utf8;

/// The successful outcome of hydration: some decode chain flattens the
/// space-stripped template completely, and `out` is the re-encoding of that
/// chain with the variable table applied to every text in it.
pub open spec fn hydrate_ok(msg: Seq<u8>, vars: Seq<u8>, out: Seq<u8>) -> bool {
    exists|lv: Seq<(Seq<u8>, Seq<u8>)>, core: Seq<u8>|
        {
            &&& #[trigger] chain_to(strip_spaces(msg), lv, core)
            &&& step_of(core) is Finished
            &&& out == encode_chain(
                subst_levels(lv, table_spec(vars)),
                apply_pairs(core, table_spec(vars)),
            )
        }
}

/// Hydrate a template against a bindings blob, returning the final message
/// text. Errors: a field key with no bounding delimiter is surfaced as the
/// unterminated-field error; an undecodable payload as a deserialization
/// error.
pub fn hydrate_text(msg: String, vars: String) -> (r: Result<Vec<u8>, ContractError>)
    ensures
        r is Ok <==> flattens(strip_spaces(encode_utf8(msg@))),
        match r {
            Ok(out) => hydrate_ok(encode_utf8(msg@), encode_utf8(vars@), out@),
            Err(e) => (is_unterminated_error(e) && reaches_unterminated(
                strip_spaces(encode_utf8(msg@)),
            )) || (is_deserialization_error(e) && reaches_bad_payload(
                strip_spaces(encode_utf8(msg@)),
            )),
        },
{
    let msg_bytes = msg.as_str().as_bytes_vec();
    let vars_bytes = vars.as_str().as_bytes_vec();
    let table = build_table(&vars_bytes);
    let t = strip_spaces_vec(&msg_bytes);
    let d = match decode(t) {
        Ok(d) => d,
        Err(e) => {
            return Err(e);
        },
    };
    let ghost lv = crate::decode::levels_view(d.levels@);
    let ghost core = d.core@;
    let substituted = substitute(d, &table);
    let out = encode(substituted);
    proof {
        assert(chain_to(strip_spaces(encode_utf8(msg@)), lv, core));
        assert(out@ == encode_chain(
            subst_levels(lv, table_spec(encode_utf8(vars@))),
            apply_pairs(core, table_spec(encode_utf8(vars@))),
        ));
    }
    Ok(out)
}

/// Hydrate a template and parse the result into the dispatch message type.
/// A final text that does not parse is surfaced as a deserialization error.
pub fn try_hydrate(msg: String, vars: String) -> (r: Result<
    cosmwasm_std::CosmosMsg,
    ContractError,
>)
    ensures
        r is Ok <==> exists|out: Seq<u8>|
            #[trigger] hydrate_ok(encode_utf8(msg@), encode_utf8(vars@), out) && is_cosmos_text(
                out,
            ),
        r matches Err(e) ==> {
            ||| (is_unterminated_error(e) && reaches_unterminated(
                strip_spaces(encode_utf8(msg@)),
            ))
            ||| (is_deserialization_error(e) && (reaches_bad_payload(
                strip_spaces(encode_utf8(msg@)),
            ) || exists|out: Seq<u8>|
                #[trigger] hydrate_ok(encode_utf8(msg@), encode_utf8(vars@), out)
                    && !is_cosmos_text(out)))
        },
{
    let ghost m = encode_utf8(msg@);
    let ghost v = encode_utf8(vars@);
    let text = match hydrate_text(msg, vars) {
        Ok(t) => t,
        Err(e) => {
            proof {
                if exists|out: Seq<u8>| #[trigger] hydrate_ok(m, v, out) && is_cosmos_text(out) {
                    let out = choose|out: Seq<u8>|
                        #[trigger] hydrate_ok(m, v, out) && is_cosmos_text(out);
                    lemma_hydrate_ok_flattens(m, v, out);
                }
            }
            return Err(e);
        },
    };
    match parse_cosmos_msg(&text) {
        Ok(cm) => Ok(cm),
        Err(_) => {
            proof {
                if exists|out: Seq<u8>| #[trigger] hydrate_ok(m, v, out) && is_cosmos_text(out) {
                    let out = choose|out: Seq<u8>|
                        #[trigger] hydrate_ok(m, v, out) && is_cosmos_text(out);
                    lemma_hydration_outcome_unique(m, v, out, text@);
                }
            }
            Err(deserialization_error())
        },
    }
}

/// A successful hydration outcome means the template flattens completely.
proof fn lemma_hydrate_ok_flattens(msg: Seq<u8>, vars: Seq<u8>, out: Seq<u8>)
    requires
        hydrate_ok(msg, vars, out),
    ensures
        flattens(strip_spaces(msg)),
{
    let t = strip_spaces(msg);
    let (lv, core): (Seq<(Seq<u8>, Seq<u8>)>, Seq<u8>) = choose|
        lv: Seq<(Seq<u8>, Seq<u8>)>,
        core: Seq<u8>,
    |
        {
            &&& #[trigger] chain_to(t, lv, core)
            &&& step_of(core) is Finished
            &&& out == encode_chain(
                subst_levels(lv, table_spec(vars)),
                apply_pairs(core, table_spec(vars)),
            )
        };
    assert(chain_to(t, lv, core) && step_of(core) is Finished);
}

/// Hydration has at most one outcome: the decode chain is deterministic, so
/// the successful output is a function of the template and the bindings.
pub proof fn lemma_hydration_outcome_unique(msg: Seq<u8>, vars: Seq<u8>, out1: Seq<u8>, out2: Seq<u8>)
    requires
        hydrate_ok(msg, vars, out1),
        hydrate_ok(msg, vars, out2),
    ensures
        out1 == out2,
{
    let t = strip_spaces(msg);
    let (lv1, core1): (Seq<(Seq<u8>, Seq<u8>)>, Seq<u8>) = choose|
        lv: Seq<(Seq<u8>, Seq<u8>)>,
        core: Seq<u8>,
    |
        {
            &&& #[trigger] chain_to(t, lv, core)
            &&& step_of(core) is Finished
            &&& out1 == encode_chain(
                subst_levels(lv, table_spec(vars)),
                apply_pairs(core, table_spec(vars)),
            )
        };
    let (lv2, core2): (Seq<(Seq<u8>, Seq<u8>)>, Seq<u8>) = choose|
        lv: Seq<(Seq<u8>, Seq<u8>)>,
        core: Seq<u8>,
    |
        {
            &&& #[trigger] chain_to(t, lv, core)
            &&& step_of(core) is Finished
            &&& out2 == encode_chain(
                subst_levels(lv, table_spec(vars)),
                apply_pairs(core, table_spec(vars)),
            )
        };
    crate::decode::lemma_chain_deterministic(t, lv1, core1, lv2, core2);
}

/// A template with no encoded field passes through hydration unchanged beyond
/// space stripping when the variable table is empty: decoding finds nothing,
/// substitution replaces nothing, and re-encoding restores nothing.
pub proof fn lemma_plain_template_round_trip(msg: Seq<u8>, vars: Seq<u8>)
    requires
        find_from(strip_spaces(msg), token(), 0) is None,
        table_spec(vars) == Seq::<Seq<u8>>::empty(),
    ensures
        hydrate_ok(msg, vars, strip_spaces(msg)),
{
    let t = strip_spaces(msg);
    let lv = Seq::<(Seq<u8>, Seq<u8>)>::empty();
    assert(chain_to(t, lv, t));
    assert(step_of(t) is Finished);
    lemma_empty_table_substitutes_nothing(lv, t, table_spec(vars));
    assert(encode_chain(subst_levels(lv, table_spec(vars)), apply_pairs(t, table_spec(vars)))
        == t);
}

/// A bindings blob whose table is empty — malformed, empty, or odd-length —
/// substitutes nothing: hydration returns the re-encoding of the decoded
/// template itself, its placeholders untouched.
pub proof fn lemma_empty_table_leaves_template(
    msg: Seq<u8>,
    vars: Seq<u8>,
    lv: Seq<(Seq<u8>, Seq<u8>)>,
    core: Seq<u8>,
)
    requires
        table_spec(vars) == Seq::<Seq<u8>>::empty(),
        chain_to(strip_spaces(msg), lv, core),
        step_of(core) is Finished,
    ensures
        hydrate_ok(msg, vars, encode_chain(lv, core)),
{
    lemma_empty_table_substitutes_nothing(lv, core, table_spec(vars));
}

/// A template holding the field key with no delimiter anywhere after it fails
/// outright: every decode chain from it halts unterminated, so no hydration
/// outcome exists at all.
pub proof fn lemma_unterminated_field_is_fatal(msg: Seq<u8>, vars: Seq<u8>, k: int)
    requires
        find_from(strip_spaces(msg), token(), 0) == Some(k),
        find_from(strip_spaces(msg), comma(), k + token().len() as int) is None,
    ensures
        reaches_unterminated(strip_spaces(msg)),
        forall|lv: Seq<(Seq<u8>, Seq<u8>)>, u: Seq<u8>| #[trigger]
            chain_to(strip_spaces(msg), lv, u) ==> step_of(u) is Unterminated,
        forall|out: Seq<u8>| !hydrate_ok(msg, vars, out),
{
    let t = strip_spaces(msg);
    assert(step_of(t) is Unterminated);
    assert(chain_to(t, Seq::<(Seq<u8>, Seq<u8>)>::empty(), t));
    assert forall|lv: Seq<(Seq<u8>, Seq<u8>)>, u: Seq<u8>| #[trigger]
        chain_to(t, lv, u) implies step_of(u) is Unterminated by {
        if lv.len() == 0 {
            assert(u == t);
        } else {
            assert(step_of(t) matches Step::Into { pre, inner, post });
            assert(false);
        }
    }
    assert forall|out: Seq<u8>| !hydrate_ok(msg, vars, out) by {
        if hydrate_ok(msg, vars, out) {
            let (lv, core): (Seq<(Seq<u8>, Seq<u8>)>, Seq<u8>) = choose|
                lv: Seq<(Seq<u8>, Seq<u8>)>,
                core: Seq<u8>,
            | #[trigger] chain_to(t, lv, core) && step_of(core) is Finished;
            assert(step_of(core) is Unterminated);
        }
    }
}

} // verus!
