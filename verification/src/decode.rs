//! The envelope decoder. A template may carry a field key `msg":` whose
//! quoted payload is a base64 encoding of an inner template; decoding peels
//! one such field per level, descending into the decoded payload, and records
//! per level the text before the key and the text from the bounding delimiter
//! on. The result is a chain of levels around an innermost core text.

use vstd::prelude::*;

verus! {

use crate::error::{
    ContractError,
    deserialization_error,
    is_deserialization_error,
    is_unterminated_error,
    unterminated_error,
};
use crate::ext::{base64_bytes_of, decode_base64, json_text_of, parse_quoted};
use crate::text::{find_from, find_sub, subvec};
use vstd::utf8::encode_utf8;

/// The field key token: the bytes of `msg":`.
pub open spec fn token() -> Seq<u8> {
    seq![109u8, 115u8, 103u8, 34u8, 58u8]
}

/// The delimiter bounding an encoded payload: the comma byte.
pub open spec fn comma() -> Seq<u8> {
    seq![44u8]
}

/// The quote byte wrapping a payload.
pub open spec fn quote() -> Seq<u8> {
    seq![34u8]
}

pub(crate) fn token_vec() -> (r: Vec<u8>)
    ensures
        r@ == token(),
{
    let mut v: Vec<u8> = Vec::new();
    v.push(109);
    v.push(115);
    v.push(103);
    v.push(34);
    v.push(58);
    proof {
        assert(v@ =~= token());
    }
    v
}

pub(crate) fn comma_vec() -> (r: Vec<u8>)
    ensures
        r@ == comma(),
{
    let mut v: Vec<u8> = Vec::new();
    v.push(44);
    proof {
        assert(v@ =~= comma());
    }
    v
}

/// What one decoding step does to a text.
pub enum Step {
    /// No field key remains: this text is a fully decoded core.
    Finished,
    /// A field key with no delimiter after it: the fatal malformed-template case.
    Unterminated,
    /// A payload that is not a quoted text or not valid base64: fatal.
    BadPayload,
    /// A field was decoded: the text up to and including the key, the decoded
    /// inner text, and the text from the delimiter on.
    Into { pre: Seq<u8>, inner: Seq<u8>, post: Seq<u8> },
}

pub open spec fn step_of(t: Seq<u8>) -> Step {
    match find_from(t, token(), 0) {
        None => Step::Finished,
        Some(k) => match find_from(t, comma(), k + token().len() as int) {
            None => Step::Unterminated,
            Some(c) => match json_text_of(t.subrange(k + token().len() as int, c)) {
                None => Step::BadPayload,
                Some(txt) => match base64_bytes_of(txt) {
                    None => Step::BadPayload,
                    Some(inner) => Step::Into {
                        pre: t.subrange(0, k + token().len() as int),
                        inner,
                        post: t.subrange(c, t.len() as int),
                    },
                },
            },
        },
    }
}

/// The decode chain: starting from text `t`, each level in `levels` records
/// the (pre, post) texts of one decoded field, and following the decoded
/// payloads level by level ends at the text `u`.
pub open spec fn chain_to(t: Seq<u8>, levels: Seq<(Seq<u8>, Seq<u8>)>, u: Seq<u8>) -> bool
    decreases levels.len(),
{
    if levels.len() == 0 {
        u == t
    } else {
        step_of(t) matches Step::Into { pre, inner, post } && levels[0].0 == pre && levels[0].1
            == post && chain_to(inner, levels.skip(1), u)
    }
}

/// Decoding `t` runs into a field key with no bounding delimiter.
pub open spec fn reaches_unterminated(t: Seq<u8>) -> bool {
    exists|levels: Seq<(Seq<u8>, Seq<u8>)>, u: Seq<u8>|
        chain_to(t, levels, u) && step_of(u) is Unterminated
}

/// Decoding `t` runs into a payload that cannot be decoded.
pub open spec fn reaches_bad_payload(t: Seq<u8>) -> bool {
    exists|levels: Seq<(Seq<u8>, Seq<u8>)>, u: Seq<u8>|
        chain_to(t, levels, u) && step_of(u) is BadPayload
}

/// Decoding is deterministic: two complete chains from the same text — ones
/// that do not stop early at a decodable field — are the same chain.
pub proof fn lemma_chain_deterministic(
    t: Seq<u8>,
    lv1: Seq<(Seq<u8>, Seq<u8>)>,
    u1: Seq<u8>,
    lv2: Seq<(Seq<u8>, Seq<u8>)>,
    u2: Seq<u8>,
)
    requires
        chain_to(t, lv1, u1),
        chain_to(t, lv2, u2),
        !(step_of(u1) is Into),
        !(step_of(u2) is Into),
    ensures
        lv1 == lv2,
        u1 == u2,
    decreases lv1.len(),
{
    if lv1.len() == 0 && lv2.len() == 0 {
    } else if lv1.len() == 0 {
        assert(u1 == t);
        assert(step_of(t) is Into);
        assert(false);
    } else if lv2.len() == 0 {
        assert(u2 == t);
        assert(step_of(t) is Into);
        assert(false);
    } else {
        match step_of(t) {
            Step::Into { pre, inner, post } => {
                lemma_chain_deterministic(inner, lv1.skip(1), u1, lv2.skip(1), u2);
                assert(lv1[0] == (pre, post));
                assert(lv2[0] == (pre, post));
                assert forall|i: int| 0 <= i < lv1.len() implies lv1[i] == lv2[i] by {
                    if i > 0 {
                        assert(lv1[i] == lv1.skip(1)[i - 1]);
                        assert(lv2[i] == lv2.skip(1)[i - 1]);
                    }
                }
                assert(lv1 =~= lv2);
            },
            _ => {
                assert(false);
            },
        }
    }
}

/// Decoding `t` flattens completely: some chain ends at a core with no
/// remaining field key.
pub open spec fn flattens(t: Seq<u8>) -> bool {
    exists|levels: Seq<(Seq<u8>, Seq<u8>)>, u: Seq<u8>|
        #[trigger] chain_to(t, levels, u) && step_of(u) is Finished
}

/// A chain halting at a malformed text rules out a finished chain.
proof fn lemma_halted_chain_excludes_flattening(t: Seq<u8>, lv: Seq<(Seq<u8>, Seq<u8>)>, u: Seq<u8>)
    requires
        chain_to(t, lv, u),
        step_of(u) is Unterminated || step_of(u) is BadPayload,
    ensures
        !flattens(t),
{
    if flattens(t) {
        let (lv2, core): (Seq<(Seq<u8>, Seq<u8>)>, Seq<u8>) = choose|
            lv2: Seq<(Seq<u8>, Seq<u8>)>,
            core: Seq<u8>,
        | #[trigger] chain_to(t, lv2, core) && step_of(core) is Finished;
        lemma_chain_deterministic(t, lv, u, lv2, core);
    }
}

/// One decoded level: the text up to and including the field key, and the
/// text from the bounding delimiter to the end of that level.
pub struct Level {
    pub pre: Vec<u8>,
    pub post: Vec<u8>,
}

/// A fully decoded template: the chain of levels, outermost first, around the
/// innermost core text (which holds no further field key).
pub struct Decoded {
    pub levels: Vec<Level>,
    pub core: Vec<u8>,
}

pub open spec fn levels_view(ls: Seq<Level>) -> Seq<(Seq<u8>, Seq<u8>)> {
    ls.map_values(|l: Level| (l.pre@, l.post@))
}

proof fn lemma_chain_snoc(
    t: Seq<u8>,
    levels: Seq<(Seq<u8>, Seq<u8>)>,
    u: Seq<u8>,
    pre: Seq<u8>,
    inner: Seq<u8>,
    post: Seq<u8>,
)
    requires
        chain_to(t, levels, u),
        step_of(u) == (Step::Into { pre, inner, post }),
    ensures
        chain_to(t, levels.push((pre, post)), inner),
    decreases levels.len(),
{
    let pushed = levels.push((pre, post));
    if levels.len() == 0 {
        assert(u == t);
        assert(pushed.skip(1) =~= Seq::<(Seq<u8>, Seq<u8>)>::empty());
        assert(chain_to(inner, pushed.skip(1), inner));
        assert(pushed[0] == (pre, post));
        assert(chain_to(t, pushed, inner));
    } else {
        match step_of(t) {
            Step::Into { pre: pre0, inner: inner0, post: post0 } => {
                lemma_chain_snoc(inner0, levels.skip(1), u, pre, inner, post);
                assert(pushed.skip(1) =~= levels.skip(1).push((pre, post)));
                assert(pushed[0] == levels[0]);
                assert(chain_to(t, pushed, inner));
            },
            _ => {
                assert(false);
            },
        }
    }
}

/// Decode a template completely, level by level. On success the returned
/// chain leads from `t` to a core with no remaining field key; on failure the
/// error says which malformation the chain ran into.
pub fn decode(t: Vec<u8>) -> (r: Result<Decoded, ContractError>)
    ensures
        r is Ok <==> flattens(t@),
        match r {
            Ok(d) => chain_to(t@, levels_view(d.levels@), d.core@) && step_of(d.core@)
                is Finished,
            Err(e) => (is_unterminated_error(e) && reaches_unterminated(t@)) || (
            is_deserialization_error(e) && reaches_bad_payload(t@)),
        },
{
    let tok = token_vec();
    let com = comma_vec();
    let ghost t0 = t@;
    let mut text = t;
    let mut levels: Vec<Level> = Vec::new();
    proof {
        assert(levels_view(levels@) =~= Seq::<(Seq<u8>, Seq<u8>)>::empty());
    }
    loop
        invariant
            t0 == t@,
            tok@ == token(),
            com@ == comma(),
            chain_to(t0, levels_view(levels@), text@),
        decreases text@.len(),
    {
        let ghost cur = text@;
        let ghost lv = levels_view(levels@);
        let text_len = text.len();
        match find_sub(&text, &tok, 0) {
            None => {
                proof {
                    assert(step_of(cur) is Finished);
                }
                return Ok(Decoded { levels, core: text });
            },
            Some(k) => {
                proof {
                    assert(token().len() == 5);
                    assert(k + 5 <= text_len);
                }
                match find_sub(&text, &com, k + 5) {
                    None => {
                        proof {
                            assert(step_of(cur) is Unterminated);
                            assert(chain_to(t0, lv, cur) && step_of(cur) is Unterminated);
                            assert(reaches_unterminated(t0));
                            lemma_halted_chain_excludes_flattening(t0, lv, cur);
                        }
                        return Err(unterminated_error());
                    },
                    Some(c) => {
                        let payload = subvec(&text, k + 5, c);
                        let pre = subvec(&text, 0, k + 5);
                        let post = subvec(&text, c, text_len);
                        let parsed = match parse_quoted(&payload) {
                            Ok(p) => p,
                            Err(_) => {
                                proof {
                                    assert(step_of(cur) is BadPayload);
                                    assert(chain_to(t0, lv, cur) && step_of(cur) is BadPayload);
                                    assert(reaches_bad_payload(t0));
                                    lemma_halted_chain_excludes_flattening(t0, lv, cur);
                                }
                                return Err(deserialization_error());
                            },
                        };
                        let inner = match decode_base64(parsed.as_str()) {
                            Ok(b) => b,
                            Err(_) => {
                                proof {
                                    assert(step_of(cur) is BadPayload);
                                    assert(chain_to(t0, lv, cur) && step_of(cur) is BadPayload);
                                    assert(reaches_bad_payload(t0));
                                    lemma_halted_chain_excludes_flattening(t0, lv, cur);
                                }
                                return Err(deserialization_error());
                            },
                        };
                        let ghost gpre = pre@;
                        let ghost gpost = post@;
                        proof {
                            assert(step_of(cur) == (Step::Into {
                                pre: pre@,
                                inner: inner@,
                                post: post@,
                            }));
                            lemma_chain_snoc(t0, lv, cur, pre@, inner@, post@);
                            // The decoded payload is strictly shorter than the
                            // text it came from: base64 shrinks and the quoted
                            // form carried two quote bytes.
                            assert(inner@.len() <= encode_utf8(parsed@).len());
                            assert(inner@.len() < cur.len());
                        }
                        levels.push(Level { pre, post });
                        proof {
                            assert(levels_view(levels@) =~~= lv.push((gpre, gpost)));
                        }
                        text = inner;
                    },
                }
            },
        }
    }
}

} // verus!
