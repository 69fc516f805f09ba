//! The wire form of manifests: a self-delimiting byte encoding with a proven
//! round trip. Every `lemma_dec_enc_*` states that decoding an encoding,
//! whatever bytes follow it, yields the encoded value back and consumes
//! exactly its encoding.
//!
//! Characters travel as 32-bit little-endian scalar values closed by an
//! end marker that no scalar value can collide with; lists are chains of
//! tag bytes. Decoders of recursive or list-shaped data take a fuel bound;
//! any fuel at least the encoding's length suffices.

use vstd::prelude::*;
use vstd::bytes::{
    spec_u32_to_le_bytes,
    spec_u32_from_le_bytes,
    lemma_auto_spec_u32_to_from_le_bytes,
    spec_u64_to_le_bytes,
    spec_u64_from_le_bytes,
    lemma_auto_spec_u64_to_from_le_bytes,
    u32_to_le_bytes,
    u64_to_le_bytes,
    u32_from_le_bytes,
    u64_from_le_bytes,
};
use vstd::utf8::{char_is_scalar, char_u32_cast};

verus! {

/// Closes a character sequence on the wire; never a Unicode scalar value.
pub const CHAR_END: u32 = 0xFFFF_FFFF;

/// Unicode scalar values: what a `char` can hold.
pub open spec fn valid_scalar(x: u32) -> bool {
    x < 0xD800 || (0xE000 <= x && x <= 0x10FFFF)
}

/// Relies on `char::from_u32`: `Some` exactly on Unicode scalar values,
/// returning the character with that code.
#[verifier::external_body]
fn char_from_u32(x: u32) -> (r: Option<char>)
    ensures
        r is Some <==> valid_scalar(x),
        r matches Some(c) ==> c as u32 == x,
{
    char::from_u32(x)
}

/// Relies on `String::push`: appends exactly the given character.
#[verifier::external_body]
fn string_push(s: &mut String, c: char)
    ensures
        final(s)@ == old(s)@.push(c),
{
    s.push(c)
}

// ---------------------------------------------------------------- integers

pub open spec fn enc_u32(x: u32) -> Seq<u8> {
    spec_u32_to_le_bytes(x)
}

pub open spec fn dec_u32(s: Seq<u8>) -> Option<(u32, int)> {
    if s.len() >= 4 {
        Some((spec_u32_from_le_bytes(s.take(4)), 4))
    } else {
        None
    }
}

pub open spec fn enc_u64(x: u64) -> Seq<u8> {
    spec_u64_to_le_bytes(x)
}

pub open spec fn dec_u64(s: Seq<u8>) -> Option<(u64, int)> {
    if s.len() >= 8 {
        Some((spec_u64_from_le_bytes(s.take(8)), 8))
    } else {
        None
    }
}

pub proof fn lemma_dec_enc_u32(x: u32, rest: Seq<u8>)
    ensures
        enc_u32(x).len() == 4,
        dec_u32(enc_u32(x) + rest) == Some((x, 4int)),
{
    lemma_auto_spec_u32_to_from_le_bytes();
    assert((enc_u32(x) + rest).take(4) =~= enc_u32(x));
}

pub proof fn lemma_dec_enc_u64(x: u64, rest: Seq<u8>)
    ensures
        enc_u64(x).len() == 8,
        dec_u64(enc_u64(x) + rest) == Some((x, 8int)),
{
    lemma_auto_spec_u64_to_from_le_bytes();
    assert((enc_u64(x) + rest).take(8) =~= enc_u64(x));
}

// ----------------------------------------------------------------- strings

/// The characters of `s`, each as four little-endian bytes.
pub open spec fn enc_chars(s: Seq<char>) -> Seq<u8>
    decreases s.len(),
{
    if s.len() == 0 {
        Seq::<u8>::empty()
    } else {
        enc_u32(s[0] as u32) + enc_chars(s.drop_first())
    }
}

/// A character sequence on the wire: its characters, then the end marker.
pub open spec fn enc_str(s: Seq<char>) -> Seq<u8> {
    enc_chars(s) + enc_u32(CHAR_END)
}

pub open spec fn dec_str(s: Seq<u8>) -> Option<(Seq<char>, int)>
    decreases s.len(),
{
    match dec_u32(s) {
        Some((x, _n)) => {
            if x == CHAR_END {
                Some((Seq::<char>::empty(), 4))
            } else if valid_scalar(x) {
                match dec_str(s.skip(4)) {
                    Some((t, m)) => Some((seq![x as char] + t, 4 + m)),
                    None => None,
                }
            } else {
                None
            }
        },
        None => None,
    }
}

pub proof fn lemma_enc_str_len(s: Seq<char>)
    ensures
        enc_str(s).len() == 4 * s.len() + 4,
        enc_chars(s).len() == 4 * s.len(),
    decreases s.len(),
{
    lemma_auto_spec_u32_to_from_le_bytes();
    if s.len() > 0 {
        lemma_enc_str_len(s.drop_first());
    }
}

pub proof fn lemma_dec_enc_str(s: Seq<char>, rest: Seq<u8>)
    ensures
        dec_str(enc_str(s) + rest) == Some((s, enc_str(s).len() as int)),
    decreases s.len(),
{
    lemma_auto_spec_u32_to_from_le_bytes();
    lemma_enc_str_len(s);
    let whole = enc_str(s) + rest;
    if s.len() == 0 {
        assert(enc_str(s) =~= enc_u32(CHAR_END));
        lemma_dec_enc_u32(CHAR_END, rest);
        assert(whole =~= enc_u32(CHAR_END) + rest);
        assert(dec_str(whole) == Some((Seq::<char>::empty(), 4int)));
        assert(s =~= Seq::<char>::empty());
    } else {
        let c0 = s[0] as u32;
        char_is_scalar(s[0]);
        char_u32_cast(s[0], c0);
        let tail = enc_str(s.drop_first()) + rest;
        assert(whole =~= enc_u32(c0) + tail);
        lemma_dec_enc_u32(c0, tail);
        assert(c0 != CHAR_END && valid_scalar(c0));
        assert(whole.skip(4) =~= tail);
        lemma_dec_enc_str(s.drop_first(), rest);
        assert(seq![s[0]] + s.drop_first() =~= s);
    }
}

// ------------------------------------------------------------- exec: bytes

/// Appends all of `src` to `out`.
pub fn push_all(out: &mut Vec<u8>, src: &Vec<u8>)
    ensures
        final(out)@ == old(out)@ + src@,
{
    let mut i: usize = 0;
    proof {
        assert(out@ =~= old(out)@ + src@.take(0));
    }
    while i < src.len()
        invariant
            i <= src.len(),
            out@ == old(out)@ + src@.take(i as int),
        decreases src.len() - i,
    {
        out.push(src[i]);
        proof {
            assert(old(out)@ + src@.take(i as int) + seq![src@[i as int]] =~= old(out)@
                + src@.take(i as int + 1));
        }
        i = i + 1;
    }
    proof {
        assert(src@.take(src@.len() as int) =~= src@);
    }
}

/// Appends the little-endian bytes of `x`.
fn enc_u32_into(x: u32, out: &mut Vec<u8>)
    ensures
        final(out)@ == old(out)@ + enc_u32(x),
{
    let bs = u32_to_le_bytes(x);
    push_all(out, &bs);
}

/// Appends the little-endian bytes of `x`.
pub fn enc_u64_into(x: u64, out: &mut Vec<u8>)
    ensures
        final(out)@ == old(out)@ + enc_u64(x),
{
    let bs = u64_to_le_bytes(x);
    push_all(out, &bs);
}

/// Reads a little-endian 32-bit integer at `pos`.
fn dec_u32_at(b: &Vec<u8>, pos: usize) -> (r: Option<(u32, usize)>)
    requires
        pos <= b@.len(),
    ensures
        ({
            let d = dec_u32(b@.skip(pos as int));
            match r {
                Some((v, np)) => d matches Some(dv) && v == dv.0 && np as int == pos + dv.1 && pos <= np && np
                    <= b@.len(),
                None => d is None,
            }
        }),
{
    if b.len() - pos < 4 {
        return None;
    }
    let sl = &b.as_slice()[pos..pos + 4];
    let x = u32_from_le_bytes(sl);
    proof {
        assert(sl@ =~= b@.skip(pos as int).take(4));
    }
    Some((x, pos + 4))
}

/// Reads a little-endian 64-bit integer at `pos`.
pub fn dec_u64_at(b: &Vec<u8>, pos: usize) -> (r: Option<(u64, usize)>)
    requires
        pos <= b@.len(),
    ensures
        ({
            let d = dec_u64(b@.skip(pos as int));
            match r {
                Some((v, np)) => d matches Some(dv) && v == dv.0 && np as int == pos + dv.1 && pos <= np && np
                    <= b@.len(),
                None => d is None,
            }
        }),
{
    if b.len() - pos < 8 {
        return None;
    }
    let sl = &b.as_slice()[pos..pos + 8];
    let x = u64_from_le_bytes(sl);
    proof {
        assert(sl@ =~= b@.skip(pos as int).take(8));
    }
    Some((x, pos + 8))
}

// ----------------------------------------------------------- exec: strings

/// Appends the wire form of `s` starting at character `from`.
fn enc_str_from(s: &str, from: usize, out: &mut Vec<u8>)
    requires
        from <= s@.len(),
    ensures
        final(out)@ == old(out)@ + enc_str(s@.skip(from as int)),
    decreases s@.len() - from,
{
    let n = s.unicode_len();
    if from == n {
        proof {
            assert(s@.skip(from as int) =~= Seq::<char>::empty());
        }
        enc_u32_into(CHAR_END, out);
        proof {
            assert(enc_str(s@.skip(from as int)) =~= enc_u32(CHAR_END));
        }
    } else {
        let c = s.get_char(from);
        enc_u32_into(c as u32, out);
        enc_str_from(s, from + 1, out);
        proof {
            let t = s@.skip(from as int);
            assert(t[0] == s@[from as int]);
            assert(t.drop_first() =~= s@.skip(from as int + 1));
            assert(enc_str(t) =~= enc_u32(t[0] as u32) + enc_str(t.drop_first()));
            assert(out@ =~= old(out)@ + enc_str(t));
        }
    }
}

/// Appends the wire form of a string.
pub fn enc_str_into(s: &String, out: &mut Vec<u8>)
    ensures
        final(out)@ == old(out)@ + enc_str(s@),
{
    enc_str_from(s.as_str(), 0, out);
    proof {
        assert(s@.skip(0) =~= s@);
    }
}

/// Reads a string at `pos`.
pub fn dec_str_at(b: &Vec<u8>, pos: usize) -> (r: Option<(String, usize)>)
    requires
        pos <= b@.len(),
    ensures
        ({
            let d = dec_str(b@.skip(pos as int));
            match r {
                Some((v, np)) => d matches Some(dv) && v@ == dv.0 && np as int == pos + dv.1 && pos <= np && np
                    <= b@.len(),
                None => d is None,
            }
        }),
    decreases b@.len() - pos,
{
    let (x, np) = match dec_u32_at(b, pos) {
        Some(p) => p,
        None => {
            return None;
        },
    };
    if x == CHAR_END {
        let empty = String::new();
        proof {
            assert(empty@ =~= Seq::<char>::empty());
        }
        return Some((empty, np));
    }
    let c = match char_from_u32(x) {
        Some(c) => c,
        None => {
            return None;
        },
    };
    match dec_str_at(b, np) {
        Some((tail, end)) => {
            let mut out = String::new();
            string_push(&mut out, c);
            out.append(tail.as_str());
            proof {
                char_u32_cast(c, x);
                let s = b@.skip(pos as int);
                assert(s.skip(4) =~= b@.skip(np as int));
                assert(out@ =~= seq![c] + tail@);
            }
            Some((out, end))
        },
        None => {
            proof {
                assert(b@.skip(pos as int).skip(4) =~= b@.skip(np as int));
            }
            None
        },
    }
}

} // verus!

// The list and record layers. `verus!` blocks below continue the module.

use crate::action::ActionModel;
use crate::assertion::{AssertionModel, AssertionDataModel};
use crate::digest::ContentDigest;
use crate::sign::{Signature, SigningAlg};

verus! {

// ----------------------------------------------------------- optional strings

pub open spec fn enc_opt_str(o: Option<Seq<char>>) -> Seq<u8> {
    match o {
        None => seq![0u8],
        Some(v) => seq![1u8] + enc_str(v),
    }
}

pub open spec fn dec_opt_str(s: Seq<u8>) -> Option<(Option<Seq<char>>, int)> {
    if s.len() < 1 {
        None
    } else if s[0] == 0 {
        Some((None, 1))
    } else if s[0] == 1 {
        match dec_str(s.skip(1)) {
            Some((v, n)) => Some((Some(v), 1 + n)),
            None => None,
        }
    } else {
        None
    }
}

pub proof fn lemma_dec_enc_opt_str(o: Option<Seq<char>>, rest: Seq<u8>)
    ensures
        dec_opt_str(enc_opt_str(o) + rest) == Some((o, enc_opt_str(o).len() as int)),
{
    let whole = enc_opt_str(o) + rest;
    match o {
        None => {
            assert(whole[0] == 0);
        },
        Some(v) => {
            assert(whole[0] == 1);
            assert(whole.skip(1) =~= enc_str(v) + rest);
            lemma_dec_enc_str(v, rest);
        },
    }
}

// ------------------------------------------------------------- pair lists

pub open spec fn enc_pairs(ps: Seq<(Seq<char>, Seq<char>)>) -> Seq<u8>
    decreases ps.len(),
{
    if ps.len() == 0 {
        seq![0u8]
    } else {
        seq![1u8] + enc_str(ps[0].0) + enc_str(ps[0].1) + enc_pairs(ps.drop_first())
    }
}

pub open spec fn dec_pairs(s: Seq<u8>, fuel: nat) -> Option<(Seq<(Seq<char>, Seq<char>)>, int)>
    decreases fuel,
{
    if fuel == 0 {
        None
    } else if s.len() < 1 {
        None
    } else if s[0] == 0 {
        Some((Seq::<(Seq<char>, Seq<char>)>::empty(), 1))
    } else if s[0] == 1 {
        match dec_str(s.skip(1)) {
            Some((k, n1)) => match dec_str(s.skip(1 + n1)) {
                Some((v, n2)) => match dec_pairs(s.skip(1 + n1 + n2), (fuel - 1) as nat) {
                    Some((t, n3)) => Some((seq![(k, v)] + t, 1 + n1 + n2 + n3)),
                    None => None,
                },
                None => None,
            },
            None => None,
        }
    } else {
        None
    }
}

pub proof fn lemma_dec_enc_pairs(ps: Seq<(Seq<char>, Seq<char>)>, rest: Seq<u8>, fuel: nat)
    requires
        fuel >= enc_pairs(ps).len(),
    ensures
        dec_pairs(enc_pairs(ps) + rest, fuel) == Some((ps, enc_pairs(ps).len() as int)),
    decreases ps.len(),
{
    let whole = enc_pairs(ps) + rest;
    if ps.len() == 0 {
        assert(whole[0] == 0);
        assert(ps =~= Seq::<(Seq<char>, Seq<char>)>::empty());
    } else {
        let ek = enc_str(ps[0].0);
        let ev = enc_str(ps[0].1);
        let et = enc_pairs(ps.drop_first());
        assert(whole[0] == 1);
        assert(whole.skip(1) =~= ek + (ev + (et + rest)));
        lemma_dec_enc_str(ps[0].0, ev + (et + rest));
        assert((ek + (ev + (et + rest))).skip(ek.len() as int) =~= ev + (et + rest));
        assert(whole.skip(1 + ek.len() as int) =~= ev + (et + rest));
        lemma_dec_enc_str(ps[0].1, et + rest);
        assert(whole.skip(1 + ek.len() as int + ev.len() as int) =~= et + rest);
        lemma_dec_enc_pairs(ps.drop_first(), rest, (fuel - 1) as nat);
        assert(seq![(ps[0].0, ps[0].1)] + ps.drop_first() =~= ps);
    }
}

// ---------------------------------------------------------------- actions

pub open spec fn enc_action(a: ActionModel) -> Seq<u8> {
    enc_str(a.action_type) + enc_u64(a.when) + enc_str(a.software_agent) + enc_opt_str(
        a.source_type,
    ) + enc_opt_str(a.reason) + enc_pairs(a.parameters)
}

pub open spec fn dec_action(s: Seq<u8>, fuel: nat) -> Option<(ActionModel, int)> {
    match dec_str(s) {
        Some((at, n1)) => match dec_u64(s.skip(n1)) {
            Some((wh, n2)) => match dec_str(s.skip(n1 + n2)) {
                Some((sa, n3)) => match dec_opt_str(s.skip(n1 + n2 + n3)) {
                    Some((st, n4)) => match dec_opt_str(s.skip(n1 + n2 + n3 + n4)) {
                        Some((re, n5)) => match dec_pairs(s.skip(n1 + n2 + n3 + n4 + n5), fuel) {
                            Some((ps, n6)) => Some(
                                (
                                    ActionModel {
                                        action_type: at,
                                        when: wh,
                                        software_agent: sa,
                                        source_type: st,
                                        reason: re,
                                        parameters: ps,
                                    },
                                    n1 + n2 + n3 + n4 + n5 + n6,
                                ),
                            ),
                            None => None,
                        },
                        None => None,
                    },
                    None => None,
                },
                None => None,
            },
            None => None,
        },
        None => None,
    }
}

#[verifier::spinoff_prover]
#[verifier::rlimit(60)]
pub proof fn lemma_dec_enc_action(a: ActionModel, rest: Seq<u8>, fuel: nat)
    requires
        fuel >= enc_pairs(a.parameters).len(),
    ensures
        dec_action(enc_action(a) + rest, fuel) == Some((a, enc_action(a).len() as int)),
{
    let e1 = enc_str(a.action_type);
    let e2 = enc_u64(a.when);
    let e3 = enc_str(a.software_agent);
    let e4 = enc_opt_str(a.source_type);
    let e5 = enc_opt_str(a.reason);
    let e6 = enc_pairs(a.parameters);
    let whole = enc_action(a) + rest;
    let t5 = e6 + rest;
    let t4 = e5 + t5;
    let t3 = e4 + t4;
    let t2 = e3 + t3;
    let t1 = e2 + t2;
    assert(whole =~= e1 + t1);
    lemma_dec_enc_str(a.action_type, t1);
    assert(whole.skip(e1.len() as int) =~= t1);
    lemma_dec_enc_u64(a.when, t2);
    assert(whole.skip(e1.len() as int + e2.len() as int) =~= t2);
    lemma_dec_enc_str(a.software_agent, t3);
    assert(whole.skip(e1.len() as int + e2.len() as int + e3.len() as int) =~= t3);
    lemma_dec_enc_opt_str(a.source_type, t4);
    assert(whole.skip(e1.len() as int + e2.len() as int + e3.len() as int + e4.len() as int) =~= t4);
    lemma_dec_enc_opt_str(a.reason, t5);
    assert(whole.skip(e1.len() as int + e2.len() as int + e3.len() as int + e4.len() as int + e5.len() as int) =~= t5);
    lemma_dec_enc_pairs(a.parameters, rest, fuel);
}

pub open spec fn enc_actions(list: Seq<ActionModel>) -> Seq<u8>
    decreases list.len(),
{
    if list.len() == 0 {
        seq![0u8]
    } else {
        seq![1u8] + enc_action(list[0]) + enc_actions(list.drop_first())
    }
}

pub open spec fn dec_actions(s: Seq<u8>, fuel: nat) -> Option<(Seq<ActionModel>, int)>
    decreases fuel,
{
    if fuel == 0 {
        None
    } else if s.len() < 1 {
        None
    } else if s[0] == 0 {
        Some((Seq::<ActionModel>::empty(), 1))
    } else if s[0] == 1 {
        match dec_action(s.skip(1), (fuel - 1) as nat) {
            Some((a, n1)) => match dec_actions(s.skip(1 + n1), (fuel - 1) as nat) {
                Some((t, n2)) => Some((seq![a] + t, 1 + n1 + n2)),
                None => None,
            },
            None => None,
        }
    } else {
        None
    }
}

#[verifier::spinoff_prover]
#[verifier::rlimit(60)]
pub proof fn lemma_dec_enc_actions(list: Seq<ActionModel>, rest: Seq<u8>, fuel: nat)
    requires
        fuel >= enc_actions(list).len(),
    ensures
        dec_actions(enc_actions(list) + rest, fuel) == Some(
            (list, enc_actions(list).len() as int),
        ),
    decreases list.len(),
{
    let whole = enc_actions(list) + rest;
    if list.len() == 0 {
        assert(whole[0] == 0);
        assert(list =~= Seq::<ActionModel>::empty());
    } else {
        let ea = enc_action(list[0]);
        let et = enc_actions(list.drop_first());
        assert(whole[0] == 1);
        assert(whole.skip(1) =~= ea + (et + rest));
        lemma_dec_enc_action(list[0], et + rest, (fuel - 1) as nat);
        assert(whole.skip(1 + ea.len() as int) =~= et + rest);
        lemma_dec_enc_actions(list.drop_first(), rest, (fuel - 1) as nat);
        assert(seq![list[0]] + list.drop_first() =~= list);
    }
}

} // verus!

verus! {

// --------------------------------------------------------- assertion payloads

pub open spec fn enc_data(d: AssertionDataModel) -> Seq<u8> {
    match d {
        AssertionDataModel::CreativeWork { author_name, author_identifier } => seq![1u8] + enc_str(
            author_name,
        ) + enc_str(author_identifier),
        AssertionDataModel::ActionSet { actions } => seq![2u8] + enc_actions(actions),
        AssertionDataModel::EmbeddedMetadata { fields } => seq![3u8] + enc_pairs(fields),
        AssertionDataModel::LabeledCustomData { fields } => seq![4u8] + enc_pairs(fields),
    }
}

pub open spec fn dec_data(s: Seq<u8>, fuel: nat) -> Option<(AssertionDataModel, int)> {
    if s.len() < 1 {
        None
    } else if s[0] == 1 {
        match dec_str(s.skip(1)) {
            Some((an, n1)) => match dec_str(s.skip(1 + n1)) {
                Some((ai, n2)) => Some(
                    (
                        AssertionDataModel::CreativeWork {
                            author_name: an,
                            author_identifier: ai,
                        },
                        1 + n1 + n2,
                    ),
                ),
                None => None,
            },
            None => None,
        }
    } else if s[0] == 2 {
        match dec_actions(s.skip(1), fuel) {
            Some((acts, n)) => Some((AssertionDataModel::ActionSet { actions: acts }, 1 + n)),
            None => None,
        }
    } else if s[0] == 3 {
        match dec_pairs(s.skip(1), fuel) {
            Some((fs, n)) => Some((AssertionDataModel::EmbeddedMetadata { fields: fs }, 1 + n)),
            None => None,
        }
    } else if s[0] == 4 {
        match dec_pairs(s.skip(1), fuel) {
            Some((fs, n)) => Some((AssertionDataModel::LabeledCustomData { fields: fs }, 1 + n)),
            None => None,
        }
    } else {
        None
    }
}

pub proof fn lemma_dec_enc_data(d: AssertionDataModel, rest: Seq<u8>, fuel: nat)
    requires
        fuel >= enc_data(d).len(),
    ensures
        dec_data(enc_data(d) + rest, fuel) == Some((d, enc_data(d).len() as int)),
{
    let whole = enc_data(d) + rest;
    match d {
        AssertionDataModel::CreativeWork { author_name, author_identifier } => {
            let e1 = enc_str(author_name);
            let e2 = enc_str(author_identifier);
            assert(whole[0] == 1);
            assert(whole.skip(1) =~= e1 + (e2 + rest));
            lemma_dec_enc_str(author_name, e2 + rest);
            assert(whole.skip(1 + e1.len() as int) =~= e2 + rest);
            lemma_dec_enc_str(author_identifier, rest);
        },
        AssertionDataModel::ActionSet { actions } => {
            assert(whole[0] == 2);
            assert(whole.skip(1) =~= enc_actions(actions) + rest);
            lemma_dec_enc_actions(actions, rest, fuel);
        },
        AssertionDataModel::EmbeddedMetadata { fields } => {
            assert(whole[0] == 3);
            assert(whole.skip(1) =~= enc_pairs(fields) + rest);
            lemma_dec_enc_pairs(fields, rest, fuel);
        },
        AssertionDataModel::LabeledCustomData { fields } => {
            assert(whole[0] == 4);
            assert(whole.skip(1) =~= enc_pairs(fields) + rest);
            lemma_dec_enc_pairs(fields, rest, fuel);
        },
    }
}

// --------------------------------------------------------------- assertions

pub open spec fn enc_assertion(a: AssertionModel) -> Seq<u8> {
    enc_str(a.label) + enc_data(a.data)
}

pub open spec fn dec_assertion(s: Seq<u8>, fuel: nat) -> Option<(AssertionModel, int)> {
    match dec_str(s) {
        Some((l, n1)) => match dec_data(s.skip(n1), fuel) {
            Some((d, n2)) => Some((AssertionModel { label: l, data: d }, n1 + n2)),
            None => None,
        },
        None => None,
    }
}

pub proof fn lemma_dec_enc_assertion(a: AssertionModel, rest: Seq<u8>, fuel: nat)
    requires
        fuel >= enc_data(a.data).len(),
    ensures
        dec_assertion(enc_assertion(a) + rest, fuel) == Some((a, enc_assertion(a).len() as int)),
{
    let e1 = enc_str(a.label);
    let e2 = enc_data(a.data);
    let whole = enc_assertion(a) + rest;
    assert(whole =~= e1 + (e2 + rest));
    lemma_dec_enc_str(a.label, e2 + rest);
    assert(whole.skip(e1.len() as int) =~= e2 + rest);
    lemma_dec_enc_data(a.data, rest, fuel);
}

pub open spec fn enc_assertions(list: Seq<AssertionModel>) -> Seq<u8>
    decreases list.len(),
{
    if list.len() == 0 {
        seq![0u8]
    } else {
        seq![1u8] + enc_assertion(list[0]) + enc_assertions(list.drop_first())
    }
}

pub open spec fn dec_assertions(s: Seq<u8>, fuel: nat) -> Option<(Seq<AssertionModel>, int)>
    decreases fuel,
{
    if fuel == 0 {
        None
    } else if s.len() < 1 {
        None
    } else if s[0] == 0 {
        Some((Seq::<AssertionModel>::empty(), 1))
    } else if s[0] == 1 {
        match dec_assertion(s.skip(1), (fuel - 1) as nat) {
            Some((a, n1)) => match dec_assertions(s.skip(1 + n1), (fuel - 1) as nat) {
                Some((t, n2)) => Some((seq![a] + t, 1 + n1 + n2)),
                None => None,
            },
            None => None,
        }
    } else {
        None
    }
}

pub proof fn lemma_dec_enc_assertions(list: Seq<AssertionModel>, rest: Seq<u8>, fuel: nat)
    requires
        fuel >= enc_assertions(list).len(),
    ensures
        dec_assertions(enc_assertions(list) + rest, fuel) == Some(
            (list, enc_assertions(list).len() as int),
        ),
    decreases list.len(),
{
    let whole = enc_assertions(list) + rest;
    if list.len() == 0 {
        assert(whole[0] == 0);
        assert(list =~= Seq::<AssertionModel>::empty());
    } else {
        let ea = enc_assertion(list[0]);
        let et = enc_assertions(list.drop_first());
        assert(whole[0] == 1);
        assert(whole.skip(1) =~= ea + (et + rest));
        lemma_enc_str_len(list[0].label);
        lemma_dec_enc_assertion(list[0], et + rest, (fuel - 1) as nat);
        assert(whole.skip(1 + ea.len() as int) =~= et + rest);
        lemma_dec_enc_assertions(list.drop_first(), rest, (fuel - 1) as nat);
        assert(seq![list[0]] + list.drop_first() =~= list);
    }
}

// ------------------------------------------------- digests and signatures

pub open spec fn enc_digest(d: ContentDigest) -> Seq<u8> {
    enc_u64(d.len) + enc_u64(d.sum)
}

pub open spec fn dec_digest(s: Seq<u8>) -> Option<(ContentDigest, int)> {
    match dec_u64(s) {
        Some((l, n1)) => match dec_u64(s.skip(n1)) {
            Some((m, n2)) => Some((ContentDigest { len: l, sum: m }, n1 + n2)),
            None => None,
        },
        None => None,
    }
}

pub proof fn lemma_dec_enc_digest(d: ContentDigest, rest: Seq<u8>)
    ensures
        enc_digest(d).len() == 16,
        dec_digest(enc_digest(d) + rest) == Some((d, 16int)),
{
    let e1 = enc_u64(d.len);
    let e2 = enc_u64(d.sum);
    let whole = enc_digest(d) + rest;
    assert(whole =~= e1 + (e2 + rest));
    lemma_dec_enc_u64(d.len, e2 + rest);
    assert(whole.skip(e1.len() as int) =~= e2 + rest);
    lemma_dec_enc_u64(d.sum, rest);
}

pub open spec fn enc_alg(a: SigningAlg) -> Seq<u8> {
    match a {
        SigningAlg::Ps256 => seq![1u8],
        SigningAlg::Es256 => seq![2u8],
    }
}

pub open spec fn dec_alg(s: Seq<u8>) -> Option<(SigningAlg, int)> {
    if s.len() < 1 {
        None
    } else if s[0] == 1 {
        Some((SigningAlg::Ps256, 1))
    } else if s[0] == 2 {
        Some((SigningAlg::Es256, 1))
    } else {
        None
    }
}

pub open spec fn enc_sig(sig: Signature) -> Seq<u8> {
    enc_alg(sig.alg) + enc_u64(sig.tag)
}

pub open spec fn dec_sig(s: Seq<u8>) -> Option<(Signature, int)> {
    match dec_alg(s) {
        Some((a, n1)) => match dec_u64(s.skip(n1)) {
            Some((t, n2)) => Some((Signature { alg: a, tag: t }, n1 + n2)),
            None => None,
        },
        None => None,
    }
}

pub proof fn lemma_dec_enc_sig(sig: Signature, rest: Seq<u8>)
    ensures
        enc_sig(sig).len() == 9,
        dec_sig(enc_sig(sig) + rest) == Some((sig, 9int)),
{
    let e1 = enc_alg(sig.alg);
    let e2 = enc_u64(sig.tag);
    let whole = enc_sig(sig) + rest;
    assert(whole =~= e1 + (e2 + rest));
    lemma_dec_enc_u64(sig.tag, rest);
    assert(whole.skip(1) =~= e2 + rest);
}

pub open spec fn enc_opt_sig(o: Option<Signature>) -> Seq<u8> {
    match o {
        None => seq![0u8],
        Some(sig) => seq![1u8] + enc_sig(sig),
    }
}

pub open spec fn dec_opt_sig(s: Seq<u8>) -> Option<(Option<Signature>, int)> {
    if s.len() < 1 {
        None
    } else if s[0] == 0 {
        Some((None, 1))
    } else if s[0] == 1 {
        match dec_sig(s.skip(1)) {
            Some((sig, n)) => Some((Some(sig), 1 + n)),
            None => None,
        }
    } else {
        None
    }
}

pub proof fn lemma_dec_enc_opt_sig(o: Option<Signature>, rest: Seq<u8>)
    ensures
        dec_opt_sig(enc_opt_sig(o) + rest) == Some((o, enc_opt_sig(o).len() as int)),
{
    let whole = enc_opt_sig(o) + rest;
    match o {
        None => {
            assert(whole[0] == 0);
        },
        Some(sig) => {
            assert(whole[0] == 1);
            assert(whole.skip(1) =~= enc_sig(sig) + rest);
            lemma_dec_enc_sig(sig, rest);
        },
    }
}

pub open spec fn enc_opt_digest(o: Option<ContentDigest>) -> Seq<u8> {
    match o {
        None => seq![0u8],
        Some(d) => seq![1u8] + enc_digest(d),
    }
}

pub open spec fn dec_opt_digest(s: Seq<u8>) -> Option<(Option<ContentDigest>, int)> {
    if s.len() < 1 {
        None
    } else if s[0] == 0 {
        Some((None, 1))
    } else if s[0] == 1 {
        match dec_digest(s.skip(1)) {
            Some((d, n)) => Some((Some(d), 1 + n)),
            None => None,
        }
    } else {
        None
    }
}

pub proof fn lemma_dec_enc_opt_digest(o: Option<ContentDigest>, rest: Seq<u8>)
    ensures
        dec_opt_digest(enc_opt_digest(o) + rest) == Some((o, enc_opt_digest(o).len() as int)),
{
    let whole = enc_opt_digest(o) + rest;
    match o {
        None => {
            assert(whole[0] == 0);
        },
        Some(d) => {
            assert(whole[0] == 1);
            assert(whole.skip(1) =~= enc_digest(d) + rest);
            lemma_dec_enc_digest(d, rest);
        },
    }
}

} // verus!

use crate::manifest::{ManifestModel, IngredientModel};

verus! {

// ------------------------------------------------- manifests and ingredients

pub open spec fn enc_manifest(m: ManifestModel) -> Seq<u8>
    decreases m,
{
    enc_str(m.claim_generator) + enc_opt_str(m.title) + enc_str(m.format) + enc_assertions(
        m.assertions,
    ) + (match m.parent {
        None => seq![0u8],
        Some(i) => seq![1u8] + enc_ingredient(i),
    }) + enc_opt_sig(m.signature) + enc_opt_digest(m.content_digest)
}

pub open spec fn enc_ingredient(i: IngredientModel) -> Seq<u8>
    decreases i,
{
    enc_str(i.instance_id) + (match i.parent_manifest {
        None => seq![0u8],
        Some(b) => seq![1u8] + enc_manifest(*b),
    })
}

pub open spec fn dec_manifest(s: Seq<u8>, fuel: nat) -> Option<(ManifestModel, int)>
    decreases fuel,
{
    if fuel == 0 {
        None
    } else {
        match dec_str(s) {
            Some((cg, n1)) => match dec_opt_str(s.skip(n1)) {
                Some((ti, n2)) => match dec_str(s.skip(n1 + n2)) {
                    Some((fm, n3)) => match dec_assertions(s.skip(n1 + n2 + n3), fuel) {
                        Some((asr, n4)) => {
                            let p4 = n1 + n2 + n3 + n4;
                            let sp = s.skip(p4);
                            if sp.len() < 1 {
                                None
                            } else if sp[0] != 0 && sp[0] != 1 {
                                None
                            } else {
                                let parent_and_len: Option<(Option<IngredientModel>, int)> = if sp[0]
                                    == 0 {
                                    Some((None, 1))
                                } else {
                                    match dec_ingredient(sp.skip(1), (fuel - 1) as nat) {
                                        Some((ig, ni)) => Some((Some(ig), 1 + ni)),
                                        None => None,
                                    }
                                };
                                match parent_and_len {
                                    Some((pa, n5)) => match dec_opt_sig(s.skip(p4 + n5)) {
                                        Some((sg, n6)) => match dec_opt_digest(
                                            s.skip(p4 + n5 + n6),
                                        ) {
                                            Some((dg, n7)) => Some(
                                                (
                                                    ManifestModel {
                                                        claim_generator: cg,
                                                        title: ti,
                                                        format: fm,
                                                        assertions: asr,
                                                        parent: pa,
                                                        signature: sg,
                                                        content_digest: dg,
                                                    },
                                                    p4 + n5 + n6 + n7,
                                                ),
                                            ),
                                            None => None,
                                        },
                                        None => None,
                                    },
                                    None => None,
                                }
                            }
                        },
                        None => None,
                    },
                    None => None,
                },
                None => None,
            },
            None => None,
        }
    }
}

pub open spec fn dec_ingredient(s: Seq<u8>, fuel: nat) -> Option<(IngredientModel, int)>
    decreases fuel,
{
    if fuel == 0 {
        None
    } else {
        match dec_str(s) {
            Some((iid, n1)) => {
                let sp = s.skip(n1);
                if sp.len() < 1 {
                    None
                } else if sp[0] == 0 {
                    Some((IngredientModel { instance_id: iid, parent_manifest: None }, n1 + 1))
                } else if sp[0] == 1 {
                    match dec_manifest(sp.skip(1), (fuel - 1) as nat) {
                        Some((pm, n2)) => Some(
                            (
                                IngredientModel {
                                    instance_id: iid,
                                    parent_manifest: Some(Box::new(pm)),
                                },
                                n1 + 1 + n2,
                            ),
                        ),
                        None => None,
                    }
                } else {
                    None
                }
            },
            None => None,
        }
    }
}


/// Skipping past the first segment of a concatenation leaves the second.
pub proof fn lemma_skip_concat(a: Seq<u8>, b: Seq<u8>)
    ensures
        (a + b).skip(a.len() as int) == b,
{
    assert((a + b).skip(a.len() as int) =~= b);
}

/// Two skips compose by adding their offsets.
pub proof fn lemma_skip_skip(s: Seq<u8>, a: int, b: int)
    requires
        0 <= a,
        0 <= b,
        a + b <= s.len(),
    ensures
        s.skip(a).skip(b) == s.skip(a + b),
{
    assert(s.skip(a).skip(b) =~= s.skip(a + b));
}

#[verifier::spinoff_prover]
#[verifier::rlimit(100)]
pub proof fn lemma_dec_enc_manifest(m: ManifestModel, rest: Seq<u8>, fuel: nat)
    requires
        fuel >= enc_manifest(m).len(),
    ensures
        dec_manifest(enc_manifest(m) + rest, fuel) == Some((m, enc_manifest(m).len() as int)),
    decreases m,
{
    let e1 = enc_str(m.claim_generator);
    let e2 = enc_opt_str(m.title);
    let e3 = enc_str(m.format);
    let e4 = enc_assertions(m.assertions);
    let e5: Seq<u8> = match m.parent {
        None => seq![0u8],
        Some(i) => seq![1u8] + enc_ingredient(i),
    };
    let e6 = enc_opt_sig(m.signature);
    let e7 = enc_opt_digest(m.content_digest);
    let whole = enc_manifest(m) + rest;
    let t6 = e7 + rest;
    let t5 = e6 + t6;
    let t4 = e5 + t5;
    let t3 = e4 + t4;
    let t2 = e3 + t3;
    let t1 = e2 + t2;
    let l1 = e1.len() as int;
    let l2 = e2.len() as int;
    let l3 = e3.len() as int;
    let l4 = e4.len() as int;
    let l5 = e5.len() as int;
    let l6 = e6.len() as int;
    lemma_enc_str_len(m.claim_generator);
    assert(whole =~= e1 + t1);
    lemma_dec_enc_str(m.claim_generator, t1);
    lemma_skip_concat(e1, t1);
    assert(whole.skip(l1) == t1);
    lemma_dec_enc_opt_str(m.title, t2);
    lemma_skip_skip(whole, l1, l2);
    lemma_skip_concat(e2, t2);
    assert(whole.skip(l1 + l2) == t2);
    lemma_dec_enc_str(m.format, t3);
    lemma_skip_skip(whole, l1 + l2, l3);
    lemma_skip_concat(e3, t3);
    assert(whole.skip(l1 + l2 + l3) == t3);
    lemma_dec_enc_assertions(m.assertions, t4, fuel);
    let p4 = l1 + l2 + l3 + l4;
    lemma_skip_skip(whole, l1 + l2 + l3, l4);
    lemma_skip_concat(e4, t4);
    assert(whole.skip(p4) == t4);
    match m.parent {
        None => {
            assert(t4[0] == 0);
        },
        Some(i) => {
            assert(t4[0] == 1);
            assert(t4.skip(1) =~= enc_ingredient(i) + t5);
            lemma_dec_enc_ingredient(i, t5, (fuel - 1) as nat);
        },
    }
    lemma_skip_skip(whole, p4, l5);
    lemma_skip_concat(e5, t5);
    assert(whole.skip(p4 + l5) == t5);
    lemma_dec_enc_opt_sig(m.signature, t6);
    lemma_skip_skip(whole, p4 + l5, l6);
    lemma_skip_concat(e6, t6);
    assert(whole.skip(p4 + l5 + l6) == t6);
    lemma_dec_enc_opt_digest(m.content_digest, rest);
}

#[verifier::spinoff_prover]
#[verifier::rlimit(100)]
pub proof fn lemma_dec_enc_ingredient(i: IngredientModel, rest: Seq<u8>, fuel: nat)
    requires
        fuel >= enc_ingredient(i).len(),
    ensures
        dec_ingredient(enc_ingredient(i) + rest, fuel) == Some(
            (i, enc_ingredient(i).len() as int),
        ),
    decreases i,
{
    let e1 = enc_str(i.instance_id);
    let whole = enc_ingredient(i) + rest;
    lemma_enc_str_len(i.instance_id);
    match i.parent_manifest {
        None => {
            assert(whole =~= e1 + (seq![0u8] + rest));
            lemma_dec_enc_str(i.instance_id, seq![0u8] + rest);
            assert(whole.skip(e1.len() as int) =~= seq![0u8] + rest);
            assert((seq![0u8] + rest)[0] == 0);
        },
        Some(b) => {
            let em = enc_manifest(*b);
            let t1 = seq![1u8] + (em + rest);
            assert(whole =~= e1 + t1);
            lemma_dec_enc_str(i.instance_id, t1);
            assert(whole.skip(e1.len() as int) =~= t1);
            assert(t1[0] == 1);
            assert(t1.skip(1) =~= em + rest);
            lemma_dec_enc_manifest(*b, rest, (fuel - 1) as nat);
            assert(Box::new(*b) == b);
        },
    }
}

// -------------------------------------------------------------- store entries

pub open spec fn enc_entries(es: Seq<(Seq<char>, ManifestModel)>) -> Seq<u8>
    decreases es.len(),
{
    if es.len() == 0 {
        seq![0u8]
    } else {
        seq![1u8] + enc_str(es[0].0) + enc_manifest(es[0].1) + enc_entries(es.drop_first())
    }
}

pub open spec fn dec_entries(s: Seq<u8>, fuel: nat) -> Option<(Seq<(Seq<char>, ManifestModel)>, int)>
    decreases fuel,
{
    if fuel == 0 {
        None
    } else if s.len() < 1 {
        None
    } else if s[0] == 0 {
        Some((Seq::<(Seq<char>, ManifestModel)>::empty(), 1))
    } else if s[0] == 1 {
        match dec_str(s.skip(1)) {
            Some((l, n1)) => match dec_manifest(s.skip(1 + n1), (fuel - 1) as nat) {
                Some((m, n2)) => match dec_entries(s.skip(1 + n1 + n2), (fuel - 1) as nat) {
                    Some((t, n3)) => Some((seq![(l, m)] + t, 1 + n1 + n2 + n3)),
                    None => None,
                },
                None => None,
            },
            None => None,
        }
    } else {
        None
    }
}

#[verifier::spinoff_prover]
#[verifier::rlimit(100)]
pub proof fn lemma_dec_enc_entries(es: Seq<(Seq<char>, ManifestModel)>, rest: Seq<u8>, fuel: nat)
    requires
        fuel >= enc_entries(es).len(),
    ensures
        dec_entries(enc_entries(es) + rest, fuel) == Some((es, enc_entries(es).len() as int)),
    decreases es.len(),
{
    let whole = enc_entries(es) + rest;
    if es.len() == 0 {
        assert(whole[0] == 0);
        assert(es =~= Seq::<(Seq<char>, ManifestModel)>::empty());
    } else {
        let el = enc_str(es[0].0);
        let em = enc_manifest(es[0].1);
        let et = enc_entries(es.drop_first());
        assert(whole[0] == 1);
        assert(whole.skip(1) =~= el + (em + (et + rest)));
        lemma_dec_enc_str(es[0].0, em + (et + rest));
        assert(whole.skip(1 + el.len() as int) =~= em + (et + rest));
        lemma_dec_enc_manifest(es[0].1, et + rest, (fuel - 1) as nat);
        assert(whole.skip(1 + el.len() as int + em.len() as int) =~= et + rest);
        lemma_dec_enc_entries(es.drop_first(), rest, (fuel - 1) as nat);
        assert(seq![(es[0].0, es[0].1)] + es.drop_first() =~= es);
    }
}

} // verus!

use crate::action::{Action, pairs_view, opt_str_view};
use crate::assertion::{Assertion, AssertionData};

verus! {

// ------------------------------------------------------------ exec: encoders

/// Appends the wire form of an optional string.
pub fn enc_opt_str_into(o: &Option<String>, out: &mut Vec<u8>)
    ensures
        final(out)@ == old(out)@ + enc_opt_str(opt_str_view(*o)),
{
    match o {
        None => {
            out.push(0u8);
            proof {
                assert(out@ =~= old(out)@ + seq![0u8]);
            }
        },
        Some(s) => {
            out.push(1u8);
            enc_str_into(s, out);
            proof {
                assert(out@ =~= old(out)@ + (seq![1u8] + enc_str(s@)));
            }
        },
    }
}

/// Appends the wire form of the key/value pairs from index `from` on.
fn enc_pairs_from(v: &Vec<(String, String)>, from: usize, out: &mut Vec<u8>)
    requires
        from <= v@.len(),
    ensures
        final(out)@ == old(out)@ + enc_pairs(pairs_view(v@).skip(from as int)),
    decreases v@.len() - from,
{
    let ghost ps = pairs_view(v@).skip(from as int);
    proof {
        assert(pairs_view(v@).len() == v@.len());
    }
    if from == v.len() {
        out.push(0u8);
        proof {
            assert(ps =~= Seq::<(Seq<char>, Seq<char>)>::empty());
            assert(out@ =~= old(out)@ + seq![0u8]);
        }
    } else {
        out.push(1u8);
        enc_str_into(&v[from].0, out);
        enc_str_into(&v[from].1, out);
        enc_pairs_from(v, from + 1, out);
        proof {
            assert(pairs_view(v@)[from as int] == (v@[from as int].0@, v@[from as int].1@));
            assert(ps[0] == pairs_view(v@)[from as int]);
            assert(ps.drop_first() =~= pairs_view(v@).skip(from as int + 1));
            assert(out@ =~= old(out)@ + (seq![1u8] + enc_str(ps[0].0) + enc_str(ps[0].1)
                + enc_pairs(ps.drop_first())));
        }
    }
}

/// Appends the wire form of a key/value pair list.
pub fn enc_pairs_into(v: &Vec<(String, String)>, out: &mut Vec<u8>)
    ensures
        final(out)@ == old(out)@ + enc_pairs(pairs_view(v@)),
{
    enc_pairs_from(v, 0, out);
    proof {
        assert(pairs_view(v@).skip(0) =~= pairs_view(v@));
    }
}

/// Appends the wire form of one action.
pub fn enc_action_into(a: &Action, out: &mut Vec<u8>)
    ensures
        final(out)@ == old(out)@ + enc_action(a@),
{
    enc_str_into(&a.action_type, out);
    enc_u64_into(a.when, out);
    enc_str_into(&a.software_agent, out);
    enc_opt_str_into(&a.source_type, out);
    enc_opt_str_into(&a.reason, out);
    enc_pairs_into(&a.parameters, out);
    proof {
        assert(out@ =~= old(out)@ + enc_action(a@));
    }
}

/// Appends the wire form of the actions from index `from` on.
fn enc_actions_from(v: &Vec<Action>, from: usize, out: &mut Vec<u8>)
    requires
        from <= v@.len(),
    ensures
        final(out)@ == old(out)@ + enc_actions(v@.map_values(|a: Action| a@).skip(from as int)),
    decreases v@.len() - from,
{
    let ghost ms = v@.map_values(|a: Action| a@).skip(from as int);
    proof {
        assert(v@.map_values(|a: Action| a@).len() == v@.len());
    }
    if from == v.len() {
        out.push(0u8);
        proof {
            assert(ms =~= Seq::<ActionModel>::empty());
            assert(out@ =~= old(out)@ + seq![0u8]);
        }
    } else {
        out.push(1u8);
        enc_action_into(&v[from], out);
        enc_actions_from(v, from + 1, out);
        proof {
            assert(v@.map_values(|a: Action| a@)[from as int] == v@[from as int]@);
            assert(ms[0] == v@[from as int]@);
            assert(ms.drop_first() =~= v@.map_values(|a: Action| a@).skip(from as int + 1));
            assert(out@ =~= old(out)@ + (seq![1u8] + enc_action(ms[0]) + enc_actions(
                ms.drop_first(),
            )));
        }
    }
}

/// Appends the wire form of an action list.
pub fn enc_actions_into(v: &Vec<Action>, out: &mut Vec<u8>)
    ensures
        final(out)@ == old(out)@ + enc_actions(v@.map_values(|a: Action| a@)),
{
    enc_actions_from(v, 0, out);
    proof {
        let ms = v@.map_values(|a: Action| a@);
        assert(ms.skip(0) =~= ms);
    }
}

/// Appends the wire form of an assertion payload.
pub fn enc_data_into(d: &AssertionData, out: &mut Vec<u8>)
    ensures
        final(out)@ == old(out)@ + enc_data(d@),
{
    match d {
        AssertionData::CreativeWork { author_name, author_identifier } => {
            out.push(1u8);
            enc_str_into(author_name, out);
            enc_str_into(author_identifier, out);
            proof {
                assert(out@ =~= old(out)@ + (seq![1u8] + enc_str(author_name@) + enc_str(
                    author_identifier@,
                )));
            }
        },
        AssertionData::ActionSet { actions } => {
            out.push(2u8);
            enc_actions_into(actions, out);
            proof {
                assert(out@ =~= old(out)@ + (seq![2u8] + enc_actions(
                    actions@.map_values(|a: Action| a@),
                )));
            }
        },
        AssertionData::EmbeddedMetadata { fields } => {
            out.push(3u8);
            enc_pairs_into(fields, out);
            proof {
                assert(out@ =~= old(out)@ + (seq![3u8] + enc_pairs(pairs_view(fields@))));
            }
        },
        AssertionData::LabeledCustomData { fields } => {
            out.push(4u8);
            enc_pairs_into(fields, out);
            proof {
                assert(out@ =~= old(out)@ + (seq![4u8] + enc_pairs(pairs_view(fields@))));
            }
        },
    }
}

/// Appends the wire form of one assertion.
pub fn enc_assertion_into(a: &Assertion, out: &mut Vec<u8>)
    ensures
        final(out)@ == old(out)@ + enc_assertion(a@),
{
    enc_str_into(&a.label, out);
    enc_data_into(&a.data, out);
    proof {
        assert(out@ =~= old(out)@ + enc_assertion(a@));
    }
}

/// Appends the wire form of the assertions from index `from` on.
fn enc_assertions_from(v: &Vec<Assertion>, from: usize, out: &mut Vec<u8>)
    requires
        from <= v@.len(),
    ensures
        final(out)@ == old(out)@ + enc_assertions(
            v@.map_values(|a: Assertion| a@).skip(from as int),
        ),
    decreases v@.len() - from,
{
    let ghost ms = v@.map_values(|a: Assertion| a@).skip(from as int);
    proof {
        assert(v@.map_values(|a: Assertion| a@).len() == v@.len());
    }
    if from == v.len() {
        out.push(0u8);
        proof {
            assert(ms =~= Seq::<AssertionModel>::empty());
            assert(out@ =~= old(out)@ + seq![0u8]);
        }
    } else {
        out.push(1u8);
        enc_assertion_into(&v[from], out);
        enc_assertions_from(v, from + 1, out);
        proof {
            assert(v@.map_values(|a: Assertion| a@)[from as int] == v@[from as int]@);
            assert(ms[0] == v@[from as int]@);
            assert(ms.drop_first() =~= v@.map_values(|a: Assertion| a@).skip(from as int + 1));
            assert(out@ =~= old(out)@ + (seq![1u8] + enc_assertion(ms[0]) + enc_assertions(
                ms.drop_first(),
            )));
        }
    }
}

/// Appends the wire form of an assertion list.
pub fn enc_assertions_into(v: &Vec<Assertion>, out: &mut Vec<u8>)
    ensures
        final(out)@ == old(out)@ + enc_assertions(v@.map_values(|a: Assertion| a@)),
{
    enc_assertions_from(v, 0, out);
    proof {
        let ms = v@.map_values(|a: Assertion| a@);
        assert(ms.skip(0) =~= ms);
    }
}

/// Appends the wire form of a content digest.
pub fn enc_digest_into(d: ContentDigest, out: &mut Vec<u8>)
    ensures
        final(out)@ == old(out)@ + enc_digest(d),
{
    enc_u64_into(d.len, out);
    enc_u64_into(d.sum, out);
    proof {
        assert(out@ =~= old(out)@ + enc_digest(d));
    }
}

/// Appends the wire form of an optional signature.
pub fn enc_opt_sig_into(o: Option<Signature>, out: &mut Vec<u8>)
    ensures
        final(out)@ == old(out)@ + enc_opt_sig(o),
{
    match o {
        None => {
            out.push(0u8);
            proof {
                assert(out@ =~= old(out)@ + seq![0u8]);
            }
        },
        Some(sig) => {
            out.push(1u8);
            match sig.alg {
                SigningAlg::Ps256 => out.push(1u8),
                SigningAlg::Es256 => out.push(2u8),
            }
            enc_u64_into(sig.tag, out);
            proof {
                assert(out@ =~= old(out)@ + (seq![1u8] + (enc_alg(sig.alg) + enc_u64(sig.tag))));
            }
        },
    }
}

/// Appends the wire form of an optional content digest.
pub fn enc_opt_digest_into(o: Option<ContentDigest>, out: &mut Vec<u8>)
    ensures
        final(out)@ == old(out)@ + enc_opt_digest(o),
{
    match o {
        None => {
            out.push(0u8);
            proof {
                assert(out@ =~= old(out)@ + seq![0u8]);
            }
        },
        Some(d) => {
            out.push(1u8);
            enc_digest_into(d, out);
            proof {
                assert(out@ =~= old(out)@ + (seq![1u8] + enc_digest(d)));
            }
        },
    }
}

} // verus!

verus! {

// ------------------------------------------------------------ exec: decoders

/// Reads an optional string at `pos`.
pub fn dec_opt_str_at(b: &Vec<u8>, pos: usize) -> (r: Option<(Option<String>, usize)>)
    requires
        pos <= b@.len(),
    ensures
        ({
            let d = dec_opt_str(b@.skip(pos as int));
            match r {
                Some((v, np)) => d matches Some(dv) && opt_str_view(v) == dv.0 && np as int == pos
                    + dv.1 && pos <= np && np <= b@.len(),
                None => d is None,
            }
        }),
{
    if b.len() - pos < 1 {
        return None;
    }
    let tag = b[pos];
    proof {
        assert(b@.skip(pos as int)[0] == b@[pos as int]);
    }
    if tag == 0 {
        Some((None, pos + 1))
    } else if tag == 1 {
        match dec_str_at(b, pos + 1) {
            Some((v, np)) => {
                proof {
                    assert(b@.skip(pos as int).skip(1) =~= b@.skip(pos as int + 1));
                }
                Some((Some(v), np))
            },
            None => {
                proof {
                    assert(b@.skip(pos as int).skip(1) =~= b@.skip(pos as int + 1));
                }
                None
            },
        }
    } else {
        None
    }
}

/// Reads key/value pairs at `pos`, appending them to `acc`. On `None`, what
/// `acc` holds is unspecified.
fn dec_pairs_acc(b: &Vec<u8>, pos: usize, fuel: u64, acc: &mut Vec<(String, String)>) -> (r:
    Option<usize>)
    requires
        pos <= b@.len(),
    ensures
        ({
            let d = dec_pairs(b@.skip(pos as int), fuel as nat);
            match r {
                Some(np) => d matches Some(dv) && pairs_view(final(acc)@) == pairs_view(
                    old(acc)@,
                ) + dv.0 && np as int == pos + dv.1 && pos <= np && np <= b@.len(),
                None => d is None,
            }
        }),
    decreases fuel,
{
    if fuel == 0 {
        return None;
    }
    if b.len() - pos < 1 {
        return None;
    }
    let tag = b[pos];
    proof {
        assert(b@.skip(pos as int)[0] == b@[pos as int]);
    }
    if tag == 0 {
        proof {
            assert(pairs_view(acc@) =~= pairs_view(acc@) + Seq::<(Seq<char>, Seq<char>)>::empty());
        }
        return Some(pos + 1);
    }
    if tag != 1 {
        return None;
    }
    proof {
        lemma_skip_skip(b@, pos as int, 1);
    }
    let (k, p1) = match dec_str_at(b, pos + 1) {
        Some(x) => x,
        None => {
            return None;
        },
    };
    let ghost n1 = p1 - pos - 1;
    proof {
        lemma_skip_skip(b@, pos as int, 1 + n1);
        assert(b@.skip(pos as int).skip(1 + n1) == b@.skip(p1 as int));
    }
    let (v, p2) = match dec_str_at(b, p1) {
        Some(x) => x,
        None => {
            return None;
        },
    };
    let ghost n2 = p2 - p1;
    proof {
        lemma_skip_skip(b@, pos as int, 1 + n1 + n2);
        assert(b@.skip(pos as int).skip(1 + n1 + n2) == b@.skip(p2 as int));
    }
    let ghost before = acc@;
    acc.push((k, v));
    let r = dec_pairs_acc(b, p2, fuel - 1, acc);
    match r {
        Some(np) => {
            proof {
                let s = b@.skip(pos as int);
                let dt = dec_pairs(s.skip(1 + n1 + n2), (fuel - 1) as nat);
                assert(dt is Some);
                let t = dt.unwrap().0;
                assert(dec_pairs(s, fuel as nat) == Some(
                    (seq![(k@, v@)] + t, 1 + n1 + n2 + dt.unwrap().1),
                ));
                assert(pairs_view(before.push((k, v))) =~= pairs_view(before) + seq![(k@, v@)]);
                assert(pairs_view(acc@) =~= pairs_view(before) + (seq![(k@, v@)] + t));
            }
            Some(np)
        },
        None => None,
    }
}

/// Reads a key/value pair list at `pos`.
pub fn dec_pairs_at(b: &Vec<u8>, pos: usize, fuel: u64) -> (r: Option<(Vec<(String, String)>, usize)>)
    requires
        pos <= b@.len(),
    ensures
        ({
            let d = dec_pairs(b@.skip(pos as int), fuel as nat);
            match r {
                Some((v, np)) => d matches Some(dv) && pairs_view(v@) == dv.0 && np as int == pos
                    + dv.1 && pos <= np && np <= b@.len(),
                None => d is None,
            }
        }),
{
    let mut acc: Vec<(String, String)> = Vec::new();
    match dec_pairs_acc(b, pos, fuel, &mut acc) {
        Some(np) => {
            proof {
                assert(pairs_view(Seq::<(String, String)>::empty()) =~= Seq::<(
                    Seq<char>,
                    Seq<char>,
                )>::empty());
            }
            Some((acc, np))
        },
        None => None,
    }
}

/// Reads one action at `pos`.
pub fn dec_action_at(b: &Vec<u8>, pos: usize, fuel: u64) -> (r: Option<(Action, usize)>)
    requires
        pos <= b@.len(),
    ensures
        ({
            let d = dec_action(b@.skip(pos as int), fuel as nat);
            match r {
                Some((a, np)) => d matches Some(dv) && a@ == dv.0 && np as int == pos + dv.1 && pos <= np && np
                    <= b@.len(),
                None => d is None,
            }
        }),
{
    let (at, p1) = match dec_str_at(b, pos) {
        Some(x) => x,
        None => {
            return None;
        },
    };
    proof {
        assert(b@.skip(pos as int).skip((p1 - pos) as int) =~= b@.skip(p1 as int));
    }
    let (wh, p2) = match dec_u64_at(b, p1) {
        Some(x) => x,
        None => {
            return None;
        },
    };
    proof {
        assert(b@.skip(p1 as int).skip((p2 - p1) as int) =~= b@.skip(p2 as int));
        assert(b@.skip(pos as int).skip((p2 - pos) as int) =~= b@.skip(p2 as int));
    }
    let (sa, p3) = match dec_str_at(b, p2) {
        Some(x) => x,
        None => {
            return None;
        },
    };
    proof {
        assert(b@.skip(pos as int).skip((p3 - pos) as int) =~= b@.skip(p3 as int));
    }
    let (st, p4) = match dec_opt_str_at(b, p3) {
        Some(x) => x,
        None => {
            return None;
        },
    };
    proof {
        assert(b@.skip(pos as int).skip((p4 - pos) as int) =~= b@.skip(p4 as int));
    }
    let (re, p5) = match dec_opt_str_at(b, p4) {
        Some(x) => x,
        None => {
            return None;
        },
    };
    proof {
        assert(b@.skip(pos as int).skip((p5 - pos) as int) =~= b@.skip(p5 as int));
    }
    let (ps, p6) = match dec_pairs_at(b, p5, fuel) {
        Some(x) => x,
        None => {
            return None;
        },
    };
    Some(
        (
            Action {
                action_type: at,
                when: wh,
                software_agent: sa,
                source_type: st,
                reason: re,
                parameters: ps,
            },
            p6,
        ),
    )
}

} // verus!

verus! {

/// Reads actions at `pos`, appending them to `acc`. On `None`, what `acc`
/// holds is unspecified.
fn dec_actions_acc(b: &Vec<u8>, pos: usize, fuel: u64, acc: &mut Vec<Action>) -> (r: Option<usize>)
    requires
        pos <= b@.len(),
    ensures
        ({
            let d = dec_actions(b@.skip(pos as int), fuel as nat);
            match r {
                Some(np) => d matches Some(dv) && final(acc)@.map_values(|a: Action| a@) == old(
                    acc,
                )@.map_values(|a: Action| a@) + dv.0 && np as int == pos + dv.1 && pos <= np && np
                    <= b@.len(),
                None => d is None,
            }
        }),
    decreases fuel,
{
    if fuel == 0 {
        return None;
    }
    if b.len() - pos < 1 {
        return None;
    }
    let tag = b[pos];
    proof {
        assert(b@.skip(pos as int)[0] == b@[pos as int]);
    }
    if tag == 0 {
        proof {
            assert(acc@.map_values(|a: Action| a@) =~= acc@.map_values(|a: Action| a@)
                + Seq::<ActionModel>::empty());
        }
        return Some(pos + 1);
    }
    if tag != 1 {
        return None;
    }
    proof {
        lemma_skip_skip(b@, pos as int, 1);
    }
    let (a, p1) = match dec_action_at(b, pos + 1, fuel - 1) {
        Some(x) => x,
        None => {
            return None;
        },
    };
    let ghost n1 = p1 - pos - 1;
    proof {
        lemma_skip_skip(b@, pos as int, 1 + n1);
        assert(b@.skip(pos as int).skip(1 + n1) == b@.skip(p1 as int));
    }
    let ghost before = acc@;
    acc.push(a);
    let r = dec_actions_acc(b, p1, fuel - 1, acc);
    match r {
        Some(np) => {
            proof {
                let s = b@.skip(pos as int);
                let dt = dec_actions(s.skip(1 + n1), (fuel - 1) as nat);
                assert(dt is Some);
                let t = dt.unwrap().0;
                assert(dec_actions(s, fuel as nat) == Some(
                    (seq![a@] + t, 1 + n1 + dt.unwrap().1),
                ));
                assert(before.push(a).map_values(|x: Action| x@) =~= before.map_values(
                    |x: Action| x@,
                ) + seq![a@]);
                assert(acc@.map_values(|x: Action| x@) =~= before.map_values(|x: Action| x@) + (
                seq![a@] + t));
            }
            Some(np)
        },
        None => None,
    }
}

/// Reads an action list at `pos`.
pub fn dec_actions_at(b: &Vec<u8>, pos: usize, fuel: u64) -> (r: Option<(Vec<Action>, usize)>)
    requires
        pos <= b@.len(),
    ensures
        ({
            let d = dec_actions(b@.skip(pos as int), fuel as nat);
            match r {
                Some((v, np)) => d matches Some(dv) && v@.map_values(|a: Action| a@) == dv.0 && np
                    as int == pos + dv.1 && pos <= np && np <= b@.len(),
                None => d is None,
            }
        }),
{
    let mut acc: Vec<Action> = Vec::new();
    match dec_actions_acc(b, pos, fuel, &mut acc) {
        Some(np) => {
            proof {
                assert(Seq::<Action>::empty().map_values(|a: Action| a@)
                    =~= Seq::<ActionModel>::empty());
            }
            Some((acc, np))
        },
        None => None,
    }
}

/// Reads an assertion payload at `pos`.
pub fn dec_data_at(b: &Vec<u8>, pos: usize, fuel: u64) -> (r: Option<(AssertionData, usize)>)
    requires
        pos <= b@.len(),
    ensures
        ({
            let d = dec_data(b@.skip(pos as int), fuel as nat);
            match r {
                Some((v, np)) => d matches Some(dv) && v@ == dv.0 && np as int == pos + dv.1 && pos
                    <= np && np <= b@.len(),
                None => d is None,
            }
        }),
{
    if b.len() - pos < 1 {
        return None;
    }
    let tag = b[pos];
    proof {
        assert(b@.skip(pos as int)[0] == b@[pos as int]);
        lemma_skip_skip(b@, pos as int, 1);
    }
    if tag == 1 {
        let (an, p1) = match dec_str_at(b, pos + 1) {
            Some(x) => x,
            None => {
                return None;
            },
        };
        proof {
            lemma_skip_skip(b@, pos as int, 1 + (p1 - pos - 1));
            assert(b@.skip(pos as int).skip(1 + (p1 - pos - 1)) == b@.skip(p1 as int));
        }
        let (ai, p2) = match dec_str_at(b, p1) {
            Some(x) => x,
            None => {
                return None;
            },
        };
        Some((AssertionData::CreativeWork { author_name: an, author_identifier: ai }, p2))
    } else if tag == 2 {
        match dec_actions_at(b, pos + 1, fuel) {
            Some((acts, np)) => Some((AssertionData::ActionSet { actions: acts }, np)),
            None => None,
        }
    } else if tag == 3 {
        match dec_pairs_at(b, pos + 1, fuel) {
            Some((fs, np)) => Some((AssertionData::EmbeddedMetadata { fields: fs }, np)),
            None => None,
        }
    } else if tag == 4 {
        match dec_pairs_at(b, pos + 1, fuel) {
            Some((fs, np)) => Some((AssertionData::LabeledCustomData { fields: fs }, np)),
            None => None,
        }
    } else {
        None
    }
}

/// Reads one assertion at `pos`.
pub fn dec_assertion_at(b: &Vec<u8>, pos: usize, fuel: u64) -> (r: Option<(Assertion, usize)>)
    requires
        pos <= b@.len(),
    ensures
        ({
            let d = dec_assertion(b@.skip(pos as int), fuel as nat);
            match r {
                Some((v, np)) => d matches Some(dv) && v@ == dv.0 && np as int == pos + dv.1 && pos
                    <= np && np <= b@.len(),
                None => d is None,
            }
        }),
{
    let (l, p1) = match dec_str_at(b, pos) {
        Some(x) => x,
        None => {
            return None;
        },
    };
    proof {
        lemma_skip_skip(b@, pos as int, p1 - pos);
        assert(b@.skip(pos as int).skip(p1 - pos) == b@.skip(p1 as int));
    }
    match dec_data_at(b, p1, fuel) {
        Some((d, p2)) => Some((Assertion { label: l, data: d }, p2)),
        None => None,
    }
}

/// Reads assertions at `pos`, appending them to `acc`. On `None`, what `acc`
/// holds is unspecified.
fn dec_assertions_acc(b: &Vec<u8>, pos: usize, fuel: u64, acc: &mut Vec<Assertion>) -> (r: Option<
    usize,
>)
    requires
        pos <= b@.len(),
    ensures
        ({
            let d = dec_assertions(b@.skip(pos as int), fuel as nat);
            match r {
                Some(np) => d matches Some(dv) && final(acc)@.map_values(|a: Assertion| a@) == old(
                    acc,
                )@.map_values(|a: Assertion| a@) + dv.0 && np as int == pos + dv.1 && pos <= np
                    && np <= b@.len(),
                None => d is None,
            }
        }),
    decreases fuel,
{
    if fuel == 0 {
        return None;
    }
    if b.len() - pos < 1 {
        return None;
    }
    let tag = b[pos];
    proof {
        assert(b@.skip(pos as int)[0] == b@[pos as int]);
    }
    if tag == 0 {
        proof {
            assert(acc@.map_values(|a: Assertion| a@) =~= acc@.map_values(|a: Assertion| a@)
                + Seq::<AssertionModel>::empty());
        }
        return Some(pos + 1);
    }
    if tag != 1 {
        return None;
    }
    proof {
        lemma_skip_skip(b@, pos as int, 1);
    }
    let (a, p1) = match dec_assertion_at(b, pos + 1, fuel - 1) {
        Some(x) => x,
        None => {
            return None;
        },
    };
    let ghost n1 = p1 - pos - 1;
    proof {
        lemma_skip_skip(b@, pos as int, 1 + n1);
        assert(b@.skip(pos as int).skip(1 + n1) == b@.skip(p1 as int));
    }
    let ghost before = acc@;
    acc.push(a);
    let r = dec_assertions_acc(b, p1, fuel - 1, acc);
    match r {
        Some(np) => {
            proof {
                let s = b@.skip(pos as int);
                let dt = dec_assertions(s.skip(1 + n1), (fuel - 1) as nat);
                assert(dt is Some);
                let t = dt.unwrap().0;
                assert(dec_assertions(s, fuel as nat) == Some(
                    (seq![a@] + t, 1 + n1 + dt.unwrap().1),
                ));
                assert(before.push(a).map_values(|x: Assertion| x@) =~= before.map_values(
                    |x: Assertion| x@,
                ) + seq![a@]);
                assert(acc@.map_values(|x: Assertion| x@) =~= before.map_values(|x: Assertion| x@)
                    + (seq![a@] + t));
            }
            Some(np)
        },
        None => None,
    }
}

/// Reads an assertion list at `pos`.
pub fn dec_assertions_at(b: &Vec<u8>, pos: usize, fuel: u64) -> (r: Option<(Vec<Assertion>, usize)>)
    requires
        pos <= b@.len(),
    ensures
        ({
            let d = dec_assertions(b@.skip(pos as int), fuel as nat);
            match r {
                Some((v, np)) => d matches Some(dv) && v@.map_values(|a: Assertion| a@) == dv.0
                    && np as int == pos + dv.1 && pos <= np && np <= b@.len(),
                None => d is None,
            }
        }),
{
    let mut acc: Vec<Assertion> = Vec::new();
    match dec_assertions_acc(b, pos, fuel, &mut acc) {
        Some(np) => {
            proof {
                assert(Seq::<Assertion>::empty().map_values(|a: Assertion| a@)
                    =~= Seq::<AssertionModel>::empty());
            }
            Some((acc, np))
        },
        None => None,
    }
}

/// Reads an optional signature at `pos`.
pub fn dec_opt_sig_at(b: &Vec<u8>, pos: usize) -> (r: Option<(Option<Signature>, usize)>)
    requires
        pos <= b@.len(),
    ensures
        ({
            let d = dec_opt_sig(b@.skip(pos as int));
            match r {
                Some((v, np)) => d matches Some(dv) && v == dv.0 && np as int == pos + dv.1 && pos
                    <= np && np <= b@.len(),
                None => d is None,
            }
        }),
{
    if b.len() - pos < 1 {
        return None;
    }
    let tag = b[pos];
    proof {
        assert(b@.skip(pos as int)[0] == b@[pos as int]);
        lemma_skip_skip(b@, pos as int, 1);
    }
    if tag == 0 {
        return Some((None, pos + 1));
    }
    if tag != 1 {
        return None;
    }
    if b.len() - pos < 2 {
        return None;
    }
    let atag = b[pos + 1];
    proof {
        assert(b@.skip(pos as int + 1)[0] == b@[pos as int + 1]);
        lemma_skip_skip(b@, pos as int + 1, 1);
    }
    let alg = if atag == 1 {
        SigningAlg::Ps256
    } else if atag == 2 {
        SigningAlg::Es256
    } else {
        return None;
    };
    match dec_u64_at(b, pos + 2) {
        Some((t, np)) => Some((Some(Signature { alg, tag: t }), np)),
        None => None,
    }
}

/// Reads an optional content digest at `pos`.
pub fn dec_opt_digest_at(b: &Vec<u8>, pos: usize) -> (r: Option<(Option<ContentDigest>, usize)>)
    requires
        pos <= b@.len(),
    ensures
        ({
            let d = dec_opt_digest(b@.skip(pos as int));
            match r {
                Some((v, np)) => d matches Some(dv) && v == dv.0 && np as int == pos + dv.1 && pos
                    <= np && np <= b@.len(),
                None => d is None,
            }
        }),
{
    if b.len() - pos < 1 {
        return None;
    }
    let tag = b[pos];
    proof {
        assert(b@.skip(pos as int)[0] == b@[pos as int]);
        lemma_skip_skip(b@, pos as int, 1);
    }
    if tag == 0 {
        return Some((None, pos + 1));
    }
    if tag != 1 {
        return None;
    }
    let (l, p1) = match dec_u64_at(b, pos + 1) {
        Some(x) => x,
        None => {
            return None;
        },
    };
    proof {
        lemma_skip_skip(b@, pos as int + 1, p1 - pos - 1);
        assert(b@.skip(pos as int + 1).skip(p1 - pos - 1) == b@.skip(p1 as int));
    }
    match dec_u64_at(b, p1) {
        Some((m, np)) => Some((Some(ContentDigest { len: l, sum: m }), np)),
        None => None,
    }
}

} // verus!
