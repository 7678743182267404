//! The laws of the checker: what correction and training guarantee,
//! stated over the specification model and proved once for all inputs.

use vstd::prelude::*;
use crate::checker::{best_from, best_over_groups, correct_spec, count_in, trained};
use crate::text::tokens_of;
use crate::edit::edits_of;
use crate::table::{bump, sat_inc};

verus! {

/// A known query is returned unchanged: an exact match wins over every
/// edit, whatever the frequencies, and correction is the identity on
/// the trained vocabulary.
pub proof fn lemma_exact_match_precedence(w: Seq<char>, m: Map<Seq<char>, u32>)
    requires
        m.contains_key(w),
    ensures
        correct_spec(w, m) == w,
{
}

/// Scanning candidates left to right yields a known candidate of
/// maximal count, never worse than the starting value.
proof fn lemma_best_from_props(b0: Option<Seq<char>>, cands: Seq<Seq<char>>, m: Map<Seq<char>, u32>)
    requires
        match b0 {
            None => true,
            Some(c0) => m.contains_key(c0),
        },
    ensures
        match best_from(b0, cands, m) {
            None => b0 == None::<Seq<char>> && (forall|i: int|
                0 <= i < cands.len() ==> !m.contains_key(#[trigger] cands[i])),
            Some(c) => {
                &&& m.contains_key(c)
                &&& (cands.contains(c) || b0 == Some(c))
                &&& (forall|i: int|
                    0 <= i < cands.len() && m.contains_key(#[trigger] cands[i]) ==> m[cands[i]]
                        <= m[c])
                &&& (match b0 {
                    None => true,
                    Some(c0) => m[c0] <= m[c],
                })
            },
        },
    decreases cands.len(),
{
    if cands.len() > 0 {
        lemma_best_from_props(b0, cands.drop_last(), m);
        let pre = best_from(b0, cands.drop_last(), m);
        assert(forall|i: int| 0 <= i < cands.len() - 1 ==> cands.drop_last()[i] == #[trigger] cands[i]);
        match best_from(b0, cands, m) {
            None => {},
            Some(c) => {
                if pre == Some(c) {
                    if cands.drop_last().contains(c) {
                        let k = choose|k: int|
                            0 <= k < cands.drop_last().len() && cands.drop_last()[k] == c;
                        assert(cands[k] == c);
                        assert(cands.contains(c));
                    }
                } else {
                    assert(c == cands.last());
                    assert(cands[cands.len() - 1] == c);
                    assert(cands.contains(c));
                }
            },
        }
    }
}

/// Scanning the edits of every word of `ws` yields a known candidate of
/// maximal count among them, never worse than the starting value.
proof fn lemma_best_groups_props(
    b0: Option<Seq<char>>,
    ws: Seq<Seq<char>>,
    m: Map<Seq<char>, u32>,
)
    requires
        match b0 {
            None => true,
            Some(c0) => m.contains_key(c0),
        },
    ensures
        match best_over_groups(b0, ws, m) {
            None => b0 == None::<Seq<char>> && (forall|i: int, j: int|
                #![trigger edits_of(ws[i])[j]]
                0 <= i < ws.len() && 0 <= j < edits_of(ws[i]).len() ==> !m.contains_key(
                    edits_of(ws[i])[j],
                )),
            Some(c) => {
                &&& m.contains_key(c)
                &&& ((exists|i: int|
                    0 <= i < ws.len() && #[trigger] edits_of(ws[i]).contains(c)) || b0 == Some(c))
                &&& (forall|i: int, j: int|
                    #![trigger edits_of(ws[i])[j]]
                    0 <= i < ws.len() && 0 <= j < edits_of(ws[i]).len() && m.contains_key(
                        edits_of(ws[i])[j],
                    ) ==> m[edits_of(ws[i])[j]] <= m[c])
                &&& (match b0 {
                    None => true,
                    Some(c0) => m[c0] <= m[c],
                })
            },
        },
    decreases ws.len(),
{
    if ws.len() > 0 {
        lemma_best_groups_props(b0, ws.drop_last(), m);
        let pre = best_over_groups(b0, ws.drop_last(), m);
        lemma_best_from_props(pre, edits_of(ws.last()), m);
        assert(forall|i: int| 0 <= i < ws.len() - 1 ==> ws.drop_last()[i] == #[trigger] ws[i]);
        assert(ws[ws.len() - 1] == ws.last());
        match best_over_groups(b0, ws, m) {
            None => {},
            Some(c) => {
                if pre == Some(c) {
                    if exists|i: int|
                        0 <= i < ws.drop_last().len() && #[trigger] edits_of(
                            ws.drop_last()[i],
                        ).contains(c) {
                        let k = choose|k: int|
                            0 <= k < ws.drop_last().len() && #[trigger] edits_of(
                                ws.drop_last()[k],
                            ).contains(c);
                        assert(edits_of(ws[k]).contains(c));
                    }
                } else {
                    if edits_of(ws.last()).contains(c) {
                        assert(edits_of(ws[ws.len() - 1]).contains(c));
                    }
                }
            },
        }
    }
}

/// The tiers are strictly ordered. An exact match beats every edit. A
/// known word at edit distance one beats every candidate at distance
/// two, whatever their counts: when any distance-one candidate is
/// known, the correction is itself a distance-one candidate of maximal
/// count. When none is known but a distance-two candidate is, the
/// correction is a distance-two candidate of maximal count.
pub proof fn lemma_tier_ordering(w: Seq<char>, m: Map<Seq<char>, u32>)
    ensures
        m.contains_key(w) ==> correct_spec(w, m) == w,
        (!m.contains_key(w) && (exists|i: int|
            0 <= i < edits_of(w).len() && m.contains_key(#[trigger] edits_of(w)[i]))) ==> {
            &&& edits_of(w).contains(correct_spec(w, m))
            &&& m.contains_key(correct_spec(w, m))
            &&& (forall|i: int|
                0 <= i < edits_of(w).len() && m.contains_key(#[trigger] edits_of(w)[i])
                    ==> m[edits_of(w)[i]] <= m[correct_spec(w, m)])
        },
        (!m.contains_key(w) && (forall|i: int|
            0 <= i < edits_of(w).len() ==> !m.contains_key(#[trigger] edits_of(w)[i])) && (
        exists|i: int, j: int|
            #![trigger edits_of(edits_of(w)[i])[j]]
            0 <= i < edits_of(w).len() && 0 <= j < edits_of(edits_of(w)[i]).len()
                && m.contains_key(edits_of(edits_of(w)[i])[j]))) ==> {
            &&& (exists|i: int|
                0 <= i < edits_of(w).len() && #[trigger] edits_of(edits_of(w)[i]).contains(
                    correct_spec(w, m),
                ))
            &&& m.contains_key(correct_spec(w, m))
            &&& (forall|i: int, j: int|
                #![trigger edits_of(edits_of(w)[i])[j]]
                0 <= i < edits_of(w).len() && 0 <= j < edits_of(edits_of(w)[i]).len()
                    && m.contains_key(edits_of(edits_of(w)[i])[j]) ==> m[edits_of(edits_of(w)[i])[j]]
                    <= m[correct_spec(w, m)])
        },
{
    lemma_best_from_props(None, edits_of(w), m);
    lemma_best_groups_props(None, edits_of(w), m);
    // case split: which tier supplied the winning candidate
    if !m.contains_key(w) {
        match best_from(None, edits_of(w), m) {
            Some(c) => {},
            None => {},
        }
    }
}

/// A query with no known word within edit distance two comes back
/// unchanged: correction never fails, it degrades to the identity.
pub proof fn lemma_fallback_identity(w: Seq<char>, m: Map<Seq<char>, u32>)
    requires
        !m.contains_key(w),
        forall|i: int| 0 <= i < edits_of(w).len() ==> !m.contains_key(#[trigger] edits_of(w)[i]),
        forall|i: int, j: int|
            #![trigger edits_of(edits_of(w)[i])[j]]
            0 <= i < edits_of(w).len() && 0 <= j < edits_of(edits_of(w)[i]).len()
                ==> !m.contains_key(edits_of(edits_of(w)[i])[j]),
    ensures
        correct_spec(w, m) == w,
{
    lemma_best_from_props(None, edits_of(w), m);
    lemma_best_groups_props(None, edits_of(w), m);
    match best_from(None, edits_of(w), m) {
        Some(c) => {
            let k = choose|k: int| 0 <= k < edits_of(w).len() && edits_of(w)[k] == c;
            assert(false);
        },
        None => {},
    }
    match best_over_groups(None, edits_of(w), m) {
        Some(c) => {
            let k = choose|k: int|
                0 <= k < edits_of(w).len() && #[trigger] edits_of(edits_of(w)[k]).contains(c);
            let l = choose|l: int|
                0 <= l < edits_of(edits_of(w)[k]).len() && edits_of(edits_of(w)[k])[l] == c;
            assert(false);
        },
        None => {},
    }
}

/// Under an empty table every correction is the identity.
pub proof fn lemma_untrained_identity(w: Seq<char>)
    ensures
        correct_spec(w, Map::<Seq<char>, u32>::empty()) == w,
{
    let m = Map::<Seq<char>, u32>::empty();
    lemma_fallback_identity(w, m);
}

/// Training never lowers a count: across successive calls the recorded
/// counts only grow.
pub proof fn lemma_training_monotone(m: Map<Seq<char>, u32>, toks: Seq<Seq<char>>, k: Seq<char>)
    ensures
        count_in(trained(m, toks), k) >= count_in(m, k),
    decreases toks.len(),
{
    if toks.len() > 0 {
        lemma_training_monotone(m, toks.drop_last(), k);
        let pre = trained(m, toks.drop_last());
        assert(sat_inc(count_in(pre, toks.last())) >= count_in(pre, toks.last()));
        assert(count_in(bump(pre, toks.last()), k) >= count_in(pre, k));
    }
}

/// Every word trained on becomes known, with a count of at least one:
/// with exact-match precedence, correction is the identity on the
/// whole trained vocabulary.
pub proof fn lemma_trained_words_are_known(m: Map<Seq<char>, u32>, toks: Seq<Seq<char>>, i: int)
    requires
        0 <= i < toks.len(),
    ensures
        trained(m, toks).contains_key(toks[i]),
        count_in(trained(m, toks), toks[i]) >= 1,
        correct_spec(toks[i], trained(m, toks)) == toks[i],
    decreases toks.len(),
{
    let pre = trained(m, toks.drop_last());
    if i == toks.len() - 1 {
        assert(count_in(bump(pre, toks.last()), toks.last()) >= 1);
    } else {
        lemma_trained_words_are_known(m, toks.drop_last(), i);
        assert(toks.drop_last()[i] == toks[i]);
        assert(count_in(bump(pre, toks.last()), toks[i]) >= 1);
    }
}

/// Text without characters yields no tokens, and training on no tokens
/// leaves the table as it was.
pub proof fn lemma_empty_text_trains_nothing(m: Map<Seq<char>, u32>, s: Seq<char>)
    requires
        s.len() == 0,
    ensures
        tokens_of(s).len() == 0,
        trained(m, tokens_of(s)) == m,
{
}

/// Training on two token sequences in turn gives the same table as
/// training once on their concatenation.
pub proof fn lemma_training_sequential(
    m: Map<Seq<char>, u32>,
    t1: Seq<Seq<char>>,
    t2: Seq<Seq<char>>,
)
    ensures
        trained(m, t1 + t2) == trained(trained(m, t1), t2),
    decreases t2.len(),
{
    if t2.len() == 0 {
        assert(t1 + t2 =~= t1);
    } else {
        lemma_training_sequential(m, t1, t2.drop_last());
        assert((t1 + t2).drop_last() =~= t1 + t2.drop_last());
        assert((t1 + t2).last() == t2.last());
    }
}

} // verus!
