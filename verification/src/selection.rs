//! Deterministic coin selection for withdrawals: candidates are taken from
//! the free pool in ascending order of value, ties broken by outpoint, and
//! accumulated greedily until the target amount is covered. Selection stops
//! with the first output that covers the target, which bounds the leftover
//! change below the last selected value.

use vstd::prelude::*;
use crate::utxo::{Utxo, distinct_outpoints, spec_total};

verus! {

/// The candidate order: ascending by value, ties broken by transaction id and
/// then output index, so selection is reproducible.
pub open spec fn utxo_le(a: Utxo, b: Utxo) -> bool {
    ||| a.value < b.value
    ||| (a.value == b.value && a.outpoint.txid < b.outpoint.txid)
    ||| (a.value == b.value && a.outpoint.txid == b.outpoint.txid && a.outpoint.vout <= b.outpoint.vout)
}

/// Ascending under the candidate order.
pub open spec fn sorted(s: Seq<Utxo>) -> bool {
    forall|i: int, j: int| 0 <= i < j < s.len() ==> utxo_le(s[i], s[j])
}

fn le(a: Utxo, b: Utxo) -> (r: bool)
    ensures
        r == utxo_le(a, b),
{
    if a.value < b.value {
        true
    } else if a.value == b.value {
        if a.outpoint.txid < b.outpoint.txid {
            true
        } else if a.outpoint.txid == b.outpoint.txid {
            a.outpoint.vout <= b.outpoint.vout
        } else {
            false
        }
    } else {
        false
    }
}

/// The index of the least candidate under the order. Among outputs with
/// distinct outpoints the order is strict, so the least one is unique.
pub open spec fn spec_min_index(s: Seq<Utxo>) -> int
    decreases s.len(),
{
    if s.len() <= 1 {
        0
    } else {
        let m = spec_min_index(s.drop_last());
        if utxo_le(s[m], s.last()) {
            m
        } else {
            s.len() - 1
        }
    }
}

/// The least index is always within bounds.
proof fn lemma_min_index_in_range(s: Seq<Utxo>)
    requires
        s.len() > 0,
    ensures
        0 <= spec_min_index(s) < s.len(),
    decreases s.len(),
{
    if s.len() > 1 {
        lemma_min_index_in_range(s.drop_last());
    }
}

fn min_index(v: &Vec<Utxo>) -> (r: usize)
    requires
        v@.len() > 0,
        distinct_outpoints(v@),
    ensures
        r < v@.len(),
        forall|j: int| 0 <= j < v@.len() ==> utxo_le(v@[r as int], v@[j]),
        r as int == spec_min_index(v@),
{
    let mut best: usize = 0;
    let mut i: usize = 1;
    while i < v.len()
        invariant
            distinct_outpoints(v@),
            1 <= i,
            i <= v@.len(),
            best < i,
            forall|j: int| 0 <= j < i ==> utxo_le(v@[best as int], v@[j]),
            best as int == spec_min_index(v@.subrange(0, i as int)),
        decreases v@.len() - i,
    {
        let ghost pre = v@.subrange(0, i as int);
        let ghost old_best = best as int;
        if le(v[i], v[best]) {
            proof {
                // A tie would put one outpoint at two indices.
                if utxo_le(v@[best as int], v@[i as int]) {
                    assert(v@[best as int].outpoint == v@[i as int].outpoint);
                    assert(false);
                }
            }
            best = i;
        } else {
            proof {
                assert(utxo_le(v@[old_best], v@[i as int]));
            }
        }
        i += 1;
        proof {
            let cur = v@.subrange(0, i as int);
            assert(cur.drop_last() =~= pre);
            assert(cur.last() == v@[i - 1]);
            assert(cur.len() > 1);
            assert(best as int == spec_min_index(cur));
        }
    }
    proof {
        assert(v@.subrange(0, v@.len() as int) =~= v@);
    }
    best
}

/// A total of output values is never negative.
proof fn lemma_total_nonneg(s: Seq<Utxo>)
    ensures
        spec_total(s) >= 0,
    decreases s.len(),
{
    if s.len() > 0 {
        lemma_total_nonneg(s.drop_last());
    }
}

/// Removing index `i` subtracts exactly that value from the total.
proof fn lemma_total_remove(s: Seq<Utxo>, i: int)
    requires
        0 <= i < s.len(),
    ensures
        spec_total(s.remove(i)) == spec_total(s) - s[i].value,
    decreases s.len(),
{
    if i == s.len() - 1 {
        assert(s.remove(i) =~= s.drop_last());
    } else {
        let t = s.drop_last();
        lemma_total_remove(t, i);
        assert(s.remove(i).drop_last() =~= t.remove(i));
        assert(s.remove(i).last() == s.last());
    }
}

/// The greedy selection itself, as a recursive function: while the target is
/// not yet covered, take the least remaining candidate; fail when the
/// candidates run out first.
pub open spec fn spec_greedy_rec(
    remaining: Seq<Utxo>,
    sel: Seq<Utxo>,
    acc: int,
    target: int,
) -> Option<Seq<Utxo>>
    decreases remaining.len(),
{
    if acc >= target {
        Some(sel)
    } else if remaining.len() == 0 {
        None
    } else {
        let i0 = spec_min_index(remaining);
        let i = if 0 <= i0 < remaining.len() { i0 } else { 0 };
        spec_greedy_rec(
            remaining.remove(i),
            sel.push(remaining[i]),
            acc + remaining[i].value,
            target,
        )
    }
}

/// What greedy ascending selection chooses from these candidates for this
/// target.
pub open spec fn spec_greedy(candidates: Seq<Utxo>, target: int) -> Option<Seq<Utxo>> {
    spec_greedy_rec(candidates, Seq::empty(), 0, target)
}

/// Whether some listed output carries this outpoint.
pub open spec fn selected_outpoint(sel: Seq<Utxo>, u: Utxo) -> bool {
    exists|m: int| 0 <= m < sel.len() && (#[trigger] sel[m]).outpoint == u.outpoint
}

/// Greedy ascending coin selection. Selection succeeds exactly when the
/// candidates taken all together cover the target.
///
/// On success the selection is a duplicate-free sub-collection of the
/// candidates, listed in ascending order, it covers the target, it did
/// not cover the target before its last output was added — the greedy
/// stopping rule, which also bounds the change below the last value added —
/// and it takes the smallest candidates: no output it leaves behind is
/// smaller than one it takes. Under the strict candidate order these clauses
/// determine the selection uniquely.
pub fn greedy_select(candidates: &Vec<Utxo>, target: u64) -> (r: Option<Vec<Utxo>>)
    requires
        distinct_outpoints(candidates@),
    ensures
        match r {
            Some(sel) => {
                &&& spec_total(sel@) >= target
                &&& sorted(sel@)
                &&& distinct_outpoints(sel@)
                &&& forall|k: int| 0 <= k < sel@.len() ==> candidates@.contains(#[trigger] sel@[k])
                &&& (sel@.len() > 0 ==> spec_total(sel@.drop_last()) < target)
                &&& (target == 0 ==> sel@.len() == 0)
                &&& forall|j: int, k: int|
                    0 <= j < candidates@.len() && 0 <= k < sel@.len()
                        && !selected_outpoint(sel@, #[trigger] candidates@[j])
                        ==> utxo_le(#[trigger] sel@[k], candidates@[j])
                &&& spec_greedy(candidates@, target as int) == Some(sel@)
            },
            None => {
                &&& spec_total(candidates@) < target
                &&& spec_greedy(candidates@, target as int) is None
            },
        },
        r is Some <==> spec_total(candidates@) >= target,
{
    let mut remaining = clone_utxos(candidates);
    let mut sel: Vec<Utxo> = Vec::new();
    let mut sum: u128 = 0;
    loop
        invariant
            sum as int == spec_total(sel@),
            spec_total(sel@) + spec_total(remaining@) == spec_total(candidates@),
            forall|k: int| 0 <= k < sel@.len() ==> candidates@.contains(#[trigger] sel@[k]),
            forall|k: int| 0 <= k < remaining@.len() ==> candidates@.contains(#[trigger] remaining@[k]),
            sorted(sel@),
            distinct_outpoints(sel@),
            distinct_outpoints(remaining@),
            forall|a: int, b: int|
                0 <= a < sel@.len() && 0 <= b < remaining@.len()
                    ==> sel@[a].outpoint != remaining@[b].outpoint,
            forall|a: int, b: int|
                0 <= a < sel@.len() && 0 <= b < remaining@.len()
                    ==> utxo_le(sel@[a], remaining@[b]),
            sel@.len() > 0 ==> spec_total(sel@.drop_last()) < target,
            target == 0 ==> sel@.len() == 0,
            forall|j: int| 0 <= j < candidates@.len()
                ==> selected_outpoint(sel@, #[trigger] candidates@[j])
                    || remaining@.contains(candidates@[j]),
            spec_greedy_rec(remaining@, sel@, sum as int, target as int)
                == spec_greedy(candidates@, target as int),
        decreases remaining@.len(),
    {
        if sum >= target as u128 {
            proof {
                lemma_total_nonneg(remaining@);
                assert forall|j: int, k: int|
                    0 <= j < candidates@.len() && 0 <= k < sel@.len()
                        && !selected_outpoint(sel@, #[trigger] candidates@[j])
                        implies utxo_le(#[trigger] sel@[k], candidates@[j]) by {
                    assert(remaining@.contains(candidates@[j]));
                    let b = choose|b: int|
                        0 <= b < remaining@.len() && remaining@[b] == candidates@[j];
                    assert(utxo_le(sel@[k], remaining@[b]));
                }
            }
            return Some(sel);
        }
        if remaining.len() == 0 {
            assert(spec_total(remaining@) == 0);
            return None;
        }
        let i = min_index(&remaining);
        let x = remaining[i];
        let ghost before = remaining@;
        proof {
            lemma_min_index_in_range(before);
        }
        remaining.remove(i);
        proof {
            lemma_total_remove(before, i as int);
            assert(remaining@ == before.remove(i as int));
            assert forall|b: int| 0 <= b < remaining@.len()
                implies candidates@.contains(#[trigger] remaining@[b])
                    && utxo_le(x, remaining@[b])
                    && x.outpoint != remaining@[b].outpoint
                    && forall|a: int| 0 <= a < sel@.len()
                        ==> sel@[a].outpoint != remaining@[b].outpoint
                            && utxo_le(sel@[a], remaining@[b]) by {
                if b < i {
                    assert(remaining@[b] == before[b]);
                } else {
                    assert(remaining@[b] == before[b + 1]);
                }
            }
        }
        let ghost sel_before = sel@;
        sel.push(x);
        sum = sum + (x.value as u128);
        proof {
            assert(sel@.drop_last() =~= sel_before);
            assert(sel@.last() == x);
            assert(candidates@.contains(x)) by {
                assert(before[i as int] == x);
            }
            assert(spec_total(sel@) == spec_total(sel_before) + x.value);
            // Every candidate is still accounted for: selected earlier, the
            // output just selected, or still among the remaining.
            assert forall|j: int| 0 <= j < candidates@.len()
                implies selected_outpoint(sel@, #[trigger] candidates@[j])
                    || remaining@.contains(candidates@[j]) by {
                if selected_outpoint(sel_before, candidates@[j]) {
                    let m = choose|m: int|
                        0 <= m < sel_before.len()
                            && (#[trigger] sel_before[m]).outpoint == candidates@[j].outpoint;
                    assert(sel@[m].outpoint == candidates@[j].outpoint);
                } else if before.contains(candidates@[j]) {
                    let b = choose|b: int|
                        0 <= b < before.len() && before[b] == candidates@[j];
                    if b == i {
                        assert(sel@[sel@.len() - 1].outpoint == candidates@[j].outpoint);
                    } else {
                        let b1 = if b < i { b } else { b - 1 };
                        assert(remaining@[b1] == before[b]);
                        assert(remaining@.contains(candidates@[j]));
                    }
                }
            }
        }
    }
}

/// Copies a candidate list.
pub fn clone_utxos(v: &Vec<Utxo>) -> (r: Vec<Utxo>)
    ensures
        r@ == v@,
{
    let mut out: Vec<Utxo> = Vec::new();
    let mut i: usize = 0;
    while i < v.len()
        invariant
            i <= v@.len(),
            out@ == v@.subrange(0, i as int),
        decreases v@.len() - i,
    {
        out.push(v[i]);
        i += 1;
        assert(out@ =~= v@.subrange(0, i as int));
    }
    assert(v@.subrange(0, v@.len() as int) =~= v@);
    out
}

} // verus!
