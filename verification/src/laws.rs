//! What holds of the store whatever is filtered: a filter that passes twice
//! is the filter that passes once, filters with masks of their own hide
//! independently, and the links lead through all the visible entries.

use vstd::prelude::*;
use crate::filtering::{masked, spec_apply_mask};
use crate::links::{
    entry_linked, last_visible_before, lemma_first_visible_from,
    lemma_last_visible_before, lemma_links_by_rank, lemma_nth_of_rank, lemma_nth_visible,
    lemma_relinked, lemma_same_visibility, lemma_visible_before_bound, linked, nth_visible,
    relinked, same_visible_at, visible_count,
};
use crate::log_store::{spec_rank_of_fraction, LogStoreLinear};
use crate::model_internal::LogEntryExt;

verus! {

/// A filter that has passed changes no mask when it passes again and its
/// predicate matches the same entries.
pub proof fn lemma_apply_mask_idempotent(visible: u8, matched: bool, active: bool, mask: u8)
    ensures
        spec_apply_mask(spec_apply_mask(visible, matched, active, mask), matched, active, mask)
            == spec_apply_mask(visible, matched, active, mask),
{
    assert((visible & !mask) & !mask == visible & !mask) by (bit_vector);
    assert((visible | mask) | mask == visible | mask) by (bit_vector);
}

/// A filter that passes a second time, its predicate matching the same
/// entries, leaves the entries as the first pass left them: the same entries
/// are visible, with the same ranks and links.
pub proof fn lemma_filter_idempotent(
    s: Seq<LogEntryExt>,
    matched: Seq<bool>,
    active: bool,
    mask: u8,
)
    requires
        s.len() <= u32::MAX,
        matched.len() == s.len(),
    ensures
        relinked(masked(relinked(masked(s, matched, active, mask)), matched, active, mask))
            == relinked(masked(s, matched, active, mask)),
{
    let first = masked(s, matched, active, mask);
    let once = relinked(first);
    let second = masked(once, matched, active, mask);
    lemma_relinked(first);
    assert(second =~= once) by {
        assert forall|i: int| 0 <= i < once.len() implies second[i] == once[i] by {
            lemma_apply_mask_idempotent(s[i].visible, matched[i], active, mask);
            assert(once[i].visible == first[i].visible);
        }
    }
    lemma_relinked_twice(first);
}

/// To rank and thread entries that are ranked and threaded changes nothing.
pub proof fn lemma_relinked_twice(s: Seq<LogEntryExt>)
    requires
        s.len() <= u32::MAX,
    ensures
        relinked(relinked(s)) == relinked(s),
{
    let r = relinked(s);
    lemma_relinked(s);
    lemma_same_visibility(s, r, s.len() as int);
    assert forall|i: int| 0 <= i < r.len() implies relinked(r)[i] == r[i] by {
        lemma_same_visibility(s, r, i);
        lemma_same_visibility(s, r, i + 1);
        assert(same_visible_at(s, r, i));
    }
    assert(relinked(r) =~= r);
}

/// Two filters that hide entries, one after the other, hide what either of
/// them hides alone.
pub proof fn lemma_filter_union(
    s: Seq<LogEntryExt>,
    matched_a: Seq<bool>,
    mask_a: u8,
    matched_b: Seq<bool>,
    mask_b: u8,
    i: int,
)
    requires
        0 <= i < s.len(),
        matched_a.len() == s.len(),
        matched_b.len() == s.len(),
    ensures
        !masked(masked(s, matched_a, false, mask_a), matched_b, false, mask_b)[i].is_visible()
            <==> !masked(s, matched_a, false, mask_a)[i].is_visible() || !masked(
            s,
            matched_b,
            false,
            mask_b,
        )[i].is_visible(),
        relinked(
            masked(masked(s, matched_a, false, mask_a), matched_b, false, mask_b),
        )[i].is_visible() == masked(
            masked(s, matched_a, false, mask_a),
            matched_b,
            false,
            mask_b,
        )[i].is_visible(),
{
    let v = s[i].visible;
    assert(((v | mask_a) | mask_b) != 0 <==> (v | mask_a) != 0 || (v | mask_b) != 0)
        by (bit_vector);
    assert((v | mask_b) != 0 <==> v != 0 || mask_b != 0) by (bit_vector);
    assert((v | mask_a) != 0 <==> v != 0 || mask_a != 0) by (bit_vector);
}

/// An entry that one filter hides stays hidden when another filter, with a
/// mask that shares no bit with that of the first, shows what it had hidden.
pub proof fn lemma_filter_independent(
    s: Seq<LogEntryExt>,
    matched_b: Seq<bool>,
    mask_b: u8,
    matched_a: Seq<bool>,
    mask_a: u8,
    i: int,
)
    requires
        0 <= i < s.len(),
        matched_a.len() == s.len(),
        matched_b.len() == s.len(),
        mask_a & mask_b == 0,
        mask_b != 0,
        matched_b[i],
    ensures
        !masked(masked(s, matched_b, false, mask_b), matched_a, true, mask_a)[i].is_visible(),
        !masked(masked(s, matched_b, false, mask_b), matched_a, false, mask_a)[i].is_visible(),
{
    let v = s[i].visible;
    assert(mask_a & mask_b == 0 && mask_b != 0 ==> ((v | mask_b) & !mask_a) != 0) by (bit_vector);
    assert(mask_b != 0 ==> ((v | mask_b) | mask_a) != 0) by (bit_vector);
    assert(mask_b != 0 ==> (v | mask_b) != 0) by (bit_vector);
}

/// A thumb that has gone further points at no earlier rank: the rank of a
/// part of the way does not fall when the part grows.
pub proof fn lemma_rank_of_fraction_grows(
    span: nat,
    numerator: u64,
    denominator: u64,
    further_numerator: u64,
    further_denominator: u64,
)
    requires
        denominator > 0,
        further_denominator > 0,
        numerator * further_denominator <= further_numerator * denominator,
    ensures
        spec_rank_of_fraction(span, numerator, denominator) <= spec_rank_of_fraction(
            span,
            further_numerator,
            further_denominator,
        ),
{
    let s = span as int;
    let n1 = numerator as int;
    let d1 = denominator as int;
    let n2 = further_numerator as int;
    let d2 = further_denominator as int;
    let q1 = (2 * s * n1 + d1) / (2 * d1);
    let q2 = (2 * s * n2 + d2) / (2 * d2);
    assert(2 * d1 * q1 <= 2 * s * n1 + d1) by (nonlinear_arith)
        requires
            q1 == (2 * s * n1 + d1) / (2 * d1),
            d1 > 0,
            s >= 0,
            n1 >= 0,
    ;
    assert(2 * d2 * q1 <= 2 * s * n2 + d2) by (nonlinear_arith)
        requires
            2 * d1 * q1 <= 2 * s * n1 + d1,
            n1 * d2 <= n2 * d1,
            d1 > 0,
            d2 > 0,
            s >= 0,
            q1 >= 0,
    {
        assert(2 * d1 * q1 * d2 <= (2 * s * n1 + d1) * d2);
        assert(2 * s * (n1 * d2) <= 2 * s * (n2 * d1));
        assert((2 * d2 * q1) * d1 <= (2 * s * n2 + d2) * d1);
    }
    assert(q1 <= q2) by (nonlinear_arith)
        requires
            2 * d2 * q1 <= 2 * s * n2 + d2,
            q2 == (2 * s * n2 + d2) / (2 * d2),
            d2 > 0,
    ;
}

/// The offset that is reached from `from` along `steps` links, forward or
/// backward.
pub open spec fn follow_links(s: Seq<LogEntryExt>, from: int, steps: nat, forward: bool) -> int
    decreases steps,
{
    if steps == 0 || !(0 <= from < s.len()) {
        from
    } else if forward {
        follow_links(s, s[from].next_offset as int, (steps - 1) as nat, forward)
    } else {
        follow_links(s, s[from].prev_offset as int, (steps - 1) as nat, forward)
    }
}

/// Along the links, the visible entries are reached in the order of their
/// ranks.
pub proof fn lemma_follow_links(s: Seq<LogEntryExt>, rank: nat, steps: nat)
    requires
        linked(s),
        rank < visible_count(s),
    ensures
        rank + steps < visible_count(s) ==> follow_links(s, nth_visible(s, rank), steps, true)
            == nth_visible(s, rank + steps),
        steps <= rank ==> follow_links(s, nth_visible(s, rank), steps, false) == nth_visible(
            s,
            (rank - steps) as nat,
        ),
    decreases steps,
{
    let from = nth_visible(s, rank);
    lemma_nth_visible(s, rank);
    lemma_links_by_rank(s, from);
    assert(entry_linked(s, from));
    if steps > 0 {
        if rank + steps < visible_count(s) {
            lemma_follow_links(s, rank + 1, (steps - 1) as nat);
        }
        if steps <= rank {
            lemma_follow_links(s, (rank - 1) as nat, (steps - 1) as nat);
        }
    }
}

/// In a store with visible entries, the links lead from the first visible
/// entry through all the visible entries, in the order of their ranks, to
/// the last, which links to itself; and back from the last to the first,
/// which links to itself.
pub proof fn lemma_visible_list_integrity(store: LogStoreLinear)
    requires
        store.wf(),
        store.entry_count > 0,
    ensures
        store.first_offset == nth_visible(store.store@, 0),
        store.last_offset == nth_visible(store.store@, (store.entry_count - 1) as nat),
        forall|k: nat|
            k < store.entry_count ==> #[trigger] follow_links(
                store.store@,
                store.first_offset as int,
                k,
                true,
            ) == nth_visible(store.store@, k),
        forall|k: nat|
            k < store.entry_count ==> #[trigger] follow_links(
                store.store@,
                store.last_offset as int,
                k,
                false,
            ) == nth_visible(store.store@, (store.entry_count - 1 - k) as nat),
        follow_links(
            store.store@,
            store.first_offset as int,
            (store.entry_count - 1) as nat,
            true,
        ) == store.last_offset,
        store.store@[store.last_offset as int].next_offset == store.last_offset,
        follow_links(
            store.store@,
            store.last_offset as int,
            (store.entry_count - 1) as nat,
            false,
        ) == store.first_offset,
        store.store@[store.first_offset as int].prev_offset == store.first_offset,
{
    let s = store.store@;
    let count = store.entry_count as nat;
    lemma_visible_before_bound(s, s.len() as int);
    lemma_nth_visible(s, 0);
    lemma_first_visible_from(s, 0);
    lemma_last_visible_before(s, s.len() as int);
    let last = last_visible_before(s, s.len() as int);
    assert(last >= 0);
    lemma_nth_of_rank(s, last);
    lemma_links_by_rank(s, last);
    lemma_links_by_rank(s, store.first_offset as int);
    assert(entry_linked(s, last));
    assert(entry_linked(s, store.first_offset as int));
    assert forall|k: nat| k < count implies #[trigger] follow_links(
        s,
        store.first_offset as int,
        k,
        true,
    ) == nth_visible(s, k) by {
        lemma_follow_links(s, 0, k);
    }
    assert forall|k: nat| k < count implies #[trigger] follow_links(
        s,
        store.last_offset as int,
        k,
        false,
    ) == nth_visible(s, (count - 1 - k) as nat) by {
        lemma_follow_links(s, (count - 1) as nat, k);
    }
}

} // verus!
