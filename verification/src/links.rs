//! The list of the visible entries, threaded through a sequence of entries:
//! what the ranks and links of the entries are, and what follows from them.

use vstd::prelude::*;
use crate::model_internal::LogEntryExt;

verus! {

/// The count of the visible entries among the first `k` entries.
pub open spec fn visible_before(s: Seq<LogEntryExt>, k: int) -> nat
    decreases k,
{
    if k <= 0 {
        0
    } else if k <= s.len() && s[k - 1].is_visible() {
        visible_before(s, k - 1) + 1
    } else {
        visible_before(s, k - 1)
    }
}

/// The count of the visible entries.
pub open spec fn visible_count(s: Seq<LogEntryExt>) -> nat {
    visible_before(s, s.len() as int)
}

/// The offset of the first visible entry at or after the offset `i`, or the
/// length of `s` where there is none.
pub open spec fn first_visible_from(s: Seq<LogEntryExt>, i: int) -> int
    decreases s.len() - i,
{
    if i >= s.len() {
        s.len() as int
    } else if i >= 0 && s[i].is_visible() {
        i
    } else {
        first_visible_from(s, i + 1)
    }
}

/// The offset of the last visible entry before the offset `i`, or -1 where
/// there is none.
pub open spec fn last_visible_before(s: Seq<LogEntryExt>, i: int) -> int
    decreases i,
{
    if i <= 0 {
        -1
    } else if i <= s.len() && s[i - 1].is_visible() {
        i - 1
    } else {
        last_visible_before(s, i - 1)
    }
}

/// The offset of the visible entry of rank `rank`, or the length of `s`
/// where fewer entries are visible.
pub open spec fn nth_visible(s: Seq<LogEntryExt>, rank: nat) -> int
    decreases rank,
{
    if rank == 0 {
        first_visible_from(s, 0)
    } else {
        first_visible_from(s, nth_visible(s, (rank - 1) as nat) + 1)
    }
}

/// The link from the visible entry at `i` to the visible entry before it.
/// The first visible entry links to itself.
pub open spec fn prev_link(s: Seq<LogEntryExt>, i: int) -> int {
    if last_visible_before(s, i) >= 0 {
        last_visible_before(s, i)
    } else {
        i
    }
}

/// The link from the visible entry at `i` to the visible entry after it.
/// The last visible entry links to itself.
pub open spec fn next_link(s: Seq<LogEntryExt>, i: int) -> int {
    if first_visible_from(s, i + 1) < s.len() {
        first_visible_from(s, i + 1)
    } else {
        i
    }
}

/// The entry at `i`, if it is visible, holds its rank among the visible
/// entries and the links to its visible neighbours.
pub open spec fn entry_linked(s: Seq<LogEntryExt>, i: int) -> bool {
    s[i].is_visible() ==> {
        &&& s[i].entry_id == visible_before(s, i)
        &&& s[i].prev_offset == prev_link(s, i)
        &&& s[i].next_offset == next_link(s, i)
    }
}

/// Every visible entry holds its rank among the visible entries and the
/// links to its visible neighbours.
pub open spec fn linked(s: Seq<LogEntryExt>) -> bool {
    forall|i: int| 0 <= i < s.len() ==> #[trigger] entry_linked(s, i)
}

/// The entry at `i` after the visible entries were ranked and threaded. A
/// hidden entry stays as it is, but that the first entry of a sequence
/// without visible entries links back to itself.
pub open spec fn relinked_entry(s: Seq<LogEntryExt>, i: int) -> LogEntryExt {
    if s[i].is_visible() {
        LogEntryExt {
            entry_id: visible_before(s, i) as u32,
            prev_offset: prev_link(s, i) as u32,
            next_offset: next_link(s, i) as u32,
            ..s[i]
        }
    } else if i == 0 && visible_count(s) == 0 {
        LogEntryExt { prev_offset: 0, ..s[i] }
    } else {
        s[i]
    }
}

/// The entries after the visible entries were ranked and threaded.
pub open spec fn relinked(s: Seq<LogEntryExt>) -> Seq<LogEntryExt> {
    Seq::new(s.len(), |i: int| relinked_entry(s, i))
}

/// The entries at `i` of two sequences are both visible or both hidden.
pub open spec fn same_visible_at(a: Seq<LogEntryExt>, b: Seq<LogEntryExt>, i: int) -> bool {
    a[i].is_visible() == b[i].is_visible()
}

/// Two sequences hide the same entries.
pub open spec fn same_visibility(a: Seq<LogEntryExt>, b: Seq<LogEntryExt>) -> bool {
    &&& a.len() == b.len()
    &&& forall|i: int| 0 <= i < a.len() ==> #[trigger] same_visible_at(a, b, i)
}

/// What is counted and found among the visible entries depends only on
/// which entries are visible.
pub proof fn lemma_same_visibility(a: Seq<LogEntryExt>, b: Seq<LogEntryExt>, i: int)
    requires
        same_visibility(a, b),
    ensures
        visible_before(a, i) == visible_before(b, i),
        first_visible_from(a, i) == first_visible_from(b, i),
        last_visible_before(a, i) == last_visible_before(b, i),
{
    lemma_same_before(a, b, i);
    lemma_same_from(a, b, i);
}

/// Counting and looking back give the same in two sequences that hide the
/// same entries.
proof fn lemma_same_before(a: Seq<LogEntryExt>, b: Seq<LogEntryExt>, i: int)
    requires
        same_visibility(a, b),
    ensures
        visible_before(a, i) == visible_before(b, i),
        last_visible_before(a, i) == last_visible_before(b, i),
    decreases i,
{
    if i > 0 {
        lemma_same_before(a, b, i - 1);
        if i <= a.len() {
            assert(same_visible_at(a, b, i - 1));
        }
    }
}

/// Looking on gives the same in two sequences that hide the same entries.
proof fn lemma_same_from(a: Seq<LogEntryExt>, b: Seq<LogEntryExt>, i: int)
    requires
        same_visibility(a, b),
    ensures
        first_visible_from(a, i) == first_visible_from(b, i),
    decreases a.len() - i,
{
    if i < a.len() {
        lemma_same_from(a, b, i + 1);
        if i >= 0 {
            assert(same_visible_at(a, b, i));
        }
    }
}

/// The count of visible entries grows with the offset, by at most one for
/// each entry.
pub proof fn lemma_visible_before_grows(s: Seq<LogEntryExt>, i: int, j: int)
    requires
        0 <= i <= j,
    ensures
        visible_before(s, i) <= visible_before(s, j),
        visible_before(s, j) - visible_before(s, i) <= j - i,
        visible_before(s, i) <= i,
    decreases j - i,
{
    lemma_visible_before_bound(s, i);
    if i < j {
        lemma_visible_before_grows(s, i, j - 1);
    }
}

/// No more entries are visible before an offset than there are entries.
pub proof fn lemma_visible_before_bound(s: Seq<LogEntryExt>, i: int)
    requires
        0 <= i,
    ensures
        visible_before(s, i) <= i,
    decreases i,
{
    if i > 0 {
        lemma_visible_before_bound(s, i - 1);
    }
}

/// Where the first visible entry from `i` on is found, and that nothing is
/// visible before it.
pub proof fn lemma_first_visible_from(s: Seq<LogEntryExt>, i: int)
    requires
        0 <= i <= s.len(),
    ensures
        i <= first_visible_from(s, i) <= s.len(),
        first_visible_from(s, i) < s.len() ==> s[first_visible_from(s, i)].is_visible(),
        forall|j: int| i <= j < first_visible_from(s, i) ==> !(#[trigger] s[j]).is_visible(),
        visible_before(s, first_visible_from(s, i)) == visible_before(s, i),
    decreases s.len() - i,
{
    if i < s.len() && !s[i].is_visible() {
        lemma_first_visible_from(s, i + 1);
    }
}

/// Where the last visible entry before `i` is found, and that nothing is
/// visible after it.
pub proof fn lemma_last_visible_before(s: Seq<LogEntryExt>, i: int)
    requires
        0 <= i <= s.len(),
    ensures
        -1 <= last_visible_before(s, i) < i,
        last_visible_before(s, i) >= 0 ==> s[last_visible_before(s, i)].is_visible(),
        forall|j: int| last_visible_before(s, i) < j < i ==> !(#[trigger] s[j]).is_visible(),
        last_visible_before(s, i) >= 0 ==> visible_before(s, i) == visible_before(
            s,
            last_visible_before(s, i),
        ) + 1,
        last_visible_before(s, i) < 0 ==> visible_before(s, i) == 0,
    decreases i,
{
    if i > 0 && !s[i - 1].is_visible() {
        lemma_last_visible_before(s, i - 1);
    }
}

/// Where nothing is visible from `i` on, no more is counted after `i`.
pub proof fn lemma_no_visible_after(s: Seq<LogEntryExt>, i: int, j: int)
    requires
        0 <= i <= j <= s.len(),
        forall|k: int| i <= k < j ==> !(#[trigger] s[k]).is_visible(),
    ensures
        visible_before(s, j) == visible_before(s, i),
    decreases j - i,
{
    if i < j {
        lemma_no_visible_after(s, i, j - 1);
    }
}

/// The visible entry of a rank below the count exists and has that rank.
pub proof fn lemma_nth_visible(s: Seq<LogEntryExt>, rank: nat)
    requires
        rank < visible_count(s),
    ensures
        0 <= nth_visible(s, rank) < s.len(),
        s[nth_visible(s, rank)].is_visible(),
        visible_before(s, nth_visible(s, rank)) == rank,
    decreases rank,
{
    let from = if rank == 0 {
        0
    } else {
        nth_visible(s, (rank - 1) as nat) + 1
    };
    if rank > 0 {
        lemma_nth_visible(s, (rank - 1) as nat);
    }
    assert(visible_before(s, from) == rank);
    lemma_first_visible_from(s, from);
    let found = first_visible_from(s, from);
    if found == s.len() {
        assert(visible_before(s, s.len() as int) == rank);
    }
}

/// A visible entry is the visible entry of its rank.
pub proof fn lemma_nth_of_rank(s: Seq<LogEntryExt>, i: int)
    requires
        0 <= i < s.len(),
        s[i].is_visible(),
    ensures
        visible_before(s, i) < visible_count(s),
        nth_visible(s, visible_before(s, i)) == i,
    decreases visible_before(s, i),
{
    let rank = visible_before(s, i);
    lemma_visible_before_grows(s, i + 1, s.len() as int);
    lemma_last_visible_before(s, i);
    let before = last_visible_before(s, i);
    if before >= 0 {
        lemma_nth_of_rank(s, before);
        assert(nth_visible(s, (rank - 1) as nat) == before);
        lemma_first_visible_between(s, before + 1, i);
    } else {
        lemma_first_visible_between(s, 0, i);
    }
}

/// The first visible entry from `from` on is the visible entry at `i` where
/// nothing between them is visible.
pub proof fn lemma_first_visible_between(s: Seq<LogEntryExt>, from: int, i: int)
    requires
        0 <= from <= i < s.len(),
        s[i].is_visible(),
        forall|j: int| from <= j < i ==> !(#[trigger] s[j]).is_visible(),
    ensures
        first_visible_from(s, from) == i,
    decreases i - from,
{
    if from < i {
        lemma_first_visible_between(s, from + 1, i);
    }
}

/// The links of a visible entry lead to the visible entries of the rank
/// before and the rank after its own, and where there is none, to itself.
pub proof fn lemma_links_by_rank(s: Seq<LogEntryExt>, i: int)
    requires
        0 <= i < s.len(),
        s[i].is_visible(),
    ensures
        visible_before(s, i) < visible_count(s),
        prev_link(s, i) == (if visible_before(s, i) > 0 {
            nth_visible(s, (visible_before(s, i) - 1) as nat)
        } else {
            i
        }),
        next_link(s, i) == (if visible_before(s, i) + 1 < visible_count(s) {
            nth_visible(s, visible_before(s, i) + 1)
        } else {
            i
        }),
        0 <= prev_link(s, i) <= i,
        i <= next_link(s, i) < s.len(),
        s[prev_link(s, i)].is_visible(),
        s[next_link(s, i)].is_visible(),
{
    let rank = visible_before(s, i);
    lemma_nth_of_rank(s, i);
    lemma_last_visible_before(s, i);
    let before = last_visible_before(s, i);
    if before >= 0 {
        lemma_nth_of_rank(s, before);
    }
    lemma_first_visible_from(s, i + 1);
    let after = first_visible_from(s, i + 1);
    assert(visible_before(s, i + 1) == rank + 1);
    if after < s.len() {
        lemma_nth_of_rank(s, after);
    } else {
        assert(visible_count(s) == rank + 1);
    }
}

/// The first visible entry from `from` on does not come after a visible
/// entry at or after `from`.
pub proof fn lemma_first_visible_at_most(s: Seq<LogEntryExt>, from: int, i: int)
    requires
        0 <= from <= i < s.len(),
        s[i].is_visible(),
    ensures
        from <= first_visible_from(s, from) <= i,
    decreases i - from,
{
    if from < i && !s[from].is_visible() {
        lemma_first_visible_at_most(s, from + 1, i);
    }
}

/// Ranking and threading changes nothing but ranks and links, and leaves
/// every visible entry with its rank and its links.
pub proof fn lemma_relinked(s: Seq<LogEntryExt>)
    requires
        s.len() <= u32::MAX,
    ensures
        relinked(s).len() == s.len(),
        same_visibility(s, relinked(s)),
        linked(relinked(s)),
        forall|i: int|
            0 <= i < s.len() ==> {
                let e = #[trigger] relinked(s)[i];
                &&& e.timestamp == s[i].timestamp
                &&& e.severity == s[i].severity
                &&& e.message == s[i].message
                &&& e.source_id == s[i].source_id
                &&& e.visible == s[i].visible
                &&& (e.is_visible() ==> e.prev_offset < s.len() && e.next_offset < s.len())
                &&& (!e.is_visible() ==> e.entry_id == s[i].entry_id && e.next_offset
                    == s[i].next_offset && (e.prev_offset == s[i].prev_offset || e.prev_offset
                    == 0))
            },
{
    let r = relinked(s);
    assert forall|i: int| 0 <= i < s.len() implies {
        let e = #[trigger] r[i];
        &&& e.visible == s[i].visible
        &&& (e.is_visible() ==> e.entry_id == visible_before(s, i) && e.prev_offset == prev_link(
            s,
            i,
        ) && e.next_offset == next_link(s, i) && e.prev_offset < s.len() && e.next_offset
            < s.len())
    } by {
        if s[i].is_visible() {
            lemma_links_by_rank(s, i);
            lemma_visible_before_bound(s, i);
        }
    }
    assert forall|i: int| 0 <= i < s.len() implies #[trigger] same_visible_at(s, r, i) by {
        assert(r[i].visible == s[i].visible);
    }
    assert(same_visibility(s, r));
    assert forall|i: int| 0 <= i < r.len() implies #[trigger] entry_linked(r, i) by {
        lemma_same_visibility(s, r, i);
        lemma_same_visibility(s, r, i + 1);
        assert(r[i].visible == s[i].visible);
    }
}

/// Ranks and threads the visible entries. Returns the count of the visible
/// entries and the offsets of the first and of the last of them, which are 0
/// where nothing is visible.
pub fn relink(store: &mut Vec<LogEntryExt>) -> (r: (usize, usize, usize))
    requires
        old(store)@.len() <= u32::MAX,
    ensures
        final(store)@ == relinked(old(store)@),
        r.0 == visible_count(old(store)@),
        r.1 == (if first_visible_from(old(store)@, 0) < old(store)@.len() {
            first_visible_from(old(store)@, 0)
        } else {
            0
        }),
        r.2 == (if last_visible_before(old(store)@, old(store)@.len() as int) >= 0 {
            last_visible_before(old(store)@, old(store)@.len() as int)
        } else {
            0
        }),
{
    let ghost before = store@;
    let n: usize = store.len();
    let mut next_entry_id: u32 = 0;
    let mut prev_offset: u32 = 0;
    let mut first: u32 = 0;
    let mut offset: usize = 0;
    proof {
        lemma_first_visible_from(before, 0);
    }
    while offset < n
        invariant
            before == old(store)@,
            n == before.len(),
            n <= u32::MAX,
            store@.len() == n,
            offset <= n,
            next_entry_id == visible_before(before, offset as int),
            prev_offset == (if last_visible_before(before, offset as int) >= 0 {
                last_visible_before(before, offset as int)
            } else {
                0
            }),
            first == (if first_visible_from(before, 0) < offset {
                first_visible_from(before, 0)
            } else {
                0
            }),
            forall|j: int|
                0 <= j < offset && before[j].is_visible() ==> #[trigger] store@[j] == (LogEntryExt {
                    entry_id: visible_before(before, j) as u32,
                    prev_offset: prev_link(before, j) as u32,
                    next_offset: (if first_visible_from(before, j + 1) < offset {
                        first_visible_from(before, j + 1)
                    } else {
                        j
                    }) as u32,
                    ..before[j]
                }),
            forall|j: int|
                0 <= j < n && !(j < offset && before[j].is_visible()) ==> #[trigger] store@[j]
                    == before[j],
        decreases n - offset,
    {
        proof {
            lemma_visible_before_bound(before, offset as int);
            lemma_last_visible_before(before, offset as int);
            lemma_first_visible_from(before, 0);
        }
        if store[offset].visible == crate::model_internal::VISIBLE_ON {
            let ghost last = last_visible_before(before, offset as int);
            store[offset].entry_id = next_entry_id;
            store[offset].next_offset = offset as u32;
            if next_entry_id > 0 {
                store[prev_offset as usize].next_offset = offset as u32;
                store[offset].prev_offset = prev_offset;
            } else {
                first = offset as u32;
                store[offset].prev_offset = offset as u32;
            }
            next_entry_id = next_entry_id + 1;
            prev_offset = offset as u32;
            proof {
                lemma_first_visible_from(before, offset + 1);
                if last >= 0 {
                    lemma_first_visible_between(before, last + 1, offset as int);
                } else {
                    lemma_first_visible_between(before, 0, offset as int);
                }
                assert forall|j: int|
                    0 <= j < offset + 1 && before[j].is_visible() implies #[trigger] store@[j] == (
                LogEntryExt {
                    entry_id: visible_before(before, j) as u32,
                    prev_offset: prev_link(before, j) as u32,
                    next_offset: (if first_visible_from(before, j + 1) < offset + 1 {
                        first_visible_from(before, j + 1)
                    } else {
                        j
                    }) as u32,
                    ..before[j]
                }) by {
                    if j < offset {
                        lemma_first_visible_at_most(before, j + 1, offset as int);
                        lemma_first_visible_from(before, j + 1);
                        if j < last {
                            lemma_first_visible_at_most(before, j + 1, last);
                        }
                    }
                }
            }
        } else {
            proof {
                assert forall|j: int|
                    0 <= j < offset + 1 && before[j].is_visible() implies #[trigger] store@[j] == (
                LogEntryExt {
                    entry_id: visible_before(before, j) as u32,
                    prev_offset: prev_link(before, j) as u32,
                    next_offset: (if first_visible_from(before, j + 1) < offset + 1 {
                        first_visible_from(before, j + 1)
                    } else {
                        j
                    }) as u32,
                    ..before[j]
                }) by {
                    lemma_first_visible_from(before, j + 1);
                }
            }
        }
        offset = offset + 1;
    }
    proof {
        lemma_first_visible_from(before, 0);
        lemma_last_visible_before(before, n as int);
    }
    if n > 0 && next_entry_id == 0 {
        store[0].prev_offset = 0;
    }
    proof {
        assert forall|j: int| 0 <= j < n implies store@[j] == relinked_entry(before, j) by {
            if before[j].is_visible() {
                lemma_first_visible_from(before, j + 1);
                lemma_visible_before_grows(before, j + 1, n as int);
            }
        }
        assert(store@ =~= relinked(before));
    }
    (next_entry_id as usize, first as usize, prev_offset as usize)
}

} // verus!
