//! The listing of the most recent entries: newest time of writing first,
//! and of two entries written at the same time the one inserted later first.

use vstd::prelude::*;
use crate::entry::{views, Entry, LedgerEntry};

verus! {

/// Whether the entry at place `a` comes before the entry at place `b` in a
/// listing: it was written later, or at the same time and inserted later.
pub open spec fn newer(entries: Seq<Entry>, a: int, b: int) -> bool {
    entries[a].created_at > entries[b].created_at || (entries[a].created_at
        == entries[b].created_at && a > b)
}

/// How many of `n` entries a listing of at most `limit` shows.
pub open spec fn shown(limit: nat, n: nat) -> nat {
    if limit <= n {
        limit
    } else {
        n
    }
}

/// Whether `places` lists the most recent of the first `n` entries: as many
/// as the limit allows, each before the ones it is newer than, and with
/// every entry that is left out older than all that are shown.
pub open spec fn lists_first(entries: Seq<Entry>, n: int, limit: nat, places: Seq<int>) -> bool {
    &&& places.len() == shown(limit, n as nat)
    &&& forall|k: int| 0 <= k < places.len() ==> 0 <= #[trigger] places[k] < n
    &&& forall|j: int, k: int|
        0 <= j < k < places.len() ==> newer(entries, #[trigger] places[j], #[trigger] places[k])
    &&& forall|q: int, k: int|
        #![trigger places[k], places.contains(q)]
        0 <= q < n && 0 <= k < places.len() && !places.contains(q) ==> newer(
            entries,
            places[k],
            q,
        )
}

/// Whether `places` lists the most recent of all `entries`.
pub open spec fn is_listing(entries: Seq<Entry>, limit: nat, places: Seq<int>) -> bool {
    lists_first(entries, entries.len() as int, limit, places)
}

/// The places of the most recent entries, in the order of the listing.
pub open spec fn recent_places(entries: Seq<Entry>, limit: nat) -> Seq<int> {
    choose|places: Seq<int>| is_listing(entries, limit, places)
}

/// The entries at `places`.
pub open spec fn entries_at(entries: Seq<Entry>, places: Seq<int>) -> Seq<Entry> {
    Seq::new(places.len(), |k: int| entries[places[k]])
}

/// The listing of the most recent entries, at most `limit` of them.
pub open spec fn recent_entries(entries: Seq<Entry>, limit: nat) -> Seq<Entry> {
    entries_at(entries, recent_places(entries, limit))
}

/// Two listings of the same entries agree at place `k`, and before it.
proof fn lemma_listings_agree(
    entries: Seq<Entry>,
    limit: nat,
    first: Seq<int>,
    second: Seq<int>,
    k: int,
)
    requires
        is_listing(entries, limit, first),
        is_listing(entries, limit, second),
        0 <= k < first.len(),
    ensures
        forall|j: int| 0 <= j <= k ==> first[j] == second[j],
    decreases k,
{
    if k > 0 {
        lemma_listings_agree(entries, limit, first, second, k - 1);
    }
    let a = first[k];
    let b = second[k];
    lemma_cannot_differ(entries, limit, first, second, k);
    lemma_cannot_differ(entries, limit, second, first, k);
}

/// Where two listings agree before place `k`, the first does not show at
/// `k` an entry that is newer than what the second shows there.
proof fn lemma_cannot_differ(
    entries: Seq<Entry>,
    limit: nat,
    first: Seq<int>,
    second: Seq<int>,
    k: int,
)
    requires
        is_listing(entries, limit, first),
        is_listing(entries, limit, second),
        0 <= k < first.len(),
        forall|j: int| 0 <= j < k ==> first[j] == second[j],
    ensures
        !newer(entries, first[k], second[k]),
{
    let a = first[k];
    assert(0 <= first[k] < entries.len());
    if newer(entries, a, second[k]) {
        if second.contains(a) {
            let j = choose|j: int| 0 <= j < second.len() && second[j] == a;
            if j < k {
                assert(newer(entries, first[j], first[k]));
            } else if j > k {
                assert(newer(entries, second[k], second[j]));
            }
        } else {
            assert(newer(entries, second[k], a));
        }
    }
}

/// The entries have one listing.
pub proof fn lemma_listing_unique(
    entries: Seq<Entry>,
    limit: nat,
    first: Seq<int>,
    second: Seq<int>,
)
    requires
        is_listing(entries, limit, first),
        is_listing(entries, limit, second),
    ensures
        first == second,
{
    if first.len() > 0 {
        lemma_listings_agree(entries, limit, first, second, first.len() - 1);
    }
    assert(first =~= second);
}

/// Where no entry was written before one that stands before it, the
/// listing is the end of the entries read backwards: the last entry first.
pub proof fn lemma_listing_of_ordered_entries(entries: Seq<Entry>, limit: nat)
    requires
        forall|i: int, j: int|
            0 <= i < j < entries.len() ==> (#[trigger] entries[i]).created_at <= (
            #[trigger] entries[j]).created_at,
    ensures
        recent_places(entries, limit) == Seq::new(
            shown(limit, entries.len()),
            |k: int| entries.len() - 1 - k,
        ),
        recent_entries(entries, limit) == Seq::new(
            shown(limit, entries.len()),
            |k: int| entries[entries.len() - 1 - k],
        ),
{
    let n = entries.len() as int;
    let places = Seq::new(shown(limit, entries.len()), |k: int| n - 1 - k);
    assert forall|q: int, k: int|
        #![trigger places[k], places.contains(q)]
        0 <= q < n && 0 <= k < places.len() && !places.contains(q) implies newer(
        entries,
        places[k],
        q,
    ) by {
        if q >= n - places.len() {
            assert(places[n - 1 - q] == q);
        }
    }
    assert(is_listing(entries, limit, places));
    lemma_listing_unique(entries, limit, places, recent_places(entries, limit));
    assert(recent_entries(entries, limit) =~= Seq::new(
        shown(limit, entries.len()),
        |k: int| entries[n - 1 - k],
    ));
}

/// Whether a listing that has room left shows every one of the first `n`
/// entries.
spec fn full_or_complete(n: int, limit: nat, places: Seq<int>) -> bool {
    places.len() < limit ==> forall|q: int| 0 <= q < n ==> #[trigger] places.contains(q)
}

/// The listing after the entry at place `i` has been put at `pos`, and the
/// last of the listing dropped where the limit is passed.
spec fn placed(places: Seq<int>, pos: int, i: int, limit: nat) -> Seq<int> {
    if pos < limit {
        let longer = places.insert(pos, i);
        if longer.len() > limit {
            longer.drop_last()
        } else {
            longer
        }
    } else {
        places
    }
}

/// Putting the next entry behind the listed ones that were written after
/// it gives the listing of one entry more.
proof fn lemma_place_next(entries: Seq<Entry>, i: int, limit: nat, places: Seq<int>, pos: int)
    requires
        0 <= i < entries.len(),
        lists_first(entries, i, limit, places),
        full_or_complete(i, limit, places),
        0 <= pos <= places.len(),
        forall|k: int|
            0 <= k < pos ==> entries[#[trigger] places[k]].created_at > entries[i].created_at,
        pos < places.len() ==> entries[places[pos]].created_at <= entries[i].created_at,
    ensures
        lists_first(entries, i + 1, limit, placed(places, pos, i, limit)),
        full_or_complete(i + 1, limit, placed(places, pos, i, limit)),
{
    let after = placed(places, pos, i, limit);
    assert forall|k: int| pos <= k < places.len() implies newer(
        entries,
        i,
        #[trigger] places[k],
    ) by {
        if k > pos {
            assert(newer(entries, places[pos], places[k]));
        }
    }
    assert forall|k: int| 0 <= k < pos implies newer(entries, #[trigger] places[k], i) by {}
    if pos < limit {
        let longer = places.insert(pos, i);
        places.insert_ensures(pos, i);
        assert(forall|k: int| 0 <= k < pos ==> longer[k] == places[k]);
        assert(longer[pos] == i);
        assert(forall|k: int| pos < k < longer.len() ==> longer[k] == places[k - 1]);
        assert(pos < after.len());
        assert(forall|k: int| 0 <= k < after.len() ==> after[k] == longer[k]);
        assert(after[pos] == i);
        assert forall|j: int, k: int| 0 <= j < k < after.len() implies newer(
            entries,
            #[trigger] after[j],
            #[trigger] after[k],
        ) by {
            if j < pos && k > pos {
                assert(newer(entries, places[j], places[k - 1]));
            } else if j > pos {
                assert(newer(entries, places[j - 1], places[k - 1]));
            } else if k < pos {
                assert(newer(entries, places[j], places[k]));
            }
        }
        assert forall|q: int, k: int|
            #![trigger after[k], after.contains(q)]
            0 <= q < i + 1 && 0 <= k < after.len() && !after.contains(q) implies newer(
            entries,
            after[k],
            q,
        ) by {
            assert(q != i);
            let shown_before = if k < pos {
                k
            } else {
                k - 1
            };
            if places.contains(q) {
                // Only the last of a full listing is dropped.
                let at = choose|at: int| 0 <= at < places.len() && places[at] == q;
                if at < pos {
                    assert(after[at] == q);
                } else if at + 1 < after.len() {
                    assert(after[at + 1] == q);
                }
                assert(at == places.len() - 1);
                assert(at >= pos);
                assert(newer(entries, i, places[at]));
                if k != pos && shown_before != at {
                    assert(newer(entries, places[shown_before], places[at]));
                }
            } else {
                assert(places.len() == limit);
                assert(pos < places.len());
                assert(newer(entries, places[pos], q));
                if k != pos {
                    assert(newer(entries, places[shown_before], q));
                }
            }
        }
        if after.len() < limit {
            assert forall|q: int| 0 <= q < i + 1 implies #[trigger] after.contains(q) by {
                if q == i {
                    assert(after[pos] == q);
                } else {
                    assert(places.contains(q));
                    let at = choose|at: int| 0 <= at < places.len() && places[at] == q;
                    if at < pos {
                        assert(after[at] == q);
                    } else {
                        assert(after[at + 1] == q);
                    }
                }
            }
        }
    } else {
        assert(after == places);
        assert forall|q: int, k: int|
            #![trigger after[k], after.contains(q)]
            0 <= q < i + 1 && 0 <= k < after.len() && !after.contains(q) implies newer(
            entries,
            after[k],
            q,
        ) by {
            if q == i {
                assert(k < pos);
            }
        }
    }
}

/// The places as integers.
pub open spec fn places_of(top: Seq<usize>) -> Seq<int> {
    Seq::new(top.len(), |k: int| top[k] as int)
}

/// Finds the places of the most recent entries, at most `limit` of them, in
/// the order of the listing.
pub fn newest_places(entries: &Vec<LedgerEntry>, limit: usize) -> (top: Vec<usize>)
    ensures
        is_listing(views(entries@), limit as nat, places_of(top@)),
{
    let ghost all = views(entries@);
    let mut top: Vec<usize> = Vec::new();
    let mut i: usize = 0;
    while i < entries.len()
        invariant
            i <= entries.len(),
            all == views(entries@),
            lists_first(all, i as int, limit as nat, places_of(top@)),
            full_or_complete(i as int, limit as nat, places_of(top@)),
        decreases entries.len() - i,
    {
        let ghost places = places_of(top@);
        assert forall|k: int| 0 <= k < top.len() implies #[trigger] top@[k] < i by {
            assert(places[k] == top@[k]);
        }
        let mut pos: usize = 0;
        while pos < top.len() && entries[top[pos]].created_at > entries[i].created_at
            invariant
                i < entries.len(),
                pos <= top.len(),
                all == views(entries@),
                places == places_of(top@),
                forall|k: int| 0 <= k < top.len() ==> #[trigger] top@[k] < i,
                forall|k: int|
                    0 <= k < pos ==> all[#[trigger] places[k]].created_at > all[i as int].created_at,
            decreases top.len() - pos,
        {
            assert(places[pos as int] == top@[pos as int]);
            pos = pos + 1;
        }
        proof {
            if pos < top.len() {
                assert(places[pos as int] == top@[pos as int]);
            }
            lemma_place_next(all, i as int, limit as nat, places, pos as int);
        }
        if pos < limit {
            top.insert(pos, i);
            if top.len() > limit {
                top.pop();
            }
        }
        proof {
            assert(places_of(top@) =~= placed(places, pos as int, i as int, limit as nat));
        }
        i = i + 1;
    }
    top
}

/// Copies the entries at `places`, in that order.
pub fn copy_places(entries: &Vec<LedgerEntry>, places: &Vec<usize>) -> (list: Vec<LedgerEntry>)
    requires
        forall|k: int| 0 <= k < places.len() ==> #[trigger] places[k] < entries.len(),
    ensures
        views(list@) == entries_at(views(entries@), places_of(places@)),
{
    let mut list: Vec<LedgerEntry> = Vec::new();
    let mut k: usize = 0;
    while k < places.len()
        invariant
            k <= places.len(),
            forall|j: int| 0 <= j < places.len() ==> #[trigger] places[j] < entries.len(),
            list.len() == k,
            forall|j: int| 0 <= j < k ==> list@[j]@ == entries@[places@[j] as int]@,
        decreases places.len() - k,
    {
        list.push(entries[places[k]].clone());
        k = k + 1;
    }
    proof {
        assert(views(list@) =~= entries_at(views(entries@), places_of(places@)));
    }
    list
}

} // verus!
