//! Ledger-wide laws, proved over the spec-level model in `donation`.
use vstd::prelude::*;

use crate::donation::Contract;
use crate::donation::STORAGE_COST;
use crate::donation::amount_of;
use crate::donation::entries_wf;
use crate::donation::has_donor;
use crate::donation::idx_of;
use crate::donation::lemma_idx_of_unique;
use crate::donation::page_limit;
use crate::donation::page_of;
use crate::donation::page_start;
use crate::donation::record;

verus! {

/// Recording a positive total keeps the ledger well formed: keys stay
/// pairwise distinct and every stored total stays positive.
pub proof fn lemma_record_wf(entries: Seq<(Seq<char>, u128)>, id: Seq<char>, new_total: u128)
    requires
        entries_wf(entries),
        new_total > 0,
    ensures
        entries_wf(record(entries, id, new_total)),
{
    let post = record(entries, id, new_total);
    if has_donor(entries, id) {
        let at = idx_of(entries, id);
        assert(0 <= at < entries.len() && entries[at].0 == id);
        assert forall|i: int, j: int| 0 <= i < j < post.len() implies post[i].0 !== post[j].0 by {
            assert(entries[i].0 !== entries[j].0);
        }
    } else {
        assert forall|i: int, j: int| 0 <= i < j < post.len() implies post[i].0 !== post[j].0 by {
            if j < entries.len() {
                assert(entries[i].0 !== entries[j].0);
            } else {
                assert(post[j].0 == id);
                assert(entries[i].0 !== id);
            }
        }
    }
}

/// After a total is recorded for `id`, the ledger reads back exactly that
/// total for `id`.
pub proof fn lemma_amount_after_record(
    entries: Seq<(Seq<char>, u128)>,
    id: Seq<char>,
    new_total: u128,
)
    requires
        entries_wf(entries),
        new_total > 0,
    ensures
        amount_of(record(entries, id, new_total), id) == new_total,
{
    let post = record(entries, id, new_total);
    lemma_record_wf(entries, id, new_total);
    if has_donor(entries, id) {
        let at = idx_of(entries, id);
        assert(0 <= at < entries.len() && entries[at].0 == id);
        lemma_idx_of_unique(post, id, at);
    } else {
        lemma_idx_of_unique(post, id, entries.len() as int);
    }
}

/// Recording a total for `id` reads back unchanged for every other account.
pub proof fn lemma_record_preserves_others(
    entries: Seq<(Seq<char>, u128)>,
    id: Seq<char>,
    new_total: u128,
    other: Seq<char>,
)
    requires
        entries_wf(entries),
        new_total > 0,
        other !== id,
    ensures
        amount_of(record(entries, id, new_total), other) == amount_of(entries, other),
{
    let post = record(entries, id, new_total);
    lemma_record_wf(entries, id, new_total);
    if has_donor(entries, other) {
        let at = idx_of(entries, other);
        assert(0 <= at < entries.len() && entries[at].0 == other);
        if has_donor(entries, id) {
            assert(idx_of(entries, id) != at);
        }
        assert(post[at].0 == other && post[at].1 == entries[at].1);
        lemma_idx_of_unique(post, other, at);
    } else {
        if has_donor(post, other) {
            let at = idx_of(post, other);
            assert(0 <= at < post.len() && post[at].0 == other);
            assert(at < entries.len() ==> entries[at].0 == other);
            assert(false);
        }
    }
}

/// A donor's cumulative amount never decreases across an accepted donation:
/// accumulating `amount` on top of the donor's previous total reads back as
/// exactly their sum, which is at least the previous total. The hypothesis is
/// the acceptance condition itself: a prior total, or an amount above the
/// reserve.
pub proof fn lemma_cumulative_non_decreasing(
    entries: Seq<(Seq<char>, u128)>,
    id: Seq<char>,
    amount: u128,
)
    requires
        entries_wf(entries),
        amount_of(entries, id) + amount <= u128::MAX,
        amount_of(entries, id) > 0 || amount > STORAGE_COST,
    ensures
        amount_of(
            record(entries, id, (amount_of(entries, id) + amount) as u128),
            id,
        ) == amount_of(entries, id) + amount,
        amount_of(
            record(entries, id, (amount_of(entries, id) + amount) as u128),
            id,
        ) >= amount_of(entries, id),
{
    lemma_amount_after_record(entries, id, (amount_of(entries, id) + amount) as u128);
}

/// Reads are functions of the ledger state alone: two states with equal views
/// answer every read alike, so repeated reads with no recording between them
/// return identical results.
pub proof fn lemma_reads_deterministic(
    c1: Contract,
    c2: Contract,
    id: Seq<char>,
    from_index: Option<u128>,
    limit: Option<u64>,
)
    requires
        c1@ == c2@,
    ensures
        amount_of(c1@, id) == amount_of(c2@, id),
        c1@.len() == c2@.len(),
        page_of(c1@, page_start(from_index), page_limit(limit)) == page_of(
            c2@,
            page_start(from_index),
            page_limit(limit),
        ),
{
}

/// Recording grows the ledger by one entry on an account's first appearance
/// and leaves the count unchanged on every later one.
pub proof fn lemma_record_len(entries: Seq<(Seq<char>, u128)>, id: Seq<char>, new_total: u128)
    ensures
        record(entries, id, new_total).len() == entries.len() + if has_donor(entries, id) {
            0int
        } else {
            1int
        },
{
}

} // verus!
