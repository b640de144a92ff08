//! The donation ledger: a contract state holding one entry per donor, in the
//! order of first donation, together with the fixed beneficiary account.
use vstd::prelude::*;

verus! {

/// One-time cost, in the smallest unit of value, withheld from an account's
/// first donation to cover the storage of its new ledger entry.
pub const STORAGE_COST: u128 = 1_000_000_000_000_000_000_000;

/// A ledger record: an account and the cumulative amount it has donated.
pub struct Donation {
    pub account_id: String,
    pub total_amount: u128,
}

impl View for Donation {
    type V = (Seq<char>, u128);

    open spec fn view(&self) -> (Seq<char>, u128) {
        (self.account_id@, self.total_amount)
    }
}

/// The one failure a donation can meet: the attached amount of a first
/// donation did not exceed the reserve.
#[derive(PartialEq, Eq, Structural, Debug)]
pub enum DonationError {
    InsufficientAttachment,
}

/// What an accepted donation produces: the donor's new cumulative total, and
/// the amount to be transferred onward to the beneficiary.
#[derive(PartialEq, Eq, Structural, Debug)]
pub struct DonationOutcome {
    pub total_donated: u128,
    pub transfer_amount: u128,
}

/// The contract state: the ledger entries, one per donor, in the order the
/// donors first appeared, and the fixed beneficiary account.
pub struct Contract {
    donations: Vec<Donation>,
    beneficiary: String,
}

/// True when no two entries share an account and every entry holds a positive
/// total, so that a stored total of zero can never be confused with absence.
pub open spec fn entries_wf(entries: Seq<(Seq<char>, u128)>) -> bool {
    &&& forall|i: int, j: int|
        0 <= i < j < entries.len() ==> entries[i].0 !== entries[j].0
    &&& forall|i: int| 0 <= i < entries.len() ==> entries[i].1 > 0
}

/// True when some entry is keyed by `id`.
pub open spec fn has_donor(entries: Seq<(Seq<char>, u128)>, id: Seq<char>) -> bool {
    exists|i: int| 0 <= i < entries.len() && entries[i].0 == id
}

/// The position of the entry keyed by `id`; meaningful only when `has_donor`
/// holds, and unique under `entries_wf`.
pub open spec fn idx_of(entries: Seq<(Seq<char>, u128)>, id: Seq<char>) -> int {
    choose|i: int| 0 <= i < entries.len() && entries[i].0 == id
}

/// The cumulative amount recorded for `id`: zero when `id` has no entry.
pub open spec fn amount_of(entries: Seq<(Seq<char>, u128)>, id: Seq<char>) -> u128 {
    if has_donor(entries, id) {
        entries[idx_of(entries, id)].1
    } else {
        0
    }
}

/// The ledger after recording a new cumulative total for `id`: the entry is
/// overwritten in place when present, appended when absent; all other entries
/// and their order are untouched.
pub open spec fn record(
    entries: Seq<(Seq<char>, u128)>,
    id: Seq<char>,
    new_total: u128,
) -> Seq<(Seq<char>, u128)> {
    if has_donor(entries, id) {
        entries.update(idx_of(entries, id), (id, new_total))
    } else {
        entries.push((id, new_total))
    }
}

/// The decision a single donation call comes down to, as a function of the
/// donor's previous cumulative total and the attached amount. A first
/// donation (previous total zero) must attach strictly more than
/// `STORAGE_COST`, which is withheld from the forwarded amount; a repeat
/// donation is forwarded whole. The new cumulative total always accumulates
/// the full attached amount.
pub fn donation_outcome(donated_so_far: u128, amount: u128) -> (r: Result<
    DonationOutcome,
    DonationError,
>)
    requires
        donated_so_far + amount <= u128::MAX,
    ensures
        match r {
            Ok(out) => {
                &&& (donated_so_far > 0 || amount > STORAGE_COST)
                &&& out.total_donated == donated_so_far + amount
                &&& out.transfer_amount == if donated_so_far == 0 {
                    (amount - STORAGE_COST) as u128
                } else {
                    amount
                }
            },
            Err(e) => {
                &&& e == DonationError::InsufficientAttachment
                &&& donated_so_far == 0
                &&& amount <= STORAGE_COST
            },
        },
{
    if donated_so_far == 0 {
        if amount <= STORAGE_COST {
            return Err(DonationError::InsufficientAttachment);
        }
        Ok(DonationOutcome { total_donated: amount, transfer_amount: amount - STORAGE_COST })
    } else {
        Ok(
            DonationOutcome {
                total_donated: donated_so_far + amount,
                transfer_amount: amount,
            },
        )
    }
}

/// The requested page start: the given offset, or zero when none was given.
pub open spec fn page_start(from_index: Option<u128>) -> int {
    match from_index {
        Some(v) => v as int,
        None => 0,
    }
}

/// The requested page size: the given limit, or fifty when none was given.
pub open spec fn page_limit(limit: Option<u64>) -> int {
    match limit {
        Some(v) => v as int,
        None => 50,
    }
}

/// The page of the ledger that starts after skipping `start` entries and
/// holds at most `lim` of those that follow, in ledger order.
pub open spec fn page_of(
    entries: Seq<(Seq<char>, u128)>,
    start: int,
    lim: int,
) -> Seq<(Seq<char>, u128)>
    recommends
        0 <= start,
        0 <= lim,
{
    let lo = if start <= entries.len() {
        start
    } else {
        entries.len() as int
    };
    let hi = if start + lim <= entries.len() {
        start + lim
    } else {
        entries.len() as int
    };
    entries.subrange(lo, hi)
}

/// Under `entries_wf`, the entry keyed by `id` is unique: any position whose
/// key is `id` is the position `idx_of` picks.
pub proof fn lemma_idx_of_unique(entries: Seq<(Seq<char>, u128)>, id: Seq<char>, i: int)
    requires
        entries_wf(entries),
        0 <= i < entries.len(),
        entries[i].0 == id,
    ensures
        has_donor(entries, id),
        idx_of(entries, id) == i,
        amount_of(entries, id) == entries[i].1,
{
    assert(has_donor(entries, id));
    let j = idx_of(entries, id);
    assert(0 <= j < entries.len() && entries[j].0 == id);
    if j < i {
        assert(entries[j].0 !== entries[i].0);
    } else if i < j {
        assert(entries[i].0 !== entries[j].0);
    }
}

impl View for Contract {
    type V = Seq<(Seq<char>, u128)>;

    closed spec fn view(&self) -> Seq<(Seq<char>, u128)> {
        self.donations@.map_values(|d: Donation| d@)
    }
}

impl Contract {
    /// The ledger is well formed and its exec representation matches its view.
    pub open spec fn wf(&self) -> bool {
        entries_wf(self@)
    }

    /// The beneficiary account, as a sequence of characters.
    pub closed spec fn spec_beneficiary(&self) -> Seq<char> {
        self.beneficiary@
    }

    /// Rebuilds a contract from plain ledger records, for a host shell that
    /// stores the state between calls. Exactly the well-formed ledgers are
    /// accepted: records with pairwise distinct accounts and positive totals.
    pub fn from_entries(records: Vec<Donation>, beneficiary: String) -> (r: Option<Contract>)
        ensures
            (r is Some) <==> entries_wf(records@.map_values(|d: Donation| d@)),
            match r {
                Some(c) => {
                    &&& c.wf()
                    &&& c@ == records@.map_values(|d: Donation| d@)
                    &&& c.spec_beneficiary() == beneficiary@
                },
                None => !entries_wf(records@.map_values(|d: Donation| d@)),
            },
    {
        let n = records.len();
        let mut i: usize = 0;
        while i < n
            invariant
                n == records@.len(),
                i <= n,
                forall|p: int, q: int|
                    0 <= p < q < records@.len() && p < i ==> records@[p].account_id@
                        !== records@[q].account_id@,
                forall|p: int| 0 <= p < i ==> records@[p].total_amount > 0,
            decreases n - i,
        {
            if records[i].total_amount == 0 {
                proof {
                    let mapped = records@.map_values(|d: Donation| d@);
                    assert(mapped[i as int].1 == 0);
                }
                return None;
            }
            let mut j: usize = i + 1;
            while j < n
                invariant
                    n == records@.len(),
                    i < j <= n,
                    forall|q: int|
                        i < q < j ==> records@[i as int].account_id@ !== records@[q].account_id@,
                decreases n - j,
            {
                if records[i].account_id == records[j].account_id {
                    proof {
                        let mapped = records@.map_values(|d: Donation| d@);
                        assert(mapped[i as int].0 == mapped[j as int].0);
                    }
                    return None;
                }
                j += 1;
            }
            i += 1;
        }
        proof {
            let mapped = records@.map_values(|d: Donation| d@);
            assert forall|p: int, q: int|
                0 <= p < q < mapped.len() implies mapped[p].0 !== mapped[q].0 by {
                assert(records@[p].account_id@ !== records@[q].account_id@);
            }
            assert forall|p: int| 0 <= p < mapped.len() implies mapped[p].1 > 0 by {
                assert(records@[p].total_amount > 0);
            }
        }
        let c = Contract { donations: records, beneficiary };
        proof {
            assert(c@ =~= records@.map_values(|d: Donation| d@));
        }
        Some(c)
    }

    /// The ledger records themselves, in ledger order, for a host shell that
    /// stores the state between calls.
    pub fn entries(&self) -> (v: &Vec<Donation>)
        ensures
            v@.map_values(|d: Donation| d@) == self@,
    {
        proof {
            assert(self.donations@.map_values(|d: Donation| d@) =~= self@);
        }
        &self.donations
    }

    /// A fresh contract: an empty ledger and the given beneficiary.
    pub fn new(beneficiary: String) -> (c: Contract)
        ensures
            c.wf(),
            c@ === Seq::<(Seq<char>, u128)>::empty(),
            c.spec_beneficiary() == beneficiary@,
    {
        let c = Contract { donations: Vec::new(), beneficiary };
        proof {
            assert(c@ =~= Seq::<(Seq<char>, u128)>::empty());
        }
        c
    }

    /// The account the forwarded funds are destined for.
    pub fn beneficiary(&self) -> (b: &String)
        ensures
            b@ == self.spec_beneficiary(),
    {
        &self.beneficiary
    }

    /// The cumulative amount recorded for `account_id`, zero when absent.
    fn donated_so_far(&self, account_id: &String) -> (amt: u128)
        requires
            self.wf(),
        ensures
            amt == amount_of(self@, account_id@),
    {
        let n = self.donations.len();
        let mut i: usize = 0;
        while i < n
            invariant
                self.wf(),
                n == self@.len(),
                i <= n,
                forall|k: int| 0 <= k < i ==> self@[k].0 !== account_id@,
            decreases n - i,
        {
            if self.donations[i].account_id == *account_id {
                proof {
                    lemma_idx_of_unique(self@, account_id@, i as int);
                }
                return self.donations[i].total_amount;
            }
            i += 1;
        }
        proof {
            assert(!has_donor(self@, account_id@));
        }
        0
    }

    /// Writes `new_total` as the cumulative amount for `account_id`:
    /// overwrites the entry in place when present, appends one when absent.
    fn upsert(&mut self, account_id: String, new_total: u128)
        requires
            old(self).wf(),
            new_total > 0,
        ensures
            final(self).wf(),
            final(self)@ == record(old(self)@, account_id@, new_total),
            final(self).spec_beneficiary() == old(self).spec_beneficiary(),
    {
        proof {
            crate::laws::lemma_record_wf(self@, account_id@, new_total);
        }
        let n = self.donations.len();
        let mut i: usize = 0;
        while i < n
            invariant
                self.wf(),
                *self == *old(self),
                n == self@.len(),
                i <= n,
                new_total > 0,
                forall|k: int| 0 <= k < i ==> self@[k].0 !== account_id@,
            decreases n - i,
        {
            if self.donations[i].account_id == account_id {
                proof {
                    lemma_idx_of_unique(self@, account_id@, i as int);
                }
                self.donations[i].total_amount = new_total;
                proof {
                    assert(self@ =~= record(old(self)@, account_id@, new_total));
                }
                return;
            }
            i += 1;
        }
        proof {
            assert(!has_donor(self@, account_id@));
        }
        self.donations.push(Donation { account_id, total_amount: new_total });
        proof {
            assert(self@ =~= record(old(self)@, account_id@, new_total));
        }
    }

    /// Records a donation of `amount` by `donor` and says what must be
    /// forwarded to the beneficiary. A first donation must attach strictly
    /// more than `STORAGE_COST`, which is withheld from the forwarded amount;
    /// a repeat donation is forwarded whole. On rejection nothing changes; on
    /// acceptance the donor's entry accumulates the full attached amount and
    /// every other entry, and the order of entries, is untouched.
    pub fn donate(&mut self, donor: String, amount: u128) -> (r: Result<
        DonationOutcome,
        DonationError,
    >)
        requires
            old(self).wf(),
            amount_of(old(self)@, donor@) + amount <= u128::MAX,
        ensures
            final(self).wf(),
            final(self).spec_beneficiary() == old(self).spec_beneficiary(),
            match r {
                Ok(out) => {
                    &&& (amount_of(old(self)@, donor@) > 0 || amount > STORAGE_COST)
                    &&& out.total_donated == amount_of(old(self)@, donor@) + amount
                    &&& out.transfer_amount == if amount_of(old(self)@, donor@) == 0 {
                        (amount - STORAGE_COST) as u128
                    } else {
                        amount
                    }
                    &&& final(self)@ == record(old(self)@, donor@, out.total_donated)
                    &&& amount_of(final(self)@, donor@) == out.total_donated
                    &&& final(self)@.len() == old(self)@.len() + if has_donor(
                        old(self)@,
                        donor@,
                    ) {
                        0int
                    } else {
                        1int
                    }
                },
                Err(e) => {
                    &&& e == DonationError::InsufficientAttachment
                    &&& amount_of(old(self)@, donor@) == 0
                    &&& amount <= STORAGE_COST
                    &&& *final(self) == *old(self)
                },
            },
    {
        let donated_so_far = self.donated_so_far(&donor);
        match donation_outcome(donated_so_far, amount) {
            Ok(out) => {
                self.upsert(donor, out.total_donated);
                proof {
                    crate::laws::lemma_amount_after_record(
                        old(self)@,
                        donor@,
                        out.total_donated,
                    );
                }
                Ok(out)
            },
            Err(e) => Err(e),
        }
    }

    /// The ledger record for `account_id`: its cumulative amount, zero when
    /// the account has never donated. Absence is a valid zero-value result,
    /// never an error.
    pub fn get_donation_for_account(&self, account_id: String) -> (d: Donation)
        requires
            self.wf(),
        ensures
            d@ == (account_id@, amount_of(self@, account_id@)),
    {
        let total = self.donated_so_far(&account_id);
        Donation { account_id, total_amount: total }
    }

    /// One page of ledger records, in ledger order: skips the first
    /// `from_index` entries (zero when absent), then returns at most `limit`
    /// records (fifty when absent). An offset at or past the end yields an
    /// empty page, never an error.
    pub fn get_donations(&self, from_index: Option<u128>, limit: Option<u64>) -> (res: Vec<
        Donation,
    >)
        requires
            self.wf(),
        ensures
            res@.map_values(|d: Donation| d@) == page_of(
                self@,
                page_start(from_index),
                page_limit(limit),
            ),
            res@.len() <= page_limit(limit),
            page_start(from_index) >= self@.len() ==> res@.len() == 0,
    {
        let start_index: u128 = match from_index {
            Some(v) => v,
            None => 0,
        };
        let page_cap: u64 = match limit {
            Some(v) => v,
            None => 50,
        };
        let n = self.donations.len();
        let mut res: Vec<Donation> = Vec::new();
        if start_index >= n as u128 {
            proof {
                assert(res@.map_values(|d: Donation| d@) =~= page_of(
                    self@,
                    page_start(from_index),
                    page_limit(limit),
                ));
            }
            return res;
        }
        let start = start_index as usize;
        let mut i: usize = start;
        while i < n && (res.len() as u64) < page_cap
            invariant
                self.wf(),
                n == self@.len(),
                start <= i <= n,
                res@.len() == i - start,
                res@.len() <= page_cap,
                forall|k: int| 0 <= k < res@.len() ==> res@[k]@ == self@[start + k],
            decreases n - i,
        {
            let entry = &self.donations[i];
            res.push(
                Donation {
                    account_id: entry.account_id.clone(),
                    total_amount: entry.total_amount,
                },
            );
            i += 1;
        }
        proof {
            assert(res@.map_values(|d: Donation| d@) =~= page_of(
                self@,
                page_start(from_index),
                page_limit(limit),
            ));
        }
        res
    }

    /// The number of distinct accounts that hold a ledger entry.
    pub fn number_of_donors(&self) -> (n: u64)
        ensures
            n == self@.len(),
    {
        self.donations.len() as u64
    }
}

} // verus!
