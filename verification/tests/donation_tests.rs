use donation::Contract;
use donation::DonationError;
use donation::STORAGE_COST;
use donation::donation_outcome;

fn fresh() -> Contract {
    Contract::new(String::from("beneficiary.near"))
}

#[test]
fn new_contract_is_empty() {
    let c = fresh();
    assert_eq!(c.number_of_donors(), 0);
    assert_eq!(c.beneficiary().as_str(), "beneficiary.near");
    assert!(c.get_donations(None, None).is_empty());
}

#[test]
fn first_donation_at_reserve_fails() {
    // Attaching exactly the reserve on a first donation is rejected and
    // leaves the ledger untouched: no entry, no change in the donor count.
    let mut c = fresh();
    let r = c.donate(String::from("bob.near"), STORAGE_COST);
    assert!(matches!(r, Err(DonationError::InsufficientAttachment)));
    assert_eq!(c.number_of_donors(), 0);
    let d = c.get_donation_for_account(String::from("bob.near"));
    assert_eq!(d.total_amount, 0);
    assert!(c.get_donations(None, None).is_empty());
}

#[test]
fn first_donation_below_reserve_fails() {
    let mut c = fresh();
    let r = c.donate(String::from("bob.near"), STORAGE_COST - 1);
    assert!(matches!(r, Err(DonationError::InsufficientAttachment)));
    let r0 = c.donate(String::from("bob.near"), 0);
    assert!(matches!(r0, Err(DonationError::InsufficientAttachment)));
    assert_eq!(c.number_of_donors(), 0);
}

#[test]
fn first_donation_above_reserve_succeeds() {
    // Reserve plus k succeeds: k is forwarded, the full attached amount is
    // accumulated in the ledger entry.
    let mut c = fresh();
    let out = c.donate(String::from("alice.near"), STORAGE_COST + 500).unwrap();
    assert_eq!(out.transfer_amount, 500);
    assert_eq!(out.total_donated, STORAGE_COST + 500);
    assert_eq!(c.number_of_donors(), 1);
    let d = c.get_donation_for_account(String::from("alice.near"));
    assert_eq!(d.account_id, "alice.near");
    assert_eq!(d.total_amount, STORAGE_COST + 500);
}

#[test]
fn repeat_donation_forwards_whole_amount() {
    // A repeat donation sees no reserve check: the whole amount is forwarded
    // and the entry accumulates it.
    let mut c = fresh();
    let first = c.donate(String::from("alice.near"), STORAGE_COST + 500).unwrap();
    let again = c.donate(String::from("alice.near"), 700).unwrap();
    assert_eq!(again.transfer_amount, 700);
    assert_eq!(again.total_donated, first.total_donated + 700);
    assert_eq!(c.number_of_donors(), 1);
    let d = c.get_donation_for_account(String::from("alice.near"));
    assert_eq!(d.total_amount, STORAGE_COST + 500 + 700);
}

#[test]
fn cumulative_total_never_decreases() {
    let mut c = fresh();
    let mut last: u128 = 0;
    let amounts: [u128; 4] = [STORAGE_COST + 1, 1, 0, 30];
    for a in amounts {
        let before = c.get_donation_for_account(String::from("alice.near")).total_amount;
        let _ = c.donate(String::from("alice.near"), a);
        let after = c.get_donation_for_account(String::from("alice.near")).total_amount;
        assert!(after >= before);
        assert!(after >= last);
        last = after;
    }
}

#[test]
fn never_seen_account_reads_zero() {
    let c = fresh();
    let d = c.get_donation_for_account(String::from("carol.near"));
    assert_eq!(d.account_id, "carol.near");
    assert_eq!(d.total_amount, 0);
}

#[test]
fn donor_count_is_distinct_successful_donors() {
    let mut c = fresh();
    assert!(c.donate(String::from("alice.near"), STORAGE_COST + 1).is_ok());
    assert!(c.donate(String::from("bob.near"), STORAGE_COST + 2).is_ok());
    assert!(c.donate(String::from("alice.near"), 5).is_ok());
    assert!(c.donate(String::from("dave.near"), STORAGE_COST).is_err());
    assert_eq!(c.number_of_donors(), 2);
}

#[test]
fn pagination_in_stable_order() {
    let mut c = fresh();
    for i in 0..3u32 {
        let name = format!("donor{}.near", i);
        c.donate(name, STORAGE_COST + 100 + i as u128).unwrap();
    }
    let all = c.get_donations(Some(0), Some(50));
    assert_eq!(all.len(), 3);
    for (i, d) in all.iter().enumerate() {
        assert_eq!(d.account_id, format!("donor{}.near", i));
        assert_eq!(d.total_amount, STORAGE_COST + 100 + i as u128);
    }
    let defaults = c.get_donations(None, None);
    assert_eq!(defaults.len(), 3);
    let second_on = c.get_donations(Some(1), None);
    assert_eq!(second_on.len(), 2);
    assert_eq!(second_on[0].account_id, "donor1.near");
    let capped = c.get_donations(None, Some(2));
    assert_eq!(capped.len(), 2);
    assert_eq!(capped[1].account_id, "donor1.near");
}

#[test]
fn pagination_past_the_end_is_empty() {
    let mut c = fresh();
    c.donate(String::from("alice.near"), STORAGE_COST + 1).unwrap();
    c.donate(String::from("bob.near"), STORAGE_COST + 1).unwrap();
    assert!(c.get_donations(Some(2), Some(50)).is_empty());
    assert!(c.get_donations(Some(10), None).is_empty());
    assert!(c.get_donations(Some(u128::MAX), Some(u64::MAX)).is_empty());
    assert!(c.get_donations(Some(1), Some(0)).is_empty());
}

#[test]
fn repeated_reads_are_identical() {
    let mut c = fresh();
    c.donate(String::from("alice.near"), STORAGE_COST + 42).unwrap();
    c.donate(String::from("bob.near"), STORAGE_COST + 7).unwrap();
    assert_eq!(c.number_of_donors(), c.number_of_donors());
    let d1 = c.get_donation_for_account(String::from("alice.near"));
    let d2 = c.get_donation_for_account(String::from("alice.near"));
    assert_eq!(d1.account_id, d2.account_id);
    assert_eq!(d1.total_amount, d2.total_amount);
    let p1 = c.get_donations(None, None);
    let p2 = c.get_donations(None, None);
    assert_eq!(p1.len(), p2.len());
    for (a, b) in p1.iter().zip(p2.iter()) {
        assert_eq!(a.account_id, b.account_id);
        assert_eq!(a.total_amount, b.total_amount);
    }
}

#[test]
fn outcome_of_a_single_call() {
    // The per-call rule on its own: the values a host shell would act on.
    let out = donation_outcome(0, STORAGE_COST + 9).unwrap();
    assert_eq!(out.transfer_amount, 9);
    assert_eq!(out.total_donated, STORAGE_COST + 9);
    let repeat = donation_outcome(STORAGE_COST + 9, 4).unwrap();
    assert_eq!(repeat.transfer_amount, 4);
    assert_eq!(repeat.total_donated, STORAGE_COST + 13);
    assert!(matches!(
        donation_outcome(0, STORAGE_COST),
        Err(DonationError::InsufficientAttachment)
    ));
}

#[test]
fn worked_example_with_small_units() {
    // Reserve of 1000 in some unit: 1500 on a first donation succeeds with
    // 500 forwarded and 1500 recorded; 1500 again forwards the full 1500 and
    // the entry reaches 3000. The library's reserve is fixed, so the same
    // ratios run scaled by it.
    let unit: u128 = STORAGE_COST / 1000;
    let mut c = fresh();
    let first = c.donate(String::from("a.near"), 1500 * unit).unwrap();
    assert_eq!(first.transfer_amount, 500 * unit);
    assert_eq!(first.total_donated, 1500 * unit);
    let second = c.donate(String::from("a.near"), 1500 * unit).unwrap();
    assert_eq!(second.transfer_amount, 1500 * unit);
    assert_eq!(second.total_donated, 3000 * unit);
    // Exactly the reserve on a first donation fails and changes nothing.
    let before = c.number_of_donors();
    let r = c.donate(String::from("b.near"), 1000 * unit);
    assert!(matches!(r, Err(DonationError::InsufficientAttachment)));
    assert_eq!(c.number_of_donors(), before);
    assert_eq!(c.get_donation_for_account(String::from("b.near")).total_amount, 0);
}
