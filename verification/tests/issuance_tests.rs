//! Tests of the halving issuance schedule at its documented boundaries.

use utxo::issuance::{HalvingIssuance, Issuance};

#[test]
fn subsidy_is_initial_before_first_halving() {
    assert_eq!(HalvingIssuance::issuance(0), 50);
    assert_eq!(HalvingIssuance::issuance(209_999), 50);
}

#[test]
fn subsidy_halves_at_the_boundary() {
    assert_eq!(HalvingIssuance::issuance(210_000), 25);
    assert_eq!(HalvingIssuance::issuance(419_999), 25);
    assert_eq!(HalvingIssuance::issuance(420_000), 12);
}

#[test]
fn subsidy_reaches_zero() {
    // 50 >> 6 == 0: the subsidy is exhausted after six halvings already...
    assert_eq!(HalvingIssuance::issuance(6 * 210_000), 0);
    // ...and stays zero where the shift distance leaves the integer width.
    assert_eq!(HalvingIssuance::issuance(64 * 210_000), 0);
    assert_eq!(HalvingIssuance::issuance(u64::MAX), 0);
}

#[test]
fn null_policy_never_issues() {
    assert_eq!(<() as Issuance>::issuance(0), 0);
    assert_eq!(<() as Issuance>::issuance(123_456), 0);
}
