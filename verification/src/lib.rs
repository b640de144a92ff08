//! A minimal donation ledger: cumulative contributions per account, a fixed
//! reserve withheld from each account's first donation to cover the storage
//! cost of its ledger entry, and a paginated read path over the entries.
pub mod donation;
pub mod laws;

pub use donation::Contract;
pub use donation::Donation;
pub use donation::DonationError;
pub use donation::DonationOutcome;
pub use donation::STORAGE_COST;
pub use donation::donation_outcome;
