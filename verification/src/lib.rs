//! The verified core of a token-transfer indexer: amounts without an upper
//! bound, the decoder of transfer events, the watch-list classifier, the
//! ledger of transfers and net flows, and the polling state machine.

pub mod amount;
pub mod decoder;
pub mod hex;
pub mod indexer;
pub mod ledger;
pub mod watchlist;
