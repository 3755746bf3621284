pub mod actions;
pub mod codec;
pub mod errors;
pub mod ledger;
pub mod signatures;
pub mod transactions;
pub mod users;
pub mod utils;
