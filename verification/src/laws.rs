pub mod cascade;
pub mod client;
pub mod invariants;
pub mod reaping;
pub mod requests;
pub mod scheduling;
