// An in-memory, transactional ledger for running contract logic without a
// network: a committed world of accounts, a per-transaction cache that
// buffers changes over it, and the updates that carry those changes back.

pub mod address;
pub mod account;
pub mod updates;
pub mod world;
pub mod cache;
pub mod blockchain_wrapper;
pub mod laws;
