//! Application-layer state machine of a zero-knowledge blockchain node.
//!
//! A consensus engine orders blocks; this library owns the replicated state
//! that the blocks are committed against: the unspent records, the deployed
//! programs, the validator set, and the accounting of fees and block rewards.
//!
//! Every operation is given twice: as a function on a mathematical view of
//! the state (`model`, and the views of the stores), and as executable code
//! that is proved to compute that function (`application`, and the stores).
//! What holds of every sequence of operations is proved of the views
//! (`laws`, `record_laws`, `validator_laws`, `key_laws`).
//!
//! The library neither reads nor writes a file, and it does not run the proof
//! engine: the caller hands in what the file held and what the engine found,
//! and takes back what is to be written.

pub mod application;
pub mod error;
pub mod field;
pub mod height;
pub mod key_laws;
pub mod laws;
pub mod lookup;
pub mod model;
pub mod program_store;
pub mod record_laws;
pub mod record_store;
pub mod signed;
pub mod text;
pub mod transaction;
pub mod validator;
pub mod validator_laws;
pub mod validator_set;

pub use application::SnarkVMApp;
pub use transaction::Transaction;
