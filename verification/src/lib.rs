//! A reserve-backed token ledger and a collateralized lending engine, each a
//! deterministic state machine whose transitions are proved against a
//! mathematical model.
//!
//! - [`token_model`] and [`loan_model`] define the two machines over
//!   mathematical maps and sequences, and prove what holds of every state
//!   that they can reach.
//! - [`token`] and [`loan`] hold the executable machines. Every operation
//!   takes the authenticated caller and the time as arguments, returns what
//!   is to be published or why the call was refused, and is proved to do
//!   what its model says; a refused call changes nothing.
//! - [`table`], [`sums`] and [`address`] carry the keyed tables, their
//!   totals and the principals that both machines are built on.

pub mod address;
pub mod sums;
pub mod table;
pub mod token_model;
pub mod token;
pub mod loan_model;
pub mod loan;
