//! A metadata engine for a ledger: under the control of authorities it keeps, for one
//! subject, a tree of collections that hold typed key/value items.
//!
//! [`state`] holds the record and its mathematical view, [`sorted_index`] the ordered
//! storage that collections and items rest on, [`authority`] the rule by which a
//! collection inherits who may change it, and [`instructions`] the two operations that
//! change a record: creating a collection, and storing an item. [`invariants`] proves
//! what holds of a record after any number of them.

pub mod authority;
pub mod clock;
pub mod errors;
pub mod identity;
pub mod instructions;
pub mod invariants;
pub mod sorted_index;
pub mod state;
