//! Conversion of tabular posting exports into plain-text double-entry ledger text.

pub mod amount;
pub mod format;
pub mod ledger;
pub mod table;
pub mod laws;
