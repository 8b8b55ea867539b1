//! Business logic of a small farm's management application.
//!
//! The core is the customer ledger: transaction labels fix the sign of
//! each amount (`amount`), an entry store keeps every customer's cached
//! balance equal to the sum of that customer's entries (`ledger`), and
//! statements carry running balances computed over the whole history
//! (`ledger`, `commands`). `laws` states what holds across operations.
//!
//! Around it stand the decisions of the other screens: logging in and
//! managing users (`account`), stored settings (`settings`), backup file
//! rotation (`backup`), farm photos (`media`), harvest recording
//! (`harvest`) and the farming-log report (`report`). Storage, files and
//! the network are left to the caller.

pub mod amount;
pub mod commands;
pub mod date;
pub mod laws;
pub mod ledger;

pub mod account;
pub mod backup;
pub mod harvest;
pub mod media;
pub mod report;
pub mod settings;
pub mod text;
