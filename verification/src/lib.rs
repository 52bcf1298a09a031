//! A registry of participants and a ledger of the donations between them.
//!
//! Participants register a username for their wallet address; usernames are
//! unique when case is ignored. A donation from one participant to another is
//! recorded under the next id, filed by sender and by recipient, and answered
//! with the funds to move: the donation less a commission to the recipient,
//! the commission to the platform.
//!
//! The state is a plain value, [`AlpineContract`]; storing it is left to the
//! caller, and so is the validation of wallet addresses, whose verdict the
//! requests take as a flag.
//!
//! Everything here is proved against its contract, but for five small
//! functions that hand a value to code outside and say what comes back:
//! `text::lowercase` and `text::decimal` and `error::quoted` (the standard
//! library), `execute::percent_of` and `execute::timestamp_string`
//! (`cosmwasm_std`).

pub mod error;
pub mod execute;
pub mod laws;
pub mod ledger;
pub mod msg;
pub mod query;
pub mod state;
pub mod table;
pub mod text;
pub mod traits;

pub use crate::error::ContractError;
pub use crate::msg::{ExecuteMsg, InstantiateMsg, MigrateMsg, QueryMsg};
pub use crate::state::AlpineContract;
