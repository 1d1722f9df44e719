//! The data of the language service: sentences cut into tagged tokens.

pub mod client;
pub mod data;
pub mod deserialize;
pub mod error;
pub mod language;
