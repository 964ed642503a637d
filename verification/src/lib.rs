//! Search for Solana keypairs whose base58 address carries a chosen
//! prefix and/or suffix, with the text formats the search reports in.

pub mod base58;
pub mod text;
pub mod pattern;
pub mod keypair;
pub mod json;
pub mod report;
