//! Fragrance Vault: the logic of a personal fragrance catalog, verified.

pub mod text;
pub mod json;
pub mod web_import;
pub mod seasons;
pub mod price;
pub mod catalog;
