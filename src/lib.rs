//! Flat-file storage of tracked products and their price histories: amounts of money, the
//! index of known products, per-product records and the store that ties them to one root.

pub mod db;
pub mod index;
pub mod money;
pub mod product;
pub mod text;
