//! Inventory of the capabilities that identity policies grant, and the
//! comparison of two such inventories.

pub mod capability;
pub mod compare;
pub mod fetch;
pub mod iam;
pub mod json;
pub mod output;
pub mod text;
