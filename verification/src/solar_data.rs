//! The data model: measurements, records, the store and the id registries.

pub mod value;
pub mod line;
pub mod storage;
pub mod cell;
pub mod controllers;
pub mod ids;
pub mod kind_order;
