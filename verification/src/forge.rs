//! The AFNS standard library.

pub mod collections;
pub mod error;
pub mod structs;
pub mod special;
pub mod types;
pub mod registry;
pub mod flutter;
pub mod flutter_api;
pub mod memory;
pub mod pointer;
pub mod math;
pub mod ordering;
