//! An in-memory restaurant order board: orders are placed per table, carry a
//! simulated cooking time, and can be listed, fetched and cancelled.

pub mod clock;
pub mod error;
pub mod order;
pub mod repository;
pub mod service;
