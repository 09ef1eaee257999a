//! Client library for the statistics API of a solo-mining pool.

pub mod client;
pub mod error;
pub mod hashrate;
pub mod outside;
pub mod response;
