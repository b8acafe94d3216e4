//! Measurement and persistence engine of a network latency probe: the packed
//! sample store, the address index, the nonce-protected options, the range
//! reader and the live broadcast frames, each with a verified contract.
//!
//! Floating-point fields travel as their IEEE-754 bit patterns. A failed
//! measurement, and the `sd` of a raw sample, is the quiet NaN `0x7fc00000`
//! (`sample::NAN_BITS`). In range answers a subscribed address without a
//! sample in a time group reads `0x88ca6c00`, the bits of the `i32`
//! -2,000,000,000 (`reader::NODATA_BITS`).

pub mod error;
pub mod sample;
pub mod reader;
pub mod options;
pub mod kinds;
pub mod addr_index;
pub mod package;
pub mod worker;
pub mod broadcast;
pub mod api;
pub mod manager;
