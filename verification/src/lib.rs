//! Extraction of pin/alternate-function mappings from a vendor MCU
//! descriptor database, turned into deterministic generated source text:
//! pin-mapping tables, capability feature flags and size constants.
//!
//! The core is pure and fully specified: signal classification
//! ([`classify`]), pin aggregation with its deterministic ordering
//! ([`internal_peripheral`], [`alphanum`]), grouping of MCUs by the
//! version identity of their GPIO descriptor ([`grouper`]) and the text
//! emitters ([`emit`]). Reading the database directory and decoding its
//! XML stay outside the library and hand it plain records ([`family`],
//! [`mcu`]).

pub mod alphanum;
pub mod classify;
pub mod emit;
pub mod family;
pub mod grouper;
pub mod internal_peripheral;
pub mod mcu;
pub mod strutil;
