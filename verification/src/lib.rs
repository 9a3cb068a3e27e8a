//! AirHound detection core: a verified engine that matches Wi-Fi and BLE
//! observations against a compiled-in signature database, evaluates named
//! detection rules over the matched signatures, and speaks a newline-delimited
//! JSON protocol with a companion application.
//!
//! The crate holds only the portable logic: wire parsers, the signature
//! matcher, the rule engine, and the protocol codec. Radio drivers, GATT
//! transport and serial transport live outside and exchange plain values
//! with this library.

pub mod ascii;
pub mod comm;
pub mod defaults;
pub mod filter;
pub mod pipeline;
pub mod protocol;
pub mod rules;
pub mod scanner;
