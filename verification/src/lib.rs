//! Endpoint inventory agent library.
//!
//! A long-running agent periodically gathers machine identity facts
//! (hostname, primary network address, logged-in user, chassis serial,
//! attached drives), assembles them into an immutable check-in record,
//! and posts the record as JSON to a configured inventory endpoint.
//! This crate holds the verified core: the data model, the JSON wire
//! codec, fact normalization, configuration handling, the transmission
//! outcome rules, and the check-in cycle state machine. The thin shell
//! that performs process, network and hardware-query I/O lives outside.

pub mod collector;
pub mod config;
pub mod cycle;
pub mod json;
pub mod models;
pub mod sender;
pub mod text;
