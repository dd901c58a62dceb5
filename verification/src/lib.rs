//! Core logic of a transparent TCP proxy that fragments the outgoing TLS
//! ClientHello at byte offsets chosen relative to the SNI hostname field.
//!
//! This crate holds the verified decision logic: the ClientHello parser and
//! SNI locator, the split-plan builder, the segmented-writer schedule, and
//! the flush-wait backoff. Socket handling lives outside, in the binary that
//! drives these functions.

pub mod config;
pub mod hello;
pub mod plan;
pub mod relay;
pub mod writer;
