//! Core of an automated trading agent: request signing, exchange request
//! construction and response evaluation, and the per-instrument polling
//! decision cycle, with contracts over byte-level models.

pub mod decimal;
pub mod policy;
pub mod signer;
pub mod exchange;
pub mod cycle;
