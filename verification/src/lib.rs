//! A dense integer matrix library built around a fan-out/fan-in
//! multiplication protocol: per-cell dot-product jobs tagged with a
//! destination index, plus a named-counter store.

pub mod decimal;
pub mod matrix;
pub mod metrics;
