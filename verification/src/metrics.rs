//! Named-counter stores.

pub mod amap;
