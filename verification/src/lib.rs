//! Read path of a BLE attribute server: answering attribute reads whose
//! values are produced on demand, split over as many requests as the chunk
//! size makes necessary.

pub mod fragment;
pub mod request;
pub mod cache;
pub mod engine;
pub mod profile;
pub mod long_read;
