//! Planning and reassembly logic for fetching one remote object, either as a
//! single stream or as fixed-size byte ranges fetched concurrently.

pub mod content;
pub mod error;
pub mod fetch;
pub mod header;
pub mod order;
pub mod plan;
pub mod range;
pub mod reassembly;
pub mod request;
pub mod sequential;
pub mod stream;
