//! An append-only, offset-addressed blob store with a self-describing binary
//! framing format, and the scan pipeline that feeds it: content digests and
//! path/value pairs flow into an ordered path index, which can later be
//! relocated onto the store.

pub mod index;
pub mod pipeline;
pub mod store;
pub mod varint;
