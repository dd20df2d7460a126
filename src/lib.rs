//! Point-in-time snapshot assembly for a remote ledger's key/value state:
//! paged enumeration of storage maps, decoding of storage keys, the
//! identity/overlay join of attribute maps, and the order-preserving fan-in
//! of concurrent sub-queries.

pub mod error;
pub mod codec;
pub mod reference;
pub mod index;
pub mod overlay;
pub mod assemble;
pub mod gather;
pub mod queries;
pub mod pager;
