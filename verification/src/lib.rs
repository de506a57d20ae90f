//! Path-addressed runtime with a compact tagged wire format.
//!
//! Structured objects are addressed by a stable path within a tree. Mutations
//! are logged as addressed change records (update / add / remove) so that a
//! remote observer can replay them incrementally instead of receiving a whole
//! object on every change.
//!
//! - [`wire`] holds the serialization contract every encodable type satisfies,
//!   together with the tagged wire header.
//! - [`varint`] is the base-128 integer codec underlying scalars and headers.
//! - [`node`] is the immutable, reference-counted path tree.
//! - [`log`] holds change records and the ordered append-only logger.
//! - [`runtime`] pairs a current address with logging operations.
//! - [`error`] names the failure kinds these operations report.

pub mod error;
pub mod log;
pub mod node;
pub mod runtime;
pub mod varint;
pub mod wire;
