use vstd::prelude::*;

verus! {

/// The error kinds this library reports.
#[derive(Clone, Copy, Debug, PartialEq, Eq, Structural)]
pub enum Error {
    /// `parent` was invoked on a root-addressed value: a caller precondition
    /// violation, fatal to the calling operation.
    Address,
    /// A decode failure: a malformed varint, a truncated stream, or a wire
    /// kind that does not match what the stream position requires. Decoding of
    /// the enclosing message must be aborted; unknown tags are not errors and
    /// are skipped instead.
    Decode,
    /// The logger's underlying sink failed while appending a record. The
    /// in-memory logger of this crate never reports it; a logger that forwards
    /// records to an external writer would.
    Sink,
}

} // verus!
