use vstd::prelude::*;

use vstd::assert_seqs_equal;

use crate::error::Error;
use crate::runtime::Runtime;
use crate::wire::wire_fits;
use crate::wire::WireValue;

verus! {

/// The mathematical model of one change record: an addressed mutation
/// description, suitable for transmission to or replay by a remote observer.
pub enum Record {
    /// The value at `path` was replaced by the encoded bytes.
    Update { path: Seq<u16>, value: Seq<u8> },
    /// A value was appended at `path`, encoded.
    Add { path: Seq<u16>, value: Seq<u8> },
    /// The value at `path` was deleted; no payload.
    Remove { path: Seq<u16> },
}

/// One addressed change record. Its path is captured as an independent,
/// already-resolved snapshot of the address at the moment of logging, never
/// an alias into the live tree.
#[derive(Clone, Debug, PartialEq, Eq)]
pub enum LogEntry {
    Update { path: Vec<u16>, value: Vec<u8> },
    Add { path: Vec<u16>, value: Vec<u8> },
    Remove { path: Vec<u16> },
}

impl View for LogEntry {
    type V = Record;

    open spec fn view(&self) -> Record {
        match self {
            LogEntry::Update { path, value } => Record::Update { path: path@, value: value@ },
            LogEntry::Add { path, value } => Record::Add { path: path@, value: value@ },
            LogEntry::Remove { path } => Record::Remove { path: path@ },
        }
    }
}

impl LogEntry {
    /// An update record: the value at `runtime`'s address was replaced by
    /// `value`, which is encoded into the record's payload.
    pub fn new_update<T: WireValue>(runtime: &Runtime, value: &T) -> (r: LogEntry)
        requires
            wire_fits(value),
        ensures
            r@ == (Record::Update { path: runtime@, value: value.wire_data() }),
    {
        LogEntry::Update { path: runtime.path_tags(), value: encode_payload(value) }
    }

    /// An add record: `item`, encoded, was appended at `runtime`'s address.
    pub fn new_add<T: WireValue>(runtime: &Runtime, item: &T) -> (r: LogEntry)
        requires
            wire_fits(item),
        ensures
            r@ == (Record::Add { path: runtime@, value: item.wire_data() }),
    {
        LogEntry::Add { path: runtime.path_tags(), value: encode_payload(item) }
    }

    /// A remove record: the value at `runtime`'s address was deleted. It
    /// carries no payload bytes.
    pub fn new_remove(runtime: &Runtime) -> (r: LogEntry)
        ensures
            r@ == (Record::Remove { path: runtime@ }),
    {
        LogEntry::Remove { path: runtime.path_tags() }
    }
}

/// Encodes one value into a fresh payload buffer.
fn encode_payload<T: WireValue>(value: &T) -> (r: Vec<u8>)
    requires
        wire_fits(value),
    ensures
        r@ == value.wire_data(),
{
    let mut buf: Vec<u8> = Vec::new();
    let _ok = value.serialize(&mut buf);
    proof {
        assert_seqs_equal!(buf@, value.wire_data());
    }
    buf
}

/// An ordered, append-only buffer of change records: the one mutable resource
/// of a state tree. Every address-derived handle of one tree logs into one
/// logger, which each logging operation borrows; records land in one stream
/// in logging order. Nothing ever edits or removes a record already logged.
pub struct Logger {
    entries: Vec<LogEntry>,
}

impl View for Logger {
    type V = Seq<Record>;

    closed spec fn view(&self) -> Seq<Record> {
        self.entries@.map_values(|e: LogEntry| e@)
    }
}

impl Default for Logger {
    /// The same fresh, empty logger `new` returns.
    fn default() -> (r: Logger)
        ensures
            r@ == Seq::<Record>::empty(),
    {
        Logger::new()
    }
}

impl Logger {
    /// A fresh, empty logger: created once, at the root of a state tree.
    pub fn new() -> (r: Logger)
        ensures
            r@ == Seq::<Record>::empty(),
    {
        let r = Logger { entries: Vec::new() };
        proof {
            assert(r@ =~= Seq::<Record>::empty());
        }
        r
    }

    /// Appends `entry` to the stream. Never fails on the record's content;
    /// the sink error is reserved for loggers that forward to an external
    /// writer, which this in-memory buffer does not.
    pub fn log_entry(&mut self, entry: LogEntry) -> (r: Result<(), Error>)
        ensures
            r is Ok,
            final(self)@ == old(self)@.push(entry@),
    {
        let ghost e = entry@;
        self.entries.push(entry);
        proof {
            assert(self@ =~= old(self)@.push(e));
        }
        Ok(())
    }

    /// The number of records logged so far.
    pub fn len(&self) -> (r: usize)
        ensures
            r == self@.len(),
    {
        self.entries.len()
    }

    /// Whether nothing has been logged yet.
    pub fn is_empty(&self) -> (r: bool)
        ensures
            r <==> self@.len() == 0,
    {
        self.entries.len() == 0
    }

    /// The `i`th record of the stream, in logging order.
    pub fn record(&self, i: usize) -> (r: &LogEntry)
        requires
            i < self@.len(),
        ensures
            r@ == self@[i as int],
    {
        &self.entries[i]
    }
}

} // verus!
