use std::rc::Rc;

use vstd::prelude::*;

use vstd::std_specs::cmp::PartialEqSpec;

use crate::error::Error;
use crate::log::LogEntry;
use crate::log::Logger;
use crate::log::Record;
use crate::node::path_data;
use crate::node::Node;
use crate::wire::wire_fits;
use crate::wire::WireValue;
use crate::wire::WIRE_KIND_SIZED;

verus! {

/// The handle every stateful object instance holds: its current address in a
/// state tree, as a shared chain of path nodes. A nested instance derives its
/// handle from its parent's, extending the address by one tag; the ancestor
/// chain is shared, never copied. Logging operations borrow the tree's one
/// `Logger` and append records addressed relative to this handle.
#[derive(Clone, Debug)]
pub struct Runtime {
    path: Rc<Node>,
}

impl View for Runtime {
    type V = Seq<u16>;

    closed spec fn view(&self) -> Seq<u16> {
        self.path.tags()
    }
}

impl Runtime {
    /// A fresh root-addressed handle: used exactly once, at the root of a
    /// state tree, together with a fresh `Logger`.
    pub fn new() -> (r: Runtime)
        ensures
            r@ == Seq::<u16>::empty(),
    {
        Runtime { path: Rc::new(Node::root()) }
    }

    /// A handle whose address extends this one's by `tag`. Pure: one node
    /// allocation, no logging, no failure.
    pub fn nested(&self, tag: u16) -> (r: Runtime)
        ensures
            r@ == self@.push(tag),
    {
        Runtime { path: Rc::new(Node::child(&self.path, tag)) }
    }

    /// A handle addressing this one's parent, reusing the existing ancestor
    /// node. Reports the address error exactly when this handle is
    /// root-addressed: a caller contract violation, and nothing shared is
    /// touched.
    pub fn parent(&self) -> (r: Result<Runtime, Error>)
        ensures
            match r {
                Ok(p) => self@.len() > 0 && p@ == self@.drop_last(),
                Err(e) => e == Error::Address && self@.len() == 0,
            },
    {
        match self.path.parent() {
            Some(p) => Ok(Runtime { path: p }),
            None => Err(Error::Address),
        }
    }

    /// Whether this handle addresses the root of its tree.
    pub fn is_root(&self) -> (r: bool)
        ensures
            r <==> self@.len() == 0,
    {
        self.path.is_root()
    }

    /// Whether this handle addresses a nested field.
    pub fn is_child(&self) -> (r: bool)
        ensures
            r <==> self@.len() > 0,
    {
        !self.is_root()
    }

    /// The current address node, shared.
    pub fn address(&self) -> (r: Rc<Node>)
        ensures
            r.tags() == self@,
    {
        self.path.clone()
    }

    /// The current address as an owned root-to-node snapshot of tags.
    pub fn path_tags(&self) -> (r: Vec<u16>)
        ensures
            r@ == self@,
    {
        self.path.to_tags()
    }

    /// Logs that the field `tag` below this address was replaced by `value`:
    /// one update record addressed at `nested(tag)`, with the value's
    /// encoding as payload.
    pub fn log_update<T: WireValue>(&self, logger: &mut Logger, tag: u16, value: &T) -> (r: Result<
        (),
        Error,
    >)
        requires
            wire_fits(value),
        ensures
            r is Ok,
            final(logger)@ == old(logger)@.push(
                (Record::Update { path: self@.push(tag), value: value.wire_data() }),
            ),
    {
        logger.log_entry(LogEntry::new_update(&self.nested(tag), value))
    }

    /// Logs that the value at this very address was replaced by `value`: used
    /// when this handle already addresses the field being replaced, as when a
    /// variant switch swaps the whole addressed value.
    pub fn log_update_in_place<T: WireValue>(&self, logger: &mut Logger, value: &T) -> (r: Result<
        (),
        Error,
    >)
        requires
            wire_fits(value),
        ensures
            r is Ok,
            final(logger)@ == old(logger)@.push(
                (Record::Update { path: self@, value: value.wire_data() }),
            ),
    {
        logger.log_entry(LogEntry::new_update(self, value))
    }

    /// Logs that `item` was appended at this address: one add record with the
    /// item's encoding as payload.
    pub fn log_add<T: WireValue>(&self, logger: &mut Logger, item: &T) -> (r: Result<(), Error>)
        requires
            wire_fits(item),
        ensures
            r is Ok,
            final(logger)@ == old(logger)@.push(
                (Record::Add { path: self@, value: item.wire_data() }),
            ),
    {
        logger.log_entry(LogEntry::new_add(self, item))
    }

    /// Logs that the field `tag` below this address was deleted: one remove
    /// record addressed at `nested(tag)`, with no payload.
    pub fn log_remove(&self, logger: &mut Logger, tag: u16) -> (r: Result<(), Error>)
        ensures
            r is Ok,
            final(logger)@ == old(logger)@.push((Record::Remove { path: self@.push(tag) })),
    {
        logger.log_entry(LogEntry::new_remove(&self.nested(tag)))
    }
}

impl Default for Runtime {
    /// The same fresh root-addressed handle `new` returns.
    fn default() -> (r: Runtime)
        ensures
            r@ == Seq::<u16>::empty(),
    {
        Runtime::new()
    }
}

impl PartialEq for Runtime {
    /// Always equal, whatever the addresses or loggers involved: a handle is
    /// infrastructure metadata and never affects the equality of the object
    /// that owns it.
    fn eq(&self, _other: &Runtime) -> bool {
        true
    }
}

impl Eq for Runtime {}

impl vstd::std_specs::cmp::PartialEqSpecImpl for Runtime {
    open spec fn obeys_eq_spec() -> bool {
        true
    }

    open spec fn eq_spec(&self, _other: &Runtime) -> bool {
        true
    }
}

/// The degenerate-equality law: any two handles compare equal, whatever their
/// addresses and however they were derived.
pub proof fn lemma_runtime_equality(a: &Runtime, b: &Runtime)
    ensures
        a.eq_spec(b),
        Runtime::obeys_eq_spec(),
{
}

/// Deriving a nested address and then taking the parent restores the original
/// address, structurally: addresses derived through any in-bounds sequence of
/// such calls are pinned by their tag sequences alone.
pub proof fn lemma_parent_of_nested(addr: Seq<u16>, tag: u16)
    ensures
        addr.push(tag).drop_last() == addr,
{
    assert(addr.push(tag).drop_last() =~= addr);
}

impl WireValue for Runtime {
    open spec fn wire_kind() -> u8 {
        WIRE_KIND_SIZED
    }

    /// A handle's wire representation is its current address.
    open spec fn wire_data(&self) -> Seq<u8> {
        path_data(self@)
    }

    proof fn wire_kind_valid() {
    }

    proof fn wire_scalar_form(&self) {
    }

    fn wire_type(&self) -> u8 {
        WIRE_KIND_SIZED
    }

    fn compute_size(&self) -> u32 {
        self.path.compute_size()
    }

    fn cached_size(&self) -> u32 {
        self.path.cached_size()
    }

    fn serialize_with_cached_size(&self, out: &mut Vec<u8>) -> Result<(), Error> {
        self.path.serialize_with_cached_size(out)
    }

    fn serialize(&self, out: &mut Vec<u8>) -> Result<(), Error> {
        self.path.serialize(out)
    }
}

} // verus!
