use std::rc::Rc;

use vstd::prelude::*;

use vstd::assert_seqs_equal;

use crate::error::Error;
use crate::varint::encode_varint;
use crate::varint::lemma_varint_data_len;
use crate::varint::lemma_varint_unique;
use crate::varint::varint_at;
use crate::varint::varint_data;
use crate::varint::varint_size;
use crate::wire::decode_u16;
use crate::wire::WireValue;
use crate::wire::WIRE_KIND_SIZED;

verus! {

/// One node of the immutable path tree: a chain from the root to the current
/// address. Extending an address allocates exactly one new child and reuses
/// the whole ancestor chain; nodes reachable from siblings or ancestors are
/// never mutated or invalidated. Every address that passes through a node
/// shares it by reference count.
#[derive(Debug)]
pub enum Node {
    Root,
    Child { parent: Rc<Node>, tag: u16 },
}

/// The byte encoding of an address: the root-to-node sequence of tags, each
/// written as one scalar, with no length prefix at this level.
pub open spec fn path_data(tags: Seq<u16>) -> Seq<u8>
    decreases tags.len(),
{
    if tags.len() == 0 {
        Seq::empty()
    } else {
        varint_data(tags[0] as u64) + path_data(tags.drop_first())
    }
}

/// Appending a tag to an address appends that tag's scalar encoding.
pub proof fn lemma_path_data_push(tags: Seq<u16>, tag: u16)
    ensures
        path_data(tags.push(tag)) == path_data(tags) + varint_data(tag as u64),
    decreases tags.len(),
{
    if tags.len() == 0 {
        assert(tags.push(tag).drop_first() =~= Seq::<u16>::empty());
        assert(tags.push(tag)[0] == tag);
        assert(path_data(tags.push(tag)) == varint_data(tag as u64) + path_data(
            Seq::<u16>::empty(),
        ));
        assert(varint_data(tag as u64) + Seq::<u8>::empty() =~= varint_data(tag as u64));
        assert(path_data(tags) + varint_data(tag as u64) =~= varint_data(tag as u64));
    } else {
        assert(tags.push(tag).drop_first() =~= tags.drop_first().push(tag));
        assert(tags.push(tag)[0] == tags[0]);
        lemma_path_data_push(tags.drop_first(), tag);
        assert(path_data(tags.push(tag)) =~= path_data(tags) + varint_data(tag as u64));
    }
}

/// Only the empty address encodes to the empty byte sequence.
pub proof fn lemma_path_data_empty(tags: Seq<u16>)
    ensures
        path_data(tags).len() == 0 <==> tags.len() == 0,
{
    if tags.len() > 0 {
        lemma_varint_data_len(tags[0] as u64);
    }
}

/// In a stream whose remainder from `pos` encodes the tags of `t` from index
/// `k` on, the tag `t[k]` stands at `pos` as one varint, and the remainder
/// past it encodes the tags from `k + 1` on.
proof fn lemma_path_step(bytes: Seq<u8>, t: Seq<u16>, k: int, pos: int)
    requires
        0 <= k <= t.len(),
        0 <= pos < bytes.len(),
        bytes.subrange(pos, bytes.len() as int) == path_data(t.skip(k)),
    ensures
        k < t.len(),
        varint_at(bytes, pos, t[k] as u64),
        pos + varint_data(t[k] as u64).len() <= bytes.len(),
        bytes.subrange(pos + varint_data(t[k] as u64).len(), bytes.len() as int) == path_data(
            t.skip(k + 1),
        ),
{
    let rest = bytes.subrange(pos, bytes.len() as int);
    let tt = t.skip(k);
    lemma_path_data_empty(tt);
    assert(tt[0] == t[k]);
    let v = varint_data(t[k] as u64);
    assert(tt.drop_first() =~= t.skip(k + 1));
    assert(path_data(tt) == v + path_data(t.skip(k + 1)));
    assert(varint_at(bytes, pos, t[k] as u64)) by {
        assert_seqs_equal!(bytes.subrange(pos, pos + v.len() as int), v, i => {
            assert(bytes.subrange(pos, pos + v.len() as int)[i] == rest[i]);
            assert(rest[i] == (v + path_data(t.skip(k + 1)))[i]);
        });
    }
    assert(bytes.subrange(pos + v.len(), bytes.len() as int) == path_data(t.skip(k + 1))) by {
        assert_seqs_equal!(
            bytes.subrange(pos + v.len(), bytes.len() as int),
            path_data(t.skip(k + 1)),
            i => {
                assert(bytes.subrange(pos + v.len(), bytes.len() as int)[i]
                    == rest[v.len() + i]);
                assert(rest[v.len() + i] == (v + path_data(t.skip(k + 1)))[v.len() + i]);
            }
        );
    }
}

/// Two addresses with one encoding are one address: the path round-trip law.
pub proof fn lemma_path_data_injective(a: Seq<u16>, b: Seq<u16>)
    requires
        path_data(a) == path_data(b),
    ensures
        a == b,
    decreases a.len(),
{
    lemma_path_data_empty(a);
    lemma_path_data_empty(b);
    if a.len() == 0 || b.len() == 0 {
        assert(a =~= b);
    } else {
        let bytes = path_data(a);
        assert(a.skip(0) =~= a);
        assert(b.skip(0) =~= b);
        assert(bytes.subrange(0, bytes.len() as int) =~= path_data(a.skip(0)));
        assert(bytes.subrange(0, bytes.len() as int) =~= path_data(b.skip(0)));
        lemma_path_step(bytes, a, 0, 0);
        lemma_path_step(bytes, b, 0, 0);
        lemma_varint_unique(bytes, 0, a[0] as u64, b[0] as u64);
        assert(a[0] == b[0]);
        assert(a.skip(1) =~= a.drop_first());
        assert(b.skip(1) =~= b.drop_first());
        lemma_path_data_injective(a.drop_first(), b.drop_first());
        assert(a.len() == b.len());
        assert forall|i: int| 0 <= i < a.len() implies a[i] == b[i] by {
            if i > 0 {
                assert(a[i] == a.drop_first()[i - 1]);
                assert(b[i] == b.drop_first()[i - 1]);
            }
        }
        assert(a =~= b);
    }
}

impl Node {
    /// The address this node stands for: the root-to-node sequence of tags.
    pub open spec fn tags(&self) -> Seq<u16>
        decreases self,
    {
        match self {
            Node::Root => Seq::empty(),
            Node::Child { parent, tag } => parent.tags().push(*tag),
        }
    }

    /// A fresh root node: the empty address.
    pub fn root() -> (r: Node)
        ensures
            r.tags() == Seq::<u16>::empty(),
    {
        Node::Root
    }

    /// A child node extending `parent`'s address by `tag`. The one allocation
    /// an address extension needs; the ancestor chain is shared, not copied.
    pub fn child(parent: &Rc<Node>, tag: u16) -> (r: Node)
        ensures
            r.tags() == parent.tags().push(tag),
    {
        Node::Child { parent: parent.clone(), tag }
    }

    /// The existing ancestor reference, without allocation; nothing when this
    /// node is the root.
    pub fn parent(&self) -> (r: Option<Rc<Node>>)
        ensures
            match r {
                Some(p) => self.tags().len() > 0 && p.tags() == self.tags().drop_last(),
                None => self.tags().len() == 0,
            },
    {
        match self {
            Node::Root => None,
            Node::Child { parent, .. } => {
                proof {
                    assert(parent.tags() =~= self.tags().drop_last());
                }
                Some(parent.clone())
            },
        }
    }

    /// Whether this node is the root.
    pub fn is_root(&self) -> (r: bool)
        ensures
            r <==> self.tags().len() == 0,
    {
        match self {
            Node::Root => true,
            Node::Child { .. } => false,
        }
    }

    /// The address as an owned root-to-node snapshot, independent of the
    /// shared tree.
    pub fn to_tags(&self) -> (r: Vec<u16>)
        ensures
            r@ == self.tags(),
        decreases self,
    {
        match self {
            Node::Root => Vec::new(),
            Node::Child { parent, tag } => {
                let mut v = parent.to_tags();
                v.push(*tag);
                v
            },
        }
    }

    /// The encoded size of the address, summed along the ancestor chain.
    fn size_rec(&self) -> (r: u32)
        requires
            path_data(self.tags()).len() <= u32::MAX,
        ensures
            r == path_data(self.tags()).len(),
        decreases self,
    {
        match self {
            Node::Root => 0,
            Node::Child { parent, tag } => {
                proof {
                    lemma_path_data_push(parent.tags(), *tag);
                }
                let ps = parent.size_rec();
                let ts = varint_size(*tag as u64);
                ps + ts
            },
        }
    }

    /// Writes the address, ancestors first, to `out`.
    fn write_rec(&self, out: &mut Vec<u8>)
        ensures
            final(out)@ == old(out)@ + path_data(self.tags()),
        decreases self,
    {
        match self {
            Node::Root => {
                assert(out@ =~= old(out)@ + path_data(self.tags()));
            },
            Node::Child { parent, tag } => {
                parent.write_rec(out);
                encode_varint(*tag as u64, out);
                proof {
                    lemma_path_data_push(parent.tags(), *tag);
                    assert(out@ =~= old(out)@ + path_data(self.tags()));
                }
            },
        }
    }
}

impl WireValue for Node {
    open spec fn wire_kind() -> u8 {
        WIRE_KIND_SIZED
    }

    open spec fn wire_data(&self) -> Seq<u8> {
        path_data(self.tags())
    }

    proof fn wire_kind_valid() {
    }

    proof fn wire_scalar_form(&self) {
    }

    fn wire_type(&self) -> u8 {
        WIRE_KIND_SIZED
    }

    fn compute_size(&self) -> u32 {
        self.size_rec()
    }

    fn cached_size(&self) -> u32 {
        self.size_rec()
    }

    fn serialize_with_cached_size(&self, out: &mut Vec<u8>) -> Result<(), Error> {
        self.write_rec(out);
        Ok(())
    }

    fn serialize(&self, out: &mut Vec<u8>) -> Result<(), Error> {
        let _size = self.size_rec();
        self.write_rec(out);
        Ok(())
    }
}

/// Decodes a standalone address: the whole buffer is read as a root-to-node
/// sequence of scalar tags. Reports a decode error exactly when the buffer is
/// not an address encoding: a tag's varint is malformed, truncated, or beyond
/// the 16-bit tag space.
pub fn decode_path(bytes: &Vec<u8>) -> (r: Result<Vec<u16>, Error>)
    ensures
        match r {
            Ok(tags) => bytes@ == path_data(tags@),
            Err(e) => {
                &&& e == Error::Decode
                &&& forall|tags: Seq<u16>| bytes@ != path_data(tags)
            },
        },
{
    let mut tags: Vec<u16> = Vec::new();
    let mut pos: usize = 0;
    proof {
        assert(path_data(tags@) =~= bytes@.subrange(0, 0));
        assert forall|t: Seq<u16>| bytes@ == #[trigger] path_data(t) implies {
            &&& tags@.len() <= t.len()
            &&& t.take(tags@.len() as int) == tags@
            &&& bytes@.subrange(pos as int, bytes@.len() as int) == path_data(
                t.skip(tags@.len() as int),
            )
        } by {
            assert(t.take(0) =~= Seq::<u16>::empty());
            assert(t.skip(0) =~= t);
            assert(bytes@.subrange(0, bytes@.len() as int) =~= bytes@);
        }
    }
    while pos < bytes.len()
        invariant
            pos <= bytes@.len(),
            path_data(tags@) == bytes@.subrange(0, pos as int),
            forall|t: Seq<u16>|
                bytes@ == #[trigger] path_data(t) ==> {
                    &&& tags@.len() <= t.len()
                    &&& t.take(tags@.len() as int) == tags@
                    &&& bytes@.subrange(pos as int, bytes@.len() as int) == path_data(
                        t.skip(tags@.len() as int),
                    )
                },
        decreases bytes@.len() - pos,
    {
        match decode_u16(bytes, pos) {
            Ok((v, end)) => {
                proof {
                    lemma_varint_data_len(v as u64);
                    assert forall|t: Seq<u16>| bytes@ == #[trigger] path_data(t) implies {
                        &&& tags@.push(v).len() <= t.len()
                        &&& t.take(tags@.push(v).len() as int) == tags@.push(v)
                        &&& bytes@.subrange(end as int, bytes@.len() as int) == path_data(
                            t.skip(tags@.push(v).len() as int),
                        )
                    } by {
                        let k = tags@.len() as int;
                        lemma_path_step(bytes@, t, k, pos as int);
                        lemma_varint_unique(bytes@, pos as int, t[k] as u64, v as u64);
                        assert(t.take(k + 1) =~= tags@.push(v));
                    }
                    lemma_path_data_push(tags@, v);
                    assert(path_data(tags@.push(v)) =~= bytes@.subrange(0, end as int)) by {
                        assert_seqs_equal!(
                            path_data(tags@) + varint_data(v as u64),
                            bytes@.subrange(0, end as int),
                            i => {
                                if i >= pos {
                                    assert(bytes@.subrange(
                                        pos as int,
                                        pos + varint_data(v as u64).len() as int,
                                    )[i - pos] == varint_data(v as u64)[i - pos]);
                                } else {
                                    assert(bytes@.subrange(0, pos as int)[i] == bytes@[i]);
                                }
                            }
                        );
                    }
                }
                tags.push(v);
                pos = end;
            },
            Err(e) => {
                proof {
                    assert forall|t: Seq<u16>| bytes@ != path_data(t) by {
                        if bytes@ == path_data(t) {
                            let k = tags@.len() as int;
                            lemma_path_step(bytes@, t, k, pos as int);
                        }
                    }
                }
                return Err(e);
            },
        }
    }
    proof {
        assert(bytes@.subrange(0, pos as int) =~= bytes@);
    }
    Ok(tags)
}

} // verus!
