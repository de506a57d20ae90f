use vstd::prelude::*;

use vstd::arithmetic::div_mod::lemma_fundamental_div_mod;
use vstd::arithmetic::div_mod::lemma_fundamental_div_mod_converse;
use vstd::assert_seqs_equal;

use crate::error::Error;
use crate::varint::decode_varint;
use crate::varint::encode_varint;
use crate::varint::lemma_varint_unique;
use crate::varint::varint_at;
use crate::varint::varint_data;
use crate::varint::varint_size;

verus! {

/// Wire kind of a fixed-format primitive: the value occupies its natural
/// encoded width, with no length prefix.
pub const WIRE_KIND_SCALAR: u8 = 0;

/// Wire kind of a nested object or variable-length payload: the value is
/// prefixed by its varint-encoded byte length.
pub const WIRE_KIND_SIZED: u8 = 2;

/// The header value combining a field tag with its wire kind: the kind in the
/// low three bits, the tag above them.
pub open spec fn header_value(tag: u16, kind: u8) -> u64 {
    (tag * 8 + kind) as u64
}

/// The encoded header: one varint carrying `header_value`.
pub open spec fn header_data(tag: u16, kind: u8) -> Seq<u8> {
    varint_data(header_value(tag, kind))
}

/// The encoded length of a value is representable as a 32-bit size: the one
/// machine limit the sizing operations put on a value.
pub open spec fn wire_fits<T: WireValue>(v: &T) -> bool {
    v.wire_data().len() <= u32::MAX
}

/// The contract every encodable type satisfies. A value's encoding is the
/// byte sequence `wire_data`; sizing and writing agree with it exactly, so
/// computing a size and then serializing never disagree on a length prefix.
///
/// Values here are structurally immutable while shared, so the size cached by
/// the most recent serialization equals the size computed fresh;
/// implementations are free to recompute it.
pub trait WireValue: Sized {
    /// The wire kind every value of this type is framed with.
    spec fn wire_kind() -> u8;

    /// The byte encoding of this value.
    spec fn wire_data(&self) -> Seq<u8>;

    /// Every type is framed as a scalar or as length-delimited.
    proof fn wire_kind_valid()
        ensures
            Self::wire_kind() == WIRE_KIND_SCALAR || Self::wire_kind() == WIRE_KIND_SIZED,
    ;

    /// A scalar-framed value encodes as one varint, so a decoder that does
    /// not know the type can still consume it generically.
    proof fn wire_scalar_form(&self)
        ensures
            Self::wire_kind() == WIRE_KIND_SCALAR ==> exists|n: u64|
                self.wire_data() == varint_data(n),
    ;

    /// The wire kind, as a value.
    fn wire_type(&self) -> (r: u8)
        ensures
            r == Self::wire_kind(),
    ;

    /// The encoded size of this value, computed fresh.
    fn compute_size(&self) -> (r: u32)
        requires
            self.wire_data().len() <= u32::MAX,
        ensures
            r == self.wire_data().len(),
    ;

    /// The size the most recent serialization worked with.
    fn cached_size(&self) -> (r: u32)
        requires
            self.wire_data().len() <= u32::MAX,
        ensures
            r == self.wire_data().len(),
    ;

    /// Appends exactly `cached_size()` bytes, the value's encoding, to `out`.
    fn serialize_with_cached_size(&self, out: &mut Vec<u8>) -> (r: Result<(), Error>)
        requires
            self.wire_data().len() <= u32::MAX,
        ensures
            r is Ok,
            final(out)@ == old(out)@ + self.wire_data(),
    ;

    /// Sizes the value and appends its encoding to `out`: the entry point
    /// external callers use directly.
    fn serialize(&self, out: &mut Vec<u8>) -> (r: Result<(), Error>)
        requires
            self.wire_data().len() <= u32::MAX,
        ensures
            r is Ok,
            final(out)@ == old(out)@ + self.wire_data(),
    ;
}

impl WireValue for u64 {
    open spec fn wire_kind() -> u8 {
        WIRE_KIND_SCALAR
    }

    open spec fn wire_data(&self) -> Seq<u8> {
        varint_data(*self)
    }

    proof fn wire_kind_valid() {
    }

    proof fn wire_scalar_form(&self) {
        assert(self.wire_data() == varint_data(*self));
    }

    fn wire_type(&self) -> u8 {
        WIRE_KIND_SCALAR
    }

    fn compute_size(&self) -> u32 {
        varint_size(*self)
    }

    fn cached_size(&self) -> u32 {
        varint_size(*self)
    }

    fn serialize_with_cached_size(&self, out: &mut Vec<u8>) -> Result<(), Error> {
        encode_varint(*self, out);
        Ok(())
    }

    fn serialize(&self, out: &mut Vec<u8>) -> Result<(), Error> {
        encode_varint(*self, out);
        Ok(())
    }
}

impl WireValue for u32 {
    open spec fn wire_kind() -> u8 {
        WIRE_KIND_SCALAR
    }

    open spec fn wire_data(&self) -> Seq<u8> {
        varint_data(*self as u64)
    }

    proof fn wire_kind_valid() {
    }

    proof fn wire_scalar_form(&self) {
        assert(self.wire_data() == varint_data(*self as u64));
    }

    fn wire_type(&self) -> u8 {
        WIRE_KIND_SCALAR
    }

    fn compute_size(&self) -> u32 {
        varint_size(*self as u64)
    }

    fn cached_size(&self) -> u32 {
        varint_size(*self as u64)
    }

    fn serialize_with_cached_size(&self, out: &mut Vec<u8>) -> Result<(), Error> {
        encode_varint(*self as u64, out);
        Ok(())
    }

    fn serialize(&self, out: &mut Vec<u8>) -> Result<(), Error> {
        encode_varint(*self as u64, out);
        Ok(())
    }
}

impl WireValue for u16 {
    open spec fn wire_kind() -> u8 {
        WIRE_KIND_SCALAR
    }

    open spec fn wire_data(&self) -> Seq<u8> {
        varint_data(*self as u64)
    }

    proof fn wire_kind_valid() {
    }

    proof fn wire_scalar_form(&self) {
        assert(self.wire_data() == varint_data(*self as u64));
    }

    fn wire_type(&self) -> u8 {
        WIRE_KIND_SCALAR
    }

    fn compute_size(&self) -> u32 {
        varint_size(*self as u64)
    }

    fn cached_size(&self) -> u32 {
        varint_size(*self as u64)
    }

    fn serialize_with_cached_size(&self, out: &mut Vec<u8>) -> Result<(), Error> {
        encode_varint(*self as u64, out);
        Ok(())
    }

    fn serialize(&self, out: &mut Vec<u8>) -> Result<(), Error> {
        encode_varint(*self as u64, out);
        Ok(())
    }
}

/// The numeric form a boolean is encoded through.
pub open spec fn bool_value(b: bool) -> u64 {
    if b {
        1
    } else {
        0
    }
}

impl WireValue for bool {
    open spec fn wire_kind() -> u8 {
        WIRE_KIND_SCALAR
    }

    open spec fn wire_data(&self) -> Seq<u8> {
        varint_data(bool_value(*self))
    }

    proof fn wire_kind_valid() {
    }

    proof fn wire_scalar_form(&self) {
        assert(self.wire_data() == varint_data(bool_value(*self)));
    }

    fn wire_type(&self) -> u8 {
        WIRE_KIND_SCALAR
    }

    fn compute_size(&self) -> u32 {
        1
    }

    fn cached_size(&self) -> u32 {
        1
    }

    fn serialize_with_cached_size(&self, out: &mut Vec<u8>) -> Result<(), Error> {
        encode_varint(if *self { 1 } else { 0 }, out);
        Ok(())
    }

    fn serialize(&self, out: &mut Vec<u8>) -> Result<(), Error> {
        encode_varint(if *self { 1 } else { 0 }, out);
        Ok(())
    }
}

/// Appends the header for field `tag` with wire kind `kind` to `out`.
pub fn encode_header(tag: u16, kind: u8, out: &mut Vec<u8>)
    requires
        kind < 8,
    ensures
        final(out)@ == old(out)@ + header_data(tag, kind),
{
    encode_varint((tag as u64) * 8 + (kind as u64), out);
}

/// Reads one header at `pos` and splits it into the field tag and the wire
/// kind. Reports a decode error exactly when no header stands at `pos`: no
/// varint does, or its value carries a tag beyond the 16-bit tag space.
pub fn decode_header(bytes: &Vec<u8>, pos: usize) -> (r: Result<(u16, u8, usize), Error>)
    ensures
        match r {
            Ok((tag, kind, end)) => {
                &&& kind < 8
                &&& varint_at(bytes@, pos as int, header_value(tag, kind))
                &&& end == pos + header_data(tag, kind).len()
            },
            Err(e) => {
                &&& e == Error::Decode
                &&& forall|tag: u16, kind: u8|
                    kind < 8 ==> !varint_at(bytes@, pos as int, header_value(tag, kind))
            },
        },
{
    match decode_varint(bytes, pos) {
        Ok((h, end)) => {
            let tag_wide = h / 8;
            let kind = (h % 8) as u8;
            if tag_wide > u16::MAX as u64 {
                proof {
                    assert forall|tag: u16, kind: u8|
                        kind < 8 implies !varint_at(
                        bytes@,
                        pos as int,
                        header_value(tag, kind),
                    ) by {
                        if varint_at(bytes@, pos as int, header_value(tag, kind)) {
                            lemma_varint_unique(
                                bytes@,
                                pos as int,
                                h,
                                header_value(tag, kind),
                            );
                            lemma_fundamental_div_mod_converse(
                                h as int,
                                8,
                                tag as int,
                                kind as int,
                            );
                        }
                    }
                }
                Err(Error::Decode)
            } else {
                let tag = tag_wide as u16;
                proof {
                    lemma_fundamental_div_mod(h as int, 8);
                    assert(header_value(tag, kind) == h);
                }
                Ok((tag, kind, end))
            }
        },
        Err(e) => {
            proof {
                assert forall|tag: u16, kind: u8|
                    kind < 8 implies !varint_at(bytes@, pos as int, header_value(tag, kind)) by {
                }
            }
            Err(e)
        },
    }
}

/// The value bytes of a field with wire kind `kind` stand at `pos` and end at
/// `end`: a scalar is one varint; a sized field is a varint byte length
/// followed by that many bytes.
pub open spec fn field_skipped(s: Seq<u8>, pos: int, kind: u8, end: int) -> bool {
    if kind == WIRE_KIND_SCALAR {
        exists|n: u64| #[trigger] varint_at(s, pos, n) && end == pos + varint_data(n).len()
    } else if kind == WIRE_KIND_SIZED {
        exists|n: u64|
            #[trigger] varint_at(s, pos, n) && end == pos + varint_data(n).len() + n && end
                <= s.len()
    } else {
        false
    }
}

/// Skips the value bytes of one field, given the wire kind its header
/// carried: how a decoder passes over an unknown tag without
/// desynchronizing the stream. Reports a decode error exactly when the bytes
/// at `pos` are not a whole field of that kind.
pub fn skip_field(bytes: &Vec<u8>, pos: usize, kind: u8) -> (r: Result<usize, Error>)
    ensures
        match r {
            Ok(end) => pos <= end <= bytes@.len() && field_skipped(
                bytes@,
                pos as int,
                kind,
                end as int,
            ),
            Err(e) => {
                &&& e == Error::Decode
                &&& forall|end: int| !field_skipped(bytes@, pos as int, kind, end)
            },
        },
{
    if kind == WIRE_KIND_SCALAR {
        match decode_varint(bytes, pos) {
            Ok((n, end)) => {
                proof {
                    assert(field_skipped(bytes@, pos as int, kind, end as int)) by {
                        assert(varint_at(bytes@, pos as int, n));
                    }
                }
                Ok(end)
            },
            Err(e) => Err(e),
        }
    } else if kind == WIRE_KIND_SIZED {
        match decode_varint(bytes, pos) {
            Ok((n, vend)) => {
                if n <= (bytes.len() - vend) as u64 {
                    let end = vend + (n as usize);
                    proof {
                        assert(field_skipped(bytes@, pos as int, kind, end as int)) by {
                            assert(varint_at(bytes@, pos as int, n));
                        }
                    }
                    Ok(end)
                } else {
                    proof {
                        assert forall|end: int| !field_skipped(
                            bytes@,
                            pos as int,
                            kind,
                            end,
                        ) by {
                            if field_skipped(bytes@, pos as int, kind, end) {
                                let m = choose|m: u64|
                                    varint_at(bytes@, pos as int, m) && end == pos + varint_data(
                                        m,
                                    ).len() + m && end <= bytes@.len();
                                lemma_varint_unique(bytes@, pos as int, n, m);
                            }
                        }
                    }
                    Err(Error::Decode)
                }
            },
            Err(e) => Err(e),
        }
    } else {
        Err(Error::Decode)
    }
}

/// Reads one varint at `pos` and narrows it to a 32-bit scalar. Reports a
/// decode error exactly when no 32-bit value's encoding stands at `pos`.
pub fn decode_u32(bytes: &Vec<u8>, pos: usize) -> (r: Result<(u32, usize), Error>)
    ensures
        match r {
            Ok((v, end)) => {
                &&& varint_at(bytes@, pos as int, v as u64)
                &&& end == pos + varint_data(v as u64).len()
            },
            Err(e) => {
                &&& e == Error::Decode
                &&& forall|n: u64| varint_at(bytes@, pos as int, n) ==> n > u32::MAX
            },
        },
{
    match decode_varint(bytes, pos) {
        Ok((n, end)) => {
            if n <= u32::MAX as u64 {
                Ok((n as u32, end))
            } else {
                proof {
                    assert forall|m: u64| varint_at(bytes@, pos as int, m) implies m > u32::MAX by {
                        lemma_varint_unique(bytes@, pos as int, n, m);
                    }
                }
                Err(Error::Decode)
            }
        },
        Err(e) => Err(e),
    }
}

/// Reads one varint at `pos` and narrows it to a 16-bit scalar. Reports a
/// decode error exactly when no 16-bit value's encoding stands at `pos`.
pub fn decode_u16(bytes: &Vec<u8>, pos: usize) -> (r: Result<(u16, usize), Error>)
    ensures
        match r {
            Ok((v, end)) => {
                &&& varint_at(bytes@, pos as int, v as u64)
                &&& end == pos + varint_data(v as u64).len()
            },
            Err(e) => {
                &&& e == Error::Decode
                &&& forall|n: u64| varint_at(bytes@, pos as int, n) ==> n > u16::MAX
            },
        },
{
    match decode_varint(bytes, pos) {
        Ok((n, end)) => {
            if n <= u16::MAX as u64 {
                Ok((n as u16, end))
            } else {
                proof {
                    assert forall|m: u64| varint_at(bytes@, pos as int, m) implies m > u16::MAX by {
                        lemma_varint_unique(bytes@, pos as int, n, m);
                    }
                }
                Err(Error::Decode)
            }
        },
        Err(e) => Err(e),
    }
}

/// Reads one varint at `pos` and narrows it to a boolean. Reports a decode
/// error exactly when neither boolean's encoding stands at `pos`.
pub fn decode_bool(bytes: &Vec<u8>, pos: usize) -> (r: Result<(bool, usize), Error>)
    ensures
        match r {
            Ok((v, end)) => {
                &&& varint_at(bytes@, pos as int, bool_value(v))
                &&& end == pos + varint_data(bool_value(v)).len()
            },
            Err(e) => {
                &&& e == Error::Decode
                &&& forall|n: u64| varint_at(bytes@, pos as int, n) ==> n > 1
            },
        },
{
    match decode_varint(bytes, pos) {
        Ok((n, end)) => {
            if n <= 1 {
                Ok((n == 1, end))
            } else {
                proof {
                    assert forall|m: u64| varint_at(bytes@, pos as int, m) implies m > 1 by {
                        lemma_varint_unique(bytes@, pos as int, n, m);
                    }
                }
                Err(Error::Decode)
            }
        },
        Err(e) => Err(e),
    }
}

/// The full encoding of one present field of an object: the header, then the
/// value bytes. A length-delimited value is prefixed by its varint byte
/// length; a scalar stands bare. The prefix belongs to the embedding: a
/// standalone write through `serialize` stays unprefixed.
pub open spec fn field_data<T: WireValue>(tag: u16, value: &T) -> Seq<u8> {
    if T::wire_kind() == WIRE_KIND_SIZED {
        header_data(tag, T::wire_kind()) + varint_data(value.wire_data().len() as u64)
            + value.wire_data()
    } else {
        header_data(tag, T::wire_kind()) + value.wire_data()
    }
}

/// Writes one present field: the header, then the value, length-prefixed when
/// the type is length-delimited. Two-phase sizing shows here: the size the
/// prefix carries is the size the following write then meets, byte for byte.
pub fn encode_field<T: WireValue>(tag: u16, value: &T, out: &mut Vec<u8>) -> (r: Result<(), Error>)
    requires
        wire_fits(value),
    ensures
        r is Ok,
        final(out)@ == old(out)@ + field_data(tag, value),
{
    proof {
        T::wire_kind_valid();
    }
    let kind = value.wire_type();
    encode_header(tag, kind, out);
    if kind == WIRE_KIND_SIZED {
        let size = value.compute_size();
        encode_varint(size as u64, out);
    }
    let r = value.serialize_with_cached_size(out);
    proof {
        assert_seqs_equal!(out@, old(out)@ + field_data(tag, value));
    }
    r
}

/// Forward compatibility: where one whole field stands at `pos`, its header
/// decodes there, and the value bytes behind it satisfy the skip relation, so
/// a decoder that does not know the tag passes over exactly this field and
/// stays synchronized.
pub proof fn lemma_field_skippable<T: WireValue>(s: Seq<u8>, pos: int, tag: u16, value: &T)
    requires
        wire_fits(value),
        0 <= pos,
        pos + field_data(tag, value).len() <= s.len(),
        s.subrange(pos, pos + field_data(tag, value).len() as int) == field_data(tag, value),
    ensures
        varint_at(s, pos, header_value(tag, T::wire_kind())),
        field_skipped(
            s,
            pos + header_data(tag, T::wire_kind()).len(),
            T::wire_kind(),
            pos + field_data(tag, value).len(),
        ),
{
    T::wire_kind_valid();
    value.wire_scalar_form();
    let fd = field_data(tag, value);
    let hd = header_data(tag, T::wire_kind());
    let wd = value.wire_data();
    assert(varint_at(s, pos, header_value(tag, T::wire_kind()))) by {
        assert_seqs_equal!(s.subrange(pos, pos + hd.len() as int), hd, i => {
            assert(s.subrange(pos, pos + fd.len() as int)[i] == fd[i]);
        });
    }
    let vpos = pos + hd.len() as int;
    if T::wire_kind() == WIRE_KIND_SIZED {
        let ld = varint_data(wd.len() as u64);
        assert(varint_at(s, vpos, wd.len() as u64)) by {
            assert_seqs_equal!(s.subrange(vpos, vpos + ld.len() as int), ld, i => {
                assert(s.subrange(pos, pos + fd.len() as int)[hd.len() + i]
                    == fd[hd.len() + i]);
            });
        }
        assert(field_skipped(s, vpos, T::wire_kind(), pos + fd.len() as int)) by {
            assert(vpos + ld.len() + (wd.len() as u64) == pos + fd.len());
        }
    } else {
        let n = choose|n: u64| wd == varint_data(n);
        assert(varint_at(s, vpos, n)) by {
            assert_seqs_equal!(s.subrange(vpos, vpos + wd.len() as int), wd, i => {
                assert(s.subrange(pos, pos + fd.len() as int)[hd.len() + i]
                    == fd[hd.len() + i]);
            });
        }
        assert(field_skipped(s, vpos, T::wire_kind(), pos + fd.len() as int)) by {
            assert(vpos + varint_data(n).len() == pos + fd.len());
        }
    }
}

/// Reads one 64-bit scalar at `pos`. Reports a decode error exactly when no
/// value's encoding stands at `pos`.
pub fn decode_u64(bytes: &Vec<u8>, pos: usize) -> (r: Result<(u64, usize), Error>)
    ensures
        match r {
            Ok((v, end)) => {
                &&& varint_at(bytes@, pos as int, v)
                &&& end == pos + varint_data(v).len()
            },
            Err(e) => {
                &&& e == Error::Decode
                &&& forall|v: u64| !varint_at(bytes@, pos as int, v)
            },
        },
{
    decode_varint(bytes, pos)
}

} // verus!
