use steit::error::Error;
use steit::wire::decode_bool;
use steit::wire::decode_header;
use steit::wire::decode_u16;
use steit::wire::decode_u32;
use steit::wire::decode_u64;
use steit::wire::encode_field;
use steit::wire::encode_header;
use steit::wire::skip_field;
use steit::wire::WireValue;
use steit::wire::WIRE_KIND_SCALAR;
use steit::wire::WIRE_KIND_SIZED;

fn encoded(v: &impl WireValue) -> Vec<u8> {
    let mut out = Vec::new();
    v.serialize(&mut out).unwrap();
    out
}

#[test]
fn scalar_encodings_are_varints() {
    assert_eq!(encoded(&0u32), vec![0x00]);
    assert_eq!(encoded(&1u32), vec![0x01]);
    assert_eq!(encoded(&127u32), vec![0x7f]);
    assert_eq!(encoded(&128u32), vec![0x80, 0x01]);
    assert_eq!(encoded(&300u32), vec![0xac, 0x02]);
    assert_eq!(encoded(&42u32), vec![0x2a]);
    assert_eq!(encoded(&65535u16), vec![0xff, 0xff, 0x03]);
    assert_eq!(
        encoded(&u64::MAX),
        vec![0xff, 0xff, 0xff, 0xff, 0xff, 0xff, 0xff, 0xff, 0xff, 0x01]
    );
    assert_eq!(encoded(&false), vec![0x00]);
    assert_eq!(encoded(&true), vec![0x01]);
}

#[test]
fn compute_size_matches_encoded_length() {
    let samples: Vec<u64> = vec![0, 1, 127, 128, 300, 16383, 16384, 1 << 32, u64::MAX];
    for v in samples {
        let bytes = encoded(&v);
        assert_eq!(v.compute_size() as usize, bytes.len());
        assert_eq!(v.cached_size() as usize, bytes.len());
        let mut again = Vec::new();
        v.serialize_with_cached_size(&mut again).unwrap();
        assert_eq!(again, bytes);
    }
    assert_eq!(42u32.compute_size(), 1);
    assert_eq!(300u16.compute_size(), 2);
    assert_eq!(true.compute_size(), 1);
}

#[test]
fn scalar_round_trips() {
    let samples: Vec<u64> = vec![0, 1, 127, 128, 300, 65535, 65536, 1 << 40, u64::MAX];
    for v in samples {
        let bytes = encoded(&v);
        assert_eq!(decode_u64(&bytes, 0).unwrap(), (v, bytes.len()));
    }
    let bytes = encoded(&4242u32);
    assert_eq!(decode_u32(&bytes, 0).unwrap(), (4242, bytes.len()));
    let bytes = encoded(&300u16);
    assert_eq!(decode_u16(&bytes, 0).unwrap(), (300, bytes.len()));
    let bytes = encoded(&true);
    assert_eq!(decode_bool(&bytes, 0).unwrap(), (true, 1));
    let bytes = encoded(&false);
    assert_eq!(decode_bool(&bytes, 0).unwrap(), (false, 1));
}

#[test]
fn malformed_varints_are_decode_errors() {
    // truncated: continuation byte at the end of the stream
    assert_eq!(decode_u64(&vec![0x80], 0), Err(Error::Decode));
    // reading past the end
    assert_eq!(decode_u64(&vec![0x01], 1), Err(Error::Decode));
    // non-minimal form
    assert_eq!(decode_u64(&vec![0x80, 0x00], 0), Err(Error::Decode));
    // wider than 64 bits
    assert_eq!(
        decode_u64(
            &vec![0xff, 0xff, 0xff, 0xff, 0xff, 0xff, 0xff, 0xff, 0xff, 0x02],
            0
        ),
        Err(Error::Decode)
    );
    // eleven continuation bytes
    assert_eq!(decode_u64(&vec![0xff; 11], 0), Err(Error::Decode));
}

#[test]
fn narrow_scalar_decoders_reject_wide_values() {
    let wide = encoded(&(u32::MAX as u64 + 1));
    assert_eq!(decode_u32(&wide, 0), Err(Error::Decode));
    let wide = encoded(&(u16::MAX as u32 + 1));
    assert_eq!(decode_u16(&wide, 0), Err(Error::Decode));
    assert_eq!(decode_bool(&vec![0x02], 0), Err(Error::Decode));
}

#[test]
fn header_packs_tag_and_kind() {
    let mut out = Vec::new();
    encode_header(5, WIRE_KIND_SIZED, &mut out);
    assert_eq!(out, vec![42]);
    assert_eq!(decode_header(&out, 0).unwrap(), (5, WIRE_KIND_SIZED, 1));

    let mut out = Vec::new();
    encode_header(1, WIRE_KIND_SCALAR, &mut out);
    assert_eq!(out, vec![8]);
    assert_eq!(decode_header(&out, 0).unwrap(), (1, WIRE_KIND_SCALAR, 1));

    let mut out = Vec::new();
    encode_header(u16::MAX, WIRE_KIND_SIZED, &mut out);
    let (tag, kind, end) = decode_header(&out, 0).unwrap();
    assert_eq!((tag, kind, end), (u16::MAX, WIRE_KIND_SIZED, out.len()));
}

#[test]
fn header_with_tag_out_of_range_is_a_decode_error() {
    // the varint value (u16::MAX + 1) << 3 carries no 16-bit tag
    let mut out = Vec::new();
    ((u16::MAX as u64 + 1) * 8).serialize(&mut out).unwrap();
    assert_eq!(decode_header(&out, 0), Err(Error::Decode));
}

#[test]
fn skip_passes_over_scalar_fields() {
    let bytes = vec![0xac, 0x02, 0x2a];
    assert_eq!(skip_field(&bytes, 0, WIRE_KIND_SCALAR).unwrap(), 2);
    assert_eq!(skip_field(&bytes, 2, WIRE_KIND_SCALAR).unwrap(), 3);
}

#[test]
fn skip_passes_over_sized_fields() {
    let bytes = vec![0x02, 0xaa, 0xbb, 0x2a];
    assert_eq!(skip_field(&bytes, 0, WIRE_KIND_SIZED).unwrap(), 3);
}

#[test]
fn skip_rejects_truncated_or_unknown_kinds() {
    // length prefix promises more bytes than remain
    assert_eq!(skip_field(&vec![0x05, 0xaa], 0, WIRE_KIND_SIZED), Err(Error::Decode));
    // a wire kind this format does not define
    assert_eq!(skip_field(&vec![0x00], 0, 1), Err(Error::Decode));
    // truncated scalar
    assert_eq!(skip_field(&vec![0x80], 0, WIRE_KIND_SCALAR), Err(Error::Decode));
}

#[test]
fn unknown_tag_is_skipped_and_decoding_continues() {
    // header tag=5 kind=2, length prefix 0x02, two payload bytes,
    // then a known field: header tag=1 kind=0, scalar 42
    let mut stream = Vec::new();
    encode_header(5, WIRE_KIND_SIZED, &mut stream);
    stream.push(0x02);
    stream.push(0xaa);
    stream.push(0xbb);
    encode_header(1, WIRE_KIND_SCALAR, &mut stream);
    42u32.serialize(&mut stream).unwrap();

    let (tag, kind, pos) = decode_header(&stream, 0).unwrap();
    assert_eq!((tag, kind), (5, WIRE_KIND_SIZED));
    // tag 5 is unknown to this schema: skip exactly its value bytes
    let pos = skip_field(&stream, pos, kind).unwrap();
    assert_eq!(pos, 4);
    let (tag, kind, pos) = decode_header(&stream, pos).unwrap();
    assert_eq!((tag, kind), (1, WIRE_KIND_SCALAR));
    let (value, pos) = decode_u32(&stream, pos).unwrap();
    assert_eq!(value, 42);
    assert_eq!(pos, stream.len());
}

#[test]
fn wire_types_follow_the_kind_of_the_type() {
    assert_eq!(0u32.wire_type(), WIRE_KIND_SCALAR);
    assert_eq!(0u64.wire_type(), WIRE_KIND_SCALAR);
    assert_eq!(0u16.wire_type(), WIRE_KIND_SCALAR);
    assert_eq!(true.wire_type(), WIRE_KIND_SCALAR);
}

#[test]
fn scalar_fields_are_written_bare() {
    let mut out = Vec::new();
    encode_field(1, &42u32, &mut out).unwrap();
    assert_eq!(out, vec![8, 42]);
    let (tag, kind, pos) = decode_header(&out, 0).unwrap();
    assert_eq!((tag, kind), (1, WIRE_KIND_SCALAR));
    assert_eq!(skip_field(&out, pos, kind).unwrap(), out.len());
}

#[test]
fn sized_fields_carry_their_length_prefix() {
    let nested = steit::runtime::Runtime::new().nested(3).nested(300);
    let mut out = Vec::new();
    encode_field(9, &nested, &mut out).unwrap();
    // header 9 << 3 | 2, length 3, then the tags 3 and 300
    assert_eq!(out, vec![74, 3, 0x03, 0xac, 0x02]);
    let (tag, kind, pos) = decode_header(&out, 0).unwrap();
    assert_eq!((tag, kind), (9, WIRE_KIND_SIZED));
    // an old schema that does not know tag 9 skips the whole field
    assert_eq!(skip_field(&out, pos, kind).unwrap(), out.len());
}
