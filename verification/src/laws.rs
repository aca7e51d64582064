//! What holds of the codec as a whole, proved from the definitions of the
//! wire format.

use crate::crc::{crc8_of, lemma_crc8_detects_byte_change};
use crate::error::UcPackError;
use crate::frame::{
    complete_frame, decoded, frame_of, lemma_frame_parts, payload_of, slice_failure, unframed, vec_failure,
    MAX_PAYLOAD, OVERHEAD,
};
use crate::ser::begins_with;
use crate::shape::{
    conforms, conforms_all, i16_of_word, i8_of_byte, parse, parse_all, parse_variant, u16_from_le,
    u32_from_le, Shape, Variant,
};
use crate::value::{
    byte_of_i8, index_trace, le_bytes_u16, le_bytes_u32, trace_all, word_of_i16, Trace, ValueView,
};
use vstd::prelude::*;

verus! {

/// A number that fits in a byte, two bytes or four bytes is the number that
/// its little-endian bytes spell, and a signed number is the one that its
/// two's complement stands for.
proof fn lemma_numbers_invert(a: i8, b: u16, c: i16, d: u32, tail: Seq<u8>)
    ensures
        i8_of_byte(byte_of_i8(a)) == a,
        u16_from_le(le_bytes_u16(b) + tail) == b,
        i16_of_word(word_of_i16(c)) == c,
        u32_from_le(le_bytes_u32(d) + tail) == d,
{
}

/// The first byte of an index trace that does not stop is the index.
proof fn lemma_index_byte(index: u32, rest: Seq<u8>)
    requires
        index <= 255,
    ensures
        index_trace(index).stop is None,
        (index_trace(index).bytes + rest)[0] == index,
        (index_trace(index).bytes + rest).skip(1) == rest,
        (index_trace(index).bytes + rest).len() >= 1,
{
    assert((index_trace(index).bytes + rest).skip(1) =~= rest);
}

/// A value of a shape can be written, and reading that shape from its
/// encoding, whatever bytes follow, gives the value back and leaves those
/// bytes.
pub proof fn lemma_parse_inverts_encoding(value: ValueView, shape: Shape, tail: Seq<u8>)
    requires
        conforms(value, shape),
    ensures
        value.encodable(),
        parse(shape, value.encoding() + tail) == Ok::<(ValueView, Seq<u8>), UcPackError>(
            (value, tail),
        ),
    decreases value, 1nat,
{
    let input = value.encoding() + tail;
    match value {
        ValueView::Bool(v) => {
            assert(input.skip(1) =~= tail);
        },
        ValueView::U8(v) => {
            assert(input.skip(1) =~= tail);
        },
        ValueView::I8(v) => {
            assert(input.skip(1) =~= tail);
            lemma_numbers_invert(v, 0, 0, 0, tail);
        },
        ValueView::U16(v) => {
            assert(input.skip(2) =~= tail);
            lemma_numbers_invert(0, v, 0, 0, tail);
        },
        ValueView::I16(v) => {
            assert(input.skip(2) =~= tail);
            lemma_numbers_invert(0, word_of_i16(v), v, 0, tail);
        },
        ValueView::F32(bits) => {
            assert(input.skip(4) =~= tail);
            lemma_numbers_invert(0, 0, 0, bits, tail);
        },
        ValueView::Tuple(items) => {
            lemma_parse_all_inverts_encoding(items, shape->Tuple_0@, tail);
        },
        ValueView::Struct(items) => {
            lemma_parse_all_inverts_encoding(items, shape->Struct_0@, tail);
        },
        ValueView::Newtype(inner) => {
            lemma_parse_inverts_encoding(*inner, *shape->Newtype_0, tail);
        },
        ValueView::UnitVariant(index) => {
            lemma_parse_inverts_variant(value, index, shape->Enum_0@[index as int], tail);
            lemma_index_byte(index, tail);
        },
        ValueView::NewtypeVariant(index, inner) => {
            lemma_parse_inverts_variant(value, index, shape->Enum_0@[index as int], tail);
            lemma_index_byte(index, inner.trace().bytes + tail);
            assert(input =~= index_trace(index).bytes + (inner.trace().bytes + tail));
        },
        ValueView::TupleVariant(index, items) => {
            lemma_parse_inverts_variant(value, index, shape->Enum_0@[index as int], tail);
            lemma_index_byte(index, trace_all(items).bytes + tail);
            assert(input =~= index_trace(index).bytes + (trace_all(items).bytes + tail));
        },
        ValueView::StructVariant(index, items) => {
            lemma_parse_inverts_variant(value, index, shape->Enum_0@[index as int], tail);
            lemma_index_byte(index, trace_all(items).bytes + tail);
            assert(input =~= index_trace(index).bytes + (trace_all(items).bytes + tail));
        },
        ValueView::Unsupported(_) => {},
    }
}

/// What a variant value holds behind its index byte.
spec fn variant_body(value: ValueView) -> Trace {
    match value {
        ValueView::NewtypeVariant(_, inner) => inner.trace(),
        ValueView::TupleVariant(_, items) => trace_all(items),
        ValueView::StructVariant(_, items) => trace_all(items),
        _ => Trace::done(Seq::empty()),
    }
}

/// Whether `value` is a variant value of index `index` and of the form and
/// field shapes of `variant`.
spec fn conforms_variant(value: ValueView, index: u32, variant: Variant) -> bool {
    match value {
        ValueView::UnitVariant(i) => i == index && variant is Unit,
        ValueView::NewtypeVariant(i, inner) => i == index && match variant {
            Variant::Newtype(inner_shape) => conforms(*inner, inner_shape),
            _ => false,
        },
        ValueView::TupleVariant(i, items) => i == index && match variant {
            Variant::Tuple(fields) => conforms_all(items, fields@),
            _ => false,
        },
        ValueView::StructVariant(i, items) => i == index && match variant {
            Variant::Struct(fields) => conforms_all(items, fields@),
            _ => false,
        },
        _ => false,
    }
}

/// Reading a variant from what a value of it holds behind its index byte
/// gives the value back.
proof fn lemma_parse_inverts_variant(value: ValueView, index: u32, variant: Variant, tail: Seq<u8>)
    requires
        index <= 255,
        conforms_variant(value, index, variant),
    ensures
        variant_body(value).stop is None,
        parse_variant(variant, index as u8, variant_body(value).bytes + tail) == Ok::<
            (ValueView, Seq<u8>),
            UcPackError,
        >((value, tail)),
    decreases value, 0nat,
{
    match value {
        ValueView::UnitVariant(_) => {
            assert(variant_body(value).bytes + tail =~= tail);
        },
        ValueView::NewtypeVariant(_, inner) => {
            lemma_parse_inverts_encoding(*inner, variant->Newtype_0, tail);
        },
        ValueView::TupleVariant(_, items) => {
            lemma_parse_all_inverts_encoding(items, variant->Tuple_0@, tail);
        },
        ValueView::StructVariant(_, items) => {
            lemma_parse_all_inverts_encoding(items, variant->Struct_0@, tail);
        },
        _ => {},
    }
}

/// Values of given shapes can be written one after the other, and reading
/// those shapes from what was written, whatever bytes follow, gives the
/// values back and leaves those bytes.
pub proof fn lemma_parse_all_inverts_encoding(
    items: Seq<ValueView>,
    shapes: Seq<Shape>,
    tail: Seq<u8>,
)
    requires
        conforms_all(items, shapes),
    ensures
        trace_all(items).stop is None,
        parse_all(shapes, trace_all(items).bytes + tail) == Ok::<
            (Seq<ValueView>, Seq<u8>),
            UcPackError,
        >((items, tail)),
    decreases items, 1nat,
{
    if items.len() == 0 {
        assert(trace_all(items).bytes + tail =~= tail);
        assert(items =~= Seq::empty());
    } else {
        let front = items.drop_last();
        let last = items.last();
        lemma_parse_inverts_encoding(last, shapes.last(), tail);
        lemma_parse_all_inverts_encoding(front, shapes.drop_last(), last.encoding() + tail);
        assert(trace_all(items).bytes + tail =~= trace_all(front).bytes + (last.encoding() + tail));
        assert(front.push(last) =~= items);
    }
}

/// The length of a frame is its length byte plus four.
pub proof fn lemma_frame_length(start: u8, end: u8, payload: Seq<u8>)
    requires
        payload.len() <= MAX_PAYLOAD,
    ensures
        frame_of(start, end, payload).len() == frame_of(start, end, payload)[1] + 4,
{
    lemma_frame_parts(start, end, payload);
}

/// Equal bytes have equal checksums: the CRC8 depends on the bytes alone.
pub proof fn lemma_crc8_is_a_function_of_the_bytes(a: Seq<u8>, b: Seq<u8>)
    requires
        a =~= b,
    ensures
        crc8_of(a) == crc8_of(b),
{
}

/// Decoding inverts encoding: the frame of a value of some shape, read as
/// that shape by a codec with the same markers, strict or not and whatever
/// bytes follow the frame, gives the value back.
pub proof fn lemma_round_trip(
    start: u8,
    end: u8,
    strict: bool,
    value: ValueView,
    shape: Shape,
    behind: Seq<u8>,
)
    requires
        conforms(value, shape),
        value.encoding().len() <= MAX_PAYLOAD,
    ensures
        vec_failure(value.trace()) is None,
        decoded(start, end, strict, shape, frame_of(start, end, value.encoding()) + behind) == Ok::<
            ValueView,
            UcPackError,
        >(value),
{
    let payload = value.encoding();
    let frame = frame_of(start, end, payload);
    lemma_frame_parts(start, end, payload);
    lemma_probe_finds_frame(start, end, payload, behind);
    lemma_parse_inverts_encoding(value, shape, Seq::empty());
    assert(payload + Seq::<u8>::empty() =~= payload);
}

/// A buffer too small for the frame of a value makes the writing fail with
/// `BufferFull`. The value is one that has a frame: it can be written and
/// its encoding is no longer than 255 bytes.
pub proof fn lemma_small_buffer_is_full(value: ValueView, capacity: nat)
    requires
        value.encodable(),
        value.encoding().len() <= MAX_PAYLOAD,
        capacity < value.encoding().len() + OVERHEAD,
    ensures
        slice_failure(capacity, value.trace()) == Some(UcPackError::BufferFull),
{
}

/// Bytes whose length byte is zero do not begin with the frame of a payload
/// that is not empty. Such are the bytes that a failed writing into a slice
/// leaves, so they hold no frame of a value whose encoding has a byte.
pub proof fn lemma_zero_length_byte_is_no_frame(
    start: u8,
    end: u8,
    payload: Seq<u8>,
    bytes: Seq<u8>,
)
    requires
        1 <= payload.len() <= MAX_PAYLOAD,
        bytes.len() >= 2,
        bytes[1] == 0,
    ensures
        !begins_with(bytes, frame_of(start, end, payload)),
        complete_frame(bytes) != Some(frame_of(start, end, payload)),
{
    let frame = frame_of(start, end, payload);
    lemma_frame_parts(start, end, payload);
    if begins_with(bytes, frame) {
        assert(bytes.take(frame.len() as int)[1] == frame[1]);
    }
    if complete_frame(bytes) == Some(frame) {
        assert(bytes.take(bytes[1] + OVERHEAD)[1] == frame[1]);
    }
}

/// A value that can be written but whose encoding is longer than 255 bytes
/// makes the framing fail with `TooLong`: always in a growing buffer, and in
/// a bounded one as soon as the frame's first two bytes and the payload fit,
/// whether or not the end marker and the checksum would.
pub proof fn lemma_long_payload_is_too_long(value: ValueView, capacity: nat)
    requires
        value.encodable(),
        value.encoding().len() > MAX_PAYLOAD,
    ensures
        vec_failure(value.trace()) == Some(UcPackError::TooLong),
        capacity >= value.encoding().len() + 2 ==> slice_failure(capacity, value.trace()) == Some(
            UcPackError::TooLong,
        ),
{
}

/// A frame whose markers are not the codec's is refused with `WrongIndex`
/// in strict mode; with strict mode off it decodes as it does for a codec
/// that has those markers.
pub proof fn lemma_strict_mode_checks_markers(
    start: u8,
    end: u8,
    other_start: u8,
    other_end: u8,
    payload: Seq<u8>,
    shape: Shape,
)
    requires
        payload.len() <= MAX_PAYLOAD,
        other_start != start || other_end != end,
    ensures
        decoded(start, end, true, shape, frame_of(other_start, other_end, payload)) == Err::<
            ValueView,
            UcPackError,
        >(UcPackError::WrongIndex),
        unframed(start, end, false, frame_of(other_start, other_end, payload)) == Ok::<
            Seq<u8>,
            UcPackError,
        >(payload),
        decoded(start, end, false, shape, frame_of(other_start, other_end, payload)) == decoded(
            other_start,
            other_end,
            true,
            shape,
            frame_of(other_start, other_end, payload),
        ),
{
    lemma_frame_parts(other_start, other_end, payload);
    lemma_probe_finds_frame(other_start, other_end, payload, Seq::empty());
    assert(frame_of(other_start, other_end, payload) + Seq::<u8>::empty() =~= frame_of(
        other_start,
        other_end,
        payload,
    ));
}

/// A frame in which one byte of the payload has been changed is refused
/// with `WrongCrc`, strict or not.
pub proof fn lemma_corruption_is_detected(
    start: u8,
    end: u8,
    strict: bool,
    payload: Seq<u8>,
    shape: Shape,
    at: int,
    byte: u8,
)
    requires
        payload.len() <= MAX_PAYLOAD,
        0 <= at < payload.len(),
        byte != payload[at],
    ensures
        decoded(start, end, strict, shape, frame_of(start, end, payload).update(at + 2, byte))
            == Err::<ValueView, UcPackError>(UcPackError::WrongCrc),
{
    let frame = frame_of(start, end, payload);
    let broken = frame.update(at + 2, byte);
    lemma_frame_parts(start, end, payload);
    lemma_crc8_detects_byte_change(payload, at, byte);
    assert(broken.take(broken[1] + OVERHEAD) =~= broken);
    assert(payload_of(broken) =~= payload.update(at, byte));
}

/// The probe finds a frame as soon as all of it is there, and not before:
/// on the frame's first bytes short of the whole it says that more has to
/// come, and on the frame, whatever bytes follow, it returns the frame.
pub proof fn lemma_probe_waits_for_frame(
    start: u8,
    end: u8,
    payload: Seq<u8>,
    received: int,
    behind: Seq<u8>,
)
    requires
        payload.len() <= MAX_PAYLOAD,
        0 <= received < payload.len() + OVERHEAD,
    ensures
        complete_frame(frame_of(start, end, payload).take(received)) is None,
        complete_frame(frame_of(start, end, payload) + behind) == Some(
            frame_of(start, end, payload),
        ),
{
    lemma_frame_parts(start, end, payload);
    lemma_probe_finds_frame(start, end, payload, behind);
}

/// On a frame, whatever bytes follow, the probe returns the frame.
pub proof fn lemma_probe_finds_frame(start: u8, end: u8, payload: Seq<u8>, behind: Seq<u8>)
    requires
        payload.len() <= MAX_PAYLOAD,
    ensures
        complete_frame(frame_of(start, end, payload) + behind) == Some(
            frame_of(start, end, payload),
        ),
{
    let frame = frame_of(start, end, payload);
    lemma_frame_parts(start, end, payload);
    assert((frame + behind).take(frame.len() as int) =~= frame);
}

} // verus!
