use ucpack::buffer::SliceCursor;
use ucpack::de::{take_element, u16_from_le_bytes, u32_from_le_bytes, Deserializer};
use ucpack::shape::{Shape, Unreadable, Variant};
use ucpack::value::Value;
use ucpack::UcPackError;

fn decode(shape: &Shape, bytes: &[u8]) -> (Result<Value, UcPackError>, usize) {
    let mut deserializer = Deserializer::new(SliceCursor::from_slice(bytes));
    let result = deserializer.deserialize(shape);
    (result, deserializer.into_inner().index())
}

#[test]
fn bool_is_read_from_zero_or_one() {
    assert_eq!(decode(&Shape::Bool, &[0]), (Ok(Value::Bool(false)), 1));
    assert_eq!(decode(&Shape::Bool, &[1, 9]), (Ok(Value::Bool(true)), 1));
    assert_eq!(decode(&Shape::Bool, &[2]).0, Err(UcPackError::InvalidData));
    assert_eq!(decode(&Shape::Bool, &[255]).0, Err(UcPackError::InvalidData));
    assert_eq!(decode(&Shape::Bool, &[]), (Err(UcPackError::Eof), 0));
}

#[test]
fn bytes_are_read_raw() {
    assert_eq!(decode(&Shape::U8, &[200]), (Ok(Value::U8(200)), 1));
    assert_eq!(decode(&Shape::I8, &[0xFF]), (Ok(Value::I8(-1)), 1));
    assert_eq!(decode(&Shape::I8, &[0x80]), (Ok(Value::I8(-128)), 1));
    assert_eq!(decode(&Shape::I8, &[0x7F]), (Ok(Value::I8(127)), 1));
    assert_eq!(decode(&Shape::U8, &[]), (Err(UcPackError::Eof), 0));
    assert_eq!(decode(&Shape::I8, &[]), (Err(UcPackError::Eof), 0));
}

#[test]
fn words_are_read_low_byte_first() {
    assert_eq!(decode(&Shape::U16, &[0x34, 0x12]), (Ok(Value::U16(0x1234)), 2));
    assert_eq!(decode(&Shape::I16, &[0xFE, 0xFF]), (Ok(Value::I16(-2)), 2));
    assert_eq!(decode(&Shape::I16, &[0x00, 0x80]), (Ok(Value::I16(i16::MIN)), 2));
    assert_eq!(decode(&Shape::U16, &[1]), (Err(UcPackError::Eof), 0));
    assert_eq!(decode(&Shape::I16, &[]), (Err(UcPackError::Eof), 0));
    assert_eq!(u16_from_le_bytes([0xCD, 0xAB]), 0xABCD);
}

#[test]
fn floats_are_read_from_four_bytes() {
    assert_eq!(
        decode(&Shape::F32, &[0x00, 0x00, 0x80, 0x3F]),
        (Ok(Value::F32(1.0f32.to_bits())), 4)
    );
    assert_eq!(decode(&Shape::F32, &[0, 0, 0x80]), (Err(UcPackError::Eof), 0));
    assert_eq!(u32_from_le_bytes([4, 3, 2, 1]), 0x01020304);
    assert_eq!(u32_from_le_bytes(0xDEADBEEFu32.to_le_bytes()), 0xDEADBEEF);
}

#[test]
fn read_u16_reads_two_bytes() {
    let bytes = [1u8, 2, 3];
    let mut deserializer = Deserializer::new(SliceCursor::from_slice(&bytes[..]));
    assert_eq!(deserializer.read_u16(), Ok(0x0201));
    assert_eq!(deserializer.read_u16(), Err(UcPackError::Eof));
    assert_eq!(deserializer.deserialize_u8(), Ok(3));
}

#[test]
fn fields_are_read_in_order() {
    let shape = Shape::Tuple(vec![Shape::U8, Shape::U16, Shape::Bool]);
    assert_eq!(
        decode(&shape, &[1, 2, 0, 1, 77]),
        (Ok(Value::Tuple(vec![Value::U8(1), Value::U16(2), Value::Bool(true)])), 4)
    );
    let shape = Shape::Struct(vec![Shape::U16, Shape::U8]);
    assert_eq!(
        decode(&shape, &[1, 0, 2]),
        (Ok(Value::Struct(vec![Value::U16(1), Value::U8(2)])), 3)
    );
    assert_eq!(decode(&shape, &[1, 0]).0, Err(UcPackError::Eof));
    assert_eq!(decode(&Shape::Tuple(vec![]), &[5]), (Ok(Value::Tuple(vec![])), 0));
    let shape = Shape::Newtype(Box::new(Shape::U16));
    assert_eq!(
        decode(&shape, &[2, 1]),
        (Ok(Value::Newtype(Box::new(Value::U16(0x0102)))), 2)
    );
}

#[test]
fn the_index_byte_selects_the_variant() {
    let shape = Shape::Enum(vec![
        Variant::Unit,
        Variant::Newtype(Shape::U16),
        Variant::Tuple(vec![Shape::U8, Shape::I8]),
        Variant::Struct(vec![Shape::U16, Shape::U8]),
    ]);
    assert_eq!(decode(&shape, &[0, 9]), (Ok(Value::UnitVariant(0)), 1));
    assert_eq!(
        decode(&shape, &[1, 0x0A, 0x00]),
        (Ok(Value::NewtypeVariant(1, Box::new(Value::U16(10)))), 3)
    );
    assert_eq!(
        decode(&shape, &[2, 7, 0xFF]),
        (Ok(Value::TupleVariant(2, vec![Value::U8(7), Value::I8(-1)])), 3)
    );
    assert_eq!(
        decode(&shape, &[3, 1, 0, 2]),
        (Ok(Value::StructVariant(3, vec![Value::U16(1), Value::U8(2)])), 4)
    );
    assert_eq!(decode(&shape, &[]).0, Err(UcPackError::Eof));
    assert_eq!(decode(&shape, &[1, 0x0A]).0, Err(UcPackError::Eof));
}

#[test]
fn an_index_without_a_variant_is_refused() {
    let shape = Shape::Enum(vec![Variant::Unit, Variant::Newtype(Shape::U16)]);
    assert_eq!(decode(&shape, &[2, 0, 0]).0, Err(UcPackError::DeError));
    assert_eq!(decode(&shape, &[255]).0, Err(UcPackError::DeError));
    assert_eq!(decode(&Shape::Enum(vec![]), &[0]).0, Err(UcPackError::DeError));
}

#[test]
fn the_index_byte_is_passed_on_as_it_is() {
    let bytes = [200u8, 1];
    let mut deserializer = Deserializer::new(SliceCursor::from_slice(&bytes[..]));
    assert_eq!(deserializer.variant_seed(), Ok(200));
    assert_eq!(deserializer.unit_variant(), Ok(()));
    assert_eq!(deserializer.into_inner().index(), 1);
}

#[test]
fn unsupported_shapes_are_named_and_read_nothing() {
    let names = [
        (Unreadable::Any, "any"),
        (Unreadable::I32, "i32"),
        (Unreadable::I64, "i64"),
        (Unreadable::U32, "u32"),
        (Unreadable::U64, "u64"),
        (Unreadable::F64, "f64"),
        (Unreadable::Char, "char"),
        (Unreadable::Str, "&str"),
        (Unreadable::Text, "String"),
        (Unreadable::Bytes, "&[u8]"),
        (Unreadable::ByteBuf, "byte_buf"),
        (Unreadable::Optional, "option"),
        (Unreadable::Unit, "unit"),
        (Unreadable::UnitStruct("Marker"), "Marker"),
        (Unreadable::Sequence, "seq"),
        (Unreadable::Mapping, "map"),
        (Unreadable::Ignored, "ignored type"),
    ];
    for (kind, name) in names {
        assert_eq!(kind.name(), name);
        assert_eq!(
            decode(&Shape::Unsupported(kind), &[1, 2, 3, 4, 5, 6, 7, 8]),
            (Err(UcPackError::NoSupport(name)), 0)
        );
    }
}

#[test]
fn an_unsupported_field_stops_the_reading() {
    let shape = Shape::Tuple(vec![
        Shape::U8,
        Shape::Unsupported(Unreadable::U32),
        Shape::U8,
    ]);
    assert_eq!(decode(&shape, &[1, 2, 3, 4, 5, 6]).0, Err(UcPackError::NoSupport("u32")));
}

#[test]
fn elements_are_counted_off() {
    let mut remaining = 2usize;
    assert!(take_element(&mut remaining));
    assert_eq!(remaining, 1);
    assert!(take_element(&mut remaining));
    assert_eq!(remaining, 0);
    assert!(!take_element(&mut remaining));
    assert_eq!(remaining, 0);
}

#[test]
fn variant_readers_match_the_shape_reader() {
    let bytes = [5u8, 6, 7, 8, 9];
    let mut deserializer = Deserializer::new(SliceCursor::from_slice(&bytes[..]));
    assert_eq!(deserializer.newtype_variant_seed(&Shape::U8), Ok(Value::U8(5)));
    assert_eq!(deserializer.tuple_variant(&vec![Shape::U8]), Ok(vec![Value::U8(6)]));
    assert_eq!(deserializer.struct_variant(&vec![Shape::U8]), Ok(vec![Value::U8(7)]));
    assert_eq!(deserializer.deserialize_struct(&vec![Shape::U8]), Ok(vec![Value::U8(8)]));
    assert_eq!(deserializer.deserialize_newtype_struct(&Shape::U8), Ok(Value::U8(9)));
    assert_eq!(deserializer.deserialize_identifier(), Err(UcPackError::Eof));
    assert_eq!(deserializer.deserialize_tuple_struct(&vec![]), Ok(vec![]));
    assert_eq!(deserializer.deserialize_tuple(&vec![Shape::U8]), Err(UcPackError::Eof));
    assert_eq!(
        deserializer.deserialize_unsupported(Unreadable::Char),
        Err(UcPackError::NoSupport("char"))
    );
}
