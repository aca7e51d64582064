use ucpack::buffer::{Appending, Offset, SliceCursor};
use ucpack::ser::{
    u16_to_le_bytes, u32_to_le_bytes, write_bool, write_f32, write_fields, write_fields_variant,
    write_i16, write_i8, write_newtype_variant, write_u16, write_u8, write_unsupported,
    write_value, write_variant_index, Serializer,
};
use ucpack::value::{Unsupported, Value};
use ucpack::UcPackError;

fn encode(value: &Value) -> (Result<(), UcPackError>, Vec<u8>) {
    let mut serializer = Serializer::new(Vec::new());
    let result = serializer.serialize_value(value);
    (result, serializer.into_inner())
}

fn encoding(value: &Value) -> Vec<u8> {
    let (result, bytes) = encode(value);
    result.unwrap();
    bytes
}

#[test]
fn bool_is_one_byte() {
    assert_eq!(encoding(&Value::Bool(false)), vec![0]);
    assert_eq!(encoding(&Value::Bool(true)), vec![1]);
}

#[test]
fn bytes_are_raw() {
    assert_eq!(encoding(&Value::U8(0)), vec![0]);
    assert_eq!(encoding(&Value::U8(200)), vec![200]);
    assert_eq!(encoding(&Value::I8(5)), vec![5]);
    assert_eq!(encoding(&Value::I8(-1)), vec![0xFF]);
    assert_eq!(encoding(&Value::I8(-128)), vec![0x80]);
}

#[test]
fn words_are_little_endian() {
    assert_eq!(encoding(&Value::U16(1)), vec![1, 0]);
    assert_eq!(encoding(&Value::U16(0x1234)), vec![0x34, 0x12]);
    assert_eq!(encoding(&Value::U16(0xFFFF)), vec![0xFF, 0xFF]);
    assert_eq!(encoding(&Value::I16(10)), vec![10, 0]);
    assert_eq!(encoding(&Value::I16(-2)), vec![0xFE, 0xFF]);
    assert_eq!(encoding(&Value::I16(i16::MIN)), vec![0x00, 0x80]);
    assert_eq!(u16_to_le_bytes(0xABCD), 0xABCDu16.to_le_bytes());
}

#[test]
fn floats_are_four_bytes_little_endian() {
    assert_eq!(encoding(&Value::F32(1.0f32.to_bits())), vec![0x00, 0x00, 0x80, 0x3F]);
    assert_eq!(encoding(&Value::F32((-2.5f32).to_bits())), (-2.5f32).to_le_bytes().to_vec());
    assert_eq!(u32_to_le_bytes(0x01020304), [4, 3, 2, 1]);
    assert_eq!(u32_to_le_bytes(0xDEADBEEF), 0xDEADBEEFu32.to_le_bytes());
}

#[test]
fn fields_follow_each_other() {
    let tuple = Value::Tuple(vec![Value::U8(1), Value::U16(2), Value::Bool(true)]);
    assert_eq!(encoding(&tuple), vec![1, 2, 0, 1]);
    let record = Value::Struct(vec![Value::U16(1), Value::U8(2), Value::F32(1.0f32.to_bits())]);
    assert_eq!(encoding(&record), vec![0x01, 0x00, 0x02, 0x00, 0x00, 0x80, 0x3F]);
    assert_eq!(encoding(&Value::Tuple(vec![])), Vec::<u8>::new());
    let nested = Value::Tuple(vec![Value::Tuple(vec![Value::U8(1)]), Value::Struct(vec![Value::U8(2)])]);
    assert_eq!(encoding(&nested), vec![1, 2]);
}

#[test]
fn newtype_struct_is_its_value() {
    assert_eq!(encoding(&Value::Newtype(Box::new(Value::U16(0x0102)))), vec![2, 1]);
}

#[test]
fn variants_begin_with_their_index() {
    assert_eq!(encoding(&Value::UnitVariant(0)), vec![0]);
    assert_eq!(encoding(&Value::UnitVariant(255)), vec![255]);
    assert_eq!(encoding(&Value::NewtypeVariant(1, Box::new(Value::U16(10)))), vec![0x01, 0x0A, 0x00]);
    assert_eq!(
        encoding(&Value::TupleVariant(2, vec![Value::U8(7), Value::I8(-1)])),
        vec![2, 7, 0xFF]
    );
    assert_eq!(
        encoding(&Value::StructVariant(3, vec![Value::U16(1), Value::U8(2)])),
        vec![3, 1, 0, 2]
    );
}

#[test]
fn variant_index_above_255_is_bad_variant() {
    assert_eq!(encode(&Value::UnitVariant(256)), (Err(UcPackError::BadVariant), vec![]));
    assert_eq!(
        encode(&Value::NewtypeVariant(1000, Box::new(Value::U8(1)))),
        (Err(UcPackError::BadVariant), vec![])
    );
    assert_eq!(
        encode(&Value::TupleVariant(u32::MAX, vec![Value::U8(1)])),
        (Err(UcPackError::BadVariant), vec![])
    );
    assert_eq!(
        encode(&Value::StructVariant(256, vec![])),
        (Err(UcPackError::BadVariant), vec![])
    );
}

#[test]
fn unsupported_shapes_are_named() {
    let names = [
        (Unsupported::U32, "u32"),
        (Unsupported::I32, "i32"),
        (Unsupported::U64, "u64"),
        (Unsupported::I64, "i64"),
        (Unsupported::U128, "u128"),
        (Unsupported::I128, "i128"),
        (Unsupported::F64, "f64"),
        (Unsupported::Char, "char"),
        (Unsupported::Str, "&str"),
        (Unsupported::Bytes, "&[u8]"),
        (Unsupported::Absent, ""),
        (Unsupported::Present, "Some"),
        (Unsupported::Unit, ""),
        (Unsupported::UnitStruct, "&str"),
        (Unsupported::Text, "string"),
        (Unsupported::Sequence, "sequence"),
        (Unsupported::Mapping, "map"),
    ];
    for (kind, name) in names {
        assert_eq!(kind.name(), name);
        assert_eq!(
            encode(&Value::Unsupported(kind)),
            (Err(UcPackError::NoSupport(name)), vec![])
        );
    }
}

#[test]
fn bytes_before_an_unsupported_shape_stay() {
    let value = Value::Tuple(vec![
        Value::U8(1),
        Value::Unsupported(Unsupported::U32),
        Value::U8(2),
    ]);
    assert_eq!(encode(&value), (Err(UcPackError::NoSupport("u32")), vec![1]));
}

#[test]
fn the_first_refusal_wins() {
    let value = Value::Tuple(vec![
        Value::UnitVariant(300),
        Value::Unsupported(Unsupported::F64),
    ]);
    assert_eq!(encode(&value).0, Err(UcPackError::BadVariant));
    let value = Value::Tuple(vec![
        Value::Unsupported(Unsupported::F64),
        Value::UnitVariant(300),
    ]);
    assert_eq!(encode(&value).0, Err(UcPackError::NoSupport("f64")));
}

#[test]
fn bounded_buffer_fills_up() {
    let mut store = [0u8; 3];
    let mut serializer = Serializer::new(SliceCursor::from_slice(&mut store[..]));
    assert_eq!(serializer.serialize_u16(0x0201), Ok(()));
    assert_eq!(serializer.serialize_u16(0x0403), Err(UcPackError::BufferFull));
    assert_eq!(serializer.serialize_u8(3), Ok(()));
    assert_eq!(serializer.serialize_u8(4), Err(UcPackError::BufferFull));
    let cursor = serializer.into_inner();
    assert_eq!(cursor.index(), 3);
    assert_eq!(cursor.inner(), &[1, 2, 3]);
}

#[test]
fn buffer_full_comes_before_a_later_refusal() {
    let value = Value::Tuple(vec![
        Value::U16(1),
        Value::U16(2),
        Value::Unsupported(Unsupported::Mapping),
    ]);
    let mut store = [0u8; 3];
    let mut serializer = Serializer::new(SliceCursor::from_slice(&mut store[..]));
    assert_eq!(serializer.serialize_value(&value), Err(UcPackError::BufferFull));
    let mut store = [0u8; 4];
    let mut serializer = Serializer::new(SliceCursor::from_slice(&mut store[..]));
    assert_eq!(serializer.serialize_value(&value), Err(UcPackError::NoSupport("map")));
}

#[test]
fn leaf_writers_match_the_value_writer() {
    let mut serializer = Serializer::new(Vec::new());
    serializer.serialize_bool(true).unwrap();
    serializer.serialize_u8(2).unwrap();
    serializer.serialize_i8(-3).unwrap();
    serializer.serialize_u16(4).unwrap();
    serializer.serialize_i16(-5).unwrap();
    serializer.serialize_f32(6.0f32.to_bits()).unwrap();
    serializer.serialize_unit_variant(7).unwrap();
    serializer.serialize_variant_index(8).unwrap();
    serializer.serialize_newtype_struct(&Value::U8(9)).unwrap();
    serializer.serialize_newtype_variant(10, &Value::U8(11)).unwrap();
    serializer.serialize_tuple(&vec![Value::U8(12)]).unwrap();
    serializer.serialize_struct(&vec![Value::U8(13)]).unwrap();
    serializer.serialize_tuple_struct(&vec![]).unwrap();
    serializer.serialize_tuple_variant(14, &vec![Value::U8(15)]).unwrap();
    serializer.serialize_struct_variant(16, &vec![Value::U8(17)]).unwrap();
    assert_eq!(
        serializer.serialize_unsupported(Unsupported::Char),
        Err(UcPackError::NoSupport("char"))
    );
    let bytes = serializer.into_inner();
    let whole = Value::Tuple(vec![
        Value::Bool(true),
        Value::U8(2),
        Value::I8(-3),
        Value::U16(4),
        Value::I16(-5),
        Value::F32(6.0f32.to_bits()),
        Value::UnitVariant(7),
        Value::UnitVariant(8),
        Value::Newtype(Box::new(Value::U8(9))),
        Value::NewtypeVariant(10, Box::new(Value::U8(11))),
        Value::Tuple(vec![Value::U8(12)]),
        Value::Struct(vec![Value::U8(13)]),
        Value::TupleVariant(14, vec![Value::U8(15)]),
        Value::StructVariant(16, vec![Value::U8(17)]),
    ]);
    assert_eq!(bytes, encoding(&whole));
}

#[test]
fn a_clone_is_the_same_value() {
    let value = Value::Struct(vec![
        Value::Bool(true),
        Value::Tuple(vec![Value::U16(7), Value::Newtype(Box::new(Value::I8(-1)))]),
        Value::StructVariant(3, vec![Value::F32(2.5f32.to_bits())]),
        Value::NewtypeVariant(1, Box::new(Value::TupleVariant(2, vec![Value::UnitVariant(0)]))),
        Value::Unsupported(Unsupported::Char),
    ]);
    assert_eq!(value.clone(), value);
}

#[test]
fn values_are_written_at_a_place_in_a_slice() {
    let mut store = [0xEEu8; 24];
    let mut place = Offset { index: 1 };
    write_bool(&mut place, &mut store[..], true).unwrap();
    write_u8(&mut place, &mut store[..], 2).unwrap();
    write_i8(&mut place, &mut store[..], -3).unwrap();
    write_u16(&mut place, &mut store[..], 0x0504).unwrap();
    write_i16(&mut place, &mut store[..], -2).unwrap();
    write_f32(&mut place, &mut store[..], 1.0f32.to_bits()).unwrap();
    write_variant_index(&mut place, &mut store[..], 9).unwrap();
    write_newtype_variant(&mut place, &mut store[..], 10, &Value::U8(11)).unwrap();
    write_fields(&mut place, &mut store[..], &vec![Value::U8(12), Value::U8(13)]).unwrap();
    write_fields_variant(&mut place, &mut store[..], 14, &vec![Value::U8(15)]).unwrap();
    write_value(&mut place, &mut store[..], &Value::U16(0x1110)).unwrap();
    assert_eq!(
        write_unsupported(&mut place, &mut store[..], Unsupported::Mapping),
        Err(UcPackError::NoSupport("map"))
    );
    assert_eq!(
        write_variant_index(&mut place, &mut store[..], 256),
        Err(UcPackError::BadVariant)
    );
    assert_eq!(place.index, 21);
    assert_eq!(
        store,
        [
            0xEE, 1, 2, 0xFD, 4, 5, 0xFE, 0xFF, 0, 0, 0x80, 0x3F, 9, 10, 11, 12, 13, 14, 15, 0x10,
            0x11, 0xEE, 0xEE, 0xEE
        ]
    );
    assert_eq!(
        write_value(&mut place, &mut store[..], &Value::F32(0)),
        Err(UcPackError::BufferFull)
    );
    assert_eq!(place.index, 21);
    assert_eq!(&store[21..], [0xEE; 3]);

    let mut buffer: Vec<u8> = vec![7];
    write_value(&mut Appending, &mut buffer, &Value::U16(0x0201)).unwrap();
    assert_eq!(buffer, vec![7, 1, 2]);
}
