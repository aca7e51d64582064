use crate::error::UcPackError;
use crate::value::ValueView;
use vstd::prelude::*;

verus! {

/// A shape that the wire format does not carry, as a reader is asked for it.
#[derive(Debug, Clone, Copy, PartialEq, Eq)]
pub enum Unreadable {
    /// A value that describes itself.
    Any,
    I32,
    I64,
    U32,
    U64,
    F64,
    Char,
    Str,
    /// Owned text.
    Text,
    Bytes,
    ByteBuf,
    Optional,
    Unit,
    /// A struct without fields, by its name.
    UnitStruct(&'static str),
    Sequence,
    Mapping,
    /// A value to be skipped.
    Ignored,
}

impl Unreadable {
    /// The name under which the reader refuses the shape.
    pub open spec fn spec_name(self) -> &'static str {
        match self {
            Unreadable::Any => "any",
            Unreadable::I32 => "i32",
            Unreadable::I64 => "i64",
            Unreadable::U32 => "u32",
            Unreadable::U64 => "u64",
            Unreadable::F64 => "f64",
            Unreadable::Char => "char",
            Unreadable::Str => "&str",
            Unreadable::Text => "String",
            Unreadable::Bytes => "&[u8]",
            Unreadable::ByteBuf => "byte_buf",
            Unreadable::Optional => "option",
            Unreadable::Unit => "unit",
            Unreadable::UnitStruct(name) => name,
            Unreadable::Sequence => "seq",
            Unreadable::Mapping => "map",
            Unreadable::Ignored => "ignored type",
        }
    }

    /// The name under which the reader refuses the shape.
    #[verifier::when_used_as_spec(spec_name)]
    pub fn name(self) -> (name: &'static str)
        ensures
            name == self.spec_name(),
    {
        match self {
            Unreadable::Any => "any",
            Unreadable::I32 => "i32",
            Unreadable::I64 => "i64",
            Unreadable::U32 => "u32",
            Unreadable::U64 => "u64",
            Unreadable::F64 => "f64",
            Unreadable::Char => "char",
            Unreadable::Str => "&str",
            Unreadable::Text => "String",
            Unreadable::Bytes => "&[u8]",
            Unreadable::ByteBuf => "byte_buf",
            Unreadable::Optional => "option",
            Unreadable::Unit => "unit",
            Unreadable::UnitStruct(name) => name,
            Unreadable::Sequence => "seq",
            Unreadable::Mapping => "map",
            Unreadable::Ignored => "ignored type",
        }
    }
}

/// The shape of the value that a reader is to build from the bytes.
#[derive(Debug, PartialEq, Eq)]
pub enum Shape {
    Bool,
    U8,
    I8,
    U16,
    I16,
    F32,
    /// A tuple or tuple struct, by the shapes of its fields.
    Tuple(Vec<Shape>),
    /// A record, by the shapes of its fields in declared order.
    Struct(Vec<Shape>),
    /// A struct around a single value.
    Newtype(Box<Shape>),
    /// A tagged union, by its variants in the order of their indices.
    Enum(Vec<Variant>),
    /// A shape that the wire format does not carry.
    Unsupported(Unreadable),
}

/// One variant of a tagged union.
#[derive(Debug, PartialEq, Eq)]
pub enum Variant {
    /// No fields.
    Unit,
    /// A single value.
    Newtype(Shape),
    /// Unnamed fields.
    Tuple(Vec<Shape>),
    /// Named fields, in declared order.
    Struct(Vec<Shape>),
}

/// The signed number that a byte holds in two's complement.
pub open spec fn i8_of_byte(byte: u8) -> i8 {
    if byte >= 128 {
        (byte - 256) as i8
    } else {
        byte as i8
    }
}

/// The signed number that a 16-bit word holds in two's complement.
pub open spec fn i16_of_word(word: u16) -> i16 {
    if word >= 32768 {
        (word - 65536) as i16
    } else {
        word as i16
    }
}

/// The 16-bit number whose bytes, low byte first, begin `bytes`.
pub open spec fn u16_from_le(bytes: Seq<u8>) -> u16 {
    (bytes[0] + 256 * bytes[1]) as u16
}

/// The 32-bit number whose bytes, lowest first, begin `bytes`.
pub open spec fn u32_from_le(bytes: Seq<u8>) -> u32 {
    (bytes[0] + 256 * bytes[1] + 65536 * bytes[2] + 16777216 * bytes[3]) as u32
}

/// What reading gives: the value and the bytes behind it, or the error.
pub type Parsed = Result<(ValueView, Seq<u8>), UcPackError>;

/// What reading several values gives: the values and the bytes behind them, or the error.
pub type ParsedAll = Result<(Seq<ValueView>, Seq<u8>), UcPackError>;

/// What a reader makes of `input` when asked for a value of `shape`.
///
/// A variant index that the union does not have is refused with `DeError`:
/// the reader of bytes passes the index on as it is, and the list of
/// variants is what rejects it.
pub open spec fn parse(shape: Shape, input: Seq<u8>) -> Parsed
    decreases shape,
{
    match shape {
        Shape::Bool => if input.len() < 1 {
            Err(UcPackError::Eof)
        } else if input[0] == 0 {
            Ok((ValueView::Bool(false), input.skip(1)))
        } else if input[0] == 1 {
            Ok((ValueView::Bool(true), input.skip(1)))
        } else {
            Err(UcPackError::InvalidData)
        },
        Shape::U8 => if input.len() < 1 {
            Err(UcPackError::Eof)
        } else {
            Ok((ValueView::U8(input[0]), input.skip(1)))
        },
        Shape::I8 => if input.len() < 1 {
            Err(UcPackError::Eof)
        } else {
            Ok((ValueView::I8(i8_of_byte(input[0])), input.skip(1)))
        },
        Shape::U16 => if input.len() < 2 {
            Err(UcPackError::Eof)
        } else {
            Ok((ValueView::U16(u16_from_le(input)), input.skip(2)))
        },
        Shape::I16 => if input.len() < 2 {
            Err(UcPackError::Eof)
        } else {
            Ok((ValueView::I16(i16_of_word(u16_from_le(input))), input.skip(2)))
        },
        Shape::F32 => if input.len() < 4 {
            Err(UcPackError::Eof)
        } else {
            Ok((ValueView::F32(u32_from_le(input)), input.skip(4)))
        },
        Shape::Tuple(fields) => match parse_all(fields@, input) {
            Ok((values, rest)) => Ok((ValueView::Tuple(values), rest)),
            Err(error) => Err(error),
        },
        Shape::Struct(fields) => match parse_all(fields@, input) {
            Ok((values, rest)) => Ok((ValueView::Struct(values), rest)),
            Err(error) => Err(error),
        },
        Shape::Newtype(inner) => match parse(*inner, input) {
            Ok((value, rest)) => Ok((ValueView::Newtype(Box::new(value)), rest)),
            Err(error) => Err(error),
        },
        Shape::Enum(variants) => if input.len() < 1 {
            Err(UcPackError::Eof)
        } else if input[0] >= variants@.len() {
            Err(UcPackError::DeError)
        } else {
            parse_variant(variants@[input[0] as int], input[0], input.skip(1))
        },
        Shape::Unsupported(kind) => Err(UcPackError::NoSupport(kind.spec_name())),
    }
}

/// What a reader makes of `input`, which follows the index byte `index`, when
/// that index selects `variant`.
pub open spec fn parse_variant(variant: Variant, index: u8, input: Seq<u8>) -> Parsed
    decreases variant,
{
    match variant {
        Variant::Unit => Ok((ValueView::UnitVariant(index as u32), input)),
        Variant::Newtype(inner) => match parse(inner, input) {
            Ok((value, rest)) => Ok(
                (ValueView::NewtypeVariant(index as u32, Box::new(value)), rest),
            ),
            Err(error) => Err(error),
        },
        Variant::Tuple(fields) => match parse_all(fields@, input) {
            Ok((values, rest)) => Ok((ValueView::TupleVariant(index as u32, values), rest)),
            Err(error) => Err(error),
        },
        Variant::Struct(fields) => match parse_all(fields@, input) {
            Ok((values, rest)) => Ok((ValueView::StructVariant(index as u32, values), rest)),
            Err(error) => Err(error),
        },
    }
}

/// What a reader makes of `input` when asked for one value of each of `shapes`, in order.
pub open spec fn parse_all(shapes: Seq<Shape>, input: Seq<u8>) -> ParsedAll
    decreases shapes,
{
    if shapes.len() == 0 {
        Ok((Seq::empty(), input))
    } else {
        match parse_all(shapes.drop_last(), input) {
            Ok((values, rest)) => match parse(shapes.last(), rest) {
                Ok((value, behind)) => Ok((values.push(value), behind)),
                Err(error) => Err(error),
            },
            Err(error) => Err(error),
        }
    }
}

/// Whether `value` is a value of `shape`: the same kind at every place, as
/// many fields as the shape has, and for a variant an index, no more than
/// 255, of a variant of that form in the union.
pub open spec fn conforms(value: ValueView, shape: Shape) -> bool
    decreases value,
{
    match value {
        ValueView::Bool(_) => shape is Bool,
        ValueView::U8(_) => shape is U8,
        ValueView::I8(_) => shape is I8,
        ValueView::U16(_) => shape is U16,
        ValueView::I16(_) => shape is I16,
        ValueView::F32(_) => shape is F32,
        ValueView::Tuple(items) => match shape {
            Shape::Tuple(fields) => conforms_all(items, fields@),
            _ => false,
        },
        ValueView::Struct(items) => match shape {
            Shape::Struct(fields) => conforms_all(items, fields@),
            _ => false,
        },
        ValueView::Newtype(inner) => match shape {
            Shape::Newtype(inner_shape) => conforms(*inner, *inner_shape),
            _ => false,
        },
        ValueView::UnitVariant(index) => match shape {
            Shape::Enum(variants) => index <= 255 && index < variants@.len()
                && variants@[index as int] is Unit,
            _ => false,
        },
        ValueView::NewtypeVariant(index, inner) => match shape {
            Shape::Enum(variants) => index <= 255 && index < variants@.len()
                && match variants@[index as int] {
                Variant::Newtype(inner_shape) => conforms(*inner, inner_shape),
                _ => false,
            },
            _ => false,
        },
        ValueView::TupleVariant(index, items) => match shape {
            Shape::Enum(variants) => index <= 255 && index < variants@.len()
                && match variants@[index as int] {
                Variant::Tuple(fields) => conforms_all(items, fields@),
                _ => false,
            },
            _ => false,
        },
        ValueView::StructVariant(index, items) => match shape {
            Shape::Enum(variants) => index <= 255 && index < variants@.len()
                && match variants@[index as int] {
                Variant::Struct(fields) => conforms_all(items, fields@),
                _ => false,
            },
            _ => false,
        },
        ValueView::Unsupported(_) => false,
    }
}

/// Whether `items` are as many as `shapes` and each is a value of the shape at its place.
pub open spec fn conforms_all(items: Seq<ValueView>, shapes: Seq<Shape>) -> bool
    decreases items,
{
    &&& items.len() == shapes.len()
    &&& items.len() > 0 ==> {
        &&& conforms_all(items.drop_last(), shapes.drop_last())
        &&& conforms(items.last(), shapes.last())
    }
}

/// Where reading the first `count` of several values fails, reading all of
/// them fails with the same error.
pub proof fn lemma_parse_all_fails(shapes: Seq<Shape>, count: int, input: Seq<u8>)
    requires
        0 <= count <= shapes.len(),
        parse_all(shapes.take(count), input) is Err,
    ensures
        parse_all(shapes, input) == parse_all(shapes.take(count), input),
    decreases shapes.len() - count,
{
    if count < shapes.len() {
        assert(shapes.take(count + 1).drop_last() =~= shapes.take(count));
        lemma_parse_all_fails(shapes, count + 1, input);
    } else {
        assert(shapes.take(count) =~= shapes);
    }
}

} // verus!
