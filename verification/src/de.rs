use crate::buffer::ReadBuffer;
use crate::error::UcPackError;
use crate::shape::{
    i16_of_word, i8_of_byte, lemma_parse_all_fails, parse, parse_all, parse_variant, u16_from_le,
    u32_from_le, Parsed, ParsedAll, Shape, Unreadable, Variant,
};
use crate::value::{views, Value, ValueView};
use vstd::prelude::*;

verus! {

/// Whether a reader that went from `before` to `after` and returned `result`
/// has done what `expected` says: returned the value and left the bytes
/// behind it, or returned the error. Nothing is said of what is left after a
/// failure.
pub open spec fn reads<B: ReadBuffer>(
    before: B,
    after: B,
    expected: Parsed,
    result: Result<Value, UcPackError>,
) -> bool {
    &&& after.wf()
    &&& match expected {
        Ok((value, rest)) => result is Ok && result->Ok_0@ == value && after.remaining() == rest,
        Err(error) => result is Err && result->Err_0 == error,
    }
}

/// As `reads`, for a reader of several values.
pub open spec fn reads_all<B: ReadBuffer>(
    before: B,
    after: B,
    expected: ParsedAll,
    result: Result<Vec<Value>, UcPackError>,
) -> bool {
    &&& after.wf()
    &&& match expected {
        Ok((values, rest)) => result is Ok && views(result->Ok_0@) == values && after.remaining()
            == rest,
        Err(error) => result is Err && result->Err_0 == error,
    }
}

/// Counts one element off a number of elements that are still to come.
/// Returns whether there was one; at zero nothing changes.
pub fn take_element(remaining: &mut usize) -> (more: bool)
    ensures
        more <==> *old(remaining) > 0,
        more ==> *final(remaining) == *old(remaining) - 1,
        !more ==> *final(remaining) == 0,
{
    if *remaining == 0 {
        return false;
    }
    *remaining = *remaining - 1;
    true
}

/// The 16-bit number whose bytes, low byte first, are `bytes`.
pub fn u16_from_le_bytes(bytes: [u8; 2]) -> (v: u16)
    ensures
        v == u16_from_le(bytes@),
{
    let low = bytes[0];
    let high = bytes[1];
    assert((low as u16) | ((high as u16) << 8) == low + 256 * high) by (bit_vector);
    (low as u16) | ((high as u16) << 8)
}

/// The 32-bit number whose bytes, lowest first, are `bytes`.
pub fn u32_from_le_bytes(bytes: [u8; 4]) -> (v: u32)
    ensures
        v == u32_from_le(bytes@),
{
    let b0 = bytes[0];
    let b1 = bytes[1];
    let b2 = bytes[2];
    let b3 = bytes[3];
    assert((b0 as u32) | ((b1 as u32) << 8) | ((b2 as u32) << 16) | ((b3 as u32) << 24) == b0 + 256
        * b1 + 65536 * b2 + 16777216 * b3) by (bit_vector);
    (b0 as u32) | ((b1 as u32) << 8) | ((b2 as u32) << 16) | ((b3 as u32) << 24)
}

/// A reader of values from a [`ReadBuffer`], by the rules of the wire format.
pub struct Deserializer<B: ReadBuffer> {
    buffer: B,
}

impl<B: ReadBuffer> Deserializer<B> {
    /// The buffer that the reader reads from.
    pub closed spec fn buffer(&self) -> B {
        self.buffer
    }

    /// A reader from `buffer`.
    pub fn new(buffer: B) -> (deserializer: Self)
        ensures
            deserializer.buffer() == buffer,
    {
        Self { buffer }
    }

    /// Gives the buffer back, with what has not been read.
    pub fn into_inner(self) -> (buffer: B)
        ensures
            buffer == self.buffer(),
    {
        self.buffer
    }

    /// Reads two bytes as a 16-bit number, low byte first.
    pub fn read_u16(&mut self) -> (r: Result<u16, UcPackError>)
        requires
            old(self).buffer().wf(),
        ensures
            final(self).buffer().wf(),
            r is Ok <==> old(self).buffer().remaining().len() >= 2,
            r is Ok ==> r->Ok_0 == u16_from_le(old(self).buffer().remaining()),
            r is Ok ==> final(self).buffer().remaining() == old(self).buffer().remaining().skip(2),
            r is Err ==> r->Err_0 == UcPackError::Eof,
    {
        match self.buffer.read_n::<2>() {
            Ok(bytes) => Ok(u16_from_le_bytes(bytes)),
            Err(error) => Err(error),
        }
    }

    /// Reads a boolean: one byte, 0 or 1; any other byte is `InvalidData`.
    pub fn deserialize_bool(&mut self) -> (r: Result<bool, UcPackError>)
        requires
            old(self).buffer().wf(),
        ensures
            final(self).buffer().wf(),
            match parse(Shape::Bool, old(self).buffer().remaining()) {
                Ok((value, rest)) => r is Ok && ValueView::Bool(r->Ok_0) == value && final(self).buffer().remaining() == rest,
                Err(error) => r is Err && r->Err_0 == error,
            },
    {
        let byte = match self.buffer.read_u8() {
            Ok(byte) => byte,
            Err(error) => { return Err(error); },
        };
        match byte {
            0 => Ok(false),
            1 => Ok(true),
            _ => Err(UcPackError::InvalidData),
        }
    }

    /// Reads an unsigned 8-bit number: one byte.
    pub fn deserialize_u8(&mut self) -> (r: Result<u8, UcPackError>)
        requires
            old(self).buffer().wf(),
        ensures
            final(self).buffer().wf(),
            match parse(Shape::U8, old(self).buffer().remaining()) {
                Ok((value, rest)) => r is Ok && ValueView::U8(r->Ok_0) == value && final(self).buffer().remaining() == rest,
                Err(error) => r is Err && r->Err_0 == error,
            },
    {
        self.buffer.read_u8()
    }

    /// Reads a signed 8-bit number: one byte in two's complement.
    pub fn deserialize_i8(&mut self) -> (r: Result<i8, UcPackError>)
        requires
            old(self).buffer().wf(),
        ensures
            final(self).buffer().wf(),
            match parse(Shape::I8, old(self).buffer().remaining()) {
                Ok((value, rest)) => r is Ok && ValueView::I8(r->Ok_0) == value && final(self).buffer().remaining() == rest,
                Err(error) => r is Err && r->Err_0 == error,
            },
    {
        match self.buffer.read_u8() {
            Ok(byte) => {
                assert(byte as i8 == i8_of_byte(byte)) by (bit_vector);
                Ok(byte as i8)
            },
            Err(error) => Err(error),
        }
    }

    /// Reads an unsigned 16-bit number: two bytes, low byte first.
    pub fn deserialize_u16(&mut self) -> (r: Result<u16, UcPackError>)
        requires
            old(self).buffer().wf(),
        ensures
            final(self).buffer().wf(),
            match parse(Shape::U16, old(self).buffer().remaining()) {
                Ok((value, rest)) => r is Ok && ValueView::U16(r->Ok_0) == value && final(self).buffer().remaining() == rest,
                Err(error) => r is Err && r->Err_0 == error,
            },
    {
        self.read_u16()
    }

    /// Reads a signed 16-bit number: two bytes in two's complement, low byte first.
    pub fn deserialize_i16(&mut self) -> (r: Result<i16, UcPackError>)
        requires
            old(self).buffer().wf(),
        ensures
            final(self).buffer().wf(),
            match parse(Shape::I16, old(self).buffer().remaining()) {
                Ok((value, rest)) => r is Ok && ValueView::I16(r->Ok_0) == value && final(self).buffer().remaining() == rest,
                Err(error) => r is Err && r->Err_0 == error,
            },
    {
        match self.read_u16() {
            Ok(word) => {
                assert(word as i16 == i16_of_word(word)) by (bit_vector);
                Ok(word as i16)
            },
            Err(error) => Err(error),
        }
    }

    /// Reads a 32-bit float as its IEEE-754 bits: four bytes, lowest first.
    pub fn deserialize_f32(&mut self) -> (r: Result<u32, UcPackError>)
        requires
            old(self).buffer().wf(),
        ensures
            final(self).buffer().wf(),
            match parse(Shape::F32, old(self).buffer().remaining()) {
                Ok((value, rest)) => r is Ok && ValueView::F32(r->Ok_0) == value && final(self).buffer().remaining() == rest,
                Err(error) => r is Err && r->Err_0 == error,
            },
    {
        match self.buffer.read_n::<4>() {
            Ok(bytes) => Ok(u32_from_le_bytes(bytes)),
            Err(error) => Err(error),
        }
    }

    /// Reads what tells the variants of a union apart: one byte.
    pub fn deserialize_identifier(&mut self) -> (r: Result<u8, UcPackError>)
        requires
            old(self).buffer().wf(),
        ensures
            final(self).buffer().wf(),
            match parse(Shape::U8, old(self).buffer().remaining()) {
                Ok((value, rest)) => r is Ok && ValueView::U8(r->Ok_0) == value
                    && final(self).buffer().remaining() == rest,
                Err(error) => r is Err && r->Err_0 == error,
            },
    {
        self.deserialize_u8()
    }

    /// Refuses a shape that the wire format does not carry, and reads nothing.
    pub fn deserialize_unsupported(&mut self, kind: Unreadable) -> (r: Result<Value, UcPackError>)
        requires
            old(self).buffer().wf(),
        ensures
            reads(
                old(self).buffer(),
                final(self).buffer(),
                parse(Shape::Unsupported(kind), old(self).buffer().remaining()),
                r,
            ),
            final(self).buffer() == old(self).buffer(),
    {
        Err(UcPackError::NoSupport(kind.name()))
    }

    /// Reads the index byte of a variant and hands it on as it is: whether
    /// the union has such a variant is for the caller to say.
    pub fn variant_seed(&mut self) -> (r: Result<u8, UcPackError>)
        requires
            old(self).buffer().wf(),
        ensures
            final(self).buffer().wf(),
            r is Ok <==> old(self).buffer().remaining().len() >= 1,
            r is Ok ==> r->Ok_0 == old(self).buffer().remaining()[0],
            r is Ok ==> final(self).buffer().remaining() == old(self).buffer().remaining().skip(1),
            r is Err ==> r->Err_0 == UcPackError::Eof,
    {
        self.buffer.read_u8()
    }

    /// Reads a value of the given shape.
    pub fn deserialize(&mut self, shape: &Shape) -> (r: Result<Value, UcPackError>)
        requires
            old(self).buffer().wf(),
        ensures
            reads(
                old(self).buffer(),
                final(self).buffer(),
                parse(*shape, old(self).buffer().remaining()),
                r,
            ),
        decreases shape, 0nat,
    {
        match shape {
            Shape::Bool => match self.deserialize_bool() {
                Ok(v) => Ok(Value::Bool(v)),
                Err(error) => Err(error),
            },
            Shape::U8 => match self.deserialize_u8() {
                Ok(v) => Ok(Value::U8(v)),
                Err(error) => Err(error),
            },
            Shape::I8 => match self.deserialize_i8() {
                Ok(v) => Ok(Value::I8(v)),
                Err(error) => Err(error),
            },
            Shape::U16 => match self.deserialize_u16() {
                Ok(v) => Ok(Value::U16(v)),
                Err(error) => Err(error),
            },
            Shape::I16 => match self.deserialize_i16() {
                Ok(v) => Ok(Value::I16(v)),
                Err(error) => Err(error),
            },
            Shape::F32 => match self.deserialize_f32() {
                Ok(bits) => Ok(Value::F32(bits)),
                Err(error) => Err(error),
            },
            Shape::Tuple(fields) => match self.deserialize_tuple(fields) {
                Ok(values) => Ok(Value::Tuple(values)),
                Err(error) => Err(error),
            },
            Shape::Struct(fields) => match self.deserialize_struct(fields) {
                Ok(values) => Ok(Value::Struct(values)),
                Err(error) => Err(error),
            },
            Shape::Newtype(inner) => match self.deserialize_newtype_struct(inner) {
                Ok(value) => Ok(Value::Newtype(Box::new(value))),
                Err(error) => Err(error),
            },
            Shape::Enum(variants) => self.deserialize_enum(variants),
            Shape::Unsupported(kind) => self.deserialize_unsupported(*kind),
        }
    }

    /// Reads the fields of a tuple, one value for each shape, in order. The
    /// elements are counted off as they are read.
    pub fn deserialize_tuple(&mut self, fields: &Vec<Shape>) -> (r: Result<Vec<Value>, UcPackError>)
        requires
            old(self).buffer().wf(),
        ensures
            reads_all(
                old(self).buffer(),
                final(self).buffer(),
                parse_all(fields@, old(self).buffer().remaining()),
                r,
            ),
        decreases fields, 2nat,
    {
        let mut values: Vec<Value> = Vec::new();
        assert(views(values@) =~= Seq::empty());
        assert(fields@.take(0) =~= Seq::empty());
        let mut access = SeriesAccess::new(self, fields.len());
        let mut i: usize = 0;
        while i < fields.len()
            invariant
                i <= fields.len(),
                access.remaining == fields.len() - i,
                access.deserializer.buffer().wf(),
                *final(access.deserializer) == after_borrow(*self),
                parse_all(fields@.take(i as int), old(self).buffer().remaining()) == Ok::<
                    (Seq<ValueView>, Seq<u8>),
                    UcPackError,
                >((views(values@), access.deserializer.buffer().remaining())),
            decreases fields.len() - i,
        {
            assert(fields@.take(i as int + 1).drop_last() =~= fields@.take(i as int));
            match access.next_element_seed(&fields[i]) {
                Ok(Some(value)) => {
                    proof {
                        assert(views(values@.push(value)) =~= views(values@).push(value@));
                    }
                    values.push(value);
                },
                Ok(None) => {
                    // An element is missing where the shape has one more:
                    // the count was made from the shapes, so it is not.
                    return Err(UcPackError::DeError);
                },
                Err(error) => {
                    proof {
                        lemma_parse_all_fails(
                            fields@,
                            i as int + 1,
                            old(self).buffer().remaining(),
                        );
                    }
                    return Err(error);
                },
            }
            i = i + 1;
        }
        assert(fields@.take(i as int) =~= fields@);
        Ok(values)
    }
}

impl<B: ReadBuffer> Deserializer<B> {
    /// Reads a tagged union: the index byte, then what the variant of that
    /// index holds. An index that `variants` does not have is `DeError`.
    pub fn deserialize_enum(&mut self, variants: &Vec<Variant>) -> (r: Result<Value, UcPackError>)
        requires
            old(self).buffer().wf(),
        ensures
            reads(
                old(self).buffer(),
                final(self).buffer(),
                parse(Shape::Enum(*variants), old(self).buffer().remaining()),
                r,
            ),
        decreases variants, 3nat,
    {
        let index = match self.variant_seed() {
            Ok(index) => index,
            Err(error) => { return Err(error); },
        };
        if index as usize >= variants.len() {
            return Err(UcPackError::DeError);
        }
        let ghost input = old(self).buffer().remaining();
        assert(parse(Shape::Enum(*variants), input) == parse_variant(
            variants@[index as int],
            index,
            input.skip(1),
        ));
        match &variants[index as usize] {
            Variant::Unit => match self.unit_variant() {
                Ok(()) => Ok(Value::UnitVariant(index as u32)),
                Err(error) => Err(error),
            },
            Variant::Newtype(inner) => match self.newtype_variant_seed(inner) {
                Ok(value) => Ok(Value::NewtypeVariant(index as u32, Box::new(value))),
                Err(error) => Err(error),
            },
            Variant::Tuple(fields) => match self.tuple_variant(fields) {
                Ok(values) => Ok(Value::TupleVariant(index as u32, values)),
                Err(error) => Err(error),
            },
            Variant::Struct(fields) => match self.struct_variant(fields) {
                Ok(values) => Ok(Value::StructVariant(index as u32, values)),
                Err(error) => Err(error),
            },
        }
    }

    /// Reads the fields of a record, in declared order, as a tuple is read.
    pub fn deserialize_struct(&mut self, fields: &Vec<Shape>) -> (r: Result<Vec<Value>, UcPackError>)
        requires
            old(self).buffer().wf(),
        ensures
            reads_all(
                old(self).buffer(),
                final(self).buffer(),
                parse_all(fields@, old(self).buffer().remaining()),
                r,
            ),
        decreases fields, 3nat,
    {
        self.deserialize_tuple(fields)
    }

    /// Reads the fields of a tuple struct, as a tuple is read.
    pub fn deserialize_tuple_struct(&mut self, fields: &Vec<Shape>) -> (r: Result<
        Vec<Value>,
        UcPackError,
    >)
        requires
            old(self).buffer().wf(),
        ensures
            reads_all(
                old(self).buffer(),
                final(self).buffer(),
                parse_all(fields@, old(self).buffer().remaining()),
                r,
            ),
        decreases fields, 3nat,
    {
        self.deserialize_tuple(fields)
    }

    /// Reads a struct around a single value: the value itself.
    pub fn deserialize_newtype_struct(&mut self, shape: &Shape) -> (r: Result<Value, UcPackError>)
        requires
            old(self).buffer().wf(),
        ensures
            reads(
                old(self).buffer(),
                final(self).buffer(),
                parse(*shape, old(self).buffer().remaining()),
                r,
            ),
        decreases shape, 1nat,
    {
        self.deserialize(shape)
    }

    /// Reads what a variant without fields holds: nothing.
    pub fn unit_variant(&mut self) -> (r: Result<(), UcPackError>)
        ensures
            r is Ok,
            final(self).buffer() == old(self).buffer(),
    {
        Ok(())
    }

    /// Reads what a variant around a single value holds: that value.
    pub fn newtype_variant_seed(&mut self, shape: &Shape) -> (r: Result<Value, UcPackError>)
        requires
            old(self).buffer().wf(),
        ensures
            reads(
                old(self).buffer(),
                final(self).buffer(),
                parse(*shape, old(self).buffer().remaining()),
                r,
            ),
        decreases shape, 1nat,
    {
        self.deserialize(shape)
    }

    /// Reads what a variant with unnamed fields holds: its fields, as a tuple.
    pub fn tuple_variant(&mut self, fields: &Vec<Shape>) -> (r: Result<Vec<Value>, UcPackError>)
        requires
            old(self).buffer().wf(),
        ensures
            reads_all(
                old(self).buffer(),
                final(self).buffer(),
                parse_all(fields@, old(self).buffer().remaining()),
                r,
            ),
        decreases fields, 3nat,
    {
        self.deserialize_tuple(fields)
    }

    /// Reads what a variant with named fields holds: its fields, as a tuple.
    pub fn struct_variant(&mut self, fields: &Vec<Shape>) -> (r: Result<Vec<Value>, UcPackError>)
        requires
            old(self).buffer().wf(),
        ensures
            reads_all(
                old(self).buffer(),
                final(self).buffer(),
                parse_all(fields@, old(self).buffer().remaining()),
                r,
            ),
        decreases fields, 3nat,
    {
        self.deserialize_tuple(fields)
    }
}

/// The reading of a fixed number of elements, one by one: a reader and the
/// number of elements that are still to come.
struct SeriesAccess<'a, B: ReadBuffer> {
    deserializer: &'a mut Deserializer<B>,
    remaining: usize,
}

impl<'a, B: ReadBuffer> SeriesAccess<'a, B> {
    /// The reading of `len` elements from `deserializer`.
    fn new(deserializer: &'a mut Deserializer<B>, len: usize) -> (access: Self)
        ensures
            access.remaining == len,
            *access.deserializer == *old(deserializer),
            *final(access.deserializer) == *final(deserializer),
    {
        Self { deserializer, remaining: len }
    }

    /// Reads the next element, of the given shape; `None`, with nothing
    /// read, once all elements have been read.
    fn next_element_seed(&mut self, shape: &Shape) -> (r: Result<Option<Value>, UcPackError>)
        requires
            old(self).deserializer.buffer().wf(),
        ensures
            final(self).deserializer.buffer().wf(),
            *final(final(self).deserializer) == *final(old(self).deserializer),
            old(self).remaining == 0 ==> r is Ok && r->Ok_0 is None && final(self).remaining == 0
                && *final(self).deserializer == *old(self).deserializer,
            old(self).remaining > 0 ==> final(self).remaining == old(self).remaining - 1,
            old(self).remaining > 0 ==> match parse(
                *shape,
                old(self).deserializer.buffer().remaining(),
            ) {
                Ok((value, rest)) => r is Ok && r->Ok_0 is Some && r->Ok_0->0@ == value && final(
                    self
                ).deserializer.buffer().remaining() == rest,
                Err(error) => r is Err && r->Err_0 == error,
            },
        decreases shape, 1nat,
    {
        if !take_element(&mut self.remaining) {
            return Ok(None);
        }
        match self.deserializer.deserialize(shape) {
            Ok(value) => Ok(Some(value)),
            Err(error) => Err(error),
        }
    }
}

} // verus!
