use crate::buffer::{behind, has_room, room_after, Appending, WriteBuffer, WritePlace};
use crate::error::UcPackError;
use crate::value::{
    byte_of_i8, index_trace, le_bytes_u16, le_bytes_u32, lemma_trace_all_prefix, trace_all, views,
    word_of_i16, Trace, Unsupported, Value, ValueView,
};
use vstd::prelude::*;

verus! {

/// The error that a writer returns for a trace when the buffer has `room`:
/// `BufferFull` where the bytes of the trace do not fit, else the error that
/// the trace stops with; `None` where the writer succeeds.
pub open spec fn failure(room: Option<nat>, trace: Trace) -> Option<UcPackError> {
    if !has_room(room, trace.bytes.len()) {
        Some(UcPackError::BufferFull)
    } else {
        trace.stop
    }
}

/// The error of a result, if it is one.
pub open spec fn error_of<T>(result: Result<T, UcPackError>) -> Option<UcPackError> {
    match result {
        Ok(_) => None,
        Err(error) => Some(error),
    }
}

/// How many bytes a bounded buffer holds in all, written or not, when
/// `written` bytes are written and `room` is left; `None` for one that grows.
pub open spec fn capacity(written: Seq<u8>, room: Option<nat>) -> Option<nat> {
    match room {
        Some(free) => Some(written.len() + free),
        None => None,
    }
}

/// Whether `bytes` begins with `front`.
pub open spec fn begins_with(bytes: Seq<u8>, front: Seq<u8>) -> bool {
    front.len() <= bytes.len() && bytes.take(front.len() as int) == front
}

/// Whether a writer that went from one place and store to another and
/// returned `result` has followed `trace`. What had been written before
/// stays in any case, and so does the capacity. Where the bytes of the trace fit they have all been
/// written, over the front of what lay beyond the place; where they do not
/// fit, nothing more is said of what was written.
pub open spec fn wrote<S: ?Sized, P: WritePlace<S>>(
    before: P,
    store_before: &S,
    after: P,
    store_after: &S,
    trace: Trace,
    result: Result<(), UcPackError>,
) -> bool {
    &&& after.wf(store_after)
    &&& error_of(result) == failure(before.room(store_before), trace)
    &&& begins_with(after.written(store_after), before.written(store_before))
    &&& capacity(after.written(store_after), after.room(store_after)) == capacity(
        before.written(store_before),
        before.room(store_before),
    )
    &&& has_room(before.room(store_before), trace.bytes.len()) ==> {
        &&& after.written(store_after) == before.written(store_before) + trace.bytes
        &&& after.room(store_after) == room_after(before.room(store_before), trace.bytes.len())
        &&& after.beyond(store_after) == behind(before.beyond(store_before), trace.bytes.len())
    }
}

/// Whether a writer that took a buffer from `before` to `after` and returned
/// `result` has followed `trace`. What had been written before stays in any
/// case, and so does the capacity. Where the bytes of the trace fit they have all been appended; where
/// they do not, nothing more is said of what was appended.
pub open spec fn follows<B: WriteBuffer>(
    before: B,
    after: B,
    trace: Trace,
    result: Result<(), UcPackError>,
) -> bool {
    &&& after.wf()
    &&& error_of(result) == failure(before.room(), trace)
    &&& begins_with(after.written(), before.written())
    &&& capacity(after.written(), after.room()) == capacity(before.written(), before.room())
    &&& has_room(before.room(), trace.bytes.len()) ==> {
        &&& after.written() == before.written() + trace.bytes
        &&& after.room() == room_after(before.room(), trace.bytes.len())
    }
}

/// A writer that has followed one trace and then, from where that left
/// place and store, a second one has followed the first followed by the
/// second. A writer that has failed on the first has followed the two as well.
pub proof fn lemma_wrote_chain<S: ?Sized, P: WritePlace<S>>(
    before: P,
    store_before: &S,
    between: P,
    store_between: &S,
    after: P,
    store_after: &S,
    first: Trace,
    second: Trace,
    r1: Result<(), UcPackError>,
    r2: Result<(), UcPackError>,
)
    requires
        wrote(before, store_before, between, store_between, first, r1),
        r1 is Ok ==> wrote(between, store_between, after, store_after, second, r2),
    ensures
        r1 is Ok ==> wrote(before, store_before, after, store_after, first.followed_by(second), r2),
        r1 is Err ==> wrote(
            before,
            store_before,
            between,
            store_between,
            first.followed_by(second),
            r1,
        ),
{
    if r1 is Ok {
        let w0 = before.written(store_before);
        let w1 = between.written(store_between);
        let w2 = after.written(store_after);
        assert(w2.take(w0.len() as int) =~= w2.take(w1.len() as int).take(w0.len() as int));
        assert(w0 + first.bytes + second.bytes =~= w0 + (first.bytes + second.bytes));
        let beyond = before.beyond(store_before);
        let n1 = first.bytes.len();
        let n2 = second.bytes.len();
        assert(behind(behind(beyond, n1), n2) =~= behind(beyond, n1 + n2));
    }
}

/// Writes the bytes of a leaf at the place.
fn write_bytes<S: ?Sized, P: WritePlace<S>>(place: &mut P, store: &mut S, bytes: &[u8]) -> (r:
    Result<(), UcPackError>)
    requires
        old(place).wf(old(store)),
    ensures
        wrote(*old(place), old(store), *final(place), final(store), Trace::done(bytes@), r),
{
    let ghost before = place.written(store);
    let r = place.put(store, bytes);
    assert((before + bytes@).take(before.len() as int) =~= before);
    assert(before.take(before.len() as int) =~= before);
    r
}

/// The two bytes of `v`, low byte first.
pub fn u16_to_le_bytes(v: u16) -> (bytes: [u8; 2])
    ensures
        bytes@ == le_bytes_u16(v),
{
    let low: u8 = (v & 0xff) as u8;
    let high: u8 = (v >> 8) as u8;
    assert((v & 0xff) as u8 == (v % 256) as u8 && (v >> 8) as u8 == (v / 256) as u8
        && v / 256 < 256) by (bit_vector);
    let bytes: [u8; 2] = [low, high];
    assert(bytes@ =~= le_bytes_u16(v));
    bytes
}

/// The four bytes of `v`, lowest byte first.
pub fn u32_to_le_bytes(v: u32) -> (bytes: [u8; 4])
    ensures
        bytes@ == le_bytes_u32(v),
{
    let b0: u8 = (v & 0xff) as u8;
    let b1: u8 = ((v >> 8) & 0xff) as u8;
    let b2: u8 = ((v >> 16) & 0xff) as u8;
    let b3: u8 = (v >> 24) as u8;
    assert((v & 0xff) as u8 == (v % 256) as u8 && ((v >> 8) & 0xff) as u8 == (v / 256 % 256) as u8
        && ((v >> 16) & 0xff) as u8 == (v / 65536 % 256) as u8 && (v >> 24) as u8 == (v
        / 16777216) as u8 && v / 16777216 < 256) by (bit_vector);
    let bytes: [u8; 4] = [b0, b1, b2, b3];
    assert(bytes@ =~= le_bytes_u32(v));
    bytes
}

/// Writes a boolean: one byte, 1 for `true` and 0 for `false`.
pub fn write_bool<S: ?Sized, P: WritePlace<S>>(place: &mut P, store: &mut S, v: bool) -> (r: Result<
    (),
    UcPackError,
>)
    requires
        old(place).wf(old(store)),
    ensures
        wrote(*old(place), old(store), *final(place), final(store), ValueView::Bool(v).trace(), r),
{
    write_u8(place, store, if v { 1 } else { 0 })
}

/// Writes an unsigned 8-bit number: the byte itself.
pub fn write_u8<S: ?Sized, P: WritePlace<S>>(place: &mut P, store: &mut S, v: u8) -> (r: Result<
    (),
    UcPackError,
>)
    requires
        old(place).wf(old(store)),
    ensures
        wrote(*old(place), old(store), *final(place), final(store), ValueView::U8(v).trace(), r),
{
    let one: [u8; 1] = [v];
    assert(one@ =~= seq![v]);
    write_bytes(place, store, one.as_slice())
}

/// Writes a signed 8-bit number: one byte, in two's complement.
pub fn write_i8<S: ?Sized, P: WritePlace<S>>(place: &mut P, store: &mut S, v: i8) -> (r: Result<
    (),
    UcPackError,
>)
    requires
        old(place).wf(old(store)),
    ensures
        wrote(*old(place), old(store), *final(place), final(store), ValueView::I8(v).trace(), r),
{
    assert(v as u8 == byte_of_i8(v)) by (bit_vector);
    write_u8(place, store, v as u8)
}

/// Writes an unsigned 16-bit number: two bytes, low byte first.
pub fn write_u16<S: ?Sized, P: WritePlace<S>>(place: &mut P, store: &mut S, v: u16) -> (r: Result<
    (),
    UcPackError,
>)
    requires
        old(place).wf(old(store)),
    ensures
        wrote(*old(place), old(store), *final(place), final(store), ValueView::U16(v).trace(), r),
{
    let bytes = u16_to_le_bytes(v);
    write_bytes(place, store, bytes.as_slice())
}

/// Writes a signed 16-bit number: two bytes in two's complement, low byte first.
pub fn write_i16<S: ?Sized, P: WritePlace<S>>(place: &mut P, store: &mut S, v: i16) -> (r: Result<
    (),
    UcPackError,
>)
    requires
        old(place).wf(old(store)),
    ensures
        wrote(*old(place), old(store), *final(place), final(store), ValueView::I16(v).trace(), r),
{
    assert(v as u16 == word_of_i16(v)) by (bit_vector);
    write_u16(place, store, v as u16)
}

/// Writes a 32-bit float, given by its IEEE-754 bits: four bytes, lowest first.
pub fn write_f32<S: ?Sized, P: WritePlace<S>>(place: &mut P, store: &mut S, bits: u32) -> (r:
    Result<(), UcPackError>)
    requires
        old(place).wf(old(store)),
    ensures
        wrote(
            *old(place),
            old(store),
            *final(place),
            final(store),
            ValueView::F32(bits).trace(),
            r,
        ),
{
    let bytes = u32_to_le_bytes(bits);
    write_bytes(place, store, bytes.as_slice())
}

/// Refuses a shape that the wire format does not carry, and writes nothing.
pub fn write_unsupported<S: ?Sized, P: WritePlace<S>>(
    place: &mut P,
    store: &mut S,
    kind: Unsupported,
) -> (r: Result<(), UcPackError>)
    requires
        old(place).wf(old(store)),
    ensures
        wrote(
            *old(place),
            old(store),
            *final(place),
            final(store),
            ValueView::Unsupported(kind).trace(),
            r,
        ),
        final(place).written(final(store)) == old(place).written(old(store)),
        final(place).room(final(store)) == old(place).room(old(store)),
        final(place).beyond(final(store)) == old(place).beyond(old(store)),
{
    proof {
        lemma_nothing_written(*place, store);
    }
    Err(UcPackError::NoSupport(kind.name()))
}

/// Writes the index of a variant: one byte, or `BadVariant` for an index
/// above 255, with nothing written.
pub fn write_variant_index<S: ?Sized, P: WritePlace<S>>(
    place: &mut P,
    store: &mut S,
    index: u32,
) -> (r: Result<(), UcPackError>)
    requires
        old(place).wf(old(store)),
    ensures
        wrote(*old(place), old(store), *final(place), final(store), index_trace(index), r),
{
    if index > 255 {
        proof {
            lemma_nothing_written(*place, store);
        }
        return Err(UcPackError::BadVariant);
    }
    write_u8(place, store, index as u8)
}

/// A place and store that stay as they are have had no bytes written.
proof fn lemma_nothing_written<S: ?Sized, P: WritePlace<S>>(place: P, store: &S)
    ensures
        place.written(store) + Seq::<u8>::empty() == place.written(store),
        begins_with(place.written(store), place.written(store)),
        behind(place.beyond(store), 0) == place.beyond(store),
{
    let written = place.written(store);
    assert(written + Seq::<u8>::empty() =~= written);
    assert(written.take(written.len() as int) =~= written);
    assert(place.beyond(store).skip(0) =~= place.beyond(store));
}

/// Writes a value: the bytes of its encoding, in order, as far as the value
/// can be written and there is room.
pub fn write_value<S: ?Sized, P: WritePlace<S>>(place: &mut P, store: &mut S, value: &Value) -> (r:
    Result<(), UcPackError>)
    requires
        old(place).wf(old(store)),
    ensures
        wrote(*old(place), old(store), *final(place), final(store), value@.trace(), r),
    decreases value, 0nat,
{
    match value {
        Value::Bool(v) => write_bool(place, store, *v),
        Value::U8(v) => write_u8(place, store, *v),
        Value::I8(v) => write_i8(place, store, *v),
        Value::U16(v) => write_u16(place, store, *v),
        Value::I16(v) => write_i16(place, store, *v),
        Value::F32(bits) => write_f32(place, store, *bits),
        Value::Tuple(items) => write_fields(place, store, items),
        Value::Struct(items) => write_fields(place, store, items),
        Value::Newtype(inner) => write_value(place, store, inner),
        Value::UnitVariant(index) => write_variant_index(place, store, *index),
        Value::NewtypeVariant(index, inner) => write_newtype_variant(place, store, *index, inner),
        Value::TupleVariant(index, items) => write_fields_variant(place, store, *index, items),
        Value::StructVariant(index, items) => write_fields_variant(place, store, *index, items),
        Value::Unsupported(kind) => write_unsupported(place, store, *kind),
    }
}

/// Writes the fields of a tuple or record in order, with nothing between or
/// around them.
pub fn write_fields<S: ?Sized, P: WritePlace<S>>(
    place: &mut P,
    store: &mut S,
    fields: &Vec<Value>,
) -> (r: Result<(), UcPackError>)
    requires
        old(place).wf(old(store)),
    ensures
        wrote(
            *old(place),
            old(store),
            *final(place),
            final(store),
            trace_all(views(fields@)),
            r,
        ),
    decreases fields, 1nat,
{
    let ghost all = views(fields@);
    let mut i: usize = 0;
    proof {
        lemma_nothing_written(*place, store);
    }
    while i < fields.len()
        invariant
            i <= fields.len(),
            all == views(fields@),
            wrote(
                *old(place),
                old(store),
                *place,
                store,
                trace_all(all.take(i as int)),
                Ok::<(), UcPackError>(()),
            ),
        decreases fields.len() - i,
    {
        let ghost place_between = *place;
        let ghost store_between = &*store;
        let r = write_value(place, store, &fields[i]);
        proof {
            assert(all.take(i as int + 1).drop_last() =~= all.take(i as int));
            assert(all.take(i as int + 1).last() == fields[i as int]@);
            lemma_wrote_chain(
                *old(place),
                old(store),
                place_between,
                store_between,
                *place,
                store,
                trace_all(all.take(i as int)),
                fields[i as int]@.trace(),
                Ok::<(), UcPackError>(()),
                r,
            );
        }
        if let Err(error) = r {
            proof {
                lemma_trace_all_prefix(all, i as int + 1);
            }
            return Err(error);
        }
        i = i + 1;
    }
    assert(all.take(i as int) =~= all);
    Ok(())
}

/// Writes a variant around a single value: its index, then the value.
pub fn write_newtype_variant<S: ?Sized, P: WritePlace<S>>(
    place: &mut P,
    store: &mut S,
    index: u32,
    value: &Value,
) -> (r: Result<(), UcPackError>)
    requires
        old(place).wf(old(store)),
    ensures
        wrote(
            *old(place),
            old(store),
            *final(place),
            final(store),
            index_trace(index).followed_by(value@.trace()),
            r,
        ),
    decreases value, 1nat,
{
    let r1 = write_variant_index(place, store, index);
    let ghost place_between = *place;
    let ghost store_between = &*store;
    if let Err(error) = r1 {
        proof {
            lemma_wrote_chain(
                *old(place),
                old(store),
                place_between,
                store_between,
                place_between,
                store_between,
                index_trace(index),
                value@.trace(),
                r1,
                r1,
            );
        }
        return Err(error);
    }
    let r2 = write_value(place, store, value);
    proof {
        lemma_wrote_chain(
            *old(place),
            old(store),
            place_between,
            store_between,
            *place,
            store,
            index_trace(index),
            value@.trace(),
            r1,
            r2,
        );
    }
    r2
}

/// Writes a variant with fields: its index, then the fields in order.
pub fn write_fields_variant<S: ?Sized, P: WritePlace<S>>(
    place: &mut P,
    store: &mut S,
    index: u32,
    fields: &Vec<Value>,
) -> (r: Result<(), UcPackError>)
    requires
        old(place).wf(old(store)),
    ensures
        wrote(
            *old(place),
            old(store),
            *final(place),
            final(store),
            index_trace(index).followed_by(trace_all(views(fields@))),
            r,
        ),
    decreases fields, 2nat,
{
    let r1 = write_variant_index(place, store, index);
    let ghost place_between = *place;
    let ghost store_between = &*store;
    if let Err(error) = r1 {
        proof {
            lemma_wrote_chain(
                *old(place),
                old(store),
                place_between,
                store_between,
                place_between,
                store_between,
                index_trace(index),
                trace_all(views(fields@)),
                r1,
                r1,
            );
        }
        return Err(error);
    }
    let r2 = write_fields(place, store, fields);
    proof {
        lemma_wrote_chain(
            *old(place),
            old(store),
            place_between,
            store_between,
            *place,
            store,
            index_trace(index),
            trace_all(views(fields@)),
            r1,
            r2,
        );
    }
    r2
}

/// A writer of values into a [`WriteBuffer`], by the rules of the wire format.
pub struct Serializer<B: WriteBuffer> {
    buffer: B,
}

impl<B: WriteBuffer> Serializer<B> {
    /// The buffer that the writer writes to.
    pub closed spec fn buffer(&self) -> B {
        self.buffer
    }

    /// A writer into `buffer`.
    pub fn new(buffer: B) -> (serializer: Serializer<B>)
        ensures
            serializer.buffer() == buffer,
    {
        Self { buffer }
    }

    /// Gives the buffer back, with what has been written to it.
    pub fn into_inner(self) -> (buffer: B)
        ensures
            buffer == self.buffer(),
    {
        self.buffer
    }

    /// Writes a boolean: one byte, 1 for `true` and 0 for `false`.
    pub fn serialize_bool(&mut self, v: bool) -> (r: Result<(), UcPackError>)
        requires
            old(self).buffer().wf(),
        ensures
            follows(old(self).buffer(), final(self).buffer(), ValueView::Bool(v).trace(), r),
    {
        write_bool(&mut Appending, &mut self.buffer, v)
    }

    /// Writes an unsigned 8-bit number: the byte itself.
    pub fn serialize_u8(&mut self, v: u8) -> (r: Result<(), UcPackError>)
        requires
            old(self).buffer().wf(),
        ensures
            follows(old(self).buffer(), final(self).buffer(), ValueView::U8(v).trace(), r),
    {
        write_u8(&mut Appending, &mut self.buffer, v)
    }

    /// Writes a signed 8-bit number: one byte, in two's complement.
    pub fn serialize_i8(&mut self, v: i8) -> (r: Result<(), UcPackError>)
        requires
            old(self).buffer().wf(),
        ensures
            follows(old(self).buffer(), final(self).buffer(), ValueView::I8(v).trace(), r),
    {
        write_i8(&mut Appending, &mut self.buffer, v)
    }

    /// Writes an unsigned 16-bit number: two bytes, low byte first.
    pub fn serialize_u16(&mut self, v: u16) -> (r: Result<(), UcPackError>)
        requires
            old(self).buffer().wf(),
        ensures
            follows(old(self).buffer(), final(self).buffer(), ValueView::U16(v).trace(), r),
    {
        write_u16(&mut Appending, &mut self.buffer, v)
    }

    /// Writes a signed 16-bit number: two bytes in two's complement, low byte first.
    pub fn serialize_i16(&mut self, v: i16) -> (r: Result<(), UcPackError>)
        requires
            old(self).buffer().wf(),
        ensures
            follows(old(self).buffer(), final(self).buffer(), ValueView::I16(v).trace(), r),
    {
        write_i16(&mut Appending, &mut self.buffer, v)
    }

    /// Writes a 32-bit float, given by its IEEE-754 bits: four bytes, lowest first.
    pub fn serialize_f32(&mut self, bits: u32) -> (r: Result<(), UcPackError>)
        requires
            old(self).buffer().wf(),
        ensures
            follows(old(self).buffer(), final(self).buffer(), ValueView::F32(bits).trace(), r),
    {
        write_f32(&mut Appending, &mut self.buffer, bits)
    }

    /// Refuses a shape that the wire format does not carry, and writes nothing.
    pub fn serialize_unsupported(&mut self, kind: Unsupported) -> (r: Result<(), UcPackError>)
        requires
            old(self).buffer().wf(),
        ensures
            follows(old(self).buffer(), final(self).buffer(), ValueView::Unsupported(kind).trace(), r),
            final(self).buffer().written() == old(self).buffer().written(),
            final(self).buffer().room() == old(self).buffer().room(),
    {
        write_unsupported(&mut Appending, &mut self.buffer, kind)
    }

    /// Writes the index of a variant: one byte, or `BadVariant` for an index
    /// above 255, with nothing written.
    pub fn serialize_variant_index(&mut self, index: u32) -> (r: Result<(), UcPackError>)
        requires
            old(self).buffer().wf(),
        ensures
            follows(old(self).buffer(), final(self).buffer(), index_trace(index), r),
    {
        write_variant_index(&mut Appending, &mut self.buffer, index)
    }

    /// Writes a value: the bytes of its encoding, in order, as far as the
    /// value can be written and the buffer has room.
    pub fn serialize_value(&mut self, value: &Value) -> (r: Result<(), UcPackError>)
        requires
            old(self).buffer().wf(),
        ensures
            follows(old(self).buffer(), final(self).buffer(), value@.trace(), r),
    {
        write_value(&mut Appending, &mut self.buffer, value)
    }

    /// Writes the fields of a tuple in order, with nothing between or around them.
    pub fn serialize_tuple(&mut self, fields: &Vec<Value>) -> (r: Result<(), UcPackError>)
        requires
            old(self).buffer().wf(),
        ensures
            follows(old(self).buffer(), final(self).buffer(), trace_all(views(fields@)), r),
    {
        write_fields(&mut Appending, &mut self.buffer, fields)
    }

    /// Writes the fields of a record in declared order, as a tuple is written.
    pub fn serialize_struct(&mut self, fields: &Vec<Value>) -> (r: Result<(), UcPackError>)
        requires
            old(self).buffer().wf(),
        ensures
            follows(old(self).buffer(), final(self).buffer(), trace_all(views(fields@)), r),
    {
        self.serialize_tuple(fields)
    }

    /// Writes the fields of a tuple struct in order, as a tuple is written.
    pub fn serialize_tuple_struct(&mut self, fields: &Vec<Value>) -> (r: Result<(), UcPackError>)
        requires
            old(self).buffer().wf(),
        ensures
            follows(old(self).buffer(), final(self).buffer(), trace_all(views(fields@)), r),
    {
        self.serialize_tuple(fields)
    }

    /// Writes a struct around a single value: the value itself.
    pub fn serialize_newtype_struct(&mut self, value: &Value) -> (r: Result<(), UcPackError>)
        requires
            old(self).buffer().wf(),
        ensures
            follows(old(self).buffer(), final(self).buffer(), value@.trace(), r),
    {
        self.serialize_value(value)
    }

    /// Writes a variant without fields: its index.
    pub fn serialize_unit_variant(&mut self, index: u32) -> (r: Result<(), UcPackError>)
        requires
            old(self).buffer().wf(),
        ensures
            follows(old(self).buffer(), final(self).buffer(), index_trace(index), r),
    {
        self.serialize_variant_index(index)
    }

    /// Writes a variant around a single value: its index, then the value.
    pub fn serialize_newtype_variant(&mut self, index: u32, value: &Value) -> (r: Result<
        (),
        UcPackError,
    >)
        requires
            old(self).buffer().wf(),
        ensures
            follows(
                old(self).buffer(),
                final(self).buffer(),
                index_trace(index).followed_by(value@.trace()),
                r,
            ),
    {
        write_newtype_variant(&mut Appending, &mut self.buffer, index, value)
    }

    /// Writes a variant with unnamed fields: its index, then the fields in order.
    pub fn serialize_tuple_variant(&mut self, index: u32, fields: &Vec<Value>) -> (r: Result<
        (),
        UcPackError,
    >)
        requires
            old(self).buffer().wf(),
        ensures
            follows(
                old(self).buffer(),
                final(self).buffer(),
                index_trace(index).followed_by(trace_all(views(fields@))),
                r,
            ),
    {
        write_fields_variant(&mut Appending, &mut self.buffer, index, fields)
    }

    /// Writes a variant with named fields, as one with unnamed fields is written.
    pub fn serialize_struct_variant(&mut self, index: u32, fields: &Vec<Value>) -> (r: Result<
        (),
        UcPackError,
    >)
        requires
            old(self).buffer().wf(),
        ensures
            follows(
                old(self).buffer(),
                final(self).buffer(),
                index_trace(index).followed_by(trace_all(views(fields@))),
                r,
            ),
    {
        self.serialize_tuple_variant(index, fields)
    }
}

} // verus!
