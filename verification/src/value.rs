use crate::error::UcPackError;
use vstd::prelude::*;

verus! {

/// A shape that the wire format does not carry, as a writer meets it.
#[derive(Debug, Clone, Copy, PartialEq, Eq)]
pub enum Unsupported {
    U32,
    I32,
    U64,
    I64,
    U128,
    I128,
    F64,
    Char,
    Str,
    Bytes,
    /// An optional value that is absent.
    Absent,
    /// An optional value that is present.
    Present,
    Unit,
    UnitStruct,
    /// Text that is written from its display form.
    Text,
    /// A sequence whose length is not part of its type.
    Sequence,
    Mapping,
}

impl Unsupported {
    /// The name under which the writer refuses the shape.
    pub open spec fn spec_name(self) -> &'static str {
        match self {
            Unsupported::U32 => "u32",
            Unsupported::I32 => "i32",
            Unsupported::U64 => "u64",
            Unsupported::I64 => "i64",
            Unsupported::U128 => "u128",
            Unsupported::I128 => "i128",
            Unsupported::F64 => "f64",
            Unsupported::Char => "char",
            Unsupported::Str => "&str",
            Unsupported::Bytes => "&[u8]",
            Unsupported::Absent => "",
            Unsupported::Present => "Some",
            Unsupported::Unit => "",
            Unsupported::UnitStruct => "&str",
            Unsupported::Text => "string",
            Unsupported::Sequence => "sequence",
            Unsupported::Mapping => "map",
        }
    }

    /// The name under which the writer refuses the shape.
    #[verifier::when_used_as_spec(spec_name)]
    pub fn name(self) -> (name: &'static str)
        ensures
            name == self.spec_name(),
    {
        match self {
            Unsupported::U32 => "u32",
            Unsupported::I32 => "i32",
            Unsupported::U64 => "u64",
            Unsupported::I64 => "i64",
            Unsupported::U128 => "u128",
            Unsupported::I128 => "i128",
            Unsupported::F64 => "f64",
            Unsupported::Char => "char",
            Unsupported::Str => "&str",
            Unsupported::Bytes => "&[u8]",
            Unsupported::Absent => "",
            Unsupported::Present => "Some",
            Unsupported::Unit => "",
            Unsupported::UnitStruct => "&str",
            Unsupported::Text => "string",
            Unsupported::Sequence => "sequence",
            Unsupported::Mapping => "map",
        }
    }
}

/// A structured value, as far as the codec tells values apart.
///
/// Field and type names are not part of a value: the wire format has none.
/// A 32-bit float is held as its IEEE-754 bit pattern.
#[derive(Debug, PartialEq, Eq)]
pub enum Value {
    Bool(bool),
    U8(u8),
    I8(i8),
    U16(u16),
    I16(i16),
    /// A 32-bit float, by its bits.
    F32(u32),
    /// A tuple or tuple struct: its fields in order.
    Tuple(Vec<Value>),
    /// A record: its fields in declared order.
    Struct(Vec<Value>),
    /// A struct around a single value.
    Newtype(Box<Value>),
    /// A variant without fields, by its index.
    UnitVariant(u32),
    /// A variant around a single value.
    NewtypeVariant(u32, Box<Value>),
    /// A variant with unnamed fields.
    TupleVariant(u32, Vec<Value>),
    /// A variant with named fields, in declared order.
    StructVariant(u32, Vec<Value>),
    /// A value of a shape that the wire format does not carry.
    Unsupported(Unsupported),
}

/// What a `Value` is: the same tree over sequences.
pub enum ValueView {
    Bool(bool),
    U8(u8),
    I8(i8),
    U16(u16),
    I16(i16),
    F32(u32),
    Tuple(Seq<ValueView>),
    Struct(Seq<ValueView>),
    Newtype(Box<ValueView>),
    UnitVariant(u32),
    NewtypeVariant(u32, Box<ValueView>),
    TupleVariant(u32, Seq<ValueView>),
    StructVariant(u32, Seq<ValueView>),
    Unsupported(Unsupported),
}

/// What a value is, as a tree over sequences.
pub open spec fn value_view(value: Value) -> ValueView
    decreases value,
{
    match value {
        Value::Bool(v) => ValueView::Bool(v),
        Value::U8(v) => ValueView::U8(v),
        Value::I8(v) => ValueView::I8(v),
        Value::U16(v) => ValueView::U16(v),
        Value::I16(v) => ValueView::I16(v),
        Value::F32(bits) => ValueView::F32(bits),
        Value::Tuple(items) => ValueView::Tuple(views(items@)),
        Value::Struct(items) => ValueView::Struct(views(items@)),
        Value::Newtype(inner) => ValueView::Newtype(Box::new(value_view(*inner))),
        Value::UnitVariant(index) => ValueView::UnitVariant(index),
        Value::NewtypeVariant(index, inner) => ValueView::NewtypeVariant(
            index,
            Box::new(value_view(*inner)),
        ),
        Value::TupleVariant(index, items) => ValueView::TupleVariant(index, views(items@)),
        Value::StructVariant(index, items) => ValueView::StructVariant(index, views(items@)),
        Value::Unsupported(kind) => ValueView::Unsupported(kind),
    }
}

/// What a sequence of values is, item by item.
pub open spec fn views(items: Seq<Value>) -> Seq<ValueView>
    decreases items,
{
    Seq::new(
        items.len(),
        |i: int|
            if 0 <= i < items.len() {
                value_view(items[i])
            } else {
                ValueView::Bool(false)
            },
    )
}

impl View for Value {
    type V = ValueView;

    open spec fn view(&self) -> ValueView {
        value_view(*self)
    }
}

impl Value {
    /// A copy of the value.
    fn duplicate(&self) -> (copy: Value)
        ensures
            copy@ == self@,
        decreases self,
    {
        match self {
            Value::Bool(v) => Value::Bool(*v),
            Value::U8(v) => Value::U8(*v),
            Value::I8(v) => Value::I8(*v),
            Value::U16(v) => Value::U16(*v),
            Value::I16(v) => Value::I16(*v),
            Value::F32(bits) => Value::F32(*bits),
            Value::Tuple(items) => Value::Tuple(duplicate_all(items)),
            Value::Struct(items) => Value::Struct(duplicate_all(items)),
            Value::Newtype(inner) => Value::Newtype(Box::new(inner.duplicate())),
            Value::UnitVariant(index) => Value::UnitVariant(*index),
            Value::NewtypeVariant(index, inner) => Value::NewtypeVariant(
                *index,
                Box::new(inner.duplicate()),
            ),
            Value::TupleVariant(index, items) => Value::TupleVariant(*index, duplicate_all(items)),
            Value::StructVariant(index, items) => Value::StructVariant(
                *index,
                duplicate_all(items),
            ),
            Value::Unsupported(kind) => Value::Unsupported(*kind),
        }
    }
}

/// Copies of the values, in order.
fn duplicate_all(items: &Vec<Value>) -> (copies: Vec<Value>)
    ensures
        views(copies@) == views(items@),
    decreases items,
{
    let mut copies: Vec<Value> = Vec::new();
    let mut i: usize = 0;
    while i < items.len()
        invariant
            i <= items.len(),
            views(copies@) =~= views(items@.take(i as int)),
        decreases items.len() - i,
    {
        let copy = items[i].duplicate();
        proof {
            assert(items@.take(i as int + 1) =~= items@.take(i as int).push(items@[i as int]));
            assert(views(copies@.push(copy)) =~= views(copies@).push(copy@));
            assert(views(items@.take(i as int).push(items@[i as int])) =~= views(
                items@.take(i as int),
            ).push(items@[i as int]@));
        }
        copies.push(copy);
        i = i + 1;
    }
    assert(items@.take(i as int) =~= items@);
    copies
}

impl Clone for Value {
    fn clone(&self) -> (copy: Self)
        ensures
            copy@ == self@,
    {
        self.duplicate()
    }
}

/// The byte that holds a signed 8-bit number: its two's complement.
pub open spec fn byte_of_i8(v: i8) -> u8 {
    if v < 0 {
        (v + 256) as u8
    } else {
        v as u8
    }
}

/// The unsigned number that holds a signed 16-bit number: its two's complement.
pub open spec fn word_of_i16(v: i16) -> u16 {
    if v < 0 {
        (v + 65536) as u16
    } else {
        v as u16
    }
}

/// The two bytes of a 16-bit number, low byte first.
pub open spec fn le_bytes_u16(v: u16) -> Seq<u8> {
    seq![(v % 256) as u8, (v / 256) as u8]
}

/// The four bytes of a 32-bit number, lowest byte first.
pub open spec fn le_bytes_u32(v: u32) -> Seq<u8> {
    seq![
        (v % 256) as u8,
        (v / 256 % 256) as u8,
        (v / 65536 % 256) as u8,
        (v / 16777216) as u8,
    ]
}

/// What a writer does with a value: the bytes it writes, and the error it
/// stops with where it stops early. Nothing is written for the shape it
/// stops at; what was written before stays.
pub struct Trace {
    pub bytes: Seq<u8>,
    pub stop: Option<UcPackError>,
}

impl Trace {
    /// A trace that writes `bytes` and does not stop.
    pub open spec fn done(bytes: Seq<u8>) -> Trace {
        Trace { bytes, stop: None }
    }

    /// A trace that writes nothing and stops with `error`.
    pub open spec fn refused(error: UcPackError) -> Trace {
        Trace { bytes: Seq::empty(), stop: Some(error) }
    }

    /// This trace followed by `next`, unless this one stops.
    pub open spec fn followed_by(self, next: Trace) -> Trace {
        if self.stop is Some {
            self
        } else {
            Trace { bytes: self.bytes + next.bytes, stop: next.stop }
        }
    }
}

/// The trace of a variant index: one byte, or `BadVariant` above 255.
pub open spec fn index_trace(index: u32) -> Trace {
    if index > 255 {
        Trace::refused(UcPackError::BadVariant)
    } else {
        Trace::done(seq![index as u8])
    }
}

impl ValueView {
    /// The trace of writing this value.
    pub open spec fn trace(self) -> Trace
        decreases self,
    {
        match self {
            ValueView::Bool(v) => Trace::done(
                seq![if v {
                    1u8
                } else {
                    0u8
                }],
            ),
            ValueView::U8(v) => Trace::done(seq![v]),
            ValueView::I8(v) => Trace::done(seq![byte_of_i8(v)]),
            ValueView::U16(v) => Trace::done(le_bytes_u16(v)),
            ValueView::I16(v) => Trace::done(le_bytes_u16(word_of_i16(v))),
            ValueView::F32(bits) => Trace::done(le_bytes_u32(bits)),
            ValueView::Tuple(items) => trace_all(items),
            ValueView::Struct(items) => trace_all(items),
            ValueView::Newtype(inner) => inner.trace(),
            ValueView::UnitVariant(index) => index_trace(index),
            ValueView::NewtypeVariant(index, inner) => index_trace(index).followed_by(inner.trace()),
            ValueView::TupleVariant(index, items) => index_trace(index).followed_by(trace_all(items)),
            ValueView::StructVariant(index, items) => index_trace(index).followed_by(trace_all(items)),
            ValueView::Unsupported(kind) => Trace::refused(UcPackError::NoSupport(kind.spec_name())),
        }
    }

    /// The bytes that stand for this value on the wire, where it can be written.
    pub open spec fn encoding(self) -> Seq<u8> {
        self.trace().bytes
    }

    /// Whether every shape in this value is one that the wire format carries.
    pub open spec fn encodable(self) -> bool {
        self.trace().stop is None
    }
}

/// The trace of writing the values of `items` one after the other.
pub open spec fn trace_all(items: Seq<ValueView>) -> Trace
    decreases items,
{
    if items.len() == 0 {
        Trace::done(Seq::empty())
    } else {
        trace_all(items.drop_last()).followed_by(items.last().trace())
    }
}

/// The trace of the first `count` items begins the trace of all of them, and
/// is the trace of all of them where it stops.
pub proof fn lemma_trace_all_prefix(items: Seq<ValueView>, count: int)
    requires
        0 <= count <= items.len(),
    ensures
        trace_all(items.take(count)).stop is Some ==> trace_all(items) == trace_all(
            items.take(count),
        ),
        trace_all(items.take(count)).bytes.len() <= trace_all(items).bytes.len(),
    decreases items.len() - count,
{
    if count < items.len() {
        assert(items.take(count + 1).drop_last() =~= items.take(count));
        lemma_trace_all_prefix(items, count + 1);
    } else {
        assert(items.take(count) =~= items);
    }
}

} // verus!
