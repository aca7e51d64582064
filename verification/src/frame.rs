use crate::buffer::{
    behind, has_room, room_after, Appending, Offset, ReadBuffer, SliceCursor, WriteBuffer, WritePlace,
};
use crate::crc::{crc8_of, crc8_slice};
use crate::de::Deserializer;
use crate::error::UcPackError;
use crate::ser::{error_of, write_value, Serializer};
use crate::shape::{parse, Shape};
use crate::value::{Trace, Value, ValueView};
use vstd::prelude::*;
use vstd::slice::slice_subrange;

verus! {

/// The longest payload that a frame can hold: what its length byte can say.
pub const MAX_PAYLOAD: usize = 255;

/// The bytes of a frame around its payload: the markers, the length byte and the checksum.
pub const OVERHEAD: usize = 4;

/// The frame around `payload`: start marker, length byte, payload, end
/// marker, and the CRC8 of the payload. It is a frame of the format for a
/// payload of at most 255 bytes, which is what the length byte can say.
pub open spec fn frame_of(start: u8, end: u8, payload: Seq<u8>) -> Seq<u8> {
    seq![start, payload.len() as u8] + payload + seq![end, crc8_of(payload)]
}

/// The parts of a frame: it is four bytes longer than its payload, its
/// second byte is the payload's length, and the markers, the payload and the
/// checksum stand where the format puts them.
pub proof fn lemma_frame_parts(start: u8, end: u8, payload: Seq<u8>)
    requires
        payload.len() <= MAX_PAYLOAD,
    ensures
        frame_of(start, end, payload).len() == payload.len() + OVERHEAD,
        frame_of(start, end, payload)[0] == start,
        frame_of(start, end, payload)[1] == payload.len(),
        payload_of(frame_of(start, end, payload)) == payload,
        frame_of(start, end, payload)[payload.len() as int + 2] == end,
        frame_of(start, end, payload)[payload.len() as int + 3] == crc8_of(payload),
{
    assert(payload_of(frame_of(start, end, payload)) =~= payload);
}

/// The frame that `bytes` begins with, where they hold all of one: the first
/// `length + 4` bytes, `length` being the second byte. `None` where the
/// length byte or a later byte of the frame has not come yet.
pub open spec fn complete_frame(bytes: Seq<u8>) -> Option<Seq<u8>> {
    if bytes.len() >= 2 && bytes.len() >= bytes[1] + OVERHEAD {
        Some(bytes.take(bytes[1] + OVERHEAD))
    } else {
        None
    }
}

/// The payload of a frame: what stands between the length byte and the end marker.
pub open spec fn payload_of(frame: Seq<u8>) -> Seq<u8> {
    frame.subrange(2, frame.len() - 2)
}

/// What checking the frame at the front of `bytes` gives: its payload, or
/// `Eof` where the frame is not complete, `WrongIndex` where `strict` is on
/// and a marker is not the one given, `WrongCrc` where the last byte is not
/// the CRC8 of the payload. The markers are checked before the checksum.
pub open spec fn unframed(start: u8, end: u8, strict: bool, bytes: Seq<u8>) -> Result<
    Seq<u8>,
    UcPackError,
> {
    match complete_frame(bytes) {
        None => Err(UcPackError::Eof),
        Some(frame) => if strict && (frame[0] != start || frame[frame.len() - 2] != end) {
            Err(UcPackError::WrongIndex)
        } else if crc8_of(payload_of(frame)) != frame[frame.len() - 1] {
            Err(UcPackError::WrongCrc)
        } else {
            Ok(payload_of(frame))
        },
    }
}

/// What decoding a value of `shape` from the frame at the front of `bytes`
/// gives: the error of the frame check, else what the reader makes of the
/// payload. Payload bytes behind the value are not looked at.
pub open spec fn decoded(start: u8, end: u8, strict: bool, shape: Shape, bytes: Seq<u8>) -> Result<
    ValueView,
    UcPackError,
> {
    match unframed(start, end, strict, bytes) {
        Err(error) => Err(error),
        Ok(payload) => match parse(shape, payload) {
            Ok((value, rest)) => Ok(value),
            Err(error) => Err(error),
        },
    }
}

/// Looks for a whole frame at the front of what has been received so far.
///
/// `buffer` is the part of the receive buffer that holds received bytes.
/// Returns the frame, or `None` while more bytes have to come. It reads
/// only, so it can be asked again after every byte.
pub fn is_complete_message(buffer: &[u8]) -> (message: Option<&[u8]>)
    ensures
        message is Some <==> complete_frame(buffer@) is Some,
        message is Some ==> message->0@ == complete_frame(buffer@)->0,
{
    if buffer.len() < 2 {
        return None;
    }
    let length: usize = buffer[1] as usize;
    if buffer.len() < length + OVERHEAD {
        return None;
    }
    Some(slice_subrange(buffer, 0, length + OVERHEAD))
}

/// The error that writing a value into a growing buffer ends with: the error
/// that its trace stops with, else `TooLong` for a payload above 255 bytes;
/// `None` where a frame comes out.
pub open spec fn vec_failure(trace: Trace) -> Option<UcPackError> {
    if trace.stop is Some {
        trace.stop
    } else if trace.bytes.len() > MAX_PAYLOAD {
        Some(UcPackError::TooLong)
    } else {
        None
    }
}

/// The error that writing a value into a buffer of `capacity` bytes ends
/// with: `BufferFull` where the frame's first two bytes and the payload do
/// not fit, else the error that the trace stops with, else `TooLong` for a
/// payload above 255 bytes, else `BufferFull` where the end marker and
/// checksum do not fit; `None` where a frame comes out.
pub open spec fn slice_failure(capacity: nat, trace: Trace) -> Option<UcPackError> {
    if capacity < 2 + trace.bytes.len() {
        Some(UcPackError::BufferFull)
    } else if trace.stop is Some {
        trace.stop
    } else if trace.bytes.len() > MAX_PAYLOAD {
        Some(UcPackError::TooLong)
    } else if capacity < trace.bytes.len() + OVERHEAD {
        Some(UcPackError::BufferFull)
    } else {
        None
    }
}

/// The error that finishing a frame ends with, in a buffer of `capacity`
/// bytes whose first `data_end` hold the frame's first two bytes and its
/// payload: `TooLong` for a payload above 255 bytes, else `BufferFull` where
/// the end marker and checksum do not fit; `None` where a frame comes out.
pub open spec fn finish_failure(capacity: nat, data_end: nat) -> Option<UcPackError> {
    if data_end - 2 > MAX_PAYLOAD {
        Some(UcPackError::TooLong)
    } else if capacity < data_end + 2 {
        Some(UcPackError::BufferFull)
    } else {
        None
    }
}

/// A codec: the two markers that its frames begin and end with.
#[derive(Debug, Clone, Copy, PartialEq, Eq)]
pub struct UcPack {
    start_index: u8,
    end_index: u8,
}

impl Default for UcPack {
    /// The codec with the markers `'A'` and `'#'`.
    fn default() -> (codec: Self)
        ensures
            codec.start_marker() == 0x41,
            codec.end_marker() == 0x23,
    {
        Self::new(0x41, 0x23)
    }
}

impl UcPack {
    /// The byte that the codec's frames begin with.
    pub closed spec fn start_marker(&self) -> u8 {
        self.start_index
    }

    /// The byte that stands behind the payload in the codec's frames.
    pub closed spec fn end_marker(&self) -> u8 {
        self.end_index
    }

    /// The frame that this codec puts around `payload`.
    pub open spec fn frame(&self, payload: Seq<u8>) -> Seq<u8> {
        frame_of(self.start_marker(), self.end_marker(), payload)
    }

    /// A codec with the given markers.
    pub fn new(start_index: u8, end_index: u8) -> (codec: Self)
        ensures
            codec.start_marker() == start_index,
            codec.end_marker() == end_index,
    {
        Self { start_index, end_index }
    }

    /// Begins a frame at a place: writes the start marker and a length byte
    /// of zero, which is set when the frame is finished. Fails with
    /// `BufferFull`, and writes nothing, where the two bytes do not fit.
    pub fn begin_frame_at<S: ?Sized, P: WritePlace<S>>(&self, place: &mut P, store: &mut S) -> (r:
        Result<(), UcPackError>)
        requires
            old(place).wf(old(store)),
        ensures
            final(place).wf(final(store)),
            r is Ok <==> has_room(old(place).room(old(store)), 2),
            r is Ok ==> final(place).written(final(store)) == old(place).written(old(store))
                + seq![self.start_marker(), 0u8],
            r is Ok ==> final(place).room(final(store)) == room_after(
                old(place).room(old(store)),
                2,
            ),
            r is Ok ==> final(place).beyond(final(store)) == behind(
                old(place).beyond(old(store)),
                2,
            ),
            r is Err ==> r->Err_0 == UcPackError::BufferFull,
            r is Err ==> final(place).written(final(store)) == old(place).written(old(store)),
            r is Err ==> final(place).room(final(store)) == old(place).room(old(store)),
            r is Err ==> final(place).beyond(final(store)) == old(place).beyond(old(store)),
    {
        let head: [u8; 2] = [self.start_index, 0];
        assert(head@ =~= seq![self.start_index, 0u8]);
        place.put(store, head.as_slice())
    }

    /// Begins a frame at the end of `buffer`: appends the start marker and a
    /// length byte of zero, which is set when the frame is finished. Fails
    /// with `BufferFull`, and appends nothing, where the two bytes do not fit.
    pub fn begin_frame<B: WriteBuffer>(&self, buffer: &mut B) -> (r: Result<(), UcPackError>)
        requires
            (*old(buffer)).wf(),
        ensures
            (*final(buffer)).wf(),
            r is Ok <==> has_room((*old(buffer)).room(), 2),
            r is Ok ==> (*final(buffer)).written() == (*old(buffer)).written() + seq![
                self.start_marker(),
                0u8,
            ],
            r is Ok ==> (*final(buffer)).room() == room_after((*old(buffer)).room(), 2),
            r is Err ==> r->Err_0 == UcPackError::BufferFull,
            r is Err ==> (*final(buffer)).written() == (*old(buffer)).written(),
            r is Err ==> (*final(buffer)).room() == (*old(buffer)).room(),
    {
        self.begin_frame_at(&mut Appending, buffer)
    }

    /// Finishes the frame that `buffer` holds so far, its first two bytes and
    /// its payload: sets the length byte and appends the end marker and the
    /// CRC8 of the payload. Fails with `TooLong` for a payload above 255 bytes.
    pub fn finish_vec(&self, buffer: Vec<u8>) -> (r: Result<Vec<u8>, UcPackError>)
        requires
            buffer@.len() >= 2,
        ensures
            r is Ok <==> buffer@.len() - 2 <= MAX_PAYLOAD,
            r is Ok ==> r->Ok_0@ == frame_of(buffer@[0], self.end_marker(), buffer@.skip(2)),
            r is Err ==> r->Err_0 == UcPackError::TooLong,
    {
        let mut buffer = buffer;
        let ghost begun = buffer@;
        let data_end = buffer.len();
        if data_end - 2 > MAX_PAYLOAD {
            return Err(UcPackError::TooLong);
        }
        let crc = crc8_slice(slice_subrange(buffer.as_slice(), 2, data_end));
        assert(begun.subrange(2, data_end as int) =~= begun.skip(2));
        buffer[1] = (data_end - 2) as u8;
        buffer.push(self.end_index);
        buffer.push(crc);
        assert(buffer@ =~= frame_of(begun[0], self.end_index, begun.skip(2)));
        Ok(buffer)
    }

    /// Finishes, in place, the frame whose first two bytes and payload are
    /// the first `data_end` bytes of `buffer`: tests the length of the
    /// payload, writes the end marker and the CRC8 of the payload behind it,
    /// and sets the length byte. Returns the length of the frame.
    ///
    /// Fails with `TooLong` for a payload above 255 bytes, else with
    /// `BufferFull` where the two bytes do not fit; `buffer` then stays as it
    /// was. Bytes behind the frame are not touched.
    pub fn finish_slice(&self, buffer: &mut [u8], data_end: usize) -> (r: Result<usize, UcPackError>)
        requires
            2 <= data_end <= old(buffer)@.len(),
        ensures
            error_of(r) == finish_failure(old(buffer)@.len(), data_end as nat),
            r is Err ==> final(buffer)@ == old(buffer)@,
            r is Ok ==> r->Ok_0 == data_end + 2,
            r is Ok ==> final(buffer)@ == frame_of(
                old(buffer)@[0],
                self.end_marker(),
                old(buffer)@.subrange(2, data_end as int),
            ) + old(buffer)@.skip(data_end + 2),
    {
        if data_end - 2 > MAX_PAYLOAD {
            return Err(UcPackError::TooLong);
        }
        let crc = crc8_slice(slice_subrange(buffer, 2, data_end));
        let tail: [u8; 2] = [self.end_index, crc];
        assert(tail@ =~= seq![self.end_index, crc]);
        let mut place = Offset { index: data_end };
        if let Err(error) = place.put(buffer, tail.as_slice()) {
            return Err(error);
        }
        buffer[1] = (data_end - 2) as u8;
        assert(buffer@ =~= frame_of(
            old(buffer)@[0],
            self.end_index,
            old(buffer)@.subrange(2, data_end as int),
        ) + old(buffer)@.skip(data_end + 2));
        Ok(place.index)
    }

    /// Encodes `payload` and frames it, in a buffer of its own.
    pub fn serialize_vec(&self, payload: &Value) -> (r: Result<Vec<u8>, UcPackError>)
        ensures
            error_of(r) == vec_failure(payload@.trace()),
            r is Ok ==> r->Ok_0@ == self.frame(payload@.encoding()),
            r is Ok ==> r->Ok_0@.len() == r->Ok_0@[1] + OVERHEAD,
    {
        proof {
            if payload@.encoding().len() <= MAX_PAYLOAD {
                lemma_frame_parts(self.start_index, self.end_index, payload@.encoding());
            }
        }
        let mut buffer: Vec<u8> = Vec::new();
        let begun = self.begin_frame(&mut buffer);
        assert(begun is Ok);
        let mut serializer = Serializer::new(buffer);
        let written = serializer.serialize_value(payload);
        let buffer = serializer.into_inner();
        if let Err(error) = written {
            return Err(error);
        }
        assert(buffer@ =~= seq![self.start_index, 0u8] + payload@.encoding());
        assert(buffer@.skip(2) =~= payload@.encoding());
        self.finish_vec(buffer)
    }

    /// Encodes `payload` and frames it at the front of `buffer`, without
    /// allocating. Returns the length of the frame.
    ///
    /// On success `buffer` begins with the frame and is as before behind it.
    /// After a failure a buffer of two bytes or more begins with the start
    /// marker and a length byte of zero: the length is set last. Where all
    /// that the value's trace writes had room, these bytes follow, and the
    /// rest is as before.
    pub fn serialize_slice(&self, payload: &Value, buffer: &mut [u8]) -> (r: Result<
        usize,
        UcPackError,
    >)
        ensures
            error_of(r) == slice_failure(old(buffer)@.len(), payload@.trace()),
            final(buffer)@.len() == old(buffer)@.len(),
            r is Ok ==> r->Ok_0 == payload@.encoding().len() + OVERHEAD,
            r is Ok ==> final(buffer)@ == self.frame(payload@.encoding()) + old(buffer)@.skip(
                payload@.encoding().len() + OVERHEAD,
            ),
            r is Ok ==> r->Ok_0 == final(buffer)@[1] + OVERHEAD,
            r is Err && old(buffer)@.len() >= 2 ==> final(buffer)@[0] == self.start_marker()
                && final(buffer)@[1] == 0,
            r is Err && old(buffer)@.len() < 2 ==> final(buffer)@ == old(buffer)@,
            r is Err && old(buffer)@.len() >= 2 + payload@.trace().bytes.len() ==> final(buffer)@
                == seq![self.start_marker(), 0u8] + payload@.trace().bytes + old(buffer)@.skip(
                2 + payload@.trace().bytes.len() as int,
            ),
    {
        let ghost encoding = payload@.encoding();
        let ghost head = seq![self.start_index, 0u8];
        proof {
            if encoding.len() <= MAX_PAYLOAD {
                lemma_frame_parts(self.start_index, self.end_index, encoding);
            }
        }
        let mut place = Offset { index: 0 };
        if let Err(error) = self.begin_frame_at(&mut place, buffer) {
            proof {
                assert(place.written(buffer).len() == 0);
                assert(buffer@ =~= place.beyond(buffer));
                assert(old(buffer)@ =~= old(buffer)@.skip(0));
            }
            return Err(error);
        }
        assert(place.written(buffer) =~= head);
        let written = write_value(&mut place, buffer, payload);
        proof {
            assert(place.written(buffer).take(2) == head);
            assert(buffer@[0] == place.written(buffer).take(2)[0]);
            assert(buffer@[1] == place.written(buffer).take(2)[1]);
        }
        if let Err(error) = written {
            proof {
                let bytes = payload@.trace().bytes;
                if old(buffer)@.len() >= 2 + bytes.len() {
                    assert(buffer@ =~= place.written(buffer) + place.beyond(buffer));
                    assert(old(buffer)@.skip(2).skip(bytes.len() as int) =~= old(buffer)@.skip(
                        2 + bytes.len() as int,
                    ));
                }
            }
            return Err(error);
        }
        let data_end = place.index;
        proof {
            assert(buffer@.take(data_end as int) =~= head + encoding);
            assert(buffer@.subrange(2, data_end as int) =~= encoding) by {
                assert forall|k: int| 0 <= k < encoding.len() implies buffer@[2 + k]
                    == encoding[k] by {
                    assert(buffer@.take(data_end as int)[2 + k] == (head + encoding)[2 + k]);
                }
            }
            assert(buffer@.skip(data_end as int) =~= old(buffer)@.skip(data_end as int));
        }
        let ghost filled = buffer@;
        let r = self.finish_slice(buffer, data_end);
        proof {
            assert(filled =~= head + encoding + old(buffer)@.skip(data_end as int));
            if r is Ok {
                assert(filled.skip(data_end as int).len() == old(buffer)@.skip(
                    data_end as int,
                ).len());
                assert(filled.skip(data_end + 2) =~= filled.skip(data_end as int).skip(2));
                assert(old(buffer)@.skip(data_end + 2) =~= old(buffer)@.skip(data_end as int).skip(
                    2,
                ));
            }
        }
        r
    }

    /// Checks the frame at the front of `buffer` and returns its payload.
    ///
    /// With `strict` on, the markers must be this codec's; with `strict` off
    /// they are not looked at.
    pub fn payload<'b>(&self, buffer: &'b [u8], strict: bool) -> (r: Result<&'b [u8], UcPackError>)
        ensures
            match unframed(self.start_marker(), self.end_marker(), strict, buffer@) {
                Ok(payload) => r is Ok && r->Ok_0@ == payload,
                Err(error) => r is Err && r->Err_0 == error,
            },
    {
        let packet = match is_complete_message(buffer) {
            Some(packet) => packet,
            None => { return Err(UcPackError::Eof); },
        };
        let size = packet.len();
        let index = packet[0];
        let end_index = packet[size - 2];
        let crc = packet[size - 1];
        let payload = slice_subrange(packet, 2, size - 2);
        if strict && (index != self.start_index || end_index != self.end_index) {
            return Err(UcPackError::WrongIndex);
        }
        let expected_crc = crc8_slice(payload);
        if expected_crc != crc {
            return Err(UcPackError::WrongCrc);
        }
        Ok(payload)
    }

    /// Decodes a value of `shape` from the frame at the front of `buffer`.
    ///
    /// With `strict` on, the markers must be this codec's; with `strict` off
    /// they are not looked at.
    pub fn deserialize_slice(&self, buffer: &[u8], shape: &Shape, strict: bool) -> (r: Result<
        Value,
        UcPackError,
    >)
        ensures
            match decoded(self.start_marker(), self.end_marker(), strict, *shape, buffer@) {
                Ok(value) => r is Ok && r->Ok_0@ == value,
                Err(error) => r is Err && r->Err_0 == error,
            },
    {
        let payload = match self.payload(buffer, strict) {
            Ok(payload) => payload,
            Err(error) => { return Err(error); },
        };
        let cursor = SliceCursor::from_slice(payload);
        proof {
            cursor.lemma_in_bounds();
            assert(cursor.remaining() =~= payload@);
        }
        let mut de = Deserializer::new(cursor);
        de.deserialize(shape)
    }
}

} // verus!
