use vstd::prelude::*;
use vstd::string::StringExecFns;

verus! {

/// Why an encode or decode call stopped. Every error is final for that call.
#[derive(Debug, Clone, Copy, PartialEq, Eq)]
pub enum UcPackError {
    /// A variant index above `255` was to be written.
    BadVariant,
    /// The input ended before the value was complete.
    Eof,
    /// The value holds a shape that the wire format does not carry; the
    /// string names the shape.
    NoSupport(&'static str),
    /// The payload is longer than the 255 bytes that the length byte can say.
    TooLong,
    /// A bounded buffer has no room for the bytes to be written.
    BufferFull,
    /// The layer that walks the value reported a failure while writing.
    SerError,
    /// The layer that builds the value reported a failure while reading.
    DeError,
    /// The bytes are there but are no encoding of the shape asked for, such
    /// as a boolean byte other than 0 or 1.
    InvalidData,
    /// The checksum of the payload is not the one in the frame.
    WrongCrc,
    /// In strict mode, the start or end marker is not the codec's.
    WrongIndex,
}

impl UcPackError {
    /// What the error says, in words.
    pub open spec fn spec_message(self) -> Seq<char> {
        match self {
            UcPackError::NoSupport(typename) => "there's no support for type "@ + typename@,
            UcPackError::Eof => "not enough data to deserialize"@,
            UcPackError::InvalidData => "invalid data for data type"@,
            UcPackError::BadVariant => "tried to serialize a variant index bigger than 255"@,
            UcPackError::TooLong => "tried to serialize more than 256 bytes"@,
            UcPackError::BufferFull => "tried to write but buffer reached capacity"@,
            UcPackError::SerError => "serde encountered an error serializing"@,
            UcPackError::DeError => "serde encountered an error deserializing"@,
            UcPackError::WrongCrc => "crc verification failed"@,
            UcPackError::WrongIndex => "invalid start and/or stop indices"@,
        }
    }

    /// What the error says, in words. For `NoSupport` the text ends with the
    /// name of the shape.
    pub fn message(&self) -> (text: String)
        ensures
            text@ == self.spec_message(),
    {
        let msg = match self {
            UcPackError::NoSupport(typename) => {
                let mut text = String::from_str("there's no support for type ");
                text.append(typename);
                return text;
            },
            UcPackError::Eof => "not enough data to deserialize",
            UcPackError::InvalidData => "invalid data for data type",
            UcPackError::BadVariant => "tried to serialize a variant index bigger than 255",
            UcPackError::TooLong => "tried to serialize more than 256 bytes",
            UcPackError::BufferFull => "tried to write but buffer reached capacity",
            UcPackError::SerError => "serde encountered an error serializing",
            UcPackError::DeError => "serde encountered an error deserializing",
            UcPackError::WrongCrc => "crc verification failed",
            UcPackError::WrongIndex => "invalid start and/or stop indices",
        };
        String::from_str(msg)
    }
}

} // verus!
