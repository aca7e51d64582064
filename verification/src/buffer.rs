use crate::error::UcPackError;
use vstd::prelude::*;

verus! {

/// Whether a buffer with `room` free bytes (`None`: no bound) takes `count` more.
pub open spec fn has_room(room: Option<nat>, count: nat) -> bool {
    match room {
        Some(free) => count <= free,
        None => true,
    }
}

/// The room that is left once `count` bytes have gone in.
pub open spec fn room_after(room: Option<nat>, count: nat) -> Option<nat> {
    match room {
        Some(free) => Some((free - count) as nat),
        None => None,
    }
}

/// `bytes` with the bytes from `at` on overwritten by `data`.
pub open spec fn overwritten(bytes: Seq<u8>, at: int, data: Seq<u8>) -> Seq<u8> {
    bytes.take(at) + data + bytes.skip(at + data.len())
}

/// A buffer that bytes are appended to. Implemented by cursor types.
///
/// A write either takes all of its bytes or fails and takes none.
pub trait WriteBuffer {
    /// What holds of every buffer that this library hands out or takes.
    spec fn wf(&self) -> bool;

    /// The bytes that have been written, oldest first.
    spec fn written(&self) -> Seq<u8>;

    /// How many more bytes fit; `None` where the buffer grows as needed.
    spec fn room(&self) -> Option<nat>;

    /// Appends `bf`, or fails with `BufferFull` and leaves the buffer as it was.
    fn push_slice(&mut self, bf: &[u8]) -> (r: Result<(), UcPackError>)
        requires
            old(self).wf(),
        ensures
            final(self).wf(),
            r is Ok <==> has_room(old(self).room(), bf@.len()),
            r is Ok ==> final(self).written() == old(self).written() + bf@,
            r is Ok ==> final(self).room() == room_after(old(self).room(), bf@.len()),
            r is Err ==> r == Err::<(), UcPackError>(UcPackError::BufferFull),
            r is Err ==> final(self).written() == old(self).written(),
            r is Err ==> final(self).room() == old(self).room(),
    ;

    /// Appends one byte, or fails with `BufferFull` and leaves the buffer as it was.
    fn push_u8(&mut self, byte: u8) -> (r: Result<(), UcPackError>)
        requires
            old(self).wf(),
        ensures
            final(self).wf(),
            r is Ok <==> has_room(old(self).room(), 1),
            r is Ok ==> final(self).written() == old(self).written().push(byte),
            r is Ok ==> final(self).room() == room_after(old(self).room(), 1),
            r is Err ==> r == Err::<(), UcPackError>(UcPackError::BufferFull),
            r is Err ==> final(self).written() == old(self).written(),
            r is Err ==> final(self).room() == old(self).room(),
    {
        let one: [u8; 1] = [byte];
        assert(one@ =~= seq![byte]);
        assert(old(self).written() + seq![byte] =~= old(self).written().push(byte));
        self.push_slice(one.as_slice())
    }
}

/// A buffer that bytes are read from, front first. Implemented by cursor types.
///
/// A read either returns all the bytes asked for or fails and consumes none.
pub trait ReadBuffer {
    /// What holds of every buffer that this library hands out or takes.
    spec fn wf(&self) -> bool;

    /// The bytes that have not been read yet.
    spec fn remaining(&self) -> Seq<u8>;

    /// Reads the next `N` bytes, or fails with `Eof` where fewer are left.
    fn read_n<const N: usize>(&mut self) -> (r: Result<[u8; N], UcPackError>)
        requires
            old(self).wf(),
        ensures
            final(self).wf(),
            r is Ok <==> N <= old(self).remaining().len(),
            r is Ok ==> r->Ok_0@ == old(self).remaining().take(N as int),
            r is Ok ==> final(self).remaining() == old(self).remaining().skip(N as int),
            r is Err ==> r->Err_0 == UcPackError::Eof,
            r is Err ==> final(self).remaining() == old(self).remaining(),
    ;

    /// Reads the next byte, or fails with `Eof` where none is left.
    fn read_u8(&mut self) -> (r: Result<u8, UcPackError>)
        requires
            old(self).wf(),
        ensures
            final(self).wf(),
            r is Ok <==> 1 <= old(self).remaining().len(),
            r is Ok ==> r->Ok_0 == old(self).remaining()[0],
            r is Ok ==> final(self).remaining() == old(self).remaining().skip(1),
            r is Err ==> r->Err_0 == UcPackError::Eof,
            r is Err ==> final(self).remaining() == old(self).remaining(),
    {
        match self.read_n::<1>() {
            Ok(one) => Ok(one[0]),
            Err(e) => Err(e),
        }
    }
}

/// A region of bytes that a cursor can read: a slice, or what owns or borrows one.
pub trait ByteSlice {
    /// The bytes of the region.
    spec fn bytes(&self) -> Seq<u8>;

    /// The region as a slice.
    fn as_slice(&self) -> (s: &[u8])
        ensures
            s@ == self.bytes(),
    ;
}

/// A region of bytes that a cursor can also write to. Its length never changes.
pub trait ByteSliceMut: ByteSlice {
    /// Overwrites the bytes from `at` on with `data`.
    fn write_at(&mut self, at: usize, data: &[u8])
        requires
            at + data@.len() <= old(self).bytes().len(),
        ensures
            final(self).bytes() == overwritten(old(self).bytes(), at as int, data@),
    ;
}

impl<'a> ByteSlice for &'a [u8] {
    open spec fn bytes(&self) -> Seq<u8> {
        (*self)@
    }

    fn as_slice(&self) -> (s: &[u8]) {
        *self
    }
}

impl<'a> ByteSlice for &'a mut [u8] {
    open spec fn bytes(&self) -> Seq<u8> {
        (*self)@
    }

    fn as_slice(&self) -> (s: &[u8]) {
        &**self
    }
}

impl<'a> ByteSliceMut for &'a mut [u8] {
    fn write_at(&mut self, at: usize, data: &[u8]) {
        let total: usize = (**self).len();
        let mut i: usize = 0;
        while i < data.len()
            invariant
                i <= data@.len(),
                at + data@.len() <= total,
                total == old(self).bytes().len(),
                self.bytes() == overwritten(old(self).bytes(), at as int, data@.take(i as int)),
            decreases data.len() - i,
        {
            let byte = data[i];
            (**self)[at + i] = byte;
            i = i + 1;
        }
        assert(data@.take(i as int) =~= data@);
    }
}

impl ByteSlice for Vec<u8> {
    open spec fn bytes(&self) -> Seq<u8> {
        self@
    }

    fn as_slice(&self) -> (s: &[u8]) {
        Vec::as_slice(self)
    }
}

impl ByteSliceMut for Vec<u8> {
    fn write_at(&mut self, at: usize, data: &[u8]) {
        let total: usize = self.len();
        let mut i: usize = 0;
        while i < data.len()
            invariant
                i <= data@.len(),
                at + data@.len() <= total,
                total == old(self)@.len(),
                self@ == overwritten(old(self)@, at as int, data@.take(i as int)),
            decreases data.len() - i,
        {
            let byte = data[i];
            let ghost before = self@;
            self[at + i] = byte;
            assert(self@ == before.update(at + i, byte));
            assert(self@ =~= overwritten(old(self)@, at as int, data@.take(i as int + 1)));
            i = i + 1;
        }
        assert(data@.take(i as int) =~= data@);
    }
}

/// A cursor over a region of bytes: the region and a position in it.
///
/// The position starts at the front and moves forward by what is read or
/// written; it never passes the end of the region.
pub struct SliceCursor<T: ByteSlice> {
    index: usize,
    buffer: T,
}

impl<T: ByteSlice> SliceCursor<T> {
    /// The position lies within the region.
    pub closed spec fn in_bounds(&self) -> bool {
        self.index <= self.buffer.bytes().len()
    }

    /// The position: how many bytes lie before the cursor.
    pub closed spec fn position(&self) -> nat {
        self.index as nat
    }

    /// The whole region, before and after the position.
    pub closed spec fn contents(&self) -> Seq<u8> {
        self.buffer.bytes()
    }

    /// The region that the cursor holds.
    pub closed spec fn region(&self) -> T {
        self.buffer
    }

    /// A cursor at the front of `bf`.
    pub fn from_slice(bf: T) -> (cursor: Self)
        ensures
            cursor.in_bounds(),
            cursor.position() == 0,
            cursor.contents() == bf.bytes(),
            cursor.region() == bf,
    {
        SliceCursor { index: 0, buffer: bf }
    }

    /// The position of the cursor.
    pub fn index(&self) -> (index: usize)
        ensures
            index == self.position(),
    {
        self.index
    }

    /// A cursor that is in bounds has its position within the region.
    pub proof fn lemma_in_bounds(&self)
        ensures
            self.in_bounds() <==> self.position() <= self.contents().len(),
    {
    }

    /// The whole region as a slice.
    pub fn inner(&self) -> (bytes: &[u8])
        ensures
            bytes@ == self.contents(),
    {
        self.buffer.as_slice()
    }

    /// Gives the region back.
    pub fn into_inner(self) -> (bf: T)
        ensures
            bf == self.region(),
            bf.bytes() == self.contents(),
    {
        self.buffer
    }
}

impl<T: ByteSlice> ReadBuffer for SliceCursor<T> {
    open spec fn wf(&self) -> bool {
        self.in_bounds()
    }

    open spec fn remaining(&self) -> Seq<u8> {
        self.contents().skip(self.position() as int)
    }

    fn read_n<const N: usize>(&mut self) -> (r: Result<[u8; N], UcPackError>)
        ensures
            final(self).contents() == old(self).contents(),
            r is Ok ==> final(self).position() == old(self).position() + N,
            r is Err ==> final(self).position() == old(self).position(),
    {
        let start = self.index;
        let bytes = self.buffer.as_slice();
        let total = bytes.len();
        if N > total - start {
            return Err(UcPackError::Eof);
        }
        let mut out: [u8; N] = [0u8; N];
        let mut i: usize = 0;
        while i < N
            invariant
                i <= N,
                start + N <= total,
                total == bytes@.len(),
                forall|k: int| 0 <= k < i ==> out@[k] == bytes@[start + k],
            decreases N - i,
        {
            out[i] = bytes[start + i];
            i = i + 1;
        }
        assert(out@ =~= bytes@.skip(start as int).take(N as int));
        assert(bytes@.skip(start as int).skip(N as int) =~= bytes@.skip(start + N));
        self.index = start + N;
        Ok(out)
    }
}

impl<T: ByteSliceMut> WriteBuffer for SliceCursor<T> {
    open spec fn wf(&self) -> bool {
        self.in_bounds()
    }

    open spec fn written(&self) -> Seq<u8> {
        self.contents().take(self.position() as int)
    }

    open spec fn room(&self) -> Option<nat> {
        Some((self.contents().len() - self.position()) as nat)
    }

    fn push_slice(&mut self, data: &[u8]) -> (r: Result<(), UcPackError>)
        ensures
            r is Ok ==> final(self).position() == old(self).position() + data@.len(),
            r is Ok ==> final(self).contents() == overwritten(
                old(self).contents(),
                old(self).position() as int,
                data@,
            ),
            r is Err ==> final(self).position() == old(self).position(),
            r is Err ==> final(self).contents() == old(self).contents(),
    {
        let start = self.index;
        let total = self.buffer.as_slice().len();
        if data.len() > total - start {
            return Err(UcPackError::BufferFull);
        }
        self.buffer.write_at(start, data);
        self.index = start + data.len();
        assert(self.contents().take(self.position() as int) =~= old(self).contents().take(
            start as int,
        ) + data@);
        Ok(())
    }

    fn push_u8(&mut self, byte: u8) -> (r: Result<(), UcPackError>)
        ensures
            r is Ok ==> final(self).position() == old(self).position() + 1,
            r is Ok ==> final(self).contents() == old(self).contents().update(
                old(self).position() as int,
                byte,
            ),
            r is Err ==> final(self).position() == old(self).position(),
            r is Err ==> final(self).contents() == old(self).contents(),
    {
        let one: [u8; 1] = [byte];
        assert(one@ =~= seq![byte]);
        let r = self.push_slice(one.as_slice());
        proof {
            let before = old(self).contents().take(old(self).position() as int);
            assert(before + seq![byte] =~= before.push(byte));
            if r is Ok {
                assert(self.contents() =~= old(self).contents().update(
                    old(self).position() as int,
                    byte,
                ));
            }
        }
        r
    }
}

impl WriteBuffer for Vec<u8> {
    open spec fn wf(&self) -> bool {
        true
    }

    open spec fn written(&self) -> Seq<u8> {
        self@
    }

    open spec fn room(&self) -> Option<nat> {
        None
    }

    fn push_slice(&mut self, bf: &[u8]) -> (r: Result<(), UcPackError>) {
        self.extend_from_slice(bf);
        assert(self@ =~= old(self)@ + bf@);
        Ok(())
    }
}

impl<T: WriteBuffer> WriteBuffer for &mut T {
    open spec fn wf(&self) -> bool {
        (**self).wf()
    }

    open spec fn written(&self) -> Seq<u8> {
        (**self).written()
    }

    open spec fn room(&self) -> Option<nat> {
        (**self).room()
    }

    fn push_slice(&mut self, bf: &[u8]) -> (r: Result<(), UcPackError>) {
        (**self).push_slice(bf)
    }

    fn push_u8(&mut self, byte: u8) -> (r: Result<(), UcPackError>) {
        (**self).push_u8(byte)
    }
}

impl<T: ReadBuffer> ReadBuffer for &mut T {
    open spec fn wf(&self) -> bool {
        (**self).wf()
    }

    open spec fn remaining(&self) -> Seq<u8> {
        (**self).remaining()
    }

    fn read_n<const N: usize>(&mut self) -> (r: Result<[u8; N], UcPackError>) {
        (**self).read_n::<N>()
    }

    fn read_u8(&mut self) -> (r: Result<u8, UcPackError>) {
        (**self).read_u8()
    }
}

/// What is left behind a place once `count` bytes have been written there.
pub open spec fn behind(beyond: Seq<u8>, count: nat) -> Seq<u8> {
    if count <= beyond.len() {
        beyond.skip(count as int)
    } else {
        Seq::empty()
    }
}

/// A place in a store of bytes where writing goes on. The store is lent for
/// each write, so that whoever owns it knows what it holds afterwards.
///
/// A write either takes all of its bytes or fails and changes nothing.
pub trait WritePlace<S: ?Sized> {
    /// What holds of a place and the store that it belongs to.
    spec fn wf(&self, store: &S) -> bool;

    /// The bytes that have been written, oldest first.
    spec fn written(&self, store: &S) -> Seq<u8>;

    /// How many more bytes fit; `None` where the store grows as needed.
    spec fn room(&self, store: &S) -> Option<nat>;

    /// The bytes of the store at and behind the place, which the next writes
    /// overwrite from the front; empty where the store keeps none there.
    spec fn beyond(&self, store: &S) -> Seq<u8>;

    /// Writes `data` at the place and moves the place behind it, or fails
    /// with `BufferFull` and leaves place and store as they were.
    fn put(&mut self, store: &mut S, data: &[u8]) -> (r: Result<(), UcPackError>)
        requires
            old(self).wf(old(store)),
        ensures
            final(self).wf(final(store)),
            r is Ok <==> has_room(old(self).room(old(store)), data@.len()),
            r is Ok ==> final(self).written(final(store)) == old(self).written(old(store)) + data@,
            r is Ok ==> final(self).room(final(store)) == room_after(
                old(self).room(old(store)),
                data@.len(),
            ),
            r is Ok ==> final(self).beyond(final(store)) == behind(
                old(self).beyond(old(store)),
                data@.len(),
            ),
            r is Err ==> r->Err_0 == UcPackError::BufferFull,
            r is Err ==> final(self).written(final(store)) == old(self).written(old(store)),
            r is Err ==> final(self).room(final(store)) == old(self).room(old(store)),
            r is Err ==> final(self).beyond(final(store)) == old(self).beyond(old(store)),
    ;
}

/// The place at the end of a [`WriteBuffer`]: writing there appends to it.
pub struct Appending;

impl<B: WriteBuffer> WritePlace<B> for Appending {
    open spec fn wf(&self, store: &B) -> bool {
        store.wf()
    }

    open spec fn written(&self, store: &B) -> Seq<u8> {
        store.written()
    }

    open spec fn room(&self, store: &B) -> Option<nat> {
        store.room()
    }

    open spec fn beyond(&self, store: &B) -> Seq<u8> {
        Seq::empty()
    }

    fn put(&mut self, store: &mut B, data: &[u8]) -> (r: Result<(), UcPackError>) {
        store.push_slice(data)
    }
}

/// A place in a slice, by its index: writing there overwrites the bytes
/// from the index on and allocates nothing.
pub struct Offset {
    /// The index of the next byte to be written.
    pub index: usize,
}

impl WritePlace<[u8]> for Offset {
    open spec fn wf(&self, store: &[u8]) -> bool {
        self.index <= store@.len()
    }

    open spec fn written(&self, store: &[u8]) -> Seq<u8> {
        store@.take(self.index as int)
    }

    open spec fn room(&self, store: &[u8]) -> Option<nat> {
        Some((store@.len() - self.index) as nat)
    }

    open spec fn beyond(&self, store: &[u8]) -> Seq<u8> {
        store@.skip(self.index as int)
    }

    fn put(&mut self, store: &mut [u8], data: &[u8]) -> (r: Result<(), UcPackError>)
        ensures
            r is Ok ==> final(self).index == old(self).index + data@.len(),
            r is Ok ==> final(store)@ == overwritten(old(store)@, old(self).index as int, data@),
            r is Err ==> final(self).index == old(self).index,
            r is Err ==> final(store)@ == old(store)@,
    {
        let start = self.index;
        let total = store.len();
        if data.len() > total - start {
            return Err(UcPackError::BufferFull);
        }
        let mut i: usize = 0;
        while i < data.len()
            invariant
                i <= data@.len(),
                start + data@.len() <= total,
                total == old(store)@.len(),
                store@ == overwritten(old(store)@, start as int, data@.take(i as int)),
            decreases data.len() - i,
        {
            let byte = data[i];
            store[start + i] = byte;
            i = i + 1;
        }
        assert(data@.take(i as int) =~= data@);
        self.index = start + data.len();
        assert(store@.take(self.index as int) =~= old(store)@.take(start as int) + data@);
        assert(store@.skip(self.index as int) =~= old(store)@.skip(start as int).skip(
            data@.len() as int,
        ));
        Ok(())
    }
}

} // verus!
