//! Filling a buffer from a file with as many reads as it takes.
use crate::message::Buffer;
use vstd::prelude::*;

verus! {

/// A buffer, and how much of it has been read.
pub struct LoadState {
    pub buffer: Seq<u8>,
    pub data_read: int,
    pub offset: int,
}

impl LoadState {
    pub open spec fn start(buffer: Seq<u8>, offset: int) -> LoadState {
        LoadState { buffer, data_read: 0, offset }
    }

    /// The state after a read that gave the bytes in `piece`.
    pub open spec fn take_in(self, piece: Seq<u8>) -> LoadState {
        LoadState {
            buffer: self.buffer.take(self.data_read) + piece + self.buffer.skip(
                self.data_read + piece.len(),
            ),
            data_read: self.data_read + piece.len(),
            offset: self.offset,
        }
    }

    /// The state after one read for each of `pieces`.
    pub open spec fn take_in_all(self, pieces: Seq<Seq<u8>>) -> LoadState
        decreases pieces.len(),
    {
        if pieces.len() == 0 {
            self
        } else {
            self.take_in_all(pieces.drop_last()).take_in(pieces.last())
        }
    }

    pub open spec fn wf(self) -> bool {
        0 <= self.data_read <= self.buffer.len()
    }
}

/// Reads until a buffer is full. Every read starts at the same offset in the file, whatever
/// the reads before it gave.
pub struct ExactLoad {
    buffer: Buffer,
    data_read: usize,
    offset: u64,
}

impl View for ExactLoad {
    type V = LoadState;

    closed spec fn view(&self) -> LoadState {
        LoadState {
            buffer: self.buffer@,
            data_read: self.data_read as int,
            offset: self.offset as int,
        }
    }
}

impl ExactLoad {
    /// Starts to fill `buffer` from `offset` on.
    pub fn new(buffer: Buffer, offset: u64) -> (r: ExactLoad)
        ensures
            r@ == LoadState::start(buffer@, offset as int),
            r@.wf(),
    {
        ExactLoad { buffer, data_read: 0, offset }
    }

    /// The offset in the file to read from next, or `None` when the buffer is full.
    pub fn next_read(&self) -> (r: Option<u64>)
        requires
            self@.wf(),
        ensures
            r == if self@.data_read < self@.buffer.len() {
                Some(self@.offset as u64)
            } else {
                None
            },
    {
        if self.data_read < self.buffer.len() {
            Some(self.offset)
        } else {
            None
        }
    }

    /// The part of the buffer that has not been read yet.
    pub fn unfilled(&mut self) -> (rest: &mut [u8])
        requires
            old(self)@.wf(),
        ensures
            rest@ == old(self)@.buffer.skip(old(self)@.data_read),
            final(self)@ == (LoadState {
                buffer: old(self)@.buffer.take(old(self)@.data_read) + final(rest)@,
                ..old(self)@
            }),
    {
        let (_, rest) = self.buffer.as_mut_slice().split_at_mut(self.data_read);
        rest
    }

    /// A read gave `count` bytes.
    pub fn advance(&mut self, count: usize)
        requires
            old(self)@.wf(),
            count <= old(self)@.buffer.len() - old(self)@.data_read,
        ensures
            final(self)@.wf(),
            final(self)@ == (LoadState {
                data_read: old(self)@.data_read + count,
                ..old(self)@
            }),
    {
        assert(self.data_read + count <= self.buffer.len());
        self.data_read = self.data_read + count;
    }

    /// Gives the buffer back.
    pub fn into_buffer(self) -> (r: Buffer)
        ensures
            r@ == self@.buffer,
    {
        self.buffer
    }
}

/// Reading `piece` into the start of the unfilled part and advancing by its length takes
/// `piece` in, and nothing else of the buffer changes.
pub proof fn law_read_then_advance(before: LoadState, piece: Seq<u8>, rest: Seq<u8>)
    requires
        before.wf(),
        piece.len() <= before.buffer.len() - before.data_read,
        rest == piece + before.buffer.skip(before.data_read).skip(piece.len() as int),
    ensures
        (LoadState {
            buffer: before.buffer.take(before.data_read) + rest,
            data_read: before.data_read + piece.len(),
            offset: before.offset,
        }) == before.take_in(piece),
{
    assert(before.buffer.take(before.data_read) + rest =~= before.take_in(piece).buffer);
}

/// After any number of reads, the part of the buffer that has been read holds what the reads
/// gave, one after the other, the length of the buffer is what it was, and the next read
/// starts at the same offset as the first.
pub proof fn law_load_concatenates(buffer: Seq<u8>, offset: int, pieces: Seq<Seq<u8>>)
    requires
        pieces.flatten().len() <= buffer.len(),
    ensures
        ({
            let end = LoadState::start(buffer, offset).take_in_all(pieces);
            &&& end.wf()
            &&& end.data_read == pieces.flatten().len()
            &&& end.buffer.len() == buffer.len()
            &&& end.buffer.take(end.data_read) == pieces.flatten()
            &&& end.buffer.skip(end.data_read) == buffer.skip(end.data_read)
            &&& end.offset == offset
        }),
    decreases pieces.len(),
{
    let start = LoadState::start(buffer, offset);
    let end = start.take_in_all(pieces);
    if pieces.len() == 0 {
        assert(end.buffer.take(0) =~= pieces.flatten());
    } else {
        let init = pieces.drop_last();
        assert(pieces.flatten() =~= init.flatten() + pieces.last()) by {
            assert(pieces =~= init.push(pieces.last()));
            init.lemma_flatten_push(pieces.last());
        }
        law_load_concatenates(buffer, offset, init);
        let mid = start.take_in_all(init);
        assert(end == mid.take_in(pieces.last()));
        assert(end.buffer.take(end.data_read) =~= mid.buffer.take(mid.data_read) + pieces.last());
        assert forall|j: int| end.data_read <= j < buffer.len() implies end.buffer[j]
            == buffer[j] by {
            assert(mid.buffer.skip(mid.data_read)[j - mid.data_read] == buffer.skip(
                mid.data_read,
            )[j - mid.data_read]);
        }
        assert(end.buffer.skip(end.data_read) =~= buffer.skip(end.data_read));
    }
}

/// A load that takes a single read ends with the bytes of the file from the offset on.
pub proof fn law_single_read_is_exact(buffer: Seq<u8>, file: Seq<u8>, offset: int)
    requires
        0 <= offset,
        offset + buffer.len() <= file.len(),
    ensures
        LoadState::start(buffer, offset).take_in(
            file.subrange(offset, offset + buffer.len()),
        ).buffer == file.subrange(offset, offset + buffer.len()),
{
    let piece = file.subrange(offset, offset + buffer.len());
    assert(LoadState::start(buffer, offset).take_in(piece).buffer =~= piece);
}

} // verus!
