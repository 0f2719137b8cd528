//! An append-only store of bytes that is read through a mapped view. The
//! view covers the contents as they were when it was made: every append
//! drops it, and the next read makes a new one.
//!
//! What a segment decides goes by two plain values, its size and whether a
//! view stands. `SegmentState` holds them and takes the steps; `SegmentFile`
//! adds the bytes. A segment on disk keeps a `SegmentState` beside its file
//! and takes the same steps.

use crate::error::StorageError;
use vstd::prelude::*;
use vstd::slice::{slice_subrange, slice_to_vec};

verus! {

/// The plain state of a segment: how many bytes it holds, and whether a
/// mapped view of them stands.
#[derive(Debug, Clone, Copy, PartialEq, Eq, Structural)]
pub struct SegmentState {
    pub size: usize,
    pub mapped: bool,
}

/// A segment: its bytes, and whether a view of them is mapped.
pub struct SegmentFile {
    data: Vec<u8>,
    mapped: bool,
}

/// What a segment is: its contents, and whether a mapped view of them
/// stands.
pub struct SegmentView {
    pub contents: Seq<u8>,
    pub mapped: bool,
}

impl View for SegmentFile {
    type V = SegmentView;

    closed spec fn view(&self) -> SegmentView {
        SegmentView { contents: self.data@, mapped: self.mapped }
    }
}

/// Whether the `len` bytes from `offset` on lie within the first `extent`
/// bytes.
pub open spec fn in_bounds(offset: int, len: int, extent: int) -> bool {
    offset + len <= extent
}

/// Checks a read of `len` bytes from `offset` against a mapped extent, and
/// gives the end of the range read. A range that reaches past the extent is
/// out of bounds, also where `offset + len` does not fit the machine word.
pub fn check_range(offset: usize, len: usize, extent: usize) -> (r: Result<usize, StorageError>)
    ensures
        in_bounds(offset as int, len as int, extent as int) ==> r == Ok::<usize, StorageError>(
            (offset + len) as usize,
        ),
        !in_bounds(offset as int, len as int, extent as int) ==> r == Err::<usize, StorageError>(
            StorageError::OutOfBounds,
        ),
{
    if len <= extent && offset <= extent - len {
        Ok(offset + len)
    } else {
        Err(StorageError::OutOfBounds)
    }
}

impl SegmentState {
    /// A view is mapped only over a segment that holds bytes.
    pub open spec fn wf(self) -> bool {
        self.mapped ==> self.size > 0
    }

    /// The state of a new, empty segment: nothing is mapped.
    pub fn created() -> (state: Self)
        ensures
            state == (SegmentState { size: 0, mapped: false }),
    {
        SegmentState { size: 0, mapped: false }
    }

    /// The state of a segment opened over `size` bytes: their full extent
    /// is mapped, unless there are none.
    pub fn opened(size: usize) -> (state: Self)
        ensures
            state == (SegmentState { size, mapped: size > 0 }),
    {
        SegmentState { size, mapped: size > 0 }
    }

    /// The step of an append of `written` bytes: the segment grows by them,
    /// and the view, which no longer covers the contents, is dropped. The
    /// bytes start where the segment ended before.
    pub fn write_step(&mut self, written: usize) -> (offset: usize)
        requires
            old(self).size + written <= usize::MAX,
        ensures
            offset == old(self).size,
            *final(self) == (SegmentState {
                size: (old(self).size + written) as usize,
                mapped: false,
            }),
    {
        let offset = self.size;
        self.size = self.size + written;
        self.mapped = false;
        offset
    }

    /// Whether a view has to be made before the segment can be read: there
    /// are bytes and none is mapped.
    pub fn needs_view(&self) -> (needed: bool)
        ensures
            needed == (!self.mapped && self.size > 0),
    {
        !self.mapped && self.size > 0
    }

    /// The step after a view was made: it stands, unless the segment is
    /// empty and there was nothing to map.
    pub fn view_made(&mut self)
        ensures
            *final(self) == (SegmentState { size: old(self).size, mapped: old(self).size > 0 }),
    {
        self.mapped = self.size > 0;
    }

    /// Checks a read of `len` bytes from `offset` and gives the end of the
    /// range read. Without a view there is nothing to read from; with one,
    /// the range has to lie within the size.
    pub fn read_range(&self, offset: usize, len: usize) -> (r: Result<usize, StorageError>)
        ensures
            !self.mapped ==> r == Err::<usize, StorageError>(StorageError::EmptySegment),
            self.mapped && in_bounds(offset as int, len as int, self.size as int) ==> r == Ok::<
                usize,
                StorageError,
            >((offset + len) as usize),
            self.mapped && !in_bounds(offset as int, len as int, self.size as int) ==> r == Err::<
                usize,
                StorageError,
            >(StorageError::OutOfBounds),
    {
        if self.mapped {
            check_range(offset, len, self.size)
        } else {
            Err(StorageError::EmptySegment)
        }
    }

    /// Whether the segment holds no byte.
    pub fn is_empty(&self) -> (empty: bool)
        ensures
            empty == (self.size == 0),
    {
        self.size == 0
    }
}

impl SegmentFile {
    /// A view is mapped only over a segment that holds bytes.
    pub open spec fn wf(&self) -> bool {
        self@.mapped ==> self@.contents.len() > 0
    }

    /// The plain state of the segment. A view over no bytes does not
    /// count.
    pub fn state(&self) -> (state: SegmentState)
        ensures
            state.size == self@.contents.len(),
            state.mapped == (self@.mapped && self@.contents.len() > 0),
            state.wf(),
    {
        SegmentState { size: self.data.len(), mapped: self.mapped && self.data.len() > 0 }
    }

    /// A new, empty segment. Nothing is mapped.
    pub fn create() -> (segment: Self)
        ensures
            segment.wf(),
            segment@.contents == Seq::<u8>::empty(),
            !segment@.mapped,
    {
        let state = SegmentState::created();
        SegmentFile { data: Vec::new(), mapped: state.mapped }
    }

    /// A segment over the bytes that were found on storage. Their full
    /// extent is mapped, unless there are none.
    pub fn open(contents: Vec<u8>) -> (segment: Self)
        ensures
            segment.wf(),
            segment@.contents == contents@,
            segment@.mapped == (contents@.len() > 0),
    {
        let state = SegmentState::opened(contents.len());
        SegmentFile { data: contents, mapped: state.mapped }
    }

    /// Appends `data` at the end of the segment and returns the offset at
    /// which it now starts. The mapped view no longer covers the contents,
    /// and is dropped.
    pub fn write(&mut self, data: &[u8]) -> (r: Result<usize, StorageError>)
        ensures
            r == Ok::<usize, StorageError>(old(self)@.contents.len() as usize),
            final(self)@.contents == old(self)@.contents + data@,
            !final(self)@.mapped,
            final(self).wf(),
    {
        let mut state = self.state();
        let ghost before = self.data@;
        self.data.extend_from_slice(data);
        assert(self.data@ =~= before + data@);
        assert(state.size + data@.len() == self.data.len());
        let offset = state.write_step(data.len());
        self.mapped = state.mapped;
        Ok(offset)
    }

    /// Reads `len` bytes from `offset` through the mapped view, which is
    /// made first where none stands. An empty segment cannot be read; a
    /// range that reaches past the mapped extent is out of bounds.
    pub fn read_at(&mut self, offset: usize, len: usize) -> (r: Result<Vec<u8>, StorageError>)
        ensures
            final(self).wf(),
            final(self)@.contents == old(self)@.contents,
            final(self)@.mapped == (old(self)@.contents.len() > 0),
            old(self)@.contents.len() == 0 ==> r == Err::<Vec<u8>, StorageError>(
                StorageError::EmptySegment,
            ),
            old(self)@.contents.len() > 0 && !in_bounds(
                offset as int,
                len as int,
                old(self)@.contents.len() as int,
            ) ==> r == Err::<Vec<u8>, StorageError>(StorageError::OutOfBounds),
            old(self)@.contents.len() > 0 && in_bounds(
                offset as int,
                len as int,
                old(self)@.contents.len() as int,
            ) ==> r is Ok && r->Ok_0@ == old(self)@.contents.subrange(
                offset as int,
                offset + len,
            ),
    {
        let mut state = self.state();
        if state.needs_view() {
            state.view_made();
        }
        self.mapped = state.mapped;
        match state.read_range(offset, len) {
            Ok(end) => Ok(slice_to_vec(slice_subrange(self.data.as_slice(), offset, end))),
            Err(e) => Err(e),
        }
    }

    /// The number of bytes in the segment.
    pub fn len(&self) -> (n: usize)
        ensures
            n == self@.contents.len(),
    {
        self.data.len()
    }

    /// Whether the segment holds no byte.
    pub fn is_empty(&self) -> (empty: bool)
        ensures
            empty == (self@.contents.len() == 0),
    {
        self.state().is_empty()
    }

    /// Whether a mapped view of the contents stands.
    pub fn is_mapped(&self) -> (mapped: bool)
        ensures
            mapped == self@.mapped,
    {
        self.mapped
    }
}

} // verus!
