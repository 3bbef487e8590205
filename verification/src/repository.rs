//! Range selection for paginated listings, and the repository-facing
//! error and result kinds.

use vstd::prelude::*;
use vstd::slice::slice_subrange;

verus! {

/// A selection of positions, used to slice a listing.
#[derive(Clone, Copy, Debug)]
pub enum Range {
    /// The empty selection.
    Empty,
    /// Both `start` and `end` belong to the selection:
    /// `{x | start <= x <= end}`.
    Closed { start: usize, end: usize },
    /// Everything from `start` on: `{x | x >= start}`.
    LeftClosed { start: usize },
    /// Everything up to and including `end`: `{x | x <= end}`.
    RightClosed { end: usize },
    /// Every position.
    Unbounded,
}

impl Range {
    /// The subsequence of `s` that `self` selects, once clipped to the
    /// length of `s`.
    pub open spec fn spec_index<T>(self, s: Seq<T>) -> Seq<T> {
        if s.len() == 0 {
            s
        } else {
            match self {
                Range::Empty => Seq::<T>::empty(),
                Range::Closed { start, end } => s.subrange(
                    start as int,
                    vstd::math::min(end as int, s.len() - 1) + 1,
                ),
                Range::LeftClosed { start } => s.subrange(start as int, s.len() as int),
                Range::RightClosed { end } => s.subrange(
                    0,
                    vstd::math::min(end as int, s.len() - 1) + 1,
                ),
                Range::Unbounded => s,
            }
        }
    }

    /// Whether `self` stays within a slice of length `len`, so that
    /// indexing cannot step outside the slice.
    pub open spec fn in_bounds(self, len: nat) -> bool {
        len == 0 || match self {
            Range::Closed { start, end } => start <= end + 1 && start <= len,
            Range::LeftClosed { start } => start <= len,
            _ => true,
        }
    }

    /// Returns the part of `slice` specified by `self`, adjusted to
    /// the length of the slice.
    pub fn index<T>(self, slice: &[T]) -> (out: &[T])
        requires
            self.in_bounds(slice@.len()),
        ensures
            out@ == self.spec_index(slice@),
    {
        let len: usize = slice.len();
        if len == 0 {
            return slice;
        }
        match self.clip(len) {
            Range::Closed { start, end } => {
                let stop: usize = if end < len - 1 {
                    end
                } else {
                    len - 1
                };
                slice_subrange(slice, start, stop + 1)
            },
            Range::LeftClosed { start } => slice_subrange(slice, start, len),
            Range::RightClosed { end } => {
                let stop: usize = if end < len - 1 {
                    end
                } else {
                    len - 1
                };
                slice_subrange(slice, 0, stop + 1)
            },
            Range::Unbounded => slice,
            Range::Empty => slice_subrange(slice, 0, 0),
        }
    }

    /// Clips the selection to a slice of length `max_len`: a closed
    /// end is pulled back to the last position, and any selection over
    /// an empty slice collapses to the empty one.
    pub fn clip(&self, max_len: usize) -> (out: Range)
        ensures
            out == self.spec_clip(max_len as nat),
    {
        if max_len == 0 {
            return Range::Empty;
        }
        match self {
            Range::Closed { start, end } => Range::Closed {
                start: *start,
                end: if *end < max_len - 1 {
                    *end
                } else {
                    max_len - 1
                },
            },
            Range::RightClosed { end } => Range::RightClosed {
                end: if *end < max_len - 1 {
                    *end
                } else {
                    max_len - 1
                },
            },
            _ => *self,
        }
    }

    /// The clipped selection, as [`Range::clip`] computes it.
    pub open spec fn spec_clip(self, max_len: nat) -> Range {
        if max_len == 0 {
            Range::Empty
        } else {
            match self {
                Range::Closed { start, end } => Range::Closed {
                    start,
                    end: vstd::math::min(end as int, max_len - 1) as usize,
                },
                Range::RightClosed { end } => Range::RightClosed {
                    end: vstd::math::min(end as int, max_len - 1) as usize,
                },
                _ => self,
            }
        }
    }

    /// The selection that covers a whole listing of length `len`.
    pub fn covering(len: usize) -> (out: Range)
        ensures
            len > 0 ==> out == (Range::Closed { start: 0usize, end: (len - 1) as usize }),
            len == 0 ==> out == Range::Empty,
    {
        if len > 0 {
            Range::Closed { start: 0, end: len - 1 }
        } else {
            Range::Empty
        }
    }
}

/// An error of the storage layer.
#[derive(Clone, Copy, Debug)]
pub enum RepositoryError {
    /// A shared-state lock was poisoned.
    Poison,
    /// The document store failed.
    MongoDb,
}

/// How an update was carried out: by changing an existing entry or by
/// creating a new one.
#[derive(Clone, Copy, Debug, PartialEq, Eq, Structural)]
pub enum UpdateResult {
    /// An existing entry was replaced.
    Changed,
    /// No entry existed under the key; a new one was created.
    Created,
}

/// Maps any failure of the document store to the repository's own
/// error kind.
pub fn to_repository_error<E>(err: E) -> (r: RepositoryError)
    ensures
        r is MongoDb,
{
    RepositoryError::MongoDb
}

} // verus!
