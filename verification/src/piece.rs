//! A download segment: an inclusive byte range and the bytes fetched so far.
use vstd::prelude::*;

verus! {

/// A single download piece (segment) of a resource.
#[derive(Debug, Clone, Copy)]
pub struct Piece {
    /// Piece ID (0-indexed).
    pub id: usize,
    /// Start byte offset (inclusive).
    pub start: u64,
    /// End byte offset (inclusive).
    pub end: u64,
    /// Bytes downloaded so far.
    pub downloaded: u64,
    /// Whether this piece is complete.
    pub complete: bool,
}

/// `a + b` modulo 2^64.
pub open spec fn wrapping_sum(a: u64, b: u64) -> u64 {
    ((a as int + b as int) % 0x1_0000_0000_0000_0000) as u64
}

/// `p` is a new piece `id` covering `start..=end` with nothing downloaded.
pub open spec fn is_fresh(p: Piece, id: usize, start: u64, end: u64) -> bool {
    &&& p.id == id
    &&& p.start == start
    &&& p.end == end
    &&& p.bytes_done() == 0
    &&& !p.complete
}

impl Piece {
    /// Bytes downloaded so far.
    pub open spec fn bytes_done(&self) -> u64 {
        self.downloaded
    }

    /// The range is well formed: `start <= end` and its size fits in a `u64`.
    pub open spec fn sized(&self) -> bool {
        self.start <= self.end && self.end - self.start < u64::MAX
    }

    /// Number of bytes in `start..=end`.
    pub open spec fn size_spec(&self) -> nat {
        (self.end - self.start + 1) as nat
    }

    /// Bytes still to fetch: the size minus the downloaded bytes, never below zero.
    pub open spec fn remaining_spec(&self) -> nat {
        if self.bytes_done() < self.size_spec() {
            (self.size_spec() - self.bytes_done()) as nat
        } else {
            0
        }
    }

    /// The piece that covers the second half of what is still to fetch:
    /// from `start + downloaded + remaining / 2` to `end`.
    pub open spec fn split_start(&self) -> int {
        self.start + self.bytes_done() + self.remaining_spec() / 2
    }

    /// Create a new piece with nothing downloaded.
    pub fn new(id: usize, start: u64, end: u64) -> (p: Self)
        ensures
            p.id == id,
            p.start == start,
            p.end == end,
            p.bytes_done() == 0,
            !p.complete,
    {
        Piece { id, start, end, downloaded: 0, complete: false }
    }

    /// Total size of this piece in bytes.
    pub fn size(&self) -> (r: u64)
        requires
            self.sized(),
        ensures
            r == self.size_spec(),
    {
        self.end - self.start + 1
    }

    /// Bytes remaining to download.
    pub fn remaining(&self) -> (r: u64)
        requires
            self.sized(),
        ensures
            r == self.remaining_spec(),
    {
        let size = self.size();
        let done = self.downloaded();
        if done < size {
            size - done
        } else {
            0
        }
    }

    /// Bytes downloaded so far.
    pub fn downloaded(&self) -> (r: u64)
        ensures
            r == self.bytes_done(),
    {
        self.downloaded
    }

    /// Add downloaded bytes (wrapping, as an atomic `fetch_add` does).
    pub fn add_downloaded(&mut self, bytes: u64)
        ensures
            final(self).bytes_done() == wrapping_sum(old(self).bytes_done(), bytes),
            final(self).id == old(self).id,
            final(self).start == old(self).start,
            final(self).end == old(self).end,
            final(self).complete == old(self).complete,
    {
        let d = self.downloaded;
        if bytes <= u64::MAX - d {
            self.downloaded = d + bytes;
        } else {
            self.downloaded = bytes - (u64::MAX - d) - 1;
        }
    }

    /// Set downloaded bytes.
    pub fn set_downloaded(&mut self, bytes: u64)
        ensures
            final(self).bytes_done() == bytes,
            final(self).id == old(self).id,
            final(self).start == old(self).start,
            final(self).end == old(self).end,
            final(self).complete == old(self).complete,
    {
        self.downloaded = bytes;
    }

    /// Split off the second half of the remaining bytes as a new piece
    /// (with the temporary ID `id + 1000`); `None` when fewer than
    /// `2 * min_size` bytes remain. This piece itself is left as it is: the
    /// manager that stores the new piece shortens it to end just before.
    pub fn split(&self, min_size: u64) -> (r: Option<Piece>)
        requires
            self.sized(),
            min_size * 2 <= u64::MAX,
            self.remaining_spec() >= min_size * 2 ==> self.id + 1000 <= usize::MAX
                && self.start + self.bytes_done() <= u64::MAX,
        ensures
            r is None <==> self.remaining_spec() < min_size * 2,
            r matches Some(p) ==> {
                &&& p.id == self.id + 1000
                &&& p.start == self.split_start()
                &&& p.end == self.end
                &&& p.bytes_done() == 0
                &&& !p.complete
            },
            min_size >= 1 ==> (r matches Some(p) ==> {
                &&& p.start - (self.start + self.bytes_done()) >= min_size
                &&& p.start <= p.end
                &&& p.size_spec() >= min_size
            }),
    {
        let remaining = self.remaining();
        if remaining < min_size * 2 {
            return None;
        }
        let current_pos = self.start + self.downloaded();
        assert(current_pos + remaining / 2 <= u64::MAX) by {
            if remaining > 0 {
                assert(self.bytes_done() < self.size_spec());
            }
        }
        let midpoint = current_pos + remaining / 2;
        Some(Piece::new(self.id + 1000, midpoint, self.end))
    }
}

/// A split piece is well formed and ends where the split piece ends.
pub proof fn lemma_split_piece_sized(p: Piece)
    requires
        p.sized(),
        p.remaining_spec() >= 2,
    ensures
        p.start <= p.split_start() <= p.end,
        p.end - p.split_start() < u64::MAX,
{
    assert(p.bytes_done() < p.size_spec());
}

} // verus!
