//! The pool of download pieces, with dynamic splitting (work stealing).
//!
//! Pieces are kept in a vector indexed by their ID: the IDs handed out are
//! `0` for the initial piece and then consecutive values of `next_id`.
use crate::piece::{is_fresh, wrapping_sum, Piece};
use std::collections::HashSet;
use vstd::std_specs::iter::IteratorSpec;
use vstd::prelude::*;

verus! {

broadcast use vstd::std_specs::hash::group_hash_axioms;

/// Identifier of a piece.
pub type PieceId = usize;

/// Smallest half a split may leave (256 KiB).
pub const MIN_SPLIT_SIZE: u64 = 262144;

/// Manages the pool of download pieces with dynamic splitting.
pub struct PieceManager {
    pieces: Vec<Piece>,
    active: HashSet<PieceId>,
    failed: HashSet<PieceId>,
    max_active: usize,
    next_id: PieceId,
    min_split_size: u64,
}

/// Sum of the downloaded bytes of `s`.
pub open spec fn sum_downloaded(s: Seq<Piece>) -> nat
    decreases s.len(),
{
    if s.len() == 0 {
        0
    } else {
        sum_downloaded(s.drop_last()) + s.last().bytes_done() as nat
    }
}

/// Sum of the sizes of `s`.
pub open spec fn sum_sizes(s: Seq<Piece>) -> nat
    decreases s.len(),
{
    if s.len() == 0 {
        0
    } else {
        sum_sizes(s.drop_last()) + s.last().size_spec()
    }
}

/// Every piece of `s` carries its index as ID and has a well-formed range.
pub open spec fn pieces_wf(s: Seq<Piece>) -> bool {
    forall|i: int| 0 <= i < s.len() ==> (#[trigger] s[i]).id == i && s[i].sized()
}

/// `s` with the piece `p` stored under ID `id` (`id <= s.len()`).
pub open spec fn put_piece(s: Seq<Piece>, id: int, p: Piece) -> Seq<Piece> {
    if id == s.len() {
        s.push(p)
    } else {
        s.update(id, p)
    }
}

/// `new` is `old` with a fresh piece `id` covering `start..=end` stored under `id`.
pub open spec fn stored_fresh(
    old: Seq<Piece>,
    new: Seq<Piece>,
    id: int,
    start: u64,
    end: u64,
) -> bool {
    &&& 0 <= id <= old.len()
    &&& new.len() == (if id == old.len() {
        old.len() + 1
    } else {
        old.len() as nat
    })
    &&& is_fresh(new[id], id as usize, start, end)
    &&& forall|j: int| 0 <= j < new.len() && j != id ==> new[j] == old[j]
}

/// `a` and `b` hold the same pieces, sets and settings.
pub open spec fn same_state(a: PieceManager, b: PieceManager) -> bool {
    &&& a.pieces_view() == b.pieces_view()
    &&& a.active_view() == b.active_view()
    &&& a.failed_view() == b.failed_view()
    &&& a.max_active_view() == b.max_active_view()
    &&& a.next_id_view() == b.next_id_view()
    &&& a.min_split_view() == b.min_split_view()
}

/// `p` with its range ending at `end`.
pub open spec fn with_end(p: Piece, end: u64) -> Piece {
    Piece { end, ..p }
}

/// `s` after piece `t` gives the second half of its remaining bytes to a new
/// piece stored under `id`: piece `t` now ends just before the new piece,
/// which runs from `split_start` to the old end of piece `t`.
pub open spec fn split_at(s: Seq<Piece>, t: int, id: int) -> Seq<Piece> {
    let m = s[t].split_start();
    put_piece(
        s.update(t, with_end(s[t], (m - 1) as u64)),
        id,
        Piece { id: id as usize, start: m as u64, end: s[t].end, downloaded: 0, complete: false },
    )
}

/// `s` with piece `id` (if there is one) marked complete.
pub open spec fn completed(s: Seq<Piece>, id: int) -> Seq<Piece> {
    if 0 <= id < s.len() {
        s.update(id, Piece { complete: true, ..s[id] })
    } else {
        s
    }
}

/// Byte `b` lies in the range of `p`.
pub open spec fn holds_byte(p: Piece, b: int) -> bool {
    p.start <= b <= p.end
}

/// Some piece of `s` holds byte `b`.
pub open spec fn covered(s: Seq<Piece>, b: int) -> bool {
    exists|i: int| 0 <= i < s.len() && #[trigger] holds_byte(s[i], b)
}

/// The pieces cover the bytes `0..=size - 1` exactly once: each lies inside,
/// no two overlap, every byte lies in one, and their sizes add up to `size`.
pub open spec fn tiles(s: Seq<Piece>, size: nat) -> bool {
    &&& forall|i: int| 0 <= i < s.len() ==> (#[trigger] s[i]).start <= s[i].end < size
    &&& forall|i: int, j: int|
        0 <= i < s.len() && 0 <= j < s.len() && i != j ==> (#[trigger] s[i]).end < (
        #[trigger] s[j]).start || s[j].end < s[i].start
    &&& forall|b: int| 0 <= b < size ==> #[trigger] covered(s, b)
    &&& sum_sizes(s) == size
}

/// From `a` to `b` the tiling of the resource is kept: when `a` hands out IDs
/// right after its last piece, so does `b`, and pieces that covered the
/// resource exactly once still do.
pub open spec fn keeps_tiling(a: PieceManager, b: PieceManager) -> bool {
    a.next_id_view() == a.pieces_view().len() ==> {
        &&& b.next_id_view() == b.pieces_view().len()
        &&& forall|n: nat| #[trigger] tiles(a.pieces_view(), n) ==> tiles(b.pieces_view(), n)
    }
}

impl PieceManager {
    /// The pieces, indexed by ID.
    pub closed spec fn pieces_view(&self) -> Seq<Piece> {
        self.pieces@
    }

    /// IDs of the pieces being downloaded.
    pub closed spec fn active_view(&self) -> Set<PieceId> {
        self.active@
    }

    /// IDs of the pieces whose download failed.
    pub closed spec fn failed_view(&self) -> Set<PieceId> {
        self.failed@
    }

    /// Most pieces that may be active at once.
    pub closed spec fn max_active_view(&self) -> usize {
        self.max_active
    }

    /// ID the next split piece gets.
    pub closed spec fn next_id_view(&self) -> PieceId {
        self.next_id
    }

    /// Smallest half a split may leave.
    pub closed spec fn min_split_view(&self) -> u64 {
        self.min_split_size
    }

    /// The manager's internal invariant.
    pub closed spec fn wf(&self) -> bool {
        &&& pieces_wf(self.pieces@)
        &&& self.next_id <= self.pieces@.len()
        &&& self.min_split_size == MIN_SPLIT_SIZE
        &&& self.active@.finite()
        &&& self.failed@.finite()
    }

    /// Piece `i` is active and has at least twice the minimum split size left.
    pub open spec fn splittable(&self, i: int) -> bool {
        &&& 0 <= i < self.pieces_view().len()
        &&& self.active_view().contains(i as usize)
        &&& self.pieces_view()[i].remaining_spec() >= 2 * self.min_split_view()
    }

    /// Piece `t` is splittable and no splittable piece has more bytes left.
    pub open spec fn is_split_target(&self, t: int) -> bool {
        &&& self.splittable(t)
        &&& forall|j: int| #[trigger]
            self.splittable(j) ==> self.pieces_view()[j].remaining_spec()
                <= self.pieces_view()[t].remaining_spec()
    }

    /// All pieces are fully downloaded and none is active or failed.
    pub open spec fn complete_spec(&self) -> bool {
        &&& self.active_view().is_empty()
        &&& self.failed_view().is_empty()
        &&& forall|i: int|
            0 <= i < self.pieces_view().len() ==> (#[trigger] self.pieces_view()[i]).remaining_spec()
                == 0
    }


    /// Create a new, empty manager.
    pub fn new(max_active: usize) -> (m: Self)
        ensures
            m.wf(),
            m.pieces_view() == Seq::<Piece>::empty(),
            m.active_view() == Set::<PieceId>::empty(),
            m.failed_view() == Set::<PieceId>::empty(),
            m.max_active_view() == max_active,
            m.next_id_view() == 0,
            m.min_split_view() == MIN_SPLIT_SIZE,
    {
        PieceManager {
            pieces: Vec::new(),
            active: HashSet::new(),
            failed: HashSet::new(),
            max_active,
            next_id: 0,
            min_split_size: 256 * 1024,
        }
    }

    /// Store `p` under ID `id`.
    fn store(&mut self, id: usize, p: Piece)
        requires
            old(self).wf(),
            id <= old(self).pieces@.len(),
            p.id == id,
            p.sized(),
        ensures
            final(self).pieces@ == put_piece(old(self).pieces@, id as int, p),
            final(self).active == old(self).active,
            final(self).failed == old(self).failed,
            final(self).max_active == old(self).max_active,
            final(self).next_id == old(self).next_id,
            final(self).min_split_size == old(self).min_split_size,
            pieces_wf(final(self).pieces@),
    {
        if id == self.pieces.len() {
            self.pieces.push(p);
        } else {
            self.pieces.set(id, p);
        }
    }

    /// Initialize with a single piece covering the whole resource
    /// (`0..=resource_size - 1`), stored under ID 0; the next split gets ID 1.
    pub fn init_single_piece(&mut self, resource_size: u64) -> (id: PieceId)
        requires
            old(self).wf(),
            resource_size > 0,
        ensures
            id == 0,
            final(self).wf(),
            stored_fresh(
                old(self).pieces_view(),
                final(self).pieces_view(),
                0,
                0,
                (resource_size - 1) as u64,
            ),
            final(self).active_view() == old(self).active_view(),
            final(self).failed_view() == old(self).failed_view(),
            final(self).max_active_view() == old(self).max_active_view(),
            final(self).next_id_view() == 1,
            final(self).min_split_view() == old(self).min_split_view(),
            old(self).pieces_view().len() == 0 ==> {
                &&& final(self).next_id_view() == final(self).pieces_view().len()
                &&& tiles(final(self).pieces_view(), resource_size as nat)
            },
    {
        let piece = Piece::new(0, 0, resource_size - 1);
        let ghost was_empty = self.pieces@.len() == 0;
        self.store(0, piece);
        self.next_id = 1;
        proof {
            if was_empty {
                let s = self.pieces@;
                assert(s.len() == 1);
                assert(s.drop_last() =~= Seq::<Piece>::empty());
                assert(sum_sizes(Seq::<Piece>::empty()) == 0);
                assert(sum_sizes(s) == resource_size as nat);
                assert forall|b: int| 0 <= b < resource_size implies #[trigger] covered(s, b) by {
                    assert(holds_byte(s[0], b));
                }
            }
        }
        0
    }

    /// Take one ID out of the failed set, if there is one.
    fn retry_failed(&mut self) -> (r: Option<PieceId>)
        requires
            old(self).wf(),
        ensures
            final(self).wf(),
            r is None <==> old(self).failed@.is_empty(),
            r matches Some(id) ==> old(self).failed@.contains(id) && final(self).failed@ == old(
                self,
            ).failed@.remove(id),
            r is None ==> final(self).failed@ == old(self).failed@,
            final(self).pieces == old(self).pieces,
            final(self).active == old(self).active,
            final(self).max_active == old(self).max_active,
            final(self).next_id == old(self).next_id,
            final(self).min_split_size == old(self).min_split_size,
    {
        let mut first: Option<PieceId> = None;
        for id in it: self.failed.iter()
            invariant
                it.seq() == vstd::std_specs::hash::spec_hash_keys_iter(&self.failed).remaining(),
                first is None <==> it.index() == 0,
                first matches Some(k) ==> self.failed@.contains(k),
                first is None && it.index() == it.seq().len() ==> self.failed@.is_empty(),
        {
            proof {
                let keys = it.seq();
                assert(keys.unref()[it.index() as int] == *keys[it.index() as int]);
                assert(keys.unref().to_set().contains(keys.unref()[it.index() as int]));
            }
            if first.is_none() {
                first = Some(*id);
            }
        }
        match first {
            Some(id) => {
                self.failed.remove(&id);
                Some(id)
            },
            None => None,
        }
    }

    /// Try to create a new piece.
    ///
    /// Nothing happens when `max_active` pieces are already active. Otherwise a
    /// failed piece, if any, is made active again; failing that, the active
    /// piece with the most bytes left (at least twice the minimum split size)
    /// gives the second half of its remaining bytes to a new piece with ID
    /// `next_id`, which becomes active. The split piece itself keeps its range.
    pub fn try_create_piece(&mut self) -> (r: Option<PieceId>)
        requires
            old(self).wf(),
            old(self).pieces_view().len() < usize::MAX,
        ensures
            final(self).wf(),
            final(self).max_active_view() == old(self).max_active_view(),
            final(self).min_split_view() == old(self).min_split_view(),
            keeps_tiling(*old(self), *final(self)),
            r is None <==> (old(self).active_view().len() >= old(self).max_active_view() || (old(
                self,
            ).failed_view().is_empty() && forall|j: int| !#[trigger] old(self).splittable(j))),
            r is None ==> same_state(*final(self), *old(self)),
            old(self).active_view().len() <= old(self).max_active_view()
                ==> final(self).active_view().len() <= final(self).max_active_view(),
            old(self).active_view().len() >= old(self).max_active_view() ==> r is None
                && same_state(*final(self), *old(self)),
            old(self).active_view().len() < old(self).max_active_view() && !old(
                self,
            ).failed_view().is_empty() ==> {
                &&& r matches Some(id)
                &&& old(self).failed_view().contains(id)
                &&& final(self).failed_view() == old(self).failed_view().remove(id)
                &&& final(self).active_view() == old(self).active_view().insert(id)
                &&& final(self).pieces_view() == old(self).pieces_view()
                &&& final(self).next_id_view() == old(self).next_id_view()
            },
            old(self).active_view().len() < old(self).max_active_view() && old(
                self,
            ).failed_view().is_empty() && (forall|j: int| !#[trigger] old(self).splittable(j))
                ==> r is None && same_state(*final(self), *old(self)),
            old(self).active_view().len() < old(self).max_active_view() && old(
                self,
            ).failed_view().is_empty() && (exists|j: int| #[trigger] old(self).splittable(j))
                ==> {
                &&& r == Some(old(self).next_id_view())
                &&& final(self).failed_view() == old(self).failed_view()
                &&& final(self).active_view() == old(self).active_view().insert(
                    old(self).next_id_view(),
                )
                &&& final(self).next_id_view() == old(self).next_id_view() + 1
                &&& old(self).next_id_view() == old(self).pieces_view().len()
                    ==> final(self).pieces_view().len() == old(self).pieces_view().len() + 1
                &&& exists|t: int|
                    #![trigger old(self).pieces_view()[t]]
                    old(self).is_split_target(t) && final(self).pieces_view() == split_at(
                        old(self).pieces_view(),
                        t,
                        old(self).next_id_view() as int,
                    )
            },
    {
        if self.active.len() >= self.max_active {
            return None;
        }
        if let Some(id) = self.retry_failed() {
            self.active.insert(id);
            return Some(id);
        }
        let n = self.pieces.len();
        let mut best: Option<usize> = None;
        let mut best_rem: u64 = 0;
        let mut i: usize = 0;
        while i < n
            invariant
                self.wf(),
                n == self.pieces@.len(),
                i <= n,
                best matches Some(b) ==> b < i && self.splittable(b as int)
                    && self.pieces@[b as int].remaining_spec() == best_rem,
                best matches Some(b) ==> forall|j: int|
                    0 <= j < i && #[trigger] self.splittable(j) ==> self.pieces@[j].remaining_spec()
                        <= best_rem,
                best is None ==> forall|j: int| 0 <= j < i ==> !#[trigger] self.splittable(j),
            decreases n - i,
        {
            let p = self.pieces[i];
            if self.active.contains(&i) {
                let rem = p.remaining();
                if rem >= self.min_split_size * 2 {
                    if best.is_none() || rem > best_rem {
                        best = Some(i);
                        best_rem = rem;
                    }
                }
            }
            i = i + 1;
        }
        match best {
            None => {
                assert forall|j: int| !#[trigger] old(self).splittable(j) by {
                    if 0 <= j < n {
                        assert(!self.splittable(j));
                    }
                }
                None
            },
            Some(t) => {
                let target = self.pieces[t];
                proof {
                    crate::piece::lemma_split_piece_sized(target);
                    assert forall|j: int| #[trigger]
                        old(self).splittable(j) implies old(self).pieces_view()[j].remaining_spec()
                        <= old(self).pieces_view()[t as int].remaining_spec() by {
                        assert(self.splittable(j));
                    }
                    assert(self.splittable(t as int));
                    assert(old(self).is_split_target(t as int));
                }
                let remaining = target.remaining();
                let midpoint = target.start + target.downloaded() + remaining / 2;
                let new_id = self.next_id;
                let piece = Piece::new(new_id, midpoint, target.end);
                let ghost before = self.pieces@;
                let mut shrunk = target;
                shrunk.end = midpoint - 1;
                self.pieces.set(t, shrunk);
                proof {
                    assert(self.pieces@ == before.update(t as int, with_end(target, (midpoint - 1) as u64)));
                    assert(pieces_wf(self.pieces@));
                }
                self.store(new_id, piece);
                self.next_id = self.next_id + 1;
                self.active.insert(new_id);
                proof {
                    assert(before[t as int] == target);
                    assert(self.pieces@ =~= split_at(before, t as int, new_id as int));
                    if new_id == before.len() {
                        lemma_split_tiles(before, t as int);
                    }
                }
                Some(new_id)
            },
        }
    }

    /// Mark a piece as active.
    pub fn mark_active(&mut self, id: PieceId)
        requires
            old(self).wf(),
        ensures
            final(self).wf(),
            final(self).active_view() == old(self).active_view().insert(id),
            final(self).active_view().len() == old(self).active_view().len() + (if old(
                self,
            ).active_view().contains(id) {
                0int
            } else {
                1int
            }),
            final(self).pieces_view() == old(self).pieces_view(),
            final(self).failed_view() == old(self).failed_view(),
            final(self).max_active_view() == old(self).max_active_view(),
            final(self).next_id_view() == old(self).next_id_view(),
            final(self).min_split_view() == old(self).min_split_view(),
            keeps_tiling(*old(self), *final(self)),
    {
        self.active.insert(id);
    }

    /// Mark a piece as complete: it leaves the active set and, when the ID is
    /// known, its `complete` flag is set.
    pub fn mark_complete(&mut self, id: PieceId)
        requires
            old(self).wf(),
        ensures
            final(self).wf(),
            final(self).active_view() == old(self).active_view().remove(id),
            final(self).active_view().len() == old(self).active_view().len() - (if old(
                self,
            ).active_view().contains(id) {
                1int
            } else {
                0int
            }),
            final(self).pieces_view() == completed(old(self).pieces_view(), id as int),
            final(self).failed_view() == old(self).failed_view(),
            final(self).max_active_view() == old(self).max_active_view(),
            final(self).next_id_view() == old(self).next_id_view(),
            final(self).min_split_view() == old(self).min_split_view(),
            keeps_tiling(*old(self), *final(self)),
    {
        self.active.remove(&id);
        let ghost before = self.pieces@;
        if id < self.pieces.len() {
            let mut p = self.pieces[id];
            p.complete = true;
            self.pieces.set(id, p);
        }
        proof {
            assert(self.pieces@ =~= completed(before, id as int));
            lemma_same_ranges_tiles_all(before, self.pieces@);
        }
    }

    /// Mark a piece as failed: it leaves the active set and joins the failed set.
    pub fn mark_failed(&mut self, id: PieceId)
        requires
            old(self).wf(),
        ensures
            final(self).wf(),
            final(self).active_view() == old(self).active_view().remove(id),
            final(self).active_view().len() == old(self).active_view().len() - (if old(
                self,
            ).active_view().contains(id) {
                1int
            } else {
                0int
            }),
            final(self).failed_view() == old(self).failed_view().insert(id),
            final(self).pieces_view() == old(self).pieces_view(),
            final(self).max_active_view() == old(self).max_active_view(),
            final(self).next_id_view() == old(self).next_id_view(),
            final(self).min_split_view() == old(self).min_split_view(),
            keeps_tiling(*old(self), *final(self)),
    {
        self.active.remove(&id);
        self.failed.insert(id);
    }

    /// Get a piece by ID.
    pub fn get_piece(&self, id: PieceId) -> (r: Option<Piece>)
        requires
            self.wf(),
        ensures
            r == (if id < self.pieces_view().len() {
                Some(self.pieces_view()[id as int])
            } else {
                None
            }),
    {
        if id < self.pieces.len() {
            Some(self.pieces[id])
        } else {
            None
        }
    }

    /// Add downloaded bytes to a piece (wrapping); nothing happens for an unknown ID.
    pub fn add_downloaded(&mut self, id: PieceId, bytes: u64)
        requires
            old(self).wf(),
        ensures
            final(self).wf(),
            id < old(self).pieces_view().len() ==> {
                let p = old(self).pieces_view()[id as int];
                final(self).pieces_view() == old(self).pieces_view().update(
                    id as int,
                    Piece { downloaded: wrapping_sum(p.downloaded, bytes), ..p },
                )
            },
            id >= old(self).pieces_view().len() ==> final(self).pieces_view() == old(
                self,
            ).pieces_view(),
            final(self).active_view() == old(self).active_view(),
            final(self).failed_view() == old(self).failed_view(),
            final(self).max_active_view() == old(self).max_active_view(),
            final(self).next_id_view() == old(self).next_id_view(),
            final(self).min_split_view() == old(self).min_split_view(),
            keeps_tiling(*old(self), *final(self)),
    {
        let ghost before = self.pieces@;
        if id < self.pieces.len() {
            let mut p = self.pieces[id];
            p.add_downloaded(bytes);
            self.pieces.set(id, p);
        }
        proof {
            lemma_same_ranges_tiles_all(before, self.pieces@);
        }
    }

    /// Set the downloaded bytes of a piece; nothing happens for an unknown ID.
    pub fn set_downloaded(&mut self, id: PieceId, bytes: u64)
        requires
            old(self).wf(),
        ensures
            final(self).wf(),
            id < old(self).pieces_view().len() ==> final(self).pieces_view() == old(
                self,
            ).pieces_view().update(
                id as int,
                Piece { downloaded: bytes, ..old(self).pieces_view()[id as int] },
            ),
            id >= old(self).pieces_view().len() ==> final(self).pieces_view() == old(
                self,
            ).pieces_view(),
            final(self).active_view() == old(self).active_view(),
            final(self).failed_view() == old(self).failed_view(),
            final(self).max_active_view() == old(self).max_active_view(),
            final(self).next_id_view() == old(self).next_id_view(),
            final(self).min_split_view() == old(self).min_split_view(),
            keeps_tiling(*old(self), *final(self)),
    {
        let ghost before = self.pieces@;
        if id < self.pieces.len() {
            let mut p = self.pieces[id];
            p.set_downloaded(bytes);
            self.pieces.set(id, p);
        }
        proof {
            lemma_same_ranges_tiles_all(before, self.pieces@);
        }
    }

    /// Get total downloaded bytes across all pieces.
    pub fn total_downloaded(&self) -> (r: u64)
        requires
            self.wf(),
            sum_downloaded(self.pieces_view()) <= u64::MAX,
        ensures
            r == sum_downloaded(self.pieces_view()),
    {
        let n = self.pieces.len();
        let mut total: u64 = 0;
        let mut i: usize = 0;
        while i < n
            invariant
                n == self.pieces@.len(),
                i <= n,
                total == sum_downloaded(self.pieces@.subrange(0, i as int)),
                sum_downloaded(self.pieces@) <= u64::MAX,
            decreases n - i,
        {
            proof {
                lemma_sum_downloaded_prefix(self.pieces@, i as int + 1);
                assert(self.pieces@.subrange(0, i + 1).drop_last() =~= self.pieces@.subrange(
                    0,
                    i as int,
                ));
            }
            total = total + self.pieces[i].downloaded();
            i = i + 1;
        }
        assert(self.pieces@.subrange(0, n as int) =~= self.pieces@);
        total
    }

    /// Get total size across all pieces.
    pub fn total_size(&self) -> (r: u64)
        requires
            self.wf(),
            sum_sizes(self.pieces_view()) <= u64::MAX,
        ensures
            r == sum_sizes(self.pieces_view()),
    {
        let n = self.pieces.len();
        let mut total: u64 = 0;
        let mut i: usize = 0;
        while i < n
            invariant
                self.wf(),
                n == self.pieces@.len(),
                i <= n,
                total == sum_sizes(self.pieces@.subrange(0, i as int)),
                sum_sizes(self.pieces@) <= u64::MAX,
            decreases n - i,
        {
            proof {
                lemma_sum_sizes_prefix(self.pieces@, i as int + 1);
                assert(self.pieces@.subrange(0, i + 1).drop_last() =~= self.pieces@.subrange(
                    0,
                    i as int,
                ));
            }
            total = total + self.pieces[i].size();
            i = i + 1;
        }
        assert(self.pieces@.subrange(0, n as int) =~= self.pieces@);
        total
    }

    /// Check whether all pieces are complete: nothing active, nothing failed,
    /// and no piece with bytes left.
    pub fn is_complete(&self) -> (r: bool)
        requires
            self.wf(),
        ensures
            r == self.complete_spec(),
    {
        if !self.active.is_empty() || !self.failed.is_empty() {
            return false;
        }
        let n = self.pieces.len();
        let mut i: usize = 0;
        while i < n
            invariant
                self.wf(),
                n == self.pieces@.len(),
                i <= n,
                forall|j: int| 0 <= j < i ==> (#[trigger] self.pieces@[j]).remaining_spec() == 0,
            decreases n - i,
        {
            if self.pieces[i].remaining() != 0 {
                assert(self.pieces_view()[i as int].remaining_spec() != 0);
                return false;
            }
            i = i + 1;
        }
        true
    }

    /// Get the number of active pieces.
    pub fn active_count(&self) -> (r: usize)
        requires
            self.wf(),
        ensures
            r == self.active_view().len(),
    {
        self.active.len()
    }

    /// Get all piece IDs.
    pub fn piece_ids(&self) -> (r: Vec<PieceId>)
        requires
            self.wf(),
        ensures
            r@.len() == self.pieces_view().len(),
            forall|i: int| 0 <= i < r@.len() ==> #[trigger] r@[i] == i,
    {
        let n = self.pieces.len();
        let mut ids: Vec<PieceId> = Vec::new();
        let mut i: usize = 0;
        while i < n
            invariant
                n == self.pieces@.len(),
                i <= n,
                ids@.len() == i,
                forall|k: int| 0 <= k < i ==> #[trigger] ids@[k] == k,
            decreases n - i,
        {
            ids.push(i);
            i = i + 1;
        }
        ids
    }

    /// Number of pieces held.
    pub fn piece_count(&self) -> (r: usize)
        ensures
            r == self.pieces_view().len(),
    {
        self.pieces.len()
    }

    /// Whether the piece `id` is active.
    pub fn is_active(&self, id: PieceId) -> (r: bool)
        requires
            self.wf(),
        ensures
            r == self.active_view().contains(id),
    {
        self.active.contains(&id)
    }

    /// Whether the piece `id` has failed and waits for a retry.
    pub fn is_failed(&self, id: PieceId) -> (r: bool)
        requires
            self.wf(),
        ensures
            r == self.failed_view().contains(id),
    {
        self.failed.contains(&id)
    }
}

/// A prefix never has a larger downloaded sum than the whole sequence.
pub proof fn lemma_sum_downloaded_prefix(s: Seq<Piece>, k: int)
    requires
        0 <= k <= s.len(),
    ensures
        sum_downloaded(s.subrange(0, k)) <= sum_downloaded(s),
    decreases s.len() - k,
{
    if k < s.len() {
        lemma_sum_downloaded_prefix(s, k + 1);
        assert(s.subrange(0, k + 1).drop_last() =~= s.subrange(0, k));
    } else {
        assert(s.subrange(0, k) =~= s);
    }
}

/// A prefix never has a larger size sum than the whole sequence.
pub proof fn lemma_sum_sizes_prefix(s: Seq<Piece>, k: int)
    requires
        0 <= k <= s.len(),
    ensures
        sum_sizes(s.subrange(0, k)) <= sum_sizes(s),
    decreases s.len() - k,
{
    if k < s.len() {
        lemma_sum_sizes_prefix(s, k + 1);
        assert(s.subrange(0, k + 1).drop_last() =~= s.subrange(0, k));
    } else {
        assert(s.subrange(0, k) =~= s);
    }
}

/// The active and failed sets of a well-formed manager are finite, so their
/// sizes are what `active_count` and set insertion and removal speak of.
pub proof fn lemma_wf_sets_finite(m: PieceManager)
    requires
        m.wf(),
    ensures
        m.active_view().finite(),
        m.failed_view().finite(),
{
}

/// Sequences with the same ranges have the same size sum.
pub proof fn lemma_sum_sizes_same_ranges(a: Seq<Piece>, b: Seq<Piece>)
    requires
        a.len() == b.len(),
        forall|i: int| 0 <= i < a.len() ==> #[trigger] a[i].start == b[i].start && a[i].end == b[i].end,
    ensures
        sum_sizes(a) == sum_sizes(b),
    decreases a.len(),
{
    if a.len() > 0 {
        lemma_sum_sizes_same_ranges(a.drop_last(), b.drop_last());
    }
}

/// Sequences that differ only in the progress or flags of their pieces tile
/// the same resource.
pub proof fn lemma_same_ranges_tiles_all(a: Seq<Piece>, b: Seq<Piece>)
    requires
        a.len() == b.len(),
        forall|i: int| 0 <= i < a.len() ==> #[trigger] a[i].start == b[i].start && a[i].end == b[i].end,
    ensures
        forall|n: nat| #[trigger] tiles(a, n) ==> tiles(b, n),
{
    lemma_sum_sizes_same_ranges(a, b);
    assert forall|n: nat| #[trigger] tiles(a, n) implies tiles(b, n) by {
        assert forall|i: int| 0 <= i < b.len() implies (#[trigger] b[i]).start <= b[i].end < n by {
            assert(a[i].start <= a[i].end < n);
        }
        assert forall|i: int, j: int|
            0 <= i < b.len() && 0 <= j < b.len() && i != j implies (#[trigger] b[i]).end < (
            #[trigger] b[j]).start || b[j].end < b[i].start by {
            assert(a[i].end < a[j].start || a[j].end < a[i].start);
        }
        assert forall|x: int| 0 <= x < n implies #[trigger] covered(b, x) by {
            assert(covered(a, x));
            let i = choose|i: int| 0 <= i < a.len() && #[trigger] holds_byte(a[i], x);
            assert(holds_byte(b[i], x));
        }
    }
}

/// Replacing one piece changes the size sum by the difference of the sizes.
pub proof fn lemma_sum_sizes_update(s: Seq<Piece>, i: int, p: Piece)
    requires
        0 <= i < s.len(),
    ensures
        sum_sizes(s.update(i, p)) + s[i].size_spec() == sum_sizes(s) + p.size_spec(),
    decreases s.len(),
{
    if i == s.len() - 1 {
        assert(s.update(i, p).drop_last() =~= s.drop_last());
    } else {
        lemma_sum_sizes_update(s.drop_last(), i, p);
        assert(s.update(i, p).drop_last() =~= s.drop_last().update(i, p));
    }
}

/// Splitting a piece of a tiling, with the new piece stored after the last
/// one, gives a tiling of the same resource.
pub proof fn lemma_split_tiles(s: Seq<Piece>, t: int)
    requires
        pieces_wf(s),
        0 <= t < s.len(),
        s[t].remaining_spec() >= 2,
    ensures
        forall|n: nat| #[trigger] tiles(s, n) ==> tiles(split_at(s, t, s.len() as int), n),
{
    let p = s[t];
    crate::piece::lemma_split_piece_sized(p);
    assert(p.bytes_done() < p.size_spec());
    let m = p.split_start();
    assert(p.start < m <= p.end);
    let s2 = s.update(t, with_end(p, (m - 1) as u64));
    let np = Piece { id: s.len() as usize, start: m as u64, end: p.end, downloaded: 0, complete: false };
    let s3 = s2.push(np);
    assert(split_at(s, t, s.len() as int) == s3);
    lemma_sum_sizes_update(s, t, with_end(p, (m - 1) as u64));
    assert(s3.drop_last() =~= s2);
    assert(sum_sizes(s3) == sum_sizes(s2) + np.size_spec());
    assert forall|n: nat| #[trigger] tiles(s, n) implies tiles(s3, n) by {
        assert forall|i: int| 0 <= i < s3.len() implies (#[trigger] s3[i]).start <= s3[i].end < n by {
            if i < s.len() {
                assert(s[i].start <= s[i].end < n);
            } else {
                assert(s[t].start <= s[t].end < n);
            }
        }
        assert forall|i: int, j: int|
            0 <= i < s3.len() && 0 <= j < s3.len() && i != j implies (#[trigger] s3[i]).end < (
            #[trigger] s3[j]).start || s3[j].end < s3[i].start by {
            if i < s.len() && j < s.len() {
                assert(s[i].end < s[j].start || s[j].end < s[i].start);
            } else if i < s.len() && i != t {
                assert(s[i].end < s[t].start || s[t].end < s[i].start);
            } else if j < s.len() && j != t {
                assert(s[j].end < s[t].start || s[t].end < s[j].start);
            }
        }
        assert forall|x: int| 0 <= x < n implies #[trigger] covered(s3, x) by {
            assert(covered(s, x));
            let i = choose|i: int| 0 <= i < s.len() && #[trigger] holds_byte(s[i], x);
            if i != t {
                assert(holds_byte(s3[i], x));
            } else if x < m {
                assert(holds_byte(s3[t], x));
            } else {
                assert(holds_byte(s3[s.len() as int], x));
            }
        }
    }
}

/// Keeping the tiling composes: what one step keeps and the next step keeps,
/// the two steps together keep. With `init_single_piece` on an empty manager
/// this carries the tiling of the resource through any sequence of calls.
pub proof fn law_keeps_tiling_trans(a: PieceManager, b: PieceManager, c: PieceManager)
    requires
        keeps_tiling(a, b),
        keeps_tiling(b, c),
    ensures
        keeps_tiling(a, c),
{
    if a.next_id_view() == a.pieces_view().len() {
        assert forall|n: nat| #[trigger] tiles(a.pieces_view(), n) implies tiles(c.pieces_view(), n) by {
            assert(tiles(b.pieces_view(), n));
        }
    }
}

} // verus!
