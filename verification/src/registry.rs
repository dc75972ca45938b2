//! Allocation registry: every tracked heap chunk, live or freed, together
//! with the call contexts of its allocation and (once freed) its free.
//!
//! Live chunks have pairwise-disjoint intervals.  A freed chunk stays in the
//! registry (quarantine) so that a use-after-free report can cite the free
//! site; chunks leave only on a run reset.

use vstd::prelude::*;

verus! {

/// Immutable context captured when a chunk is allocated or freed: the thread
/// that did it, an optional backtrace, and a payload size.
pub struct CallContext {
    pub tid: i32,
    pub addresses: Vec<u64>,
    pub size: u32,
}

/// One tracked heap chunk: a half-open guest interval and its contexts.
/// `free_ctx` is absent while the chunk is live.
pub struct ChunkInfo {
    pub start: u64,
    pub end: u64,
    pub alloc_ctx: CallContext,
    pub free_ctx: Option<CallContext>,
}

impl ChunkInfo {
    /// Whether guest address `a` falls inside the chunk's interval.
    pub open spec fn covers(self, a: u64) -> bool {
        self.start <= a < self.end
    }

    /// A chunk is live until it is freed.
    pub open spec fn is_live(self) -> bool {
        self.free_ctx is None
    }

    /// Distance from an address to the chunk, zero only when covered; used to
    /// pick the nearest quarantined chunk for a report.
    pub open spec fn dist_to(self, a: u64) -> int {
        if a < self.start {
            self.start - a
        } else if a >= self.end {
            a - self.end + 1
        } else {
            0
        }
    }

    /// The same chunk, marked freed with the given context.
    pub open spec fn freed_with(self, ctx: CallContext) -> ChunkInfo {
        ChunkInfo { free_ctx: Some(ctx), ..self }
    }
}

/// Whether the intervals `[s1, e1)` and `[s2, e2)` share an address.
pub open spec fn ranges_overlap(s1: u64, e1: u64, s2: u64, e2: u64) -> bool {
    s1 < e2 && s2 < e1
}

/// Registry well-formedness: intervals are nonempty and live chunks are
/// pairwise disjoint.
pub open spec fn registry_wf(s: Seq<ChunkInfo>) -> bool {
    &&& forall|i: int| 0 <= i < s.len() ==> (#[trigger] s[i]).start < s[i].end
    &&& forall|i: int, j: int|
        0 <= i < s.len() && 0 <= j < s.len() && i != j && (#[trigger] s[i]).is_live() && (
        #[trigger] s[j]).is_live() ==> !ranges_overlap(s[i].start, s[i].end, s[j].start, s[j].end)
}

/// Whether some chunk of `s` covers `a`.
pub open spec fn some_chunk_covers(s: Seq<ChunkInfo>, a: u64) -> bool {
    exists|j: int| 0 <= j < s.len() && (#[trigger] s[j]).covers(a)
}

/// Whether some chunk of `s` is freed.
pub open spec fn some_chunk_freed(s: Seq<ChunkInfo>) -> bool {
    exists|j: int| 0 <= j < s.len() && !(#[trigger] s[j]).is_live()
}

/// Whether index `i` is the first chunk of `s` covering `a`.
pub open spec fn first_covering_ok(s: Seq<ChunkInfo>, a: u64, i: int) -> bool {
    &&& 0 <= i < s.len()
    &&& s[i].covers(a)
    &&& forall|j: int| 0 <= j < i ==> !(#[trigger] s[j]).covers(a)
}

/// Whether index `i` is the freed chunk of `s` nearest to `a`, earliest on a
/// tie.
pub open spec fn nearest_freed_ok(s: Seq<ChunkInfo>, a: u64, i: int) -> bool {
    &&& 0 <= i < s.len()
    &&& !s[i].is_live()
    &&& forall|j: int|
        0 <= j < s.len() && !(#[trigger] s[j]).is_live() ==> s[i].dist_to(a) < s[j].dist_to(a) || (
        s[i].dist_to(a) == s[j].dist_to(a) && i <= j)
}

/// What `AllocRegistry::search` promises about its result.
pub open spec fn search_ok(s: Seq<ChunkInfo>, a: u64, r: Option<int>) -> bool {
    match r {
        Some(i) => if some_chunk_covers(s, a) {
            first_covering_ok(s, a, i)
        } else {
            nearest_freed_ok(s, a, i)
        },
        None => !some_chunk_covers(s, a) && !some_chunk_freed(s),
    }
}

/// Whether some live chunk of `s` starts exactly at `a`.
pub open spec fn live_chunk_starts_at(s: Seq<ChunkInfo>, a: u64) -> bool {
    exists|i: int| 0 <= i < s.len() && (#[trigger] s[i]).is_live() && s[i].start == a
}

/// The chunks that survive removing `[start, end]`: those whose interval is
/// not entirely inside it.
pub open spec fn survives_removal(start: u64, end: u64) -> spec_fn(ChunkInfo) -> bool {
    |c: ChunkInfo| !(start <= c.start && c.end <= end)
}

/// Whether a new live interval `[start, end)` would overlap some live chunk.
pub open spec fn overlaps_live(s: Seq<ChunkInfo>, start: u64, end: u64) -> bool {
    exists|i: int|
        0 <= i < s.len() && (#[trigger] s[i]).is_live() && ranges_overlap(
            s[i].start,
            s[i].end,
            start,
            end,
        )
}

/// Interval container for chunks, keyed by order of insertion.
pub struct AllocRegistry {
    chunks: Vec<ChunkInfo>,
}

impl View for AllocRegistry {
    type V = Seq<ChunkInfo>;

    closed spec fn view(&self) -> Seq<ChunkInfo> {
        self.chunks@
    }
}

impl AllocRegistry {
    /// An empty registry.
    pub fn new() -> (r: Self)
        ensures
            r@ == Seq::<ChunkInfo>::empty(),
            registry_wf(r@),
    {
        let r = AllocRegistry { chunks: Vec::new() };
        proof {
            assert(r@ =~= Seq::<ChunkInfo>::empty());
        }
        r
    }

    /// Number of tracked chunks, live and quarantined.
    pub fn len(&self) -> (n: usize)
        ensures
            n == self@.len(),
    {
        self.chunks.len()
    }

    /// A tracked chunk by index.
    pub fn get(&self, i: usize) -> (c: &ChunkInfo)
        requires
            i < self@.len(),
        ensures
            *c == self@[i as int],
    {
        &self.chunks[i]
    }

    /// Record a fresh live chunk.  The caller guarantees the interval is
    /// nonempty and disjoint from every live chunk.
    pub fn insert(&mut self, start: u64, end: u64, ctx: CallContext)
        requires
            start < end,
            registry_wf(old(self)@),
            !overlaps_live(old(self)@, start, end),
        ensures
            final(self)@ == old(self)@.push(
                ChunkInfo { start, end, alloc_ctx: ctx, free_ctx: None },
            ),
            registry_wf(final(self)@),
    {
        let c = ChunkInfo { start, end, alloc_ctx: ctx, free_ctx: None };
        self.chunks.push(c);
        proof {
            let s = self@;
            let olds = old(self)@;
            assert forall|i: int, j: int|
                0 <= i < s.len() && 0 <= j < s.len() && i != j && (#[trigger] s[i]).is_live() && (
                #[trigger] s[j]).is_live() implies !ranges_overlap(
                s[i].start,
                s[i].end,
                s[j].start,
                s[j].end,
            ) by {
                if i < olds.len() && j < olds.len() {
                } else if i == olds.len() {
                    assert(!(olds[j].is_live() && ranges_overlap(
                        olds[j].start,
                        olds[j].end,
                        start,
                        end,
                    )));
                } else {
                    assert(!(olds[i].is_live() && ranges_overlap(
                        olds[i].start,
                        olds[i].end,
                        start,
                        end,
                    )));
                }
            }
        }
    }

    /// Find the chunk to blame for an access at `a`: the first chunk covering
    /// `a`, or else the nearest quarantined chunk, or nothing.
    pub fn search(&self, a: u64) -> (r: Option<usize>)
        requires
            registry_wf(self@),
        ensures
            match r {
                Some(i) => search_ok(self@, a, Some(i as int)),
                None => search_ok(self@, a, None::<int>),
            },
    {
        let n = self.chunks.len();
        let mut i: usize = 0;
        while i < n
            invariant
                n == self@.len(),
                i <= n,
                forall|j: int| 0 <= j < i ==> !(#[trigger] self@[j]).covers(a),
            decreases n - i,
        {
            let c = &self.chunks[i];
            if c.start <= a && a < c.end {
                return Some(i);
            }
            i = i + 1;
        }
        // no chunk covers `a`: look for the nearest freed chunk
        let mut best: Option<usize> = None;
        let mut best_dist: u64 = 0;
        i = 0;
        while i < n
            invariant
                n == self@.len(),
                i <= n,
                registry_wf(self@),
                !some_chunk_covers(self@, a),
                match best {
                    Some(b) => {
                        &&& b < i <= n
                        &&& !self@[b as int].is_live()
                        &&& best_dist == self@[b as int].dist_to(a)
                        &&& forall|j: int|
                            0 <= j < i && !(#[trigger] self@[j]).is_live()
                                ==> self@[b as int].dist_to(a) < self@[j].dist_to(a)
                                || (self@[b as int].dist_to(a) == self@[j].dist_to(a) && b <= j)
                    },
                    None => forall|j: int| 0 <= j < i ==> (#[trigger] self@[j]).is_live(),
                },
            decreases n - i,
        {
            let c = &self.chunks[i];
            proof {
                if self@[i as int].covers(a) {
                    assert(some_chunk_covers(self@, a));
                }
                assert(self@[i as int].start < self@[i as int].end);
            }
            if c.free_ctx.is_some() {
                let d: u64 = if a < c.start {
                    c.start - a
                } else {
                    // `a` is not covered by any chunk, so `a >= c.end`
                    a - c.end + 1
                };
                proof {
                    assert(d == self@[i as int].dist_to(a));
                }
                match best {
                    Some(_) => {
                        if d < best_dist {
                            best = Some(i);
                            best_dist = d;
                        }
                    },
                    None => {
                        best = Some(i);
                        best_dist = d;
                    },
                }
            }
            i = i + 1;
        }
        best
    }

    /// Whether `[start, end)` shares an address with some live chunk.
    pub fn overlaps_any_live(&self, start: u64, end: u64) -> (r: bool)
        ensures
            r == overlaps_live(self@, start, end),
    {
        let n = self.chunks.len();
        let mut i: usize = 0;
        while i < n
            invariant
                n == self@.len(),
                i <= n,
                forall|j: int|
                    0 <= j < i ==> !((#[trigger] self@[j]).is_live() && ranges_overlap(
                        self@[j].start,
                        self@[j].end,
                        start,
                        end,
                    )),
            decreases n - i,
        {
            let c = &self.chunks[i];
            if c.free_ctx.is_none() && c.start < end && start < c.end {
                proof {
                    assert(self@[i as int].is_live() && ranges_overlap(
                        self@[i as int].start,
                        self@[i as int].end,
                        start,
                        end,
                    ));
                }
                return true;
            }
            i = i + 1;
        }
        false
    }

    /// Mark the live chunk starting exactly at `addr` as freed, handing back
    /// its interval; a free of any other address is refused untouched.
    pub fn mark_freed(&mut self, addr: u64, ctx: CallContext) -> (r: Option<(u64, u64)>)
        requires
            registry_wf(old(self)@),
        ensures
            registry_wf(final(self)@),
            r.is_some() <==> live_chunk_starts_at(old(self)@, addr),
            match r {
                Some(bounds) => exists|i: int|
                    {
                        &&& 0 <= i < old(self)@.len()
                        &&& (#[trigger] old(self)@[i]).is_live()
                        &&& old(self)@[i].start == addr
                        &&& bounds == (old(self)@[i].start, old(self)@[i].end)
                        &&& final(self)@ == old(self)@.update(i, old(self)@[i].freed_with(ctx))
                    },
                None => final(self)@ == old(self)@,
            },
    {
        let n = self.chunks.len();
        let mut i: usize = 0;
        while i < n
            invariant
                n == self@.len(),
                i <= n,
                self@ == old(self)@,
                registry_wf(self@),
                forall|j: int|
                    0 <= j < i ==> !((#[trigger] self@[j]).is_live() && self@[j].start == addr),
            decreases n - i,
        {
            let live = self.chunks[i].free_ctx.is_none();
            if live && self.chunks[i].start == addr {
                let end = self.chunks[i].end;
                let ghost olds = self@;
                let ghost oldc = self@[i as int];
                let elem = &mut self.chunks[i];
                elem.free_ctx = Some(ctx);
                proof {
                    assert(self@ =~= olds.update(i as int, oldc.freed_with(ctx)));
                    assert(live_chunk_starts_at(olds, addr));
                    assert((i as int) < olds.len());
                    assert(olds[i as int].is_live());
                    assert(olds[i as int].start == addr);
                    assert((addr, end) == (olds[i as int].start, olds[i as int].end));
                    assert(self@ == olds.update(i as int, olds[i as int].freed_with(ctx)));
                    assert forall|x: int, y: int|
                        0 <= x < self@.len() && 0 <= y < self@.len() && x != y && (
                        #[trigger] self@[x]).is_live() && (#[trigger] self@[y]).is_live() implies
                        !ranges_overlap(
                        self@[x].start,
                        self@[x].end,
                        self@[y].start,
                        self@[y].end,
                    ) by {
                        assert(olds[x].is_live() && olds[y].is_live());
                    }
                }
                return Some((addr, end));
            }
            i = i + 1;
        }
        proof {
            assert(!live_chunk_starts_at(self@, addr));
        }
        None
    }

    /// Drop every chunk whose interval lies entirely inside `[start, end]`;
    /// a run reset uses the full address range and empties the registry.
    pub fn remove_range(&mut self, start: u64, end: u64)
        ensures
            final(self)@ == old(self)@.filter(survives_removal(start, end)),
    {
        let ghost p = survives_removal(start, end);
        let mut i: usize = 0;
        let ghost mut j: int = 0;
        proof {
            reveal_with_fuel(Seq::filter, 1);
            assert(old(self)@.take(0).filter(p) =~= Seq::<ChunkInfo>::empty());
            assert(self@ =~= old(self)@.take(0).filter(p) + old(self)@.skip(0));
        }
        while i < self.chunks.len()
            invariant
                0 <= j <= old(self)@.len(),
                p == survives_removal(start, end),
                i == old(self)@.take(j).filter(p).len(),
                self@ =~= old(self)@.take(j).filter(p) + old(self)@.skip(j),
                self@.len() == old(self)@.len() - j + i,
            decreases old(self)@.len() - j,
        {
            proof {
                reveal_with_fuel(Seq::filter, 2);
                let pre = old(self)@.take(j);
                let cur = old(self)@.take(j + 1);
                assert(cur.drop_last() =~= pre);
                assert(cur.last() == old(self)@[j]);
                assert(self@[i as int] == old(self)@[j]);
            }
            let s = self.chunks[i].start;
            let e = self.chunks[i].end;
            if start <= s && e <= end {
                self.chunks.remove(i);
                proof {
                    assert(self@ =~= old(self)@.take(j + 1).filter(p) + old(self)@.skip(j + 1));
                    j = j + 1;
                }
            } else {
                i = i + 1;
                proof {
                    assert(self@ =~= old(self)@.take(j + 1).filter(p) + old(self)@.skip(j + 1));
                    j = j + 1;
                }
            }
        }
        proof {
            assert(old(self)@.take(old(self)@.len() as int) =~= old(self)@);
            assert(old(self)@.skip(old(self)@.len() as int) =~= Seq::<ChunkInfo>::empty());
            assert(self@ =~= old(self)@.filter(p));
        }
    }
}

} // verus!
