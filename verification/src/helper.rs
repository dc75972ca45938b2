//! The sanitizer helper: enable/disable state, the instrumentation filter,
//! and the access-check entry points that tie the shadow map and the
//! allocation registry together.
//!
//! Every entry point takes plain values (guest address, size, program
//! counter, stack pointer) and returns an optional report; the embedder
//! registers the hooks, reads the registers, writes reports to its sink and
//! terminates the run.

use vstd::prelude::*;
use crate::registry::{
    AllocRegistry, CallContext, ChunkInfo, first_covering_ok, live_chunk_starts_at, overlaps_live,
    registry_wf, search_ok, some_chunk_covers, survives_removal,
};
use crate::report::{
    AccessCause, AccessKind, AccessViolation, AsanReport, ChunkSnapshot, snapshot_of,
};
use crate::shadow::{PoisonKind, ShadowMap, all_valid, byte_ok, spec_poison, spec_unpoison};

verus! {

/// Redzone width, in bytes, placed on each side of a tracked allocation.
pub const REDZONE_SIZE: u64 = 8;

/// Decides, at translation time, which instruction addresses get
/// instrumented at all.
pub enum QemuInstrumentationFilter {
    All,
    AllowList(Vec<(u64, u64)>),
    DenyList(Vec<(u64, u64)>),
}

/// Whether `a` falls in one of the half-open ranges of `rs`.
pub open spec fn in_some_range(rs: Seq<(u64, u64)>, a: u64) -> bool {
    exists|i: int| 0 <= i < rs.len() && (#[trigger] rs[i]).0 <= a < rs[i].1
}

impl QemuInstrumentationFilter {
    /// Whether address `a` should be instrumented under this filter.
    pub open spec fn spec_allowed(&self, a: u64) -> bool {
        match self {
            QemuInstrumentationFilter::All => true,
            QemuInstrumentationFilter::AllowList(rs) => in_some_range(rs@, a),
            QemuInstrumentationFilter::DenyList(rs) => !in_some_range(rs@, a),
        }
    }

    /// Decide instrumentation for address `a`.
    pub fn allowed(&self, a: u64) -> (r: bool)
        ensures
            r == self.spec_allowed(a),
    {
        match self {
            QemuInstrumentationFilter::All => true,
            QemuInstrumentationFilter::AllowList(rs) => Self::range_scan(rs, a),
            QemuInstrumentationFilter::DenyList(rs) => !Self::range_scan(rs, a),
        }
    }

    /// Whether `a` falls in one of the listed ranges.
    fn range_scan(rs: &Vec<(u64, u64)>, a: u64) -> (r: bool)
        ensures
            r == in_some_range(rs@, a),
    {
        let n = rs.len();
        let mut i: usize = 0;
        while i < n
            invariant
                n == rs@.len(),
                i <= n,
                forall|j: int| 0 <= j < i ==> !((#[trigger] rs@[j]).0 <= a < rs@[j].1),
            decreases n - i,
        {
            let lo = rs[i].0;
            let hi = rs[i].1;
            if lo <= a && a < hi {
                proof {
                    assert(rs@[i as int].0 <= a < rs@[i as int].1);
                }
                return true;
            }
            i = i + 1;
        }
        false
    }
}

/// Registry invariant the helper maintains on its own chunks: well-formed,
/// and every interval stays clear of the last seven bytes of the address
/// space so the freed-payload poison can round up to a cell boundary.
pub open spec fn chunks_wf(s: Seq<ChunkInfo>) -> bool {
    &&& registry_wf(s)
    &&& forall|i: int| 0 <= i < s.len() ==> (#[trigger] s[i]).end + 7 <= u64::MAX
}

/// Process-wide sanitizer state: the shadow map and the allocation registry.
/// Created once at start-up and handed to the helper; there is no global.
pub struct SanitizerRuntime {
    shadow: ShadowMap,
    registry: AllocRegistry,
}

impl SanitizerRuntime {
    /// The shadow map's abstract contents.
    pub closed spec fn shadow_view(&self) -> Map<u64, u8> {
        self.shadow@
    }

    /// The tracked chunks, in insertion order.
    pub closed spec fn chunks(&self) -> Seq<ChunkInfo> {
        self.registry@
    }

    /// Fresh runtime: an all-valid shadow map and an empty registry.
    pub fn init() -> (rt: Self)
        ensures
            rt.shadow_view() == all_valid(),
            rt.chunks() == Seq::<ChunkInfo>::empty(),
            chunks_wf(rt.chunks()),
    {
        SanitizerRuntime { shadow: ShadowMap::new(), registry: AllocRegistry::new() }
    }
}

/// Round `a` down to its cell base.
pub open spec fn align_down_8(a: int) -> int {
    a - a % 8
}

/// Round `a` up to the next cell boundary.
pub open spec fn align_up_8(a: int) -> int {
    if a % 8 == 0 {
        a
    } else {
        a + 8 - a % 8
    }
}

/// The poison length actually applied for a request at `addr`: requests
/// running past the top of the address space are clamped to it.
pub open spec fn clamped_len(addr: u64, size: u64) -> u64 {
    if addr + size > u64::MAX {
        (u64::MAX - addr) as u64
    } else {
        size
    }
}

/// The shadow map after registering a chunk `[start, end)`: redzones of
/// width `rz` poisoned on both sides (widened outward to cell boundaries)
/// and the payload unpoisoned last.
pub open spec fn spec_alloc_shadow(m: Map<u64, u8>, start: u64, end: u64, rz: u64) -> Map<u64, u8>
    recommends
        rz <= start,
        start < end,
        end + rz + 7 <= u64::MAX,
{
    let lo = align_down_8(start - rz) as u64;
    let hi = align_up_8(end + rz) as u64;
    let m1 = spec_poison(m, lo, (start - lo) as u64, PoisonKind::HeapLeftRz.as_byte());
    let m2 = spec_poison(m1, end, (hi - end) as u64, PoisonKind::HeapRightRz.as_byte());
    spec_unpoison(m2, start, (end - start) as u64)
}

/// The shadow map after freeing the payload `[start, end)`: poisoned as
/// freed-heap memory, rounded up to a cell boundary so every payload byte
/// fails the check afterwards.
pub open spec fn spec_free_shadow(m: Map<u64, u8>, start: u64, end: u64) -> Map<u64, u8>
    recommends
        start < end,
        end + 7 <= u64::MAX,
{
    spec_poison(m, start, (align_up_8(end as int) - start) as u64, PoisonKind::HeapFreed.as_byte())
}

/// Whether a chunk registration request takes effect: a nonempty interval
/// with room for both redzones, overlapping no live chunk.
pub open spec fn alloc_applies(s: Seq<ChunkInfo>, start: u64, end: u64) -> bool {
    &&& start < end
    &&& REDZONE_SIZE <= start
    &&& end + REDZONE_SIZE + 7 <= u64::MAX
    &&& !overlaps_live(s, start, end)
}

/// Whether the range `[addr, addr+size)` holds at least one inaccessible
/// byte; a range past the top of the address space counts as poisoned.
pub open spec fn spec_is_poisoned(m: Map<u64, u8>, addr: u64, size: u64) -> bool {
    if addr + size > u64::MAX {
        true
    } else {
        exists|a: u64| addr <= a < addr + size && !(#[trigger] byte_ok(m, a))
    }
}

/// Whether `sn` is the chunk a report at address `a` must blame: the first
/// chunk covering `a`, else the nearest quarantined chunk, else nothing.
pub open spec fn chunk_ok(s: Seq<ChunkInfo>, a: u64, sn: Option<ChunkSnapshot>) -> bool {
    match sn {
        Some(snap) => exists|i: int| #[trigger]
            search_ok(s, a, Some(i)) && snap == snapshot_of(s[i]),
        None => search_ok(s, a, None::<int>),
    }
}

/// What the access-check entry points promise: nothing when disabled; a
/// translation report when the range does not fit the address space; else
/// a report naming the first inaccessible byte, or no report at all.
pub open spec fn report_for_access(
    h: QemuAsanHelper,
    kind: AccessKind,
    addr: u64,
    size: u64,
    pc: u64,
    sp: u64,
    r: Option<AsanReport>,
) -> bool {
    if !h.spec_enabled() {
        r is None
    } else if addr + size > u64::MAX {
        exists|sn: Option<ChunkSnapshot>| #![auto]
            chunk_ok(h.chunks(), addr, sn) && r == Some(
                AsanReport::Access(
                    AccessViolation {
                        kind,
                        cause: AccessCause::AddressTranslation,
                        addr,
                        size,
                        fault_offset: 0,
                        pc,
                        sp,
                        chunk: sn,
                    },
                ),
            )
    } else {
        match r {
            None => forall|a: u64| addr <= a < addr + size ==> byte_ok(h.shadow_view(), a),
            Some(rep) => exists|off: u64, sn: Option<ChunkSnapshot>| #![auto]
                {
                    &&& off < size
                    &&& !byte_ok(h.shadow_view(), (addr + off) as u64)
                    &&& forall|a: u64| addr <= a < addr + off ==> byte_ok(h.shadow_view(), a)
                    &&& chunk_ok(h.chunks(), (addr + off) as u64, sn)
                    &&& rep == AsanReport::Access(
                        AccessViolation {
                            kind,
                            cause: AccessCause::ShadowCheck,
                            addr,
                            size,
                            fault_offset: off,
                            pc,
                            sp,
                            chunk: sn,
                        },
                    )
                },
        }
    }
}

/// The per-emulator sanitizer helper: the enable flag, the instrumentation
/// filter, the thread id recorded in fresh call contexts, and the runtime it
/// owns.
pub struct QemuAsanHelper {
    enabled: bool,
    filter: QemuInstrumentationFilter,
    tid: i32,
    rt: SanitizerRuntime,
}

impl QemuAsanHelper {
    /// Whether checks are currently performed.
    pub closed spec fn spec_enabled(&self) -> bool {
        self.enabled
    }

    /// The instrumentation filter.
    pub closed spec fn spec_filter(&self) -> QemuInstrumentationFilter {
        self.filter
    }

    /// The thread id recorded in call contexts.
    pub closed spec fn spec_tid(&self) -> i32 {
        self.tid
    }

    /// The shadow map's contents.
    pub closed spec fn shadow_view(&self) -> Map<u64, u8> {
        self.rt.shadow_view()
    }

    /// The tracked chunks.
    pub closed spec fn chunks(&self) -> Seq<ChunkInfo> {
        self.rt.chunks()
    }

    /// A helper over a fresh or inherited runtime, enabled, instrumenting
    /// everything.
    pub fn new(rt: SanitizerRuntime) -> (h: Self)
        ensures
            h.spec_enabled(),
            h.spec_filter() is All,
            h.spec_tid() == 0,
            h.shadow_view() == rt.shadow_view(),
            h.chunks() == rt.chunks(),
    {
        QemuAsanHelper { enabled: true, filter: QemuInstrumentationFilter::All, tid: 0, rt }
    }

    /// A helper with a chosen instrumentation filter.
    pub fn with_instrumentation_filter(rt: SanitizerRuntime, filter: QemuInstrumentationFilter) -> (h:
        Self)
        ensures
            h.spec_enabled(),
            h.spec_filter() == filter,
            h.spec_tid() == 0,
            h.shadow_view() == rt.shadow_view(),
            h.chunks() == rt.chunks(),
    {
        QemuAsanHelper { enabled: true, filter, tid: 0, rt }
    }

    /// Record the emulation thread's id, as the embedder knows it, for the
    /// call contexts of later allocations and frees.
    pub fn set_thread_id(&mut self, tid: i32)
        ensures
            final(self).spec_tid() == tid,
            final(self).spec_enabled() == old(self).spec_enabled(),
            final(self).spec_filter() == old(self).spec_filter(),
            final(self).shadow_view() == old(self).shadow_view(),
            final(self).chunks() == old(self).chunks(),
    {
        self.tid = tid;
    }

    /// Whether the filter instruments address `addr`.
    pub fn must_instrument(&self, addr: u64) -> (r: bool)
        ensures
            r == self.spec_filter().spec_allowed(addr),
    {
        self.filter.allowed(addr)
    }

    /// Whether checks are currently performed.
    pub fn enabled(&self) -> (r: bool)
        ensures
            r == self.spec_enabled(),
    {
        self.enabled
    }

    /// Turn checking on or off.
    pub fn set_enabled(&mut self, enabled: bool)
        ensures
            final(self).spec_enabled() == enabled,
            final(self).spec_filter() == old(self).spec_filter(),
            final(self).spec_tid() == old(self).spec_tid(),
            final(self).shadow_view() == old(self).shadow_view(),
            final(self).chunks() == old(self).chunks(),
    {
        self.enabled = enabled;
    }

    /// Register allocation `[start, end)`: record the chunk with a fresh
    /// context, poison both redzones and unpoison the payload.  A request
    /// with no room for its interval or redzones, or overlapping a live
    /// chunk, leaves the helper untouched.
    pub fn allocate(&mut self, start: u64, end: u64)
        requires
            chunks_wf(old(self).chunks()),
        ensures
            chunks_wf(final(self).chunks()),
            final(self).spec_enabled() == old(self).spec_enabled(),
            final(self).spec_filter() == old(self).spec_filter(),
            final(self).spec_tid() == old(self).spec_tid(),
            if alloc_applies(old(self).chunks(), start, end) {
                &&& final(self).shadow_view() == spec_alloc_shadow(
                    old(self).shadow_view(),
                    start,
                    end,
                    REDZONE_SIZE,
                )
                &&& exists|ctx: CallContext|
                    {
                        &&& (#[trigger] ctx.tid) == old(self).spec_tid()
                        &&& ctx.addresses@ == Seq::<u64>::empty()
                        &&& ctx.size == 0
                        &&& final(self).chunks() == old(self).chunks().push(
                            ChunkInfo { start, end, alloc_ctx: ctx, free_ctx: None },
                        )
                    }
            } else {
                &&& final(self).shadow_view() == old(self).shadow_view()
                &&& final(self).chunks() == old(self).chunks()
            },
    {
        if !(start < end && start >= REDZONE_SIZE && end <= u64::MAX - REDZONE_SIZE - 7) {
            return;
        }
        if self.rt.registry.overlaps_any_live(start, end) {
            return;
        }
        let ctx = CallContext { tid: self.tid, addresses: Vec::new(), size: 0 };
        let ghost gctx = ctx;
        proof {
            assert(gctx.addresses@ =~= Seq::<u64>::empty());
        }
        self.rt.registry.insert(start, end, ctx);
        proof {
            assert(self.chunks() == old(self).chunks().push(
                ChunkInfo { start, end, alloc_ctx: gctx, free_ctx: None },
            ));
        }
        let lo = 8 * ((start - REDZONE_SIZE) / 8);
        proof {
            crate::shadow::lemma_div8((start - REDZONE_SIZE) as u64);
            assert(lo == align_down_8((start - REDZONE_SIZE) as int));
        }
        self.rt.shadow.poison(lo, start - lo, PoisonKind::HeapLeftRz.to_byte());
        let hi = align_up8(end + REDZONE_SIZE);
        self.rt.shadow.poison(end, hi - end, PoisonKind::HeapRightRz.to_byte());
        self.rt.shadow.unpoison(start, end - start);
        proof {
            assert(self.shadow_view() == spec_alloc_shadow(
                old(self).shadow_view(),
                start,
                end,
                REDZONE_SIZE,
            ));
            assert forall|i: int| 0 <= i < self.chunks().len() implies (#[trigger] self.chunks()[
                i
            ]).end + 7 <= u64::MAX by {
                if i < old(self).chunks().len() {
                    assert(self.chunks()[i] == old(self).chunks()[i]);
                }
            }
            assert(gctx.tid == old(self).spec_tid() && gctx.addresses@ == Seq::<u64>::empty()
                && gctx.size == 0 && self.chunks() == old(self).chunks().push(
                ChunkInfo { start, end, alloc_ctx: gctx, free_ctx: None },
            ));
        }
    }

    /// Free the live chunk starting exactly at `addr`: record the free
    /// context and poison the payload as freed memory.  Any other address is
    /// a bad free, reported and leaving the state untouched.
    pub fn dealloc(&mut self, addr: u64, pc: u64) -> (r: Option<AsanReport>)
        requires
            chunks_wf(old(self).chunks()),
        ensures
            chunks_wf(final(self).chunks()),
            final(self).spec_enabled() == old(self).spec_enabled(),
            final(self).spec_filter() == old(self).spec_filter(),
            final(self).spec_tid() == old(self).spec_tid(),
            if live_chunk_starts_at(old(self).chunks(), addr) {
                &&& r is None
                &&& exists|i: int, ctx: CallContext| #![auto]
                    {
                        &&& 0 <= i < old(self).chunks().len()
                        &&& old(self).chunks()[i].is_live()
                        &&& old(self).chunks()[i].start == addr
                        &&& ctx.tid == old(self).spec_tid()
                        &&& ctx.addresses@ == Seq::<u64>::empty()
                        &&& ctx.size == 0
                        &&& final(self).chunks() == old(self).chunks().update(
                            i,
                            old(self).chunks()[i].freed_with(ctx),
                        )
                        &&& final(self).shadow_view() == spec_free_shadow(
                            old(self).shadow_view(),
                            addr,
                            old(self).chunks()[i].end,
                        )
                    }
            } else {
                &&& r == Some(AsanReport::BadFree { addr, pc })
                &&& final(self).shadow_view() == old(self).shadow_view()
                &&& final(self).chunks() == old(self).chunks()
            },
    {
        let ctx = CallContext { tid: self.tid, addresses: Vec::new(), size: 0 };
        let ghost gctx = ctx;
        proof {
            assert(gctx.addresses@ =~= Seq::<u64>::empty());
        }
        match self.rt.registry.mark_freed(addr, ctx) {
            Some(bounds) => {
                let end = bounds.1;
                let ghost s = old(self).chunks();
                let ghost w = choose|i: int|
                    {
                        &&& 0 <= i < s.len()
                        &&& (#[trigger] s[i]).is_live()
                        &&& s[i].start == addr
                        &&& bounds == (s[i].start, s[i].end)
                        &&& self.rt.registry@ == s.update(i, s[i].freed_with(gctx))
                    };
                proof {
                    assert(s[w].end + 7 <= u64::MAX);
                    assert(end == s[w].end);
                }
                let hi = align_up8(end);
                self.rt.shadow.poison(addr, hi - addr, PoisonKind::HeapFreed.to_byte());
                proof {
                    let cur = self.rt.registry@;
                    assert forall|j: int| 0 <= j < cur.len() implies (#[trigger] cur[j]).end + 7
                        <= u64::MAX by {
                        if j != w {
                            assert(cur[j] == s[j]);
                        }
                    }
                    assert(self.shadow_view() == spec_free_shadow(
                        old(self).shadow_view(),
                        addr,
                        s[w].end,
                    ));
                }
                None
            },
            None => Some(AsanReport::BadFree { addr, pc }),
        }
    }

    /// Poison `[addr, addr+size)` with the given tag, clamped to the top of
    /// the address space.
    pub fn poison(&mut self, addr: u64, size: u64, poison: PoisonKind)
        ensures
            final(self).shadow_view() == spec_poison(
                old(self).shadow_view(),
                addr,
                clamped_len(addr, size),
                poison.as_byte(),
            ),
            final(self).chunks() == old(self).chunks(),
            final(self).spec_enabled() == old(self).spec_enabled(),
            final(self).spec_filter() == old(self).spec_filter(),
            final(self).spec_tid() == old(self).spec_tid(),
    {
        let n: u64 = if size > u64::MAX - addr {
            u64::MAX - addr
        } else {
            size
        };
        self.rt.shadow.poison(addr, n, poison.to_byte());
    }

    /// Unpoison `[addr, addr+size)`, clamped to the top of the address
    /// space.
    pub fn unpoison(&mut self, addr: u64, size: u64)
        ensures
            final(self).shadow_view() == spec_unpoison(
                old(self).shadow_view(),
                addr,
                clamped_len(addr, size),
            ),
            final(self).chunks() == old(self).chunks(),
            final(self).spec_enabled() == old(self).spec_enabled(),
            final(self).spec_filter() == old(self).spec_filter(),
            final(self).spec_tid() == old(self).spec_tid(),
    {
        let n: u64 = if size > u64::MAX - addr {
            u64::MAX - addr
        } else {
            size
        };
        self.rt.shadow.unpoison(addr, n);
    }

    /// Whether `[addr, addr+size)` holds an inaccessible byte.  Pure: the
    /// helper is untouched, and the answer is a function of its state alone.
    pub fn is_poisoned(&self, addr: u64, size: u64) -> (r: bool)
        ensures
            r == spec_is_poisoned(self.shadow_view(), addr, size),
    {
        if size > u64::MAX - addr {
            // the range runs past the top of the address space
            return true;
        }
        match self.rt.shadow.check(addr, size) {
            Some(off) => {
                proof {
                    assert(!byte_ok(self.shadow_view(), (addr + off) as u64));
                }
                true
            },
            None => false,
        }
    }

    /// The chunk a report at `a` should cite.
    fn blame_chunk(&self, a: u64) -> (sn: Option<ChunkSnapshot>)
        requires
            registry_wf(self.chunks()),
        ensures
            chunk_ok(self.chunks(), a, sn),
    {
        match self.rt.registry.search(a) {
            Some(i) => {
                let snap = ChunkSnapshot::from_chunk(self.rt.registry.get(i));
                proof {
                    assert(search_ok(self.chunks(), a, Some(i as int)) && snap == snapshot_of(
                        self.chunks()[i as int],
                    ));
                }
                Some(snap)
            },
            None => None,
        }
    }

    /// The shared body of every access-check entry point.
    fn check_access(&mut self, kind: AccessKind, addr: u64, size: u64, pc: u64, sp: u64) -> (r:
        Option<AsanReport>)
        requires
            chunks_wf(old(self).chunks()),
        ensures
            *final(self) == *old(self),
            report_for_access(*old(self), kind, addr, size, pc, sp, r),
    {
        if !self.enabled {
            return None;
        }
        if size > u64::MAX - addr {
            let sn = self.blame_chunk(addr);
            return Some(
                AsanReport::Access(
                    AccessViolation {
                        kind,
                        cause: AccessCause::AddressTranslation,
                        addr,
                        size,
                        fault_offset: 0,
                        pc,
                        sp,
                        chunk: sn,
                    },
                ),
            );
        }
        match self.rt.shadow.check(addr, size) {
            None => None,
            Some(off) => {
                let sn = self.blame_chunk(addr + off);
                Some(
                    AsanReport::Access(
                        AccessViolation {
                            kind,
                            cause: AccessCause::ShadowCheck,
                            addr,
                            size,
                            fault_offset: off,
                            pc,
                            sp,
                            chunk: sn,
                        },
                    ),
                )
            },
        }
    }

    /// Check a 1-byte guest load.
    pub fn read_1(&mut self, addr: u64, pc: u64, sp: u64) -> (r: Option<AsanReport>)
        requires
            chunks_wf(old(self).chunks()),
        ensures
            *final(self) == *old(self),
            report_for_access(*old(self), AccessKind::Load, addr, 1, pc, sp, r),
    {
        self.check_access(AccessKind::Load, addr, 1, pc, sp)
    }

    /// Check a 2-byte guest load.
    pub fn read_2(&mut self, addr: u64, pc: u64, sp: u64) -> (r: Option<AsanReport>)
        requires
            chunks_wf(old(self).chunks()),
        ensures
            *final(self) == *old(self),
            report_for_access(*old(self), AccessKind::Load, addr, 2, pc, sp, r),
    {
        self.check_access(AccessKind::Load, addr, 2, pc, sp)
    }

    /// Check a 4-byte guest load.
    pub fn read_4(&mut self, addr: u64, pc: u64, sp: u64) -> (r: Option<AsanReport>)
        requires
            chunks_wf(old(self).chunks()),
        ensures
            *final(self) == *old(self),
            report_for_access(*old(self), AccessKind::Load, addr, 4, pc, sp, r),
    {
        self.check_access(AccessKind::Load, addr, 4, pc, sp)
    }

    /// Check an 8-byte guest load.
    pub fn read_8(&mut self, addr: u64, pc: u64, sp: u64) -> (r: Option<AsanReport>)
        requires
            chunks_wf(old(self).chunks()),
        ensures
            *final(self) == *old(self),
            report_for_access(*old(self), AccessKind::Load, addr, 8, pc, sp, r),
    {
        self.check_access(AccessKind::Load, addr, 8, pc, sp)
    }

    /// Check a guest load of arbitrary size.
    pub fn read_n(&mut self, addr: u64, size: u64, pc: u64, sp: u64) -> (r: Option<AsanReport>)
        requires
            chunks_wf(old(self).chunks()),
        ensures
            *final(self) == *old(self),
            report_for_access(*old(self), AccessKind::Load, addr, size, pc, sp, r),
    {
        self.check_access(AccessKind::Load, addr, size, pc, sp)
    }

    /// Check a 1-byte guest store.
    pub fn write_1(&mut self, addr: u64, pc: u64, sp: u64) -> (r: Option<AsanReport>)
        requires
            chunks_wf(old(self).chunks()),
        ensures
            *final(self) == *old(self),
            report_for_access(*old(self), AccessKind::Store, addr, 1, pc, sp, r),
    {
        self.check_access(AccessKind::Store, addr, 1, pc, sp)
    }

    /// Check a 2-byte guest store.
    pub fn write_2(&mut self, addr: u64, pc: u64, sp: u64) -> (r: Option<AsanReport>)
        requires
            chunks_wf(old(self).chunks()),
        ensures
            *final(self) == *old(self),
            report_for_access(*old(self), AccessKind::Store, addr, 2, pc, sp, r),
    {
        self.check_access(AccessKind::Store, addr, 2, pc, sp)
    }

    /// Check a 4-byte guest store.
    pub fn write_4(&mut self, addr: u64, pc: u64, sp: u64) -> (r: Option<AsanReport>)
        requires
            chunks_wf(old(self).chunks()),
        ensures
            *final(self) == *old(self),
            report_for_access(*old(self), AccessKind::Store, addr, 4, pc, sp, r),
    {
        self.check_access(AccessKind::Store, addr, 4, pc, sp)
    }

    /// Check an 8-byte guest store.
    pub fn write_8(&mut self, addr: u64, pc: u64, sp: u64) -> (r: Option<AsanReport>)
        requires
            chunks_wf(old(self).chunks()),
        ensures
            *final(self) == *old(self),
            report_for_access(*old(self), AccessKind::Store, addr, 8, pc, sp, r),
    {
        self.check_access(AccessKind::Store, addr, 8, pc, sp)
    }

    /// Check a guest store of arbitrary size.
    pub fn write_n(&mut self, addr: u64, size: u64, pc: u64, sp: u64) -> (r: Option<AsanReport>)
        requires
            chunks_wf(old(self).chunks()),
        ensures
            *final(self) == *old(self),
            report_for_access(*old(self), AccessKind::Store, addr, size, pc, sp, r),
    {
        self.check_access(AccessKind::Store, addr, size, pc, sp)
    }

    /// Per-run reset: empty the registry and restore the all-valid shadow
    /// baseline, so every address reads as accessible again.
    pub fn reset(&mut self)
        ensures
            final(self).chunks() == Seq::<ChunkInfo>::empty(),
            final(self).shadow_view() == all_valid(),
            forall|a: u64| byte_ok(final(self).shadow_view(), a),
            chunks_wf(final(self).chunks()),
            final(self).spec_enabled() == old(self).spec_enabled(),
            final(self).spec_filter() == old(self).spec_filter(),
            final(self).spec_tid() == old(self).spec_tid(),
    {
        self.rt.registry.remove_range(0, u64::MAX);
        self.rt.shadow.clear();
        proof {
            let p = survives_removal(0, u64::MAX);
            let filtered = old(self).chunks().filter(p);
            if filtered.len() > 0 {
                old(self).chunks().lemma_filter_pred(p, 0);
                assert(false);
            }
            assert(self.chunks() =~= Seq::<ChunkInfo>::empty());
        }
    }
}

impl Default for QemuAsanHelper {
    /// A helper over its own fresh runtime, enabled, instrumenting
    /// everything.
    fn default() -> (h: Self)
        ensures
            h.spec_enabled(),
            h.spec_filter() is All,
            h.spec_tid() == 0,
            h.shadow_view() == all_valid(),
            h.chunks() == Seq::<ChunkInfo>::empty(),
    {
        QemuAsanHelper::new(SanitizerRuntime::init())
    }
}

/// Boundary law: after registering a chunk with aligned payload start, every
/// byte of both redzones fails the check and every payload byte passes it.
pub proof fn lemma_alloc_boundary(m: Map<u64, u8>, start: u64, end: u64, rz: u64, a: u64)
    requires
        start % 8 == 0,
        1 <= rz <= start,
        start < end,
        end + rz + 7 <= u64::MAX,
    ensures
        start - rz <= a < start ==> !byte_ok(spec_alloc_shadow(m, start, end, rz), a),
        start <= a < end ==> byte_ok(spec_alloc_shadow(m, start, end, rz), a),
        end <= a < end + rz ==> !byte_ok(spec_alloc_shadow(m, start, end, rz), a),
{
    let lo = align_down_8((start - rz) as int) as u64;
    let hi = align_up_8((end + rz) as int) as u64;
    let c = (a / 8) as int;
    crate::shadow::lemma_div8(a);
    crate::shadow::lemma_div8(start);
    crate::shadow::lemma_div8(end);
    crate::shadow::lemma_div8((start - rz) as u64);
    crate::shadow::lemma_div8((end + rz) as u64);
    assert(lo % 8 == 0 && lo <= start - rz && start - rz <= lo + 7) by (nonlinear_arith)
        requires
            lo == (start - rz) - (start - rz) % 8,
            (start - rz) % 8 == (start - rz) - 8 * ((start - rz) as u64 / 8),
            (start - rz) % 8 < 8,
    ;
    assert(hi % 8 == 0 && end + rz <= hi && hi <= end + rz + 7) by (nonlinear_arith)
        requires
            hi == (if (end + rz) % 8 == 0 { (end + rz) as int } else {
                end + rz + 8 - (end + rz) % 8
            }),
            (end + rz) % 8 == (end + rz) - 8 * ((end + rz) as u64 / 8),
            (end + rz) % 8 < 8,
    ;
    let m1 = spec_poison(m, lo, (start - lo) as u64, PoisonKind::HeapLeftRz.as_byte());
    let m2 = spec_poison(m1, end, (hi - end) as u64, PoisonKind::HeapRightRz.as_byte());
    let m3 = spec_unpoison(m2, start, (end - start) as u64);
    assert(spec_alloc_shadow(m, start, end, rz) == m3);
    assert(8 * c <= a < 8 * c + 8 && a % 8 == a - 8 * c);
    if start - rz <= a < start {
        // a sits in a fully covered left-redzone cell
        assert(lo <= 8 * c && 8 * c + 8 <= start) by (nonlinear_arith)
            requires
                lo % 8 == 0,
                start % 8 == 0,
                lo <= a < start,
                8 * c <= a < 8 * c + 8,
        ;
        assert(m1[a / 8] == PoisonKind::HeapLeftRz.as_byte());
        assert(!crate::shadow::cell_overlaps(end as int, hi as int, c));
        assert(m2[a / 8] == m1[a / 8]);
        assert(!crate::shadow::cell_overlaps(start as int, end as int, c)) by (nonlinear_arith)
            requires
                start % 8 == 0,
                8 * c + 8 <= start,
        ;
        assert(m3[a / 8] == m2[a / 8]);
        assert(!byte_ok(m3, a));
    } else if start <= a < end {
        // the payload is unpoisoned last
        assert(crate::shadow::cell_overlaps(start as int, end as int, c)) by (nonlinear_arith)
            requires
                start <= a < end,
                8 * c <= a < 8 * c + 8,
        ;
        if end % 8 != 0 && c == end as int / 8 {
            assert(m3[a / 8] == (end % 8) as u8);
            assert(a % 8 < end % 8) by (nonlinear_arith)
                requires
                    a < end,
                    a / 8 == end / 8,
                    a % 8 == a - 8 * (a / 8),
                    end % 8 == end - 8 * (end / 8),
            ;
            assert(byte_ok(m3, a));
        } else {
            assert(m3[a / 8] == 0u8);
        }
    } else if end <= a < end + rz {
        if c == end as int / 8 && end % 8 != 0 {
            // shares the payload's final cell: partial tag, offset too high
            assert(crate::shadow::cell_overlaps(start as int, end as int, c)) by (nonlinear_arith)
                requires
                    start < end,
                    end % 8 != 0,
                    c == end as int / 8,
                    end % 8 == end - 8 * (end / 8),
                    start % 8 == 0,
                    start % 8 == start - 8 * (start / 8),
            ;
            assert(m3[a / 8] == (end % 8) as u8);
            assert(a % 8 >= end % 8) by (nonlinear_arith)
                requires
                    end <= a,
                    a / 8 == end / 8,
                    a % 8 == a - 8 * (a / 8),
                    end % 8 == end - 8 * (end / 8),
            ;
            assert(!byte_ok(m3, a));
        } else {
            // a fully covered right-redzone cell
            assert(end <= 8 * c && 8 * c + 8 <= hi) by (nonlinear_arith)
                requires
                    end <= a < end + rz,
                    end + rz <= hi,
                    hi % 8 == 0,
                    8 * c <= a < 8 * c + 8,
                    a % 8 == a - 8 * c,
                    end % 8 == end - 8 * (end / 8),
                    end % 8 < 8,
                    !(c == end as int / 8 && end % 8 != 0),
            ;
            assert(m2[a / 8] == PoisonKind::HeapRightRz.as_byte());
            assert(!crate::shadow::cell_overlaps(start as int, end as int, c)) by (nonlinear_arith)
                requires
                    end <= 8 * c,
            ;
            assert(m3[a / 8] == m2[a / 8]);
            assert(!byte_ok(m3, a));
        }
    }
}

/// Use-after-free law, shadow half: once a payload is poisoned as freed
/// memory, every byte of it fails the check, whatever the shadow held
/// before.
pub proof fn lemma_use_after_free_shadow(m: Map<u64, u8>, start: u64, end: u64, a: u64)
    requires
        start < end,
        end + 7 <= u64::MAX,
        start <= a < end,
    ensures
        !byte_ok(spec_free_shadow(m, start, end), a),
{
    let hi = align_up_8(end as int) as u64;
    let c = (a / 8) as int;
    crate::shadow::lemma_div8(a);
    crate::shadow::lemma_div8(end);
    assert(hi % 8 == 0 && end <= hi && hi <= end + 7) by (nonlinear_arith)
        requires
            hi == (if end % 8 == 0 { end as int } else { end + 8 - end % 8 }),
            end % 8 == end - 8 * (end as u64 / 8),
            end % 8 < 8,
    ;
    let p = spec_free_shadow(m, start, end);
    assert(8 * c <= a < 8 * c + 8 && a % 8 == a - 8 * c);
    assert(crate::shadow::cell_overlaps(start as int, hi as int, c)) by (nonlinear_arith)
        requires
            start <= a < end,
            end <= hi,
            8 * c <= a < 8 * c + 8,
    ;
    if start <= 8 * c && 8 * c + 8 <= hi {
        assert(p[a / 8] == PoisonKind::HeapFreed.as_byte());
        assert(!byte_ok(p, a));
    } else {
        // the head cell: the range starts inside it and runs past it
        assert(8 * c < start && 8 * c + 8 <= hi) by (nonlinear_arith)
            requires
                start <= a,
                8 * c <= a < 8 * c + 8,
                a < end,
                end <= hi,
                hi % 8 == 0,
                !(start <= 8 * c && 8 * c + 8 <= hi),
        ;
        if m[a / 8] >= 8 {
            assert(p[a / 8] == m[a / 8]);
            assert(!byte_ok(p, a));
        } else {
            assert(p[a / 8] == (start % 8) as u8);
            assert(a % 8 >= start % 8 && 0 < start % 8 < 8) by (nonlinear_arith)
                requires
                    start <= a,
                    8 * c < start,
                    8 * c <= a < 8 * c + 8,
                    a % 8 == a - 8 * c,
                    start % 8 == start - 8 * (start / 8),
                    start / 8 == c,
            ;
            assert(!byte_ok(p, a));
        }
    }
}

/// Use-after-free law, registry half: after registering `[start, end)` on a
/// registry none of whose chunks covers `a`, and then freeing it with
/// context `fctx`, the chunk any report at `a` cites is that chunk, carrying
/// `fctx`'s thread id and size.
pub proof fn lemma_use_after_free_report(
    s0: Seq<ChunkInfo>,
    start: u64,
    end: u64,
    actx: CallContext,
    fctx: CallContext,
    a: u64,
)
    requires
        start < end,
        start <= a < end,
        forall|j: int| 0 <= j < s0.len() ==> !(#[trigger] s0[j]).covers(a),
    ensures
        ({
            let s = s0.push(ChunkInfo { start, end, alloc_ctx: actx, free_ctx: None }).update(
                s0.len() as int,
                ChunkInfo { start, end, alloc_ctx: actx, free_ctx: Some(fctx) },
            );
            forall|sn: Option<crate::report::ChunkSnapshot>|
                chunk_ok(s, a, sn) ==> (sn matches Some(snap) && snap.free_ctx == Some(
                    crate::report::CtxSnapshot { tid: fctx.tid, size: fctx.size },
                ) && snap.start == start && snap.end == end)
        }),
{
    let n = s0.len() as int;
    let ch = ChunkInfo { start, end, alloc_ctx: actx, free_ctx: Some(fctx) };
    let s = s0.push(ChunkInfo { start, end, alloc_ctx: actx, free_ctx: None }).update(n, ch);
    assert(s.len() == n + 1);
    assert(s[n] == ch);
    assert(s[n].covers(a));
    assert(some_chunk_covers(s, a));
    assert forall|sn: Option<crate::report::ChunkSnapshot>| chunk_ok(s, a, sn) implies (sn matches
        Some(snap) && snap.free_ctx == Some(
        crate::report::CtxSnapshot { tid: fctx.tid, size: fctx.size },
    ) && snap.start == start && snap.end == end) by {
        match sn {
            Some(snap) => {
                let i = choose|i: int| #[trigger]
                    search_ok(s, a, Some(i)) && snap == snapshot_of(s[i]);
                assert(first_covering_ok(s, a, i));
                assert forall|j: int| 0 <= j < n implies !(#[trigger] s[j]).covers(a) by {
                    assert(s[j] == s0[j]);
                }
                assert(i == n);
                assert(snap == snapshot_of(ch));
            },
            None => {
                assert(search_ok(s, a, None::<int>));
                assert(false);
            },
        }
    }
}

/// Round up to the next cell boundary.
fn align_up8(a: u64) -> (r: u64)
    requires
        a + 7 <= u64::MAX,
    ensures
        r == align_up_8(a as int),
        r % 8 == 0,
        a <= r <= a + 7,
{
    proof {
        crate::shadow::lemma_div8(a);
    }
    if a % 8 == 0 {
        a
    } else {
        let r = a + (8 - a % 8);
        proof {
            assert(r % 8 == 0) by (nonlinear_arith)
                requires r == a + 8 - a % 8, a % 8 == a - 8 * (a / 8), 0 < a % 8 < 8;
        }
        r
    }
}

} // verus!
