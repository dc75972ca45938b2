//! Registry behaviour: insertion, search, bad frees, quarantine, reset, and
//! the hook bindings and instrumentation filter around them.

use gasan::helper::{QemuAsanHelper, QemuInstrumentationFilter, SanitizerRuntime};
use gasan::hooks::{
    gen_readwrite_asan, trace_read1_asan, trace_read_n_asan, trace_write_n_asan,
};
use gasan::registry::{AllocRegistry, CallContext};
use gasan::report::{AccessKind, AsanReport};
use gasan::shadow::PoisonKind;

fn fresh_helper() -> QemuAsanHelper {
    QemuAsanHelper::new(SanitizerRuntime::init())
}

fn ctx(tid: i32) -> CallContext {
    CallContext { tid, addresses: vec![], size: 0 }
}

#[test]
fn bad_free_reports_and_keeps_state() {
    let mut h = fresh_helper();
    h.allocate(0x8000, 0x8010);
    match h.dealloc(0x8001, 0xAB) {
        Some(AsanReport::BadFree { addr, pc }) => {
            assert_eq!(addr, 0x8001);
            assert_eq!(pc, 0xAB);
        }
        other => panic!("expected a bad free, got {:?}", other),
    }
    // the chunk is still live and usable
    assert!(h.read_1(0x8000, 0, 0).is_none());
    // and freeing its real start still works
    assert!(h.dealloc(0x8000, 0xAB).is_none());
    assert!(h.read_1(0x8000, 0, 0).is_some());
}

#[test]
fn double_free_is_a_bad_free() {
    let mut h = fresh_helper();
    h.allocate(0x8000, 0x8010);
    assert!(h.dealloc(0x8000, 0).is_none());
    match h.dealloc(0x8000, 0) {
        Some(AsanReport::BadFree { addr, .. }) => assert_eq!(addr, 0x8000),
        other => panic!("expected a bad free, got {:?}", other),
    }
}

#[test]
fn wild_free_is_a_bad_free() {
    let mut h = fresh_helper();
    match h.dealloc(0x123456, 0) {
        Some(AsanReport::BadFree { addr, .. }) => assert_eq!(addr, 0x123456),
        other => panic!("expected a bad free, got {:?}", other),
    }
}

#[test]
fn registry_search_prefers_covering_chunk() {
    let mut reg = AllocRegistry::new();
    reg.insert(0x1000, 0x1010, ctx(1));
    reg.insert(0x2000, 0x2010, ctx(2));
    let i = reg.search(0x2008).expect("the covering chunk");
    assert_eq!(reg.get(i).start, 0x2000);
    assert_eq!(reg.get(i).alloc_ctx.tid, 2);
    assert!(reg.search(0x3000).is_none(), "no freed chunk to fall back on");
}

#[test]
fn registry_search_falls_back_to_nearest_freed() {
    let mut reg = AllocRegistry::new();
    reg.insert(0x1000, 0x1010, ctx(1));
    reg.insert(0x2000, 0x2010, ctx(2));
    assert!(reg.mark_freed(0x1000, ctx(11)).is_some());
    assert!(reg.mark_freed(0x2000, ctx(12)).is_some());
    // 0x1800 is 0x7F1 past the end of the first chunk, 0x800 before the second
    let i = reg.search(0x1800).expect("a freed chunk");
    assert_eq!(reg.get(i).start, 0x1000);
    let i = reg.search(0x1FFF).expect("a freed chunk");
    assert_eq!(reg.get(i).start, 0x2000);
}

#[test]
fn mark_freed_returns_bounds_and_sets_context() {
    let mut reg = AllocRegistry::new();
    reg.insert(0x1000, 0x1010, ctx(1));
    assert_eq!(reg.mark_freed(0x1004, ctx(9)), None);
    let bounds = reg.mark_freed(0x1000, ctx(9)).expect("the live chunk");
    assert_eq!(bounds, (0x1000, 0x1010));
    let i = reg.search(0x1004).expect("still findable");
    let c = reg.get(i);
    assert_eq!(c.free_ctx.as_ref().map(|f| f.tid), Some(9));
    assert_eq!(c.alloc_ctx.tid, 1);
}

#[test]
fn remove_range_keeps_partly_covered_chunks() {
    let mut reg = AllocRegistry::new();
    reg.insert(0x1000, 0x1010, ctx(1));
    reg.insert(0x2000, 0x2010, ctx(2));
    reg.insert(0x3000, 0x3010, ctx(3));
    reg.remove_range(0x1800, 0x2800);
    assert_eq!(reg.len(), 2);
    assert_eq!(reg.get(0).start, 0x1000);
    assert_eq!(reg.get(1).start, 0x3000);
    reg.remove_range(0, u64::MAX);
    assert_eq!(reg.len(), 0);
}

#[test]
fn overlapping_alloc_is_ignored() {
    let mut h = fresh_helper();
    h.allocate(0x1000, 0x1010);
    // overlaps the live chunk: refused, shadow untouched
    h.allocate(0x1008, 0x1020);
    assert!(h.is_poisoned(0x1010, 1), "right redzone of the first chunk survives");
    assert!(!h.is_poisoned(0x1008, 8));
    // freed chunks do not block reuse
    assert!(h.dealloc(0x1000, 0).is_none());
    h.allocate(0x1000, 0x1010);
    assert!(!h.is_poisoned(0x1000, 0x10));
}

#[test]
fn degenerate_alloc_requests_are_ignored() {
    let mut h = fresh_helper();
    h.allocate(0x2000, 0x2000);
    h.allocate(0x2010, 0x2000);
    h.allocate(2, 0x10);
    assert!(!h.is_poisoned(0x1FF0, 0x40));
}

#[test]
fn filter_decides_instrumentation() {
    let rt = SanitizerRuntime::init();
    let h = QemuAsanHelper::with_instrumentation_filter(
        rt,
        QemuInstrumentationFilter::AllowList(vec![(0x1000, 0x2000)]),
    );
    assert!(h.must_instrument(0x1000));
    assert!(h.must_instrument(0x1FFF));
    assert!(!h.must_instrument(0x2000));
    assert_eq!(gen_readwrite_asan(&h, 0x1500, 4), Some(0x1500));
    assert_eq!(gen_readwrite_asan(&h, 0x2500, 4), None);

    let rt = SanitizerRuntime::init();
    let h = QemuAsanHelper::with_instrumentation_filter(
        rt,
        QemuInstrumentationFilter::DenyList(vec![(0x1000, 0x2000)]),
    );
    assert!(!h.must_instrument(0x1800));
    assert!(h.must_instrument(0x800));

    let h = fresh_helper();
    assert!(h.must_instrument(0xDEADBEEF));
}

#[test]
fn trace_hooks_dispatch_to_matching_kind() {
    let mut h = fresh_helper();
    h.poison(0xB000, 32, PoisonKind::User);
    match trace_read1_asan(&mut h, 7, 0xB000, 1, 2) {
        Some(AsanReport::Access(av)) => {
            assert_eq!(av.kind, AccessKind::Load);
            assert_eq!(av.size, 1);
        }
        other => panic!("expected a load violation, got {:?}", other),
    }
    match trace_read_n_asan(&mut h, 7, 0xB000, 5, 1, 2) {
        Some(AsanReport::Access(av)) => {
            assert_eq!(av.kind, AccessKind::Load);
            assert_eq!(av.size, 5);
        }
        other => panic!("expected a load violation, got {:?}", other),
    }
    // the N-byte write hook reports a store, not a load
    match trace_write_n_asan(&mut h, 7, 0xB000, 5, 1, 2) {
        Some(AsanReport::Access(av)) => {
            assert_eq!(av.kind, AccessKind::Store);
            assert_eq!(av.size, 5);
        }
        other => panic!("expected a store violation, got {:?}", other),
    }
}
