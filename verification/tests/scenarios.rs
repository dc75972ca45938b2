//! End-to-end scenarios driven through the fake-syscall dispatcher and the
//! checker entry points, against an all-valid baseline.

use gasan::helper::{QemuAsanHelper, SanitizerRuntime};
use gasan::report::{AccessCause, AccessKind, AsanReport};
use gasan::shadow::PoisonKind;
use gasan::syscall::{qasan_fake_syscall, QasanAction, QASAN_FAKESYS_NR};

fn fresh_helper() -> QemuAsanHelper {
    QemuAsanHelper::new(SanitizerRuntime::init())
}

fn syscall(
    h: &mut QemuAsanHelper,
    a0: u64,
    a1: u64,
    a2: u64,
    a3: u64,
) -> (Option<u64>, Option<AsanReport>) {
    let (res, rep) = qasan_fake_syscall(h, QASAN_FAKESYS_NR, a0, a1, a2, a3, 0, 0, 0, 0, 0x77, 0x88);
    (res.retval, rep)
}

const ALLOC: u64 = 6;
const DEALLOC: u64 = 7;
const POISON: u64 = 2;
const UNPOISON: u64 = 4;
const IS_POISON: u64 = 5;
const ENABLE: u64 = 8;
const DISABLE: u64 = 9;

#[test]
fn s1_alloc_boundary_read() {
    let mut h = fresh_helper();
    let (v, rep) = syscall(&mut h, ALLOC, 0x1000, 0x1010, 0);
    assert_eq!(v, Some(0));
    assert!(rep.is_none());
    // last payload byte passes
    assert!(h.read_1(0x100F, 1, 2).is_none());
    // first redzone byte fails
    match h.read_1(0x1010, 1, 2) {
        Some(AsanReport::Access(av)) => {
            assert_eq!(av.kind, AccessKind::Load);
            assert_eq!(av.size, 1);
            assert_eq!(av.addr, 0x1010);
            assert_eq!(av.cause, AccessCause::ShadowCheck);
        }
        other => panic!("expected an access violation, got {:?}", other),
    }
}

#[test]
fn s2_use_after_free_cites_free_context() {
    let mut h = fresh_helper();
    h.set_thread_id(42);
    let (_, rep) = syscall(&mut h, ALLOC, 0x2000, 0x2008, 0);
    assert!(rep.is_none());
    let (_, rep) = syscall(&mut h, DEALLOC, 0x2000, 0, 0);
    assert!(rep.is_none());
    match h.read_4(0x2004, 1, 2) {
        Some(AsanReport::Access(av)) => {
            assert_eq!(av.kind, AccessKind::Load);
            assert_eq!(av.size, 4);
            assert_eq!(av.addr, 0x2004);
            let chunk = av.chunk.expect("the freed chunk must be cited");
            assert_eq!(chunk.start, 0x2000);
            assert_eq!(chunk.end, 0x2008);
            let free_ctx = chunk.free_ctx.expect("the free context must be present");
            assert_eq!(free_ctx.tid, 42);
        }
        other => panic!("expected an access violation, got {:?}", other),
    }
}

#[test]
fn s3_partial_cell_reports_offending_offset() {
    let mut h = fresh_helper();
    let (_, rep) = syscall(&mut h, ALLOC, 0x3000, 0x3005, 0);
    assert!(rep.is_none());
    match h.read_8(0x3000, 1, 2) {
        Some(AsanReport::Access(av)) => {
            assert_eq!(av.fault_offset, 5);
            assert_eq!(av.addr, 0x3000);
            assert_eq!(av.size, 8);
        }
        other => panic!("expected an access violation, got {:?}", other),
    }
}

#[test]
fn s4_user_poison_query_unpoison() {
    let mut h = fresh_helper();
    let user_tag = PoisonKind::User.to_byte() as u64;
    let (v, rep) = syscall(&mut h, POISON, 0x4000, 16, user_tag);
    assert_eq!(v, Some(0));
    assert!(rep.is_none());
    let (v, _) = syscall(&mut h, IS_POISON, 0x4000, 1, 0);
    assert_eq!(v, Some(1));
    let (v, rep) = syscall(&mut h, UNPOISON, 0x4000, 16, 0);
    assert_eq!(v, Some(0));
    assert!(rep.is_none());
    let (v, _) = syscall(&mut h, IS_POISON, 0x4000, 1, 0);
    assert_eq!(v, Some(0));
}

#[test]
fn s5_disable_suppresses_enable_restores() {
    let mut h = fresh_helper();
    let user_tag = PoisonKind::User.to_byte() as u64;
    syscall(&mut h, POISON, 0x4000, 16, user_tag);
    let (v, rep) = syscall(&mut h, DISABLE, 0, 0, 0);
    assert_eq!(v, Some(0));
    assert!(rep.is_none());
    assert!(!h.enabled());
    assert!(h.read_1(0x4000, 1, 2).is_none());
    let (v, _) = syscall(&mut h, ENABLE, 0, 0, 0);
    assert_eq!(v, Some(0));
    assert!(h.enabled());
    assert!(h.read_1(0x4000, 1, 2).is_some());
}

#[test]
fn s6_unknown_action_is_bad_request() {
    let mut h = fresh_helper();
    let (v, rep) = syscall(&mut h, 0x99, 0, 0, 0);
    assert_eq!(v, Some(0));
    match rep {
        Some(AsanReport::BadSanitizerRequest { code }) => assert_eq!(code, 0x99),
        other => panic!("expected a bad-request report, got {:?}", other),
    }
}

#[test]
fn unrelated_syscall_is_unhandled() {
    let mut h = fresh_helper();
    let (res, rep) = qasan_fake_syscall(&mut h, 0x42, 0, 0, 0, 0, 0, 0, 0, 0, 0, 0);
    assert!(res.retval.is_none());
    assert!(rep.is_none());
}

#[test]
fn swap_state_toggles() {
    let mut h = fresh_helper();
    assert!(h.enabled());
    let (v, _) = syscall(&mut h, 10, 0, 0, 0);
    assert_eq!(v, Some(0));
    assert!(!h.enabled());
    syscall(&mut h, 10, 0, 0, 0);
    assert!(h.enabled());
}

#[test]
fn check_load_and_store_actions_report() {
    let mut h = fresh_helper();
    let user_tag = PoisonKind::User.to_byte() as u64;
    syscall(&mut h, POISON, 0x9000, 8, user_tag);
    let (v, rep) = syscall(&mut h, 0, 0x9000, 4, 0);
    assert_eq!(v, Some(0));
    match rep {
        Some(AsanReport::Access(av)) => assert_eq!(av.kind, AccessKind::Load),
        other => panic!("expected a load violation, got {:?}", other),
    }
    let (_, rep) = syscall(&mut h, 1, 0x9000, 4, 0);
    match rep {
        Some(AsanReport::Access(av)) => assert_eq!(av.kind, AccessKind::Store),
        other => panic!("expected a store violation, got {:?}", other),
    }
}

#[test]
fn bad_poison_tag_is_bad_request() {
    let mut h = fresh_helper();
    let (v, rep) = syscall(&mut h, POISON, 0x9000, 8, 0x11);
    assert_eq!(v, Some(0));
    match rep {
        Some(AsanReport::BadSanitizerRequest { code }) => assert_eq!(code, 0x11),
        other => panic!("expected a bad-request report, got {:?}", other),
    }
    // nothing was poisoned
    assert!(!h.is_poisoned(0x9000, 8));
}

#[test]
fn translation_failure_at_top_of_address_space() {
    let mut h = fresh_helper();
    match h.read_n(u64::MAX - 1, 8, 5, 6) {
        Some(AsanReport::Access(av)) => {
            assert_eq!(av.cause, AccessCause::AddressTranslation);
            assert_eq!(av.kind, AccessKind::Load);
            assert_eq!(av.pc, 5);
            assert_eq!(av.sp, 6);
        }
        other => panic!("expected a translation failure, got {:?}", other),
    }
}

#[test]
fn default_helper_is_enabled_and_clean() {
    let mut h = QemuAsanHelper::default();
    assert!(h.enabled());
    assert!(!h.is_poisoned(0, 4096));
    assert!(h.read_8(0x1234, 0, 0).is_none());
}

#[test]
fn action_codes_decode_in_order() {
    let actions = [
        QasanAction::CheckLoad,
        QasanAction::CheckStore,
        QasanAction::Poison,
        QasanAction::UserPoison,
        QasanAction::UnPoison,
        QasanAction::IsPoison,
        QasanAction::Alloc,
        QasanAction::Dealloc,
        QasanAction::Enable,
        QasanAction::Disable,
        QasanAction::SwapState,
    ];
    for (code, act) in actions.iter().enumerate() {
        assert_eq!(QasanAction::try_from_u64(code as u64), Some(*act));
    }
    assert_eq!(QasanAction::try_from_u64(11), None);
    assert_eq!(QasanAction::try_from_u64(0x99), None);
}
