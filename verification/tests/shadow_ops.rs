//! Shadow-map laws on concrete values: round-trip poison, partial cells,
//! boundary detection, reset, and the tag vocabulary.

use gasan::helper::{QemuAsanHelper, SanitizerRuntime, REDZONE_SIZE};
use gasan::report::{AsanReport, AccessKind};
use gasan::shadow::{PoisonKind, ShadowMap};

fn fresh_helper() -> QemuAsanHelper {
    QemuAsanHelper::new(SanitizerRuntime::init())
}

#[test]
fn poison_unpoison_round_trip() {
    let mut h = fresh_helper();
    // an unaligned range with an odd length
    h.poison(0x5003, 13, PoisonKind::HeapRz);
    assert!(h.is_poisoned(0x5003, 13));
    h.unpoison(0x5003, 13);
    assert!(!h.is_poisoned(0x5003, 13));
}

#[test]
fn poison_round_trip_every_tag() {
    let tags = [
        PoisonKind::ArrayCookie,
        PoisonKind::StackRz,
        PoisonKind::StackLeftRz,
        PoisonKind::StackMidRz,
        PoisonKind::StackRightRz,
        PoisonKind::StacKFreed,
        PoisonKind::StackOOScope,
        PoisonKind::GlobalRz,
        PoisonKind::HeapRz,
        PoisonKind::User,
        PoisonKind::HeapLeftRz,
        PoisonKind::HeapRightRz,
        PoisonKind::HeapFreed,
    ];
    for tag in tags.iter() {
        let mut h = fresh_helper();
        h.poison(0x1000, 24, *tag);
        assert!(h.is_poisoned(0x1000, 24));
        h.unpoison(0x1000, 24);
        assert!(!h.is_poisoned(0x1000, 24));
    }
}

#[test]
fn partial_cell_offsets() {
    let mut h = fresh_helper();
    // aligned start, length 11: final cell keeps its low 3 bytes readable
    h.poison(0x7000, 11, PoisonKind::User);
    for off in 0u64..8 {
        assert!(h.is_poisoned(0x7000 + off, 1), "offset {} in a full cell", off);
    }
    for off in 0u64..3 {
        assert!(!h.is_poisoned(0x7008 + off, 1), "low offset {}", off);
    }
    for off in 3u64..8 {
        assert!(h.is_poisoned(0x7008 + off, 1), "high offset {}", off);
    }
}

#[test]
fn alloc_boundary_bytes() {
    let mut h = fresh_helper();
    h.allocate(0x6000, 0x600B);
    let rz = REDZONE_SIZE;
    for a in (0x6000 - rz)..0x6000 {
        assert!(h.is_poisoned(a, 1), "left redzone byte {:#x}", a);
    }
    for a in 0x6000..0x600B {
        assert!(!h.is_poisoned(a, 1), "payload byte {:#x}", a);
    }
    for a in 0x600B..(0x600B + rz) {
        assert!(h.is_poisoned(a, 1), "right redzone byte {:#x}", a);
    }
}

#[test]
fn reset_restores_baseline() {
    let mut h = fresh_helper();
    h.allocate(0x1000, 0x1010);
    h.poison(0x4000, 64, PoisonKind::User);
    assert!(h.is_poisoned(0x4000, 64));
    h.reset();
    assert!(!h.is_poisoned(0x4000, 64));
    assert!(h.read_1(0x1010, 0, 0).is_none());
    assert!(h.read_n(0x0FF0, 0x40, 0, 0).is_none());
    // the registry is empty again: the old chunk's start is a bad free now
    match h.dealloc(0x1000, 0) {
        Some(AsanReport::BadFree { addr, .. }) => assert_eq!(addr, 0x1000),
        other => panic!("expected a bad free, got {:?}", other),
    }
}

#[test]
fn is_poison_query_is_idempotent() {
    let mut h = fresh_helper();
    h.poison(0x4000, 8, PoisonKind::User);
    let first = h.is_poisoned(0x4000, 8);
    let second = h.is_poisoned(0x4000, 8);
    assert_eq!(first, second);
    assert!(first);
}

#[test]
fn shadow_map_direct_check() {
    let mut s = ShadowMap::new();
    assert_eq!(s.check(0, 4096), None);
    s.poison(0x100, 8, PoisonKind::HeapRz.to_byte());
    assert_eq!(s.check(0x0F8, 0x20), Some(8));
    assert_eq!(s.check(0x100, 8), Some(0));
    s.unpoison(0x100, 8);
    assert_eq!(s.check(0x0F8, 0x20), None);
    s.clear();
    assert_eq!(s.check(0, 4096), None);
}

#[test]
fn zero_sized_access_passes() {
    let mut h = fresh_helper();
    h.poison(0x4000, 8, PoisonKind::User);
    assert!(h.read_n(0x4000, 0, 0, 0).is_none());
    assert!(!h.is_poisoned(0x4000, 0));
}

#[test]
fn tag_bytes_round_trip() {
    let tags = [
        (PoisonKind::Valid, 0x00),
        (PoisonKind::Partial1, 0x01),
        (PoisonKind::Partial7, 0x07),
        (PoisonKind::ArrayCookie, 0xac),
        (PoisonKind::StackRz, 0xf0),
        (PoisonKind::StackLeftRz, 0xf1),
        (PoisonKind::StackMidRz, 0xf2),
        (PoisonKind::StackRightRz, 0xf3),
        (PoisonKind::StacKFreed, 0xf5),
        (PoisonKind::StackOOScope, 0xf8),
        (PoisonKind::GlobalRz, 0xf9),
        (PoisonKind::HeapRz, 0xe9),
        (PoisonKind::User, 0xf7),
        (PoisonKind::HeapLeftRz, 0xfa),
        (PoisonKind::HeapRightRz, 0xfb),
        (PoisonKind::HeapFreed, 0xfd),
    ];
    for (tag, byte) in tags.iter() {
        assert_eq!(tag.to_byte(), *byte);
        assert_eq!(PoisonKind::try_from_u8(*byte), Some(*tag));
    }
    assert_eq!(PoisonKind::try_from_u8(0x10), None);
    assert_eq!(PoisonKind::try_from_u8(0xf4), None);
    assert_eq!(PoisonKind::try_from_u8(0xff), None);
}

#[test]
fn stores_are_checked_like_loads() {
    let mut h = fresh_helper();
    h.poison(0xA000, 16, PoisonKind::User);
    for (size, rep) in [
        (1, h.write_1(0xA000, 0, 0)),
        (2, h.write_2(0xA000, 0, 0)),
        (4, h.write_4(0xA000, 0, 0)),
        (8, h.write_8(0xA000, 0, 0)),
    ] {
        match rep {
            Some(AsanReport::Access(av)) => {
                assert_eq!(av.kind, AccessKind::Store);
                assert_eq!(av.size, size);
            }
            other => panic!("expected a store violation, got {:?}", other),
        }
    }
    match h.read_2(0xA000, 0, 0) {
        Some(AsanReport::Access(av)) => assert_eq!(av.kind, AccessKind::Load),
        other => panic!("expected a load violation, got {:?}", other),
    }
}

#[test]
fn unaligned_poison_follows_cell_encoding() {
    let mut h = fresh_helper();
    // [0x1004, 0x100C): the head cell keeps its low 4 bytes readable, and
    // the tail cell's partial tag marks its low 4 bytes readable and the
    // high 4 poisoned
    h.poison(0x1004, 8, PoisonKind::User);
    match h.read_n(0x1000, 16, 0, 0) {
        Some(AsanReport::Access(av)) => assert_eq!(av.fault_offset, 4),
        other => panic!("expected an access violation, got {:?}", other),
    }
    assert!(!h.is_poisoned(0x1000, 4));
    assert!(h.is_poisoned(0x1004, 4));
    assert!(!h.is_poisoned(0x1008, 4));
    assert!(h.is_poisoned(0x100C, 4));
}
