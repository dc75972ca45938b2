//! Hook bindings: the per-size callbacks the embedder registers with the
//! emulator, one per read/write width, plus the translation-time predicate
//! that decides whether an instruction gets instrumented at all.
//!
//! Each callback receives the instruction id and guest address the emulator
//! hands out, together with the current program counter and stack pointer,
//! and dispatches to the matching checker entry point.  The N-byte write
//! callback dispatches to the store path, never the load path.

use vstd::prelude::*;
use crate::helper::{QemuAsanHelper, chunks_wf, report_for_access};
use crate::report::{AccessKind, AsanReport};

verus! {

/// Translation-time predicate: instrument the instruction at `pc` iff the
/// helper's filter allows it.
pub fn gen_readwrite_asan(h: &QemuAsanHelper, pc: u64, _size: u64) -> (r: Option<u64>)
    ensures
        r == if h.spec_filter().spec_allowed(pc) {
            Some(pc)
        } else {
            None::<u64>
        },
{
    if h.must_instrument(pc) {
        Some(pc)
    } else {
        None
    }
}

/// Execution hook for 1-byte guest loads.
pub fn trace_read1_asan(h: &mut QemuAsanHelper, _id: u64, addr: u64, pc: u64, sp: u64) -> (r:
    Option<AsanReport>)
    requires
        chunks_wf(old(h).chunks()),
    ensures
        *final(h) == *old(h),
        report_for_access(*old(h), AccessKind::Load, addr, 1, pc, sp, r),
{
    h.read_1(addr, pc, sp)
}

/// Execution hook for 2-byte guest loads.
pub fn trace_read2_asan(h: &mut QemuAsanHelper, _id: u64, addr: u64, pc: u64, sp: u64) -> (r:
    Option<AsanReport>)
    requires
        chunks_wf(old(h).chunks()),
    ensures
        *final(h) == *old(h),
        report_for_access(*old(h), AccessKind::Load, addr, 2, pc, sp, r),
{
    h.read_2(addr, pc, sp)
}

/// Execution hook for 4-byte guest loads.
pub fn trace_read4_asan(h: &mut QemuAsanHelper, _id: u64, addr: u64, pc: u64, sp: u64) -> (r:
    Option<AsanReport>)
    requires
        chunks_wf(old(h).chunks()),
    ensures
        *final(h) == *old(h),
        report_for_access(*old(h), AccessKind::Load, addr, 4, pc, sp, r),
{
    h.read_4(addr, pc, sp)
}

/// Execution hook for 8-byte guest loads.
pub fn trace_read8_asan(h: &mut QemuAsanHelper, _id: u64, addr: u64, pc: u64, sp: u64) -> (r:
    Option<AsanReport>)
    requires
        chunks_wf(old(h).chunks()),
    ensures
        *final(h) == *old(h),
        report_for_access(*old(h), AccessKind::Load, addr, 8, pc, sp, r),
{
    h.read_8(addr, pc, sp)
}

/// Execution hook for guest loads of arbitrary size.
pub fn trace_read_n_asan(
    h: &mut QemuAsanHelper,
    _id: u64,
    addr: u64,
    size: u64,
    pc: u64,
    sp: u64,
) -> (r: Option<AsanReport>)
    requires
        chunks_wf(old(h).chunks()),
    ensures
        *final(h) == *old(h),
        report_for_access(*old(h), AccessKind::Load, addr, size, pc, sp, r),
{
    h.read_n(addr, size, pc, sp)
}

/// Execution hook for 1-byte guest stores.
pub fn trace_write1_asan(h: &mut QemuAsanHelper, _id: u64, addr: u64, pc: u64, sp: u64) -> (r:
    Option<AsanReport>)
    requires
        chunks_wf(old(h).chunks()),
    ensures
        *final(h) == *old(h),
        report_for_access(*old(h), AccessKind::Store, addr, 1, pc, sp, r),
{
    h.write_1(addr, pc, sp)
}

/// Execution hook for 2-byte guest stores.
pub fn trace_write2_asan(h: &mut QemuAsanHelper, _id: u64, addr: u64, pc: u64, sp: u64) -> (r:
    Option<AsanReport>)
    requires
        chunks_wf(old(h).chunks()),
    ensures
        *final(h) == *old(h),
        report_for_access(*old(h), AccessKind::Store, addr, 2, pc, sp, r),
{
    h.write_2(addr, pc, sp)
}

/// Execution hook for 4-byte guest stores.
pub fn trace_write4_asan(h: &mut QemuAsanHelper, _id: u64, addr: u64, pc: u64, sp: u64) -> (r:
    Option<AsanReport>)
    requires
        chunks_wf(old(h).chunks()),
    ensures
        *final(h) == *old(h),
        report_for_access(*old(h), AccessKind::Store, addr, 4, pc, sp, r),
{
    h.write_4(addr, pc, sp)
}

/// Execution hook for 8-byte guest stores.
pub fn trace_write8_asan(h: &mut QemuAsanHelper, _id: u64, addr: u64, pc: u64, sp: u64) -> (r:
    Option<AsanReport>)
    requires
        chunks_wf(old(h).chunks()),
    ensures
        *final(h) == *old(h),
        report_for_access(*old(h), AccessKind::Store, addr, 8, pc, sp, r),
{
    h.write_8(addr, pc, sp)
}

/// Execution hook for guest stores of arbitrary size: dispatches to the
/// store checker, so a store report never claims to be a load.
pub fn trace_write_n_asan(
    h: &mut QemuAsanHelper,
    _id: u64,
    addr: u64,
    size: u64,
    pc: u64,
    sp: u64,
) -> (r: Option<AsanReport>)
    requires
        chunks_wf(old(h).chunks()),
    ensures
        *final(h) == *old(h),
        report_for_access(*old(h), AccessKind::Store, addr, size, pc, sp, r),
{
    h.write_n(addr, size, pc, sp)
}

} // verus!
