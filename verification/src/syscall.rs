//! The fake-syscall protocol: the guest-side runtime issues a reserved
//! syscall number to drive the sanitizer; `a0` selects the action and
//! `a1..a3` carry its parameters.  An unknown action code, or an unknown
//! poison tag, is a guest-side contract violation and ends the run.

use vstd::prelude::*;
use crate::helper::{
    QemuAsanHelper, alloc_applies, chunks_wf, clamped_len, report_for_access, spec_alloc_shadow,
    spec_free_shadow, spec_is_poisoned,
};
use crate::registry::{CallContext, ChunkInfo, live_chunk_starts_at};
use crate::report::{AccessKind, AsanReport};
use crate::shadow::{PoisonKind, spec_poison, spec_unpoison};

verus! {

/// The reserved syscall number agreed with the guest runtime.
pub const QASAN_FAKESYS_NR: i32 = 0xa2a4;

/// The actions of the guest-to-sanitizer protocol, in the order of their
/// action codes starting at zero.
#[derive(Clone, Copy, Debug, PartialEq, Eq, Structural)]
pub enum QasanAction {
    CheckLoad,
    CheckStore,
    Poison,
    UserPoison,
    UnPoison,
    IsPoison,
    Alloc,
    Dealloc,
    Enable,
    Disable,
    SwapState,
}

impl QasanAction {
    /// The action code of this action.
    pub open spec fn as_u64(self) -> u64 {
        match self {
            QasanAction::CheckLoad => 0,
            QasanAction::CheckStore => 1,
            QasanAction::Poison => 2,
            QasanAction::UserPoison => 3,
            QasanAction::UnPoison => 4,
            QasanAction::IsPoison => 5,
            QasanAction::Alloc => 6,
            QasanAction::Dealloc => 7,
            QasanAction::Enable => 8,
            QasanAction::Disable => 9,
            QasanAction::SwapState => 10,
        }
    }

    /// The action selected by code `x`, if any.
    pub open spec fn spec_from_u64(x: u64) -> Option<QasanAction> {
        if x == 0 {
            Some(QasanAction::CheckLoad)
        } else if x == 1 {
            Some(QasanAction::CheckStore)
        } else if x == 2 {
            Some(QasanAction::Poison)
        } else if x == 3 {
            Some(QasanAction::UserPoison)
        } else if x == 4 {
            Some(QasanAction::UnPoison)
        } else if x == 5 {
            Some(QasanAction::IsPoison)
        } else if x == 6 {
            Some(QasanAction::Alloc)
        } else if x == 7 {
            Some(QasanAction::Dealloc)
        } else if x == 8 {
            Some(QasanAction::Enable)
        } else if x == 9 {
            Some(QasanAction::Disable)
        } else if x == 10 {
            Some(QasanAction::SwapState)
        } else {
            None
        }
    }

    /// Decode an action code.
    pub fn try_from_u64(x: u64) -> (r: Option<QasanAction>)
        ensures
            r == QasanAction::spec_from_u64(x),
            r matches Some(act) ==> act.as_u64() == x,
    {
        if x == 0 {
            Some(QasanAction::CheckLoad)
        } else if x == 1 {
            Some(QasanAction::CheckStore)
        } else if x == 2 {
            Some(QasanAction::Poison)
        } else if x == 3 {
            Some(QasanAction::UserPoison)
        } else if x == 4 {
            Some(QasanAction::UnPoison)
        } else if x == 5 {
            Some(QasanAction::IsPoison)
        } else if x == 6 {
            Some(QasanAction::Alloc)
        } else if x == 7 {
            Some(QasanAction::Dealloc)
        } else if x == 8 {
            Some(QasanAction::Enable)
        } else if x == 9 {
            Some(QasanAction::Disable)
        } else if x == 10 {
            Some(QasanAction::SwapState)
        } else {
            None
        }
    }
}

/// What the emulator is told after a syscall hook ran: `Some(v)` means the
/// syscall was handled and `v` goes to the guest's result register; `None`
/// means the emulator handles the syscall itself.
#[derive(Clone, Copy, Debug)]
pub struct SyscallHookResult {
    pub retval: Option<u64>,
}

impl SyscallHookResult {
    /// Wrap a hook decision.
    pub fn new(value: Option<u64>) -> (r: Self)
        ensures
            r.retval == value,
    {
        SyscallHookResult { retval: value }
    }
}

/// What a poison-state query leaves behind: the helper untouched, and 1 or 0
/// according to the helper's shadow map alone.  Being a pure function of the
/// state, asking twice yields the same answer.
pub open spec fn is_poison_outcome(
    pre: QemuAsanHelper,
    addr: u64,
    size: u64,
    post: QemuAsanHelper,
    ret: u64,
) -> bool {
    &&& post == pre
    &&& ret == if spec_is_poisoned(pre.shadow_view(), addr, size) {
        1u64
    } else {
        0u64
    }
}

/// Idempotence of the poison-state query: two consecutive queries with
/// nothing in between leave the helper where it started and agree on their
/// answer.
pub proof fn lemma_is_poison_idempotent(
    h0: QemuAsanHelper,
    addr: u64,
    size: u64,
    h1: QemuAsanHelper,
    r1: u64,
    h2: QemuAsanHelper,
    r2: u64,
)
    requires
        is_poison_outcome(h0, addr, size, h1, r1),
        is_poison_outcome(h1, addr, size, h2, r2),
    ensures
        h2 == h0,
        r2 == r1,
{
}

/// Decode and perform one guest sanitizer request.  Returns the emulator
/// decision and, when the request detected a violation or was itself
/// invalid, the fatal report that ends the run.
pub fn qasan_fake_syscall(
    h: &mut QemuAsanHelper,
    sys_num: i32,
    a0: u64,
    a1: u64,
    a2: u64,
    a3: u64,
    _a4: u64,
    _a5: u64,
    _a6: u64,
    _a7: u64,
    pc: u64,
    sp: u64,
) -> (r: (SyscallHookResult, Option<AsanReport>))
    requires
        chunks_wf(old(h).chunks()),
    ensures
        chunks_wf(final(h).chunks()),
        sys_num != QASAN_FAKESYS_NR ==> r.0.retval is None && r.1 is None && *final(h) == *old(h),
        sys_num == QASAN_FAKESYS_NR ==> match QasanAction::spec_from_u64(a0) {
            Some(act) => match act {
                QasanAction::CheckLoad => {
                    &&& r.0.retval == Some(0u64)
                    &&& *final(h) == *old(h)
                    &&& report_for_access(*old(h), AccessKind::Load, a1, a2, pc, sp, r.1)
                },
                QasanAction::CheckStore => {
                    &&& r.0.retval == Some(0u64)
                    &&& *final(h) == *old(h)
                    &&& report_for_access(*old(h), AccessKind::Store, a1, a2, pc, sp, r.1)
                },
                QasanAction::Poison => if PoisonKind::is_tag_byte(a3 as u8) {
                    &&& r.0.retval == Some(0u64)
                    &&& r.1 is None
                    &&& final(h).shadow_view() == spec_poison(
                        old(h).shadow_view(),
                        a1,
                        clamped_len(a1, a2),
                        a3 as u8,
                    )
                    &&& final(h).chunks() == old(h).chunks()
                    &&& final(h).spec_enabled() == old(h).spec_enabled()
                } else {
                    &&& r.0.retval == Some(0u64)
                    &&& r.1 == Some(AsanReport::BadSanitizerRequest { code: a3 })
                    &&& *final(h) == *old(h)
                },
                QasanAction::UserPoison => {
                    &&& r.0.retval == Some(0u64)
                    &&& r.1 is None
                    &&& final(h).shadow_view() == spec_poison(
                        old(h).shadow_view(),
                        a1,
                        clamped_len(a1, a2),
                        PoisonKind::User.as_byte(),
                    )
                    &&& final(h).chunks() == old(h).chunks()
                    &&& final(h).spec_enabled() == old(h).spec_enabled()
                },
                QasanAction::UnPoison => {
                    &&& r.0.retval == Some(0u64)
                    &&& r.1 is None
                    &&& final(h).shadow_view() == spec_unpoison(
                        old(h).shadow_view(),
                        a1,
                        clamped_len(a1, a2),
                    )
                    &&& final(h).chunks() == old(h).chunks()
                    &&& final(h).spec_enabled() == old(h).spec_enabled()
                },
                QasanAction::IsPoison => {
                    &&& r.1 is None
                    &&& r.0.retval matches Some(v) && is_poison_outcome(
                        *old(h),
                        a1,
                        a2,
                        *final(h),
                        v,
                    )
                },
                QasanAction::Alloc => {
                    &&& r.0.retval == Some(0u64)
                    &&& r.1 is None
                    &&& final(h).spec_enabled() == old(h).spec_enabled()
                    &&& if alloc_applies(old(h).chunks(), a1, a2) {
                        &&& final(h).shadow_view() == spec_alloc_shadow(
                            old(h).shadow_view(),
                            a1,
                            a2,
                            crate::helper::REDZONE_SIZE,
                        )
                        &&& exists|ctx: CallContext|
                            {
                                &&& (#[trigger] ctx.tid) == old(h).spec_tid()
                                &&& ctx.addresses@ == Seq::<u64>::empty()
                                &&& ctx.size == 0
                                &&& final(h).chunks() == old(h).chunks().push(
                                    ChunkInfo { start: a1, end: a2, alloc_ctx: ctx, free_ctx: None },
                                )
                            }
                    } else {
                        &&& final(h).shadow_view() == old(h).shadow_view()
                        &&& final(h).chunks() == old(h).chunks()
                    }
                },
                QasanAction::Dealloc => {
                    &&& r.0.retval == Some(0u64)
                    &&& final(h).spec_enabled() == old(h).spec_enabled()
                    &&& if live_chunk_starts_at(old(h).chunks(), a1) {
                        &&& r.1 is None
                        &&& exists|i: int, ctx: CallContext| #![auto]
                            {
                                &&& 0 <= i < old(h).chunks().len()
                                &&& old(h).chunks()[i].is_live()
                                &&& old(h).chunks()[i].start == a1
                                &&& ctx.tid == old(h).spec_tid()
                                &&& ctx.addresses@ == Seq::<u64>::empty()
                                &&& ctx.size == 0
                                &&& final(h).chunks() == old(h).chunks().update(
                                    i,
                                    old(h).chunks()[i].freed_with(ctx),
                                )
                                &&& final(h).shadow_view() == spec_free_shadow(
                                    old(h).shadow_view(),
                                    a1,
                                    old(h).chunks()[i].end,
                                )
                            }
                    } else {
                        &&& r.1 == Some(AsanReport::BadFree { addr: a1, pc })
                        &&& final(h).shadow_view() == old(h).shadow_view()
                        &&& final(h).chunks() == old(h).chunks()
                    }
                },
                QasanAction::Enable => {
                    &&& r.0.retval == Some(0u64)
                    &&& r.1 is None
                    &&& final(h).spec_enabled()
                    &&& final(h).shadow_view() == old(h).shadow_view()
                    &&& final(h).chunks() == old(h).chunks()
                },
                QasanAction::Disable => {
                    &&& r.0.retval == Some(0u64)
                    &&& r.1 is None
                    &&& !final(h).spec_enabled()
                    &&& final(h).shadow_view() == old(h).shadow_view()
                    &&& final(h).chunks() == old(h).chunks()
                },
                QasanAction::SwapState => {
                    &&& r.0.retval == Some(0u64)
                    &&& r.1 is None
                    &&& final(h).spec_enabled() == !old(h).spec_enabled()
                    &&& final(h).shadow_view() == old(h).shadow_view()
                    &&& final(h).chunks() == old(h).chunks()
                },
            },
            None => {
                &&& r.0.retval == Some(0u64)
                &&& r.1 == Some(AsanReport::BadSanitizerRequest { code: a0 })
                &&& *final(h) == *old(h)
            },
        },
{
    if sys_num != QASAN_FAKESYS_NR {
        return (SyscallHookResult::new(None), None);
    }
    let mut value: u64 = 0;
    let mut report: Option<AsanReport> = None;
    match QasanAction::try_from_u64(a0) {
        Some(QasanAction::CheckLoad) => {
            report = h.read_n(a1, a2, pc, sp);
        },
        Some(QasanAction::CheckStore) => {
            report = h.write_n(a1, a2, pc, sp);
        },
        Some(QasanAction::Poison) => {
            match PoisonKind::try_from_u8(a3 as u8) {
                Some(k) => {
                    h.poison(a1, a2, k);
                },
                None => {
                    report = Some(AsanReport::BadSanitizerRequest { code: a3 });
                },
            }
        },
        Some(QasanAction::UserPoison) => {
            h.poison(a1, a2, PoisonKind::User);
        },
        Some(QasanAction::UnPoison) => {
            h.unpoison(a1, a2);
        },
        Some(QasanAction::IsPoison) => {
            if h.is_poisoned(a1, a2) {
                value = 1;
            }
        },
        Some(QasanAction::Alloc) => {
            h.allocate(a1, a2);
        },
        Some(QasanAction::Dealloc) => {
            report = h.dealloc(a1, pc);
        },
        Some(QasanAction::Enable) => {
            h.set_enabled(true);
        },
        Some(QasanAction::Disable) => {
            h.set_enabled(false);
        },
        Some(QasanAction::SwapState) => {
            let e = h.enabled();
            h.set_enabled(!e);
        },
        None => {
            report = Some(AsanReport::BadSanitizerRequest { code: a0 });
        },
    }
    (SyscallHookResult::new(Some(value)), report)
}

} // verus!
