//! Violation reports: the values handed to the embedder when a guest access,
//! free, or sanitizer request is refused.  The embedder writes them to its
//! sink and terminates the current run; nothing here continues execution.

use vstd::prelude::*;
use crate::registry::ChunkInfo;

verus! {

/// Whether the faulting operation read or wrote guest memory.
#[derive(Clone, Copy, Debug, PartialEq, Eq, Structural)]
pub enum AccessKind {
    Load,
    Store,
}

/// Why an access was refused: the shadow check failed at some byte, or the
/// guest range does not fit the address space at all.
#[derive(Clone, Copy, Debug, PartialEq, Eq, Structural)]
pub enum AccessCause {
    ShadowCheck,
    AddressTranslation,
}

/// The scalar part of a call context, as cited by a report.
#[derive(Clone, Copy, Debug, PartialEq, Eq, Structural)]
pub struct CtxSnapshot {
    pub tid: i32,
    pub size: u32,
}

/// The chunk a report blames: its interval and the contexts of its
/// allocation and, when freed, of its free.
#[derive(Clone, Copy, Debug)]
pub struct ChunkSnapshot {
    pub start: u64,
    pub end: u64,
    pub alloc_ctx: CtxSnapshot,
    pub free_ctx: Option<CtxSnapshot>,
}

/// What `ChunkSnapshot::from_chunk` extracts from a chunk.
pub open spec fn snapshot_of(c: ChunkInfo) -> ChunkSnapshot {
    ChunkSnapshot {
        start: c.start,
        end: c.end,
        alloc_ctx: CtxSnapshot { tid: c.alloc_ctx.tid, size: c.alloc_ctx.size },
        free_ctx: match c.free_ctx {
            Some(f) => Some(CtxSnapshot { tid: f.tid, size: f.size }),
            None => None,
        },
    }
}

impl ChunkSnapshot {
    /// Capture the scalar parts of a chunk for a report.
    pub fn from_chunk(c: &ChunkInfo) -> (r: ChunkSnapshot)
        ensures
            r == snapshot_of(*c),
    {
        ChunkSnapshot {
            start: c.start,
            end: c.end,
            alloc_ctx: CtxSnapshot { tid: c.alloc_ctx.tid, size: c.alloc_ctx.size },
            free_ctx: match &c.free_ctx {
                Some(f) => Some(CtxSnapshot { tid: f.tid, size: f.size }),
                None => None,
            },
        }
    }
}

/// A refused load or store.
#[derive(Clone, Copy, Debug)]
pub struct AccessViolation {
    pub kind: AccessKind,
    pub cause: AccessCause,
    pub addr: u64,
    pub size: u64,
    /// Offset within `[addr, addr+size)` of the first inaccessible byte;
    /// zero when the whole range failed to translate.
    pub fault_offset: u64,
    pub pc: u64,
    pub sp: u64,
    pub chunk: Option<ChunkSnapshot>,
}

/// A fatal event.  Every variant ends the current guest run.
#[derive(Clone, Copy, Debug)]
pub enum AsanReport {
    Access(AccessViolation),
    BadFree { addr: u64, pc: u64 },
    BadSanitizerRequest { code: u64 },
}

/// Nibble `i` (0 = least significant) of `x`.
pub open spec fn spec_nibble(x: u64, i: int) -> u64 {
    (x >> (4 * i) as u64) & 0xf
}

/// The lower-case ASCII hex digit for a value below 16.
pub open spec fn spec_hex_digit(d: u64) -> u8 {
    if d < 10 {
        (0x30 + d) as u8
    } else {
        (0x57 + d) as u8
    }
}

/// Format a guest address as 16 lower-case ASCII hex digits, most significant
/// first, for the report sink.
pub fn hex_digits(x: u64) -> (r: Vec<u8>)
    ensures
        r@.len() == 16,
        forall|i: int| 0 <= i < 16 ==> r@[i] == spec_hex_digit(spec_nibble(x, 15 - i)),
{
    let mut r: Vec<u8> = Vec::new();
    let mut i: usize = 0;
    while i < 16
        invariant
            i <= 16,
            r@.len() == i,
            forall|j: int| 0 <= j < i ==> r@[j] == spec_hex_digit(spec_nibble(x, 15 - j)),
        decreases 16 - i,
    {
        let shift: u64 = 4 * (15 - i as u64);
        let d: u64 = (x >> shift) & 0xf;
        proof {
            assert(d == spec_nibble(x, 15 - i as int));
            assert(d < 16) by (bit_vector)
                requires d == (x >> shift) & 0xf;
        }
        let digit: u8 = if d < 10 {
            (0x30 + d) as u8
        } else {
            (0x57 + d) as u8
        };
        r.push(digit);
        i = i + 1;
    }
    r
}

} // verus!
