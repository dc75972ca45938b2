//! Shadow memory: one tag byte per aligned 8-byte cell of the guest address
//! space.
//!
//! A byte of guest memory is accessible iff its cell's tag is `Valid` (0), or
//! the tag is a partial tag `k` in `1..=7` and the byte's offset within its
//! cell is strictly below `k` (the low `k` bytes of the cell are valid, the
//! rest are poisoned).  Tags of value 8 and above are reason tags; every byte
//! of such a cell is inaccessible.
//!
//! The map is sparse: cells that were never written carry the all-valid
//! baseline tag 0.  Its abstract view is the total map from cell index to tag.

use vstd::prelude::*;
use std::collections::HashMap;

verus! {

broadcast use vstd::std_specs::hash::group_hash_axioms;

/// The tag vocabulary shared with the guest-side runtime.  `Valid` and the
/// `Partial` tags encode accessibility; the remaining tags name the reason a
/// region is poisoned (heap redzones, stack redzones, freed memory, ...).
#[derive(Clone, Copy, Debug, PartialEq, Eq, Structural)]
pub enum PoisonKind {
    Valid,
    Partial1,
    Partial2,
    Partial3,
    Partial4,
    Partial5,
    Partial6,
    Partial7,
    ArrayCookie,
    StackRz,
    StackLeftRz,
    StackMidRz,
    StackRightRz,
    StacKFreed,
    StackOOScope,
    GlobalRz,
    HeapRz,
    User,
    HeapLeftRz,
    HeapRightRz,
    HeapFreed,
}

impl PoisonKind {
    /// The byte value of this tag in the guest protocol.
    pub open spec fn as_byte(self) -> u8 {
        match self {
            PoisonKind::Valid => 0,
            PoisonKind::Partial1 => 1,
            PoisonKind::Partial2 => 2,
            PoisonKind::Partial3 => 3,
            PoisonKind::Partial4 => 4,
            PoisonKind::Partial5 => 5,
            PoisonKind::Partial6 => 6,
            PoisonKind::Partial7 => 7,
            PoisonKind::ArrayCookie => 0xac,
            PoisonKind::StackRz => 0xf0,
            PoisonKind::StackLeftRz => 0xf1,
            PoisonKind::StackMidRz => 0xf2,
            PoisonKind::StackRightRz => 0xf3,
            PoisonKind::StacKFreed => 0xf5,
            PoisonKind::StackOOScope => 0xf8,
            PoisonKind::GlobalRz => 0xf9,
            PoisonKind::HeapRz => 0xe9,
            PoisonKind::User => 0xf7,
            PoisonKind::HeapLeftRz => 0xfa,
            PoisonKind::HeapRightRz => 0xfb,
            PoisonKind::HeapFreed => 0xfd,
        }
    }

    /// Convert the tag to its protocol byte.
    pub fn to_byte(self) -> (b: u8)
        ensures
            b == self.as_byte(),
    {
        match self {
            PoisonKind::Valid => 0,
            PoisonKind::Partial1 => 1,
            PoisonKind::Partial2 => 2,
            PoisonKind::Partial3 => 3,
            PoisonKind::Partial4 => 4,
            PoisonKind::Partial5 => 5,
            PoisonKind::Partial6 => 6,
            PoisonKind::Partial7 => 7,
            PoisonKind::ArrayCookie => 0xac,
            PoisonKind::StackRz => 0xf0,
            PoisonKind::StackLeftRz => 0xf1,
            PoisonKind::StackMidRz => 0xf2,
            PoisonKind::StackRightRz => 0xf3,
            PoisonKind::StacKFreed => 0xf5,
            PoisonKind::StackOOScope => 0xf8,
            PoisonKind::GlobalRz => 0xf9,
            PoisonKind::HeapRz => 0xe9,
            PoisonKind::User => 0xf7,
            PoisonKind::HeapLeftRz => 0xfa,
            PoisonKind::HeapRightRz => 0xfb,
            PoisonKind::HeapFreed => 0xfd,
        }
    }

    /// Whether `b` is the protocol byte of some tag.
    pub open spec fn is_tag_byte(b: u8) -> bool {
        ||| b <= 7
        ||| b == 0xac
        ||| b == 0xe9
        ||| (0xf0 <= b && b <= 0xf3)
        ||| b == 0xf5
        ||| (0xf7 <= b && b <= 0xfb)
        ||| b == 0xfd
    }

    /// Decode a protocol byte back into a tag.
    pub fn try_from_u8(b: u8) -> (r: Option<PoisonKind>)
        ensures
            r.is_some() <==> PoisonKind::is_tag_byte(b),
            match r {
                Some(k) => k.as_byte() == b,
                None => true,
            },
    {
        match b {
            0 => Some(PoisonKind::Valid),
            1 => Some(PoisonKind::Partial1),
            2 => Some(PoisonKind::Partial2),
            3 => Some(PoisonKind::Partial3),
            4 => Some(PoisonKind::Partial4),
            5 => Some(PoisonKind::Partial5),
            6 => Some(PoisonKind::Partial6),
            7 => Some(PoisonKind::Partial7),
            0xac => Some(PoisonKind::ArrayCookie),
            0xf0 => Some(PoisonKind::StackRz),
            0xf1 => Some(PoisonKind::StackLeftRz),
            0xf2 => Some(PoisonKind::StackMidRz),
            0xf3 => Some(PoisonKind::StackRightRz),
            0xf5 => Some(PoisonKind::StacKFreed),
            0xf8 => Some(PoisonKind::StackOOScope),
            0xf9 => Some(PoisonKind::GlobalRz),
            0xe9 => Some(PoisonKind::HeapRz),
            0xf7 => Some(PoisonKind::User),
            0xfa => Some(PoisonKind::HeapLeftRz),
            0xfb => Some(PoisonKind::HeapRightRz),
            0xfd => Some(PoisonKind::HeapFreed),
            _ => None,
        }
    }
}

/// The all-valid baseline: every cell carries tag 0.
pub open spec fn all_valid() -> Map<u64, u8> {
    Map::new(|c: u64| true, |c: u64| 0u8)
}

/// Whether cell `c` lies entirely inside the byte range `[addr, end)`.
pub open spec fn cell_inside(addr: int, end: int, c: int) -> bool {
    addr <= 8 * c && 8 * c + 8 <= end
}

/// Whether cell `c` shares at least one byte with the byte range `[addr, end)`.
pub open spec fn cell_overlaps(addr: int, end: int, c: int) -> bool {
    addr < end && 8 * c < end && addr < 8 * c + 8
}

/// The tag of cell `c` after poisoning `[addr, end)` with `tag`, given its
/// previous tag.  Cells fully covered take the tag.  A partially covered cell
/// keeps an existing reason tag; otherwise it becomes a partial tag: the
/// range's first offset if the range runs past the cell, the range's end
/// offset if the range stops inside it.
pub open spec fn poison_tag_update(old_tag: u8, addr: int, end: int, tag: u8, c: int) -> u8 {
    if cell_inside(addr, end, c) {
        tag
    } else if !cell_overlaps(addr, end, c) {
        old_tag
    } else if old_tag >= 8 {
        old_tag
    } else if 8 * c + 8 <= end {
        (addr % 8) as u8
    } else {
        (end % 8) as u8
    }
}

/// The whole shadow map after poisoning `[addr, addr+n)` with `tag`.
pub open spec fn spec_poison(m: Map<u64, u8>, addr: u64, n: u64, tag: u8) -> Map<u64, u8> {
    Map::new(
        |c: u64| true,
        |c: u64| poison_tag_update(m[c], addr as int, addr + n, tag, c as int),
    )
}

/// The tag of cell `c` after unpoisoning `[addr, end)`.  Covered cells become
/// valid; if the range stops inside a cell, that cell becomes a partial tag
/// recording how many of its leading bytes the range reached.
pub open spec fn unpoison_tag_update(old_tag: u8, addr: int, end: int, c: int) -> u8 {
    if !cell_overlaps(addr, end, c) {
        old_tag
    } else if end % 8 != 0 && c == end / 8 {
        (end % 8) as u8
    } else {
        0u8
    }
}

/// The whole shadow map after unpoisoning `[addr, addr+n)`.
pub open spec fn spec_unpoison(m: Map<u64, u8>, addr: u64, n: u64) -> Map<u64, u8> {
    Map::new(|c: u64| true, |c: u64| unpoison_tag_update(m[c], addr as int, addr + n, c as int))
}

/// The accessibility rule: byte `a` may be touched iff its cell is valid, or
/// the cell's tag is a partial tag strictly above the byte's offset in the
/// cell.
pub open spec fn byte_ok(m: Map<u64, u8>, a: u64) -> bool {
    let t = m[a / 8];
    t == 0 || (t < 8 && a % 8 < t)
}

/// Byte-granularity poison state for the guest address space, stored sparsely
/// per 8-byte cell; absent cells are valid.
pub struct ShadowMap {
    cells: HashMap<u64, u8>,
}

impl View for ShadowMap {
    type V = Map<u64, u8>;

    closed spec fn view(&self) -> Map<u64, u8> {
        Map::new(
            |c: u64| true,
            |c: u64|
                if self.cells@.dom().contains(c) {
                    self.cells@[c]
                } else {
                    0u8
                },
        )
    }
}

impl ShadowMap {
    /// A fresh map: everything valid.
    pub fn new() -> (s: Self)
        ensures
            s@ == all_valid(),
    {
        let s = ShadowMap { cells: HashMap::new() };
        proof {
            assert(s@ =~= all_valid());
        }
        s
    }

    /// Restore the all-valid baseline.
    pub fn clear(&mut self)
        ensures
            final(self)@ == all_valid(),
    {
        self.cells.clear();
        proof {
            assert(self@ =~= all_valid());
        }
    }

    /// The tag of one cell.
    pub fn cell_tag(&self, c: u64) -> (t: u8)
        ensures
            t == self@[c],
    {
        match self.cells.get(&c) {
            Some(t) => *t,
            None => 0,
        }
    }

    /// Whether byte `a` may be accessed.
    pub fn byte_accessible(&self, a: u64) -> (b: bool)
        ensures
            b == byte_ok(self@, a),
    {
        let t = self.cell_tag(a / 8);
        t == 0 || (t < 8 && a % 8 < t as u64)
    }

    /// Poison `[addr, addr+n)` with tag byte `tag`: fully covered cells take
    /// the tag, partially covered cells become partial tags unless an
    /// existing reason tag wins.
    pub fn poison(&mut self, addr: u64, n: u64, tag: u8)
        requires
            addr + n <= u64::MAX,
        ensures
            final(self)@ == spec_poison(old(self)@, addr, n, tag),
    {
        let ghost m0 = self@;
        let end = addr + n;
        if n == 0 {
            proof {
                assert(self@ =~= spec_poison(m0, addr, n, tag));
            }
            return;
        }
        let first = addr / 8;
        let last = (end - 1) / 8;
        proof {
            lemma_div8(addr);
            lemma_div8((end - 1) as u64);
            lemma_div8(end);
        }
        let lo_full = if addr % 8 == 0 { addr / 8 } else { addr / 8 + 1 };
        let mut c = first;
        while c <= last
            invariant
                addr + n <= u64::MAX,
                n > 0,
                end == addr + n,
                first == addr / 8,
                last == (end - 1) as u64 / 8,
                lo_full == if addr % 8 == 0 { addr / 8 } else { (addr / 8 + 1) as u64 },
                first <= c <= last + 1,
                forall|k: u64| first <= k < c ==> self@[k] == poison_tag_update(m0[k], addr as int, end as int, tag, k as int),
                forall|k: u64| !(first <= k < c) ==> self@[k] == m0[k],
            decreases last + 1 - c,
        {
            proof {
                lemma_div8(addr);
                lemma_div8((end - 1) as u64);
                lemma_div8(end);
                lemma_cell_bounds(addr, end, c);
            }
            let new_tag: u8 = if lo_full <= c && c < end / 8 {
                // fully covered
                tag
            } else {
                let t = self.cell_tag(c);
                if t >= 8 {
                    t
                } else if c < end / 8 {
                    // the range starts inside this cell and runs past it
                    (addr % 8) as u8
                } else {
                    // the range stops inside this cell
                    (end % 8) as u8
                }
            };
            proof {
                assert(new_tag == poison_tag_update(m0[c], addr as int, end as int, tag, c as int));
            }
            let ghost mprev = self@;
            self.cells.insert(c, new_tag);
            proof {
                assert(self@[c] == new_tag);
                assert forall|k: u64| k != c implies self@[k] == mprev[k] by {
                }
                assert forall|k: u64| first <= k < c + 1 implies self@[k] == poison_tag_update(
                    m0[k], addr as int, end as int, tag, k as int) by {
                    if k == c {
                        assert(self@[k] == new_tag);
                    } else {
                        assert(self@[k] == mprev[k]);
                        assert(mprev[k] == poison_tag_update(m0[k], addr as int, end as int, tag, k as int));
                    }
                }
                assert forall|k: u64| !(first <= k < c + 1) implies self@[k] == m0[k] by {
                    assert(self@[k] == mprev[k]);
                    assert(mprev[k] == m0[k]);
                }
            }
            c = c + 1;
        }
        proof {
            assert forall|k: u64| self@[k] == poison_tag_update(m0[k], addr as int, end as int, tag, k as int) by {
                if !(first <= k < c) {
                    lemma_div8(addr);
                    lemma_div8((end - 1) as u64);
                    lemma_outside_no_overlap(addr, end, k);
                }
            }
            assert(self@ =~= spec_poison(m0, addr, n, tag));
        }
    }

    /// Unpoison `[addr, addr+n)`: covered cells become valid; if the range
    /// stops inside a cell, that cell becomes a partial tag whose value is
    /// the range's end offset.
    pub fn unpoison(&mut self, addr: u64, n: u64)
        requires
            addr + n <= u64::MAX,
        ensures
            final(self)@ == spec_unpoison(old(self)@, addr, n),
    {
        let ghost m0 = self@;
        let end = addr + n;
        if n == 0 {
            proof {
                assert(self@ =~= spec_unpoison(m0, addr, n));
            }
            return;
        }
        let first = addr / 8;
        let last = (end - 1) / 8;
        let mut c = first;
        while c <= last
            invariant
                addr + n <= u64::MAX,
                n > 0,
                end == addr + n,
                first == addr / 8,
                last == (end - 1) as u64 / 8,
                first <= c <= last + 1,
                forall|k: u64| first <= k < c ==> self@[k] == unpoison_tag_update(m0[k], addr as int, end as int, k as int),
                forall|k: u64| !(first <= k < c) ==> self@[k] == m0[k],
            decreases last + 1 - c,
        {
            proof {
                lemma_div8(addr);
                lemma_div8((end - 1) as u64);
                lemma_div8(end);
                lemma_cell_bounds(addr, end, c);
            }
            let new_tag: u8 = if end % 8 != 0 && c == end / 8 {
                (end % 8) as u8
            } else {
                0
            };
            proof {
                assert(new_tag == unpoison_tag_update(m0[c], addr as int, end as int, c as int));
            }
            let ghost mprev = self@;
            self.cells.insert(c, new_tag);
            proof {
                assert(self@[c] == new_tag);
                assert forall|k: u64| k != c implies self@[k] == mprev[k] by {
                }
                assert forall|k: u64| first <= k < c + 1 implies self@[k] == unpoison_tag_update(
                    m0[k], addr as int, end as int, k as int) by {
                    if k == c {
                        assert(self@[k] == new_tag);
                    } else {
                        assert(self@[k] == mprev[k]);
                        assert(mprev[k] == unpoison_tag_update(m0[k], addr as int, end as int, k as int));
                    }
                }
                assert forall|k: u64| !(first <= k < c + 1) implies self@[k] == m0[k] by {
                    assert(self@[k] == mprev[k]);
                    assert(mprev[k] == m0[k]);
                }
            }
            c = c + 1;
        }
        proof {
            assert forall|k: u64| self@[k] == unpoison_tag_update(m0[k], addr as int, end as int, k as int) by {
                if !(first <= k < c) {
                    lemma_div8(addr);
                    lemma_div8((end - 1) as u64);
                    lemma_outside_no_overlap(addr, end, k);
                }
            }
            assert(self@ =~= spec_unpoison(m0, addr, n));
        }
    }

    /// Check `[addr, addr+n)` byte by byte: `None` when every byte is
    /// accessible, otherwise the offset of the first inaccessible byte.
    pub fn check(&self, addr: u64, n: u64) -> (r: Option<u64>)
        requires
            addr + n <= u64::MAX,
        ensures
            match r {
                None => forall|a: u64| addr <= a < addr + n ==> byte_ok(self@, a),
                Some(off) => off < n && !byte_ok(self@, (addr + off) as u64) && forall|a: u64|
                    addr <= a < addr + off ==> byte_ok(self@, a),
            },
    {
        let mut i: u64 = 0;
        loop
            invariant
                addr + n <= u64::MAX,
                i <= n,
                forall|a: u64| addr <= a < addr + i ==> byte_ok(self@, a),
            decreases n - i,
        {
            if i >= n {
                return None;
            }
            if !self.byte_accessible(addr + i) {
                return Some(i);
            }
            i = i + 1;
        }
    }
}

/// Round-trip law: poisoning any nonempty range with any tag and then
/// unpoisoning the same range leaves every byte of the range accessible.
pub proof fn lemma_poison_unpoison_round_trip(m: Map<u64, u8>, addr: u64, n: u64, tag: u8)
    requires
        0 < n,
        addr + n <= u64::MAX,
    ensures
        forall|a: u64|
            addr <= a < addr + n ==> byte_ok(
                spec_unpoison(spec_poison(m, addr, n, tag), addr, n),
                a,
            ),
{
    let end = addr + n;
    assert forall|a: u64| addr <= a < addr + n implies byte_ok(
        spec_unpoison(spec_poison(m, addr, n, tag), addr, n),
        a,
    ) by {
        lemma_div8(a);
        lemma_div8(end as u64);
        let c = a / 8;
        assert(cell_overlaps(addr as int, end as int, c as int));
        if end % 8 != 0 && c == end / 8 {
            assert(a % 8 < end % 8);
        }
    }
}

/// Partial-cell law: poisoning an aligned range whose length stops `n % 8`
/// bytes into its final cell leaves that cell with the partial tag `n % 8`,
/// so single-byte reads at offsets below `n % 8` pass and the remaining
/// offsets fail.  The cell must not already carry a reason tag, which would
/// win instead.
pub proof fn lemma_poison_partial_tail(m: Map<u64, u8>, addr: u64, n: u64, tag: u8)
    requires
        addr % 8 == 0,
        n % 8 != 0,
        addr + n <= u64::MAX - 7,
        m[((addr + n) / 8) as u64] < 8,
    ensures
        ({
            let p = spec_poison(m, addr, n, tag);
            let cell = ((addr + n) / 8) as u64;
            &&& p[cell] == n % 8
            &&& forall|a: u64| 8 * cell <= a < 8 * cell + n % 8 ==> byte_ok(p, a)
            &&& forall|a: u64| 8 * cell + n % 8 <= a < 8 * cell + 8 ==> !byte_ok(p, a)
        }),
{
    let end = addr + n;
    let p = spec_poison(m, addr, n, tag);
    let cell = ((addr + n) / 8) as u64;
    lemma_div8(addr);
    lemma_div8(end as u64);
    lemma_div8(n);
    assert(end as u64 % 8 == n % 8) by (nonlinear_arith)
        requires addr % 8 == 0, end == addr + n, addr + n <= u64::MAX;
    assert(addr <= 8 * cell);
    assert(p[cell] == n % 8);
    assert forall|a: u64| 8 * cell <= a < 8 * cell + 8 implies #[trigger] (a / 8) == cell && a % 8
        == a - 8 * cell by {
        lemma_cell_offset(cell, (a - 8 * cell) as u64);
    }
}

/// A byte written as cell base plus offset recovers its cell and offset.
proof fn lemma_cell_offset(cell: u64, off: u64)
    requires
        off < 8,
        8 * cell + off <= u64::MAX,
    ensures
        ((8 * cell + off) as u64) / 8 == cell,
        ((8 * cell + off) as u64) % 8 == off,
{
    assert(((8 * cell + off) as u64) / 8 == cell && ((8 * cell + off) as u64) % 8 == off)
        by (nonlinear_arith)
        requires off < 8, 8 * cell + off <= u64::MAX;
}

/// Division by eight splits an address into its cell and offset.
pub proof fn lemma_div8(a: u64)
    ensures
        8 * (a / 8) <= a < 8 * (a / 8) + 8,
        a % 8 == a - 8 * (a / 8),
        a % 8 < 8,
{
    assert(8 * (a / 8) <= a < 8 * (a / 8) + 8 && a % 8 == a - 8 * (a / 8) && a % 8 < 8)
        by (nonlinear_arith);
}

/// A cell strictly before the first or after the last cell of a nonempty
/// range shares no byte with it.
proof fn lemma_outside_no_overlap(addr: u64, end: u64, k: u64)
    requires
        addr < end,
        k < addr / 8 || k > (end - 1) as u64 / 8,
    ensures
        !cell_overlaps(addr as int, end as int, k as int),
{
    lemma_div8(addr);
    lemma_div8((end - 1) as u64);
    if k < addr / 8 {
        assert(8 * k + 8 <= 8 * (addr / 8)) by (nonlinear_arith)
            requires k + 1 <= addr / 8;
    } else {
        assert(8 * ((end - 1) as u64 / 8) + 8 <= 8 * k) by (nonlinear_arith)
            requires (end - 1) as u64 / 8 + 1 <= k;
    }
}

/// Arithmetic facts relating a cell of a nonempty range to the range's
/// aligned bounds, as the poison and unpoison loops decide them.
proof fn lemma_cell_bounds(addr: u64, end: u64, c: u64)
    requires
        addr < end,
        addr / 8 <= c <= (end - 1) as u64 / 8,
    ensures
        cell_overlaps(addr as int, end as int, c as int),
        (8 * c + 8 <= end) <==> c < end / 8,
        (addr <= 8 * c) <==> (if addr % 8 == 0 { addr / 8 <= c } else { addr / 8 + 1 <= c }),
        c == end / 8 && end % 8 != 0 ==> end % 8 == end - 8 * c,
        addr / 8 == c ==> addr % 8 == addr - 8 * c,
{
    lemma_div8(addr);
    lemma_div8(end);
    lemma_div8((end - 1) as u64);
    lemma_div8(c);
    assert(8 * (addr / 8) <= 8 * c) by (nonlinear_arith)
        requires addr / 8 <= c;
    assert(8 * c <= 8 * ((end - 1) as u64 / 8)) by (nonlinear_arith)
        requires c <= (end - 1) as u64 / 8;
    assert((8 * c + 8 <= end) <==> c < end / 8) by (nonlinear_arith)
        requires end >= 1;
    assert((addr <= 8 * c) <==> (if addr % 8 == 0 { addr / 8 <= c } else { addr / 8 + 1 <= c }))
        by (nonlinear_arith);
    assert(c == end / 8 ==> 8 * c == 8 * (end / 8)) by (nonlinear_arith);
}

} // verus!
