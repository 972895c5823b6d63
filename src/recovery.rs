//! Recovery of the linker's copy table and zero-fill table from the tail of
//! the `.init` section.
//!
//! Converting a linked executable into a `.dol` container drops the exact,
//! unaligned section sizes and merges every zero-initialised region into one.
//! The linker leaves two small tables at the end of the startup code that
//! still carry this information. They are found by scanning for an anchor
//! record, byte by byte, and then reading records at a fixed stride until a
//! zero sentinel or the end of the scanned bytes.
use vstd::prelude::*;
use vstd::slice::slice_subrange;

use crate::bytes::{be32, read_be32};

verus! {

/// How many bytes at the end of the `.init` section are searched.
pub const SEARCH_WINDOW: usize = 0x200;

/// Width in bytes of one copy-table record.
pub const ROM_RECORD_SIZE: usize = 12;

/// Width in bytes of one zero-fill-table record.
pub const BSS_RECORD_SIZE: usize = 8;

/// One entry of the copy table: at startup, `size` bytes are copied from
/// `rom_address` (where the loader put them) to `ram_address`.
#[derive(Debug, Clone, Copy, PartialEq, Eq, Structural)]
pub struct RomCopyInfo {
    /// On-disk (ROM) address of the section.
    pub rom_address: u32,
    /// In-memory (RAM) address of the section.
    pub ram_address: u32,
    /// The exact, unaligned size of the section in bytes.
    pub size: u32,
}

/// One entry of the zero-fill table: at startup, `size` bytes at
/// `ram_address` are cleared.
#[derive(Debug, Clone, Copy, PartialEq, Eq, Structural)]
pub struct BssInitInfo {
    /// In-memory (RAM) address of the region.
    pub ram_address: u32,
    /// The exact size of the region in bytes.
    pub size: u32,
}

/// The bytes that are searched: at most the last `SEARCH_WINDOW` bytes of `d`.
pub open spec fn search_tail(d: Seq<u8>) -> Seq<u8> {
    if d.len() > SEARCH_WINDOW {
        d.subrange(d.len() - SEARCH_WINDOW, d.len() as int)
    } else {
        d
    }
}

/// The copy-table record decoded at byte offset `p` of `t`.
pub open spec fn rom_record(t: Seq<u8>, p: int) -> RomCopyInfo {
    RomCopyInfo { rom_address: be32(t, p), ram_address: be32(t, p + 4), size: be32(t, p + 8) }
}

/// The zero-fill-table record decoded at byte offset `p` of `t`.
pub open spec fn bss_record(t: Seq<u8>, p: int) -> BssInitInfo {
    BssInitInfo { ram_address: be32(t, p), size: be32(t, p + 4) }
}

/// A whole copy-table record fits at `p`, and both its addresses are `address`.
pub open spec fn is_rom_anchor(t: Seq<u8>, p: int, address: u32) -> bool {
    0 <= p && p + ROM_RECORD_SIZE <= t.len() && be32(t, p) == address && be32(t, p + 4) == address
}

/// A whole zero-fill record fits at `p`, and its address is `address`.
pub open spec fn is_bss_anchor(t: Seq<u8>, p: int, address: u32) -> bool {
    0 <= p && p + BSS_RECORD_SIZE <= t.len() && be32(t, p) == address
}

pub open spec fn is_first_rom_anchor(t: Seq<u8>, p: int, address: u32) -> bool {
    is_rom_anchor(t, p, address) && forall|q: int| 0 <= q < p ==> !is_rom_anchor(t, q, address)
}

pub open spec fn is_first_bss_anchor(t: Seq<u8>, p: int, address: u32) -> bool {
    is_bss_anchor(t, p, address) && forall|q: int| 0 <= q < p ==> !is_bss_anchor(t, q, address)
}

/// The copy-table records from `p` on, 12 bytes apart, up to (not including)
/// the first one whose on-disk address is zero or that does not fit in `t`.
pub open spec fn rom_chain(t: Seq<u8>, p: int) -> Seq<RomCopyInfo>
    decreases t.len() - p,
{
    if p + ROM_RECORD_SIZE > t.len() || be32(t, p) == 0 {
        seq![]
    } else {
        seq![rom_record(t, p)] + rom_chain(t, p + ROM_RECORD_SIZE)
    }
}

/// The zero-fill records from `p` on, 8 bytes apart, up to (not including)
/// the first one whose address is zero or that does not fit in `t`.
pub open spec fn bss_chain(t: Seq<u8>, p: int) -> Seq<BssInitInfo>
    decreases t.len() - p,
{
    if p + BSS_RECORD_SIZE > t.len() || be32(t, p) == 0 {
        seq![]
    } else {
        seq![bss_record(t, p)] + bss_chain(t, p + BSS_RECORD_SIZE)
    }
}

/// The copy table recovered from the `.init` bytes `d` loaded at `address`:
/// the chain that starts at the first anchor of the searched tail, or `None`
/// where the tail has no anchor.
pub open spec fn rom_table(d: Seq<u8>, address: u32) -> Option<Seq<RomCopyInfo>> {
    let t = search_tail(d);
    if exists|p: int| is_first_rom_anchor(t, p, address) {
        Some(rom_chain(t, choose|p: int| is_first_rom_anchor(t, p, address)))
    } else {
        None
    }
}

/// The zero-fill table recovered from the `.init` bytes `d`, anchored on the
/// zero-fill address `address`, or `None` where the searched tail has no anchor.
pub open spec fn bss_table(d: Seq<u8>, address: u32) -> Option<Seq<BssInitInfo>> {
    let t = search_tail(d);
    if exists|p: int| is_first_bss_anchor(t, p, address) {
        Some(bss_chain(t, choose|p: int| is_first_bss_anchor(t, p, address)))
    } else {
        None
    }
}

pub open spec fn opt_seq<T>(o: Option<Vec<T>>) -> Option<Seq<T>> {
    match o {
        Some(v) => Some(v@),
        None => None,
    }
}

fn tail_of(data: &[u8]) -> (t: &[u8])
    ensures
        t@ == search_tail(data@),
        t@.len() <= SEARCH_WINDOW,
{
    if data.len() > SEARCH_WINDOW {
        slice_subrange(data, data.len() - SEARCH_WINDOW, data.len())
    } else {
        data
    }
}

/// Searches the last `SEARCH_WINDOW` bytes of the `.init` section `data`,
/// loaded at `address`, for the copy table.
pub fn rom_copy_info_search(data: &[u8], address: u32) -> (r: Option<Vec<RomCopyInfo>>)
    ensures
        opt_seq(r) == rom_table(data@, address),
{
    let t = tail_of(data);
    let mut p: usize = 0;
    loop
        invariant
            p <= t@.len() <= SEARCH_WINDOW,
            t@ == search_tail(data@),
            forall|q: int| 0 <= q < p ==> !is_rom_anchor(t@, q, address),
        ensures
            is_first_rom_anchor(t@, p as int, address),
        decreases t@.len() - p,
    {
        if p + ROM_RECORD_SIZE > t.len() {
            assert forall|q: int| !is_first_rom_anchor(t@, q, address) by {
                if is_first_rom_anchor(t@, q, address) {
                    assert(q < p);
                }
            }
            return None;
        }
        if read_be32(t, p) == address && read_be32(t, p + 4) == address {
            break;
        }
        p = p + 1;
    }
    let ghost a = p as int;
    assert(is_first_rom_anchor(t@, a, address));
    assert forall|q: int| #[trigger] is_first_rom_anchor(t@, q, address) implies q == a by {
        if q < a {
        } else if a < q {
            assert(!is_rom_anchor(t@, a, address));
        }
    }
    let mut v: Vec<RomCopyInfo> = Vec::new();
    while p + ROM_RECORD_SIZE <= t.len() && read_be32(t, p) != 0
        invariant
            p <= t@.len() <= SEARCH_WINDOW,
            v@ + rom_chain(t@, p as int) == rom_chain(t@, a),
            t@ == search_tail(data@),
            is_first_rom_anchor(t@, a, address),
            forall|q: int| #[trigger] is_first_rom_anchor(t@, q, address) ==> q == a,
        decreases t@.len() - p,
    {
        let rec = RomCopyInfo {
            rom_address: read_be32(t, p),
            ram_address: read_be32(t, p + 4),
            size: read_be32(t, p + 8),
        };
        assert(v@.push(rec) + rom_chain(t@, p + ROM_RECORD_SIZE) =~= v@ + rom_chain(t@, p as int));
        v.push(rec);
        p = p + ROM_RECORD_SIZE;
    }
    assert(v@ + rom_chain(t@, p as int) =~= v@);
    Some(v)
}

/// Searches the last `SEARCH_WINDOW` bytes of the `.init` section `data` for
/// the zero-fill table, anchored on the header's zero-fill `address`.
pub fn bss_init_info_search(data: &[u8], address: u32) -> (r: Option<Vec<BssInitInfo>>)
    ensures
        opt_seq(r) == bss_table(data@, address),
{
    let t = tail_of(data);
    let mut p: usize = 0;
    loop
        invariant
            p <= t@.len() <= SEARCH_WINDOW,
            t@ == search_tail(data@),
            forall|q: int| 0 <= q < p ==> !is_bss_anchor(t@, q, address),
        ensures
            is_first_bss_anchor(t@, p as int, address),
        decreases t@.len() - p,
    {
        if p + BSS_RECORD_SIZE > t.len() {
            assert forall|q: int| !is_first_bss_anchor(t@, q, address) by {
                if is_first_bss_anchor(t@, q, address) {
                    assert(q < p);
                }
            }
            return None;
        }
        if read_be32(t, p) == address {
            break;
        }
        p = p + 1;
    }
    let ghost a = p as int;
    assert(is_first_bss_anchor(t@, a, address));
    assert forall|q: int| #[trigger] is_first_bss_anchor(t@, q, address) implies q == a by {
        if q < a {
        } else if a < q {
            assert(!is_bss_anchor(t@, a, address));
        }
    }
    let mut v: Vec<BssInitInfo> = Vec::new();
    while p + BSS_RECORD_SIZE <= t.len() && read_be32(t, p) != 0
        invariant
            p <= t@.len() <= SEARCH_WINDOW,
            v@ + bss_chain(t@, p as int) == bss_chain(t@, a),
            t@ == search_tail(data@),
            is_first_bss_anchor(t@, a, address),
            forall|q: int| #[trigger] is_first_bss_anchor(t@, q, address) ==> q == a,
        decreases t@.len() - p,
    {
        let rec = BssInitInfo { ram_address: read_be32(t, p), size: read_be32(t, p + 4) };
        assert(v@.push(rec) + bss_chain(t@, p + BSS_RECORD_SIZE) =~= v@ + bss_chain(t@, p as int));
        v.push(rec);
        p = p + BSS_RECORD_SIZE;
    }
    assert(v@ + bss_chain(t@, p as int) =~= v@);
    Some(v)
}

/// The recovered copy-table records come in file order: record `k` is the one
/// decoded `12 * k` bytes after the start, each has a non-zero on-disk
/// address and fits in `t`, and the chain ends just before a record with a
/// zero on-disk address or one that would run past the end of `t`.
pub proof fn lemma_rom_chain_shape(t: Seq<u8>, p: int)
    requires
        0 <= p,
    ensures
        forall|k: int|
            0 <= k < rom_chain(t, p).len() ==> #[trigger] rom_chain(t, p)[k] == rom_record(
                t,
                p + ROM_RECORD_SIZE * k,
            ) && rom_chain(t, p)[k].rom_address != 0 && p + ROM_RECORD_SIZE * k
                + ROM_RECORD_SIZE <= t.len(),
        p + ROM_RECORD_SIZE * rom_chain(t, p).len() + ROM_RECORD_SIZE > t.len() || be32(
            t,
            p + ROM_RECORD_SIZE * rom_chain(t, p).len(),
        ) == 0,
    decreases t.len() - p,
{
    if p + ROM_RECORD_SIZE > t.len() || be32(t, p) == 0 {
    } else {
        lemma_rom_chain_shape(t, p + ROM_RECORD_SIZE);
        let rest = rom_chain(t, p + ROM_RECORD_SIZE);
        assert forall|k: int| 0 <= k < rom_chain(t, p).len() implies #[trigger] rom_chain(t, p)[k]
            == rom_record(t, p + ROM_RECORD_SIZE * k) && rom_chain(t, p)[k].rom_address != 0 && p
            + ROM_RECORD_SIZE * k + ROM_RECORD_SIZE <= t.len() by {
            if k > 0 {
                assert(rom_chain(t, p)[k] == rest[k - 1]);
            }
        }
    }
}

/// An anchor whose own on-disk address is zero (possible only for an
/// `.init` section loaded at address zero) yields an empty copy table, not
/// a missing one.
pub proof fn lemma_rom_sentinel_at_anchor(d: Seq<u8>, address: u32, p: int)
    requires
        is_first_rom_anchor(search_tail(d), p, address),
        be32(search_tail(d), p) == 0,
    ensures
        rom_table(d, address) == Some(Seq::<RomCopyInfo>::empty()),
{
    let t = search_tail(d);
    let q = choose|q: int| is_first_rom_anchor(t, q, address);
    assert(q == p) by {
        if q < p {
            assert(!is_rom_anchor(t, q, address));
        } else if p < q {
            assert(!is_rom_anchor(t, p, address));
        }
    }
    assert(rom_chain(t, p) =~= Seq::<RomCopyInfo>::empty());
}

/// An anchor whose own address is zero (the header's zero-fill address is
/// zero) yields an empty zero-fill table, not a missing one.
pub proof fn lemma_bss_sentinel_at_anchor(d: Seq<u8>, address: u32, p: int)
    requires
        is_first_bss_anchor(search_tail(d), p, address),
        be32(search_tail(d), p) == 0,
    ensures
        bss_table(d, address) == Some(Seq::<BssInitInfo>::empty()),
{
    let t = search_tail(d);
    let q = choose|q: int| is_first_bss_anchor(t, q, address);
    assert(q == p) by {
        if q < p {
            assert(!is_bss_anchor(t, q, address));
        } else if p < q {
            assert(!is_bss_anchor(t, p, address));
        }
    }
    assert(bss_chain(t, p) =~= Seq::<BssInitInfo>::empty());
}

} // verus!
