//! The `.dol` container: its fixed header, its sections, and the parse that
//! turns the container's bytes into a [`Dol`].
//!
//! All header fields are unsigned 32-bit big-endian integers. The header
//! holds, in this order, seven text-section offsets, eleven data-section
//! offsets, the addresses and then the sizes of the same eighteen slots, the
//! zero-fill address and size, and the entry point: 228 bytes in all.
use vstd::prelude::*;
use vstd::slice::{slice_subrange, slice_to_vec};
use vstd::string::StrSliceExecFns;

use crate::bytes::{be32, read_be32};
use crate::recovery::{
    bss_init_info_search, bss_table, opt_seq, rom_copy_info_search, rom_table, BssInitInfo,
    RomCopyInfo,
};

verus! {

/// Size in bytes of the fixed header.
pub const HEADER_SIZE: u32 = 0xE4;

/// Number of text-section slots in the header.
pub const TEXT_SLOTS: usize = 7;

/// Number of text and data slots together.
pub const SLOTS: usize = 18;

/// Most zero-fill sections that have a conventional name.
pub const MAX_BSS_SECTIONS: usize = 3;

/// Why a container could not be parsed.
#[derive(Debug, Clone, Copy, PartialEq, Eq, Structural)]
pub enum DeserializeError {
    /// The source ended before `length` bytes could be read at `offset`.
    UnexpectedEof { offset: u32, length: u32 },
    /// The container needs more sections of one kind than have names.
    LayoutViolation,
    /// The operation is not supported.
    Unsupported,
}

/// The `.dol` header exactly as stored, with each field in native byte order.
#[derive(Debug)]
pub struct Header {
    pub text_offset: [u32; 7],
    pub data_offset: [u32; 11],
    pub text_address: [u32; 7],
    pub data_address: [u32; 11],
    pub text_size: [u32; 7],
    pub data_size: [u32; 11],
    pub bss_address: u32,
    pub bss_size: u32,
    pub entry_point: u32,
}

/// Kind of a section.
#[derive(Debug, Clone, Copy, PartialEq, Eq, Structural)]
pub enum SectionKind {
    /// Code, e.g. `.init` or `.text`.
    Text,
    /// Initialised data, e.g. `.ctors`, `.rodata` or `.data`.
    Data,
    /// Zero-initialised data, e.g. `.bss` or `.sbss`.
    Bss,
}

/// A section of the container.
#[derive(Debug)]
pub struct Section {
    /// The kind of section.
    pub kind: SectionKind,
    /// The conventional name, guessed from the kind and the position of the
    /// section: the container itself stores no names.
    pub name: &'static str,
    /// The address that the section is loaded to.
    pub address: u32,
    /// The size in bytes (the exact size, where the copy table gave one).
    pub size: u32,
    /// The size in bytes as the container lays it out.
    pub aligned_size: u32,
    /// The section's bytes; empty for a zero-fill section.
    pub data: Vec<u8>,
}

/// The mathematical value of a [`Section`].
pub struct SectionView {
    pub kind: SectionKind,
    pub name: Seq<char>,
    pub address: u32,
    pub size: u32,
    pub aligned_size: u32,
    pub data: Seq<u8>,
}

impl View for Section {
    type V = SectionView;

    open spec fn view(&self) -> SectionView {
        SectionView {
            kind: self.kind,
            name: self.name@,
            address: self.address,
            size: self.size,
            aligned_size: self.aligned_size,
            data: self.data@,
        }
    }
}

/// A parsed container.
pub struct Dol {
    /// The header as stored.
    pub header: Header,
    /// The copy table, where one was found at the end of `.init`.
    pub rom_copy_info: Option<Vec<RomCopyInfo>>,
    /// The zero-fill table, where one was found at the end of `.init`.
    pub bss_init_info: Option<Vec<BssInitInfo>>,
    /// Text sections, then data sections, then zero-fill sections.
    pub sections: Vec<Section>,
}

// ----- the header, read straight from the container's bytes -----

/// Offset in the file of slot `j` (text slots `0..7`, then data slots).
pub open spec fn slot_offset(s: Seq<u8>, j: int) -> u32 {
    be32(s, 4 * j)
}

/// Load address of slot `j`.
pub open spec fn slot_address(s: Seq<u8>, j: int) -> u32 {
    be32(s, 0x48 + 4 * j)
}

/// Declared size of slot `j`.
pub open spec fn slot_size(s: Seq<u8>, j: int) -> u32 {
    be32(s, 0x90 + 4 * j)
}

pub open spec fn slot_kind(j: int) -> SectionKind {
    if j < TEXT_SLOTS {
        SectionKind::Text
    } else {
        SectionKind::Data
    }
}

/// Position of slot `j` within its kind.
pub open spec fn slot_index(j: int) -> int {
    if j < TEXT_SLOTS {
        j
    } else {
        j - TEXT_SLOTS
    }
}

pub open spec fn zero_fill_address(s: Seq<u8>) -> u32 {
    be32(s, 0xD8)
}

pub open spec fn zero_fill_size(s: Seq<u8>) -> u32 {
    be32(s, 0xDC)
}

pub open spec fn entry_point_of(s: Seq<u8>) -> u32 {
    be32(s, 0xE0)
}

/// `h` holds the fields stored in the header at the start of `s`.
pub open spec fn header_matches(h: Header, s: Seq<u8>) -> bool {
    &&& forall|i: int|
        0 <= i < 7 ==> h.text_offset@[i] == slot_offset(s, i) && h.text_address@[i]
            == slot_address(s, i) && h.text_size@[i] == slot_size(s, i)
    &&& forall|i: int|
        0 <= i < 11 ==> h.data_offset@[i] == slot_offset(s, i + 7) && h.data_address@[i]
            == slot_address(s, i + 7) && h.data_size@[i] == slot_size(s, i + 7)
    &&& h.bss_address == zero_fill_address(s)
    &&& h.bss_size == zero_fill_size(s)
    &&& h.entry_point == entry_point_of(s)
}

// ----- section names -----

/// The conventional name of the section of `kind` at position `index`.
pub open spec fn name_of(kind: SectionKind, index: int) -> Option<Seq<char>> {
    match kind {
        SectionKind::Text => if index == 0 {
            Some(".init"@)
        } else if index == 1 {
            Some(".text"@)
        } else if index == 2 {
            Some(".text.2"@)
        } else if index == 3 {
            Some(".text.3"@)
        } else if index == 4 {
            Some(".text.4"@)
        } else if index == 5 {
            Some(".text.5"@)
        } else if index == 6 {
            Some(".text.6"@)
        } else {
            None
        },
        SectionKind::Data => if index == 0 {
            Some("extab_"@)
        } else if index == 1 {
            Some("extabindex_"@)
        } else if index == 2 {
            Some(".ctors"@)
        } else if index == 3 {
            Some(".dtors"@)
        } else if index == 4 {
            Some(".rodata"@)
        } else if index == 5 {
            Some(".data"@)
        } else if index == 6 {
            Some(".sdata"@)
        } else if index == 7 {
            Some(".sdata2"@)
        } else if index == 8 {
            Some(".data8"@)
        } else if index == 9 {
            Some(".data9"@)
        } else if index == 10 {
            Some(".data10"@)
        } else {
            None
        },
        SectionKind::Bss => if index == 0 {
            Some(".bss"@)
        } else if index == 1 {
            Some(".sbss"@)
        } else if index == 2 {
            Some(".sbss2"@)
        } else {
            None
        },
    }
}

/// The conventional name of the section of `kind` at position `index`, or
/// `LayoutViolation` where that kind has no section at that position.
pub fn section_name(kind: SectionKind, index: usize) -> (r: Result<&'static str, DeserializeError>)
    ensures
        match r {
            Ok(n) => name_of(kind, index as int) == Some(n@),
            Err(e) => name_of(kind, index as int) is None && e == DeserializeError::LayoutViolation,
        },
{
    match kind {
        SectionKind::Text => match index {
            0 => Ok(".init"),
            1 => Ok(".text"),
            2 => Ok(".text.2"),
            3 => Ok(".text.3"),
            4 => Ok(".text.4"),
            5 => Ok(".text.5"),
            6 => Ok(".text.6"),
            _ => Err(DeserializeError::LayoutViolation),
        },
        SectionKind::Data => match index {
            0 => Ok("extab_"),
            1 => Ok("extabindex_"),
            2 => Ok(".ctors"),
            3 => Ok(".dtors"),
            4 => Ok(".rodata"),
            5 => Ok(".data"),
            6 => Ok(".sdata"),
            7 => Ok(".sdata2"),
            8 => Ok(".data8"),
            9 => Ok(".data9"),
            10 => Ok(".data10"),
            _ => Err(DeserializeError::LayoutViolation),
        },
        SectionKind::Bss => match index {
            0 => Ok(".bss"),
            1 => Ok(".sbss"),
            2 => Ok(".sbss2"),
            _ => Err(DeserializeError::LayoutViolation),
        },
    }
}

// ----- what a parse yields -----

/// Slot `j` is empty, or its bytes lie wholly within `s`.
pub open spec fn slot_fits(s: Seq<u8>, j: int) -> bool {
    slot_size(s, j) == 0 || slot_offset(s, j) as int + slot_size(s, j) as int <= s.len()
}

pub open spec fn all_slots_fit(s: Seq<u8>) -> bool {
    forall|j: int| 0 <= j < SLOTS ==> slot_fits(s, j)
}

/// `j` is the first slot whose bytes run past the end of `s`.
pub open spec fn is_first_unfit_slot(s: Seq<u8>, j: int) -> bool {
    0 <= j < SLOTS && !slot_fits(s, j) && forall|k: int| 0 <= k < j ==> slot_fits(s, k)
}

/// The bytes of slot `j`.
pub open spec fn slot_bytes(s: Seq<u8>, j: int) -> Seq<u8> {
    s.subrange(slot_offset(s, j) as int, slot_offset(s, j) as int + slot_size(s, j) as int)
}

/// The bytes of the `.init` section (text slot 0), where it is not empty.
pub open spec fn init_bytes(s: Seq<u8>) -> Option<Seq<u8>> {
    if slot_size(s, 0) != 0 {
        Some(slot_bytes(s, 0))
    } else {
        None
    }
}

/// The copy table recovered from the `.init` section of `s`.
pub open spec fn rom_of(s: Seq<u8>) -> Option<Seq<RomCopyInfo>> {
    match init_bytes(s) {
        Some(d) => rom_table(d, slot_address(s, 0)),
        None => None,
    }
}

/// The zero-fill table recovered from the `.init` section of `s`.
pub open spec fn bss_of(s: Seq<u8>) -> Option<Seq<BssInitInfo>> {
    match init_bytes(s) {
        Some(d) => bss_table(d, zero_fill_address(s)),
        None => None,
    }
}

/// The byte count of the first entry of `v` from position `i` on whose
/// on-disk address is `address`, or `size` where there is none.
pub open spec fn rom_size_from(v: Seq<RomCopyInfo>, address: u32, size: u32, i: int) -> u32
    decreases v.len() - i,
{
    if i < 0 || i >= v.len() {
        size
    } else if v[i].rom_address == address {
        v[i].size
    } else {
        rom_size_from(v, address, size, i + 1)
    }
}

/// The size of a section at `address` declared as `size`, after correction
/// by the copy table `rom`.
pub open spec fn corrected_size(rom: Option<Seq<RomCopyInfo>>, address: u32, size: u32) -> u32 {
    match rom {
        Some(v) => rom_size_from(v, address, size, 0),
        None => size,
    }
}

/// The section that slot `j` of `s` yields.
pub open spec fn slot_section(s: Seq<u8>, j: int) -> SectionView {
    SectionView {
        kind: slot_kind(j),
        name: name_of(slot_kind(j), slot_index(j)).unwrap(),
        address: slot_address(s, j),
        size: corrected_size(rom_of(s), slot_address(s, j), slot_size(s, j)),
        aligned_size: slot_size(s, j),
        data: slot_bytes(s, j),
    }
}

/// The sections of the first `n` slots, leaving out each empty slot.
pub open spec fn loaded_sections(s: Seq<u8>, n: int) -> Seq<SectionView>
    decreases n,
{
    if n <= 0 {
        seq![]
    } else if slot_size(s, n - 1) == 0 {
        loaded_sections(s, n - 1)
    } else {
        loaded_sections(s, n - 1).push(slot_section(s, n - 1))
    }
}

/// `x` rounded up to the next multiple of 32, wrapping to 0 past `u32::MAX`.
pub open spec fn align_up_32(x: u32) -> u32 {
    ((x as int + 31) / 32 * 32 % 0x1_0000_0000) as u32
}

/// The zero-fill section made from entry `i` of the zero-fill table.
pub open spec fn bss_section(i: int, e: BssInitInfo) -> SectionView {
    SectionView {
        kind: SectionKind::Bss,
        name: name_of(SectionKind::Bss, i).unwrap(),
        address: e.ram_address,
        size: e.size,
        aligned_size: align_up_32(e.size),
        data: seq![],
    }
}

/// The zero-fill sections: one per entry of the recovered table, or else the
/// single region that the header declares.
pub open spec fn zero_fill_sections(s: Seq<u8>) -> Seq<SectionView> {
    match bss_of(s) {
        Some(v) => Seq::new(v.len(), |i: int| bss_section(i, v[i])),
        None => seq![
            SectionView {
                kind: SectionKind::Bss,
                name: ".bss"@,
                address: zero_fill_address(s),
                size: zero_fill_size(s),
                aligned_size: zero_fill_size(s),
                data: seq![],
            },
        ],
    }
}

/// The recovered zero-fill table, if any, has a name for each entry.
pub open spec fn zero_fill_fits(s: Seq<u8>) -> bool {
    match bss_of(s) {
        Some(v) => v.len() <= MAX_BSS_SECTIONS,
        None => true,
    }
}

/// The sections of a parse of `s`, in order.
pub open spec fn parsed_sections(s: Seq<u8>) -> Seq<SectionView> {
    loaded_sections(s, SLOTS as int) + zero_fill_sections(s)
}

pub open spec fn section_views(v: Seq<Section>) -> Seq<SectionView> {
    v.map_values(|x: Section| x@)
}

/// `s` can be parsed.
pub open spec fn parse_succeeds(s: Seq<u8>) -> bool {
    s.len() >= HEADER_SIZE && all_slots_fit(s) && zero_fill_fits(s)
}

/// `d` is what a parse of `s` yields.
pub open spec fn is_parse_of(s: Seq<u8>, d: Dol) -> bool {
    &&& header_matches(d.header, s)
    &&& opt_seq(d.rom_copy_info) == rom_of(s)
    &&& opt_seq(d.bss_init_info) == bss_of(s)
    &&& section_views(d.sections@) == parsed_sections(s)
}

/// The error that a parse of `s` gives, where `s` cannot be parsed.
pub open spec fn is_parse_error(s: Seq<u8>, e: DeserializeError) -> bool {
    if s.len() < HEADER_SIZE {
        e == (DeserializeError::UnexpectedEof { offset: 0, length: HEADER_SIZE })
    } else if !all_slots_fit(s) {
        exists|j: int|
            is_first_unfit_slot(s, j) && e == (DeserializeError::UnexpectedEof {
                offset: slot_offset(s, j),
                length: slot_size(s, j),
            })
    } else {
        e == DeserializeError::LayoutViolation
    }
}

fn read_array7(data: &[u8], base: usize) -> (r: [u32; 7])
    requires
        base <= 0xAC,
        base + 28 <= data@.len(),
    ensures
        forall|i: int| 0 <= i < 7 ==> r@[i] == be32(data@, base + 4 * i),
{
    let mut r: [u32; 7] = [0u32; 7];
    let mut i: usize = 0;
    while i < 7
        invariant
            i <= 7,
            base <= 0xAC,
            base + 28 <= data@.len(),
            forall|k: int| 0 <= k < i ==> r@[k] == be32(data@, base + 4 * k),
        decreases 7 - i,
    {
        r[i] = read_be32(data, base + 4 * i);
        i = i + 1;
    }
    r
}

fn read_array11(data: &[u8], base: usize) -> (r: [u32; 11])
    requires
        base <= 0xAC,
        base + 44 <= data@.len(),
    ensures
        forall|i: int| 0 <= i < 11 ==> r@[i] == be32(data@, base + 4 * i),
{
    let mut r: [u32; 11] = [0u32; 11];
    let mut i: usize = 0;
    while i < 11
        invariant
            i <= 11,
            base <= 0xAC,
            base + 44 <= data@.len(),
            forall|k: int| 0 <= k < i ==> r@[k] == be32(data@, base + 4 * k),
        decreases 11 - i,
    {
        r[i] = read_be32(data, base + 4 * i);
        i = i + 1;
    }
    r
}

/// Reads the fixed header at the start of `data`.
fn read_header(data: &[u8]) -> (h: Header)
    requires
        data@.len() >= HEADER_SIZE,
    ensures
        header_matches(h, data@),
{
    Header {
        text_offset: read_array7(data, 0x00),
        data_offset: read_array11(data, 0x1C),
        text_address: read_array7(data, 0x48),
        data_address: read_array11(data, 0x64),
        text_size: read_array7(data, 0x90),
        data_size: read_array11(data, 0xAC),
        bss_address: read_be32(data, 0xD8),
        bss_size: read_be32(data, 0xDC),
        entry_point: read_be32(data, 0xE0),
    }
}

/// Offset, address and size of slot `j`.
fn slot_of(h: &Header, j: usize) -> (r: (u32, u32, u32))
    requires
        j < SLOTS,
    ensures
        j < TEXT_SLOTS ==> r == (h.text_offset@[j as int], h.text_address@[j as int], h.text_size@[j as int]),
        j >= TEXT_SLOTS ==> r == (
            h.data_offset@[j - TEXT_SLOTS],
            h.data_address@[j - TEXT_SLOTS],
            h.data_size@[j - TEXT_SLOTS],
        ),
{
    if j < TEXT_SLOTS {
        (h.text_offset[j], h.text_address[j], h.text_size[j])
    } else {
        let i = j - TEXT_SLOTS;
        (h.data_offset[i], h.data_address[i], h.data_size[i])
    }
}

/// The size of a section at `address` declared as `size`, corrected by the
/// first entry of the copy table `rom` whose on-disk address is `address`.
fn correct_size(rom: &Option<Vec<RomCopyInfo>>, address: u32, size: u32) -> (r: u32)
    ensures
        r == corrected_size(opt_seq(*rom), address, size),
{
    match rom {
        None => size,
        Some(v) => {
            let mut i: usize = 0;
            while i < v.len()
                invariant
                    i <= v@.len(),
                    opt_seq(*rom) == Some(v@),
                    rom_size_from(v@, address, size, 0) == rom_size_from(v@, address, size, i as int),
                decreases v@.len() - i,
            {
                if v[i].rom_address == address {
                    assert(rom_size_from(v@, address, size, i as int) == v@[i as int].size);
                    return v[i].size;
                }
                i = i + 1;
            }
            size
        },
    }
}

/// Rounds `x` up to the next multiple of 32, wrapping to 0 past `u32::MAX`.
fn align_next_32(x: u32) -> (r: u32)
    ensures
        r == align_up_32(x),
{
    if x > 0xFFFF_FFE0 {
        assert((x as int + 31) / 32 * 32 == 0x1_0000_0000) by (nonlinear_arith)
            requires x > 0xFFFF_FFE0, x <= 0xFFFF_FFFF;
        0
    } else {
        assert((x as int + 31) / 32 * 32 < 0x1_0000_0000) by (nonlinear_arith)
            requires x <= 0xFFFF_FFE0;
        (x + 31) / 32 * 32
    }
}

/// Parses the container `data`.
///
/// Fails with `UnexpectedEof` where `data` is shorter than the header, or
/// where a non-empty slot's bytes run past its end (the first such slot is
/// reported), and with `LayoutViolation` where the recovered zero-fill table
/// has more entries than there are zero-fill section names.
pub fn from_bytes(data: &[u8]) -> (r: Result<Dol, DeserializeError>)
    ensures
        r is Ok <==> parse_succeeds(data@),
        match r {
            Ok(d) => is_parse_of(data@, d),
            Err(e) => is_parse_error(data@, e),
        },
{
    if data.len() < HEADER_SIZE as usize {
        return Err(DeserializeError::UnexpectedEof { offset: 0, length: HEADER_SIZE });
    }
    let header = read_header(data);
    let ghost s = data@;

    let mut j: usize = 0;
    while j < SLOTS
        invariant
            j <= SLOTS,
            s == data@,
            s.len() >= HEADER_SIZE,
            header_matches(header, s),
            forall|k: int| 0 <= k < j ==> slot_fits(s, k),
        decreases SLOTS - j,
    {
        let (offset, _address, size) = slot_of(&header, j);
        if size != 0 && (offset as usize > data.len() || size as usize > data.len()
            - offset as usize) {
            assert(is_first_unfit_slot(s, j as int));
            return Err(DeserializeError::UnexpectedEof { offset, length: size });
        }
        j = j + 1;
    }

    let (rom, bss) = if header.text_size[0] != 0 {
        assert(slot_fits(s, 0));
        assert(header.text_offset@[0] == slot_offset(s, 0));
        assert(header.text_size@[0] == slot_size(s, 0));
        let start = header.text_offset[0] as usize;
        let init = slice_subrange(data, start, start + header.text_size[0] as usize);
        (
            rom_copy_info_search(init, header.text_address[0]),
            bss_init_info_search(init, header.bss_address),
        )
    } else {
        (None, None)
    };
    assert(opt_seq(rom) == rom_of(s));
    assert(opt_seq(bss) == bss_of(s));

    match &bss {
        Some(v) => {
            if v.len() > MAX_BSS_SECTIONS {
                return Err(DeserializeError::LayoutViolation);
            }
        },
        None => {},
    }

    let len = data.len();
    let mut sections: Vec<Section> = Vec::new();
    let mut j: usize = 0;
    while j < SLOTS
        invariant
            j <= SLOTS,
            len == data@.len(),
            s == data@,
            s.len() >= HEADER_SIZE,
            header_matches(header, s),
            all_slots_fit(s),
            opt_seq(rom) == rom_of(s),
            section_views(sections@) == loaded_sections(s, j as int),
        decreases SLOTS - j,
    {
        let (offset, address, size) = slot_of(&header, j);
        if size != 0 {
            let (kind, index) = if j < TEXT_SLOTS {
                (SectionKind::Text, j)
            } else {
                (SectionKind::Data, j - TEXT_SLOTS)
            };
            let name = match section_name(kind, index) {
                Ok(n) => n,
                Err(e) => return Err(e),
            };
            assert(slot_fits(s, j as int));
            assert(offset == slot_offset(s, j as int) && size == slot_size(s, j as int));
            let start = offset as usize;
            let bytes = slice_to_vec(slice_subrange(data, start, start + size as usize));
            let sec = Section {
                kind,
                name,
                address,
                size: correct_size(&rom, address, size),
                aligned_size: size,
                data: bytes,
            };
            assert(sec@ == slot_section(s, j as int));
            let ghost prev = sections@;
            sections.push(sec);
            assert(section_views(sections@) =~= section_views(prev).push(sec@));
        }
        j = j + 1;
    }

    match &bss {
        Some(v) => {
            let mut i: usize = 0;
            while i < v.len()
                invariant
                    i <= v@.len() <= MAX_BSS_SECTIONS,
                    opt_seq(bss) == bss_of(s),
                    bss == Some(*v),
                    section_views(sections@) == loaded_sections(s, SLOTS as int) + Seq::new(
                        i as nat,
                        |k: int| bss_section(k, v@[k]),
                    ),
                decreases v@.len() - i,
            {
                let e = v[i];
                let name = match section_name(SectionKind::Bss, i) {
                    Ok(n) => n,
                    Err(err) => return Err(err),
                };
                let sec = Section {
                    kind: SectionKind::Bss,
                    name,
                    address: e.ram_address,
                    size: e.size,
                    aligned_size: align_next_32(e.size),
                    data: Vec::new(),
                };
                let ghost prev = sections@;
                sections.push(sec);
                assert(section_views(sections@) =~= section_views(prev).push(sec@));
                assert(section_views(sections@) =~= loaded_sections(s, SLOTS as int) + Seq::new(
                    (i + 1) as nat,
                    |k: int| bss_section(k, v@[k]),
                ));
                i = i + 1;
            }
            assert(zero_fill_sections(s) =~= Seq::new(i as nat, |k: int| bss_section(k, v@[k])));
        },
        None => {
            let sec = Section {
                kind: SectionKind::Bss,
                name: ".bss",
                address: header.bss_address,
                size: header.bss_size,
                aligned_size: header.bss_size,
                data: Vec::new(),
            };
            let ghost prev = sections@;
            sections.push(sec);
            assert(section_views(sections@) =~= section_views(prev).push(sec@));
            assert(zero_fill_sections(s) =~= seq![sec@]);
        },
    }
    assert(section_views(sections@) =~= parsed_sections(s));
    Ok(Dol { header, rom_copy_info: rom, bss_init_info: bss, sections })
}

// ----- queries -----

/// `a` lies in the half-open range `[sec.address, sec.address + sec.size)`.
pub open spec fn section_contains(sec: Section, a: u32) -> bool {
    sec.address <= a && (a as int) < sec.address as int + sec.size as int
}

/// Section `i` is the first of `secs` named `name`.
pub open spec fn is_first_named(secs: Seq<Section>, name: Seq<char>, i: int) -> bool {
    &&& 0 <= i < secs.len()
    &&& secs[i].name@ == name
    &&& forall|k: int| 0 <= k < i ==> secs[k].name@ != name
}

/// Section `i` is the first of `secs` whose range holds `a`.
pub open spec fn is_first_containing(secs: Seq<Section>, a: u32, i: int) -> bool {
    &&& 0 <= i < secs.len()
    &&& section_contains(secs[i], a)
    &&& forall|k: int| 0 <= k < i ==> !section_contains(secs[k], a)
}

fn str_eq(a: &str, b: &str) -> (r: bool)
    ensures
        r == (a@ == b@),
{
    let n = a.unicode_len();
    if n != b.unicode_len() {
        return false;
    }
    let mut i: usize = 0;
    while i < n
        invariant
            n == a@.len(),
            n == b@.len(),
            i <= n,
            forall|k: int| 0 <= k < i ==> a@[k] == b@[k],
        decreases n - i,
    {
        if a.get_char(i) != b.get_char(i) {
            return false;
        }
        i = i + 1;
    }
    assert(a@ =~= b@);
    true
}

/// Serialising a [`Dol`] back into container bytes is not supported: this
/// always fails with `Unsupported`.
pub fn to_bytes(_dol: &Dol) -> (r: Result<Vec<u8>, DeserializeError>)
    ensures
        r == Err::<Vec<u8>, DeserializeError>(DeserializeError::Unsupported),
{
    Err(DeserializeError::Unsupported)
}

impl Dol {
    /// The address of the first instruction that is executed.
    pub fn entry_point(&self) -> (r: u32)
        ensures
            r == self.header.entry_point,
    {
        self.header.entry_point
    }

    /// The first section named `name`, if any.
    pub fn section_by_name(&self, name: &str) -> (r: Option<&Section>)
        ensures
            match r {
                Some(sec) => exists|i: int|
                    is_first_named(self.sections@, name@, i) && *sec == self.sections@[i],
                None => forall|i: int|
                    0 <= i < self.sections@.len() ==> self.sections@[i].name@ != name@,
            },
    {
        let mut i: usize = 0;
        while i < self.sections.len()
            invariant
                i <= self.sections@.len(),
                forall|k: int| 0 <= k < i ==> self.sections@[k].name@ != name@,
            decreases self.sections@.len() - i,
        {
            if str_eq(self.sections[i].name, name) {
                assert(is_first_named(self.sections@, name@, i as int));
                return Some(&self.sections[i]);
            }
            i = i + 1;
        }
        None
    }

    /// The first section whose range `[address, address + size)` holds
    /// `address`, if any.
    pub fn section_by_address(&self, address: u32) -> (r: Option<&Section>)
        ensures
            match r {
                Some(sec) => exists|i: int|
                    is_first_containing(self.sections@, address, i) && *sec == self.sections@[i],
                None => forall|i: int|
                    0 <= i < self.sections@.len() ==> !section_contains(self.sections@[i], address),
            },
    {
        let mut i: usize = 0;
        while i < self.sections.len()
            invariant
                i <= self.sections@.len(),
                forall|k: int| 0 <= k < i ==> !section_contains(self.sections@[k], address),
            decreases self.sections@.len() - i,
        {
            let sec = &self.sections[i];
            if address >= sec.address && address - sec.address < sec.size {
                assert(is_first_containing(self.sections@, address, i as int));
                return Some(sec);
            }
            i = i + 1;
        }
        None
    }

    /// Parses the container `data`; the same as the free function [`from_bytes`].
    pub fn from_bytes(data: &[u8]) -> (r: Result<Dol, DeserializeError>)
        ensures
            r is Ok <==> parse_succeeds(data@),
            match r {
                Ok(d) => is_parse_of(data@, d),
                Err(e) => is_parse_error(data@, e),
            },
    {
        from_bytes(data)
    }
}

// ----- properties of a parse -----

/// The entry point of a parsed container is the big-endian word at offset
/// `0xE0` of its bytes.
pub proof fn lemma_entry_point(s: Seq<u8>, d: Dol)
    requires
        is_parse_of(s, d),
    ensures
        d.header.entry_point == be32(s, 0xE0),
{
}

proof fn lemma_loaded_from_nonempty_slots(s: Seq<u8>, n: int)
    requires
        0 <= n <= SLOTS,
    ensures
        forall|i: int|
            0 <= i < loaded_sections(s, n).len() ==> exists|j: int|
                0 <= j < n && slot_size(s, j) != 0 && #[trigger] loaded_sections(s, n)[i]
                    == slot_section(s, j),
    decreases n,
{
    if n > 0 {
        lemma_loaded_from_nonempty_slots(s, n - 1);
        if slot_size(s, n - 1) == 0 {
            assert(loaded_sections(s, n) == loaded_sections(s, n - 1));
        } else {
            let prev = loaded_sections(s, n - 1);
            assert forall|i: int| 0 <= i < loaded_sections(s, n).len() implies exists|j: int|
                0 <= j < n && slot_size(s, j) != 0 && #[trigger] loaded_sections(s, n)[i]
                    == slot_section(s, j) by {
                if i == prev.len() {
                    assert(loaded_sections(s, n)[i] == slot_section(s, n - 1));
                } else {
                    assert(loaded_sections(s, n)[i] == prev[i]);
                }
            }
        }
    }
}

proof fn lemma_sections_split(s: Seq<u8>, d: Dol, i: int)
    requires
        is_parse_of(s, d),
        0 <= i < d.sections@.len(),
    ensures
        d.sections@[i].kind != SectionKind::Bss ==> exists|j: int|
            0 <= j < SLOTS && slot_size(s, j) != 0 && d.sections@[i]@ == slot_section(s, j),
        d.sections@[i].kind != SectionKind::Bss <==> i < loaded_sections(s, SLOTS as int).len(),
{
    lemma_loaded_from_nonempty_slots(s, SLOTS as int);
    let l = loaded_sections(s, SLOTS as int);
    assert(section_views(d.sections@)[i] == d.sections@[i]@);
    assert(section_views(d.sections@).len() == d.sections@.len());
    if i < l.len() {
        assert(parsed_sections(s)[i] == l[i]);
        let j = choose|j: int| 0 <= j < SLOTS && slot_size(s, j) != 0 && l[i] == slot_section(s, j);
        assert(slot_kind(j) != SectionKind::Bss);
        assert(d.sections@[i]@ == slot_section(s, j));
    } else {
        assert(parsed_sections(s)[i] == zero_fill_sections(s)[i - l.len()]);
    }
}

/// No slot whose declared size is zero yields a section: every text or data
/// section of a parse is the section of a slot with a non-zero size.
pub proof fn lemma_empty_slots_absent(s: Seq<u8>, d: Dol)
    requires
        is_parse_of(s, d),
    ensures
        forall|i: int|
            0 <= i < d.sections@.len() && d.sections@[i].kind != SectionKind::Bss ==> exists|j: int|
                0 <= j < SLOTS && slot_size(s, j) != 0 && #[trigger] d.sections@[i]@
                    == slot_section(s, j),
{
    assert forall|i: int|
        0 <= i < d.sections@.len() && d.sections@[i].kind != SectionKind::Bss implies exists|j: int|
        0 <= j < SLOTS && slot_size(s, j) != 0 && #[trigger] d.sections@[i]@ == slot_section(
            s,
            j,
        ) by {
        lemma_sections_split(s, d, i);
    }
}

/// Ranges `[address, address + size)` of distinct sections do not overlap.
pub open spec fn ranges_disjoint(secs: Seq<Section>) -> bool {
    forall|i: int, k: int|
        0 <= i < secs.len() && 0 <= k < secs.len() && i != k ==> secs[i].address as int
            + secs[i].size as int <= secs[k].address || secs[k].address as int + secs[k].size as int
            <= secs[i].address
}

/// Among sections whose ranges do not overlap, the section that an address
/// lookup finds is exactly the one whose range holds the address.
pub proof fn lemma_address_lookup_unique(secs: Seq<Section>, a: u32, k: int)
    requires
        ranges_disjoint(secs),
        0 <= k < secs.len(),
        section_contains(secs[k], a),
    ensures
        is_first_containing(secs, a, k),
        forall|i: int| #[trigger] is_first_containing(secs, a, i) ==> i == k,
{
    assert forall|i: int| 0 <= i < secs.len() && i != k implies !section_contains(secs[i], a) by {}
}

proof fn lemma_rom_size_first(v: Seq<RomCopyInfo>, address: u32, size: u32, i: int, k: int)
    requires
        0 <= i <= k < v.len(),
        v[k].rom_address == address,
        forall|m: int| 0 <= m < k ==> v[m].rom_address != address,
    ensures
        rom_size_from(v, address, size, i) == v[k].size,
    decreases k - i,
{
    if i < k {
        lemma_rom_size_first(v, address, size, i + 1, k);
    }
}

/// A text or data section whose address is the on-disk address of a
/// recovered copy-table entry gets the byte count of the first such entry as
/// its size.
pub proof fn lemma_copy_table_corrects_size(
    s: Seq<u8>,
    d: Dol,
    v: Seq<RomCopyInfo>,
    i: int,
    k: int,
)
    requires
        is_parse_of(s, d),
        rom_of(s) == Some(v),
        0 <= i < d.sections@.len(),
        d.sections@[i].kind != SectionKind::Bss,
        0 <= k < v.len(),
        v[k].rom_address == d.sections@[i].address,
        forall|m: int| 0 <= m < k ==> v[m].rom_address != d.sections@[i].address,
    ensures
        d.sections@[i].size == v[k].size,
{
    lemma_sections_split(s, d, i);
    let j = choose|j: int|
        0 <= j < SLOTS && slot_size(s, j) != 0 && d.sections@[i]@ == slot_section(s, j);
    lemma_rom_size_first(v, d.sections@[i].address, slot_size(s, j), 0, k);
}

/// Without an `.init` section no table is recovered, and the one zero-fill
/// section, the last of all, is `.bss` with the header's address and size.
pub proof fn lemma_no_init_section(s: Seq<u8>, d: Dol)
    requires
        is_parse_of(s, d),
        slot_size(s, 0) == 0,
    ensures
        d.rom_copy_info is None,
        d.bss_init_info is None,
        d.sections@.len() >= 1,
        forall|i: int|
            0 <= i < d.sections@.len() ==> (d.sections@[i].kind == SectionKind::Bss <==> i
                == d.sections@.len() - 1),
        d.sections@.last()@ == (SectionView {
            kind: SectionKind::Bss,
            name: ".bss"@,
            address: zero_fill_address(s),
            size: zero_fill_size(s),
            aligned_size: zero_fill_size(s),
            data: seq![],
        }),
{
    let l = loaded_sections(s, SLOTS as int);
    assert(parsed_sections(s).len() == l.len() + 1);
    assert forall|i: int| 0 <= i < d.sections@.len() implies (d.sections@[i].kind
        == SectionKind::Bss <==> i == d.sections@.len() - 1) by {
        lemma_sections_split(s, d, i);
    }
    let n = d.sections@.len() - 1;
    assert(section_views(d.sections@)[n] == d.sections@[n]@);
    assert(parsed_sections(s)[n] == zero_fill_sections(s)[0]);
}

/// A container with a non-empty slot whose bytes run past its end cannot be
/// parsed, and the error is `UnexpectedEof`.
pub proof fn lemma_truncated_slot_fails(s: Seq<u8>, j: int)
    requires
        s.len() >= HEADER_SIZE,
        0 <= j < SLOTS,
        slot_size(s, j) != 0,
        slot_offset(s, j) as int + slot_size(s, j) as int > s.len(),
    ensures
        !parse_succeeds(s),
        forall|e: DeserializeError| #[trigger] is_parse_error(s, e) ==> e is UnexpectedEof,
{
    assert(!slot_fits(s, j));
}

} // verus!
