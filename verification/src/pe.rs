//! An x86_64 PE32+ loader.
use crate::text::{hex, owned, put, put_hex};
use vstd::prelude::*;
use vstd::utf8::{decode_utf8, valid_utf8};

verus! {

pub const AMD64: u16 = 0x8664;

pub const PE32_PLUS: u16 = 0x20b;

pub const EXECUTE: u32 = 0x2000_0000;

#[derive(Debug)]
pub struct Section {
    pub name: String,
    pub virtual_address: u32,
    pub virtual_size: u32,
    pub raw_size: u32,
    pub characteristics: u32,
}

/// What a section header says, once an absent virtual size has been replaced
/// by the raw size.
pub struct SectionModel {
    pub name: Seq<char>,
    pub virtual_address: u32,
    pub virtual_size: u32,
    pub raw_size: u32,
    pub characteristics: u32,
}

impl View for Section {
    type V = SectionModel;

    open spec fn view(&self) -> SectionModel {
        SectionModel {
            name: self.name@,
            virtual_address: self.virtual_address,
            virtual_size: self.virtual_size,
            raw_size: self.raw_size,
            characteristics: self.characteristics,
        }
    }
}

impl SectionModel {
    /// One past the last relative address of the section.
    pub open spec fn end(self) -> int {
        self.virtual_address + self.virtual_size
    }

    pub open spec fn contains(self, rva: int) -> bool {
        self.virtual_address <= rva < self.end()
    }

    pub open spec fn executable(self) -> bool {
        self.characteristics & EXECUTE != 0
    }
}

/// The loaded image: its preferred base, its entry point relative to that base,
/// and its memory, of which the first `header_size` bytes and the sections'
/// ranges are mapped.
pub struct ImageModel {
    pub image_base: u64,
    pub entry_rva: u32,
    pub memory: Seq<u8>,
    pub header_size: nat,
    pub sections: Seq<SectionModel>,
}

impl ImageModel {
    /// The sections lie within the image, and every virtual address of the image
    /// fits in 64 bits.
    pub open spec fn valid(self) -> bool {
        &&& self.memory.len() <= u32::MAX
        &&& self.image_base + self.memory.len() <= u64::MAX
        &&& self.entry_rva < self.memory.len()
        &&& self.header_size <= self.memory.len()
        &&& forall|i: int|
            0 <= i < self.sections.len() ==> (#[trigger] self.sections[i]).end()
                <= self.memory.len()
    }

    /// Whether a byte at this relative address is mapped.
    pub open spec fn mapped(self, rva: int) -> bool {
        0 <= rva < self.header_size || exists|i: int|
            0 <= i < self.sections.len() && (#[trigger] self.sections[i]).contains(rva)
    }

    pub open spec fn entry_point(self) -> int {
        self.image_base + self.entry_rva
    }

    /// The first section in header order that contains the virtual address.
    pub open spec fn section_index(self, address: int) -> Option<int> {
        first_containing(self.sections, address - self.image_base, 0)
    }

    /// The bytes at a virtual address, if every one of them is mapped. No bytes
    /// can be read only where a byte could be.
    pub open spec fn bytes(self, address: int, size: int) -> Option<Seq<u8>> {
        let rva = address - self.image_base;
        if 0 <= rva && rva + size <= self.memory.len() && (size == 0 ==> self.mapped(rva)) && (
        forall|a: int| rva <= a < rva + size ==> self.mapped(a)) {
            Some(self.memory.subrange(rva, rva + size))
        } else {
            None
        }
    }

    /// The bytes from a virtual address to the end of its section, if that
    /// section is executable.
    pub open spec fn code(self, address: int) -> Option<Seq<u8>> {
        match self.section_index(address) {
            Some(i) => if self.sections[i].executable() {
                Some(self.memory.subrange(address - self.image_base, self.sections[i].end()))
            } else {
                None
            },
            None => None,
        }
    }
}

/// The index of the first section from `from` on that contains `rva`.
pub open spec fn first_containing(sections: Seq<SectionModel>, rva: int, from: int) -> Option<int>
    decreases sections.len() - from,
{
    if from < 0 || from >= sections.len() {
        None
    } else if sections[from].contains(rva) {
        Some(from)
    } else {
        first_containing(sections, rva, from + 1)
    }
}

proof fn lemma_first_containing(sections: Seq<SectionModel>, rva: int, from: int)
    requires
        0 <= from,
    ensures
        match first_containing(sections, rva, from) {
            Some(i) => from <= i < sections.len() && sections[i].contains(rva),
            None => forall|i: int| from <= i < sections.len() ==> !(
            #[trigger] sections[i]).contains(rva),
        },
    decreases sections.len() - from,
{
    if from < sections.len() && !sections[from].contains(rva) {
        lemma_first_containing(sections, rva, from + 1);
    }
}

// ---------------------------------------------------------------------------
// Reading the file

/// `size` bytes at `offset`.
pub open spec fn slice_of(data: Seq<u8>, offset: int, size: int) -> Result<Seq<u8>, Seq<char>> {
    if offset + size > usize::MAX {
        Err("PE offset overflow"@)
    } else if offset + size > data.len() {
        Err("truncated PE at file offset 0x"@ + hex(offset as nat))
    } else {
        Ok(data.subrange(offset, offset + size))
    }
}

/// The little-endian number that the bytes hold.
pub open spec fn little_endian(bytes: Seq<u8>) -> nat
    decreases bytes.len(),
{
    if bytes.len() == 0 {
        0
    } else {
        bytes[0] as nat + 256 * little_endian(bytes.subrange(1, bytes.len() as int))
    }
}

/// The little-endian number of `size` bytes at `offset`.
pub open spec fn number_at(data: Seq<u8>, offset: int, size: int) -> Result<nat, Seq<char>> {
    match slice_of(data, offset, size) {
        Ok(bytes) => Ok(little_endian(bytes)),
        Err(e) => Err(e),
    }
}

proof fn lemma_little_endian(bytes: Seq<u8>)
    ensures
        bytes.len() == 2 ==> little_endian(bytes) == bytes[0] + 256 * bytes[1],
        bytes.len() == 4 ==> little_endian(bytes) == bytes[0] + 0x100 * bytes[1] + 0x1_0000
            * bytes[2] + 0x100_0000 * bytes[3],
        bytes.len() == 8 ==> little_endian(bytes) == bytes[0] + 0x100 * bytes[1] + 0x1_0000
            * bytes[2] + 0x100_0000 * bytes[3] + 0x1_0000_0000 * (bytes[4] + 0x100 * bytes[5]
            + 0x1_0000 * bytes[6] + 0x100_0000 * bytes[7]),
{
    reveal_with_fuel(little_endian, 9);
}

fn bytes_at(data: &[u8], offset: usize, size: usize) -> (res: Result<&[u8], String>)
    ensures
        match (res, slice_of(data@, offset as int, size as int)) {
            (Ok(bytes), Ok(model)) => bytes@ == model,
            (Err(e), Err(model)) => e@ == model,
            _ => false,
        },
{
    match offset.checked_add(size) {
        None => Err(owned("PE offset overflow")),
        Some(end) => if end > data.len() {
            let mut message = owned("truncated PE at file offset 0x");
            put_hex(&mut message, offset as u128);
            Err(message)
        } else {
            Ok(vstd::slice::slice_subrange(data, offset, end))
        },
    }
}

fn u16_at(data: &[u8], offset: usize) -> (res: Result<u16, String>)
    ensures
        match (res, number_at(data@, offset as int, 2)) {
            (Ok(value), Ok(model)) => value == model,
            (Err(e), Err(model)) => e@ == model,
            _ => false,
        },
{
    let bytes = bytes_at(data, offset, 2)?;
    proof {
        lemma_little_endian(bytes@);
    }
    Ok(bytes[0] as u16 + 256 * bytes[1] as u16)
}

fn u32_at(data: &[u8], offset: usize) -> (res: Result<u32, String>)
    ensures
        match (res, number_at(data@, offset as int, 4)) {
            (Ok(value), Ok(model)) => value == model,
            (Err(e), Err(model)) => e@ == model,
            _ => false,
        },
{
    let bytes = bytes_at(data, offset, 4)?;
    proof {
        lemma_little_endian(bytes@);
    }
    Ok(
        bytes[0] as u32 + 0x100 * bytes[1] as u32 + 0x1_0000 * bytes[2] as u32 + 0x100_0000
            * bytes[3] as u32,
    )
}

fn u64_at(data: &[u8], offset: usize) -> (res: Result<u64, String>)
    ensures
        match (res, number_at(data@, offset as int, 8)) {
            (Ok(value), Ok(model)) => value == model,
            (Err(e), Err(model)) => e@ == model,
            _ => false,
        },
{
    let bytes = bytes_at(data, offset, 8)?;
    proof {
        lemma_little_endian(bytes@);
    }
    let low: u64 = bytes[0] as u64 + 0x100 * bytes[1] as u64 + 0x1_0000 * bytes[2] as u64
        + 0x100_0000 * bytes[3] as u64;
    let high: u64 = bytes[4] as u64 + 0x100 * bytes[5] as u64 + 0x1_0000 * bytes[6] as u64
        + 0x100_0000 * bytes[7] as u64;
    Ok(low + 0x1_0000_0000 * high)
}


/// `base + delta` as a file offset.
fn offset_of(base: usize, delta: usize) -> (res: Result<usize, String>)
    ensures
        match res {
            Ok(offset) => offset == base + delta,
            Err(e) => base + delta > usize::MAX && e@ == "PE offset overflow"@,
        },
{
    match base.checked_add(delta) {
        Some(offset) => Ok(offset),
        None => Err(owned("PE offset overflow")),
    }
}

fn same_bytes(left: &[u8], right: &[u8]) -> (res: bool)
    ensures
        res == (left@ == right@),
{
    if left.len() != right.len() {
        return false;
    }
    let mut i: usize = 0;
    while i < left.len()
        invariant
            left@.len() == right@.len(),
            i <= left@.len(),
            forall|k: int| 0 <= k < i ==> left@[k] == right@[k],
        decreases left@.len() - i,
    {
        if left[i] != right[i] {
            return false;
        }
        i = i + 1;
    }
    assert(left@ =~= right@);
    true
}

// ---------------------------------------------------------------------------
// The headers

/// The offset of the COFF header.
pub open spec fn coff_offset(file: Seq<u8>) -> Result<int, Seq<char>> {
    match slice_of(file, 0, 2) {
        Err(e) => Err(e),
        Ok(dos) => if dos != seq![0x4du8, 0x5au8] {
            Err("missing DOS signature"@)
        } else {
            match number_at(file, 0x3c, 4) {
                Err(e) => Err(e),
                Ok(pe) => match slice_of(file, pe as int, 4) {
                    Err(e) => Err(e),
                    Ok(signature) => if signature != seq![0x50u8, 0x45u8, 0u8, 0u8] {
                        Err("missing PE signature"@)
                    } else {
                        Ok(pe as int + 4)
                    },
                },
            }
        },
    }
}

/// The number of sections and the optional header's bytes.
pub open spec fn optional_header(file: Seq<u8>, coff: int) -> Result<
    (nat, Seq<u8>),
    Seq<char>,
> {
    match number_at(file, coff, 2) {
        Err(e) => Err(e),
        Ok(machine) => if machine != AMD64 {
            Err("only x86_64 PE images are supported"@)
        } else {
            match number_at(file, coff + 2, 2) {
                Err(e) => Err(e),
                Ok(count) => match number_at(file, coff + 16, 2) {
                    Err(e) => Err(e),
                    Ok(size) => match slice_of(file, coff + 20, size as int) {
                        Err(e) => Err(e),
                        Ok(bytes) => if bytes.len() < 64 || little_endian(bytes.subrange(0, 2))
                            != PE32_PLUS {
                            Err("expected a PE32+ optional header"@)
                        } else {
                            Ok((count, bytes))
                        },
                    },
                },
            }
        },
    }
}

/// What the headers say of the image.
pub struct HeaderModel {
    pub section_count: nat,
    pub section_table: int,
    pub entry_rva: nat,
    pub image_base: nat,
    pub image_size: nat,
    pub header_size: nat,
}

/// The headers of the file, or what is wrong with them.
pub open spec fn headers(file: Seq<u8>) -> Result<HeaderModel, Seq<char>> {
    match coff_offset(file) {
        Err(e) => Err(e),
        Ok(coff) => match optional_header(file, coff) {
            Err(e) => Err(e),
            Ok((count, optional)) => {
                let header = HeaderModel {
                    section_count: count,
                    section_table: coff + 20 + optional.len(),
                    entry_rva: little_endian(optional.subrange(16, 20)),
                    image_base: little_endian(optional.subrange(24, 32)),
                    image_size: little_endian(optional.subrange(56, 60)),
                    header_size: little_endian(optional.subrange(60, 64)),
                };
                let table_end = header.section_table + count * 40;
                if header.image_size == 0 || header.header_size > header.image_size {
                    Err("invalid PE image or header size"@)
                } else if header.entry_rva >= header.image_size {
                    Err("entry point is outside the PE image"@)
                } else if header.image_base + header.image_size > u64::MAX {
                    Err("PE virtual address overflow"@)
                } else if table_end > usize::MAX {
                    Err("PE section table overflow"@)
                } else if table_end > header.header_size {
                    Err("PE section table extends beyond mapped headers"@)
                } else {
                    match slice_of(file, header.section_table, (count * 40) as int) {
                        Err(e) => Err(e),
                        Ok(_) => Ok(header),
                    }
                }
            },
        },
    }
}

// ---------------------------------------------------------------------------
// The sections

/// The text that `String::from_utf8_lossy` makes of bytes that are not UTF-8: each
/// malformed part is replaced.
pub uninterp spec fn lossy_text(bytes: Seq<u8>) -> Seq<char>;

/// The text that bytes stand for: what they encode in UTF-8, and otherwise the text
/// with each malformed part replaced.
pub open spec fn text_in(bytes: Seq<u8>) -> Seq<char> {
    if valid_utf8(bytes) {
        decode_utf8(bytes)
    } else {
        lossy_text(bytes)
    }
}

/// Calls `String::from_utf8_lossy`. Bytes that are UTF-8 become the text that they
/// encode. What others become is named `lossy_text`.
#[verifier::external_body]
fn text_of(bytes: &[u8]) -> (res: String)
    ensures
        valid_utf8(bytes@) ==> res@ == decode_utf8(bytes@),
        !valid_utf8(bytes@) ==> res@ == lossy_text(bytes@),
{
    String::from_utf8_lossy(bytes).into_owned()
}

/// The bytes before the first zero.
pub open spec fn before_zero(bytes: Seq<u8>) -> Seq<u8>
    decreases bytes.len(),
{
    if bytes.len() == 0 || bytes[0] == 0 {
        Seq::empty()
    } else {
        seq![bytes[0]] + before_zero(bytes.subrange(1, bytes.len() as int))
    }
}

/// The number of `size` bytes at `offset`, which the file holds.
pub open spec fn field(file: Seq<u8>, offset: int, size: int) -> nat {
    little_endian(file.subrange(offset, offset + size))
}

/// The section header at `offset`. Where the virtual size is zero, the raw size
/// stands in for it.
pub open spec fn section_header(file: Seq<u8>, offset: int) -> SectionModel {
    SectionModel {
        name: text_in(before_zero(file.subrange(offset, offset + 8))),
        virtual_address: field(file, offset + 12, 4) as u32,
        virtual_size: if field(file, offset + 8, 4) == 0 {
            field(file, offset + 16, 4) as u32
        } else {
            field(file, offset + 8, 4) as u32
        },
        raw_size: field(file, offset + 16, 4) as u32,
        characteristics: field(file, offset + 36, 4) as u32,
    }
}

/// Whether `[start, end)` and the other range share an address, an empty range
/// counting as the point it stands at.
pub open spec fn crosses(start: int, end: int, other_start: int, other_end: int) -> bool {
    start < other_end && other_start < end
}

/// `memory` with `bytes` written at `start`.
pub open spec fn overlay(memory: Seq<u8>, start: int, bytes: Seq<u8>) -> Seq<u8> {
    Seq::new(
        memory.len(),
        |i: int|
            if start <= i < start + bytes.len() {
                bytes[i - start]
            } else {
                memory[i]
            },
    )
}

pub struct Loaded {
    pub sections: Seq<SectionModel>,
    pub memory: Seq<u8>,
}

/// Whether a section may not follow those loaded so far.
pub open spec fn misplaced(
    header: HeaderModel,
    sections: Seq<SectionModel>,
    section: SectionModel,
) -> bool {
    ||| section.end() > header.image_size
    ||| crosses(section.virtual_address as int, section.end(), 0, header.header_size as int)
    ||| exists|j: int|
        0 <= j < sections.len() && (#[trigger] sections[j]).virtual_size != 0 && crosses(
            section.virtual_address as int,
            section.end(),
            sections[j].virtual_address as int,
            sections[j].end(),
        )
}

/// Maps the section whose header is at `offset`.
pub open spec fn add_section(
    file: Seq<u8>,
    header: HeaderModel,
    loaded: Loaded,
    offset: int,
) -> Result<Loaded, Seq<char>> {
    let section = section_header(file, offset);
    if misplaced(header, loaded.sections, section) {
        Err("invalid or overlapping section "@ + section.name)
    } else if section.raw_size == 0 {
        Ok(Loaded { sections: loaded.sections.push(section), memory: loaded.memory })
    } else {
        match slice_of(file, field(file, offset + 20, 4) as int, section.raw_size as int) {
            Err(e) => Err(e),
            Ok(raw) => Ok(
                Loaded {
                    sections: loaded.sections.push(section),
                    memory: overlay(
                        loaded.memory,
                        section.virtual_address as int,
                        if raw.len() <= section.virtual_size {
                            raw
                        } else {
                            raw.subrange(0, section.virtual_size as int)
                        },
                    ),
                },
            ),
        }
    }
}

/// The memory with the headers and the first `count` sections mapped.
pub open spec fn load(file: Seq<u8>, header: HeaderModel, count: nat) -> Result<
    Loaded,
    Seq<char>,
>
    decreases count,
{
    if count == 0 {
        match slice_of(file, 0, header.header_size as int) {
            Err(e) => Err(e),
            Ok(bytes) => Ok(
                Loaded {
                    sections: Seq::empty(),
                    memory: overlay(Seq::new(header.image_size, |i: int| 0u8), 0, bytes),
                },
            ),
        }
    } else {
        match load(file, header, (count - 1) as nat) {
            Err(e) => Err(e),
            Ok(loaded) => add_section(
                file,
                header,
                loaded,
                header.section_table + (count - 1) * 40,
            ),
        }
    }
}

/// The image that the file describes, or what is wrong with it.
pub open spec fn image_of(file: Seq<u8>) -> Result<ImageModel, Seq<char>> {
    match headers(file) {
        Err(e) => Err(e),
        Ok(header) => match load(file, header, header.section_count) {
            Err(e) => Err(e),
            Ok(loaded) => {
                let image = ImageModel {
                    image_base: header.image_base as u64,
                    entry_rva: header.entry_rva as u32,
                    memory: loaded.memory,
                    header_size: header.header_size,
                    sections: loaded.sections,
                };
                if image.code(image.entry_point()) is None {
                    Err("entry point is outside executable sections"@)
                } else {
                    Ok(image)
                }
            },
        },
    }
}

impl Section {
    pub fn is_executable(&self) -> (res: bool)
        ensures
            res == self@.executable(),
    {
        self.characteristics & EXECUTE != 0
    }

    /// The start and the end of the section, relative to the image base.
    fn range(&self) -> (res: (u64, u64))
        ensures
            res.0 == self.virtual_address,
            res.1 == self@.end(),
    {
        (self.virtual_address as u64, self.virtual_address as u64 + self.virtual_size as u64)
    }
}

/// An image laid out at the PE preferred image base, with virtual tails zero-filled.
pub struct PeImage {
    image_base: u64,
    entry_rva: u32,
    memory: Vec<u8>,
    header_size: usize,
    sections: Vec<Section>,
}

impl View for PeImage {
    type V = ImageModel;

    closed spec fn view(&self) -> ImageModel {
        ImageModel {
            image_base: self.image_base,
            entry_rva: self.entry_rva,
            memory: self.memory@,
            header_size: self.header_size as nat,
            sections: self.sections@.map_values(|s: Section| s@),
        }
    }
}

/// What the section headers at `offset` hold.
fn read_section(file: &[u8], offset: usize) -> (res: (Section, usize))
    requires
        offset + 40 <= file@.len(),
    ensures
        res.0@ == section_header(file@, offset as int),
        res.1 == field(file@, offset + 20, 4),
{
    let total: usize = file.len();
    assert(offset + 40 <= total);
    let name_bytes = vstd::slice::slice_subrange(file, offset, offset + 8);
    let mut length: usize = 0;
    assert(name_bytes@.subrange(0, 8) =~= name_bytes@);
    assert(before_zero(name_bytes@) == name_bytes@.subrange(0, 0) + before_zero(
        name_bytes@.subrange(0, 8),
    ));
    while length < 8 && name_bytes[length] != 0
        invariant
            length <= 8,
            name_bytes@.len() == 8,
            before_zero(name_bytes@) == name_bytes@.subrange(0, length as int) + before_zero(
                name_bytes@.subrange(length as int, 8),
            ),
        decreases 8 - length,
    {
        proof {
            let rest = name_bytes@.subrange(length as int, 8);
            assert(rest.subrange(1, rest.len() as int) =~= name_bytes@.subrange(length + 1, 8));
            assert(name_bytes@.subrange(0, length + 1) =~= name_bytes@.subrange(0, length as int)
                + seq![rest[0]]);
            assert(before_zero(name_bytes@) =~= name_bytes@.subrange(0, length + 1) + before_zero(
                name_bytes@.subrange(length + 1, 8),
            ));
        }
        length = length + 1;
    }
    assert(before_zero(name_bytes@.subrange(length as int, 8)) =~= Seq::<u8>::empty());
    let name = text_of(vstd::slice::slice_subrange(name_bytes, 0, length));
    assert(name_bytes@.subrange(0, length as int) =~= before_zero(name_bytes@));
    let raw_size: u32 = number_in(file, offset + 16);
    let raw_offset: u32 = number_in(file, offset + 20);
    let virtual_size: u32 = number_in(file, offset + 8);
    let virtual_address: u32 = number_in(file, offset + 12);
    let characteristics: u32 = number_in(file, offset + 36);
    let section = Section {
        name,
        virtual_address,
        // Some linkers leave VirtualSize zero; the raw extent is then the
        // only usable section size. Raw alignment padding is otherwise not
        // part of the mapped virtual section.
        virtual_size: if virtual_size == 0 {
            raw_size
        } else {
            virtual_size
        },
        raw_size,
        characteristics,
    };
    (section, raw_offset as usize)
}

/// A 32-bit number that the file is known to hold.
fn number_in(file: &[u8], offset: usize) -> (res: u32)
    requires
        offset + 4 <= file@.len(),
    ensures
        res == field(file@, offset as int, 4),
{
    let total: usize = file.len();
    assert(offset + 4 <= total);
    let bytes = vstd::slice::slice_subrange(file, offset, offset + 4);
    proof {
        lemma_little_endian(bytes@);
    }
    bytes[0] as u32 + 0x100 * bytes[1] as u32 + 0x1_0000 * bytes[2] as u32 + 0x100_0000
        * bytes[3] as u32
}

/// Writes `bytes` into `memory` at `start`.
fn write_bytes(memory: &mut Vec<u8>, start: usize, bytes: &[u8])
    requires
        start + bytes@.len() <= old(memory)@.len(),
    ensures
        final(memory)@ == overlay(old(memory)@, start as int, bytes@),
{
    let mut i: usize = 0;
    let total: usize = memory.len();
    while i < bytes.len()
        invariant
            i <= bytes@.len(),
            start + bytes@.len() <= total,
            total == memory@.len(),
            memory@.len() == old(memory)@.len(),
            forall|k: int|
                0 <= k < memory@.len() ==> #[trigger] memory@[k] == if start <= k < start + i {
                    bytes@[k - start]
                } else {
                    old(memory)@[k]
                },
        decreases bytes@.len() - i,
    {
        memory.set(start + i, bytes[i]);
        i = i + 1;
    }
    assert(memory@ =~= overlay(old(memory)@, start as int, bytes@));
}


proof fn lemma_little_endian_bound(bytes: Seq<u8>)
    ensures
        bytes.len() == 2 ==> little_endian(bytes) <= u16::MAX,
        bytes.len() == 4 ==> little_endian(bytes) <= u32::MAX,
        bytes.len() == 8 ==> little_endian(bytes) <= u64::MAX,
{
    lemma_little_endian(bytes);
}

/// The headers of the file, read and checked.
struct Headers {
    section_count: usize,
    section_table: usize,
    entry_rva: u32,
    image_base: u64,
    image_size: usize,
    header_size: usize,
}

impl Headers {
    spec fn model(self) -> HeaderModel {
        HeaderModel {
            section_count: self.section_count as nat,
            section_table: self.section_table as int,
            entry_rva: self.entry_rva as nat,
            image_base: self.image_base as nat,
            image_size: self.image_size as nat,
            header_size: self.header_size as nat,
        }
    }
}

fn read_coff_offset(file: &[u8]) -> (res: Result<usize, String>)
    ensures
        match (res, coff_offset(file@)) {
            (Ok(offset), Ok(model)) => offset == model,
            (Err(e), Err(model)) => e@ == model,
            _ => false,
        },
{
    let dos = bytes_at(file, 0, 2)?;
    if !same_bytes(dos, &[0x4du8, 0x5au8]) {
        assert(dos@ != seq![0x4du8, 0x5au8]);
        return Err(owned("missing DOS signature"));
    }
    assert(dos@ == seq![0x4du8, 0x5au8]);
    let pe: usize = u32_at(file, 0x3c)? as usize;
    let signature = bytes_at(file, pe, 4)?;
    if !same_bytes(signature, &[0x50u8, 0x45u8, 0u8, 0u8]) {
        assert(signature@ != seq![0x50u8, 0x45u8, 0u8, 0u8]);
        return Err(owned("missing PE signature"));
    }
    assert(signature@ == seq![0x50u8, 0x45u8, 0u8, 0u8]);
    Ok(pe + 4)
}

fn read_headers(file: &[u8]) -> (res: Result<Headers, String>)
    ensures
        match (res, headers(file@)) {
            (Ok(header), Ok(model)) => header.model() == model && header.section_count <= 0xffff
                && header.image_size <= u32::MAX && header.section_table + header.section_count
                * 40 <= file@.len() && header.section_table + header.section_count * 40
                <= header.header_size,
            (Err(e), Err(model)) => e@ == model,
            _ => false,
        },
{
    let coff: usize = read_coff_offset(file)?;
    let machine: u16 = u16_at(file, coff)?;
    if machine != AMD64 {
        return Err(owned("only x86_64 PE images are supported"));
    }
    let section_count: usize = u16_at(file, offset_of(coff, 2)?)? as usize;
    let optional_size: usize = u16_at(file, offset_of(coff, 16)?)? as usize;
    let optional: usize = offset_of(coff, 20)?;
    let optional_bytes = bytes_at(file, optional, optional_size)?;
    if optional_bytes.len() < 64 || u16_at(optional_bytes, 0)? != PE32_PLUS {
        return Err(owned("expected a PE32+ optional header"));
    }
    let entry_rva: u32 = number_in(optional_bytes, 16);
    let image_base: u64 = u64_at(optional_bytes, 24)?;
    let image_size: usize = number_in(optional_bytes, 56) as usize;
    let header_size: usize = number_in(optional_bytes, 60) as usize;
    if image_size == 0 || header_size > image_size {
        return Err(owned("invalid PE image or header size"));
    }
    if entry_rva as usize >= image_size {
        return Err(owned("entry point is outside the PE image"));
    }
    if image_base.checked_add(image_size as u64).is_none() {
        return Err(owned("PE virtual address overflow"));
    }
    let section_table: usize = optional + optional_size;
    let table_size: usize = section_count * 40;
    match section_table.checked_add(table_size) {
        None => {
            return Err(owned("PE section table overflow"));
        },
        Some(table_end) => {
            if table_end > header_size {
                return Err(owned("PE section table extends beyond mapped headers"));
            }
        },
    }
    let table = bytes_at(file, section_table, table_size)?;
    assert(table@.len() == table_size);
    Ok(
        Headers {
            section_count,
            section_table,
            entry_rva,
            image_base,
            image_size,
            header_size,
        },
    )
}

/// Whether a section may not follow those loaded so far.
fn is_misplaced(header: &Headers, sections: &Vec<Section>, section: &Section) -> (res: bool)
    ensures
        res == misplaced(header.model(), sections@.map_values(|s: Section| s@), section@),
{
    let ghost models = sections@.map_values(|s: Section| s@);
    let (start, end) = section.range();
    if end > header.image_size as u64 {
        return true;
    }
    if start < header.header_size as u64 && 0 < end {
        return true;
    }
    let mut j: usize = 0;
    while j < sections.len()
        invariant
            j <= sections@.len(),
            models == sections@.map_values(|s: Section| s@),
            start == section.virtual_address,
            end == section@.end(),
            forall|k: int|
                0 <= k < j ==> !((#[trigger] models[k]).virtual_size != 0 && crosses(
                    start as int,
                    end as int,
                    models[k].virtual_address as int,
                    models[k].end(),
                )),
        decreases sections@.len() - j,
    {
        let (other_start, other_end) = sections[j].range();
        assert(models[j as int] == sections@[j as int]@);
        if sections[j].virtual_size != 0 && start < other_end && other_start < end {
            return true;
        }
        j = j + 1;
    }
    false
}

/// Every section loaded lies in the image, and the memory keeps its size.
proof fn lemma_load_bounds(file: Seq<u8>, header: HeaderModel, count: nat)
    ensures
        match load(file, header, count) {
            Ok(loaded) => {
                &&& loaded.sections.len() == count
                &&& loaded.memory.len() == header.image_size
                &&& forall|i: int|
                    0 <= i < count ==> (#[trigger] loaded.sections[i]).end() <= header.image_size
            },
            Err(_) => true,
        },
    decreases count,
{
    if count > 0 {
        lemma_load_bounds(file, header, (count - 1) as nat);
    }
}

/// Later sections do not change whether loading failed earlier.
proof fn lemma_load_prefix(file: Seq<u8>, header: HeaderModel, small: nat, count: nat)
    requires
        small <= count,
    ensures
        load(file, header, small) is Err ==> load(file, header, count) == load(
            file,
            header,
            small,
        ),
    decreases count,
{
    if small < count {
        lemma_load_prefix(file, header, small, (count - 1) as nat);
    }
}

impl PeImage {
    #[verifier::type_invariant]
    spec fn well_formed(self) -> bool {
        self@.valid()
    }

    pub fn parse(file: &[u8]) -> (res: Result<Self, String>)
        ensures
            match (res, image_of(file@)) {
                (Ok(image), Ok(model)) => image@ == model,
                (Err(e), Err(model)) => e@ == model,
                _ => false,
            },
    {
        let header = read_headers(file)?;
        let ghost model = header.model();
        let mapped_headers = match bytes_at(file, 0, header.header_size) {
            Ok(bytes) => bytes,
            Err(e) => {
                proof {
                    lemma_load_prefix(file@, model, 0, model.section_count);
                }
                return Err(e);
            },
        };
        let mut memory: Vec<u8> = vec![0u8; header.image_size];
        assert(memory@ =~= Seq::new(model.image_size, |i: int| 0u8));
        write_bytes(&mut memory, 0, mapped_headers);
        let mut sections: Vec<Section> = Vec::new();
        assert(sections@.map_values(|s: Section| s@) =~= Seq::<SectionModel>::empty());
        let mut index: usize = 0;
        while index < header.section_count
            invariant
                index <= header.section_count,
                header.section_count <= 0xffff,
                header.image_size <= u32::MAX,
                model == header.model(),
                headers(file@) == Ok::<HeaderModel, Seq<char>>(model),
                header.section_table + header.section_count * 40 <= file@.len(),
                load(file@, model, index as nat) == Ok::<Loaded, Seq<char>>(
                    Loaded {
                        sections: sections@.map_values(|s: Section| s@),
                        memory: memory@,
                    },
                ),
            decreases header.section_count - index,
        {
            proof {
                lemma_load_bounds(file@, model, index as nat);
                lemma_load_prefix(file@, model, (index + 1) as nat, model.section_count);
            }
            let total: usize = file.len();
            let at: usize = header.section_table + index * 40;
            let (section, raw_offset) = read_section(file, at);
            let ghost before = sections@.map_values(|s: Section| s@);
            if is_misplaced(&header, &sections, &section) {
                let mut message = owned("invalid or overlapping section ");
                put(&mut message, section.name.as_str());
                return Err(message);
            }
            if section.raw_size != 0 {
                let raw = bytes_at(file, raw_offset, section.raw_size as usize)?;
                let copied = if raw.len() <= section.virtual_size as usize {
                    raw
                } else {
                    vstd::slice::slice_subrange(raw, 0, section.virtual_size as usize)
                };
                write_bytes(&mut memory, section.virtual_address as usize, copied);
            }
            sections.push(section);
            assert(sections@.map_values(|s: Section| s@) =~= before.push(section@));
            index = index + 1;
        }
        proof {
            lemma_load_bounds(file@, model, model.section_count);
        }
        let image = PeImage {
            image_base: header.image_base,
            entry_rva: header.entry_rva,
            memory,
            header_size: header.header_size,
            sections,
        };
        if image.executable_bytes_at(image.entry_point()).is_none() {
            return Err(owned("entry point is outside executable sections"));
        }
        Ok(image)
    }

    pub fn image_base(&self) -> (res: u64)
        ensures
            res == self@.image_base,
    {
        self.image_base
    }

    pub fn entry_point(&self) -> (res: u64)
        ensures
            res == self@.entry_point(),
    {
        proof {
            use_type_invariant(self);
        }
        self.image_base + self.entry_rva as u64
    }

    pub fn sections(&self) -> (res: &[Section])
        ensures
            res@.map_values(|s: Section| s@) == self@.sections,
    {
        self.sections.as_slice()
    }

    /// The address relative to the image base.
    fn rva(&self, address: u64) -> (res: Option<u64>)
        ensures
            res == if address >= self@.image_base {
                Some((address - self@.image_base) as u64)
            } else {
                None
            },
    {
        address.checked_sub(self.image_base)
    }

    /// The first section that contains a relative address.
    fn section_with(&self, rva: u64) -> (res: Option<&Section>)
        ensures
            match (res, first_containing(self@.sections, rva as int, 0)) {
                (Some(section), Some(i)) => section@ == self@.sections[i] && section@.contains(
                    rva as int,
                ),
                (None, None) => true,
                _ => false,
            },
    {
        let mut i: usize = 0;
        while i < self.sections.len()
            invariant
                i <= self.sections@.len(),
                self@.sections == self.sections@.map_values(|s: Section| s@),
                first_containing(self@.sections, rva as int, 0) == first_containing(
                    self@.sections,
                    rva as int,
                    i as int,
                ),
            decreases self.sections@.len() - i,
        {
            let (start, end) = self.sections[i].range();
            assert(self@.sections[i as int] == self.sections@[i as int]@);
            if start <= rva && rva < end {
                return Some(&self.sections[i]);
            }
            i = i + 1;
        }
        None
    }

    pub fn section_at(&self, address: u64) -> (res: Option<&Section>)
        ensures
            match (res, self@.section_index(address as int)) {
                (Some(section), Some(i)) => section@ == self@.sections[i],
                (None, None) => true,
                _ => false,
            },
    {
        match self.rva(address) {
            None => {
                proof {
                    lemma_first_containing(self@.sections, address - self@.image_base, 0);
                }
                None
            },
            Some(rva) => self.section_with(rva),
        }
    }

    /// Read mapped bytes at a virtual address. Adjacent sections can be read
    /// across their boundary, but gaps and file-alignment padding are absent.
    pub fn read(&self, address: u64, size: usize) -> (res: Option<&[u8]>)
        ensures
            match (res, self@.bytes(address as int, size as int)) {
                (Some(bytes), Some(model)) => bytes@ == model,
                (None, None) => true,
                _ => false,
            },
    {
        proof {
            use_type_invariant(self);
        }
        let rva: u64 = match self.rva(address) {
            Some(rva) => rva,
            None => return None,
        };
        let end: u64 = match rva.checked_add(size as u64) {
            Some(end) => end,
            None => return None,
        };
        if end > self.memory.len() as u64 {
            return None;
        }
        if size == 0 {
            let section = self.section_with(rva);
            proof {
                lemma_first_containing(self@.sections, rva as int, 0);
            }
            if !(rva < self.header_size as u64 || section.is_some()) {
                return None;
            }
            assert(self@.mapped(rva as int));
        }
        let mut covered: u64 = rva;
        while covered < end
            invariant
                rva == address - self@.image_base,
                end == rva + size,
                end <= self@.memory.len(),
                rva <= covered <= end,
                size > 0 || covered == end,
                forall|a: int| rva <= a < covered ==> #[trigger] self@.mapped(a),
                size == 0 ==> self@.mapped(rva as int),
                self@.valid(),
            decreases end - covered,
        {
            let region_end: u64 = if covered < self.header_size as u64 {
                self.header_size as u64
            } else {
                let section = self.section_with(covered);
                proof {
                    lemma_first_containing(self@.sections, covered as int, 0);
                }
                match section {
                    Some(section) => section.range().1,
                    None => {
                        assert(!self@.mapped(covered as int));
                        return None;
                    },
                }
            };
            let ghost previous = covered as int;
            let ghost index = first_containing(self@.sections, previous, 0);
            covered = if region_end < end {
                region_end
            } else {
                end
            };
            assert forall|a: int| rva <= a < covered implies #[trigger] self@.mapped(a) by {
                if a >= previous {
                    if previous >= self@.header_size {
                        assert(self@.sections[index->0].contains(a));
                    }
                }
            }
        }
        Some(vstd::slice::slice_subrange(self.memory.as_slice(), rva as usize, end as usize))
    }

    pub fn executable_bytes_at(&self, address: u64) -> (res: Option<&[u8]>)
        ensures
            match (res, self@.code(address as int)) {
                (Some(bytes), Some(model)) => bytes@ == model,
                (None, None) => true,
                _ => false,
            },
    {
        proof {
            use_type_invariant(self);
            lemma_first_containing(self@.sections, address - self@.image_base, 0);
        }
        let section = match self.section_at(address) {
            Some(section) => section,
            None => return None,
        };
        if !section.is_executable() {
            return None;
        }
        let start: u64 = match self.rva(address) {
            Some(start) => start,
            None => return None,
        };
        let end: u64 = section.range().1;
        Some(vstd::slice::slice_subrange(self.memory.as_slice(), start as usize, end as usize))
    }
}

// ---------------------------------------------------------------------------
// Laws

/// A loaded image is valid, and its entry point lies in an executable section.
pub proof fn law_loaded_image_is_valid(file: Seq<u8>)
    requires
        image_of(file) is Ok,
    ensures
        image_of(file)->Ok_0.valid(),
        image_of(file)->Ok_0.code(image_of(file)->Ok_0.entry_point()) is Some,
{
    let header = headers(file)->Ok_0;
    lemma_load_bounds(file, header, header.section_count);
    lemma_header_bounds(file);
}

/// The header's numbers fit the widths of their fields.
proof fn lemma_header_bounds(file: Seq<u8>)
    ensures
        match headers(file) {
            Ok(header) => header.image_size <= u32::MAX && header.entry_rva <= u32::MAX
                && header.image_base <= u64::MAX,
            Err(_) => true,
        },
{
    match coff_offset(file) {
        Ok(coff) => match optional_header(file, coff) {
            Ok((_, optional)) => {
                lemma_little_endian_bound(optional.subrange(16, 20));
                lemma_little_endian_bound(optional.subrange(24, 32));
                lemma_little_endian_bound(optional.subrange(56, 60));
            },
            Err(_) => {},
        },
        Err(_) => {},
    }
}

/// No two sections of a loaded image overlap.
pub proof fn law_sections_are_disjoint(file: Seq<u8>, i: int, j: int, rva: int)
    requires
        image_of(file) is Ok,
        0 <= i < j < image_of(file)->Ok_0.sections.len(),
        image_of(file)->Ok_0.sections[i].contains(rva),
    ensures
        !image_of(file)->Ok_0.sections[j].contains(rva),
{
    let header = headers(file)->Ok_0;
    lemma_disjoint(file, header, header.section_count);
}

/// No section of a loaded image overlaps the headers, not even the last or only one.
pub proof fn law_sections_lie_behind_the_headers(file: Seq<u8>, i: int, rva: int)
    requires
        image_of(file) is Ok,
        0 <= i < image_of(file)->Ok_0.sections.len(),
        image_of(file)->Ok_0.sections[i].contains(rva),
    ensures
        rva >= image_of(file)->Ok_0.header_size,
{
    let header = headers(file)->Ok_0;
    lemma_disjoint(file, header, header.section_count);
}

spec fn disjoint_sections(header: HeaderModel, sections: Seq<SectionModel>) -> bool {
    &&& forall|i: int|
        0 <= i < sections.len() ==> !crosses(
            (#[trigger] sections[i]).virtual_address as int,
            sections[i].end(),
            0,
            header.header_size as int,
        )
    &&& forall|i: int, j: int|
        0 <= i < j < sections.len() && (#[trigger] sections[i]).virtual_size != 0 ==> !crosses(
            (#[trigger] sections[j]).virtual_address as int,
            sections[j].end(),
            sections[i].virtual_address as int,
            sections[i].end(),
        )
}

proof fn lemma_disjoint(file: Seq<u8>, header: HeaderModel, count: nat)
    ensures
        match load(file, header, count) {
            Ok(loaded) => disjoint_sections(header, loaded.sections),
            Err(_) => true,
        },
    decreases count,
{
    if count > 0 {
        lemma_disjoint(file, header, (count - 1) as nat);
        lemma_load_bounds(file, header, (count - 1) as nat);
    }
}

/// The byte that a section shows at `offset`: the file's raw byte, or zero in
/// the tail that has none.
pub open spec fn section_byte(file: Seq<u8>, header: HeaderModel, index: int, offset: int) -> u8 {
    let at = header.section_table + index * 40;
    if offset < field(file, at + 16, 4) {
        file[field(file, at + 20, 4) + offset]
    } else {
        0
    }
}

/// Every byte of every section of a loaded image is the raw byte of its file, or
/// zero past the end of the raw data.
pub proof fn law_sections_show_the_file(file: Seq<u8>, index: int, offset: int)
    requires
        image_of(file) is Ok,
        0 <= index < image_of(file)->Ok_0.sections.len(),
        0 <= offset < image_of(file)->Ok_0.sections[index].virtual_size,
    ensures
        image_of(file)->Ok_0.memory[image_of(file)->Ok_0.sections[index].virtual_address + offset]
            == section_byte(file, headers(file)->Ok_0, index, offset),
{
    let header = headers(file)->Ok_0;
    lemma_load_bounds(file, header, header.section_count);
    lemma_section_bytes(file, header, header.section_count, index, offset);
}

proof fn lemma_unmapped_is_zero(file: Seq<u8>, header: HeaderModel, count: nat, rva: int)
    requires
        load(file, header, count) is Ok,
        header.header_size <= rva < header.image_size,
        forall|i: int|
            0 <= i < count ==> !(#[trigger] load(file, header, count)->Ok_0.sections[i]).contains(
                rva,
            ),
    ensures
        load(file, header, count)->Ok_0.memory[rva] == 0,
    decreases count,
{
    lemma_load_bounds(file, header, count);
    if count > 0 {
        let before = load(file, header, (count - 1) as nat)->Ok_0;
        let after = load(file, header, count)->Ok_0;
        lemma_load_bounds(file, header, (count - 1) as nat);
        assert forall|i: int| 0 <= i < count - 1 implies !(#[trigger] before.sections[i]).contains(
            rva,
        ) by {
            assert(after.sections[i] == before.sections[i]);
        }
        assert(!after.sections[count - 1].contains(rva));
        lemma_unmapped_is_zero(file, header, (count - 1) as nat, rva);
    }
}

proof fn lemma_section_bytes(
    file: Seq<u8>,
    header: HeaderModel,
    count: nat,
    index: int,
    offset: int,
)
    requires
        load(file, header, count) is Ok,
        0 <= index < count,
        0 <= offset < load(file, header, count)->Ok_0.sections[index].virtual_size,
        header.section_table >= 0,
        header.section_table + count * 40 <= file.len(),
    ensures
        load(
            file,
            header,
            count,
        )->Ok_0.memory[load(file, header, count)->Ok_0.sections[index].virtual_address
            + offset] == section_byte(file, header, index, offset),
    decreases count,
{
    let before = load(file, header, (count - 1) as nat)->Ok_0;
    let after = load(file, header, count)->Ok_0;
    lemma_load_bounds(file, header, (count - 1) as nat);
    lemma_load_bounds(file, header, count);
    lemma_disjoint(file, header, count);
    let rva = after.sections[index].virtual_address + offset;
    assert(after.sections[index].contains(rva));
    let at = header.section_table + (count - 1) * 40;
    let section = section_header(file, at);
    lemma_little_endian_bound(file.subrange(at + 16, at + 20));
    lemma_little_endian_bound(file.subrange(at + 20, at + 24));
    if index == count - 1 {
        assert(after.sections[index] == section);
        assert forall|i: int| 0 <= i < count - 1 implies !(#[trigger] before.sections[i]).contains(
            rva,
        ) by {
            assert(after.sections[i] == before.sections[i]);
        }
        lemma_unmapped_is_zero(file, header, (count - 1) as nat, rva);
    } else {
        assert(after.sections[index] == before.sections[index]);
        lemma_section_bytes(file, header, (count - 1) as nat, index, offset);
        assert(!after.sections[count - 1].contains(rva));
    }
}

/// Bytes read in two steps are the bytes read in one.
pub proof fn law_reads_join(image: ImageModel, address: int, first: int, second: int)
    requires
        0 < first,
        0 < second,
    ensures
        image.bytes(address, first + second) == match (
            image.bytes(address, first),
            image.bytes(address + first, second),
        ) {
            (Some(left), Some(right)) => Some(left + right),
            _ => None,
        },
{
    let rva = address - image.image_base;
    match (image.bytes(address, first), image.bytes(address + first, second)) {
        (Some(left), Some(right)) => {
            assert(image.memory.subrange(rva, rva + first + second) =~= left + right);
            assert forall|a: int| rva <= a < rva + first + second implies image.mapped(a) by {
                if a < rva + first {
                } else {
                    assert(rva + first <= a < rva + first + second);
                }
            }
        },
        _ => {},
    }
}

/// The byte that fills the space between functions.
pub const PADDING: u8 = 0xcc;

/// Where the padding after a function begins.
pub open spec fn padding_at(code: Seq<u8>, from: int) -> Option<int>
    decreases code.len() - from,
{
    if from < 0 || from >= code.len() {
        None
    } else if code[from] == PADDING {
        Some(from)
    } else {
        padding_at(code, from + 1)
    }
}

/// The length of a function that is followed by padding.
pub fn padded_length(code: &[u8]) -> (res: Option<usize>)
    ensures
        match (res, padding_at(code@, 0)) {
            (Some(length), Some(at)) => length == at,
            (None, None) => true,
            _ => false,
        },
{
    let mut i: usize = 0;
    while i < code.len()
        invariant
            i <= code@.len(),
            padding_at(code@, 0) == padding_at(code@, i as int),
        decreases code@.len() - i,
    {
        if code[i] == PADDING {
            return Some(i);
        }
        i = i + 1;
    }
    None
}

} // verus!
