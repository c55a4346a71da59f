use vstd::prelude::*;
use scroll::Pwrite;

verus! {

/// Section types and flags of the ELF format.
pub const SHT_PROGBITS: u32 = 1;
pub const SHT_SYMTAB: u32 = 2;
pub const SHT_STRTAB: u32 = 3;
pub const SHF_ALLOC: u64 = 2;
pub const SHF_EXECINSTR: u64 = 4;

/// Symbol binding `global` (high nibble) with symbol type `object`.
pub const STINFO_GLOBAL_OBJECT: u8 = 0x11;

/// Sizes of the 64-bit records.
pub const SIZEOF_EHDR: u64 = 64;
pub const SIZEOF_SHDR: u64 = 64;
pub const SIZEOF_SYM: u64 = 24;

/// The `n` low bytes of `v`, least significant first.
pub open spec fn le_bytes(v: nat, n: nat) -> Seq<u8>
    decreases n,
{
    if n == 0 {
        seq![]
    } else {
        seq![(v % 256) as u8] + le_bytes(v / 256, (n - 1) as nat)
    }
}

pub proof fn lemma_le_bytes_len(v: nat, n: nat)
    ensures
        le_bytes(v, n).len() == n,
    decreases n,
{
    if n > 0 {
        lemma_le_bytes_len(v / 256, (n - 1) as nat);
    }
}

/// The semantic fields of a 64-bit section header; address, info and
/// alignment are always zero here.
#[derive(PartialEq, Eq, Structural, Clone, Copy, Debug)]
pub struct SectionHeader {
    pub name: u32,
    pub kind: u32,
    pub flags: u64,
    pub offset: u64,
    pub size: u64,
    pub link: u32,
    pub entsize: u64,
}

/// The semantic fields of a 64-bit symbol record; visibility and section
/// index are always zero here.
#[derive(PartialEq, Eq, Structural, Clone, Copy, Debug)]
pub struct SymbolRecord {
    pub name: u32,
    pub info: u8,
    pub value: u64,
    pub size: u64,
}

/// A section header as it is laid out in a little-endian ELF64 file.
pub open spec fn shdr_layout(h: SectionHeader) -> Seq<u8> {
    le_bytes(h.name as nat, 4) + le_bytes(h.kind as nat, 4) + le_bytes(h.flags as nat, 8)
        + le_bytes(0, 8) + le_bytes(h.offset as nat, 8) + le_bytes(h.size as nat, 8) + le_bytes(
        h.link as nat,
        4,
    ) + le_bytes(0, 4) + le_bytes(0, 8) + le_bytes(h.entsize as nat, 8)
}

/// A symbol record as it is laid out in a little-endian ELF64 file.
pub open spec fn sym_layout(s: SymbolRecord) -> Seq<u8> {
    le_bytes(s.name as nat, 4) + seq![s.info, 0u8] + le_bytes(0, 2) + le_bytes(s.value as nat, 8)
        + le_bytes(s.size as nat, 8)
}

/// The file header of a little-endian ELF64 x86-64 relocatable object with no
/// program headers, whose section headers start at `shoff`.
pub open spec fn ehdr_layout(shoff: u64, shnum: u16, shstrndx: u16) -> Seq<u8> {
    seq![0x7fu8, 0x45u8, 0x4cu8, 0x46u8, 2u8, 1u8, 1u8, 0u8, 0u8, 0u8, 0u8, 0u8, 0u8, 0u8, 0u8, 0u8]
        + le_bytes(1, 2) + le_bytes(62, 2) + le_bytes(1, 4) + le_bytes(0, 8) + le_bytes(0, 8)
        + le_bytes(shoff as nat, 8) + le_bytes(0, 4) + le_bytes(64, 2) + le_bytes(56, 2)
        + le_bytes(0, 2) + le_bytes(64, 2) + le_bytes(shnum as nat, 2) + le_bytes(
        shstrndx as nat,
        2,
    )
}

/// Relies on goblin's `elf64::section_header::SectionHeader` and its scroll
/// `Pwrite` impl: the fields are written in declaration order, each in
/// little-endian order, into a buffer of `SIZEOF_SHDR` bytes.
#[verifier::external_body]
pub(crate) fn section_header_bytes(h: &SectionHeader) -> (r: Vec<u8>)
    ensures
        r@ == shdr_layout(*h),
{
    let raw = goblin::elf64::section_header::SectionHeader {
        sh_name: h.name, sh_type: h.kind, sh_flags: h.flags, sh_addr: 0, sh_offset: h.offset,
        sh_size: h.size, sh_link: h.link, sh_info: 0, sh_addralign: 0, sh_entsize: h.entsize,
    };
    let mut buf = vec![0u8; goblin::elf64::section_header::SIZEOF_SHDR];
    buf.pwrite_with(raw, 0, scroll::LE).unwrap();
    buf
}

/// Relies on goblin's `elf64::sym::Sym` and its scroll `Pwrite` impl: the
/// fields are written in declaration order, each in little-endian order,
/// into a buffer of `SIZEOF_SYM` bytes.
#[verifier::external_body]
pub(crate) fn symbol_bytes(s: &SymbolRecord) -> (r: Vec<u8>)
    ensures
        r@ == sym_layout(*s),
{
    let raw = goblin::elf64::sym::Sym {
        st_name: s.name, st_info: s.info, st_other: 0, st_shndx: 0, st_value: s.value,
        st_size: s.size,
    };
    let mut buf = vec![0u8; goblin::elf64::sym::SIZEOF_SYM];
    buf.pwrite_with(raw, 0, scroll::LE).unwrap();
    buf
}

/// Relies on goblin's `elf::header::Header::new` for a 64-bit little-endian
/// container (identification bytes, version, record sizes) and on the
/// `Pwrite` impl of `elf64::header::Header`, which writes the fields in
/// declaration order in the endianness that the identification names.
#[verifier::external_body]
pub(crate) fn file_header_bytes(shoff: u64, shnum: u16, shstrndx: u16) -> (r: Vec<u8>)
    ensures
        r@ == ehdr_layout(shoff, shnum, shstrndx),
{
    let ctx = goblin::container::Ctx::new(goblin::container::Container::Big, scroll::LE);
    let mut h = goblin::elf64::header::Header::from(goblin::elf::header::Header::new(ctx));
    h.e_type = goblin::elf::header::ET_REL;
    h.e_machine = goblin::elf::header::EM_X86_64;
    h.e_shoff = shoff;
    h.e_shnum = shnum;
    h.e_shstrndx = shstrndx;
    let mut buf = vec![0u8; goblin::elf64::header::SIZEOF_EHDR];
    buf.pwrite_with(h, 0, scroll::LE).unwrap();
    buf
}

} // verus!
