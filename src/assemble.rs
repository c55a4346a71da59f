use vstd::prelude::*;
use crate::elf::{
    SectionHeader, SymbolRecord, ehdr_layout, file_header_bytes, section_header_bytes, shdr_layout,
    sym_layout, symbol_bytes, SHT_PROGBITS, SHT_STRTAB, SHT_SYMTAB, SIZEOF_EHDR, SIZEOF_SHDR,
    SIZEOF_SYM, STINFO_GLOBAL_OBJECT,
};
use vstd::string::StringSliceAdditionalSpecFns;
use crate::strtab::{
    build_string_table, has_no_nul, lemma_offsets_read_back, name_offset, reads_cstr, string_table,
};

verus! {

/// A section whose contents are already final: its name, its flags and its
/// bytes.
pub struct Payload {
    pub name: Vec<u8>,
    pub flags: u64,
    pub data: Vec<u8>,
}

/// A symbol to record: its name, its value (an address) and its size.
pub struct SymbolInput {
    pub name: Vec<u8>,
    pub value: u64,
    pub size: u64,
}

/// An assembled object file, with the tables and headers that its bytes
/// hold.
pub struct ObjectFile {
    pub section_names: Vec<u8>,
    pub symbol_names: Vec<u8>,
    pub headers: Vec<SectionHeader>,
    pub symbols: Vec<SymbolRecord>,
    pub bytes: Vec<u8>,
}

/// The byte sequences, one after another.
pub open spec fn concat_all(s: Seq<Seq<u8>>) -> Seq<u8>
    decreases s.len(),
{
    if s.len() == 0 {
        seq![]
    } else {
        concat_all(s.drop_last()) + s.last()
    }
}

pub proof fn lemma_concat_step(s: Seq<Seq<u8>>, i: int)
    requires
        0 <= i < s.len(),
    ensures
        concat_all(s.take(i + 1)) == concat_all(s.take(i)) + s[i],
{
    assert(s.take(i + 1).drop_last() =~= s.take(i));
}

pub open spec fn shstrtab_name() -> Seq<u8> {
    ".shstrtab".spec_bytes()
}

pub open spec fn symtab_name() -> Seq<u8> {
    ".symtab".spec_bytes()
}

/// The names in the section-name table: the table's own name, the payload
/// sections' names in order, then the symbol table's name.
pub open spec fn section_names(ps: Seq<Payload>) -> Seq<Seq<u8>> {
    seq![shstrtab_name()] + ps.map_values(|p: Payload| p.name@) + seq![symtab_name()]
}

pub open spec fn symbol_names(ss: Seq<SymbolInput>) -> Seq<Seq<u8>> {
    ss.map_values(|s: SymbolInput| s.name@)
}

pub open spec fn payload_data(ps: Seq<Payload>) -> Seq<Seq<u8>> {
    ps.map_values(|p: Payload| p.data@)
}

/// The number of section headers: the null one, the two string tables, one
/// per payload, and the symbol table.
pub open spec fn section_count(ps: Seq<Payload>) -> int {
    ps.len() + 4int
}

/// Where the section-name table starts: after the file header and the
/// section headers.
pub open spec fn names_start(ps: Seq<Payload>) -> int {
    SIZEOF_EHDR + SIZEOF_SHDR * section_count(ps)
}

pub open spec fn symbol_names_start(ps: Seq<Payload>) -> int {
    names_start(ps) + string_table(section_names(ps)).len()
}

/// Where the payloads start: after the two string tables.
pub open spec fn payloads_start(ps: Seq<Payload>, ss: Seq<SymbolInput>) -> int {
    symbol_names_start(ps) + string_table(symbol_names(ss)).len()
}

/// Where payload `i` starts; `i == ps.len()` gives the symbol table.
pub open spec fn payload_offset(ps: Seq<Payload>, ss: Seq<SymbolInput>, i: int) -> int {
    payloads_start(ps, ss) + concat_all(payload_data(ps).take(i)).len()
}

pub open spec fn symtab_size(ss: Seq<SymbolInput>) -> int {
    SIZEOF_SYM * (ss.len() + 1)
}

/// The whole file fits the format's fields and memory.
pub open spec fn fits(ps: Seq<Payload>, ss: Seq<SymbolInput>) -> bool {
    &&& section_count(ps) <= u16::MAX
    &&& string_table(section_names(ps)).len() <= u32::MAX
    &&& string_table(symbol_names(ss)).len() <= u32::MAX
    &&& payload_offset(ps, ss, ps.len() as int) + symtab_size(ss) <= usize::MAX
}

pub open spec fn expected_symbol(ss: Seq<SymbolInput>, i: int) -> SymbolRecord {
    SymbolRecord {
        name: name_offset(symbol_names(ss), i) as u32,
        info: STINFO_GLOBAL_OBJECT,
        value: ss[i].value,
        size: ss[i].size,
    }
}

pub open spec fn null_header() -> SectionHeader {
    SectionHeader { name: 0, kind: 0, flags: 0, offset: 0, size: 0, link: 0, entsize: 0 }
}

/// The section headers in file order: null, section names, symbol names,
/// one per payload, symbol table (linked to the symbol-name table).
pub open spec fn expected_header(ps: Seq<Payload>, ss: Seq<SymbolInput>, k: int) -> SectionHeader {
    let n = ps.len() as int;
    if k == 0 {
        null_header()
    } else if k == 1 {
        SectionHeader {
            name: name_offset(section_names(ps), 0) as u32,
            kind: SHT_STRTAB,
            flags: 0,
            offset: names_start(ps) as u64,
            size: string_table(section_names(ps)).len() as u64,
            link: 0,
            entsize: 0,
        }
    } else if k == 2 {
        SectionHeader {
            name: 0,
            kind: SHT_STRTAB,
            flags: 0,
            offset: symbol_names_start(ps) as u64,
            size: string_table(symbol_names(ss)).len() as u64,
            link: 0,
            entsize: 0,
        }
    } else if k < n + 3 {
        SectionHeader {
            name: name_offset(section_names(ps), k - 2) as u32,
            kind: SHT_PROGBITS,
            flags: ps[k - 3].flags,
            offset: payload_offset(ps, ss, k - 3) as u64,
            size: ps[k - 3].data@.len() as u64,
            link: 0,
            entsize: 0,
        }
    } else {
        SectionHeader {
            name: name_offset(section_names(ps), n + 1) as u32,
            kind: SHT_SYMTAB,
            flags: 0,
            offset: payload_offset(ps, ss, n) as u64,
            size: symtab_size(ss) as u64,
            link: 2,
            entsize: SIZEOF_SYM,
        }
    }
}

/// The symbol table's contents: a null record, then one per symbol.
pub open spec fn symtab_bytes(ss: Seq<SymbolInput>) -> Seq<u8> {
    Seq::new(SIZEOF_SYM as nat, |j: int| 0u8) + concat_all(
        Seq::new(ss.len(), |i: int| sym_layout(expected_symbol(ss, i))),
    )
}

/// The whole file: header, section headers, the two string tables, the
/// payloads in order, the symbol table.
pub open spec fn file_bytes(ps: Seq<Payload>, ss: Seq<SymbolInput>) -> Seq<u8> {
    ehdr_layout(SIZEOF_EHDR, section_count(ps) as u16, 1) + concat_all(
        Seq::new(section_count(ps) as nat, |k: int| shdr_layout(expected_header(ps, ss, k))),
    ) + string_table(section_names(ps)) + string_table(symbol_names(ss)) + concat_all(
        payload_data(ps),
    ) + symtab_bytes(ss)
}

/// Appends `src` to `dst`.
fn push_all(dst: &mut Vec<u8>, src: &Vec<u8>)
    ensures
        final(dst)@ == old(dst)@ + src@,
{
    let mut k: usize = 0;
    while k < src.len()
        invariant
            k <= src@.len(),
            dst@ == old(dst)@ + src@.subrange(0, k as int),
        decreases src@.len() - k,
    {
        dst.push(src[k]);
        assert(src@.subrange(0, k + 1) =~= src@.subrange(0, k as int).push(src@[k as int]));
        k = k + 1;
    }
    assert(src@.subrange(0, k as int) =~= src@);
}

pub(crate) fn copy_bytes(src: &[u8]) -> (r: Vec<u8>)
    ensures
        r@ == src@,
{
    let mut r: Vec<u8> = Vec::new();
    let mut k: usize = 0;
    while k < src.len()
        invariant
            k <= src@.len(),
            r@ == src@.subrange(0, k as int),
        decreases src@.len() - k,
    {
        r.push(src[k]);
        assert(src@.subrange(0, k + 1) =~= src@.subrange(0, k as int).push(src@[k as int]));
        k = k + 1;
    }
    assert(src@.subrange(0, k as int) =~= src@);
    r
}

pub proof fn lemma_concat_mono(s: Seq<Seq<u8>>, i: int, k: int)
    requires
        0 <= i <= k <= s.len(),
    ensures
        concat_all(s.take(i)).len() <= concat_all(s.take(k)).len(),
    decreases k - i,
{
    if i < k {
        lemma_concat_mono(s, i, k - 1);
        lemma_concat_step(s, k - 1);
    }
}

fn section_name_list(ps: &Vec<Payload>) -> (r: Vec<Vec<u8>>)
    ensures
        r@.map_values(|v: Vec<u8>| v@) == section_names(ps@),
{
    let mut r: Vec<Vec<u8>> = Vec::new();
    r.push(copy_bytes(".shstrtab".as_bytes()));
    let mut i: usize = 0;
    while i < ps.len()
        invariant
            i <= ps@.len(),
            r@.map_values(|v: Vec<u8>| v@) =~= seq![shstrtab_name()] + ps@.subrange(0, i as int).map_values(
                |p: Payload| p.name@,
            ),
        decreases ps@.len() - i,
    {
        let c = copy_bytes(ps[i].name.as_slice());
        let ghost r0 = r@;
        r.push(c);
        assert(r@.map_values(|v: Vec<u8>| v@) =~= r0.map_values(|v: Vec<u8>| v@).push(c@));
        assert(ps@.subrange(0, i + 1) =~= ps@.subrange(0, i as int).push(ps@[i as int]));
        i = i + 1;
    }
    let ghost r0 = r@;
    let c = copy_bytes(".symtab".as_bytes());
    r.push(c);
    assert(r@.map_values(|v: Vec<u8>| v@) =~= r0.map_values(|v: Vec<u8>| v@).push(c@));
    assert(ps@.subrange(0, i as int) =~= ps@);
    assert(r@.map_values(|v: Vec<u8>| v@) =~= section_names(ps@));
    r
}

fn symbol_name_list(ss: &Vec<SymbolInput>) -> (r: Vec<Vec<u8>>)
    ensures
        r@.map_values(|v: Vec<u8>| v@) == symbol_names(ss@),
{
    let mut r: Vec<Vec<u8>> = Vec::new();
    let mut i: usize = 0;
    while i < ss.len()
        invariant
            i <= ss@.len(),
            r@.map_values(|v: Vec<u8>| v@) =~= ss@.subrange(0, i as int).map_values(
                |s: SymbolInput| s.name@,
            ),
        decreases ss@.len() - i,
    {
        let c = copy_bytes(ss[i].name.as_slice());
        let ghost r0 = r@;
        r.push(c);
        assert(r@.map_values(|v: Vec<u8>| v@) =~= r0.map_values(|v: Vec<u8>| v@).push(c@));
        assert(ss@.subrange(0, i + 1) =~= ss@.subrange(0, i as int).push(ss@[i as int]));
        i = i + 1;
    }
    assert(ss@.subrange(0, i as int) =~= ss@);
    r
}

/// The symbol records and the symbol table's contents.
fn symbol_table(ss: &Vec<SymbolInput>, offs: &Vec<u32>) -> (r: (Vec<SymbolRecord>, Vec<u8>))
    requires
        offs@.len() == ss@.len(),
        forall|i: int| 0 <= i < ss@.len() ==> #[trigger] offs@[i] == name_offset(symbol_names(ss@), i),
        symtab_size(ss@) <= usize::MAX,
    ensures
        r.0@ == Seq::new(ss@.len(), |i: int| expected_symbol(ss@, i)),
        r.1@ == symtab_bytes(ss@),
{
    let ghost lays = Seq::new(ss@.len(), |i: int| sym_layout(expected_symbol(ss@, i)));
    let mut recs: Vec<SymbolRecord> = Vec::new();
    let mut bytes: Vec<u8> = Vec::new();
    let mut z: usize = 0;
    while z < 24
        invariant
            z <= 24,
            bytes@ == Seq::new(z as nat, |j: int| 0u8),
        decreases 24 - z,
    {
        bytes.push(0u8);
        assert(bytes@ =~= Seq::new((z + 1) as nat, |j: int| 0u8));
        z = z + 1;
    }
    let mut i: usize = 0;
    while i < ss.len()
        invariant
            i <= ss@.len(),
            offs@.len() == ss@.len(),
            forall|k: int| 0 <= k < ss@.len() ==> #[trigger] offs@[k] == name_offset(symbol_names(ss@), k),
            lays == Seq::new(ss@.len(), |k: int| sym_layout(expected_symbol(ss@, k))),
            recs@ =~= Seq::new(i as nat, |k: int| expected_symbol(ss@, k)),
            bytes@ == Seq::new(SIZEOF_SYM as nat, |j: int| 0u8) + concat_all(lays.take(i as int)),
        decreases ss@.len() - i,
    {
        let rec = SymbolRecord {
            name: offs[i],
            info: STINFO_GLOBAL_OBJECT,
            value: ss[i].value,
            size: ss[i].size,
        };
        let b = symbol_bytes(&rec);
        push_all(&mut bytes, &b);
        recs.push(rec);
        proof {
            lemma_concat_step(lays, i as int);
        }
        i = i + 1;
    }
    assert(lays.take(i as int) =~= lays);
    (recs, bytes)
}

/// The section headers, computed once the sizes of both string tables are
/// known.
fn section_headers(
    ps: &Vec<Payload>,
    ss: &Vec<SymbolInput>,
    name_offs: &Vec<u32>,
    names_len: usize,
    symbol_names_len: usize,
) -> (r: Vec<SectionHeader>)
    requires
        fits(ps@, ss@),
        names_len == string_table(section_names(ps@)).len(),
        symbol_names_len == string_table(symbol_names(ss@)).len(),
        name_offs@.len() == ps@.len() + 2,
        forall|i: int|
            0 <= i < ps@.len() + 2 ==> #[trigger] name_offs@[i] == name_offset(section_names(ps@), i),
    ensures
        r@ == Seq::new(section_count(ps@) as nat, |k: int| expected_header(ps@, ss@, k)),
{
    let ghost data = payload_data(ps@);
    proof {
        lemma_concat_mono(data, 0, ps@.len() as int);
        assert(data.take(0) =~= Seq::<Seq<u8>>::empty());
    }
    let count: u64 = ps.len() as u64 + 4;
    let names_at: u64 = SIZEOF_EHDR + SIZEOF_SHDR * count;
    let symbol_names_at: u64 = names_at + names_len as u64;
    let mut pos: u64 = symbol_names_at + symbol_names_len as u64;
    let mut r: Vec<SectionHeader> = Vec::new();
    r.push(SectionHeader { name: 0, kind: 0, flags: 0, offset: 0, size: 0, link: 0, entsize: 0 });
    r.push(
        SectionHeader {
            name: name_offs[0],
            kind: SHT_STRTAB,
            flags: 0,
            offset: names_at,
            size: names_len as u64,
            link: 0,
            entsize: 0,
        },
    );
    r.push(
        SectionHeader {
            name: 0,
            kind: SHT_STRTAB,
            flags: 0,
            offset: symbol_names_at,
            size: symbol_names_len as u64,
            link: 0,
            entsize: 0,
        },
    );
    let mut i: usize = 0;
    while i < ps.len()
        invariant
            fits(ps@, ss@),
            names_len == string_table(section_names(ps@)).len(),
            symbol_names_len == string_table(symbol_names(ss@)).len(),
            name_offs@.len() == ps@.len() + 2,
            forall|k: int|
                0 <= k < ps@.len() + 2 ==> #[trigger] name_offs@[k] == name_offset(section_names(ps@), k),
            data == payload_data(ps@),
            i <= ps@.len(),
            pos == payload_offset(ps@, ss@, i as int),
            r@ =~= Seq::new((i + 3) as nat, |k: int| expected_header(ps@, ss@, k)),
        decreases ps@.len() - i,
    {
        proof {
            lemma_concat_step(data, i as int);
            lemma_concat_mono(data, i as int + 1, ps@.len() as int);
        }
        let len = ps[i].data.len() as u64;
        r.push(
            SectionHeader {
                name: name_offs[i + 1],
                kind: SHT_PROGBITS,
                flags: ps[i].flags,
                offset: pos,
                size: len,
                link: 0,
                entsize: 0,
            },
        );
        pos = pos + len;
        i = i + 1;
    }
    r.push(
        SectionHeader {
            name: name_offs[ps.len() + 1],
            kind: SHT_SYMTAB,
            flags: 0,
            offset: pos,
            size: SIZEOF_SYM * (ss.len() as u64 + 1),
            link: 2,
            entsize: SIZEOF_SYM,
        },
    );
    r
}

/// Lays out a relocatable object: file header, section headers (null,
/// section names, symbol names, one per payload, symbol table), the two
/// string tables, the payloads in order and the symbol table. Every header
/// records the offset and size at which its contents end up, and every name
/// offset points at that name in its string table.
pub fn assemble(ps: &Vec<Payload>, ss: &Vec<SymbolInput>) -> (r: ObjectFile)
    requires
        fits(ps@, ss@),
    ensures
        r.section_names@ == string_table(section_names(ps@)),
        r.symbol_names@ == string_table(symbol_names(ss@)),
        r.headers@ == Seq::new(section_count(ps@) as nat, |k: int| expected_header(ps@, ss@, k)),
        r.symbols@ == Seq::new(ss@.len(), |i: int| expected_symbol(ss@, i)),
        r.bytes@ == file_bytes(ps@, ss@),
{
    let names = section_name_list(ps);
    let (section_names, name_offs) = build_string_table(&names);
    let snames = symbol_name_list(ss);
    let (symbol_names, sym_offs) = build_string_table(&snames);
    let (symbols, symtab) = symbol_table(ss, &sym_offs);
    let headers = section_headers(ps, ss, &name_offs, section_names.len(), symbol_names.len());
    let ghost count = section_count(ps@) as nat;
    let ghost lays = Seq::new(count, |k: int| shdr_layout(expected_header(ps@, ss@, k)));
    let ghost ehdr = ehdr_layout(SIZEOF_EHDR, count as u16, 1);
    let mut bytes = file_header_bytes(SIZEOF_EHDR, (ps.len() + 4) as u16, 1);
    let mut k: usize = 0;
    while k < headers.len()
        invariant
            headers@ == Seq::new(count, |k: int| expected_header(ps@, ss@, k)),
            lays == Seq::new(count, |k: int| shdr_layout(expected_header(ps@, ss@, k))),
            k <= headers@.len(),
            bytes@ == ehdr + concat_all(lays.take(k as int)),
        decreases headers@.len() - k,
    {
        let b = section_header_bytes(&headers[k]);
        push_all(&mut bytes, &b);
        proof {
            lemma_concat_step(lays, k as int);
        }
        k = k + 1;
    }
    assert(lays.take(k as int) =~= lays);
    push_all(&mut bytes, &section_names);
    push_all(&mut bytes, &symbol_names);
    let ghost data = payload_data(ps@);
    let ghost b0 = bytes@;
    assert(data.take(0) =~= Seq::<Seq<u8>>::empty());
    let mut i: usize = 0;
    while i < ps.len()
        invariant
            data == payload_data(ps@),
            i <= ps@.len(),
            bytes@ == b0 + concat_all(data.take(i as int)),
        decreases ps@.len() - i,
    {
        push_all(&mut bytes, &ps[i].data);
        proof {
            lemma_concat_step(data, i as int);
        }
        i = i + 1;
    }
    assert(data.take(i as int) =~= data);
    push_all(&mut bytes, &symtab);
    ObjectFile { section_names, symbol_names, headers, symbols, bytes }
}

/// The name that section header `k` stands for; the symbol-name table is
/// unnamed.
pub open spec fn header_name(ps: Seq<Payload>, k: int) -> Seq<u8> {
    if k == 2 {
        seq![]
    } else if k == 1 {
        shstrtab_name()
    } else {
        section_names(ps)[k - 2]
    }
}

proof fn lemma_fixed_names_have_no_nul()
    ensures
        has_no_nul(shstrtab_name()),
        has_no_nul(symtab_name()),
{
    broadcast use vstd::string::is_ascii_spec_bytes;

    reveal_strlit(".shstrtab");
    reveal_strlit(".symtab");
    assert(vstd::string::is_ascii(".shstrtab"));
    assert(vstd::string::is_ascii(".symtab"));
}

/// Reading the section-name table at the name offset of any section header
/// gives that section's name, and reading the symbol-name table at the name
/// offset of any symbol record gives that symbol's name, provided that no
/// name holds a NUL byte.
pub proof fn lemma_names_read_back(ps: Seq<Payload>, ss: Seq<SymbolInput>)
    requires
        fits(ps, ss),
        forall|i: int| 0 <= i < ps.len() ==> has_no_nul(#[trigger] ps[i].name@),
        forall|i: int| 0 <= i < ss.len() ==> has_no_nul(#[trigger] ss[i].name@),
    ensures
        forall|k: int|
            1 <= k < section_count(ps) ==> reads_cstr(
                string_table(section_names(ps)),
                #[trigger] expected_header(ps, ss, k).name as int,
                header_name(ps, k),
            ),
        forall|i: int|
            0 <= i < ss.len() ==> reads_cstr(
                string_table(symbol_names(ss)),
                #[trigger] expected_symbol(ss, i).name as int,
                ss[i].name@,
            ),
{
    lemma_fixed_names_have_no_nul();
    let names = section_names(ps);
    let t = string_table(names);
    assert forall|k: int| 1 <= k < section_count(ps) implies reads_cstr(
        t,
        #[trigger] expected_header(ps, ss, k).name as int,
        header_name(ps, k),
    ) by {
        if k == 2 {
            assert(t.subrange(0, 0) =~= Seq::<u8>::empty());
        } else {
            let i = if k == 1 {
                0
            } else {
                k - 2
            };
            if 3 <= k < ps.len() + 3 {
                assert(names[i] == ps[k - 3].name@);
            }
            lemma_offsets_read_back(names, i);
        }
    }
    assert forall|i: int| 0 <= i < ss.len() implies reads_cstr(
        string_table(symbol_names(ss)),
        #[trigger] expected_symbol(ss, i).name as int,
        ss[i].name@,
    ) by {
        lemma_offsets_read_back(symbol_names(ss), i);
    }
}

/// The length of `string_table(names)`, where it is at most `u32::MAX`.
fn table_len(names: &Vec<Vec<u8>>) -> (r: Option<u64>)
    ensures
        match r {
            Some(v) => v == string_table(names@.map_values(|v: Vec<u8>| v@)).len() && v <= u32::MAX,
            None => string_table(names@.map_values(|v: Vec<u8>| v@)).len() > u32::MAX,
        },
{
    let ghost ns = names@.map_values(|v: Vec<u8>| v@);
    let mut acc: u64 = 2;
    let mut i: usize = 0;
    assert(ns.take(0) =~= Seq::<Seq<u8>>::empty());
    while i < names.len()
        invariant
            ns == names@.map_values(|v: Vec<u8>| v@),
            i <= names@.len(),
            acc == 2 + crate::strtab::table_body(ns.take(i as int)).len(),
            acc <= u32::MAX,
        decreases names@.len() - i,
    {
        proof {
            crate::strtab::lemma_body_step(ns, i as int);
        }
        let len = names[i].len() as u64;
        if len >= u32::MAX as u64 - acc {
            proof {
                crate::strtab::lemma_body_prefix(ns, i + 1, ns.len() as int);
                assert(ns.take(ns.len() as int) =~= ns);
            }
            return None;
        }
        acc = acc + len + 1;
        i = i + 1;
    }
    assert(ns.take(i as int) =~= ns);
    Some(acc)
}

/// Whether the file that `assemble` would lay out fits the format's fields
/// and memory.
pub fn check_fits(ps: &Vec<Payload>, ss: &Vec<SymbolInput>) -> (r: bool)
    ensures
        r == fits(ps@, ss@),
{
    if ps.len() > 65531 {
        return false;
    }
    let names_len = match table_len(&section_name_list(ps)) {
        Some(v) => v,
        None => {
            return false;
        },
    };
    let symbol_names_len = match table_len(&symbol_name_list(ss)) {
        Some(v) => v,
        None => {
            return false;
        },
    };
    let limit = usize::MAX as u64;
    let mut total: u64 = SIZEOF_EHDR + SIZEOF_SHDR * (ps.len() as u64 + 4) + names_len
        + symbol_names_len;
    let ghost data = payload_data(ps@);
    assert(data.take(0) =~= Seq::<Seq<u8>>::empty());
    if total > limit {
        proof {
            lemma_concat_mono(data, 0, ps@.len() as int);
        }
        return false;
    }
    let mut i: usize = 0;
    while i < ps.len()
        invariant
            data == payload_data(ps@),
            i <= ps@.len(),
            limit == usize::MAX,
            ps@.len() <= 65531,
            names_len == string_table(section_names(ps@)).len(),
            symbol_names_len == string_table(symbol_names(ss@)).len(),
            total == payload_offset(ps@, ss@, i as int),
            total <= limit,
        decreases ps@.len() - i,
    {
        proof {
            lemma_concat_step(data, i as int);
        }
        let len = ps[i].data.len() as u64;
        if len > limit - total {
            proof {
                lemma_concat_mono(data, i + 1, ps@.len() as int);
            }
            return false;
        }
        total = total + len;
        i = i + 1;
    }
    let m = ss.len() as u64;
    if m >= limit / SIZEOF_SYM {
        return false;
    }
    let sym = SIZEOF_SYM * (m + 1);
    sym <= limit - total
}

} // verus!
