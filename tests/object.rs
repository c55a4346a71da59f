use dwarf_synth::assemble::{assemble, check_fits, Payload, SymbolInput};
use dwarf_synth::catalogue::{
    Catalogue, CatalogueType, Field, GlobalVariable, Integer, Structure,
};
use dwarf_synth::encode::{encode_tree, tag_code, EncodeError};
use dwarf_synth::object::{build_object, link_object, payloads, symbol_inputs, BuildError};
use dwarf_synth::populate::{build_tree, UnitInfo};
use dwarf_synth::strtab::build_string_table;
use dwarf_synth::tree::{Attr, Tag};

fn s(x: &str) -> String {
    String::from(x)
}

fn unit() -> UnitInfo {
    UnitInfo {
        comp_dir: s("llvm-dwarf"),
        file_name: s("debuginfo.c"),
        low_pc: 0,
        high_pc: 0x1337,
        producer: s(":3"),
    }
}

/// The NUL-terminated string at `off`.
fn cstr(table: &[u8], off: usize) -> &[u8] {
    let end = table[off..].iter().position(|b| *b == 0).expect("terminated") + off;
    &table[off..end]
}

fn u16_at(b: &[u8], off: usize) -> u16 {
    u16::from_le_bytes(b[off..off + 2].try_into().unwrap())
}

fn u32_at(b: &[u8], off: usize) -> u32 {
    u32::from_le_bytes(b[off..off + 4].try_into().unwrap())
}

fn u64_at(b: &[u8], off: usize) -> u64 {
    u64::from_le_bytes(b[off..off + 8].try_into().unwrap())
}

fn contains(hay: &[u8], needle: &[u8]) -> bool {
    hay.windows(needle.len()).any(|w| w == needle)
}

#[test]
fn string_table_offsets_read_back() {
    let names = vec![b".debug_info".to_vec(), b"".to_vec(), b"x".to_vec()];
    let (table, offs) = build_string_table(&names);
    assert_eq!(table, b"\0.debug_info\0\0x\0\0".to_vec());
    assert_eq!(offs, vec![1, 13, 14]);
    for (i, n) in names.iter().enumerate() {
        assert_eq!(cstr(&table, offs[i] as usize), &n[..]);
    }
}

#[test]
fn symbol_round_trip() {
    let ss = vec![SymbolInput { name: b"g_flag".to_vec(), value: 0x404040, size: 4 }];
    let ps: Vec<Payload> = vec![];
    let o = assemble(&ps, &ss);
    assert_eq!(o.symbols.len(), 1);
    let sym = o.symbols[0];
    assert_eq!(sym.value, 0x404040);
    assert_eq!(sym.size, 4);
    assert_eq!(sym.info, 0x11);
    assert_eq!(cstr(&o.symbol_names, sym.name as usize), b"g_flag");
    // The record as written: after the null record, at the symbol table's offset.
    let symtab = o.headers[o.headers.len() - 1];
    let rec = symtab.offset as usize + 24;
    assert_eq!(u32_at(&o.bytes, rec), sym.name);
    assert_eq!(o.bytes[rec + 4], 0x11);
    assert_eq!(u64_at(&o.bytes, rec + 8), 0x404040);
    assert_eq!(u64_at(&o.bytes, rec + 16), 4);
}

#[test]
fn layout_offsets_are_consistent() {
    let ps = vec![
        Payload { name: b".text".to_vec(), flags: 6, data: vec![] },
        Payload { name: b".debug_info".to_vec(), flags: 0, data: vec![1, 2, 3] },
        Payload { name: b".debug_str".to_vec(), flags: 0, data: vec![9; 5] },
    ];
    let ss = vec![
        SymbolInput { name: b"a".to_vec(), value: 1, size: 2 },
        SymbolInput { name: b"bb".to_vec(), value: 3, size: 4 },
    ];
    assert!(check_fits(&ps, &ss));
    let o = assemble(&ps, &ss);
    let b = &o.bytes;
    // File header.
    assert_eq!(&b[0..4], b"\x7fELF");
    assert_eq!(b[4], 2);
    assert_eq!(b[5], 1);
    assert_eq!(u16_at(b, 16), 1);
    assert_eq!(u16_at(b, 18), 62);
    assert_eq!(u64_at(b, 40), 64);
    assert_eq!(u16_at(b, 58), 64);
    assert_eq!(u16_at(b, 60), 7);
    assert_eq!(u16_at(b, 62), 1);
    assert_eq!(o.headers.len(), 7);
    // Each header as written matches the recorded one.
    for (k, h) in o.headers.iter().enumerate() {
        let at = 64 + 64 * k;
        assert_eq!(u32_at(b, at), h.name);
        assert_eq!(u32_at(b, at + 4), h.kind);
        assert_eq!(u64_at(b, at + 8), h.flags);
        assert_eq!(u64_at(b, at + 24), h.offset);
        assert_eq!(u64_at(b, at + 32), h.size);
        assert_eq!(u32_at(b, at + 40), h.link);
        assert_eq!(u64_at(b, at + 56), h.entsize);
    }
    let shstr = o.headers[1];
    assert_eq!(shstr.offset, 64 + 64 * 7);
    assert_eq!(&b[shstr.offset as usize..(shstr.offset + shstr.size) as usize], &o.section_names[..]);
    let names: Vec<&[u8]> =
        o.headers[1..].iter().map(|h| cstr(&o.section_names, h.name as usize)).collect();
    assert_eq!(
        names,
        vec![&b".shstrtab"[..], b"", b".text", b".debug_info", b".debug_str", b".symtab"]
    );
    let strtab = o.headers[2];
    assert_eq!(strtab.offset, shstr.offset + shstr.size);
    assert_eq!(&b[strtab.offset as usize..(strtab.offset + strtab.size) as usize], &o.symbol_names[..]);
    // Payloads, back to back after the string tables.
    assert_eq!(o.headers[3].offset, strtab.offset + strtab.size);
    assert_eq!(o.headers[3].size, 0);
    assert_eq!(o.headers[3].flags, 6);
    assert_eq!(o.headers[4].offset, o.headers[3].offset);
    assert_eq!(&b[o.headers[4].offset as usize..][..3], &[1, 2, 3]);
    assert_eq!(o.headers[5].offset, o.headers[4].offset + 3);
    assert_eq!(&b[o.headers[5].offset as usize..][..5], &[9; 5]);
    let symtab = o.headers[6];
    assert_eq!(symtab.kind, 2);
    assert_eq!(symtab.link, 2);
    assert_eq!(symtab.entsize, 24);
    assert_eq!(symtab.offset, o.headers[5].offset + 5);
    assert_eq!(symtab.size, 72);
    assert_eq!(b.len() as u64, symtab.offset + symtab.size);
    assert!(b[symtab.offset as usize..][..24].iter().all(|x| *x == 0));
    assert_eq!(cstr(&o.symbol_names, o.symbols[1].name as usize), b"bb");
    assert_eq!(o.headers[0].kind, 0);
    assert!(b[64..128].iter().all(|x| *x == 0));
}

#[test]
fn link_object_accepts_small_inputs() {
    let ps = vec![Payload { name: b".x".to_vec(), flags: 0, data: vec![7] }];
    let ss: Vec<SymbolInput> = vec![];
    let o = link_object(&ps, &ss).expect("fits");
    assert_eq!(o.headers.len(), 5);
    assert_eq!(o.headers[4].size, 24);
}

fn point_catalogue() -> (Catalogue, Vec<GlobalVariable>) {
    let cat = Catalogue {
        types: vec![
            (
                s("Point"),
                CatalogueType::Structure(Structure {
                    size: 8,
                    anon: false,
                    fields: vec![
                        Field { offset: 0, name: s("x"), typename: s("int32_t") },
                        Field { offset: 4, name: s("y"), typename: s("int32_t") },
                    ],
                }),
            ),
            (s("int32_t"), CatalogueType::Integer(Integer { size: 4, signed: true })),
        ],
    };
    let vars = vec![GlobalVariable { address: 0x5000, name: s("origin"), size: 8, typename: s("Point") }];
    (cat, vars)
}

#[test]
fn end_to_end_point() {
    let (cat, vars) = point_catalogue();
    let (tree, map) = build_tree(&cat, &vars, unit()).expect("complete");
    let point = map.get(&s("Point")).unwrap();
    let int32 = map.get(&s("int32_t")).unwrap();
    let structs: Vec<_> = tree.entries.iter().filter(|e| e.tag == Tag::StructureType).collect();
    assert_eq!(structs.len(), 1);
    let p = &tree.entries[point];
    assert!(matches!(&p.attrs[..], [Attr::Name(n), Attr::ByteSize(8)] if n == "Point"));
    let members: Vec<_> = tree.entries.iter().filter(|e| e.tag == Tag::Member).collect();
    assert_eq!(members.len(), 2);
    assert!(members.iter().all(|m| m.parent == point));
    assert!(matches!(&members[0].attrs[..], [Attr::Name(n), Attr::Type(t), Attr::MemberLocation(0)] if n == "x" && *t == int32));
    assert!(matches!(&members[1].attrs[..], [Attr::Name(n), Attr::Type(t), Attr::MemberLocation(4)] if n == "y" && *t == int32));

    let o = build_object(&cat, &vars, unit()).expect("object");
    assert_eq!(o.symbols.len(), 1);
    assert_eq!(o.symbols[0].value, 0x5000);
    assert_eq!(o.symbols[0].size, 8);
    assert_eq!(o.symbols[0].info, 0x11);
    assert_eq!(cstr(&o.symbol_names, o.symbols[0].name as usize), b"origin");
    // The encoded debug strings carry the names.
    for n in [&b"Point\0"[..], b"x\0", b"y\0", b"origin\0", b"int32_t\0"] {
        assert!(contains(&o.bytes, n));
    }
    let names: Vec<&[u8]> =
        o.headers[3..].iter().map(|h| cstr(&o.section_names, h.name as usize)).collect();
    assert_eq!(names[0], b".text");
    assert!(names.contains(&&b".debug_info"[..]));
    assert!(names.contains(&&b".debug_str"[..]));
    assert_eq!(names[names.len() - 1], b".symtab");
    let info = o.headers[3..].iter().find(|h| cstr(&o.section_names, h.name as usize) == b".debug_info").unwrap();
    assert!(info.size > 0);
}

#[test]
fn encoder_output_becomes_payloads() {
    let (cat, vars) = point_catalogue();
    let (tree, _map) = build_tree(&cat, &vars, unit()).expect("complete");
    let sections = encode_tree(&tree).expect("encoded");
    let ps = payloads(&sections);
    assert_eq!(ps.len(), sections.len() + 1);
    assert_eq!(ps[0].name, b".text".to_vec());
    assert_eq!(ps[0].flags, 6);
    for (i, (n, d)) in sections.iter().enumerate() {
        assert_eq!(ps[i + 1].name, n.as_bytes().to_vec());
        assert_eq!(&ps[i + 1].data, d);
    }
    let info = sections.iter().find(|(n, _)| n == ".debug_info").unwrap();
    assert!(!info.1.is_empty());
}

#[test]
fn symbol_inputs_follow_variables() {
    let (_cat, vars) = point_catalogue();
    let ss = symbol_inputs(&vars);
    assert_eq!(ss.len(), 1);
    assert_eq!(ss[0].name, b"origin".to_vec());
    assert_eq!(ss[0].value, 0x5000);
    assert_eq!(ss[0].size, 8);
}

#[test]
fn a_later_variable_of_the_same_name_replaces_the_symbol() {
    let vars = vec![
        GlobalVariable { address: 0x10, name: s("a"), size: 1, typename: s("") },
        GlobalVariable { address: 0x20, name: s("b"), size: 2, typename: s("") },
        GlobalVariable { address: 0x30, name: s("a"), size: 3, typename: s("") },
    ];
    let ss = symbol_inputs(&vars);
    assert_eq!(ss.len(), 2);
    assert_eq!(ss[0].name, b"a".to_vec());
    assert_eq!(ss[0].value, 0x30);
    assert_eq!(ss[0].size, 3);
    assert_eq!(ss[1].name, b"b".to_vec());
    assert_eq!(ss[1].value, 0x20);
}

#[test]
fn missing_reference_is_a_populate_error() {
    let (cat, _) = point_catalogue();
    let vars = vec![GlobalVariable { address: 1, name: s("g"), size: 1, typename: s("Nope") }];
    assert!(matches!(build_object(&cat, &vars, unit()), Err(BuildError::Populate(_))));
}

#[test]
fn nul_in_a_name_cannot_be_encoded() {
    let (cat, _) = point_catalogue();
    let vars = vec![GlobalVariable { address: 1, name: s("a\0b"), size: 1, typename: s("") }];
    assert!(matches!(build_object(&cat, &vars, unit()), Err(BuildError::Encode(EncodeError::Invalid))));
}

#[test]
fn tag_codes() {
    assert_eq!(tag_code(Tag::StructureType), 0x13);
    assert_eq!(tag_code(Tag::Variable), 0x34);
    assert_eq!(tag_code(Tag::SubrangeType), 0x21);
}
