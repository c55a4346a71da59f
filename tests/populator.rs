use dwarf_synth::catalogue::{
    Array, Catalogue, CatalogueType, Enum, EnumField, Field, Function, GlobalVariable, Integer,
    Parameter, Pointer, Structure, Typedef,
};
use dwarf_synth::populate::{base_type, build_tree, PopulateError, UnitInfo};
use dwarf_synth::tree::{Attr, DebugEntry, DebugTree, Tag};
use dwarf_synth::typemap::TypeMap;

fn s(x: &str) -> String {
    String::from(x)
}

fn unit() -> UnitInfo {
    UnitInfo {
        comp_dir: s("dir"),
        file_name: s("file.c"),
        low_pc: 0,
        high_pc: 0x100,
        producer: s("test"),
    }
}

fn integer(size: u64, signed: bool) -> CatalogueType {
    CatalogueType::Integer(Integer { size, signed })
}

fn entry<'a>(tree: &'a DebugTree, map: &TypeMap, name: &str) -> &'a DebugEntry {
    &tree.entries[map.get(&s(name)).expect("registered")]
}

fn children<'a>(tree: &'a DebugTree, parent: usize) -> Vec<&'a DebugEntry> {
    tree.entries.iter().skip(1).filter(|e| e.parent == parent && e.tag != Tag::Variable).collect()
}

fn has_name(e: &DebugEntry) -> bool {
    e.attrs.iter().any(|a| matches!(a, Attr::Name(_)))
}

fn type_ref(e: &DebugEntry) -> Option<usize> {
    e.attrs.iter().find_map(|a| if let Attr::Type(t) = a { Some(*t) } else { None })
}

#[test]
fn base_type_names() {
    assert_eq!(base_type(4, false), Some(s("uint32_t")));
    assert_eq!(base_type(1, true), Some(s("int8_t")));
    assert_eq!(base_type(8, false), Some(s("uint64_t")));
    assert_eq!(base_type(3, true), None);
}

#[test]
fn enum_refers_to_matching_integer() {
    let cat = Catalogue {
        types: vec![
            (
                s("Color"),
                CatalogueType::Enum(Enum {
                    size: 4,
                    signed: false,
                    fields: vec![
                        EnumField { name: s("Red"), value: 0 },
                        EnumField { name: s("Blue"), value: 7 },
                    ],
                }),
            ),
            (s("uint32_t"), integer(4, false)),
        ],
    };
    let (tree, map) = build_tree(&cat, &vec![], unit()).expect("complete");
    let e = entry(&tree, &map, "Color");
    assert_eq!(e.tag, Tag::EnumerationType);
    assert_eq!(type_ref(e), map.get(&s("uint32_t")));
    assert!(matches!(e.attrs[2], Attr::Encoding(false)));
    let h = map.get(&s("Color")).unwrap();
    let kids = children(&tree, h);
    assert_eq!(kids.len(), 2);
    assert!(matches!(&kids[1].attrs[..], [Attr::Name(n), Attr::ConstValue(7)] if n == "Blue"));
}

#[test]
fn enum_without_backing_integer_fails() {
    let cat = Catalogue {
        types: vec![(
            s("Color"),
            CatalogueType::Enum(Enum { size: 4, signed: false, fields: vec![] }),
        )],
    };
    let r = build_tree(&cat, &vec![], unit());
    assert!(matches!(r, Err(PopulateError::Unresolved(n)) if n == "uint32_t"));
}

#[test]
fn enum_of_odd_size_fails() {
    let cat = Catalogue {
        types: vec![(s("E"), CatalogueType::Enum(Enum { size: 3, signed: true, fields: vec![] }))],
    };
    assert!(matches!(build_tree(&cat, &vec![], unit()), Err(PopulateError::NoBaseType(3, true))));
}

#[test]
fn array_has_one_subrange() {
    let cat = Catalogue {
        types: vec![
            (s("int32_t[10]"), CatalogueType::Array(Array { count: 10, target: s("int32_t") })),
            (s("int32_t"), integer(4, true)),
            (s("uint64_t"), integer(8, false)),
        ],
    };
    let (tree, map) = build_tree(&cat, &vec![], unit()).expect("complete");
    let h = map.get(&s("int32_t[10]")).unwrap();
    assert_eq!(type_ref(&tree.entries[h]), map.get(&s("int32_t")));
    let kids = children(&tree, h);
    assert_eq!(kids.len(), 1);
    assert_eq!(kids[0].tag, Tag::SubrangeType);
    assert_eq!(type_ref(kids[0]), map.get(&s("uint64_t")));
    assert!(matches!(kids[0].attrs[1], Attr::UpperBound(9)));
}

#[test]
fn empty_array_fails() {
    let cat = Catalogue {
        types: vec![
            (s("A"), CatalogueType::Array(Array { count: 0, target: s("uint64_t") })),
            (s("uint64_t"), integer(8, false)),
        ],
    };
    assert!(matches!(build_tree(&cat, &vec![], unit()), Err(PopulateError::EmptyArray(n)) if n == "A"));
}

#[test]
fn anonymous_structure_has_no_name() {
    let cat = Catalogue {
        types: vec![
            (
                s("anon_1"),
                CatalogueType::Structure(Structure {
                    size: 4,
                    anon: true,
                    fields: vec![Field { offset: 0, name: s("v"), typename: s("int32_t") }],
                }),
            ),
            (
                s("anon_u"),
                CatalogueType::Union(Structure { size: 4, anon: true, fields: vec![] }),
            ),
            (s("int32_t"), integer(4, true)),
        ],
    };
    let (tree, map) = build_tree(&cat, &vec![], unit()).expect("complete");
    let e = entry(&tree, &map, "anon_1");
    assert!(!has_name(e));
    assert!(matches!(e.attrs[..], [Attr::ByteSize(4)]));
    assert!(!has_name(entry(&tree, &map, "anon_u")));
    assert_eq!(entry(&tree, &map, "anon_u").tag, Tag::UnionType);
}

#[test]
fn pointer_typedef_and_function_attributes() {
    let cat = Catalogue {
        types: vec![
            (s("void*"), CatalogueType::Pointer(Pointer { size: 8, target: s("") })),
            (s("handle_t"), CatalogueType::Typedef(Typedef { target: s("void*") })),
            (
                s("cb"),
                CatalogueType::Function(Function {
                    parameters: vec![
                        Parameter { name: s(""), typename: s("handle_t") },
                        Parameter { name: s("n"), typename: s("handle_t") },
                    ],
                    returntype: s(""),
                }),
            ),
        ],
    };
    let (tree, map) = build_tree(&cat, &vec![], unit()).expect("complete");
    let p = entry(&tree, &map, "void*");
    assert!(matches!(p.attrs[..], [Attr::ByteSize(8)]));
    let t = entry(&tree, &map, "handle_t");
    assert!(matches!(&t.attrs[0], Attr::Name(n) if n == "handle_t"));
    assert_eq!(type_ref(t), map.get(&s("void*")));
    let f = entry(&tree, &map, "cb");
    assert!(matches!(f.attrs[..], [Attr::Prototyped]));
    let kids = children(&tree, map.get(&s("cb")).unwrap());
    assert_eq!(kids.len(), 2);
    assert!(!has_name(kids[0]));
    assert!(matches!(&kids[1].attrs[0], Attr::Name(n) if n == "n"));
    assert_eq!(type_ref(kids[1]), map.get(&s("handle_t")));
}

#[test]
fn unresolved_reference_fails() {
    let cat = Catalogue {
        types: vec![(s("T"), CatalogueType::Typedef(Typedef { target: s("Missing") }))],
    };
    assert!(matches!(build_tree(&cat, &vec![], unit()), Err(PopulateError::Unresolved(n)) if n == "Missing"));
    let cat = Catalogue {
        types: vec![(s("T"), CatalogueType::Typedef(Typedef { target: s("") }))],
    };
    assert!(matches!(build_tree(&cat, &vec![], unit()), Err(PopulateError::Unresolved(n)) if n.is_empty()));
}

#[test]
fn unresolved_variable_type_fails() {
    let cat = Catalogue { types: vec![] };
    let vars = vec![GlobalVariable { address: 1, name: s("g"), size: 4, typename: s("T") }];
    assert!(matches!(build_tree(&cat, &vars, unit()), Err(PopulateError::Unresolved(n)) if n == "T"));
}

#[test]
fn variables_and_root_attributes() {
    let cat = Catalogue { types: vec![(s("int32_t"), integer(4, true))] };
    let vars = vec![
        GlobalVariable { address: 0x1000, name: s("a"), size: 4, typename: s("int32_t") },
        GlobalVariable { address: 0x2000, name: s("b"), size: 2, typename: s("") },
    ];
    let (tree, map) = build_tree(&cat, &vars, unit()).expect("complete");
    assert_eq!(tree.entries.len(), 4);
    let a = &tree.entries[2];
    assert_eq!(a.tag, Tag::Variable);
    assert_eq!(a.parent, 0);
    assert!(matches!(&a.attrs[..], [Attr::Name(n), Attr::Type(t), Attr::External, Attr::Location(0x1000)] if n == "a" && Some(*t) == map.get(&s("int32_t"))));
    let b = &tree.entries[3];
    assert!(matches!(&b.attrs[..], [Attr::Name(n), Attr::External, Attr::Location(0x2000)] if n == "b"));
    let root = &tree.entries[0];
    assert_eq!(root.tag, Tag::CompileUnit);
    assert!(matches!(&root.attrs[..], [Attr::CompDir(d), Attr::Name(f), Attr::LowPc(0), Attr::HighPc(0x100), Attr::LanguageC, Attr::Producer(p)] if d == "dir" && f == "file.c" && p == "test"));
    let i = entry(&tree, &map, "int32_t");
    assert!(matches!(&i.attrs[..], [Attr::Name(n), Attr::ByteSize(4), Attr::Encoding(true)] if n == "int32_t"));
}
