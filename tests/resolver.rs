use dwarf_synth::catalogue::{
    Array, Catalogue, CatalogueType, Enum, EnumField, Field, Function, Integer, Parameter,
    Pointer, Structure, Typedef,
};
use dwarf_synth::resolve::{resolve, visit};
use dwarf_synth::tree::{DebugTree, Tag};
use dwarf_synth::typemap::TypeMap;

fn s(x: &str) -> String {
    String::from(x)
}

fn handle(map: &TypeMap, name: &str) -> usize {
    map.get(&s(name)).expect("name is registered")
}

/// struct Node { Node *next; NodeRef alias; }, typedef Node *NodeRef.
fn cyclic() -> Catalogue {
    Catalogue {
        types: vec![
            (
                s("Node"),
                CatalogueType::Structure(Structure {
                    size: 16,
                    anon: false,
                    fields: vec![
                        Field { offset: 0, name: s("next"), typename: s("Node*") },
                        Field { offset: 8, name: s("alias"), typename: s("NodeRef") },
                    ],
                }),
            ),
            (s("Node*"), CatalogueType::Pointer(Pointer { size: 8, target: s("Node") })),
            (s("NodeRef"), CatalogueType::Typedef(Typedef { target: s("Node*") })),
        ],
    }
}

#[test]
fn cycle_terminates_with_one_entry_per_name() {
    let cat = cyclic();
    let (tree, map) = resolve(&cat);
    assert_eq!(map.entries.len(), 3);
    assert_eq!(tree.entries.len(), 4);
    let a = handle(&map, "Node");
    let b = handle(&map, "Node*");
    let c = handle(&map, "NodeRef");
    assert!(a != b && b != c && a != c);
    assert_eq!(tree.entries[a].tag, Tag::StructureType);
    assert_eq!(tree.entries[b].tag, Tag::PointerType);
    assert_eq!(tree.entries[c].tag, Tag::Typedef);
    for e in &tree.entries[1..] {
        assert_eq!(e.parent, 0);
        assert!(e.attrs.is_empty());
    }
}

#[test]
fn placeholder_registered_before_referents() {
    let cat = cyclic();
    let (_tree, map) = resolve(&cat);
    // The structure is visited first and registered before its fields.
    assert_eq!(map.entries[0].0, "Node");
    assert_eq!(map.entries[0].1, 1);
    assert_eq!(map.entries[1].0, "Node*");
    assert_eq!(map.entries[2].0, "NodeRef");
}

#[test]
fn every_reachable_name_is_registered() {
    let cat = Catalogue {
        types: vec![
            (s("A"), CatalogueType::Array(Array { count: 3, target: s("B") })),
            (s("B"), CatalogueType::Pointer(Pointer { size: 8, target: s("") })),
            (
                s("F"),
                CatalogueType::Function(Function {
                    parameters: vec![Parameter { name: s("a"), typename: s("A") }],
                    returntype: s("I"),
                }),
            ),
            (s("I"), CatalogueType::Integer(Integer { size: 4, signed: true })),
            (
                s("E"),
                CatalogueType::Enum(Enum {
                    size: 4,
                    signed: true,
                    fields: vec![EnumField { name: s("Z"), value: 0 }],
                }),
            ),
        ],
    };
    let (tree, map) = resolve(&cat);
    for name in ["A", "B", "F", "I", "E"] {
        assert!(map.get(&s(name)).is_some(), "{} is registered", name);
    }
    assert!(map.get(&s("")).is_none());
    assert_eq!(tree.entries.len(), 6);
}

#[test]
fn visiting_twice_returns_the_same_handle() {
    let cat = cyclic();
    let mut tree = DebugTree::new();
    let mut map = TypeMap::new();
    let first = visit(&cat, &mut tree, &mut map, &s("NodeRef"));
    let len = tree.entries.len();
    let second = visit(&cat, &mut tree, &mut map, &s("NodeRef"));
    assert!(first.is_some());
    assert_eq!(first, second);
    assert_eq!(tree.entries.len(), len);
    assert_eq!(map.entries.len(), 3);
}

#[test]
fn empty_and_unknown_names_get_no_entry() {
    let cat = cyclic();
    let mut tree = DebugTree::new();
    let mut map = TypeMap::new();
    assert_eq!(visit(&cat, &mut tree, &mut map, &s("")), None);
    assert_eq!(visit(&cat, &mut tree, &mut map, &s("Missing")), None);
    assert_eq!(tree.entries.len(), 1);
    assert!(map.entries.is_empty());
}

#[test]
fn find_locates_definitions() {
    let cat = cyclic();
    assert_eq!(cat.find(&s("NodeRef")), Some(2));
    assert_eq!(cat.find(&s("nope")), None);
}

#[test]
fn visit_registers_what_the_name_reaches() {
    let cat = Catalogue {
        types: vec![
            (
                s("Node"),
                CatalogueType::Structure(Structure {
                    size: 16,
                    anon: false,
                    fields: vec![Field { offset: 0, name: s("next"), typename: s("NodePtr") }],
                }),
            ),
            (s("NodePtr"), CatalogueType::Pointer(Pointer { size: 8, target: s("Node") })),
            (s("Other"), CatalogueType::Integer(Integer { size: 4, signed: true })),
        ],
    };
    let mut tree = DebugTree::new();
    let mut map = TypeMap::new();
    let h = visit(&cat, &mut tree, &mut map, &s("Node"));
    assert_eq!(h, Some(1));
    assert_eq!(map.entries.len(), 2);
    assert_eq!(map.get(&s("NodePtr")), Some(2));
    assert_eq!(map.get(&s("Other")), None);
    assert_eq!(tree.entries[1].tag, Tag::StructureType);
    assert_eq!(tree.entries[2].tag, Tag::PointerType);
}
