use vstd::prelude::*;
use crate::catalogue::{Catalogue, CatalogueType, type_refs};
use crate::tree::{DebugTree, EntryModel, Tag};
use crate::typemap::TypeMap;

verus! {

/// The tag of the entry that stands for a catalogue definition.
pub open spec fn tag_of(t: CatalogueType) -> Tag {
    match t {
        CatalogueType::Structure(_) => Tag::StructureType,
        CatalogueType::Union(_) => Tag::UnionType,
        CatalogueType::Integer(_) => Tag::BaseType,
        CatalogueType::Pointer(_) => Tag::PointerType,
        CatalogueType::Typedef(_) => Tag::Typedef,
        CatalogueType::Function(_) => Tag::SubroutineType,
        CatalogueType::Enum(_) => Tag::EnumerationType,
        CatalogueType::Array(_) => Tag::ArrayType,
    }
}

pub fn type_tag(t: &CatalogueType) -> (r: Tag)
    ensures
        r == tag_of(*t),
{
    match t {
        CatalogueType::Structure(_) => Tag::StructureType,
        CatalogueType::Union(_) => Tag::UnionType,
        CatalogueType::Integer(_) => Tag::BaseType,
        CatalogueType::Pointer(_) => Tag::PointerType,
        CatalogueType::Typedef(_) => Tag::Typedef,
        CatalogueType::Function(_) => Tag::SubroutineType,
        CatalogueType::Enum(_) => Tag::EnumerationType,
        CatalogueType::Array(_) => Tag::ArrayType,
    }
}

/// The placeholder that the resolver allocates for a definition: a direct
/// child of the root, with its kind's tag and no attributes yet.
pub open spec fn placeholder(t: CatalogueType) -> EntryModel {
    EntryModel { tag: tag_of(t), parent: 0, attrs: seq![] }
}

/// The state that resolution keeps: the tree holds the root and, for the
/// name registered at position `i`, the placeholder at index `i + 1`; every
/// registered name is defined by the catalogue, and none twice.
pub open spec fn registered(cat: &Catalogue, tree: Seq<EntryModel>, map: &TypeMap) -> bool {
    &&& map.wf()
    &&& tree.len() == map.entries@.len() + 1
    &&& tree[0] == EntryModel { tag: Tag::CompileUnit, parent: 0, attrs: seq![] }
    &&& forall|i: int| 0 <= i < map.entries@.len() ==> #[trigger] map.entries@[i].1 == i + 1
    &&& forall|i: int|
        0 <= i < map.entries@.len() ==> cat.defines(#[trigger] map.entries@[i].0@)
            && map.entries@[i].0@.len() > 0
    &&& forall|i: int, j: int|
        0 <= i < map.entries@.len() && 0 <= j < cat.types@.len() && #[trigger] map.entries@[i].0@
            == #[trigger] cat.types@[j].0@ ==> tree[i + 1] == placeholder(cat.types@[j].1)
}

/// A map of distinct names, all defined by the catalogue, is no longer than
/// the catalogue.
proof fn lemma_map_fits(cat: &Catalogue, tree: Seq<EntryModel>, map: &TypeMap)
    requires
        registered(cat, tree, map),
    ensures
        map.entries@.len() <= cat.types@.len(),
{
    let ks = map.keys();
    let ns = cat.names();
    assert(ks.no_duplicates()) by {
        assert forall|i: int, j: int| 0 <= i < ks.len() && 0 <= j < ks.len() && i != j implies ks[i]
            != ks[j] by {
            if i < j {
                assert(map.entries@[i].0@ != map.entries@[j].0@);
            } else {
                assert(map.entries@[j].0@ != map.entries@[i].0@);
            }
        }
    }
    ks.unique_seq_to_set();
    ns.lemma_cardinality_of_set();
    assert(ks.to_set().subset_of(ns.to_set())) by {
        assert forall|k: Seq<char>| ks.to_set().contains(k) implies ns.to_set().contains(k) by {
            let i = choose|i: int| 0 <= i < ks.len() && ks[i] == k;
            assert(map.entries@[i].0@ == k);
            assert(cat.defines(map.entries@[i].0@));
            let j = choose|j: int| 0 <= j < cat.types@.len() && #[trigger] cat.types@[j].0@ == k;
            assert(ns[j] == k);
        }
    }
    vstd::set_lib::lemma_len_subset(ks.to_set(), ns.to_set());
}

/// Resolution state `1` keeps every entry and registration of state `0`.
pub open spec fn extends(
    tree0: Seq<EntryModel>,
    map0: &TypeMap,
    tree1: Seq<EntryModel>,
    map1: &TypeMap,
) -> bool {
    &&& map0.entries@.len() <= map1.entries@.len()
    &&& map1.entries@.subrange(0, map0.entries@.len() as int) == map0.entries@
    &&& tree0.len() <= tree1.len()
    &&& tree1.subrange(0, tree0.len() as int) == tree0
}

proof fn lemma_extends_refl(tree: Seq<EntryModel>, map: &TypeMap)
    ensures
        extends(tree, map, tree, map),
{
    assert(map.entries@.subrange(0, map.entries@.len() as int) =~= map.entries@);
    assert(tree.subrange(0, tree.len() as int) =~= tree);
}

proof fn lemma_extends_trans(
    tree0: Seq<EntryModel>,
    map0: &TypeMap,
    tree1: Seq<EntryModel>,
    map1: &TypeMap,
    tree2: Seq<EntryModel>,
    map2: &TypeMap,
)
    requires
        extends(tree0, map0, tree1, map1),
        extends(tree1, map1, tree2, map2),
    ensures
        extends(tree0, map0, tree2, map2),
{
    assert(map2.entries@.subrange(0, map0.entries@.len() as int) =~= map1.entries@.subrange(
        0,
        map0.entries@.len() as int,
    ));
    assert(tree2.subrange(0, tree0.len() as int) =~= tree1.subrange(0, tree0.len() as int));
}

/// The names that a definition refers to, in the order of `type_refs`.
pub fn referenced_names(t: &CatalogueType) -> (r: Vec<String>)
    ensures
        r@.map_values(|x: String| x@) == type_refs(*t),
{
    let mut r: Vec<String> = Vec::new();
    match t {
        CatalogueType::Structure(s) | CatalogueType::Union(s) => {
            let mut i: usize = 0;
            while i < s.fields.len()
                invariant
                    i <= s.fields@.len(),
                    r@.map_values(|x: String| x@) =~= s.fields@.subrange(0, i as int).map_values(
                        |f: crate::catalogue::Field| f.typename@,
                    ),
                decreases s.fields@.len() - i,
            {
                let t = s.fields[i].typename.clone();
                let ghost r0 = r@;
                r.push(t);
                assert(r@.map_values(|x: String| x@) =~= r0.map_values(|x: String| x@).push(t@));
                assert(s.fields@.subrange(0, i + 1) =~= s.fields@.subrange(0, i as int).push(
                    s.fields@[i as int],
                ));
                i = i + 1;
            }
            assert(s.fields@.subrange(0, i as int) =~= s.fields@);
        },
        CatalogueType::Function(f) => {
            r.push(f.returntype.clone());
            let mut i: usize = 0;
            while i < f.parameters.len()
                invariant
                    i <= f.parameters@.len(),
                    r@.map_values(|x: String| x@) =~= seq![f.returntype@] + f.parameters@.subrange(
                        0,
                        i as int,
                    ).map_values(|p: crate::catalogue::Parameter| p.typename@),
                decreases f.parameters@.len() - i,
            {
                let t = f.parameters[i].typename.clone();
                let ghost r0 = r@;
                r.push(t);
                assert(r@.map_values(|x: String| x@) =~= r0.map_values(|x: String| x@).push(t@));
                assert(f.parameters@.subrange(0, i + 1) =~= f.parameters@.subrange(
                    0,
                    i as int,
                ).push(f.parameters@[i as int]));
                i = i + 1;
            }
            assert(f.parameters@.subrange(0, i as int) =~= f.parameters@);
        },
        CatalogueType::Pointer(p) => {
            r.push(p.target.clone());
        },
        CatalogueType::Typedef(d) => {
            r.push(d.target.clone());
        },
        CatalogueType::Array(a) => {
            r.push(a.target.clone());
        },
        CatalogueType::Integer(_) | CatalogueType::Enum(_) => {},
    }
    assert(r@.map_values(|x: String| x@) =~= type_refs(*t));
    r
}

/// `b` is among the names that the definition of `a` refers to.
pub open spec fn refers_to(cat: &Catalogue, a: Seq<char>, b: Seq<char>) -> bool {
    exists|j: int, k: int|
        0 <= j < cat.types@.len() && cat.types@[j].0@ == a && 0 <= k < type_refs(
            cat.types@[j].1,
        ).len() && #[trigger] type_refs(cat.types@[j].1)[k] == b
}

/// The registrations from `lo` to `hi` are closed: every non-empty name that
/// their definitions refer to and that the catalogue defines is registered.
pub open spec fn closed_between(cat: &Catalogue, map: &TypeMap, lo: int, hi: int) -> bool {
    forall|i: int, b: Seq<char>|
        lo <= i < hi && #[trigger] refers_to(cat, map.entries@[i].0@, b) && b.len() > 0
            && cat.defines(b) ==> map.contains(b)
}

/// Each registration after `lo` and before `hi` is referred to by an
/// earlier one from `lo` on: all are reachable from the name at `lo`.
pub open spec fn reached_between(cat: &Catalogue, map: &TypeMap, lo: int, hi: int) -> bool {
    forall|i: int| lo < i < hi ==> #[trigger] reached_from(cat, map, lo, i)
}

/// Registration `i` is referred to by a registration from `lo` to `i`.
pub open spec fn reached_from(cat: &Catalogue, map: &TypeMap, lo: int, i: int) -> bool {
    exists|i2: int| lo <= i2 < i && #[trigger] refers_to(cat, map.entries@[i2].0@, map.entries@[i].0@)
}

proof fn lemma_extends_keeps(
    cat: &Catalogue,
    tree0: Seq<EntryModel>,
    map0: &TypeMap,
    tree1: Seq<EntryModel>,
    map1: &TypeMap,
    lo: int,
    hi: int,
)
    requires
        extends(tree0, map0, tree1, map1),
        0 <= lo,
        hi <= map0.entries@.len(),
    ensures
        forall|x: Seq<char>| map0.contains(x) ==> #[trigger] map1.contains(x),
        closed_between(cat, map0, lo, hi) ==> closed_between(cat, map1, lo, hi),
        reached_between(cat, map0, lo, hi) ==> reached_between(cat, map1, lo, hi),
{
    assert forall|i: int| 0 <= i < map0.entries@.len() implies map1.entries@[i] == map0.entries@[i] by {
        assert(map1.entries@.subrange(0, map0.entries@.len() as int)[i] == map1.entries@[i]);
    }
    assert forall|x: Seq<char>| map0.contains(x) implies #[trigger] map1.contains(x) by {
        let i = choose|i: int| 0 <= i < map0.entries@.len() && #[trigger] map0.entries@[i].0@ == x;
        assert(map1.entries@[i].0@ == x);
    }
    if reached_between(cat, map0, lo, hi) {
        assert forall|i: int| lo < i < hi implies #[trigger] reached_from(cat, map1, lo, i) by {
            assert(reached_from(cat, map0, lo, i));
            let i2 = choose|i2: int|
                lo <= i2 < i && #[trigger] refers_to(cat, map0.entries@[i2].0@, map0.entries@[i].0@);
            assert(refers_to(cat, map1.entries@[i2].0@, map1.entries@[i].0@));
        }
    }
}

/// What one `visit` of `name` leaves behind: resolution state kept, earlier
/// registrations kept, and the handle returned that `name` owns. A name that
/// was already registered changes nothing; the empty name and names that
/// the catalogue does not define give no handle.
pub open spec fn visit_post(
    cat: &Catalogue,
    tree0: Seq<EntryModel>,
    map0: &TypeMap,
    name: Seq<char>,
    tree1: Seq<EntryModel>,
    map1: &TypeMap,
    r: Option<usize>,
) -> bool {
    &&& registered(cat, tree1, map1)
    &&& extends(tree0, map0, tree1, map1)
    &&& (r is None <==> name.len() == 0 || !cat.defines(name))
    &&& (r is None ==> tree1 == tree0 && map1 == map0)
    &&& (r matches Some(h) ==> map1.contains(name) && map1.handle(name) == h)
    &&& (map0.contains(name) ==> r == Some(map0.handle(name)) && tree1 == tree0 && map1 == map0)
    &&& (map1.entries@.len() > map0.entries@.len() ==> map1.entries@[map0.entries@.len() as int].0@
        == name)
    &&& closed_between(cat, map1, map0.entries@.len() as int, map1.entries@.len() as int)
    &&& reached_between(cat, map1, map0.entries@.len() as int, map1.entries@.len() as int)
}

/// Gives `name` an entry if it has none yet: a placeholder is allocated and
/// registered before the names that its definition refers to are visited,
/// so that a cycle through pointers or typedefs comes back to a registered
/// name and stops. Returns the entry that `name` owns. The names registered
/// by the call are `name` and names reachable from it, and every name that
/// one of them refers to (and the catalogue defines) is registered too.
pub fn visit(cat: &Catalogue, tree: &mut DebugTree, map: &mut TypeMap, name: &String) -> (r:
    Option<usize>)
    requires
        cat.wf(),
        cat.types@.len() < usize::MAX - 1,
        registered(cat, old(tree)@, old(map)),
    ensures
        visit_post(cat, old(tree)@, old(map), name@, final(tree)@, final(map), r),
    decreases cat.types@.len() - old(map).entries@.len(),
{
    proof {
        lemma_map_fits(cat, tree@, map);
        lemma_extends_refl(tree@, map);
        if map.contains(name@) {
            let i = choose|i: int| 0 <= i < map.entries@.len() && #[trigger] map.entries@[i].0@ == name@;
            assert(cat.defines(map.entries@[i].0@));
        }
    }
    if name.as_str().is_empty() {
        return None;
    }
    match map.get(name) {
        Some(h) => {
            return Some(h);
        },
        None => {},
    }
    let idx = match cat.find(name) {
        Some(i) => i,
        None => {
            return None;
        },
    };
    let ghost tree0 = tree@;
    let ghost map0 = *map;
    let ty = &cat.types[idx].1;
    let h = tree.add(0, type_tag(ty));
    map.entries.push((name.clone(), h));
    proof {
        assert(map.entries@.subrange(0, map0.entries@.len() as int) =~= map0.entries@);
        assert(tree@.subrange(0, tree0.len() as int) =~= tree0);
        assert forall|i: int, j: int|
            0 <= i < map.entries@.len() && 0 <= j < map.entries@.len() && i != j implies map.entries@[i].0@
            != map.entries@[j].0@ by {
            if i < map0.entries@.len() && j < map0.entries@.len() {
                if i < j {
                    assert(map0.entries@[i].0@ != map0.entries@[j].0@);
                } else {
                    assert(map0.entries@[j].0@ != map0.entries@[i].0@);
                }
            } else if i < map0.entries@.len() {
                assert(map0.entries@[i].0@ != name@);
            } else {
                assert(map0.entries@[j].0@ != name@);
            }
        }
        assert forall|i: int, j: int|
            0 <= i < map.entries@.len() && 0 <= j < cat.types@.len() && #[trigger] map.entries@[i].0@
                == #[trigger] cat.types@[j].0@ implies tree@[i + 1] == placeholder(cat.types@[j].1) by {
            if i == map0.entries@.len() {
                if j != idx {
                    if j < idx {
                        assert(cat.types@[j].0@ != cat.types@[idx as int].0@);
                    } else {
                        assert(cat.types@[idx as int].0@ != cat.types@[j].0@);
                    }
                }
            } else {
                assert(map0.entries@[i].0@ == cat.types@[j].0@);
            }
        }
        assert(cat.defines(name@)) by {
            assert(cat.types@[idx as int].0@ == name@);
        }
        map.lemma_index_of(map0.entries@.len() as int);
    }
    let refs = referenced_names(ty);
    let ghost tree_mid = tree@;
    let ghost map_mid = *map;
    proof {
        lemma_extends_refl(tree@, map);
        assert(map0 == *old(map));
    }
    let mut k: usize = 0;
    while k < refs.len()
        invariant
            cat.wf(),
            cat.types@.len() < usize::MAX - 1,
            registered(cat, tree@, map),
            map_mid.entries@.len() == map0.entries@.len() + 1,
            map_mid.entries@[map0.entries@.len() as int].0@ == name@,
            map_mid.entries@[map0.entries@.len() as int].1 == h,
            h == map0.entries@.len() + 1,
            extends(tree0, &map0, tree_mid, &map_mid),
            map0 == *old(map),
            extends(tree_mid, &map_mid, tree@, map),
            k <= refs@.len(),
            idx < cat.types@.len(),
            cat.types@[idx as int].0@ == name@,
            refs@.map_values(|x: String| x@) == type_refs(cat.types@[idx as int].1),
            map.entries@[map0.entries@.len() as int].0@ == name@,
            closed_between(cat, map, map0.entries@.len() + 1int, map.entries@.len() as int),
            reached_between(cat, map, map0.entries@.len() as int, map.entries@.len() as int),
            forall|q: int|
                0 <= q < k && (#[trigger] refs@[q])@.len() > 0 && cat.defines(refs@[q]@) ==> map.contains(
                    refs@[q]@,
                ),
        decreases refs@.len() - k,
    {
        proof {
            lemma_map_fits(cat, tree@, map);
        }
        let ghost tree_k = tree@;
        let ghost map_k = *map;
        assert(map.entries@.len() > old(map).entries@.len());
        assert(map.entries@.len() <= cat.types@.len());
        let got = visit(cat, tree, map, &refs[k]);
        proof {
            lemma_extends_trans(tree_mid, &map_mid, tree_k, &map_k, tree@, map);
            let p = map0.entries@.len() as int;
            let lo = map_k.entries@.len() as int;
            lemma_extends_keeps(cat, tree_k, &map_k, tree@, map, p + 1, lo);
            lemma_extends_keeps(cat, tree_k, &map_k, tree@, map, p, lo);
            assert(map.entries@[p] == map_k.entries@[p]) by {
                assert(map.entries@.subrange(0, lo)[p] == map.entries@[p]);
            }
            assert(refs@.map_values(|x: String| x@)[k as int] == refs@[k as int]@);
            assert(refers_to(cat, name@, refs@[k as int]@)) by {
                assert(type_refs(cat.types@[idx as int].1)[k as int] == refs@[k as int]@);
            }
            assert forall|i: int, b: Seq<char>|
                p + 1 <= i < map.entries@.len() && #[trigger] refers_to(cat, map.entries@[i].0@, b)
                    && b.len() > 0 && cat.defines(b) implies map.contains(b) by {
                if i < lo {
                    assert(closed_between(cat, map, p + 1, lo));
                }
            }
            assert forall|i: int| p < i < map.entries@.len() implies #[trigger] reached_from(cat, map, p, i) by {
                if i < lo {
                    assert(reached_between(cat, map, p, lo));
                    assert(reached_from(cat, map, p, i));
                } else if i == lo {
                    assert(refers_to(cat, map.entries@[p].0@, map.entries@[i].0@));
                } else {
                    assert(reached_from(cat, map, lo, i));
                    let i2 = choose|i2: int|
                        lo <= i2 < i && #[trigger] refers_to(cat, map.entries@[i2].0@, map.entries@[i].0@);
                    assert(refers_to(cat, map.entries@[i2].0@, map.entries@[i].0@));
                }
            }
            assert forall|q: int|
                0 <= q < k + 1 && (#[trigger] refs@[q])@.len() > 0 && cat.defines(refs@[q]@) implies map.contains(
                refs@[q]@,
            ) by {
                if q < k {
                    assert(map_k.contains(refs@[q]@));
                }
            }
        }
        k = k + 1;
    }
    proof {
        lemma_extends_trans(tree0, &map0, tree_mid, &map_mid, tree@, map);
        assert(map.entries@[map0.entries@.len() as int] == map_mid.entries@[map0.entries@.len() as int]);
        map.lemma_index_of(map0.entries@.len() as int);
        assert(!map0.contains(name@));
        let p = map0.entries@.len() as int;
        assert forall|i: int, b: Seq<char>|
            p <= i < map.entries@.len() && #[trigger] refers_to(cat, map.entries@[i].0@, b) && b.len()
                > 0 && cat.defines(b) implies map.contains(b) by {
            if i == p {
                let (j, q) = choose|j: int, q: int|
                    0 <= j < cat.types@.len() && cat.types@[j].0@ == name@ && 0 <= q < type_refs(
                        cat.types@[j].1,
                    ).len() && #[trigger] type_refs(cat.types@[j].1)[q] == b;
                if j != idx {
                    if j < idx {
                        assert(cat.types@[j].0@ != cat.types@[idx as int].0@);
                    } else {
                        assert(cat.types@[idx as int].0@ != cat.types@[j].0@);
                    }
                }
                assert(refs@.map_values(|x: String| x@)[q] == refs@[q]@);
                assert(refs@[q]@ == b);
            }
        }
    }
    Some(h)
}

/// Resolution is complete: every non-empty name that the catalogue defines
/// owns an entry.
pub open spec fn resolved(cat: &Catalogue, tree: Seq<EntryModel>, map: &TypeMap) -> bool {
    &&& registered(cat, tree, map)
    &&& forall|j: int|
        0 <= j < cat.types@.len() && (#[trigger] cat.types@[j]).0@.len() > 0 ==> map.contains(
            cat.types@[j].0@,
        )
}

/// Visits every definition of the catalogue, in order, from an empty tree.
pub fn resolve(cat: &Catalogue) -> (r: (DebugTree, TypeMap))
    requires
        cat.wf(),
        cat.types@.len() < usize::MAX - 1,
    ensures
        resolved(cat, r.0@, &r.1),
{
    let mut tree = DebugTree::new();
    let mut map = TypeMap::new();
    let mut j: usize = 0;
    while j < cat.types.len()
        invariant
            cat.wf(),
            cat.types@.len() < usize::MAX - 1,
            j <= cat.types@.len(),
            registered(cat, tree@, &map),
            forall|i: int|
                0 <= i < j && (#[trigger] cat.types@[i]).0@.len() > 0 ==> map.contains(
                    cat.types@[i].0@,
                ),
        decreases cat.types@.len() - j,
    {
        let ghost map0 = map;
        let _ = visit(cat, &mut tree, &mut map, &cat.types[j].0);
        proof {
            assert forall|i: int|
                0 <= i <= j && (#[trigger] cat.types@[i]).0@.len() > 0 implies map.contains(
                cat.types@[i].0@,
            ) by {
                if i < j {
                    let a = choose|a: int|
                        0 <= a < map0.entries@.len() && #[trigger] map0.entries@[a].0@
                            == cat.types@[i].0@;
                    assert(map.entries@[a] == map0.entries@[a]);
                }
            }
        }
        j = j + 1;
    }
    (tree, map)
}

/// Each registered name owns its own entry: distinct names never share a
/// handle, and the entry a name owns is a placeholder of its definition's
/// kind. Together with the termination of `visit`, this is what makes
/// resolution safe on cyclic type graphs.
pub proof fn lemma_handles_one_to_one(cat: &Catalogue, tree: Seq<EntryModel>, map: &TypeMap)
    requires
        cat.wf(),
        registered(cat, tree, map),
    ensures
        tree.len() == map.entries@.len() + 1,
        forall|a: Seq<char>, b: Seq<char>|
            map.contains(a) && map.contains(b) && a != b ==> #[trigger] map.handle(a)
                != #[trigger] map.handle(b),
        forall|a: Seq<char>| #[trigger] map.contains(a) ==> 0 < map.handle(a) < tree.len(),
        forall|a: Seq<char>, j: int|
            map.contains(a) && 0 <= j < cat.types@.len() && #[trigger] cat.types@[j].0@ == a
                ==> tree[#[trigger] map.handle(a) as int] == placeholder(cat.types@[j].1),
{
    assert forall|a: Seq<char>| #[trigger] map.contains(a) implies map.handle(a) == map.index_of(a)
        + 1 && 0 <= map.index_of(a) < map.entries@.len() && map.entries@[map.index_of(a)].0@ == a by {
    }
}

/// Every non-empty name that a definition refers to and that the catalogue
/// defines owns an entry once resolution is complete, so a lookup of it
/// during population cannot fail.
pub proof fn lemma_reference_closure(cat: &Catalogue, tree: Seq<EntryModel>, map: &TypeMap)
    requires
        resolved(cat, tree, map),
    ensures
        forall|j: int, k: int|
            0 <= j < cat.types@.len() && 0 <= k < type_refs(cat.types@[j].1).len()
                && #[trigger] type_refs(cat.types@[j].1)[k].len() > 0 && cat.defines(
                type_refs(cat.types@[j].1)[k],
            ) ==> map.contains(type_refs(cat.types@[j].1)[k]),
{
    assert forall|j: int, k: int|
        0 <= j < cat.types@.len() && 0 <= k < type_refs(cat.types@[j].1).len()
            && #[trigger] type_refs(cat.types@[j].1)[k].len() > 0 && cat.defines(
            type_refs(cat.types@[j].1)[k],
        ) implies map.contains(type_refs(cat.types@[j].1)[k]) by {
        let n = type_refs(cat.types@[j].1)[k];
        let i = choose|i: int| 0 <= i < cat.types@.len() && #[trigger] cat.types@[i].0@ == n;
        assert(cat.types@[i].0@.len() > 0);
    }
}

/// Visiting a name a second time returns the handle of the first visit and
/// changes nothing.
pub proof fn lemma_visit_idempotent(
    cat: &Catalogue,
    tree0: Seq<EntryModel>,
    map0: &TypeMap,
    name: Seq<char>,
    tree1: Seq<EntryModel>,
    map1: &TypeMap,
    r1: Option<usize>,
    tree2: Seq<EntryModel>,
    map2: &TypeMap,
    r2: Option<usize>,
)
    requires
        visit_post(cat, tree0, map0, name, tree1, map1, r1),
        visit_post(cat, tree1, map1, name, tree2, map2, r2),
    ensures
        r2 == r1,
        tree2 == tree1,
        map2 == map1,
{
}

/// After complete resolution the registered names are exactly the
/// non-empty names that the catalogue defines.
pub proof fn lemma_resolved_domain(cat: &Catalogue, tree: Seq<EntryModel>, map: &TypeMap)
    requires
        resolved(cat, tree, map),
    ensures
        forall|n: Seq<char>| #[trigger] map.contains(n) <==> n.len() > 0 && cat.defines(n),
{
    assert forall|n: Seq<char>| #[trigger] map.contains(n) <==> n.len() > 0 && cat.defines(n) by {
        if map.contains(n) {
            let i = choose|i: int| 0 <= i < map.entries@.len() && #[trigger] map.entries@[i].0@ == n;
            assert(cat.defines(map.entries@[i].0@));
        }
        if n.len() > 0 && cat.defines(n) {
            let j = choose|j: int| 0 <= j < cat.types@.len() && #[trigger] cat.types@[j].0@ == n;
            assert(cat.types@[j].0@.len() > 0);
        }
    }
}

} // verus!
