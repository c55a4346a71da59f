use vstd::prelude::*;
use crate::catalogue::{Catalogue, CatalogueType, GlobalVariable};
use crate::populate::{
    built, children_upto, complete, def_entry, defined, optional_ok, type_attrs, type_children,
    type_ok, variable_entry, UnitInfo,
};
use crate::tree::{Attr, EntryModel};
use crate::typemap::TypeMap;

verus! {

/// Every type reference among the attributes points below `n`.
pub open spec fn refs_below(attrs: Seq<Attr>, n: nat) -> bool {
    forall|k: int| 0 <= k < attrs.len() ==> match #[trigger] attrs[k] {
        Attr::Type(t) => t < n,
        _ => true,
    }
}

/// The structural part of a tree that the encoder accepts: a root, every
/// other entry after its parent, every reference to an existing entry.
pub open spec fn sound(t: Seq<EntryModel>) -> bool {
    &&& t.len() >= 1
    &&& forall|i: int| 1 <= i < t.len() ==> (#[trigger] t[i]).parent < i
    &&& forall|i: int| 0 <= i < t.len() ==> refs_below((#[trigger] t[i]).attrs, t.len())
}

pub open spec fn handles_below(map: &TypeMap, n: nat) -> bool {
    forall|x: Seq<char>| #[trigger] map.contains(x) ==> map.handle(x) < n
}

proof fn lemma_definition_refs(map: &TypeMap, name: String, t: CatalogueType, h: usize, n: nat)
    requires
        handles_below(map, n),
        type_ok(map.known(), t),
    ensures
        refs_below(type_attrs(map, name, t), n),
        forall|k: int|
            0 <= k < type_children(map, h, t).len() ==> (#[trigger] type_children(map, h, t)[k]).parent
                == h && refs_below(type_children(map, h, t)[k].attrs, n),
{
    let a = type_attrs(map, name, t);
    let c = type_children(map, h, t);
    match t {
        CatalogueType::Structure(s) | CatalogueType::Union(s) => {
            assert forall|k: int| 0 <= k < c.len() implies (#[trigger] c[k]).parent == h
                && refs_below(c[k].attrs, n) by {
                assert(map.contains(s.fields@[k].typename@));
            }
        },
        CatalogueType::Function(f) => {
            assert forall|k: int| 0 <= k < c.len() implies (#[trigger] c[k]).parent == h
                && refs_below(c[k].attrs, n) by {
                assert(map.contains(f.parameters@[k].typename@));
                let e = c[k];
                assert forall|q: int| 0 <= q < e.attrs.len() implies match #[trigger] e.attrs[q] {
                    Attr::Type(x) => x < n,
                    _ => true,
                } by {
                    if f.parameters@[k].name@.len() != 0 && q == 0 {
                    } else {
                        assert(e.attrs[q] == Attr::Type(map.handle(f.parameters@[k].typename@)));
                    }
                }
            }
            assert forall|q: int| 0 <= q < a.len() implies match #[trigger] a[q] {
                Attr::Type(x) => x < n,
                _ => true,
            } by {
                if q == 1 {
                    assert(map.contains(f.returntype@));
                }
            }
        },
        CatalogueType::Pointer(p) => {
            assert forall|q: int| 0 <= q < a.len() implies match #[trigger] a[q] {
                Attr::Type(x) => x < n,
                _ => true,
            } by {
                if q == 1 {
                    assert(map.contains(p.target@));
                }
            }
        },
        CatalogueType::Enum(e) => {
            assert forall|k: int| 0 <= k < c.len() implies (#[trigger] c[k]).parent == h
                && refs_below(c[k].attrs, n) by {
                assert(c[k] == crate::populate::enumerator_entry(h, e.fields@[k]));
            }
        },
        _ => {},
    }
}

/// The children of the first `k` definitions hang below registered entries
/// and refer to registered entries.
proof fn lemma_children_refs(cat: &Catalogue, map: &TypeMap, k: nat, n: nat)
    requires
        handles_below(map, n),
        k <= cat.types@.len(),
        forall|m: int|
            0 <= m < cat.types@.len() ==> map.contains((#[trigger] cat.types@[m]).0@) && type_ok(
                map.known(),
                cat.types@[m].1,
            ),
    ensures
        forall|p: int|
            0 <= p < children_upto(cat, map, k).len() ==> (#[trigger] children_upto(cat, map, k)[p]).parent
                < n && refs_below(children_upto(cat, map, k)[p].attrs, n),
    decreases k,
{
    if k > 0 {
        lemma_children_refs(cat, map, (k - 1) as nat, n);
        let d = cat.types@[k - 1];
        let h = map.handle(d.0@);
        lemma_definition_refs(map, d.0, d.1, h, n);
        let prev = children_upto(cat, map, (k - 1) as nat);
        let c = type_children(map, h, d.1);
        assert(children_upto(cat, map, k) == prev + c);
        assert forall|p: int| 0 <= p < children_upto(cat, map, k).len() implies (#[trigger] children_upto(
            cat,
            map,
            k,
        )[p]).parent < n && refs_below(children_upto(cat, map, k)[p].attrs, n) by {
            if p >= prev.len() {
                assert(children_upto(cat, map, k)[p] == c[p - prev.len()]);
            } else {
                assert(children_upto(cat, map, k)[p] == prev[p]);
            }
        }
    }
}

/// A tree built from a complete catalogue is structurally sound: the
/// encoder can reject it only for a NUL character in a string.
pub proof fn lemma_built_tree_is_sound(
    cat: &Catalogue,
    vars: Seq<GlobalVariable>,
    u: UnitInfo,
    map: &TypeMap,
    t: Seq<EntryModel>,
)
    requires
        cat.wf(),
        complete(cat, vars),
        built(cat, vars, u, map, t),
    ensures
        sound(t),
{
    let r = map.entries@.len() + 1;
    let n = t.len();
    assert(handles_below(map, n)) by {
        assert forall|x: Seq<char>| #[trigger] map.contains(x) implies map.handle(x) < n by {
            let i = map.index_of(x);
            assert(map.entries@[i].1 == i + 1);
        }
    }
    assert(map.known() =~= defined(cat)) by {
        assert forall|x: Seq<char>| #[trigger] map.contains(x) == defined(cat)(x) by {
            if x.len() > 0 && cat.defines(x) {
                let m = choose|m: int| 0 <= m < cat.types@.len() && #[trigger] cat.types@[m].0@ == x;
                assert(cat.types@[m].0@.len() > 0);
            }
        }
    }
    assert forall|m: int| 0 <= m < cat.types@.len() implies map.contains((#[trigger] cat.types@[m]).0@)
        && type_ok(map.known(), cat.types@[m].1) by {}
    lemma_children_refs(cat, map, cat.types@.len(), r as nat);
    let c = children_upto(cat, map, cat.types@.len());
    let v = vars.map_values(|x: GlobalVariable| variable_entry(map, x));
    assert forall|i: int| 0 <= i < t.len() implies (i >= 1 ==> (#[trigger] t[i]).parent < i) && refs_below(
        t[i].attrs,
        t.len(),
    ) by {
        if i == 0 {
        } else if i < r {
            let key = map.entries@[i - 1].0@;
            assert(map.contains(key));
            let m = choose|m: int| 0 <= m < cat.types@.len() && #[trigger] cat.types@[m].0@ == key;
            assert(t[i] == def_entry(map, cat.types@[m]));
            lemma_definition_refs(map, cat.types@[m].0, cat.types@[m].1, 0, n);
        } else if i < r + c.len() {
            assert(t[i] == t.subrange(r as int, (r + c.len()) as int)[i - r]);
            assert(t[i] == c[i - r]);
        } else {
            assert(t[i] == t.subrange((r + c.len()) as int, t.len() as int)[i - r - c.len()]);
            let x = vars[i - r - c.len()];
            assert(t[i] == variable_entry(map, x));
            let e = variable_entry(map, x);
            assert(optional_ok(defined(cat), x.typename@));
            assert forall|q: int| 0 <= q < e.attrs.len() implies match #[trigger] e.attrs[q] {
                Attr::Type(y) => y < n,
                _ => true,
            } by {
                if q == 1 && x.typename@.len() > 0 {
                    assert(map.contains(x.typename@));
                }
            }
        }
    }
}

} // verus!
