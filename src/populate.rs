use vstd::prelude::*;
use crate::catalogue::{
    Array, Catalogue, CatalogueType, Enum, EnumField, Field, Function, GlobalVariable, Parameter,
    Structure,
};
use crate::resolve::{placeholder, registered, tag_of, type_tag};
use crate::tree::{Attr, DebugEntry, DebugTree, EntryModel, Tag};
use crate::typemap::TypeMap;

verus! {

/// Why the tree could not be completed.
#[derive(Debug)]
pub enum PopulateError {
    /// A non-empty type name that is referenced, or that is a definition's
    /// own key, owns no entry.
    Unresolved(String),
    /// An enumeration whose size has no well-known integer name.
    NoBaseType(u64, bool),
    /// An array of zero elements.
    EmptyArray(String),
}

/// The well-known name of the integer of `size` bytes and the given
/// signedness.
pub open spec fn base_type_name(size: u64, signed: bool) -> Option<Seq<char>> {
    if signed {
        if size == 1 {
            Some("int8_t"@)
        } else if size == 2 {
            Some("int16_t"@)
        } else if size == 4 {
            Some("int32_t"@)
        } else if size == 8 {
            Some("int64_t"@)
        } else {
            None
        }
    } else {
        if size == 1 {
            Some("uint8_t"@)
        } else if size == 2 {
            Some("uint16_t"@)
        } else if size == 4 {
            Some("uint32_t"@)
        } else if size == 8 {
            Some("uint64_t"@)
        } else {
            None
        }
    }
}

/// The name of the index type of array subranges.
pub open spec fn index_type_name() -> Seq<char> {
    "uint64_t"@
}

pub fn base_type(size: u64, signed: bool) -> (r: Option<String>)
    ensures
        match r {
            Some(s) => base_type_name(size, signed) == Some(s@),
            None => base_type_name(size, signed) is None,
        },
{
    if signed {
        if size == 1 {
            Some("int8_t".to_owned())
        } else if size == 2 {
            Some("int16_t".to_owned())
        } else if size == 4 {
            Some("int32_t".to_owned())
        } else if size == 8 {
            Some("int64_t".to_owned())
        } else {
            None
        }
    } else {
        if size == 1 {
            Some("uint8_t".to_owned())
        } else if size == 2 {
            Some("uint16_t".to_owned())
        } else if size == 4 {
            Some("uint32_t".to_owned())
        } else if size == 8 {
            Some("uint64_t".to_owned())
        } else {
            None
        }
    }
}

/// A reference to the entry that `name` owns.
pub open spec fn type_attr(map: &TypeMap, name: Seq<char>) -> Attr {
    Attr::Type(map.handle(name))
}

/// A reference that may be empty: nothing for an empty name.
pub open spec fn optional_type_attr(map: &TypeMap, name: Seq<char>) -> Seq<Attr> {
    if name.len() == 0 {
        seq![]
    } else {
        seq![type_attr(map, name)]
    }
}

pub open spec fn optional_ok(known: spec_fn(Seq<char>) -> bool, name: Seq<char>) -> bool {
    name.len() == 0 || known(name)
}

/// Every reference of a definition can be resolved.
pub open spec fn type_ok(known: spec_fn(Seq<char>) -> bool, t: CatalogueType) -> bool {
    match t {
        CatalogueType::Structure(s) => fields_ok(known, s),
        CatalogueType::Union(s) => fields_ok(known, s),
        CatalogueType::Integer(_) => true,
        CatalogueType::Pointer(p) => optional_ok(known, p.target@),
        CatalogueType::Typedef(d) => known(d.target@),
        CatalogueType::Function(f) => optional_ok(known, f.returntype@) && forall|i: int|
            0 <= i < f.parameters@.len() ==> known(#[trigger] f.parameters@[i].typename@),
        CatalogueType::Enum(e) => match base_type_name(e.size, e.signed) {
            Some(b) => known(b),
            None => false,
        },
        CatalogueType::Array(a) => known(a.target@) && known(index_type_name())
            && a.count >= 1,
    }
}

pub open spec fn fields_ok(known: spec_fn(Seq<char>) -> bool, s: Structure) -> bool {
    forall|i: int| 0 <= i < s.fields@.len() ==> known(#[trigger] s.fields@[i].typename@)
}

/// The attributes of the entry of the definition `t` named `name`.
pub open spec fn type_attrs(map: &TypeMap, name: String, t: CatalogueType) -> Seq<Attr> {
    match t {
        CatalogueType::Structure(s) => struct_attrs(name, s),
        CatalogueType::Union(s) => struct_attrs(name, s),
        CatalogueType::Integer(i) => seq![
            Attr::Name(name),
            Attr::ByteSize(i.size),
            Attr::Encoding(i.signed),
        ],
        CatalogueType::Pointer(p) => seq![Attr::ByteSize(p.size)] + optional_type_attr(
            map,
            p.target@,
        ),
        CatalogueType::Typedef(d) => seq![Attr::Name(name), type_attr(map, d.target@)],
        CatalogueType::Function(f) => seq![Attr::Prototyped] + optional_type_attr(
            map,
            f.returntype@,
        ),
        CatalogueType::Enum(e) => seq![
            Attr::Name(name),
            Attr::ByteSize(e.size),
            Attr::Encoding(e.signed),
            type_attr(map, base_type_name(e.size, e.signed).unwrap()),
        ],
        CatalogueType::Array(a) => seq![type_attr(map, a.target@)],
    }
}

/// A structure or union is named unless it is anonymous.
pub open spec fn struct_attrs(name: String, s: Structure) -> Seq<Attr> {
    if s.anon {
        seq![Attr::ByteSize(s.size)]
    } else {
        seq![Attr::Name(name), Attr::ByteSize(s.size)]
    }
}

pub open spec fn member_entry(map: &TypeMap, parent: usize, f: Field) -> EntryModel {
    EntryModel {
        tag: Tag::Member,
        parent,
        attrs: seq![Attr::Name(f.name), type_attr(map, f.typename@), Attr::MemberLocation(f.offset)],
    }
}

pub open spec fn parameter_entry(map: &TypeMap, parent: usize, p: Parameter) -> EntryModel {
    EntryModel {
        tag: Tag::FormalParameter,
        parent,
        attrs: (if p.name@.len() == 0 {
            seq![]
        } else {
            seq![Attr::Name(p.name)]
        }) + seq![type_attr(map, p.typename@)],
    }
}

pub open spec fn enumerator_entry(parent: usize, f: EnumField) -> EntryModel {
    EntryModel {
        tag: Tag::Enumerator,
        parent,
        attrs: seq![Attr::Name(f.name), Attr::ConstValue(f.value)],
    }
}

pub open spec fn subrange_entry(map: &TypeMap, parent: usize, a: Array) -> EntryModel {
    EntryModel {
        tag: Tag::SubrangeType,
        parent,
        attrs: seq![type_attr(map, index_type_name()), Attr::UpperBound((a.count - 1) as u64)],
    }
}

/// The children of the entry `parent` of the definition `t`, in order.
pub open spec fn type_children(map: &TypeMap, parent: usize, t: CatalogueType) -> Seq<EntryModel> {
    match t {
        CatalogueType::Structure(s) => s.fields@.map_values(|f: Field| member_entry(map, parent, f)),
        CatalogueType::Union(s) => s.fields@.map_values(|f: Field| member_entry(map, parent, f)),
        CatalogueType::Function(f) => f.parameters@.map_values(
            |p: Parameter| parameter_entry(map, parent, p),
        ),
        CatalogueType::Enum(e) => e.fields@.map_values(|f: EnumField| enumerator_entry(parent, f)),
        CatalogueType::Array(a) => seq![subrange_entry(map, parent, a)],
        _ => seq![],
    }
}

pub open spec fn entries_view(v: Seq<DebugEntry>) -> Seq<EntryModel> {
    v.map_values(|e: DebugEntry| e@)
}

/// The reference to the entry that `name` owns.
fn type_ref(map: &TypeMap, name: &String) -> (r: Result<Attr, PopulateError>)
    requires
        map.wf(),
    ensures
        r is Ok <==> map.contains(name@),
        r matches Ok(a) ==> a == type_attr(map, name@),
        r matches Err(e) ==> e is Unresolved,
{
    match map.get(name) {
        Some(h) => Ok(Attr::Type(h)),
        None => Err(PopulateError::Unresolved(name.clone())),
    }
}

/// Appends the reference to `name` unless `name` is empty.
fn push_optional_ref(map: &TypeMap, name: &String, attrs: &mut Vec<Attr>) -> (r: Result<
    (),
    PopulateError,
>)
    requires
        map.wf(),
    ensures
        r is Ok <==> optional_ok(map.known(), name@),
        r matches Err(e) ==> e is Unresolved,
        r is Ok ==> final(attrs)@ == old(attrs)@ + optional_type_attr(map, name@),
{
    if name.as_str().is_empty() {
        assert(old(attrs)@ + optional_type_attr(map, name@) =~= old(attrs)@);
        return Ok(());
    }
    let a = type_ref(map, name)?;
    attrs.push(a);
    assert(final(attrs)@ =~= old(attrs)@ + optional_type_attr(map, name@));
    Ok(())
}

fn member_entries(map: &TypeMap, parent: usize, s: &Structure) -> (r: Result<
    Vec<DebugEntry>,
    PopulateError,
>)
    requires
        map.wf(),
    ensures
        r is Ok <==> fields_ok(map.known(), *s),
        r matches Err(e) ==> e is Unresolved,
        r matches Ok(c) ==> entries_view(c@) == s.fields@.map_values(
            |f: Field| member_entry(map, parent, f),
        ),
{
    let mut c: Vec<DebugEntry> = Vec::new();
    let mut i: usize = 0;
    while i < s.fields.len()
        invariant
            map.wf(),
            i <= s.fields@.len(),
            forall|k: int| 0 <= k < i ==> map.contains(#[trigger] s.fields@[k].typename@),
            entries_view(c@) =~= s.fields@.subrange(0, i as int).map_values(
                |f: Field| member_entry(map, parent, f),
            ),
        decreases s.fields@.len() - i,
    {
        let f = &s.fields[i];
        let t = type_ref(map, &f.typename)?;
        let mut attrs: Vec<Attr> = Vec::new();
        attrs.push(Attr::Name(f.name.clone()));
        attrs.push(t);
        attrs.push(Attr::MemberLocation(f.offset));
        let ghost c0 = c@;
        c.push(DebugEntry { tag: Tag::Member, parent, attrs });
        proof {
            assert(attrs@ =~= member_entry(map, parent, *f).attrs);
            assert(s.fields@.subrange(0, i + 1) =~= s.fields@.subrange(0, i as int).push(*f));
            assert(entries_view(c@) =~= entries_view(c0).push(member_entry(map, parent, *f)));
        }
        i = i + 1;
    }
    assert(s.fields@.subrange(0, i as int) =~= s.fields@);
    Ok(c)
}

fn parameter_entries(map: &TypeMap, parent: usize, f: &Function) -> (r: Result<
    Vec<DebugEntry>,
    PopulateError,
>)
    requires
        map.wf(),
    ensures
        r is Ok <==> forall|i: int|
            0 <= i < f.parameters@.len() ==> map.contains(#[trigger] f.parameters@[i].typename@),
        r matches Err(e) ==> e is Unresolved,
        r matches Ok(c) ==> entries_view(c@) == f.parameters@.map_values(
            |p: Parameter| parameter_entry(map, parent, p),
        ),
{
    let mut c: Vec<DebugEntry> = Vec::new();
    let mut i: usize = 0;
    while i < f.parameters.len()
        invariant
            map.wf(),
            i <= f.parameters@.len(),
            forall|k: int| 0 <= k < i ==> map.contains(#[trigger] f.parameters@[k].typename@),
            entries_view(c@) =~= f.parameters@.subrange(0, i as int).map_values(
                |p: Parameter| parameter_entry(map, parent, p),
            ),
        decreases f.parameters@.len() - i,
    {
        let p = &f.parameters[i];
        let mut attrs: Vec<Attr> = Vec::new();
        if !p.name.as_str().is_empty() {
            attrs.push(Attr::Name(p.name.clone()));
        }
        let t = type_ref(map, &p.typename)?;
        attrs.push(t);
        let ghost c0 = c@;
        c.push(DebugEntry { tag: Tag::FormalParameter, parent, attrs });
        proof {
            assert(attrs@ =~= parameter_entry(map, parent, *p).attrs);
            assert(f.parameters@.subrange(0, i + 1) =~= f.parameters@.subrange(0, i as int).push(*p));
            assert(entries_view(c@) =~= entries_view(c0).push(parameter_entry(map, parent, *p)));
        }
        i = i + 1;
    }
    assert(f.parameters@.subrange(0, i as int) =~= f.parameters@);
    Ok(c)
}

fn enumerator_entries(parent: usize, e: &Enum) -> (c: Vec<DebugEntry>)
    ensures
        entries_view(c@) == e.fields@.map_values(|f: EnumField| enumerator_entry(parent, f)),
{
    let mut c: Vec<DebugEntry> = Vec::new();
    let mut i: usize = 0;
    while i < e.fields.len()
        invariant
            i <= e.fields@.len(),
            entries_view(c@) =~= e.fields@.subrange(0, i as int).map_values(
                |f: EnumField| enumerator_entry(parent, f),
            ),
        decreases e.fields@.len() - i,
    {
        let f = &e.fields[i];
        let mut attrs: Vec<Attr> = Vec::new();
        attrs.push(Attr::Name(f.name.clone()));
        attrs.push(Attr::ConstValue(f.value));
        let ghost c0 = c@;
        c.push(DebugEntry { tag: Tag::Enumerator, parent, attrs });
        proof {
            assert(attrs@ =~= enumerator_entry(parent, *f).attrs);
            assert(e.fields@.subrange(0, i + 1) =~= e.fields@.subrange(0, i as int).push(*f));
            assert(entries_view(c@) =~= entries_view(c0).push(enumerator_entry(parent, *f)));
        }
        i = i + 1;
    }
    assert(e.fields@.subrange(0, i as int) =~= e.fields@);
    c
}

/// The attributes and children of the entry `h` of the definition `t`
/// named `name`; an error where one of its references cannot be resolved.
pub fn populate_type(map: &TypeMap, name: &String, t: &CatalogueType, h: usize) -> (r: Result<
    (Vec<Attr>, Vec<DebugEntry>),
    PopulateError,
>)
    requires
        map.wf(),
    ensures
        r is Ok <==> type_ok(map.known(), *t),
        r matches Ok(p) ==> p.0@ == type_attrs(map, *name, *t) && entries_view(p.1@)
            == type_children(map, h, *t),
        (r matches Err(e) && e is NoBaseType) <==> (t matches CatalogueType::Enum(en)
            && base_type_name(en.size, en.signed) is None),
        r matches Err(PopulateError::NoBaseType(sz, sg)) ==> (t matches CatalogueType::Enum(en)
            && sz == en.size && sg == en.signed),
        (r matches Err(e) && e is EmptyArray) <==> (t matches CatalogueType::Array(a)
            && map.contains(a.target@) && map.contains(index_type_name()) && a.count == 0),
        r matches Err(PopulateError::EmptyArray(n)) ==> n == *name,
{
    let mut attrs: Vec<Attr> = Vec::new();
    match t {
        CatalogueType::Structure(s) | CatalogueType::Union(s) => {
            if !s.anon {
                attrs.push(Attr::Name(name.clone()));
            }
            attrs.push(Attr::ByteSize(s.size));
            let c = member_entries(map, h, s)?;
            assert(attrs@ =~= struct_attrs(*name, *s));
            Ok((attrs, c))
        },
        CatalogueType::Integer(i) => {
            attrs.push(Attr::Name(name.clone()));
            attrs.push(Attr::ByteSize(i.size));
            attrs.push(Attr::Encoding(i.signed));
            assert(attrs@ =~= type_attrs(map, *name, *t));
            let c: Vec<DebugEntry> = Vec::new();
            assert(entries_view(c@) =~= type_children(map, h, *t));
            Ok((attrs, c))
        },
        CatalogueType::Pointer(p) => {
            attrs.push(Attr::ByteSize(p.size));
            push_optional_ref(map, &p.target, &mut attrs)?;
            let c: Vec<DebugEntry> = Vec::new();
            assert(entries_view(c@) =~= type_children(map, h, *t));
            Ok((attrs, c))
        },
        CatalogueType::Typedef(d) => {
            attrs.push(Attr::Name(name.clone()));
            let a = type_ref(map, &d.target)?;
            attrs.push(a);
            assert(attrs@ =~= type_attrs(map, *name, *t));
            let c: Vec<DebugEntry> = Vec::new();
            assert(entries_view(c@) =~= type_children(map, h, *t));
            Ok((attrs, c))
        },
        CatalogueType::Function(f) => {
            attrs.push(Attr::Prototyped);
            push_optional_ref(map, &f.returntype, &mut attrs)?;
            let c = parameter_entries(map, h, f)?;
            Ok((attrs, c))
        },
        CatalogueType::Enum(e) => {
            let b = match base_type(e.size, e.signed) {
                Some(b) => b,
                None => {
                    return Err(PopulateError::NoBaseType(e.size, e.signed));
                },
            };
            let base = type_ref(map, &b)?;
            attrs.push(Attr::Name(name.clone()));
            attrs.push(Attr::ByteSize(e.size));
            attrs.push(Attr::Encoding(e.signed));
            attrs.push(base);
            assert(attrs@ =~= type_attrs(map, *name, *t));
            Ok((attrs, enumerator_entries(h, e)))
        },
        CatalogueType::Array(a) => {
            let elem = type_ref(map, &a.target)?;
            attrs.push(elem);
            let index = type_ref(map, &"uint64_t".to_owned())?;
            if a.count == 0 {
                return Err(PopulateError::EmptyArray(name.clone()));
            }
            let mut bounds: Vec<Attr> = Vec::new();
            bounds.push(index);
            bounds.push(Attr::UpperBound(a.count - 1));
            let mut c: Vec<DebugEntry> = Vec::new();
            c.push(DebugEntry { tag: Tag::SubrangeType, parent: h, attrs: bounds });
            assert(attrs@ =~= type_attrs(map, *name, *t));
            assert(bounds@ =~= subrange_entry(map, h, *a).attrs);
            assert(entries_view(c@) =~= type_children(map, h, *t));
            Ok((attrs, c))
        },
    }
}

/// The finished entry of a catalogue definition.
pub open spec fn def_entry(map: &TypeMap, d: (String, CatalogueType)) -> EntryModel {
    EntryModel { tag: tag_of(d.1), parent: 0, attrs: type_attrs(map, d.0, d.1) }
}

/// A definition can be completed: its name owns an entry and its references
/// resolve.
pub open spec fn def_ok(map: &TypeMap, d: (String, CatalogueType)) -> bool {
    map.contains(d.0@) && type_ok(map.known(), d.1)
}

/// The children of the first `k` definitions, in catalogue order.
pub open spec fn children_upto(cat: &Catalogue, map: &TypeMap, k: nat) -> Seq<EntryModel>
    decreases k,
{
    if k == 0 {
        seq![]
    } else {
        let d = cat.types@[k - 1];
        children_upto(cat, map, (k - 1) as nat) + type_children(map, map.handle(d.0@), d.1)
    }
}

/// Fills in every placeholder that resolution allocated and appends the
/// children of each definition, in catalogue order. Fails where a reference
/// cannot be resolved.
pub fn populate_types(cat: &Catalogue, map: &TypeMap, tree: &mut DebugTree) -> (r: Result<
    (),
    PopulateError,
>)
    requires
        cat.wf(),
        registered(cat, old(tree)@, map),
    ensures
        r is Ok <==> forall|m: int| 0 <= m < cat.types@.len() ==> def_ok(map, #[trigger] cat.types@[m]),
        r is Ok ==> {
            let n = old(tree)@.len();
            let c = children_upto(cat, map, cat.types@.len());
            &&& final(tree)@.len() == n + c.len()
            &&& final(tree)@.subrange(n as int, final(tree)@.len() as int) == c
            &&& final(tree)@[0] == old(tree)@[0]
            &&& forall|i: int, m: int|
                0 <= i < map.entries@.len() && 0 <= m < cat.types@.len() && #[trigger] map.entries@[i].0@
                    == #[trigger] cat.types@[m].0@ ==> final(tree)@[i + 1] == def_entry(map, cat.types@[m])
        },
{
    let ghost tree0 = tree@;
    let ghost n = tree0.len();
    let mut j: usize = 0;
    while j < cat.types.len()
        invariant
            cat.wf(),
            registered(cat, tree0, map),
            n == tree0.len(),
            j <= cat.types@.len(),
            tree@.len() == n + children_upto(cat, map, j as nat).len(),
            tree@.subrange(n as int, tree@.len() as int) == children_upto(cat, map, j as nat),
            tree@[0] == tree0[0],
            forall|m: int| 0 <= m < j ==> def_ok(map, #[trigger] cat.types@[m]),
            forall|i: int, m: int|
                0 <= i < map.entries@.len() && 0 <= m < cat.types@.len() && #[trigger] map.entries@[i].0@
                    == #[trigger] cat.types@[m].0@ ==> tree@[i + 1] == if m < j {
                    def_entry(map, cat.types@[m])
                } else {
                    placeholder(cat.types@[m].1)
                },
        decreases cat.types@.len() - j,
    {
        let name = &cat.types[j].0;
        let ty = &cat.types[j].1;
        let h = match map.get(name) {
            Some(h) => h,
            None => {
                return Err(PopulateError::Unresolved(name.clone()));
            },
        };
        let ghost i = map.index_of(name@);
        proof {
            assert(map.entries@[i].0@ == name@);
            assert(h == i + 1);
        }
        let (attrs, mut c) = populate_type(map, name, ty, h)?;
        let ghost t1 = tree@;
        let ghost cv = entries_view(c@);
        tree.entries[h] = DebugEntry { tag: type_tag(ty), parent: 0, attrs };
        let ghost t2 = tree@;
        tree.entries.append(&mut c);
        proof {
            assert(t2 =~= t1.update(h as int, def_entry(map, cat.types@[j as int])));
            assert(tree@ =~= t2 + cv);
            let ghost cj = children_upto(cat, map, (j + 1) as nat);
            assert(cj =~= children_upto(cat, map, j as nat) + cv);
            assert(tree@.subrange(n as int, tree@.len() as int) =~= cj);
            assert forall|i2: int, m: int|
                0 <= i2 < map.entries@.len() && 0 <= m < cat.types@.len() && #[trigger] map.entries@[i2].0@
                    == #[trigger] cat.types@[m].0@ implies tree@[i2 + 1] == if m < j + 1 {
                    def_entry(map, cat.types@[m])
                } else {
                    placeholder(cat.types@[m].1)
                } by {
                if i2 == i {
                    if m != j {
                        if m < j {
                            assert(cat.types@[m].0@ != cat.types@[j as int].0@);
                        } else {
                            assert(cat.types@[j as int].0@ != cat.types@[m].0@);
                        }
                    }
                } else {
                    if m == j {
                        if i2 < i {
                            assert(map.entries@[i2].0@ != map.entries@[i].0@);
                        } else {
                            assert(map.entries@[i].0@ != map.entries@[i2].0@);
                        }
                    }
                    assert(tree@[i2 + 1] == t1[i2 + 1]);
                }
            }
        }
        j = j + 1;
    }
    Ok(())
}

/// The entry of a global variable: a root-level variable at a fixed
/// address, typed unless its typename is empty.
pub open spec fn variable_entry(map: &TypeMap, v: GlobalVariable) -> EntryModel {
    EntryModel {
        tag: Tag::Variable,
        parent: 0,
        attrs: seq![Attr::Name(v.name)] + optional_type_attr(map, v.typename@) + seq![
            Attr::External,
            Attr::Location(v.address),
        ],
    }
}

/// Appends one entry per global variable, in order. Fails where a
/// variable's non-empty typename cannot be resolved.
pub fn populate_variables(map: &TypeMap, vars: &Vec<GlobalVariable>, tree: &mut DebugTree) -> (r:
    Result<(), PopulateError>)
    requires
        map.wf(),
    ensures
        r is Ok <==> forall|k: int| 0 <= k < vars@.len() ==> optional_ok(map.known(), #[trigger] vars@[k].typename@),
        r is Ok ==> final(tree)@ == old(tree)@ + vars@.map_values(
            |v: GlobalVariable| variable_entry(map, v),
        ),
{
    let mut k: usize = 0;
    while k < vars.len()
        invariant
            map.wf(),
            k <= vars@.len(),
            forall|q: int| 0 <= q < k ==> optional_ok(map.known(), #[trigger] vars@[q].typename@),
            tree@ =~= old(tree)@ + vars@.subrange(0, k as int).map_values(
                |v: GlobalVariable| variable_entry(map, v),
            ),
        decreases vars@.len() - k,
    {
        let v = &vars[k];
        let mut attrs: Vec<Attr> = Vec::new();
        attrs.push(Attr::Name(v.name.clone()));
        push_optional_ref(map, &v.typename, &mut attrs)?;
        attrs.push(Attr::External);
        attrs.push(Attr::Location(v.address));
        let ghost t0 = tree@;
        tree.entries.push(DebugEntry { tag: Tag::Variable, parent: 0, attrs });
        proof {
            assert(attrs@ =~= variable_entry(map, *v).attrs);
            assert(tree@ =~= t0.push(variable_entry(map, *v)));
            assert(vars@.subrange(0, k + 1) =~= vars@.subrange(0, k as int).push(*v));
        }
        k = k + 1;
    }
    assert(vars@.subrange(0, k as int) =~= vars@);
    Ok(())
}

/// The descriptive attributes of the compilation unit.
pub struct UnitInfo {
    pub comp_dir: String,
    pub file_name: String,
    pub low_pc: u64,
    pub high_pc: u64,
    pub producer: String,
}

pub open spec fn root_entry(u: UnitInfo) -> EntryModel {
    EntryModel {
        tag: Tag::CompileUnit,
        parent: 0,
        attrs: seq![
            Attr::CompDir(u.comp_dir),
            Attr::Name(u.file_name),
            Attr::LowPc(u.low_pc),
            Attr::HighPc(u.high_pc),
            Attr::LanguageC,
            Attr::Producer(u.producer),
        ],
    }
}

/// Gives the root its descriptive attributes.
pub fn set_unit_attrs(tree: &mut DebugTree, u: UnitInfo)
    requires
        old(tree)@.len() > 0,
    ensures
        final(tree)@ == old(tree)@.update(0, root_entry(u)),
{
    let mut attrs: Vec<Attr> = Vec::new();
    attrs.push(Attr::CompDir(u.comp_dir));
    attrs.push(Attr::Name(u.file_name));
    attrs.push(Attr::LowPc(u.low_pc));
    attrs.push(Attr::HighPc(u.high_pc));
    attrs.push(Attr::LanguageC);
    attrs.push(Attr::Producer(u.producer));
    assert(attrs@ =~= root_entry(u).attrs);
    let ghost t0 = tree@;
    tree.entries[0] = DebugEntry { tag: Tag::CompileUnit, parent: 0, attrs };
    assert(tree@ =~= t0.update(0, root_entry(u)));
}

/// The names that resolution gives an entry: the non-empty names that the
/// catalogue defines.
pub open spec fn defined(cat: &Catalogue) -> spec_fn(Seq<char>) -> bool {
    |n: Seq<char>| n.len() > 0 && cat.defines(n)
}

/// Every definition has a non-empty name and references that resolve, and
/// so has every global variable.
pub open spec fn complete(cat: &Catalogue, vars: Seq<GlobalVariable>) -> bool {
    &&& forall|m: int|
        0 <= m < cat.types@.len() ==> (#[trigger] cat.types@[m]).0@.len() > 0 && type_ok(
            defined(cat),
            cat.types@[m].1,
        )
    &&& forall|k: int| 0 <= k < vars.len() ==> optional_ok(defined(cat), #[trigger] vars[k].typename@)
}

/// The complete tree: the root with the unit's attributes, one finished
/// entry per registered name (at the index after its registration
/// position), then the children of the definitions in catalogue order, then
/// one entry per global variable.
pub open spec fn built(
    cat: &Catalogue,
    vars: Seq<GlobalVariable>,
    u: UnitInfo,
    map: &TypeMap,
    t: Seq<EntryModel>,
) -> bool {
    let n = map.entries@.len() + 1;
    let c = children_upto(cat, map, cat.types@.len());
    let v = vars.map_values(|x: GlobalVariable| variable_entry(map, x));
    &&& map.wf()
    &&& forall|i: int| 0 <= i < map.entries@.len() ==> #[trigger] map.entries@[i].1 == i + 1
    &&& forall|m: int|
        0 <= m < cat.types@.len() && (#[trigger] cat.types@[m]).0@.len() > 0 ==> map.contains(
            cat.types@[m].0@,
        )
    &&& forall|k: Seq<char>| #[trigger] map.contains(k) ==> k.len() > 0 && cat.defines(k)
    &&& t.len() == n + c.len() + v.len()
    &&& t[0] == root_entry(u)
    &&& forall|i: int, m: int|
        0 <= i < map.entries@.len() && 0 <= m < cat.types@.len() && #[trigger] map.entries@[i].0@
            == #[trigger] cat.types@[m].0@ ==> t[i + 1] == def_entry(map, cat.types@[m])
    &&& t.subrange(n as int, (n + c.len()) as int) == c
    &&& t.subrange((n + c.len()) as int, t.len() as int) == v
}

/// Builds the whole tree: resolution, then population of the definitions,
/// then the global variables, then the root's attributes. Fails exactly
/// where a definition or a variable has a reference that cannot be
/// resolved (and a definition whose name is empty has none).
pub fn build_tree(cat: &Catalogue, vars: &Vec<GlobalVariable>, u: UnitInfo) -> (r: Result<
    (DebugTree, TypeMap),
    PopulateError,
>)
    requires
        cat.wf(),
        cat.types@.len() < usize::MAX - 1,
    ensures
        r is Ok <==> complete(cat, vars@),
        r matches Ok(p) ==> built(cat, vars@, u, &p.1, p.0@),
{
    let (mut tree, map) = crate::resolve::resolve(cat);
    proof {
        crate::resolve::lemma_resolved_domain(cat, tree@, &map);
        assert(map.known() =~= defined(cat));
        assert forall|m: int| 0 <= m < cat.types@.len() implies ((#[trigger] cat.types@[m]).0@.len() > 0)
            == map.contains(cat.types@[m].0@) by {
            if map.contains(cat.types@[m].0@) {
                assert(defined(cat)(cat.types@[m].0@));
            } else if cat.types@[m].0@.len() > 0 {
                assert(cat.defines(cat.types@[m].0@));
                assert(defined(cat)(cat.types@[m].0@));
            }
        }
    }
    let ghost t0 = tree@;
    populate_types(cat, &map, &mut tree)?;
    let ghost t1 = tree@;
    populate_variables(&map, vars, &mut tree)?;
    let ghost t2 = tree@;
    set_unit_attrs(&mut tree, u);
    proof {
        let n = map.entries@.len() + 1;
        let c = children_upto(cat, &map, cat.types@.len());
        let v = vars@.map_values(|x: GlobalVariable| variable_entry(&map, x));
        assert(t2.subrange(0, t1.len() as int) =~= t1);
        assert(tree@.subrange(n as int, (n + c.len()) as int) =~= t1.subrange(n as int, t1.len() as int));
        assert(tree@.subrange((n + c.len()) as int, tree@.len() as int) =~= v);
    }
    Ok((tree, map))
}

/// An enumeration is backed by the well-known integer of its size and
/// signedness: an unsigned enumeration of four bytes refers to the entry of
/// `uint32_t`, and cannot be completed where that name owns no entry.
pub proof fn lemma_enum_backing_type(map: &TypeMap, name: String, e: Enum)
    requires
        e.size == 4,
        !e.signed,
    ensures
        type_ok(map.known(), CatalogueType::Enum(e)) <==> map.contains("uint32_t"@),
        type_attrs(map, name, CatalogueType::Enum(e))[3] == Attr::Type(map.handle("uint32_t"@)),
{
}

/// An array has exactly one child, a subrange whose upper bound is one less
/// than the element count, indexed by `uint64_t`.
pub proof fn lemma_array_subrange(map: &TypeMap, h: usize, a: Array)
    requires
        a.count >= 1,
    ensures
        type_children(map, h, CatalogueType::Array(a)).len() == 1,
        type_children(map, h, CatalogueType::Array(a))[0].tag == Tag::SubrangeType,
        type_children(map, h, CatalogueType::Array(a))[0].attrs[1] == Attr::UpperBound(
            (a.count - 1) as u64,
        ),
{
}

/// An anonymous structure or union never gets a name attribute, whatever
/// its catalogue key.
pub proof fn lemma_anonymous_has_no_name(map: &TypeMap, name: String, s: Structure)
    requires
        s.anon,
    ensures
        forall|k: int|
            0 <= k < type_attrs(map, name, CatalogueType::Structure(s)).len() ==> !(
            #[trigger] type_attrs(map, name, CatalogueType::Structure(s))[k] is Name),
        forall|k: int|
            0 <= k < type_attrs(map, name, CatalogueType::Union(s)).len() ==> !(
            #[trigger] type_attrs(map, name, CatalogueType::Union(s))[k] is Name),
{
}

} // verus!
