use vstd::prelude::*;
use vstd::utf8::encode_utf8;
use crate::strtab::has_no_nul;
use crate::tree::{Attr, DebugTree, EntryModel, Tag};

verus! {

#[verifier::external_type_specification]
#[verifier::external_body]
pub struct ExDwarfUnit(gimli::write::DwarfUnit);

#[verifier::external_type_specification]
#[verifier::external_body]
pub struct ExUnitEntryId(gimli::write::UnitEntryId);

#[verifier::external_type_specification]
#[verifier::external_body]
pub struct ExWriteError(gimli::write::Error);

/// DWARF tag codes.
pub const DW_TAG_ARRAY_TYPE: u16 = 0x01;
pub const DW_TAG_ENUMERATION_TYPE: u16 = 0x04;
pub const DW_TAG_FORMAL_PARAMETER: u16 = 0x05;
pub const DW_TAG_MEMBER: u16 = 0x0d;
pub const DW_TAG_POINTER_TYPE: u16 = 0x0f;
pub const DW_TAG_COMPILE_UNIT: u16 = 0x11;
pub const DW_TAG_STRUCTURE_TYPE: u16 = 0x13;
pub const DW_TAG_SUBROUTINE_TYPE: u16 = 0x15;
pub const DW_TAG_TYPEDEF: u16 = 0x16;
pub const DW_TAG_UNION_TYPE: u16 = 0x17;
pub const DW_TAG_SUBRANGE_TYPE: u16 = 0x21;
pub const DW_TAG_BASE_TYPE: u16 = 0x24;
pub const DW_TAG_ENUMERATOR: u16 = 0x28;
pub const DW_TAG_VARIABLE: u16 = 0x34;

/// DWARF attribute codes.
pub const DW_AT_SIBLING: u16 = 0x01;
pub const DW_AT_LOCATION: u16 = 0x02;
pub const DW_AT_NAME: u16 = 0x03;
pub const DW_AT_BYTE_SIZE: u16 = 0x0b;
pub const DW_AT_LOW_PC: u16 = 0x11;
pub const DW_AT_HIGH_PC: u16 = 0x12;
pub const DW_AT_LANGUAGE: u16 = 0x13;
pub const DW_AT_COMP_DIR: u16 = 0x1b;
pub const DW_AT_CONST_VALUE: u16 = 0x1c;
pub const DW_AT_PRODUCER: u16 = 0x25;
pub const DW_AT_PROTOTYPED: u16 = 0x27;
pub const DW_AT_UPPER_BOUND: u16 = 0x2f;
pub const DW_AT_DATA_MEMBER_LOCATION: u16 = 0x38;
pub const DW_AT_ENCODING: u16 = 0x3e;
pub const DW_AT_EXTERNAL: u16 = 0x3f;
pub const DW_AT_TYPE: u16 = 0x49;

/// Base-type encodings and the C language code.
pub const DW_ATE_SIGNED: u8 = 0x05;
pub const DW_ATE_UNSIGNED: u8 = 0x07;
pub const DW_LANG_C: u16 = 0x02;

/// The DWARF code of a tag.
pub open spec fn tag_code_of(t: Tag) -> u16 {
    match t {
        Tag::CompileUnit => DW_TAG_COMPILE_UNIT,
        Tag::StructureType => DW_TAG_STRUCTURE_TYPE,
        Tag::UnionType => DW_TAG_UNION_TYPE,
        Tag::BaseType => DW_TAG_BASE_TYPE,
        Tag::PointerType => DW_TAG_POINTER_TYPE,
        Tag::Typedef => DW_TAG_TYPEDEF,
        Tag::SubroutineType => DW_TAG_SUBROUTINE_TYPE,
        Tag::EnumerationType => DW_TAG_ENUMERATION_TYPE,
        Tag::ArrayType => DW_TAG_ARRAY_TYPE,
        Tag::Member => DW_TAG_MEMBER,
        Tag::FormalParameter => DW_TAG_FORMAL_PARAMETER,
        Tag::Enumerator => DW_TAG_ENUMERATOR,
        Tag::SubrangeType => DW_TAG_SUBRANGE_TYPE,
        Tag::Variable => DW_TAG_VARIABLE,
    }
}

pub fn tag_code(t: Tag) -> (r: u16)
    ensures
        r == tag_code_of(t),
{
    match t {
        Tag::CompileUnit => DW_TAG_COMPILE_UNIT,
        Tag::StructureType => DW_TAG_STRUCTURE_TYPE,
        Tag::UnionType => DW_TAG_UNION_TYPE,
        Tag::BaseType => DW_TAG_BASE_TYPE,
        Tag::PointerType => DW_TAG_POINTER_TYPE,
        Tag::Typedef => DW_TAG_TYPEDEF,
        Tag::SubroutineType => DW_TAG_SUBROUTINE_TYPE,
        Tag::EnumerationType => DW_TAG_ENUMERATION_TYPE,
        Tag::ArrayType => DW_TAG_ARRAY_TYPE,
        Tag::Member => DW_TAG_MEMBER,
        Tag::FormalParameter => DW_TAG_FORMAL_PARAMETER,
        Tag::Enumerator => DW_TAG_ENUMERATOR,
        Tag::SubrangeType => DW_TAG_SUBRANGE_TYPE,
        Tag::Variable => DW_TAG_VARIABLE,
    }
}

/// A value as gimli holds it: `Str` is the index of the string in the
/// unit's string table, `Ref` the index of an entry of the unit, `Exprloc`
/// an expression made of one `DW_OP_addr`.
#[derive(PartialEq, Eq, Structural, Clone, Copy, Debug)]
pub enum DwValue {
    Udata(u64),
    Str(usize),
    Ref(usize),
    Flag(bool),
    Encoding(u8),
    Address(u64),
    Exprloc(u64),
    Language(u16),
}

/// An entry of a gimli unit: its tag code, the index of its parent, and its
/// attributes as (attribute code, value), in the order first set.
pub ghost struct DwEntry {
    pub tag: u16,
    pub parent: nat,
    pub attrs: Seq<(u16, DwValue)>,
}

/// The entries of a gimli unit, in the order of their ids.
pub uninterp spec fn dwarf_entries(u: gimli::write::DwarfUnit) -> Seq<DwEntry>;

/// The strings of a gimli unit's string table, in the order first added.
pub uninterp spec fn dwarf_strings(u: gimli::write::DwarfUnit) -> Seq<Seq<u8>>;

/// The DWARF version and address size of a gimli unit (its format is
/// always 64-bit here).
pub uninterp spec fn dwarf_encoding(u: gimli::write::DwarfUnit) -> (u16, u8);

/// The named sections that gimli writes, little-endian, for a 64-bit unit
/// of this version and address size with these entries and strings, or
/// `None` where it fails.
pub uninterp spec fn dwarf_write_of(
    enc: (u16, u8),
    u: (Seq<DwEntry>, Seq<Seq<u8>>),
) -> Option<Seq<(Seq<char>, Seq<u8>)>>;

/// Setting an attribute replaces the value of the same code, or appends.
pub open spec fn set_attr(attrs: Seq<(u16, DwValue)>, at: u16, v: DwValue) -> Seq<(u16, DwValue)> {
    if exists|j: int| 0 <= j < attrs.len() && #[trigger] attrs[j].0 == at {
        attrs.update(choose|j: int| 0 <= j < attrs.len() && #[trigger] attrs[j].0 == at, (at, v))
    } else {
        attrs.push((at, v))
    }
}

pub open spec fn with_attr(m: Seq<DwEntry>, i: int, at: u16, v: DwValue) -> Seq<DwEntry> {
    m.update(i, DwEntry { tag: m[i].tag, parent: m[i].parent, attrs: set_attr(m[i].attrs, at, v) })
}

/// Adding a string that the table holds already leaves it as it is.
pub open spec fn add_string(ss: Seq<Seq<u8>>, b: Seq<u8>) -> Seq<Seq<u8>> {
    if ss.contains(b) {
        ss
    } else {
        ss.push(b)
    }
}

/// The position of a string in a table that holds it.
pub open spec fn string_index(ss: Seq<Seq<u8>>, b: Seq<u8>) -> int {
    choose|j: int| 0 <= j < ss.len() && ss[j] == b
}

/// A gimli unit under construction, with the gimli id of each entry that
/// was added through it, in order; index 0 is the unit's root. Every id in
/// `ids` was handed out by `unit`, and the id at index `i` names the unit's
/// entry `i`.
pub(crate) struct DwarfBuilder {
    pub(crate) unit: gimli::write::DwarfUnit,
    pub(crate) ids: Vec<gimli::write::UnitEntryId>,
}

impl DwarfBuilder {
    /// The number of entries, the root included.
    pub(crate) closed spec fn len(&self) -> nat {
        self.ids@.len()
    }

    pub(crate) closed spec fn entries(&self) -> Seq<DwEntry> {
        dwarf_entries(self.unit)
    }

    pub(crate) closed spec fn strings(&self) -> Seq<Seq<u8>> {
        dwarf_strings(self.unit)
    }

    /// Relies on gimli's `DwarfUnit::new` (64-bit DWARF of the given version
    /// and address size) and `Unit::new`, which creates the root entry 0 as
    /// a compilation unit without attributes, with an empty string table.
    #[verifier::external_body]
    pub(crate) fn new_dwarf64(version: u16, address_size: u8) -> (r: DwarfBuilder)
        ensures
            r.len() == 1,
            dwarf_entries(r.unit) == seq![DwEntry { tag: DW_TAG_COMPILE_UNIT, parent: 0, attrs: seq![] }],
            dwarf_strings(r.unit) == Seq::<Seq<u8>>::empty(),
            dwarf_encoding(r.unit) == (version, address_size),
    {
        let format = gimli::Format::Dwarf64;
        let unit = gimli::write::DwarfUnit::new(gimli::Encoding { format, version, address_size });
        let root = unit.unit.root();
        DwarfBuilder { unit, ids: vec![root] }
    }

    /// Relies on gimli's `Unit::add`, which appends a child of `parent` with
    /// the next id and returns it; it panics only on an id of another unit.
    #[verifier::external_body]
    pub(crate) fn add(&mut self, parent: usize, tag: u16) -> (r: usize)
        requires
            parent < old(self).len(),
        ensures
            r == old(self).len(),
            final(self).len() == old(self).len() + 1,
            dwarf_encoding(final(self).unit) == dwarf_encoding(old(self).unit),
            dwarf_entries(final(self).unit) == dwarf_entries(old(self).unit).push(
                DwEntry { tag, parent: parent as nat, attrs: seq![] },
            ),
            dwarf_strings(final(self).unit) == dwarf_strings(old(self).unit),
    {
        let id = self.unit.unit.add(self.ids[parent], gimli::DwTag(tag));
        self.ids.push(id);
        self.ids.len() - 1
    }

    /// Relies on gimli's `DebuggingInformationEntry::set` with a `Udata`
    /// value; it panics only for `DW_AT_sibling`.
    #[verifier::external_body]
    pub(crate) fn set_udata(&mut self, i: usize, at: u16, v: u64)
        requires
            i < old(self).len(),
            at != DW_AT_SIBLING,
        ensures
            final(self).len() == old(self).len(),
            dwarf_encoding(final(self).unit) == dwarf_encoding(old(self).unit),
            dwarf_entries(final(self).unit) == with_attr(dwarf_entries(old(self).unit), i as int, at, DwValue::Udata(v)),
            dwarf_strings(final(self).unit) == dwarf_strings(old(self).unit),
    {
        let id = self.ids[i];
        self.unit.unit.get_mut(id).set(gimli::DwAt(at), gimli::write::AttributeValue::Udata(v));
    }

    /// Relies on gimli's `StringTable::add`, which panics on a NUL byte and
    /// otherwise returns the id of the string (added at the end where it is
    /// new), and on `set` with a `StringRef` value.
    #[verifier::external_body]
    pub(crate) fn set_string(&mut self, i: usize, at: u16, s: &String)
        requires
            i < old(self).len(),
            at != DW_AT_SIBLING,
            has_no_nul(encode_utf8(s@)),
        ensures
            final(self).len() == old(self).len(),
            dwarf_encoding(final(self).unit) == dwarf_encoding(old(self).unit),
            dwarf_strings(final(self).unit) == add_string(dwarf_strings(old(self).unit), encode_utf8(s@)),
            dwarf_entries(final(self).unit) == with_attr(
                dwarf_entries(old(self).unit),
                i as int,
                at,
                DwValue::Str(string_index(dwarf_strings(final(self).unit), encode_utf8(s@)) as usize),
            ),
    {
        let id = self.ids[i];
        let sid = self.unit.strings.add(s.as_bytes().to_vec());
        self.unit.unit.get_mut(id).set(gimli::DwAt(at), gimli::write::AttributeValue::StringRef(sid));
    }

    /// Relies on `set` with a `UnitRef` value to the entry `target`.
    #[verifier::external_body]
    pub(crate) fn set_ref(&mut self, i: usize, at: u16, target: usize)
        requires
            i < old(self).len(),
            target < old(self).len(),
            at != DW_AT_SIBLING,
        ensures
            final(self).len() == old(self).len(),
            dwarf_encoding(final(self).unit) == dwarf_encoding(old(self).unit),
            dwarf_entries(final(self).unit) == with_attr(dwarf_entries(old(self).unit), i as int, at, DwValue::Ref(target)),
            dwarf_strings(final(self).unit) == dwarf_strings(old(self).unit),
    {
        let id = self.ids[i];
        let t = self.ids[target];
        self.unit.unit.get_mut(id).set(gimli::DwAt(at), gimli::write::AttributeValue::UnitRef(t));
    }

    /// Relies on `set` with a `Flag` value.
    #[verifier::external_body]
    pub(crate) fn set_flag(&mut self, i: usize, at: u16, v: bool)
        requires
            i < old(self).len(),
            at != DW_AT_SIBLING,
        ensures
            final(self).len() == old(self).len(),
            dwarf_encoding(final(self).unit) == dwarf_encoding(old(self).unit),
            dwarf_entries(final(self).unit) == with_attr(dwarf_entries(old(self).unit), i as int, at, DwValue::Flag(v)),
            dwarf_strings(final(self).unit) == dwarf_strings(old(self).unit),
    {
        let id = self.ids[i];
        self.unit.unit.get_mut(id).set(gimli::DwAt(at), gimli::write::AttributeValue::Flag(v));
    }

    /// Relies on `set` of `DW_AT_encoding` with an `Encoding` value.
    #[verifier::external_body]
    pub(crate) fn set_encoding(&mut self, i: usize, ate: u8)
        requires
            i < old(self).len(),
        ensures
            final(self).len() == old(self).len(),
            dwarf_encoding(final(self).unit) == dwarf_encoding(old(self).unit),
            dwarf_entries(final(self).unit) == with_attr(dwarf_entries(old(self).unit), i as int, DW_AT_ENCODING, DwValue::Encoding(ate)),
            dwarf_strings(final(self).unit) == dwarf_strings(old(self).unit),
    {
        let id = self.ids[i];
        let v = gimli::write::AttributeValue::Encoding(gimli::DwAte(ate));
        self.unit.unit.get_mut(id).set(gimli::DW_AT_encoding, v);
    }

    /// Relies on `set` with an `Address` value holding a constant address.
    #[verifier::external_body]
    pub(crate) fn set_address(&mut self, i: usize, at: u16, addr: u64)
        requires
            i < old(self).len(),
            at != DW_AT_SIBLING,
        ensures
            final(self).len() == old(self).len(),
            dwarf_encoding(final(self).unit) == dwarf_encoding(old(self).unit),
            dwarf_entries(final(self).unit) == with_attr(dwarf_entries(old(self).unit), i as int, at, DwValue::Address(addr)),
            dwarf_strings(final(self).unit) == dwarf_strings(old(self).unit),
    {
        let id = self.ids[i];
        let v = gimli::write::AttributeValue::Address(gimli::write::Address::Constant(addr));
        self.unit.unit.get_mut(id).set(gimli::DwAt(at), v);
    }

    /// Relies on gimli's `Expression::op_addr`, which encodes `DW_OP_addr`
    /// with a constant address, and on `set` of `DW_AT_location` with an
    /// `Exprloc` value.
    #[verifier::external_body]
    pub(crate) fn set_location(&mut self, i: usize, addr: u64)
        requires
            i < old(self).len(),
        ensures
            final(self).len() == old(self).len(),
            dwarf_encoding(final(self).unit) == dwarf_encoding(old(self).unit),
            dwarf_entries(final(self).unit) == with_attr(dwarf_entries(old(self).unit), i as int, DW_AT_LOCATION, DwValue::Exprloc(addr)),
            dwarf_strings(final(self).unit) == dwarf_strings(old(self).unit),
    {
        let id = self.ids[i];
        let mut e = gimli::write::Expression::new();
        e.op_addr(gimli::write::Address::Constant(addr));
        self.unit.unit.get_mut(id).set(gimli::DW_AT_location, gimli::write::AttributeValue::Exprloc(e));
    }

    /// Relies on `set` of `DW_AT_language` with a `Language` value.
    #[verifier::external_body]
    pub(crate) fn set_language(&mut self, i: usize, lang: u16)
        requires
            i < old(self).len(),
        ensures
            final(self).len() == old(self).len(),
            dwarf_encoding(final(self).unit) == dwarf_encoding(old(self).unit),
            dwarf_entries(final(self).unit) == with_attr(dwarf_entries(old(self).unit), i as int, DW_AT_LANGUAGE, DwValue::Language(lang)),
            dwarf_strings(final(self).unit) == dwarf_strings(old(self).unit),
    {
        let id = self.ids[i];
        let v = gimli::write::AttributeValue::Language(gimli::DwLang(lang));
        self.unit.unit.get_mut(id).set(gimli::DW_AT_language, v);
    }

    /// Relies on gimli's `DwarfUnit::write` into little-endian sections and
    /// on `Sections::for_each`, which visits every section, empty or not,
    /// with its fixed `.debug_*` (or `.eh_frame`) name.
    #[verifier::external_body]
    pub(crate) fn write(&mut self) -> (r: Result<Vec<(String, Vec<u8>)>, gimli::write::Error>)
        ensures
            match dwarf_write_of(
                dwarf_encoding(old(self).unit),
                (dwarf_entries(old(self).unit), dwarf_strings(old(self).unit)),
            ) {
                Some(v) => r matches Ok(out) && out@.map_values(|x: (String, Vec<u8>)| (x.0@, x.1@)) == v,
                None => r is Err,
            },
            r matches Ok(out) ==> forall|k: int| 0 <= k < out@.len() ==> has_no_nul(
                encode_utf8(#[trigger] out@[k].0@),
            ),
    {
        let mut sections = gimli::write::Sections::new(gimli::write::EndianVec::new(gimli::LittleEndian));
        self.unit.write(&mut sections)?;
        let mut out = Vec::new();
        sections.for_each(|id, data| {
            out.push((id.name().to_string(), data.slice().to_vec()));
            Ok::<(), gimli::write::Error>(())
        })?;
        Ok(out)
    }
}

/// Why a tree could not be encoded.
#[derive(Debug, PartialEq, Eq, Structural, Clone, Copy)]
pub enum EncodeError {
    /// A parent or a type reference does not point at an earlier (parent)
    /// or existing (reference) entry, or a string holds a NUL character.
    Invalid,
    /// The encoder failed to write the sections.
    Write,
}

/// An attribute that the encoder can hand over as it is.
pub open spec fn attr_ok(a: Attr, n: nat) -> bool {
    match a {
        Attr::Type(t) => t < n,
        _ => string_attr_ok(a),
    }
}

/// A string attribute holds no NUL character.
pub open spec fn string_attr_ok(a: Attr) -> bool {
    match a {
        Attr::Name(s) => has_no_nul(encode_utf8(s@)),
        Attr::CompDir(s) => has_no_nul(encode_utf8(s@)),
        Attr::Producer(s) => has_no_nul(encode_utf8(s@)),
        _ => true,
    }
}

/// A tree that can be encoded: a root, every other entry after its parent,
/// every reference to an existing entry, no NUL in a string.
pub open spec fn encodable(t: Seq<EntryModel>) -> bool {
    &&& t.len() >= 1
    &&& forall|i: int| 1 <= i < t.len() ==> (#[trigger] t[i]).parent < i
    &&& forall|i: int, k: int|
        0 <= i < t.len() && 0 <= k < t[i].attrs.len() ==> attr_ok(#[trigger] t[i].attrs[k], t.len())
}

pub fn has_nul(s: &String) -> (r: bool)
    ensures
        r == !has_no_nul(encode_utf8(s@)),
{
    let b = s.as_str().as_bytes();
    let mut k: usize = 0;
    while k < b.len()
        invariant
            b@ == encode_utf8(s@),
            k <= b@.len(),
            forall|j: int| 0 <= j < k ==> b@[j] != 0,
        decreases b@.len() - k,
    {
        if b[k] == 0 {
            return true;
        }
        k = k + 1;
    }
    false
}

fn check_attr(a: &Attr, n: usize) -> (r: bool)
    ensures
        r == attr_ok(*a, n as nat),
{
    match a {
        Attr::Type(t) => *t < n,
        Attr::Name(s) => !has_nul(s),
        Attr::CompDir(s) => !has_nul(s),
        Attr::Producer(s) => !has_nul(s),
        _ => true,
    }
}

pub fn check_tree(tree: &DebugTree) -> (r: bool)
    ensures
        r == encodable(tree@),
{
    let n = tree.entries.len();
    if n == 0 {
        return false;
    }
    let mut i: usize = 0;
    while i < n
        invariant
            n == tree@.len(),
            i <= n,
            forall|q: int| 1 <= q < i ==> (#[trigger] tree@[q]).parent < q,
            forall|q: int, k: int|
                0 <= q < i && 0 <= k < tree@[q].attrs.len() ==> attr_ok(#[trigger] tree@[q].attrs[k], n as nat),
        decreases n - i,
    {
        let e = &tree.entries[i];
        if i > 0 && e.parent >= i {
            assert(!(tree@[i as int].parent < i));
            return false;
        }
        let mut k: usize = 0;
        while k < e.attrs.len()
            invariant
                n == tree@.len(),
                i < n,
                e@ == tree@[i as int],
                k <= e.attrs@.len(),
                forall|k2: int| 0 <= k2 < k ==> attr_ok(#[trigger] e.attrs@[k2], n as nat),
            decreases e.attrs@.len() - k,
        {
            if !check_attr(&e.attrs[k], n) {
                assert(e.attrs@[k as int] == tree@[i as int].attrs[k as int]);
                assert(!attr_ok(tree@[i as int].attrs[k as int], n as nat));
                return false;
            }
            k = k + 1;
        }
        i = i + 1;
    }
    true
}

/// A unit as a model: its entries and its string table.
pub type UnitModel = (Seq<DwEntry>, Seq<Seq<u8>>);

pub open spec fn string_step(st: UnitModel, i: int, at: u16, s: String) -> UnitModel {
    let ss = add_string(st.1, encode_utf8(s@));
    (with_attr(st.0, i, at, DwValue::Str(string_index(ss, encode_utf8(s@)) as usize)), ss)
}

/// What handing the attribute `a` of entry `i` to gimli does to the unit.
pub open spec fn attr_step(st: UnitModel, i: int, a: Attr) -> UnitModel {
    let m = st.0;
    let ss = st.1;
    match a {
        Attr::Name(s) => string_step(st, i, DW_AT_NAME, s),
        Attr::CompDir(s) => string_step(st, i, DW_AT_COMP_DIR, s),
        Attr::Producer(s) => string_step(st, i, DW_AT_PRODUCER, s),
        Attr::ByteSize(v) => (with_attr(m, i, DW_AT_BYTE_SIZE, DwValue::Udata(v)), ss),
        Attr::Encoding(signed) => (
            with_attr(
                m,
                i,
                DW_AT_ENCODING,
                DwValue::Encoding(
                    if signed {
                        DW_ATE_SIGNED
                    } else {
                        DW_ATE_UNSIGNED
                    },
                ),
            ),
            ss,
        ),
        Attr::Type(t) => (with_attr(m, i, DW_AT_TYPE, DwValue::Ref(t)), ss),
        Attr::MemberLocation(v) => (with_attr(m, i, DW_AT_DATA_MEMBER_LOCATION, DwValue::Udata(v)), ss),
        Attr::Prototyped => (with_attr(m, i, DW_AT_PROTOTYPED, DwValue::Flag(true)), ss),
        Attr::ConstValue(v) => (with_attr(m, i, DW_AT_CONST_VALUE, DwValue::Udata(v)), ss),
        Attr::UpperBound(v) => (with_attr(m, i, DW_AT_UPPER_BOUND, DwValue::Udata(v)), ss),
        Attr::External => (with_attr(m, i, DW_AT_EXTERNAL, DwValue::Flag(true)), ss),
        Attr::Location(x) => (with_attr(m, i, DW_AT_LOCATION, DwValue::Exprloc(x)), ss),
        Attr::LowPc(x) => (with_attr(m, i, DW_AT_LOW_PC, DwValue::Address(x)), ss),
        Attr::HighPc(x) => (with_attr(m, i, DW_AT_HIGH_PC, DwValue::Address(x)), ss),
        Attr::LanguageC => (with_attr(m, i, DW_AT_LANGUAGE, DwValue::Language(DW_LANG_C)), ss),
    }
}

/// The attributes of entry `i`, handed over in order.
pub open spec fn attrs_step(st: UnitModel, i: int, attrs: Seq<Attr>) -> UnitModel
    decreases attrs.len(),
{
    if attrs.len() == 0 {
        st
    } else {
        attr_step(attrs_step(st, i, attrs.drop_last()), i, attrs.last())
    }
}

/// The attributes of the first `n` entries, entry by entry.
pub open spec fn entries_step(st: UnitModel, t: Seq<EntryModel>, n: nat) -> UnitModel
    decreases n,
{
    if n == 0 {
        st
    } else {
        attrs_step(entries_step(st, t, (n - 1) as nat), n - 1, t[n - 1].attrs)
    }
}

/// The entries of the tree without attributes; the root is gimli's own.
pub open spec fn skeleton(t: Seq<EntryModel>) -> Seq<DwEntry> {
    Seq::new(
        t.len(),
        |i: int|
            if i == 0 {
                DwEntry { tag: DW_TAG_COMPILE_UNIT, parent: 0, attrs: seq![] }
            } else {
                DwEntry { tag: tag_code_of(t[i].tag), parent: t[i].parent as nat, attrs: seq![] }
            },
    )
}

/// The gimli unit that encodes the tree: every entry added in tree order,
/// then the attributes of each entry in order.
pub open spec fn unit_of(t: Seq<EntryModel>) -> UnitModel {
    entries_step((skeleton(t), Seq::<Seq<u8>>::empty()), t, t.len())
}

/// Hands one entry's attributes to the builder.
fn encode_attrs(b: &mut DwarfBuilder, i: usize, attrs: &Vec<Attr>, n: usize)
    requires
        i < n,
        old(b).len() == n,
        forall|k: int| 0 <= k < attrs@.len() ==> attr_ok(#[trigger] attrs@[k], n as nat),
    ensures
        final(b).len() == n,
        dwarf_encoding(final(b).unit) == dwarf_encoding(old(b).unit),
        (dwarf_entries(final(b).unit), dwarf_strings(final(b).unit)) == attrs_step(
            (dwarf_entries(old(b).unit), dwarf_strings(old(b).unit)),
            i as int,
            attrs@,
        ),
{
    let ghost st0 = (dwarf_entries(b.unit), dwarf_strings(b.unit));
    let mut k: usize = 0;
    assert(attrs@.take(0) =~= Seq::<Attr>::empty());
    while k < attrs.len()
        invariant
            i < n,
            b.len() == n,
            dwarf_encoding(b.unit) == dwarf_encoding(old(b).unit),
            k <= attrs@.len(),
            forall|k2: int| 0 <= k2 < attrs@.len() ==> attr_ok(#[trigger] attrs@[k2], n as nat),
            (dwarf_entries(b.unit), dwarf_strings(b.unit)) == attrs_step(st0, i as int, attrs@.take(k as int)),
        decreases attrs@.len() - k,
    {
        assert(attr_ok(attrs@[k as int], n as nat));
        assert(attrs@.take(k + 1).drop_last() =~= attrs@.take(k as int));
        assert(attrs@.take(k + 1).last() == attrs@[k as int]);
        match &attrs[k] {
            Attr::Name(s) => b.set_string(i, DW_AT_NAME, s),
            Attr::ByteSize(v) => b.set_udata(i, DW_AT_BYTE_SIZE, *v),
            Attr::Encoding(signed) => b.set_encoding(
                i,
                if *signed {
                    DW_ATE_SIGNED
                } else {
                    DW_ATE_UNSIGNED
                },
            ),
            Attr::Type(t) => b.set_ref(i, DW_AT_TYPE, *t),
            Attr::MemberLocation(v) => b.set_udata(i, DW_AT_DATA_MEMBER_LOCATION, *v),
            Attr::Prototyped => b.set_flag(i, DW_AT_PROTOTYPED, true),
            Attr::ConstValue(v) => b.set_udata(i, DW_AT_CONST_VALUE, *v),
            Attr::UpperBound(v) => b.set_udata(i, DW_AT_UPPER_BOUND, *v),
            Attr::External => b.set_flag(i, DW_AT_EXTERNAL, true),
            Attr::Location(a) => b.set_location(i, *a),
            Attr::CompDir(s) => b.set_string(i, DW_AT_COMP_DIR, s),
            Attr::LowPc(a) => b.set_address(i, DW_AT_LOW_PC, *a),
            Attr::HighPc(a) => b.set_address(i, DW_AT_HIGH_PC, *a),
            Attr::LanguageC => b.set_language(i, DW_LANG_C),
            Attr::Producer(s) => b.set_string(i, DW_AT_PRODUCER, s),
        }
        k = k + 1;
    }
    assert(attrs@.take(k as int) =~= attrs@);
}

/// Encodes the tree as 64-bit DWARF version 4 with 8-byte addresses: the
/// entries are created in tree order (so entry `i` of the tree is entry `i`
/// of the unit), then their attributes are set. Returns the named sections
/// that gimli writes for `unit_of(tree)`.
pub fn encode_tree(tree: &DebugTree) -> (r: Result<Vec<(String, Vec<u8>)>, EncodeError>)
    ensures
        r == Err::<Vec<(String, Vec<u8>)>, EncodeError>(EncodeError::Invalid) <==> !encodable(tree@),
        encodable(tree@) ==> match dwarf_write_of((4, 8), unit_of(tree@)) {
            Some(v) => r matches Ok(out) && out@.map_values(|x: (String, Vec<u8>)| (x.0@, x.1@)) == v,
            None => r == Err::<Vec<(String, Vec<u8>)>, EncodeError>(EncodeError::Write),
        },
        r matches Ok(out) ==> forall|k: int| 0 <= k < out@.len() ==> has_no_nul(
            encode_utf8(#[trigger] out@[k].0@),
        ),
{
    if !check_tree(tree) {
        return Err(EncodeError::Invalid);
    }
    let n = tree.entries.len();
    let ghost sk = skeleton(tree@);
    let mut b = DwarfBuilder::new_dwarf64(4, 8);
    assert(dwarf_entries(b.unit) =~= sk.take(1));
    let mut i: usize = 1;
    while i < n
        invariant
            encodable(tree@),
            n == tree@.len(),
            sk == skeleton(tree@),
            1 <= i <= n,
            b.len() == i,
            dwarf_encoding(b.unit) == (4u16, 8u8),
            dwarf_entries(b.unit) == sk.take(i as int),
            dwarf_strings(b.unit) == Seq::<Seq<u8>>::empty(),
        decreases n - i,
    {
        assert(tree@[i as int].parent < i);
        let e = &tree.entries[i];
        b.add(e.parent, tag_code(e.tag));
        assert(dwarf_entries(b.unit) =~= sk.take(i + 1));
        i = i + 1;
    }
    assert(sk.take(n as int) =~= sk);
    let ghost st0: UnitModel = (sk, Seq::<Seq<u8>>::empty());
    let mut i: usize = 0;
    while i < n
        invariant
            encodable(tree@),
            n == tree@.len(),
            i <= n,
            b.len() == n,
            dwarf_encoding(b.unit) == (4u16, 8u8),
            (dwarf_entries(b.unit), dwarf_strings(b.unit)) == entries_step(st0, tree@, i as nat),
            st0 == (skeleton(tree@), Seq::<Seq<u8>>::empty()),
        decreases n - i,
    {
        let e = &tree.entries[i];
        assert(forall|k: int| 0 <= k < e.attrs@.len() ==> #[trigger] e.attrs@[k] == tree@[i as int].attrs[k]);
        assert(e.attrs@ == tree@[i as int].attrs);
        encode_attrs(&mut b, i, &e.attrs, n);
        i = i + 1;
    }
    match b.write() {
        Ok(sections) => Ok(sections),
        Err(_) => Err(EncodeError::Write),
    }
}

/// No string attribute of the tree holds a NUL character.
pub open spec fn strings_ok(t: Seq<EntryModel>) -> bool {
    forall|i: int, k: int|
        0 <= i < t.len() && 0 <= k < t[i].attrs.len() ==> string_attr_ok(#[trigger] t[i].attrs[k])
}

/// A structurally sound tree whose strings hold no NUL can be encoded.
pub proof fn lemma_encodable(t: Seq<EntryModel>)
    requires
        crate::soundness::sound(t),
        strings_ok(t),
    ensures
        encodable(t),
{
    assert forall|i: int, k: int| 0 <= i < t.len() && 0 <= k < t[i].attrs.len() implies attr_ok(
        #[trigger] t[i].attrs[k],
        t.len(),
    ) by {
        assert(crate::soundness::refs_below(t[i].attrs, t.len()));
    }
}

pub proof fn lemma_encodable_strings(t: Seq<EntryModel>)
    requires
        encodable(t),
    ensures
        strings_ok(t),
{
    assert forall|i: int, k: int| 0 <= i < t.len() && 0 <= k < t[i].attrs.len() implies string_attr_ok(
        #[trigger] t[i].attrs[k],
    ) by {
        assert(attr_ok(t[i].attrs[k], t.len()));
    }
}

} // verus!
