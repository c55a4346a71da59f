use vstd::prelude::*;

verus! {

/// The kind of a debug-information entry.
#[derive(PartialEq, Eq, Structural, Clone, Copy, Debug)]
pub enum Tag {
    CompileUnit,
    StructureType,
    UnionType,
    BaseType,
    PointerType,
    Typedef,
    SubroutineType,
    EnumerationType,
    ArrayType,
    Member,
    FormalParameter,
    Enumerator,
    SubrangeType,
    Variable,
}

/// An attribute of a debug-information entry. `Type` holds the index of the
/// referenced entry in the tree.
pub enum Attr {
    Name(String),
    ByteSize(u64),
    /// Signed or unsigned integer encoding.
    Encoding(bool),
    Type(usize),
    MemberLocation(u64),
    Prototyped,
    ConstValue(u64),
    UpperBound(u64),
    External,
    /// A location expression holding one absolute address.
    Location(u64),
    CompDir(String),
    LowPc(u64),
    HighPc(u64),
    LanguageC,
    Producer(String),
}

/// A node of the tree: its tag, the index of its parent, its attributes.
pub struct DebugEntry {
    pub tag: Tag,
    pub parent: usize,
    pub attrs: Vec<Attr>,
}

/// What a `DebugEntry` is, as a mathematical value.
pub ghost struct EntryModel {
    pub tag: Tag,
    pub parent: usize,
    pub attrs: Seq<Attr>,
}

impl View for DebugEntry {
    type V = EntryModel;

    open spec fn view(&self) -> EntryModel {
        EntryModel { tag: self.tag, parent: self.parent, attrs: self.attrs@ }
    }
}

/// An arena of entries. Index 0 is the compilation-unit root; an entry is
/// referred to by its index, which never changes once it is allocated.
pub struct DebugTree {
    pub entries: Vec<DebugEntry>,
}

impl View for DebugTree {
    type V = Seq<EntryModel>;

    open spec fn view(&self) -> Seq<EntryModel> {
        self.entries@.map_values(|e: DebugEntry| e@)
    }
}

impl DebugTree {
    /// A tree that holds the root alone.
    pub fn new() -> (t: DebugTree)
        ensures
            t@ == seq![EntryModel { tag: Tag::CompileUnit, parent: 0, attrs: seq![] }],
    {
        let mut entries: Vec<DebugEntry> = Vec::new();
        entries.push(DebugEntry { tag: Tag::CompileUnit, parent: 0, attrs: Vec::new() });
        let t = DebugTree { entries };
        assert(t@ =~= seq![EntryModel { tag: Tag::CompileUnit, parent: 0, attrs: seq![] }]);
        t
    }

    /// Appends an entry without attributes and returns its index.
    pub fn add(&mut self, parent: usize, tag: Tag) -> (id: usize)
        requires
            old(self)@.len() < usize::MAX,
        ensures
            id == old(self)@.len(),
            final(self)@ == old(self)@.push(EntryModel { tag, parent, attrs: seq![] }),
    {
        let id = self.entries.len();
        self.entries.push(DebugEntry { tag, parent, attrs: Vec::new() });
        assert(self@ =~= old(self)@.push(EntryModel { tag, parent, attrs: seq![] }));
        id
    }
}

} // verus!
