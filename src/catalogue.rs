use vstd::prelude::*;

verus! {

/// A member of a structure or union.
pub struct Field {
    pub offset: u64,
    pub name: String,
    pub typename: String,
}

/// A structure or a union: its byte size, whether it is anonymous, and its
/// members in declaration order.
pub struct Structure {
    pub size: u64,
    pub anon: bool,
    pub fields: Vec<Field>,
}

/// A pointer; an empty target stands for `void *`.
pub struct Pointer {
    pub size: u64,
    pub target: String,
}

pub struct Typedef {
    pub target: String,
}

/// A parameter of a function type; the name may be empty.
pub struct Parameter {
    pub name: String,
    pub typename: String,
}

/// A function signature; an empty return type stands for `void`.
pub struct Function {
    pub parameters: Vec<Parameter>,
    pub returntype: String,
}

/// An array of `count` elements of type `target`.
pub struct Array {
    pub count: u64,
    pub target: String,
}

/// An enumerator; the value is kept as a 64-bit pattern.
pub struct EnumField {
    pub name: String,
    pub value: u64,
}

pub struct Enum {
    pub size: u64,
    pub signed: bool,
    pub fields: Vec<EnumField>,
}

/// A primitive integer type.
pub struct Integer {
    pub size: u64,
    pub signed: bool,
}

/// A statically addressed global variable; an empty typename means that its
/// type is unknown.
pub struct GlobalVariable {
    pub address: u64,
    pub name: String,
    pub size: u64,
    pub typename: String,
}

/// One definition of the catalogue.
pub enum CatalogueType {
    Structure(Structure),
    Union(Structure),
    Integer(Integer),
    Pointer(Pointer),
    Typedef(Typedef),
    Function(Function),
    Enum(Enum),
    Array(Array),
}

/// The type universe: named definitions in a fixed order, one per name.
pub struct Catalogue {
    pub types: Vec<(String, CatalogueType)>,
}

/// The type names that a definition refers to, in the order in which the
/// resolver visits them. Empty names (void) are included.
pub open spec fn type_refs(t: CatalogueType) -> Seq<Seq<char>> {
    match t {
        CatalogueType::Structure(s) => s.fields@.map_values(|f: Field| f.typename@),
        CatalogueType::Union(s) => s.fields@.map_values(|f: Field| f.typename@),
        CatalogueType::Pointer(p) => seq![p.target@],
        CatalogueType::Typedef(t) => seq![t.target@],
        CatalogueType::Function(f) => seq![f.returntype@] + f.parameters@.map_values(
            |p: Parameter| p.typename@,
        ),
        CatalogueType::Array(a) => seq![a.target@],
        CatalogueType::Integer(_) => seq![],
        CatalogueType::Enum(_) => seq![],
    }
}

impl Catalogue {
    /// The names of the catalogue, in order.
    pub open spec fn names(&self) -> Seq<Seq<char>> {
        self.types@.map_values(|e: (String, CatalogueType)| e.0@)
    }

    /// Every name is defined once.
    pub open spec fn wf(&self) -> bool {
        forall|i: int, j: int|
            0 <= i < j < self.types@.len() ==> #[trigger] self.types@[i].0@
                != #[trigger] self.types@[j].0@
    }

    pub open spec fn defines(&self, name: Seq<char>) -> bool {
        exists|i: int| 0 <= i < self.types@.len() && #[trigger] self.types@[i].0@ == name
    }

    /// Where `name` is defined, if it is.
    pub fn find(&self, name: &String) -> (r: Option<usize>)
        ensures
            match r {
                Some(i) => i < self.types@.len() && self.types@[i as int].0@ == name@,
                None => !self.defines(name@),
            },
    {
        let mut i: usize = 0;
        while i < self.types.len()
            invariant
                i <= self.types@.len(),
                forall|j: int| 0 <= j < i ==> self.types@[j].0@ != name@,
            decreases self.types@.len() - i,
        {
            if self.types[i].0 == *name {
                return Some(i);
            }
            i = i + 1;
        }
        None
    }
}

} // verus!
