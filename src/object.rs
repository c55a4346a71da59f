use vstd::prelude::*;
use vstd::utf8::encode_utf8;
use crate::assemble::{
    assemble, check_fits, expected_header, expected_symbol, file_bytes, fits, section_count,
    section_names, symbol_names, ObjectFile, Payload, SymbolInput,
};
use crate::catalogue::{Catalogue, GlobalVariable};
use crate::elf::{SHF_ALLOC, SHF_EXECINSTR};
use crate::encode::{
    dwarf_write_of, encodable, encode_tree, lemma_encodable, lemma_encodable_strings, strings_ok,
    unit_of, EncodeError,
};
use crate::populate::{build_tree, built, complete, PopulateError, UnitInfo};
use crate::tree::EntryModel;
use crate::typemap::TypeMap;
use crate::strtab::{has_no_nul, reads_cstr, string_table};
use crate::assemble::{header_name, lemma_names_read_back};
use crate::populate::{children_upto, variable_entry};
use crate::tree::Attr;
use vstd::string::StringSliceAdditionalSpecFns;

verus! {

/// Why no object file was produced.
#[derive(Debug)]
pub enum BuildError {
    Populate(PopulateError),
    Encode(EncodeError),
    /// The file would not fit the format's fields or memory.
    TooLarge,
}

/// One symbol per global variable: its name's UTF-8 bytes, its address as
/// value, its size.
pub open spec fn symbol_of(v: GlobalVariable) -> (Seq<u8>, u64, u64) {
    (encode_utf8(v.name@), v.address, v.size)
}

/// The symbol table keyed by name: the symbols of the variables in order,
/// where a variable whose name was already taken replaces that earlier
/// record in place.
pub open spec fn symbols_of(vars: Seq<GlobalVariable>) -> Seq<(Seq<u8>, u64, u64)>
    decreases vars.len(),
{
    if vars.len() == 0 {
        seq![]
    } else {
        let prev = symbols_of(vars.drop_last());
        let s = symbol_of(vars.last());
        if exists|i: int| 0 <= i < prev.len() && #[trigger] prev[i].0 == s.0 {
            prev.update(choose|i: int| 0 <= i < prev.len() && #[trigger] prev[i].0 == s.0, s)
        } else {
            prev.push(s)
        }
    }
}

pub open spec fn input_view(s: SymbolInput) -> (Seq<u8>, u64, u64) {
    (s.name@, s.value, s.size)
}

pub open spec fn symbols_view(ss: Seq<SymbolInput>) -> Seq<(Seq<u8>, u64, u64)> {
    ss.map_values(|s: SymbolInput| input_view(s))
}

fn bytes_eq(a: &Vec<u8>, b: &Vec<u8>) -> (r: bool)
    ensures
        r == (a@ == b@),
{
    if a.len() != b.len() {
        return false;
    }
    let mut k: usize = 0;
    while k < a.len()
        invariant
            a@.len() == b@.len(),
            k <= a@.len(),
            a@.subrange(0, k as int) == b@.subrange(0, k as int),
        decreases a@.len() - k,
    {
        if a[k] != b[k] {
            assert(a@.subrange(0, k + 1)[k as int] != b@.subrange(0, k + 1)[k as int]);
            return false;
        }
        assert(a@.subrange(0, k + 1) =~= a@.subrange(0, k as int).push(a@[k as int]));
        assert(b@.subrange(0, k + 1) =~= b@.subrange(0, k as int).push(b@[k as int]));
        k = k + 1;
    }
    assert(a@ =~= a@.subrange(0, k as int));
    assert(b@ =~= b@.subrange(0, k as int));
    true
}

pub fn symbol_inputs(vars: &Vec<GlobalVariable>) -> (r: Vec<SymbolInput>)
    ensures
        r@.map_values(|s: SymbolInput| input_view(s)) == symbols_of(vars@),
        forall|i: int, j: int| 0 <= i < j < r@.len() ==> r@[i].name@ != r@[j].name@,
{
    let mut r: Vec<SymbolInput> = Vec::new();
    let mut k: usize = 0;
    assert(vars@.take(0) =~= Seq::<GlobalVariable>::empty());
    while k < vars.len()
        invariant
            k <= vars@.len(),
            r@.map_values(|s: SymbolInput| input_view(s)) == symbols_of(vars@.take(k as int)),
            forall|i: int, j: int| 0 <= i < j < r@.len() ==> r@[i].name@ != r@[j].name@,
        decreases vars@.len() - k,
    {
        let v = &vars[k];
        let name = crate::assemble::copy_bytes(v.name.as_str().as_bytes());
        let sym = SymbolInput { name, value: v.address, size: v.size };
        let ghost prev = r@.map_values(|s: SymbolInput| input_view(s));
        let ghost sv = symbol_of(vars@[k as int]);
        assert(vars@.take(k + 1).drop_last() =~= vars@.take(k as int));
        assert(vars@.take(k + 1).last() == vars@[k as int]);
        assert(input_view(sym) == sv);
        let mut i: usize = 0;
        let mut found = false;
        while i < r.len() && !found
            invariant
                i <= r@.len(),
                prev == r@.map_values(|s: SymbolInput| input_view(s)),
                sv.0 == sym.name@,
                found ==> i < r@.len() && prev[i as int].0 == sv.0,
                !found ==> forall|q: int| 0 <= q < i ==> prev[q].0 != sv.0,
            decreases r@.len() - i + (if found {
                0int
            } else {
                1int
            }),
        {
            if bytes_eq(&r[i].name, &sym.name) {
                found = true;
            } else {
                i = i + 1;
            }
        }
        if found {
            proof {
                assert(prev[i as int].0 == sv.0);
                let c = choose|c: int| 0 <= c < prev.len() && #[trigger] prev[c].0 == sv.0;
                if c != i {
                    if c < i {
                        assert(r@[c].name@ != r@[i as int].name@);
                    } else {
                        assert(r@[i as int].name@ != r@[c].name@);
                    }
                }
            }
            r.set(i, sym);
            proof {
                assert(r@.map_values(|s: SymbolInput| input_view(s)) =~= prev.update(i as int, sv));
                assert forall|a: int, b: int| 0 <= a < b < r@.len() implies r@[a].name@ != r@[b].name@ by {
                    if a != i && b != i {
                        assert(prev[a].0 != prev[b].0);
                    } else if a == i {
                        assert(prev[b].0 != prev[a].0);
                    } else {
                        assert(prev[a].0 != prev[b].0);
                    }
                }
            }
        } else {
            r.push(sym);
            proof {
                assert(r@.map_values(|s: SymbolInput| input_view(s)) =~= prev.push(sv));
                assert forall|a: int, b: int| 0 <= a < b < r@.len() implies r@[a].name@ != r@[b].name@ by {
                    if b == prev.len() {
                        assert(prev[a].0 != sv.0);
                    } else {
                        assert(prev[a].0 != prev[b].0);
                    }
                }
            }
        }
        k = k + 1;
    }
    assert(vars@.take(k as int) =~= vars@);
    r
}

/// The payload sections: an empty executable `.text`, then the encoded
/// debug sections in the encoder's order.
pub open spec fn payloads_match(ps: Seq<Payload>, sections: Seq<(Seq<char>, Seq<u8>)>) -> bool {
    &&& ps.len() == sections.len() + 1
    &&& ps[0].name@ == ".text".spec_bytes()
    &&& ps[0].flags == SHF_EXECINSTR | SHF_ALLOC
    &&& ps[0].data@.len() == 0
    &&& forall|i: int|
        0 <= i < sections.len() ==> (#[trigger] ps[i + 1].name@) == encode_utf8(sections[i].0)
            && ps[i + 1].flags == 0 && ps[i + 1].data@ == sections[i].1
}

pub open spec fn sections_view(sections: Seq<(String, Vec<u8>)>) -> Seq<(Seq<char>, Seq<u8>)> {
    sections.map_values(|x: (String, Vec<u8>)| (x.0@, x.1@))
}

/// `v` is what gimli writes for the tree built from the catalogue and the
/// variables.
pub open spec fn encoded(
    cat: &Catalogue,
    vars: Seq<GlobalVariable>,
    u: UnitInfo,
    v: Seq<(Seq<char>, Seq<u8>)>,
) -> bool {
    exists|map: TypeMap, t: Seq<EntryModel>|
        #[trigger] built(cat, vars, u, &map, t) && strings_ok(t) && dwarf_write_of((4, 8), unit_of(t))
            == Some(v)
}

pub fn payloads(sections: &Vec<(String, Vec<u8>)>) -> (r: Vec<Payload>)
    ensures
        payloads_match(r@, sections_view(sections@)),
{
    let mut r: Vec<Payload> = Vec::new();
    r.push(
        Payload {
            name: crate::assemble::copy_bytes(".text".as_bytes()),
            flags: SHF_EXECINSTR | SHF_ALLOC,
            data: Vec::new(),
        },
    );
    let mut i: usize = 0;
    while i < sections.len()
        invariant
            i <= sections@.len(),
            r@.len() == i + 1,
            r@[0].name@ == ".text".spec_bytes(),
            r@[0].flags == SHF_EXECINSTR | SHF_ALLOC,
            r@[0].data@.len() == 0,
            forall|k: int|
                1 <= k <= i ==> (#[trigger] r@[k]).name@ == encode_utf8(sections@[k - 1].0@)
                    && r@[k].flags == 0 && r@[k].data@ == sections@[k - 1].1@,
        decreases sections@.len() - i,
    {
        let name = crate::assemble::copy_bytes(sections[i].0.as_str().as_bytes());
        let data = crate::assemble::copy_bytes(sections[i].1.as_slice());
        assert(name@ == encode_utf8(sections@[i as int].0@));
        assert(data@ == sections@[i as int].1@);
        let ghost r0 = r@;
        r.push(Payload { name, flags: 0, data });
        assert forall|k: int| 1 <= k <= i + 1 implies (#[trigger] r@[k]).name@ == encode_utf8(
            sections@[k - 1].0@,
        ) && r@[k].flags == 0 && r@[k].data@ == sections@[k - 1].1@ by {
            if k <= i {
                assert(r@[k] == r0[k]);
            }
        }
        i = i + 1;
    }
    assert forall|k: int| 0 <= k < sections@.len() implies (#[trigger] r@[k + 1].name@) == encode_utf8(
        sections_view(sections@)[k].0,
    ) && r@[k + 1].flags == 0 && r@[k + 1].data@ == sections_view(sections@)[k].1 by {
        assert(r@[k + 1].name@ == encode_utf8(sections@[(k + 1) - 1].0@));
    }
    r
}

/// The object file that holds the given payloads and symbols, where it
/// fits the format.
pub fn link_object(ps: &Vec<Payload>, ss: &Vec<SymbolInput>) -> (r: Result<ObjectFile, BuildError>)
    ensures
        r is Ok <==> fits(ps@, ss@),
        r matches Err(e) ==> e is TooLarge,
        r matches Ok(o) ==> {
            &&& o.section_names@ == string_table(section_names(ps@))
            &&& o.symbol_names@ == string_table(symbol_names(ss@))
            &&& o.headers@ == Seq::new(section_count(ps@) as nat, |k: int| expected_header(ps@, ss@, k))
            &&& o.symbols@ == Seq::new(ss@.len(), |i: int| expected_symbol(ss@, i))
            &&& o.bytes@ == file_bytes(ps@, ss@)
        },
{
    if check_fits(ps, ss) {
        Ok(assemble(ps, ss))
    } else {
        Err(BuildError::TooLarge)
    }
}

/// The whole run: builds the debug tree for the catalogue and the
/// variables, encodes it, and lays out an object file around the encoded
/// sections with one symbol per variable. Fails with a population error
/// exactly when the catalogue or a variable has a reference that cannot be
/// resolved; whatever the encoder hands back, the symbols are those of the
/// variables, in order, with their names in the symbol-name table.
pub fn build_object(cat: &Catalogue, vars: &Vec<GlobalVariable>, u: UnitInfo) -> (r: Result<
    ObjectFile,
    BuildError,
>)
    requires
        cat.wf(),
        cat.types@.len() < usize::MAX - 1,
    ensures
        (r matches Err(e) && e is Populate) <==> !complete(cat, vars@),
        r matches Err(BuildError::Encode(EncodeError::Invalid)) ==> exists|map: TypeMap, t: Seq<EntryModel>|
            #[trigger] built(cat, vars@, u, &map, t) && !strings_ok(t),
        r matches Err(BuildError::Encode(EncodeError::Write)) ==> exists|map: TypeMap, t: Seq<EntryModel>|
            #[trigger] built(cat, vars@, u, &map, t) && strings_ok(t) && dwarf_write_of((4, 8), unit_of(t)) is None,
        r matches Err(BuildError::TooLarge) ==> exists|
            ps: Seq<Payload>,
            ss: Seq<SymbolInput>,
            v: Seq<(Seq<char>, Seq<u8>)>,
        |
            #[trigger] encoded(cat, vars@, u, v) && #[trigger] payloads_match(ps, v) && #[trigger] symbols_view(ss) == symbols_of(vars@) && !fits(ps, ss),
        r matches Ok(o) ==> exists|ps: Seq<Payload>, ss: Seq<SymbolInput>, v: Seq<(Seq<char>, Seq<u8>)>|
            {
                &&& #[trigger] encoded(cat, vars@, u, v)
                &&& #[trigger] payloads_match(ps, v)
                &&& #[trigger] symbols_view(ss) == symbols_of(vars@)
                &&& fits(ps, ss)
                &&& o.section_names@ == string_table(section_names(ps))
                &&& o.symbol_names@ == string_table(symbol_names(ss))
                &&& o.headers@ == Seq::new(
                    section_count(ps) as nat,
                    |k: int| expected_header(ps, ss, k),
                )
                &&& o.symbols@ == Seq::new(ss.len(), |i: int| expected_symbol(ss, i))
                &&& o.bytes@ == file_bytes(ps, ss)
                &&& forall|k: int|
                    1 <= k < section_count(ps) ==> reads_cstr(
                        o.section_names@,
                        (#[trigger] o.headers@[k]).name as int,
                        header_name(ps, k),
                    )
                &&& forall|i: int|
                    0 <= i < ss.len() ==> reads_cstr(
                        o.symbol_names@,
                        (#[trigger] o.symbols@[i]).name as int,
                        ss[i].name@,
                    )
            },
{
    let ghost unit = u;
    let (tree, map) = match build_tree(cat, vars, u) {
        Ok(p) => p,
        Err(e) => {
            return Err(BuildError::Populate(e));
        },
    };
    proof {
        crate::soundness::lemma_built_tree_is_sound(cat, vars@, unit, &map, tree@);
        if strings_ok(tree@) {
            lemma_encodable(tree@);
        }
        if encodable(tree@) {
            lemma_encodable_strings(tree@);
        }
        assert(built(cat, vars@, unit, &map, tree@));
    }
    let sections = match encode_tree(&tree) {
        Ok(s) => s,
        Err(e) => {
            return Err(BuildError::Encode(e));
        },
    };
    let ghost v = sections_view(sections@);
    assert(encoded(cat, vars@, unit, v));
    let ps = payloads(&sections);
    let ss = symbol_inputs(vars);
    let r = link_object(&ps, &ss);
    proof {
        assert(payloads_match(ps@, v));
        assert(symbols_view(ss@) == symbols_of(vars@));
        assert(encoded(cat, vars@, u, v));
        if r is Ok {
            lemma_text_has_no_nul();
            assert forall|i: int| 0 <= i < ps@.len() implies has_no_nul(#[trigger] ps@[i].name@) by {
                if i > 0 {
                    let j = i - 1;
                    assert(ps@[j + 1].name@ == encode_utf8(v[j].0));
                    assert(has_no_nul(encode_utf8(sections@[j].0@)));
                }
            }
            lemma_variable_names_have_no_nul(cat, vars@, unit, &map, tree@);
            lemma_symbol_names_have_no_nul(vars@);
            assert forall|i: int| 0 <= i < ss@.len() implies has_no_nul(#[trigger] ss@[i].name@) by {
                assert(symbols_view(ss@)[i].0 == ss@[i].name@);
            }
            lemma_names_read_back(ps@, ss@);
        }
    }
    r
}

proof fn lemma_text_has_no_nul()
    ensures
        has_no_nul(".text".spec_bytes()),
{
    broadcast use vstd::string::is_ascii_spec_bytes;

    reveal_strlit(".text");
    assert(vstd::string::is_ascii(".text"));
}

/// The names of the variables reach the tree as name attributes, so a tree
/// without NUL in its strings has variables without NUL in their names.
proof fn lemma_variable_names_have_no_nul(
    cat: &Catalogue,
    vars: Seq<GlobalVariable>,
    u: UnitInfo,
    map: &TypeMap,
    t: Seq<EntryModel>,
)
    requires
        built(cat, vars, u, map, t),
        strings_ok(t),
    ensures
        forall|k: int| 0 <= k < vars.len() ==> has_no_nul(encode_utf8((#[trigger] vars[k]).name@)),
{
    let n = map.entries@.len() + 1;
    let c = children_upto(cat, map, cat.types@.len());
    let base = n + c.len();
    assert forall|k: int| 0 <= k < vars.len() implies has_no_nul(encode_utf8((#[trigger] vars[k]).name@)) by {
        assert(t[base + k] == t.subrange(base as int, t.len() as int)[k]);
        assert(t[base + k] == variable_entry(map, vars[k]));
        assert(t[base + k].attrs[0] == Attr::Name(vars[k].name));
    }
}

proof fn lemma_symbol_names_have_no_nul(vars: Seq<GlobalVariable>)
    requires
        forall|k: int| 0 <= k < vars.len() ==> has_no_nul(encode_utf8((#[trigger] vars[k]).name@)),
    ensures
        forall|i: int| 0 <= i < symbols_of(vars).len() ==> has_no_nul((#[trigger] symbols_of(vars)[i]).0),
    decreases vars.len(),
{
    if vars.len() > 0 {
        let pre = vars.drop_last();
        assert forall|k: int| 0 <= k < pre.len() implies has_no_nul(encode_utf8((#[trigger] pre[k]).name@)) by {
            assert(pre[k] == vars[k]);
        }
        lemma_symbol_names_have_no_nul(pre);
        let prev = symbols_of(pre);
        let sv = symbol_of(vars.last());
        assert(has_no_nul(sv.0));
        let all = symbols_of(vars);
        if exists|i: int| 0 <= i < prev.len() && #[trigger] prev[i].0 == sv.0 {
            let c = choose|i: int| 0 <= i < prev.len() && #[trigger] prev[i].0 == sv.0;
            assert(all == prev.update(c, sv));
            assert forall|i: int| 0 <= i < all.len() implies has_no_nul((#[trigger] all[i]).0) by {
                if i != c {
                    assert(all[i] == prev[i]);
                }
            }
        } else {
            assert(all == prev.push(sv));
            assert forall|i: int| 0 <= i < all.len() implies has_no_nul((#[trigger] all[i]).0) by {
                if i < prev.len() {
                    assert(all[i] == prev[i]);
                }
            }
        }
    }
}

} // verus!
