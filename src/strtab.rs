use vstd::prelude::*;

verus! {

/// The names, each followed by a NUL byte, one after another.
pub open spec fn table_body(names: Seq<Seq<u8>>) -> Seq<u8>
    decreases names.len(),
{
    if names.len() == 0 {
        seq![]
    } else {
        table_body(names.drop_last()) + names.last() + seq![0u8]
    }
}

/// A string table: a NUL byte (the empty name), the NUL-terminated names in
/// order, and a closing NUL byte.
pub open spec fn string_table(names: Seq<Seq<u8>>) -> Seq<u8> {
    seq![0u8] + table_body(names) + seq![0u8]
}

/// Where the `i`-th name starts in `string_table(names)`.
pub open spec fn name_offset(names: Seq<Seq<u8>>, i: int) -> int {
    1 + table_body(names.take(i)).len() as int
}

pub open spec fn has_no_nul(s: Seq<u8>) -> bool {
    forall|j: int| 0 <= j < s.len() ==> s[j] != 0
}

/// Reading a NUL-terminated string at `off` in `t` gives exactly `s`.
pub open spec fn reads_cstr(t: Seq<u8>, off: int, s: Seq<u8>) -> bool {
    &&& has_no_nul(s)
    &&& 0 <= off
    &&& off + s.len() < t.len()
    &&& t.subrange(off, off + s.len()) == s
    &&& t[off + s.len()] == 0
}

pub proof fn lemma_body_step(names: Seq<Seq<u8>>, i: int)
    requires
        0 <= i < names.len(),
    ensures
        table_body(names.take(i + 1)) == table_body(names.take(i)) + names[i] + seq![0u8],
{
    assert(names.take(i + 1).drop_last() =~= names.take(i));
}

/// The body of a prefix of the names is a prefix of the body.
pub proof fn lemma_body_prefix(names: Seq<Seq<u8>>, i: int, k: int)
    requires
        0 <= i <= k <= names.len(),
    ensures
        table_body(names.take(i)).len() <= table_body(names.take(k)).len(),
        table_body(names.take(k)).subrange(0, table_body(names.take(i)).len() as int)
            == table_body(names.take(i)),
    decreases k - i,
{
    if i < k {
        lemma_body_prefix(names, i, k - 1);
        lemma_body_step(names, k - 1);
        let a = table_body(names.take(i));
        let b = table_body(names.take(k - 1));
        assert((b + names[k - 1] + seq![0u8]).subrange(0, a.len() as int) =~= b.subrange(
            0,
            a.len() as int,
        ));
    } else {
        assert(table_body(names.take(k)).subrange(0, table_body(names.take(i)).len() as int)
            =~= table_body(names.take(i)));
    }
}

/// Reading the string table at the offset recorded for a name gives that
/// name back, for every name that holds no NUL byte.
pub proof fn lemma_offsets_read_back(names: Seq<Seq<u8>>, i: int)
    requires
        0 <= i < names.len(),
        has_no_nul(names[i]),
    ensures
        reads_cstr(string_table(names), name_offset(names, i), names[i]),
{
    lemma_body_step(names, i);
    lemma_body_prefix(names, i + 1, names.len() as int);
    assert(names.take(names.len() as int) =~= names);
    let t = string_table(names);
    let pre = table_body(names.take(i));
    let through = table_body(names.take(i + 1));
    let all = table_body(names);
    let off: int = 1 + pre.len() as int;
    let n: int = names[i].len() as int;
    let pl: int = pre.len() as int;
    assert(all.subrange(0, through.len() as int) == through);
    assert forall|j: int| 0 <= j < names[i].len() + 1 implies #[trigger] t[off + j] == through[pl + j] by {
        assert(t[off + j] == all[pl + j]);
        assert(all[pl + j] == all.subrange(0, through.len() as int)[pre.len() + j]);
    }
    assert(t.subrange(off, off + n) =~= names[i]) by {
        assert forall|j: int| 0 <= j < names[i].len() implies t.subrange(off, off + n)[j]
            == names[i][j] by {
            assert(t[off + j] == through[pl + j]);
        }
    }
    assert(t[off + n] == through[pl + n]);
}

/// Builds `string_table(names)` and the offset of each name in it.
pub fn build_string_table(names: &Vec<Vec<u8>>) -> (r: (Vec<u8>, Vec<u32>))
    requires
        string_table(names@.map_values(|v: Vec<u8>| v@)).len() <= u32::MAX,
    ensures
        r.0@ == string_table(names@.map_values(|v: Vec<u8>| v@)),
        r.1@.len() == names@.len(),
        forall|i: int|
            0 <= i < names@.len() ==> #[trigger] r.1@[i] == name_offset(
                names@.map_values(|v: Vec<u8>| v@),
                i,
            ),
{
    let ghost ns = names@.map_values(|v: Vec<u8>| v@);
    let mut t: Vec<u8> = Vec::new();
    t.push(0u8);
    let mut offs: Vec<u32> = Vec::new();
    let mut i: usize = 0;
    proof {
        lemma_body_prefix(ns, 0, ns.len() as int);
        assert(ns.take(ns.len() as int) =~= ns);
        assert(ns.take(0) =~= Seq::<Seq<u8>>::empty());
    }
    while i < names.len()
        invariant
            ns == names@.map_values(|v: Vec<u8>| v@),
            string_table(ns).len() <= u32::MAX,
            i <= names@.len(),
            t@ == seq![0u8] + table_body(ns.take(i as int)),
            offs@.len() == i,
            forall|k: int| 0 <= k < i ==> #[trigger] offs@[k] == name_offset(ns, k),
        decreases names@.len() - i,
    {
        proof {
            lemma_body_step(ns, i as int);
            lemma_body_prefix(ns, i as int + 1, ns.len() as int);
            assert(ns.take(ns.len() as int) =~= ns);
        }
        offs.push(t.len() as u32);
        let name = &names[i];
        let mut k: usize = 0;
        let ghost t0 = t@;
        while k < name.len()
            invariant
                k <= name@.len(),
                t@ == t0 + name@.subrange(0, k as int),
            decreases name@.len() - k,
        {
            t.push(name[k]);
            assert(name@.subrange(0, k + 1) =~= name@.subrange(0, k as int).push(name@[k as int]));
            k = k + 1;
        }
        t.push(0u8);
        proof {
            assert(name@.subrange(0, k as int) =~= name@);
            assert(ns[i as int] == name@);
            assert(t@ =~= seq![0u8] + table_body(ns.take(i + 1)));
        }
        i = i + 1;
    }
    t.push(0u8);
    proof {
        assert(ns.take(i as int) =~= ns);
        assert(t@ =~= string_table(ns));
    }
    (t, offs)
}

} // verus!
