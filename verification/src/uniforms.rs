use vstd::prelude::*;

verus! {

/// Location, data-type tag and element count of one active uniform variable
/// of a linked program.
#[derive(Clone, Copy, PartialEq, Eq, Structural, Debug)]
pub struct UniformInfo {
    /// Binding location reported by the backend; `-1` is the reserved
    /// "not found" location.
    pub location: i32,
    /// Backend-defined enumeration tag of the uniform's data type.
    pub data_type: u32,
    /// Element count: `1` for a plain uniform, the array length otherwise.
    pub size: u32,
}

/// A reflected uniform table: each entry pairs a uniform name with its
/// binding information. Entry order is the backend's enumeration order.
pub type UniformTable = Vec<(String, UniformInfo)>;

/// Mathematical value of a uniform table.
pub open spec fn table_view(t: Seq<(String, UniformInfo)>) -> Seq<(Seq<char>, UniformInfo)> {
    t.map_values(|p: (String, UniformInfo)| (p.0@, p.1))
}

/// No two entries of the table share a name.
pub open spec fn distinct_names(t: Seq<(Seq<char>, UniformInfo)>) -> bool {
    forall|i: int, j: int|
        0 <= i < t.len() && 0 <= j < t.len() && i != j ==> #[trigger] t[i].0 != #[trigger] t[j].0
}

/// The binding information of the first entry named `name`, if any.
pub open spec fn spec_find_uniform(t: Seq<(Seq<char>, UniformInfo)>, name: Seq<char>) -> Option<
    UniformInfo,
>
    decreases t.len(),
{
    if t.len() == 0 {
        None
    } else if t[0].0 == name {
        Some(t[0].1)
    } else {
        spec_find_uniform(t.drop_first(), name)
    }
}

/// In a table with distinct names, looking an entry's own name up yields
/// exactly that entry.
pub proof fn lemma_find_uniform_distinct(t: Seq<(Seq<char>, UniformInfo)>, i: int)
    requires
        distinct_names(t),
        0 <= i < t.len(),
    ensures
        spec_find_uniform(t, t[i].0) == Some(t[i].1),
    decreases t.len(),
{
    if i == 0 {
    } else {
        assert(t[0].0 != t[i].0);
        assert(distinct_names(t.drop_first())) by {
            assert forall|a: int, b: int|
                0 <= a < t.drop_first().len() && 0 <= b < t.drop_first().len() && a
                    != b implies #[trigger] t.drop_first()[a].0 != #[trigger] t.drop_first()[b].0 by {
                assert(t.drop_first()[a] == t[a + 1]);
                assert(t.drop_first()[b] == t[b + 1]);
            }
        }
        lemma_find_uniform_distinct(t.drop_first(), i - 1);
        assert(t.drop_first()[i - 1] == t[i]);
    }
}

/// A lookup misses exactly when no entry bears the name.
pub proof fn lemma_find_uniform_none(t: Seq<(Seq<char>, UniformInfo)>, name: Seq<char>)
    ensures
        (spec_find_uniform(t, name) is None) <==> (forall|k: int|
            0 <= k < t.len() ==> #[trigger] t[k].0 != name),
    decreases t.len(),
{
    if t.len() == 0 {
    } else {
        lemma_find_uniform_none(t.drop_first(), name);
        assert(forall|k: int|
            0 <= k < t.drop_first().len() ==> #[trigger] t.drop_first()[k] == t[k + 1]);
        if t[0].0 != name && (forall|k: int|
            0 <= k < t.drop_first().len() ==> #[trigger] t.drop_first()[k].0 != name) {
            assert forall|k: int| 0 <= k < t.len() implies #[trigger] t[k].0 != name by {
                if k > 0 {
                    assert(t.drop_first()[k - 1] == t[k]);
                }
            }
        }
    }
}

/// Finds the first entry named `name` in a uniform table.
pub fn find_uniform<'a>(t: &'a UniformTable, name: &str) -> (r: Option<&'a UniformInfo>)
    ensures
        (match spec_find_uniform(table_view(t@), name@) {
            Some(info) => r is Some && *r->0 == info,
            None => r is None,
        }),
{
    let needle: String = name.to_owned();
    let ghost tv = table_view(t@);
    proof {
        assert(tv.skip(0) =~= tv);
    }
    let mut i: usize = 0;
    while i < t.len()
        invariant
            0 <= i <= t.len(),
            tv == table_view(t@),
            tv.len() == t@.len(),
            needle@ == name@,
            forall|k: int| 0 <= k < tv.len() ==> #[trigger] tv[k] == (t@[k].0@, t@[k].1),
            spec_find_uniform(tv, name@) == spec_find_uniform(tv.skip(i as int), name@),
        decreases t.len() - i,
    {
        if t[i].0 == needle {
            assert(tv.skip(i as int)[0] == tv[i as int]);
            return Some(&t[i].1);
        }
        assert(tv.skip(i as int)[0] == tv[i as int]);
        assert(tv.skip(i as int).drop_first() =~= tv.skip(i as int + 1));
        i = i + 1;
    }
    assert(tv.skip(i as int) =~= Seq::<(Seq<char>, UniformInfo)>::empty());
    None
}

} // verus!
