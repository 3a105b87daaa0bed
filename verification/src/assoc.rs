//! Association lists with string keys: the library's maps. Lookup takes the
//! first entry whose key matches, so earlier entries shadow later ones.
use vstd::prelude::*;

verus! {

/// The value bound to key `k` in `m`: the first entry whose key reads as
/// `k`, if any.
pub open spec fn str_find<V>(m: Seq<(String, V)>, k: Seq<char>) -> Option<V>
    decreases m.len(),
{
    if m.len() <= 0 {
        None
    } else if m[0].0@ == k {
        Some(m[0].1)
    } else {
        str_find(m.drop_first(), k)
    }
}

/// If `j` is the first position whose key reads as `k`, the lookup returns
/// the value stored there.
pub proof fn lemma_str_find_at<V>(m: Seq<(String, V)>, k: Seq<char>, j: int)
    requires
        0 <= j < m.len(),
        m[j].0@ == k,
        forall|l: int| 0 <= l < j ==> m[l].0@ != k,
    ensures
        str_find(m, k) == Some(m[j].1),
    decreases j,
{
    if j > 0 {
        lemma_str_find_at(m.drop_first(), k, j - 1);
    }
}

/// A lookup fails exactly when no entry's key reads as `k`.
pub proof fn lemma_str_find_none<V>(m: Seq<(String, V)>, k: Seq<char>)
    ensures
        (str_find(m, k) is None) <==> (forall|l: int| 0 <= l < m.len() ==> m[l].0@ != k),
    decreases m.len(),
{
    if m.len() > 0 {
        lemma_str_find_none(m.drop_first(), k);
        if m[0].0@ != k && (str_find(m.drop_first(), k) is None) {
            assert forall|l: int| 0 <= l < m.len() implies m[l].0@ != k by {
                if l > 0 {
                    assert(m.drop_first()[l - 1] == m[l]);
                }
            }
        }
    }
}

/// A successful lookup returns the value at the first position whose key
/// reads as `k`.
pub proof fn lemma_str_find_first<V>(m: Seq<(String, V)>, k: Seq<char>)
    requires
        str_find(m, k) is Some,
    ensures
        exists|j: int|
            0 <= j < m.len() && (#[trigger] m[j].0@) == k && str_find(m, k) == Some(m[j].1)
                && (forall|l: int| 0 <= l < j ==> m[l].0@ != k),
    decreases m.len(),
{
    if m.len() > 0 {
        if m[0].0@ == k {
            assert(0 <= 0 < m.len() && m[0].0@ == k && str_find(m, k) == Some(m[0].1));
        } else {
            lemma_str_find_first(m.drop_first(), k);
            let j0 = choose|j: int|
                0 <= j < m.drop_first().len() && (#[trigger] m.drop_first()[j].0@) == k
                    && str_find(m.drop_first(), k) == Some(m.drop_first()[j].1)
                    && (forall|l: int| 0 <= l < j ==> m.drop_first()[l].0@ != k);
            assert forall|l: int| 0 <= l < j0 + 1 implies m[l].0@ != k by {
                if l > 0 {
                    assert(m.drop_first()[l - 1] == m[l]);
                }
            }
            assert(m[j0 + 1] == m.drop_first()[j0]);
        }
    }
}

/// A lookup that succeeds keeps succeeding in any list that keeps the
/// same keys in the same positions, whatever stands after them.
pub proof fn lemma_str_find_some_same_names<V>(
    a: Seq<(String, V)>,
    b: Seq<(String, V)>,
    k: Seq<char>,
)
    requires
        b.len() >= a.len(),
        forall|j: int| 0 <= j < a.len() ==> a[j].0@ == (#[trigger] b[j]).0@,
        str_find(a, k) is Some,
    ensures
        str_find(b, k) is Some,
{
    lemma_str_find_first(a, k);
    let j = choose|j: int|
        0 <= j < a.len() && (#[trigger] a[j].0@) == k && str_find(a, k) == Some(a[j].1) && (forall|
            l: int,
        | 0 <= l < j ==> a[l].0@ != k);
    if str_find(b, k) is None {
        lemma_str_find_none(b, k);
        assert(b[j].0@ != k);
        assert(false);
    }
}

/// Looks a key up in an association list, returning a reference to the
/// first value whose key equals `k`.
pub fn map_get<'a, V>(m: &'a Vec<(String, V)>, k: &String) -> (r: Option<&'a V>)
    ensures
        match r {
            Some(v) => str_find(m@, k@) == Some(*v),
            None => str_find(m@, k@) is None,
        },
{
    let mut i: usize = 0;
    while i < m.len()
        invariant
            0 <= i <= m@.len(),
            forall|l: int| 0 <= l < i ==> m@[l].0@ != k@,
        decreases m@.len() - i,
    {
        if m[i].0 == *k {
            proof {
                lemma_str_find_at(m@, k@, i as int);
            }
            return Some(&m[i].1);
        }
        i += 1;
    }
    proof {
        lemma_str_find_none(m@, k@);
    }
    None
}

/// Copies an association list of strings; the copy has the same
/// mathematical value as the original.
pub fn clone_string_map(v: &Vec<(String, String)>) -> (r: Vec<(String, String)>)
    ensures
        r@ == v@,
{
    let mut r: Vec<(String, String)> = Vec::new();
    let mut i: usize = 0;
    while i < v.len()
        invariant
            0 <= i <= v@.len(),
            r@ == v@.take(i as int),
        decreases v@.len() - i,
    {
        let p = &v[i];
        r.push((p.0.clone(), p.1.clone()));
        proof {
            assert(v@.take(i as int).push(v@[i as int]) =~= v@.take(i + 1));
        }
        i += 1;
    }
    proof {
        assert(v@.take(v@.len() as int) =~= v@);
    }
    r
}

} // verus!
