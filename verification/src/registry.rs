use vstd::prelude::*;

verus! {

/// The names a registry lists, each with the handle it was given.
pub open spec fn registry_map(entries: Seq<(Seq<char>, usize)>) -> Map<Seq<char>, usize> {
    Map::new(
        |n: Seq<char>| exists|i: int| 0 <= i < entries.len() && (#[trigger] entries[i]).0 == n,
        |n: Seq<char>| entries[choose|i: int| 0 <= i < entries.len() && (#[trigger] entries[i]).0 == n].1,
    )
}

/// No name occurs twice in the registry's list.
pub open spec fn names_distinct(entries: Seq<(Seq<char>, usize)>) -> bool {
    forall|i: int, j: int|
        0 <= i < entries.len() && 0 <= j < entries.len() && i != j ==> (#[trigger] entries[i]).0
            != (#[trigger] entries[j]).0
}

pub(crate) proof fn lemma_registry_lookup(entries: Seq<(Seq<char>, usize)>, k: int)
    requires
        names_distinct(entries),
        0 <= k < entries.len(),
    ensures
        registry_map(entries).contains_key(entries[k].0),
        registry_map(entries)[entries[k].0] == entries[k].1,
{
    let n = entries[k].0;
    assert(registry_map(entries).dom().contains(n));
    let i = choose|i: int| 0 <= i < entries.len() && (#[trigger] entries[i]).0 == n;
    assert(i == k);
}

pub(crate) proof fn lemma_registry_absent(entries: Seq<(Seq<char>, usize)>, n: Seq<char>)
    requires
        forall|k: int| 0 <= k < entries.len() ==> (#[trigger] entries[k]).0 != n,
    ensures
        !registry_map(entries).contains_key(n),
{
}

pub(crate) proof fn lemma_registry_push(entries: Seq<(Seq<char>, usize)>, n: Seq<char>, id: usize)
    requires
        names_distinct(entries),
        !registry_map(entries).contains_key(n),
    ensures
        names_distinct(entries.push((n, id))),
        registry_map(entries.push((n, id))) == registry_map(entries).insert(n, id),
{
    let e2 = entries.push((n, id));
    assert forall|k: int| 0 <= k < entries.len() implies (#[trigger] entries[k]).0 != n by {
        if entries[k].0 == n {
            assert(registry_map(entries).dom().contains(n));
        }
    }
    assert(names_distinct(e2)) by {
        assert forall|i: int, j: int|
            0 <= i < e2.len() && 0 <= j < e2.len() && i != j implies (#[trigger] e2[i]).0
            != (#[trigger] e2[j]).0 by {
            if i < entries.len() && j < entries.len() {
                assert(entries[i] == e2[i] && entries[j] == e2[j]);
            } else if i < entries.len() {
                assert(entries[i] == e2[i]);
            } else {
                assert(entries[j] == e2[j]);
            }
        }
    }
    let m1 = registry_map(e2);
    let m2 = registry_map(entries).insert(n, id);
    assert forall|x: Seq<char>| m1.dom().contains(x) <==> m2.dom().contains(x) by {
        if m2.dom().contains(x) && x != n {
            let i = choose|i: int| 0 <= i < entries.len() && (#[trigger] entries[i]).0 == x;
            assert(e2[i] == entries[i]);
        }
        if x == n {
            assert(e2[entries.len() as int].0 == n);
        }
        if m1.dom().contains(x) && x != n {
            let i = choose|i: int| 0 <= i < e2.len() && (#[trigger] e2[i]).0 == x;
            assert(e2[i] == entries[i]);
        }
    }
    assert forall|x: Seq<char>| m1.dom().contains(x) implies m1[x] == m2[x] by {
        let last = entries.len() as int;
        if x == n {
            lemma_registry_lookup(e2, last);
        } else {
            let i = choose|i: int| 0 <= i < e2.len() && (#[trigger] e2[i]).0 == x;
            assert(i < entries.len());
            assert(e2[i] == entries[i]);
            lemma_registry_lookup(e2, i);
            lemma_registry_lookup(entries, i);
        }
    }
    assert(m1 =~= m2);
}

pub(crate) proof fn lemma_registry_remove(entries: Seq<(Seq<char>, usize)>, k: int)
    requires
        names_distinct(entries),
        0 <= k < entries.len(),
    ensures
        names_distinct(entries.remove(k)),
        registry_map(entries.remove(k)) == registry_map(entries).remove(entries[k].0),
{
    let e2 = entries.remove(k);
    let n = entries[k].0;
    assert forall|i: int| 0 <= i < e2.len() implies #[trigger] e2[i] == entries[if i < k {
        i
    } else {
        i + 1
    }] by {}
    assert(names_distinct(e2)) by {
        assert forall|i: int, j: int|
            0 <= i < e2.len() && 0 <= j < e2.len() && i != j implies (#[trigger] e2[i]).0
            != (#[trigger] e2[j]).0 by {
            let ii = if i < k { i } else { i + 1 };
            let jj = if j < k { j } else { j + 1 };
            assert(e2[i] == entries[ii] && e2[j] == entries[jj]);
        }
    }
    let m1 = registry_map(e2);
    let m2 = registry_map(entries).remove(n);
    assert forall|x: Seq<char>| m1.dom().contains(x) <==> m2.dom().contains(x) by {
        if m2.dom().contains(x) {
            let i = choose|i: int| 0 <= i < entries.len() && (#[trigger] entries[i]).0 == x;
            assert(i != k);
            let ii = if i < k { i } else { i - 1 };
            assert(e2[ii] == entries[i]);
        }
        if m1.dom().contains(x) {
            let i = choose|i: int| 0 <= i < e2.len() && (#[trigger] e2[i]).0 == x;
            let ii = if i < k { i } else { i + 1 };
            assert(e2[i] == entries[ii]);
            assert(ii != k);
        }
    }
    assert forall|x: Seq<char>| m1.dom().contains(x) implies m1[x] == m2[x] by {
        let i = choose|i: int| 0 <= i < e2.len() && (#[trigger] e2[i]).0 == x;
        let ii = if i < k { i } else { i + 1 };
        assert(e2[i] == entries[ii]);
        lemma_registry_lookup(e2, i);
        lemma_registry_lookup(entries, ii);
    }
    assert(m1 =~= m2);
}

} // verus!
