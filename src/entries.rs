use vstd::prelude::*;

use crate::order::{key_less, key_lt, lemma_key_lt_irreflexive, lemma_key_lt_total, lemma_key_lt_transitive};

verus! {

/// The mapping that a list of keyed entries stands for: where a key occurs
/// more than once, its last entry counts.
pub open spec fn entries_map<V: DeepView>(s: Seq<(String, V)>) -> Map<Seq<char>, V::V>
    decreases s.len(),
{
    if s.len() == 0 {
        Map::empty()
    } else {
        entries_map(s.drop_last()).insert(s.last().0@, s.last().1.deep_view())
    }
}

/// A list of keyed entries as character sequences, in its own order.
pub open spec fn entries_list<V: DeepView>(s: Seq<(String, V)>) -> Seq<(Seq<char>, V::V)> {
    s.map_values(|e: (String, V)| (e.0@, e.1.deep_view()))
}

/// The keys of `l` stand in strictly increasing order, so that no two share
/// a key and the order is fixed by the keys alone.
pub open spec fn sorted_keys<W>(l: Seq<(Seq<char>, W)>) -> bool {
    forall|i: int, j: int| 0 <= i < j < l.len() ==> key_lt(l[i].0, l[j].0)
}

/// `j` is the last entry of `s` under `k`.
pub open spec fn last_at<V>(s: Seq<(String, V)>, k: Seq<char>, j: int) -> bool {
    &&& 0 <= j < s.len()
    &&& s[j].0@ == k
    &&& forall|l: int| j < l < s.len() ==> s[l].0@ != k
}

/// A key is mapped by its last entry, and unmapped where no entry has it.
pub proof fn lemma_entries_lookup<V: DeepView>(s: Seq<(String, V)>, k: Seq<char>)
    ensures
        forall|j: int|
            last_at(s, k, j) ==> entries_map(s).contains_key(k) && entries_map(s)[k]
                == s[j].1.deep_view(),
        (forall|j: int| 0 <= j < s.len() ==> s[j].0@ != k) ==> !entries_map(s).contains_key(k),
    decreases s.len(),
{
    if s.len() > 0 {
        let t = s.drop_last();
        lemma_entries_lookup(t, k);
        assert forall|j: int| last_at(s, k, j) && j < s.len() - 1 implies last_at(t, k, j) by {}
    }
}

/// Overwriting the last entry under a key maps that key to the new value.
pub proof fn lemma_entries_update<V: DeepView>(s: Seq<(String, V)>, j: int, e: (String, V))
    requires
        last_at(s, e.0@, j),
    ensures
        entries_map(s.update(j, e)) =~= entries_map(s).insert(e.0@, e.1.deep_view()),
    decreases s.len(),
{
    let t = s.drop_last();
    let u = s.update(j, e);
    if j == s.len() - 1 {
        assert(u.drop_last() =~= t);
    } else {
        assert(u.drop_last() =~= t.update(j, e));
        lemma_entries_update(t, j, e);
    }
}

/// The mapping that a list stands for depends on the list's view alone.
pub proof fn lemma_same_list_same_map<V: DeepView>(a: Seq<(String, V)>, b: Seq<(String, V)>)
    requires
        entries_list(a) == entries_list(b),
    ensures
        entries_map(a) == entries_map(b),
    decreases a.len(),
{
    let la = entries_list(a);
    let lb = entries_list(b);
    assert(la.len() == a.len() && lb.len() == b.len());
    if a.len() > 0 {
        let n = a.len() - 1;
        assert(la[n] == lb[n]);
        assert(entries_list(a.drop_last()) =~= la.drop_last());
        assert(entries_list(b.drop_last()) =~= lb.drop_last());
        lemma_same_list_same_map(a.drop_last(), b.drop_last());
    }
}

/// Inserting an entry under a key that no entry has maps that key.
pub proof fn lemma_entries_insert<V: DeepView>(s: Seq<(String, V)>, p: int, e: (String, V))
    requires
        0 <= p <= s.len(),
        forall|i: int| 0 <= i < s.len() ==> s[i].0@ != e.0@,
    ensures
        entries_map(s.insert(p, e)) =~= entries_map(s).insert(e.0@, e.1.deep_view()),
    decreases s.len(),
{
    let u = s.insert(p, e);
    if p == s.len() {
        assert(u.drop_last() =~= s);
    } else {
        let t = s.drop_last();
        assert(u.drop_last() =~= t.insert(p, e));
        assert(u.last() == s.last());
        lemma_entries_insert(t, p, e);
        assert(s.last().0@ != e.0@);
    }
}

/// Two lists with sorted keys that stand for the same mapping are the same
/// list.
pub proof fn lemma_sorted_entries_equal<V: DeepView>(a: Seq<(String, V)>, b: Seq<(String, V)>)
    requires
        sorted_keys(entries_list(a)),
        sorted_keys(entries_list(b)),
        entries_map(a) == entries_map(b),
    ensures
        entries_list(a) == entries_list(b),
    decreases a.len() + b.len(),
{
    let la = entries_list(a);
    let lb = entries_list(b);
    if a.len() == 0 && b.len() == 0 {
        assert(la =~= lb);
    } else if a.len() == 0 {
        assert(entries_map(b).contains_key(b.last().0@));
    } else if b.len() == 0 {
        assert(entries_map(a).contains_key(a.last().0@));
    } else {
        let ka = a.last().0@;
        let kb = b.last().0@;
        let na = a.len() - 1;
        let nb = b.len() - 1;
        assert(la[na].0 == ka);
        assert(lb[nb].0 == kb);
        lemma_entries_lookup(a, kb);
        lemma_entries_lookup(b, ka);
        assert(entries_map(a).contains_key(ka));
        assert(entries_map(b).contains_key(kb));
        let j = choose|j: int| 0 <= j < b.len() && b[j].0@ == ka;
        let i = choose|i: int| 0 <= i < a.len() && a[i].0@ == kb;
        assert(lb[j].0 == ka);
        assert(la[i].0 == kb);
        if ka != kb {
            assert(j < nb);
            assert(i < na);
            assert(key_lt(ka, kb));
            assert(key_lt(kb, ka));
            lemma_key_lt_transitive(ka, kb, ka);
            lemma_key_lt_irreflexive(ka);
        }
        let ta = a.drop_last();
        let tb = b.drop_last();
        assert forall|m: int| 0 <= m < ta.len() implies ta[m].0@ != ka by {
            assert(la[m].0 == ta[m].0@);
            lemma_key_lt_irreflexive(ka);
        }
        assert forall|m: int| 0 <= m < tb.len() implies tb[m].0@ != kb by {
            assert(lb[m].0 == tb[m].0@);
            lemma_key_lt_irreflexive(kb);
        }
        lemma_entries_lookup(ta, ka);
        lemma_entries_lookup(tb, kb);
        assert(entries_map(ta) =~= entries_map(a).remove(ka));
        assert(entries_map(tb) =~= entries_map(b).remove(kb));
        assert(entries_list(ta) =~= la.drop_last());
        assert(entries_list(tb) =~= lb.drop_last());
        lemma_sorted_entries_equal(ta, tb);
        assert(entries_map(a)[ka] == a.last().1.deep_view());
        assert(entries_map(b)[kb] == b.last().1.deep_view());
        assert(la =~= entries_list(ta).push((ka, a.last().1.deep_view())));
        assert(lb =~= entries_list(tb).push((kb, b.last().1.deep_view())));
    }
}

/// The position of the last entry under `key`.
pub(crate) fn last_index<V: DeepView>(entries: &Vec<(String, V)>, key: &String) -> (r: Option<usize>)
    ensures
        match r {
            Some(j) => last_at(entries@, key@, j as int) && entries_map(entries@).contains_key(key@)
                && entries_map(entries@)[key@] == entries@[j as int].1.deep_view(),
            None => !entries_map(entries@).contains_key(key@) && forall|l: int|
                0 <= l < entries@.len() ==> entries@[l].0@ != key@,
        },
{
    let mut i: usize = entries.len();
    while i > 0
        invariant
            i <= entries@.len(),
            forall|l: int| i <= l < entries@.len() ==> entries@[l].0@ != key@,
        decreases i,
    {
        if entries[i - 1].0.eq(key) {
            proof {
                lemma_entries_lookup(entries@, key@);
                assert(last_at(entries@, key@, i - 1));
            }
            return Some(i - 1);
        }
        i = i - 1;
    }
    proof {
        lemma_entries_lookup(entries@, key@);
    }
    None
}

/// Maps `key` to `value`: the entry under `key` is overwritten in its place,
/// or a new entry is inserted where its key keeps the keys sorted.
pub(crate) fn put<V: DeepView>(entries: &mut Vec<(String, V)>, key: String, value: V)
    ensures
        entries_map(final(entries)@) == entries_map(old(entries)@).insert(key@, value.deep_view()),
        sorted_keys(entries_list(old(entries)@)) ==> sorted_keys(entries_list(final(entries)@)),
{
    let ghost s = entries@;
    let ghost l = entries_list(s);
    let ghost w = value.deep_view();
    match last_index(entries, &key) {
        Some(j) => {
            proof {
                lemma_entries_update(s, j as int, (key, value));
            }
            entries[j] = (key, value);
            let ghost n = l.update(j as int, (key@, w));
            assert(entries_list(entries@) =~= n);
            assert(l[j as int].0 == key@);
            assert forall|i: int| 0 <= i < n.len() implies #[trigger] n[i].0 == l[i].0 by {}
        },
        None => {
            let mut p: usize = 0;
            loop
                invariant
                    p <= s.len(),
                    entries@ == s,
                    forall|i: int| 0 <= i < p ==> key_lt(s[i].0@, key@),
                ensures
                    p <= s.len(),
                    entries@ == s,
                    forall|i: int| 0 <= i < p ==> key_lt(s[i].0@, key@),
                    p == s.len() || !key_lt(s[p as int].0@, key@),
                decreases s.len() - p,
            {
                if p == entries.len() || !key_less(entries[p].0.as_str(), key.as_str()) {
                    break;
                }
                p = p + 1;
            }
            proof {
                lemma_entries_insert(s, p as int, (key, value));
            }
            entries.insert(p, (key, value));
            let ghost n = l.insert(p as int, (key@, w));
            assert(entries_list(entries@) =~= n);
            proof {
                if sorted_keys(l) {
                    assert forall|i: int| p < i < n.len() implies key_lt(key@, #[trigger] n[i].0) by {
                        assert(l[p as int].0 == s[p as int].0@);
                        assert(s[p as int].0@ != key@);
                        lemma_key_lt_total(s[p as int].0@, key@);
                        if i > p + 1 {
                            lemma_key_lt_transitive(key@, l[p as int].0, l[i - 1].0);
                        }
                    }
                    assert forall|i: int, j: int| 0 <= i < j < n.len() implies key_lt(
                        n[i].0,
                        n[j].0,
                    ) by {
                        if i < p && j > p {
                            assert(l[i].0 == s[i].0@);
                            lemma_key_lt_transitive(n[i].0, key@, n[j].0);
                        } else if i < p && j == p {
                            assert(l[i].0 == s[i].0@);
                        }
                    }
                }
            }
        },
    }
}

} // verus!
