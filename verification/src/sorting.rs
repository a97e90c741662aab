//! Byte-wise lexicographic order (the order of `[u8]`, and of `str` by its
//! UTF-8 bytes) and a stable sort of keyed byte entries under it.

use vstd::prelude::*;
use vstd::multiset::Multiset;

verus! {

broadcast use vstd::seq_lib::group_to_multiset_ensures, vstd::multiset::group_multiset_axioms;

/// `a <= b` in lexicographic byte order; a proper prefix sorts first.
pub open spec fn bytes_le(a: Seq<u8>, b: Seq<u8>) -> bool
    decreases a.len(),
{
    if a.len() == 0 {
        true
    } else if b.len() == 0 {
        false
    } else if a[0] != b[0] {
        a[0] < b[0]
    } else {
        bytes_le(a.drop_first(), b.drop_first())
    }
}

pub proof fn lemma_bytes_le_reflexive(a: Seq<u8>)
    ensures
        bytes_le(a, a),
    decreases a.len(),
{
    if a.len() > 0 {
        lemma_bytes_le_reflexive(a.drop_first());
    }
}

pub proof fn lemma_bytes_le_total(a: Seq<u8>, b: Seq<u8>)
    ensures
        bytes_le(a, b) || bytes_le(b, a),
    decreases a.len(),
{
    if a.len() > 0 && b.len() > 0 && a[0] == b[0] {
        lemma_bytes_le_total(a.drop_first(), b.drop_first());
    }
}

pub proof fn lemma_bytes_le_antisymmetric(a: Seq<u8>, b: Seq<u8>)
    requires
        bytes_le(a, b),
        bytes_le(b, a),
    ensures
        a == b,
    decreases a.len(),
{
    if a.len() > 0 && b.len() > 0 {
        lemma_bytes_le_antisymmetric(a.drop_first(), b.drop_first());
        assert(a =~= seq![a[0]] + a.drop_first());
        assert(b =~= seq![b[0]] + b.drop_first());
    } else {
        assert(a =~= b);
    }
}

pub proof fn lemma_bytes_le_transitive(a: Seq<u8>, b: Seq<u8>, c: Seq<u8>)
    requires
        bytes_le(a, b),
        bytes_le(b, c),
    ensures
        bytes_le(a, c),
    decreases a.len(),
{
    if a.len() > 0 && b.len() > 0 && c.len() > 0 && a[0] == b[0] && b[0] == c[0] {
        lemma_bytes_le_transitive(a.drop_first(), b.drop_first(), c.drop_first());
    }
}

/// Decides `bytes_le`.
pub fn bytes_le_exec(a: &[u8], b: &[u8]) -> (r: bool)
    ensures
        r == bytes_le(a@, b@),
{
    let mut i: usize = 0;
    assert(a@.skip(0) =~= a@);
    assert(b@.skip(0) =~= b@);
    while i < a.len() && i < b.len()
        invariant
            i <= a@.len(),
            i <= b@.len(),
            bytes_le(a@, b@) == bytes_le(a@.skip(i as int), b@.skip(i as int)),
        decreases a.len() - i,
    {
        if a[i] != b[i] {
            return a[i] < b[i];
        }
        assert(a@.skip(i as int).drop_first() =~= a@.skip(i + 1));
        assert(b@.skip(i as int).drop_first() =~= b@.skip(i + 1));
        i = i + 1;
    }
    a.len() <= b.len()
}

/// A byte key with the bytes it stands for.
pub type KeyedBytes = (Seq<u8>, Seq<u8>);

/// Keys never decrease along `s`.
pub open spec fn keys_sorted(s: Seq<KeyedBytes>) -> bool {
    forall|i: int, j: int| 0 <= i < j < s.len() ==> bytes_le(s[i].0, s[j].0)
}

/// Entries with equal keys are equal.
pub open spec fn key_determined(s: Seq<KeyedBytes>) -> bool {
    forall|i: int, j: int|
        0 <= i < s.len() && 0 <= j < s.len() && s[i].0 == s[j].0 ==> s[i] == s[j]
}

/// `x` placed after every entry of `s` whose key is not above its key.
pub open spec fn insert_by_key(s: Seq<KeyedBytes>, x: KeyedBytes) -> Seq<KeyedBytes>
    decreases s.len(),
{
    if s.len() == 0 {
        seq![x]
    } else if bytes_le(s.last().0, x.0) {
        s.push(x)
    } else {
        insert_by_key(s.drop_last(), x).push(s.last())
    }
}

/// The stable sort of `s` by key: entries with equal keys keep their order.
pub open spec fn sort_by_key(s: Seq<KeyedBytes>) -> Seq<KeyedBytes>
    decreases s.len(),
{
    if s.len() == 0 {
        s
    } else {
        insert_by_key(sort_by_key(s.drop_last()), s.last())
    }
}

proof fn lemma_insert_by_key(s: Seq<KeyedBytes>, x: KeyedBytes)
    requires
        keys_sorted(s),
    ensures
        keys_sorted(insert_by_key(s, x)),
        insert_by_key(s, x).to_multiset() == s.to_multiset().insert(x),
    decreases s.len(),
{
    if s.len() == 0 {
        assert(seq![x] =~= Seq::<KeyedBytes>::empty().push(x));
    } else if bytes_le(s.last().0, x.0) {
        let r = s.push(x);
        assert forall|i: int, j: int| 0 <= i < j < r.len() implies bytes_le(r[i].0, r[j].0) by {
            if j == s.len() {
                if i < s.len() - 1 {
                    lemma_bytes_le_transitive(s[i].0, s.last().0, x.0);
                }
            }
        }
    } else {
        let d = s.drop_last();
        let l = s.last();
        lemma_insert_by_key(d, x);
        let t = insert_by_key(d, x);
        let r = t.push(l);
        lemma_bytes_le_total(l.0, x.0);
        assert forall|i: int, j: int| 0 <= i < j < r.len() implies bytes_le(r[i].0, r[j].0) by {
            if j == t.len() {
                let y = t[i];
                assert(t.contains(y));
                assert(t.to_multiset().count(y) > 0);
                if y != x {
                    assert(d.to_multiset().count(y) > 0);
                    assert(d.contains(y));
                    let k = choose|k: int| 0 <= k < d.len() && d[k] == y;
                    assert(s[k] == y);
                }
            }
        }
        assert(s =~= d.push(l));
        assert(r.to_multiset() =~= s.to_multiset().insert(x));
    }
}

/// The stable sort is ordered by key and holds the same entries.
pub proof fn lemma_sort_by_key(s: Seq<KeyedBytes>)
    ensures
        keys_sorted(sort_by_key(s)),
        sort_by_key(s).to_multiset() == s.to_multiset(),
    decreases s.len(),
{
    if s.len() > 0 {
        lemma_sort_by_key(s.drop_last());
        lemma_insert_by_key(sort_by_key(s.drop_last()), s.last());
        assert(s =~= s.drop_last().push(s.last()));
    }
}

proof fn lemma_multiset_remove_last(s: Seq<KeyedBytes>)
    requires
        s.len() > 0,
    ensures
        s.drop_last().to_multiset() == s.to_multiset().remove(s.last()),
{
    assert(s =~= s.drop_last().push(s.last()));
    assert(s.drop_last().to_multiset() =~= s.drop_last().to_multiset().insert(s.last()).remove(
        s.last(),
    ));
}

/// Two key-sorted sequences with the same entries, where equal keys mean
/// equal entries, are the same sequence.
pub proof fn lemma_sorted_unique(a: Seq<KeyedBytes>, b: Seq<KeyedBytes>)
    requires
        keys_sorted(a),
        keys_sorted(b),
        key_determined(a),
        a.to_multiset() == b.to_multiset(),
    ensures
        a == b,
    decreases a.len(),
{
    assert(a.len() == a.to_multiset().len());
    assert(b.len() == b.to_multiset().len());
    if a.len() == 0 {
        assert(a =~= b);
    } else {
        let x = a.last();
        let y = b.last();
        assert(b.contains(y));
        assert(b.to_multiset().count(y) > 0);
        assert(a.contains(y));
        let k = choose|k: int| 0 <= k < a.len() && a[k] == y;
        assert(a.contains(x));
        assert(a.to_multiset().count(x) > 0);
        assert(b.contains(x));
        let m = choose|m: int| 0 <= m < b.len() && b[m] == x;
        if k < a.len() - 1 {
            assert(bytes_le(y.0, x.0));
        } else {
            lemma_bytes_le_reflexive(x.0);
        }
        if m < b.len() - 1 {
            assert(bytes_le(x.0, y.0));
        } else {
            lemma_bytes_le_reflexive(x.0);
        }
        lemma_bytes_le_antisymmetric(x.0, y.0);
        assert(a[k] == a[a.len() - 1]);
        lemma_multiset_remove_last(a);
        lemma_multiset_remove_last(b);
        lemma_sorted_unique(a.drop_last(), b.drop_last());
        assert(a =~= a.drop_last().push(x));
        assert(b =~= b.drop_last().push(y));
    }
}

/// The entries of `s` with key `k`, in their order in `s`.
pub open spec fn with_key(s: Seq<KeyedBytes>, k: Seq<u8>) -> Seq<KeyedBytes>
    decreases s.len(),
{
    if s.len() == 0 {
        s
    } else if s.last().0 == k {
        with_key(s.drop_last(), k).push(s.last())
    } else {
        with_key(s.drop_last(), k)
    }
}

proof fn lemma_insert_keeps_key_order(s: Seq<KeyedBytes>, x: KeyedBytes, k: Seq<u8>)
    ensures
        with_key(insert_by_key(s, x), k) == if x.0 == k {
            with_key(s, k).push(x)
        } else {
            with_key(s, k)
        },
    decreases s.len(),
{
    if s.len() == 0 {
        assert(seq![x].drop_last() =~= s);
        assert(seq![x].last() == x);
    } else if bytes_le(s.last().0, x.0) {
        assert(s.push(x).drop_last() =~= s);
    } else {
        let d = s.drop_last();
        let l = s.last();
        lemma_bytes_le_reflexive(x.0);
        lemma_insert_keeps_key_order(d, x, k);
        let t = insert_by_key(d, x);
        assert(t.push(l).drop_last() =~= t);
        if x.0 == k {
            assert(with_key(s, k) == with_key(d, k));
        }
    }
}

/// The stable sort keeps the order of the entries that share a key.
pub proof fn lemma_sort_by_key_stable(s: Seq<KeyedBytes>, k: Seq<u8>)
    ensures
        with_key(sort_by_key(s), k) == with_key(s, k),
    decreases s.len(),
{
    if s.len() > 0 {
        lemma_sort_by_key_stable(s.drop_last(), k);
        lemma_insert_keeps_key_order(sort_by_key(s.drop_last()), s.last(), k);
    }
}

/// An entry with key `k` stands in `s` wherever `with_key(s, k)` is not empty.
pub proof fn lemma_with_key_source(s: Seq<KeyedBytes>, k: Seq<u8>) -> (m: int)
    requires
        with_key(s, k).len() > 0,
    ensures
        0 <= m < s.len(),
        s[m].0 == k,
    decreases s.len(),
{
    if s.last().0 == k {
        (s.len() - 1) as int
    } else {
        lemma_with_key_source(s.drop_last(), k)
    }
}

proof fn lemma_last_key_kept(s: Seq<KeyedBytes>)
    requires
        s.len() > 0,
    ensures
        with_key(s, s.last().0).len() > 0,
        with_key(s, s.last().0).last() == s.last(),
        with_key(s, s.last().0).drop_last() == with_key(s.drop_last(), s.last().0),
{
    assert(with_key(s, s.last().0) == with_key(s.drop_last(), s.last().0).push(s.last()));
    assert(with_key(s.drop_last(), s.last().0).push(s.last()).drop_last() =~= with_key(
        s.drop_last(),
        s.last().0,
    ));
}

/// Two key-sorted sequences that hold, key by key, the same entries in the
/// same order are the same sequence.
pub proof fn lemma_sorted_by_key_order(a: Seq<KeyedBytes>, b: Seq<KeyedBytes>)
    requires
        keys_sorted(a),
        keys_sorted(b),
        forall|k: Seq<u8>| #[trigger] with_key(a, k) == with_key(b, k),
    ensures
        a == b,
    decreases a.len() + b.len(),
{
    if a.len() == 0 && b.len() == 0 {
        assert(a =~= b);
    } else if a.len() == 0 {
        lemma_last_key_kept(b);
        assert(with_key(a, b.last().0) == with_key(b, b.last().0));
    } else if b.len() == 0 {
        lemma_last_key_kept(a);
        assert(with_key(a, a.last().0) == with_key(b, a.last().0));
    } else {
        let x = a.last();
        let y = b.last();
        lemma_last_key_kept(a);
        lemma_last_key_kept(b);
        assert(with_key(a, x.0) == with_key(b, x.0));
        assert(with_key(a, y.0) == with_key(b, y.0));
        let m = lemma_with_key_source(b, x.0);
        if m < b.len() - 1 {
            assert(bytes_le(b[m].0, b[b.len() - 1].0));
        } else {
            lemma_bytes_le_reflexive(x.0);
        }
        let n = lemma_with_key_source(a, y.0);
        if n < a.len() - 1 {
            assert(bytes_le(a[n].0, a[a.len() - 1].0));
        } else {
            lemma_bytes_le_reflexive(y.0);
        }
        lemma_bytes_le_antisymmetric(x.0, y.0);
        assert(x == y);
        let da = a.drop_last();
        let db = b.drop_last();
        assert forall|k: Seq<u8>| #[trigger] with_key(da, k) == with_key(db, k) by {
            assert(with_key(a, k) == with_key(b, k));
            if k != x.0 {
                assert(with_key(a, k) == with_key(da, k));
                assert(with_key(b, k) == with_key(db, k));
            }
        }
        assert forall|i: int, j: int| 0 <= i < j < da.len() implies bytes_le(da[i].0, da[j].0) by {
            assert(da[i] == a[i] && da[j] == a[j]);
        }
        assert forall|i: int, j: int| 0 <= i < j < db.len() implies bytes_le(db[i].0, db[j].0) by {
            assert(db[i] == b[i] && db[j] == b[j]);
        }
        lemma_sorted_by_key_order(da, db);
        assert(a =~= da.push(x));
        assert(b =~= db.push(y));
    }
}

proof fn lemma_insert_swap(s: Seq<KeyedBytes>, x: KeyedBytes, y: KeyedBytes) -> (j: int)
    requires
        x.0 == y.0,
    ensures
        0 <= j < insert_by_key(s, x).len(),
        insert_by_key(s, x)[j] == x,
        insert_by_key(s, y) == insert_by_key(s, x).update(j, y),
    decreases s.len(),
{
    if s.len() == 0 {
        assert(insert_by_key(s, y) =~= insert_by_key(s, x).update(0, y));
        0
    } else if bytes_le(s.last().0, x.0) {
        assert(insert_by_key(s, y) =~= insert_by_key(s, x).update(s.len() as int, y));
        s.len() as int
    } else {
        let d = s.drop_last();
        let j = lemma_insert_swap(d, x, y);
        assert(insert_by_key(s, y) =~= insert_by_key(s, x).update(j, y));
        j
    }
}

proof fn lemma_insert_into_swapped(s: Seq<KeyedBytes>, j: int, y: KeyedBytes, z: KeyedBytes) -> (k: int)
    requires
        0 <= j < s.len(),
        s[j].0 == y.0,
    ensures
        0 <= k < insert_by_key(s, z).len(),
        insert_by_key(s, z)[k] == s[j],
        insert_by_key(s.update(j, y), z) == insert_by_key(s, z).update(k, y),
    decreases s.len(),
{
    let t = s.update(j, y);
    let d = s.drop_last();
    assert(t.last().0 == s.last().0);
    if bytes_le(s.last().0, z.0) {
        assert(insert_by_key(t, z) =~= insert_by_key(s, z).update(j, y));
        j
    } else if j == s.len() - 1 {
        assert(t.drop_last() =~= d);
        let k = insert_by_key(d, z).len() as int;
        assert(insert_by_key(t, z) =~= insert_by_key(s, z).update(k, y));
        k
    } else {
        assert(t.drop_last() =~= d.update(j, y));
        assert(d[j] == s[j]);
        let k = lemma_insert_into_swapped(d, j, y, z);
        assert(insert_by_key(t, z) =~= insert_by_key(s, z).update(k, y));
        k
    }
}

/// Replacing an entry by another with the same key replaces it, in place,
/// in the stable sort.
pub proof fn lemma_sort_swap(e: Seq<KeyedBytes>, i: int, y: KeyedBytes) -> (j: int)
    requires
        0 <= i < e.len(),
        e[i].0 == y.0,
    ensures
        0 <= j < sort_by_key(e).len(),
        sort_by_key(e)[j] == e[i],
        sort_by_key(e.update(i, y)) == sort_by_key(e).update(j, y),
    decreases e.len(),
{
    let d = e.drop_last();
    let f = e.update(i, y);
    if i == e.len() - 1 {
        assert(f.drop_last() =~= d);
        lemma_insert_swap(sort_by_key(d), e[i], y)
    } else {
        assert(f.drop_last() =~= d.update(i, y));
        assert(d[i] == e[i]);
        let j1 = lemma_sort_swap(d, i, y);
        lemma_insert_into_swapped(sort_by_key(d), j1, y, e.last())
    }
}

/// Applying `f` to two sequences with the same elements gives sequences
/// with the same elements.
pub proof fn lemma_map_keeps_multiset<A, B>(s1: Seq<A>, s2: Seq<A>, f: spec_fn(A) -> B)
    requires
        s1.to_multiset() == s2.to_multiset(),
    ensures
        s1.map_values(f).to_multiset() == s2.map_values(f).to_multiset(),
    decreases s1.len(),
{
    assert(s1.len() == s1.to_multiset().len());
    assert(s2.len() == s2.to_multiset().len());
    if s1.len() == 0 {
        assert(s1.map_values(f) =~= s2.map_values(f));
    } else {
        let x = s1.last();
        assert(s1.contains(x));
        assert(s1.to_multiset().count(x) > 0);
        assert(s2.contains(x));
        let k = choose|k: int| 0 <= k < s2.len() && s2[k] == x;
        let s2r = s2.remove(k);
        assert(s1 =~= s1.drop_last().push(x));
        assert(s1.drop_last().to_multiset() =~= s1.drop_last().to_multiset().insert(x).remove(x));
        assert(s2r.to_multiset() == s2.to_multiset().remove(x));
        lemma_map_keeps_multiset(s1.drop_last(), s2r, f);
        let m2 = s2.map_values(f);
        assert(m2.remove(k) =~= s2r.map_values(f));
        assert(m2.remove(k).to_multiset() == m2.to_multiset().remove(m2[k]));
        assert(m2.contains(m2[k]));
        assert(m2.to_multiset().count(f(x)) > 0);
        assert(s1.map_values(f) =~= s1.drop_last().map_values(f).push(f(x)));
        assert(s1.map_values(f).to_multiset() =~= m2.to_multiset());
    }
}

/// Bytes to be ordered by `key`.
pub struct SortEntry {
    pub key: Vec<u8>,
    pub payload: Vec<u8>,
}

pub open spec fn entry_view(e: SortEntry) -> KeyedBytes {
    (e.key@, e.payload@)
}

pub open spec fn entries_view(s: Seq<SortEntry>) -> Seq<KeyedBytes> {
    s.map_values(|e: SortEntry| entry_view(e))
}

proof fn lemma_insert_by_key_at(s: Seq<KeyedBytes>, x: KeyedBytes, j: int)
    requires
        0 <= j <= s.len(),
        forall|k: int| j <= k < s.len() ==> !bytes_le(#[trigger] s[k].0, x.0),
        j > 0 ==> bytes_le(s[j - 1].0, x.0),
    ensures
        insert_by_key(s, x) == s.insert(j, x),
    decreases s.len(),
{
    if s.len() == 0 {
        assert(s.insert(j, x) =~= seq![x]);
    } else if j == s.len() {
        assert(s.insert(j, x) =~= s.push(x));
    } else {
        assert(!bytes_le(s[s.len() - 1].0, x.0));
        lemma_insert_by_key_at(s.drop_last(), x, j);
        assert(s.drop_last().insert(j, x).push(s.last()) =~= s.insert(j, x));
    }
}

/// Sorts `v` stably by key.
pub fn sort_entries_by_key(v: Vec<SortEntry>) -> (r: Vec<SortEntry>)
    ensures
        entries_view(r@) == sort_by_key(entries_view(v@)),
{
    let ghost all = entries_view(v@);
    let mut rest = v;
    let mut r: Vec<SortEntry> = Vec::new();
    let ghost mut done: int = 0;
    assert(all.take(0) =~= Seq::<KeyedBytes>::empty());
    assert(entries_view(rest@) =~= all.skip(0));
    while rest.len() > 0
        invariant
            0 <= done <= all.len(),
            entries_view(rest@) == all.skip(done),
            entries_view(r@) == sort_by_key(all.take(done)),
        decreases rest.len(),
    {
        let ghost old_rest = rest@;
        assert(entries_view(old_rest).len() == all.skip(done).len());
        assert(entries_view(old_rest)[0] == all.skip(done)[0]);
        let x = rest.remove(0);
        proof {
            assert(entry_view(x) == all[done]);
            assert forall|k: int| 0 <= k < entries_view(rest@).len() implies entries_view(rest@)[k]
                == all.skip(done + 1)[k] by {
                assert(rest@[k] == old_rest[k + 1]);
                assert(entries_view(old_rest)[k + 1] == all.skip(done)[k + 1]);
            }
            assert(entries_view(rest@) =~= all.skip(done + 1));
            lemma_sort_by_key(all.take(done));
        }
        let mut j: usize = r.len();
        while j > 0 && !bytes_le_exec(r[j - 1].key.as_slice(), x.key.as_slice())
            invariant
                j <= r@.len(),
                entries_view(r@) == sort_by_key(all.take(done)),
                forall|k: int| j <= k < r@.len() ==> !bytes_le(#[trigger] r@[k].key@, x.key@),
            decreases j,
        {
            j = j - 1;
        }
        let ghost before = entries_view(r@);
        proof {
            lemma_insert_by_key_at(before, entry_view(x), j as int);
        }
        r.insert(j, x);
        proof {
            assert(entries_view(r@) =~= before.insert(j as int, entry_view(x)));
            assert(all.take(done + 1).drop_last() =~= all.take(done));
            done = done + 1;
        }
    }
    assert(all.take(done) =~= all);
    r
}

} // verus!
