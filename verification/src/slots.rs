//! The buffer slot table: the distinct buffer sizes requested across all
//! layers, sorted ascending, each assigned a stable zero-based slot.

use vstd::prelude::*;

verus! {

/// Every element is strictly smaller than the ones after it: sorted, and
/// free of duplicates.
pub open spec fn strictly_sorted(s: Seq<i64>) -> bool {
    forall|i: int, j: int| 0 <= i < j < s.len() ==> s[i] < s[j]
}

/// `s` (assumed strictly sorted) with `v` placed at its sorted position,
/// unless already present.
pub open spec fn insert_distinct(s: Seq<i64>, v: i64) -> Seq<i64>
    decreases s.len(),
{
    if s.len() == 0 {
        seq![v]
    } else if v > s.last() {
        s.push(v)
    } else if v == s.last() {
        s
    } else {
        insert_distinct(s.drop_last(), v).push(s.last())
    }
}

/// The strictly ascending enumeration of the values occurring in `s`.
pub open spec fn sorted_distinct(s: Seq<i64>) -> Seq<i64>
    decreases s.len(),
{
    if s.len() == 0 {
        Seq::empty()
    } else {
        insert_distinct(sorted_distinct(s.drop_last()), s.last())
    }
}

/// Inserting keeps the table strictly sorted and adds exactly the new value
/// to the values present.
pub proof fn lemma_insert_distinct(s: Seq<i64>, v: i64)
    requires
        strictly_sorted(s),
    ensures
        strictly_sorted(insert_distinct(s, v)),
        forall|x: i64| insert_distinct(s, v).contains(x) <==> (s.contains(x) || x == v),
        s.len() <= insert_distinct(s, v).len() <= s.len() + 1,
    decreases s.len(),
{
    let r = insert_distinct(s, v);
    if s.len() == 0 {
        assert forall|x: i64| r.contains(x) <==> (s.contains(x) || x == v) by {
            if r.contains(x) {
                assert(x == r[0]);
            }
            if x == v {
                assert(r[0] == x);
                assert(r.contains(x));
            }
        }
    } else if v > s.last() {
        assert forall|i: int, j: int| 0 <= i < j < r.len() implies r[i] < r[j] by {
            if j == r.len() - 1 {
                if i < s.len() - 1 {
                    assert(s[i] < s[s.len() - 1]);
                }
            }
        }
        assert forall|x: i64| r.contains(x) <==> (s.contains(x) || x == v) by {
            if r.contains(x) {
                let k = choose|k: int| 0 <= k < r.len() && r[k] == x;
                if k < s.len() {
                    assert(s.contains(x));
                }
            }
            if s.contains(x) {
                let k = choose|k: int| 0 <= k < s.len() && s[k] == x;
                assert(r[k] == x);
                assert(r.contains(x));
            }
            if x == v {
                assert(r[s.len() as int] == x);
                assert(r.contains(x));
            }
        }
    } else if v == s.last() {
        assert forall|x: i64| r.contains(x) <==> (s.contains(x) || x == v) by {
            if x == v {
                assert(s[s.len() - 1] == x);
                assert(s.contains(x));
            }
        }
    } else {
        let d = s.drop_last();
        assert(strictly_sorted(d));
        lemma_insert_distinct(d, v);
        let t = insert_distinct(d, v);
        assert(r == t.push(s.last()));
        assert forall|i: int| 0 <= i < t.len() implies t[i] < s.last() by {
            assert(t.contains(t[i]));
            if d.contains(t[i]) {
                let k = choose|k: int| 0 <= k < d.len() && d[k] == t[i];
                assert(s[k] < s[s.len() - 1]);
            }
        }
        assert forall|i: int, j: int| 0 <= i < j < r.len() implies r[i] < r[j] by {
            if j == r.len() - 1 {
                assert(r[i] == t[i]);
            }
        }
        assert forall|x: i64| r.contains(x) <==> (s.contains(x) || x == v) by {
            if r.contains(x) {
                let k = choose|k: int| 0 <= k < r.len() && r[k] == x;
                if k < t.len() {
                    assert(t[k] == x);
                    assert(t.contains(x));
                    if d.contains(x) {
                        let k2 = choose|k2: int| 0 <= k2 < d.len() && d[k2] == x;
                        assert(s[k2] == x);
                        assert(s.contains(x));
                    }
                } else {
                    assert(x == s.last());
                    assert(s.contains(x));
                }
            }
            if s.contains(x) {
                let k = choose|k: int| 0 <= k < s.len() && s[k] == x;
                if k < s.len() - 1 {
                    assert(d[k] == x);
                    assert(d.contains(x));
                    assert(t.contains(x));
                    let k2 = choose|k2: int| 0 <= k2 < t.len() && t[k2] == x;
                    assert(r[k2] == x);
                    assert(r.contains(x));
                } else {
                    assert(r[r.len() - 1] == x);
                    assert(r.contains(x));
                }
            }
            if x == v {
                assert(insert_distinct(d, v).contains(x));
                let k2 = choose|k2: int| 0 <= k2 < t.len() && t[k2] == x;
                assert(r[k2] == x);
                assert(r.contains(x));
            }
        }
    }
}

/// The slot table is strictly sorted, mentions exactly the values of `s`,
/// and is no longer than `s`.
pub proof fn lemma_sorted_distinct(s: Seq<i64>)
    ensures
        strictly_sorted(sorted_distinct(s)),
        forall|x: i64| sorted_distinct(s).contains(x) <==> s.contains(x),
        sorted_distinct(s).len() <= s.len(),
    decreases s.len(),
{
    let r = sorted_distinct(s);
    if s.len() > 0 {
        let d = s.drop_last();
        lemma_sorted_distinct(d);
        lemma_insert_distinct(sorted_distinct(d), s.last());
        let sd = sorted_distinct(d);
        assert(r == insert_distinct(sd, s.last()));
        assert forall|x: i64| r.contains(x) <==> s.contains(x) by {
            if r.contains(x) {
                assert(insert_distinct(sd, s.last()).contains(x));
                assert(sd.contains(x) || x == s.last());
                assert(d.contains(x) || x == s.last());
                if d.contains(x) {
                    let k = choose|k: int| 0 <= k < d.len() && d[k] == x;
                    assert(s[k] == x);
                    assert(s.contains(x));
                } else {
                    assert(s[s.len() - 1] == x);
                    assert(s.contains(x));
                }
            }
            if s.contains(x) {
                let k = choose|k: int| 0 <= k < s.len() && s[k] == x;
                if k < s.len() - 1 {
                    assert(d[k] == x);
                    assert(d.contains(x));
                    assert(sd.contains(x));
                } else {
                    assert(x == s.last());
                }
                assert(insert_distinct(sd, s.last()).contains(x));
                assert(r.contains(x));
            }
        }
    }
}

/// Two strictly sorted sequences mentioning the same values are equal: the
/// slot table is unique, whatever order the values were collected in.
pub proof fn lemma_strictly_sorted_unique(a: Seq<i64>, b: Seq<i64>)
    requires
        strictly_sorted(a),
        strictly_sorted(b),
        forall|x: i64| a.contains(x) <==> b.contains(x),
    ensures
        a == b,
    decreases a.len(),
{
    if a.len() == 0 {
        if b.len() > 0 {
            assert(b.contains(b[0]));
        }
        assert(a =~= b);
    } else {
        assert(a.contains(a.last()));
        assert(b.len() > 0) by {
            assert(b.contains(a.last()));
        }
        assert(a.last() == b.last()) by {
            assert(b.contains(a.last()));
            let k = choose|k: int| 0 <= k < b.len() && b[k] == a.last();
            if k < b.len() - 1 {
                assert(b[k] < b.last());
            }
            assert(a.last() <= b.last());
            assert(a.contains(b.last()));
            let k2 = choose|k2: int| 0 <= k2 < a.len() && a[k2] == b.last();
            if k2 < a.len() - 1 {
                assert(a[k2] < a.last());
            }
            assert(b.last() <= a.last());
        }
        let ad = a.drop_last();
        let bd = b.drop_last();
        assert forall|x: i64| ad.contains(x) <==> bd.contains(x) by {
            if ad.contains(x) {
                let k = choose|k: int| 0 <= k < ad.len() && ad[k] == x;
                assert(a[k] == x);
                assert(a[k] < a.last());
                assert(a.contains(x));
                assert(b.contains(x));
                let k2 = choose|k2: int| 0 <= k2 < b.len() && b[k2] == x;
                assert(k2 < b.len() - 1) by {
                    if k2 == b.len() - 1 {
                        assert(x == b.last());
                    }
                }
                assert(bd[k2] == x);
                assert(bd.contains(x));
            }
            if bd.contains(x) {
                let k = choose|k: int| 0 <= k < bd.len() && bd[k] == x;
                assert(b[k] == x);
                assert(b[k] < b.last());
                assert(b.contains(x));
                assert(a.contains(x));
                let k2 = choose|k2: int| 0 <= k2 < a.len() && a[k2] == x;
                assert(k2 < a.len() - 1) by {
                    if k2 == a.len() - 1 {
                        assert(x == a.last());
                    }
                }
                assert(ad[k2] == x);
                assert(ad.contains(x));
            }
        }
        assert(strictly_sorted(ad));
        assert(strictly_sorted(bd));
        lemma_strictly_sorted_unique(ad, bd);
        assert(a.len() == b.len());
        assert forall|i: int| 0 <= i < a.len() implies a[i] == b[i] by {
            if i < a.len() - 1 {
                assert(a[i] == ad[i]);
                assert(b[i] == bd[i]);
                assert(ad[i] == bd[i]);
            }
        }
        assert(a =~= b);
    }
}

/// The zero-based slot of the first occurrence of `v` in `s`.
pub open spec fn slot_index(s: Seq<i64>, v: i64) -> int
    decreases s.len(),
{
    if s.len() == 0 {
        0
    } else if s[0] == v {
        0
    } else {
        1 + slot_index(s.skip(1), v)
    }
}

proof fn lemma_slot_index_at(s: Seq<i64>, v: i64, i: int)
    requires
        0 <= i < s.len(),
        s[i] == v,
        forall|k: int| 0 <= k < i ==> s[k] != v,
    ensures
        slot_index(s, v) == i,
    decreases s.len(),
{
    if s[0] != v {
        lemma_slot_index_at(s.skip(1), v, i - 1);
    }
}

proof fn lemma_insert_sorted_at(s: Seq<i64>, v: i64, k: int)
    requires
        strictly_sorted(s),
        0 <= k <= s.len(),
        forall|i: int| k <= i < s.len() ==> s[i] > v,
        k > 0 ==> s[k - 1] < v,
    ensures
        insert_distinct(s, v) == s.take(k) + seq![v] + s.skip(k),
    decreases s.len(),
{
    let r = s.take(k) + seq![v] + s.skip(k);
    if k == s.len() {
        if s.len() == 0 {
            assert(insert_distinct(s, v) =~= r);
        } else {
            assert(v > s.last());
            assert(insert_distinct(s, v) =~= r);
        }
    } else {
        assert(s.last() > v);
        lemma_insert_sorted_at(s.drop_last(), v, k);
        assert(insert_distinct(s, v) == (s.drop_last().take(k) + seq![v] + s.drop_last().skip(k))
            .push(s.last()));
        assert(s.drop_last().take(k) =~= s.take(k));
        assert((s.drop_last().take(k) + seq![v] + s.drop_last().skip(k)).push(s.last()) =~= r);
    }
}

proof fn lemma_insert_present(s: Seq<i64>, v: i64, k: int)
    requires
        strictly_sorted(s),
        0 <= k < s.len(),
        s[k] == v,
        forall|i: int| k < i < s.len() ==> s[i] > v,
    ensures
        insert_distinct(s, v) == s,
    decreases s.len(),
{
    if k == s.len() - 1 {
        assert(v == s.last());
    } else {
        assert(s.last() > v);
        lemma_insert_present(s.drop_last(), v, k);
        assert(s.drop_last().push(s.last()) =~= s);
    }
}

/// Places `v` into the strictly sorted table `r`, unless already present.
pub fn insert_slot(r: &mut Vec<i64>, v: i64)
    requires
        strictly_sorted(old(r)@),
    ensures
        final(r)@ == insert_distinct(old(r)@, v),
{
    let mut k = r.len();
    while k > 0 && r[k - 1] > v
        invariant
            k <= r.len(),
            r@ == old(r)@,
            forall|i: int| k <= i < r@.len() ==> r@[i] > v,
        decreases k,
    {
        k -= 1;
    }
    if k > 0 && r[k - 1] == v {
        proof {
            lemma_insert_present(r@, v, k - 1);
        }
    } else {
        proof {
            lemma_insert_sorted_at(r@, v, k as int);
        }
        r.insert(k, v);
        proof {
            assert(old(r)@.insert(k as int, v) =~= old(r)@.take(k as int) + seq![v] + old(
                r,
            )@.skip(k as int));
        }
    }
}

/// Finds the slot assigned to `v`.
pub fn slot_of(slots: &Vec<i64>, v: i64) -> (idx: usize)
    requires
        slots@.contains(v),
    ensures
        idx as int == slot_index(slots@, v),
        idx < slots@.len(),
        slots@[idx as int] == v,
{
    let n = slots.len();
    let mut i: usize = 0;
    while i < n
        invariant
            n == slots@.len(),
            i <= n,
            slots@.contains(v),
            forall|k: int| 0 <= k < i ==> slots@[k] != v,
        decreases n - i,
    {
        if slots[i] == v {
            proof {
                lemma_slot_index_at(slots@, v, i as int);
            }
            return i;
        }
        i += 1;
    }
    proof {
        let k = choose|k: int| 0 <= k < slots@.len() && slots@[k] == v;
        assert(false);
    }
    0
}

} // verus!
