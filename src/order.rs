use vstd::prelude::*;

verus! {

/// Lexicographic order on names, comparing characters by code point.
pub open spec fn name_le(a: Seq<char>, b: Seq<char>) -> bool
    decreases a.len(),
{
    if a.len() == 0 {
        true
    } else if b.len() == 0 {
        false
    } else if (a[0] as u32) != (b[0] as u32) {
        (a[0] as u32) < (b[0] as u32)
    } else {
        name_le(a.drop_first(), b.drop_first())
    }
}

/// Any two names are ordered one way or the other.
pub proof fn lemma_name_le_total(a: Seq<char>, b: Seq<char>)
    ensures
        name_le(a, b) || name_le(b, a),
    decreases a.len(),
{
    if a.len() > 0 && b.len() > 0 && (a[0] as u32) == (b[0] as u32) {
        lemma_name_le_total(a.drop_first(), b.drop_first());
    }
}

/// The order on names is transitive.
pub proof fn lemma_name_le_trans(a: Seq<char>, b: Seq<char>, c: Seq<char>)
    requires
        name_le(a, b),
        name_le(b, c),
    ensures
        name_le(a, c),
    decreases a.len(),
{
    if a.len() > 0 && b.len() > 0 && c.len() > 0 && (a[0] as u32) == (b[0] as u32) && (b[0] as u32) == (c[0] as u32) {
        lemma_name_le_trans(a.drop_first(), b.drop_first(), c.drop_first());
    }
}

/// Whether name `a` comes no later than name `b`.
pub fn le_names(a: &str, b: &str) -> (r: bool)
    ensures
        r == name_le(a@, b@),
{
    let n = a.unicode_len();
    let m = b.unicode_len();
    let mut i: usize = 0;
    assert(a@.subrange(0, n as int) =~= a@);
    assert(b@.subrange(0, m as int) =~= b@);
    while i < n && i < m
        invariant
            n == a@.len(),
            m == b@.len(),
            i <= n,
            i <= m,
            name_le(a@, b@) == name_le(a@.subrange(i as int, n as int), b@.subrange(i as int, m as int)),
        decreases n - i,
    {
        let x = a.get_char(i);
        let y = b.get_char(i);
        let ghost s = a@.subrange(i as int, n as int);
        let ghost t = b@.subrange(i as int, m as int);
        assert(s[0] == x && t[0] == y);
        if (x as u32) != (y as u32) {
            return (x as u32) < (y as u32);
        }
        assert(s.drop_first() =~= a@.subrange(i + 1, n as int));
        assert(t.drop_first() =~= b@.subrange(i + 1, m as int));
        i = i + 1;
    }
    i == n
}

/// The positions of `names`, ordered so that the names they select are sorted; equal
/// names keep their relative order.
pub fn order_by_name(names: &Vec<String>) -> (idx: Vec<usize>)
    ensures
        idx@.len() == names@.len(),
        idx@.no_duplicates(),
        forall|k: int| 0 <= k < idx@.len() ==> #[trigger] idx@[k] < names@.len(),
        forall|j: usize| j < names@.len() ==> #[trigger] idx@.contains(j),
        forall|i: int, j: int| 0 <= i < j < idx@.len() ==> name_le(names@[idx@[i] as int]@, names@[idx@[j] as int]@),
{
    let mut idx: Vec<usize> = Vec::new();
    let mut i: usize = 0;
    while i < names.len()
        invariant
            i <= names@.len(),
            idx@.len() == i,
            idx@.no_duplicates(),
            forall|k: int| 0 <= k < idx@.len() ==> #[trigger] idx@[k] < i,
            forall|j: usize| j < i ==> #[trigger] idx@.contains(j),
            forall|x: int, y: int| 0 <= x < y < idx@.len() ==> name_le(names@[idx@[x] as int]@, names@[idx@[y] as int]@),
        decreases names@.len() - i,
    {
        let mut p: usize = 0;
        while p < idx.len() && le_names(names[idx[p]].as_str(), names[i].as_str())
            invariant
                i < names@.len(),
                p <= idx@.len(),
                forall|k: int| 0 <= k < idx@.len() ==> #[trigger] idx@[k] < i,
                forall|k: int| 0 <= k < p ==> name_le(names@[idx@[k] as int]@, names@[i as int]@),
            decreases idx@.len() - p,
        {
            p = p + 1;
        }
        let ghost before = idx@;
        let ghost x = names@[i as int]@;
        proof {
            if p < before.len() {
                lemma_name_le_total(names@[before[p as int] as int]@, x);
            }
            assert forall|k: int| p <= k < before.len() implies name_le(x, names@[before[k] as int]@) by {
                if k > p {
                    lemma_name_le_trans(x, names@[before[p as int] as int]@, names@[before[k] as int]@);
                }
            }
        }
        idx.insert(p, i);
        proof {
            assert(idx@[p as int] == i);
            assert forall|j: usize| j < i + 1 implies #[trigger] idx@.contains(j) by {
                if j < i {
                    assert(before.contains(j));
                    let k = choose|k: int| 0 <= k < before.len() && before[k] == j;
                    if k < p {
                        assert(idx@[k] == j);
                    } else {
                        assert(idx@[k + 1] == j);
                    }
                }
            }
            assert forall|k: int| 0 <= k < idx@.len() implies #[trigger] idx@[k] < i + 1 by {
                if k < p {
                    assert(idx@[k] == before[k]);
                } else if k > p {
                    assert(idx@[k] == before[k - 1]);
                }
            }
            assert forall|a: int, b: int| 0 <= a < b < idx@.len() implies name_le(names@[idx@[a] as int]@, names@[idx@[b] as int]@) by {
                if a < p && b < p {
                    assert(idx@[a] == before[a] && idx@[b] == before[b]);
                } else if a < p && b == p {
                    assert(idx@[a] == before[a]);
                } else if a < p {
                    assert(idx@[a] == before[a] && idx@[b] == before[b - 1]);
                    lemma_name_le_trans(names@[before[a] as int]@, x, names@[before[b - 1] as int]@);
                } else if a == p {
                    assert(idx@[b] == before[b - 1]);
                } else {
                    assert(idx@[a] == before[a - 1] && idx@[b] == before[b - 1]);
                }
            }
            assert forall|a: int, b: int| 0 <= a < idx@.len() && 0 <= b < idx@.len() && a != b implies idx@[a] != idx@[b] by {
                let sa = if a < p { a } else if a == p { -1 } else { a - 1 };
                let sb = if b < p { b } else if b == p { -1 } else { b - 1 };
                if sa >= 0 && sb >= 0 {
                    assert(idx@[a] == before[sa] && idx@[b] == before[sb]);
                } else if sa >= 0 {
                    assert(idx@[a] == before[sa]);
                } else if sb >= 0 {
                    assert(idx@[b] == before[sb]);
                }
            }
        }
        i = i + 1;
    }
    idx
}

/// Position `i` comes before position `j` when ordering by instant: an earlier instant
/// first, and for equal instants the earlier position first.
pub open spec fn earlier(keys: Seq<i64>, i: int, j: int) -> bool {
    keys[i] < keys[j] || (keys[i] == keys[j] && i < j)
}

/// `idx` lists every position of `keys` once, ordered by `earlier`.
pub open spec fn orders_by_instant(keys: Seq<i64>, idx: Seq<usize>) -> bool {
    &&& idx.len() == keys.len()
    &&& idx.no_duplicates()
    &&& forall|k: int| 0 <= k < idx.len() ==> #[trigger] idx[k] < keys.len()
    &&& forall|j: usize| j < keys.len() ==> #[trigger] idx.contains(j)
    &&& forall|a: int, b: int| 0 <= a < b < idx.len() ==> earlier(keys, idx[a] as int, idx[b] as int)
}

/// The positions of `keys`, earliest instant first; equal instants keep their order.
pub fn order_by_instant(keys: &Vec<i64>) -> (idx: Vec<usize>)
    ensures
        orders_by_instant(keys@, idx@),
{
    let mut idx: Vec<usize> = Vec::new();
    let mut i: usize = 0;
    while i < keys.len()
        invariant
            i <= keys@.len(),
            idx@.len() == i,
            idx@.no_duplicates(),
            forall|k: int| 0 <= k < idx@.len() ==> #[trigger] idx@[k] < i,
            forall|j: usize| j < i ==> #[trigger] idx@.contains(j),
            forall|a: int, b: int| 0 <= a < b < idx@.len() ==> earlier(keys@, idx@[a] as int, idx@[b] as int),
        decreases keys@.len() - i,
    {
        let mut p: usize = 0;
        while p < idx.len() && keys[idx[p]] <= keys[i]
            invariant
                i < keys@.len(),
                p <= idx@.len(),
                forall|k: int| 0 <= k < idx@.len() ==> #[trigger] idx@[k] < i,
                forall|k: int| 0 <= k < p ==> keys@[idx@[k] as int] <= keys@[i as int],
            decreases idx@.len() - p,
        {
            p = p + 1;
        }
        let ghost before = idx@;
        idx.insert(p, i);
        proof {
            assert(idx@[p as int] == i);
            assert forall|j: usize| j < i + 1 implies #[trigger] idx@.contains(j) by {
                if j < i {
                    assert(before.contains(j));
                    let k = choose|k: int| 0 <= k < before.len() && before[k] == j;
                    if k < p {
                        assert(idx@[k] == j);
                    } else {
                        assert(idx@[k + 1] == j);
                    }
                }
            }
            assert forall|k: int| 0 <= k < idx@.len() implies #[trigger] idx@[k] < i + 1 by {
                if k < p {
                    assert(idx@[k] == before[k]);
                } else if k > p {
                    assert(idx@[k] == before[k - 1]);
                }
            }
            assert forall|a: int, b: int| 0 <= a < b < idx@.len() implies earlier(keys@, idx@[a] as int, idx@[b] as int) by {
                if a < p && b < p {
                    assert(idx@[a] == before[a] && idx@[b] == before[b]);
                } else if a < p && b == p {
                    assert(idx@[a] == before[a]);
                } else if a < p {
                    assert(idx@[a] == before[a] && idx@[b] == before[b - 1]);
                    assert(earlier(keys@, before[p as int] as int, before[b - 1] as int) || b - 1 == p);
                } else if a == p {
                    assert(idx@[b] == before[b - 1]);
                    assert(earlier(keys@, before[p as int] as int, before[b - 1] as int) || b - 1 == p);
                } else {
                    assert(idx@[a] == before[a - 1] && idx@[b] == before[b - 1]);
                }
            }
            assert forall|a: int, b: int| 0 <= a < idx@.len() && 0 <= b < idx@.len() && a != b implies idx@[a] != idx@[b] by {
                let sa = if a < p { a } else if a == p { -1 } else { a - 1 };
                let sb = if b < p { b } else if b == p { -1 } else { b - 1 };
                if sa >= 0 && sb >= 0 {
                    assert(idx@[a] == before[sa] && idx@[b] == before[sb]);
                } else if sa >= 0 {
                    assert(idx@[a] == before[sa]);
                } else if sb >= 0 {
                    assert(idx@[b] == before[sb]);
                }
            }
        }
        i = i + 1;
    }
    idx
}

} // verus!
