//! Selection of the key at a given rank, without sorting the whole sequence.
use vstd::prelude::*;

verus! {

/// How many keys of `s` lie below `v`.
pub open spec fn count_below(s: Seq<u32>, v: u32) -> nat
    decreases s.len(),
{
    if s.len() == 0 {
        0
    } else {
        count_below(s.drop_last(), v) + if s.last() < v {
            1nat
        } else {
            0nat
        }
    }
}

/// How many keys of `s` lie at or below `v`.
pub open spec fn count_at_most(s: Seq<u32>, v: u32) -> nat
    decreases s.len(),
{
    if s.len() == 0 {
        0
    } else {
        count_at_most(s.drop_last(), v) + if s.last() <= v {
            1nat
        } else {
            0nat
        }
    }
}

/// Whether `v` is the key at rank `rank` of `s`: with the keys in ascending
/// order, counted from 0, position `rank` holds `v`. That is, at most `rank`
/// keys lie below `v` and more than `rank` keys lie at or below it.
pub open spec fn holds_rank(s: Seq<u32>, rank: nat, v: u32) -> bool {
    count_below(s, v) <= rank < count_at_most(s, v)
}

proof fn lemma_count_push(s: Seq<u32>, x: u32, v: u32)
    ensures
        count_below(s.push(x), v) == count_below(s, v) + if x < v {
            1nat
        } else {
            0nat
        },
        count_at_most(s.push(x), v) == count_at_most(s, v) + if x <= v {
            1nat
        } else {
            0nat
        },
{
    assert(s.push(x).drop_last() =~= s);
}

/// What the counts are where every key lies on one side of `v`, and that
/// neither count exceeds the length.
proof fn lemma_count_one_sided(s: Seq<u32>, v: u32)
    ensures
        count_below(s, v) <= count_at_most(s, v) <= s.len(),
        (forall|i: int| 0 <= i < s.len() ==> s[i] < v) ==> count_below(s, v) == s.len(),
        (forall|i: int| 0 <= i < s.len() ==> s[i] <= v) ==> count_at_most(s, v) == s.len(),
        (forall|i: int| 0 <= i < s.len() ==> s[i] >= v) ==> count_below(s, v) == 0,
        (forall|i: int| 0 <= i < s.len() ==> s[i] > v) ==> count_at_most(s, v) == 0,
    decreases s.len(),
{
    if s.len() > 0 {
        let t = s.drop_last();
        lemma_count_one_sided(t, v);
        assert(forall|i: int| 0 <= i < t.len() ==> t[i] == s[i]);
    }
}

/// Every key at or below `v` lies below any `w` above `v`.
proof fn lemma_count_steps(s: Seq<u32>, v: u32, w: u32)
    requires
        v < w,
    ensures
        count_at_most(s, v) <= count_below(s, w),
    decreases s.len(),
{
    if s.len() > 0 {
        lemma_count_steps(s.drop_last(), v, w);
    }
}

/// More keys lie at or below `v` than below it only if `v` is among them.
proof fn lemma_count_gap_is_member(s: Seq<u32>, v: u32)
    requires
        count_below(s, v) < count_at_most(s, v),
    ensures
        s.contains(v),
    decreases s.len(),
{
    if s.len() > 0 {
        if s.last() == v {
            assert(s[s.len() - 1] == v);
        } else {
            let t = s.drop_last();
            lemma_count_gap_is_member(t, v);
            let i = choose|i: int| 0 <= i < t.len() && t[i] == v;
            assert(s[i] == v);
        }
    }
}

/// At most one key holds a given rank.
pub proof fn lemma_rank_is_unique(s: Seq<u32>, rank: nat, v: u32, w: u32)
    requires
        holds_rank(s, rank, v),
        holds_rank(s, rank, w),
    ensures
        v == w,
{
    if v < w {
        lemma_count_steps(s, v, w);
    }
    if w < v {
        lemma_count_steps(s, w, v);
    }
}

/// The key that holds a rank is one of the keys, and the rank is an index.
pub proof fn lemma_rank_holder_is_member(s: Seq<u32>, rank: nat, v: u32)
    requires
        holds_rank(s, rank, v),
    ensures
        s.contains(v),
        rank < s.len(),
{
    lemma_count_gap_is_member(s, v);
    lemma_count_one_sided(s, v);
}

/// In a sequence in ascending order, each position holds the key of that rank.
pub proof fn lemma_sorted_position_holds_rank(s: Seq<u32>, k: int)
    requires
        forall|i: int, j: int| 0 <= i <= j < s.len() ==> s[i] <= s[j],
        0 <= k < s.len(),
    ensures
        holds_rank(s, k as nat, s[k]),
{
    let v = s[k];
    let head = s.subrange(0, k);
    let tail = s.subrange(k, s.len() as int);
    assert(s =~= head + tail);
    lemma_count_concat(head, tail, v);
    lemma_count_one_sided(head, v);
    lemma_count_one_sided(tail, v);
    // the head lies at or below v, the tail at or above it, and the tail starts with v
    assert(forall|i: int| 0 <= i < head.len() ==> head[i] == s[i]);
    assert(forall|i: int| 0 <= i < tail.len() ==> tail[i] == s[k + i]);
    let rest = tail.subrange(1, tail.len() as int);
    assert(tail =~= seq![v] + rest);
    lemma_count_concat(seq![v], rest, v);
    assert(seq![v].drop_last() =~= Seq::<u32>::empty());
    assert(count_at_most(seq![v], v) == 1) by {
        assert(seq![v].last() == v);
        assert(count_at_most(Seq::<u32>::empty(), v) == 0);
    }
}

/// Counting over a concatenation adds the counts of its parts.
proof fn lemma_count_concat(a: Seq<u32>, b: Seq<u32>, v: u32)
    ensures
        count_below(a + b, v) == count_below(a, v) + count_below(b, v),
        count_at_most(a + b, v) == count_at_most(a, v) + count_at_most(b, v),
    decreases b.len(),
{
    if b.len() == 0 {
        assert(a + b =~= a);
    } else {
        lemma_count_concat(a, b.drop_last(), v);
        assert((a + b).drop_last() =~= a + b.drop_last());
    }
}

/// Taking one key out lowers each count by what that key added to it.
proof fn lemma_count_remove(s: Seq<u32>, j: int, v: u32)
    requires
        0 <= j < s.len(),
    ensures
        count_below(s, v) == count_below(s.remove(j), v) + if s[j] < v {
            1nat
        } else {
            0nat
        },
        count_at_most(s, v) == count_at_most(s.remove(j), v) + if s[j] <= v {
            1nat
        } else {
            0nat
        },
{
    let head = s.subrange(0, j);
    let tail = s.subrange(j + 1, s.len() as int);
    assert(s =~= head.push(s[j]) + tail);
    assert(s.remove(j) =~= head + tail);
    lemma_count_push(head, s[j], v);
    lemma_count_concat(head.push(s[j]), tail, v);
    lemma_count_concat(head, tail, v);
}

/// The counts depend on the keys only, not on their order.
proof fn lemma_count_of_rearrangement(s: Seq<u32>, t: Seq<u32>, v: u32)
    requires
        s.to_multiset() == t.to_multiset(),
    ensures
        count_below(s, v) == count_below(t, v),
        count_at_most(s, v) == count_at_most(t, v),
    decreases s.len(),
{
    s.to_multiset_ensures();
    t.to_multiset_ensures();
    if s.len() > 0 {
        let x = s.last();
        let head = s.drop_last();
        assert(s =~= head.push(x));
        assert(s.contains(x)) by {
            assert(s[s.len() - 1] == x);
        }
        assert(s.to_multiset().count(x) > 0);
        assert(t.to_multiset().count(x) > 0);
        assert(t.contains(x));
        let j = choose|j: int| 0 <= j < t.len() && t[j] == x;
        let rest = t.remove(j);
        head.to_multiset_ensures();
        assert(head.to_multiset() =~= s.to_multiset().remove(x)) by {
            assert(s.to_multiset() =~= head.to_multiset().insert(x));
        }
        assert(rest.to_multiset() =~= t.to_multiset().remove(x));
        lemma_count_of_rearrangement(head, rest, v);
        lemma_count_remove(t, j, v);
    }
}

/// The key that holds rank `k` is the key at position `k` of the keys put in
/// ascending order.
pub proof fn lemma_rank_is_sorted_position(s: Seq<u32>, sorted: Seq<u32>, k: nat)
    requires
        sorted.to_multiset() == s.to_multiset(),
        forall|i: int, j: int| 0 <= i <= j < sorted.len() ==> sorted[i] <= sorted[j],
        k < s.len(),
    ensures
        holds_rank(s, k, sorted[k as int]),
        forall|v: u32| #[trigger] holds_rank(s, k, v) ==> v == sorted[k as int],
{
    s.to_multiset_ensures();
    sorted.to_multiset_ensures();
    lemma_sorted_position_holds_rank(sorted, k as int);
    lemma_count_of_rearrangement(s, sorted, sorted[k as int]);
    assert forall|v: u32| #[trigger] holds_rank(s, k, v) implies v == sorted[k as int] by {
        lemma_rank_is_unique(s, k, v, sorted[k as int]);
    }
}

/// The keys of `pool` below and above `pivot`, each group in its order in
/// `pool`, and the number of keys equal to `pivot`.
fn split_at_pivot(pool: &Vec<u32>, pivot: u32) -> (parts: (Vec<u32>, usize, Vec<u32>))
    ensures
        parts.0.len() + parts.1 + parts.2.len() == pool.len(),
        forall|i: int| 0 <= i < parts.0.len() ==> parts.0[i] < pivot,
        forall|i: int| 0 <= i < parts.2.len() ==> parts.2[i] > pivot,
        pool@.contains(pivot) ==> parts.1 >= 1,
        forall|v: u32|
            #![trigger count_below(pool@, v)]
            count_below(pool@, v) == count_below(parts.0@, v) + count_below(parts.2@, v) + if pivot
                < v {
                parts.1 as nat
            } else {
                0nat
            },
        forall|v: u32|
            #![trigger count_at_most(pool@, v)]
            count_at_most(pool@, v) == count_at_most(parts.0@, v) + count_at_most(parts.2@, v)
                + if pivot <= v {
                parts.1 as nat
            } else {
                0nat
            },
{
    let mut less: Vec<u32> = Vec::new();
    let mut greater: Vec<u32> = Vec::new();
    let mut equal: usize = 0;
    let mut i: usize = 0;
    while i < pool.len()
        invariant
            i <= pool.len(),
            less.len() + equal + greater.len() == i,
            forall|j: int| 0 <= j < less.len() ==> less[j] < pivot,
            forall|j: int| 0 <= j < greater.len() ==> greater[j] > pivot,
            (exists|j: int| 0 <= j < i && pool[j] == pivot) ==> equal >= 1,
            forall|v: u32|
                #![trigger count_below(pool@.subrange(0, i as int), v)]
                count_below(pool@.subrange(0, i as int), v) == count_below(less@, v) + count_below(
                    greater@,
                    v,
                ) + if pivot < v {
                    equal as nat
                } else {
                    0nat
                },
            forall|v: u32|
                #![trigger count_at_most(pool@.subrange(0, i as int), v)]
                count_at_most(pool@.subrange(0, i as int), v) == count_at_most(less@, v)
                    + count_at_most(greater@, v) + if pivot <= v {
                    equal as nat
                } else {
                    0nat
                },
        decreases pool.len() - i,
    {
        let x = pool[i];
        let ghost before = pool@.subrange(0, i as int);
        let ghost less_before = less@;
        let ghost greater_before = greater@;
        if x < pivot {
            less.push(x);
        } else if x > pivot {
            greater.push(x);
        } else {
            equal = equal + 1;
        }
        proof {
            assert(pool@.subrange(0, i + 1) =~= before.push(x));
            assert forall|v: u32|
                #![trigger count_below(pool@.subrange(0, i + 1), v)]
                count_below(pool@.subrange(0, i + 1), v) == count_below(less@, v) + count_below(
                    greater@,
                    v,
                ) + if pivot < v {
                    equal as nat
                } else {
                    0nat
                } by {
                lemma_count_push(before, x, v);
                lemma_count_push(less_before, x, v);
                lemma_count_push(greater_before, x, v);
                assert(count_below(before, v) == count_below(pool@.subrange(0, i as int), v));
            }
            assert forall|v: u32|
                #![trigger count_at_most(pool@.subrange(0, i + 1), v)]
                count_at_most(pool@.subrange(0, i + 1), v) == count_at_most(less@, v)
                    + count_at_most(greater@, v) + if pivot <= v {
                    equal as nat
                } else {
                    0nat
                } by {
                lemma_count_push(before, x, v);
                lemma_count_push(less_before, x, v);
                lemma_count_push(greater_before, x, v);
                assert(count_at_most(before, v) == count_at_most(pool@.subrange(0, i as int), v));
            }
        }
        i = i + 1;
    }
    proof {
        assert(pool@.subrange(0, i as int) =~= pool@);
    }
    (less, equal, greater)
}

/// A rank in one part of a split is a rank in the whole.
proof fn lemma_rank_in_part(
    pool: Seq<u32>,
    less: Seq<u32>,
    equal: nat,
    greater: Seq<u32>,
    pivot: u32,
    rank: nat,
    v: u32,
)
    requires
        forall|i: int| 0 <= i < less.len() ==> less[i] < pivot,
        forall|i: int| 0 <= i < greater.len() ==> greater[i] > pivot,
        count_below(pool, v) == count_below(less, v) + count_below(greater, v) + if pivot < v {
            equal
        } else {
            0nat
        },
        count_at_most(pool, v) == count_at_most(less, v) + count_at_most(greater, v) + if pivot
            <= v {
            equal
        } else {
            0nat
        },
    ensures
        rank < less.len() && holds_rank(less, rank, v) ==> holds_rank(pool, rank, v),
        less.len() <= rank < less.len() + equal && v == pivot ==> holds_rank(pool, rank, v),
        rank >= less.len() + equal && holds_rank(
            greater,
            (rank - less.len() - equal) as nat,
            v,
        ) ==> holds_rank(pool, rank, v),
{
    lemma_count_one_sided(less, v);
    lemma_count_one_sided(greater, v);
    if v <= pivot {
        assert(forall|i: int| 0 <= i < greater.len() ==> greater[i] >= v);
        assert(forall|i: int| 0 <= i < greater.len() ==> greater[i] > v);
    }
    if v >= pivot {
        assert(forall|i: int| 0 <= i < less.len() ==> less[i] < v);
        assert(forall|i: int| 0 <= i < less.len() ==> less[i] <= v);
    }
}

/// The key at rank `rank` of `keys`: the key that stands at index `rank` once
/// the keys are in ascending order. The keys themselves are left as they are.
pub fn select_rank(keys: &[u32], rank: usize) -> (r: u32)
    requires
        rank < keys.len(),
    ensures
        holds_rank(keys@, rank as nat, r),
        keys@.contains(r),
{
    let mut pool: Vec<u32> = Vec::new();
    let mut i: usize = 0;
    while i < keys.len()
        invariant
            i <= keys.len(),
            pool@ == keys@.subrange(0, i as int),
        decreases keys.len() - i,
    {
        pool.push(keys[i]);
        assert(keys@.subrange(0, i + 1) =~= keys@.subrange(0, i as int).push(keys[i as int]));
        i = i + 1;
    }
    assert(pool@ =~= keys@);
    let mut k: usize = rank;
    loop
        invariant
            k < pool.len(),
            forall|v: u32| holds_rank(pool@, k as nat, v) ==> holds_rank(keys@, rank as nat, v),
        decreases pool.len(),
    {
        let pivot = pool[pool.len() / 2];
        assert(pool@.contains(pivot)) by {
            assert(pool@[(pool.len() / 2) as int] == pivot);
        }
        let (less, equal, greater) = split_at_pivot(&pool, pivot);
        proof {
            assert forall|v: u32|
                (k < less.len() && holds_rank(less@, k as nat, v) ==> holds_rank(
                    pool@,
                    k as nat,
                    v,
                )) && (less.len() <= k < less.len() + equal && v == pivot ==> holds_rank(
                    pool@,
                    k as nat,
                    v,
                )) && (k >= less.len() + equal && holds_rank(
                    greater@,
                    (k - less.len() - equal) as nat,
                    v,
                ) ==> holds_rank(pool@, k as nat, v)) by {
                assert(count_below(pool@, v) == count_below(less@, v) + count_below(greater@, v)
                    + if pivot < v {
                    equal as nat
                } else {
                    0nat
                });
                assert(count_at_most(pool@, v) == count_at_most(less@, v) + count_at_most(
                    greater@,
                    v,
                ) + if pivot <= v {
                    equal as nat
                } else {
                    0nat
                });
                lemma_rank_in_part(pool@, less@, equal as nat, greater@, pivot, k as nat, v);
            }
        }
        if k < less.len() {
            pool = less;
        } else if k < less.len() + equal {
            proof {
                lemma_rank_holder_is_member(keys@, rank as nat, pivot);
            }
            return pivot;
        } else {
            k = k - less.len() - equal;
            pool = greater;
        }
    }
}

} // verus!
