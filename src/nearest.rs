use vstd::prelude::*;

verus! {

/// A distance is given as an order key: `Some(k)` for a finite distance, where
/// keys order as the distances do, and `None` for one that compares with nothing
/// (not a number, or infinite). `keys[i]` is the key of the distance to marker `i`.
/// Marker `i` is the nearest when its key is comparable, no key is smaller, and
/// every earlier marker is strictly farther.
pub open spec fn is_nearest(keys: Seq<Option<u64>>, i: int) -> bool {
    &&& 0 <= i < keys.len()
    &&& keys[i] is Some
    &&& forall|j: int| 0 <= j < keys.len() && keys[j] is Some ==> keys[i]->0 <= keys[j]->0
    &&& forall|j: int| 0 <= j < i && keys[j] is Some ==> keys[i]->0 < keys[j]->0
}

/// Whether some marker has a comparable distance.
pub open spec fn has_candidate(keys: Seq<Option<u64>>) -> bool {
    exists|j: int| 0 <= j < keys.len() && keys[j] is Some
}

/// The nearest marker, or `None` when there is no candidate.
pub open spec fn nearest(keys: Seq<Option<u64>>) -> Option<int> {
    if exists|i: int| is_nearest(keys, i) {
        Some(choose|i: int| is_nearest(keys, i))
    } else {
        None
    }
}

/// At most one marker is the nearest.
pub proof fn lemma_nearest_unique(keys: Seq<Option<u64>>, i: int, j: int)
    requires
        is_nearest(keys, i),
        is_nearest(keys, j),
    ensures
        i == j,
{
    if i < j {
        assert(keys[i]->0 < keys[j]->0);
        assert(keys[j]->0 <= keys[i]->0);
    } else if j < i {
        assert(keys[j]->0 < keys[i]->0);
        assert(keys[i]->0 <= keys[j]->0);
    }
}

/// There is a nearest marker exactly when there is a candidate.
pub proof fn lemma_nearest_exists(keys: Seq<Option<u64>>)
    ensures
        nearest(keys) is Some <==> has_candidate(keys),
        nearest(keys) matches Some(i) ==> is_nearest(keys, i),
    decreases keys.len(),
{
    if has_candidate(keys) {
        let n = keys.len() - 1;
        let pre = keys.subrange(0, n);
        assert(forall|j: int| 0 <= j < n ==> pre[j] == keys[j]);
        if has_candidate(pre) {
            lemma_nearest_exists(pre);
            let b = nearest(pre)->0;
            assert(is_nearest(pre, b));
            if keys[n] is Some && keys[n]->0 < keys[b]->0 {
                assert(is_nearest(keys, n));
            } else {
                assert(is_nearest(keys, b));
            }
        } else {
            let j = choose|j: int| 0 <= j < keys.len() && keys[j] is Some;
            if j < n {
                assert(pre[j] is Some);
            }
            assert(is_nearest(keys, n));
        }
    }
}

/// Index of the earliest marker whose key is smallest, or `None` when no key is comparable.
pub fn nearest_index(keys: &Vec<Option<u64>>) -> (r: Option<usize>)
    ensures
        r matches Some(i) ==> is_nearest(keys@, i as int),
        r is None <==> !has_candidate(keys@),
        r matches Some(i) ==> nearest(keys@) == Some(i as int),
        r is None ==> nearest(keys@) is None,
{
    let mut best: Option<usize> = None;
    let mut i: usize = 0;
    while i < keys.len()
        invariant
            0 <= i <= keys@.len(),
            best matches Some(b) ==> is_nearest(keys@.subrange(0, i as int), b as int),
            best is None <==> forall|j: int| 0 <= j < i ==> keys@[j] is None,
        decreases keys@.len() - i,
    {
        if let Some(k) = keys[i] {
            match best {
                None => {
                    best = Some(i);
                },
                Some(b) => {
                    let bk = keys[b].unwrap();
                    if k < bk {
                        best = Some(i);
                    }
                },
            }
        }
        i = i + 1;
    }
    proof {
        assert(keys@.subrange(0, keys@.len() as int) =~= keys@);
        lemma_nearest_exists(keys@);
        if let Some(b) = best {
            let c = nearest(keys@)->0;
            lemma_nearest_unique(keys@, b as int, c);
        }
    }
    best
}

} // verus!
