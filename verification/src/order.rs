//! Stable ordering of records by a key made of a number and a text.
//!
//! A key is compared on its number first and on its text second (character
//! order). Sorting is stable: records with equal keys keep their relative
//! order, as with the standard library's stable sorts.
use vstd::prelude::*;
use crate::text::{text_less, text_lt, lemma_text_lt_irreflexive, lemma_text_lt_transitive, lemma_text_lt_total};

verus! {

/// The mathematical value of a sort key.
pub type Key = (int, Seq<char>);

/// A sort key: `rank` is compared first, `text` breaks ties.
pub struct SortKey {
    pub rank: u64,
    pub text: String,
}

impl View for SortKey {
    type V = Key;

    open spec fn view(&self) -> Key {
        (self.rank as int, self.text@)
    }
}

/// Strict ascending order on keys.
pub open spec fn key_lt(a: Key, b: Key) -> bool {
    a.0 < b.0 || (a.0 == b.0 && text_lt(a.1, b.1))
}

/// `a` must come strictly before `b` under the chosen direction.
pub open spec fn precedes(descending: bool, a: Key, b: Key) -> bool {
    if descending {
        key_lt(b, a)
    } else {
        key_lt(a, b)
    }
}

/// No key of `ks` must come before an earlier one.
pub open spec fn keys_sorted(descending: bool, ks: Seq<Key>) -> bool {
    forall|i: int, j: int|
        0 <= i < j < ks.len() ==> !precedes(descending, #[trigger] ks[j], #[trigger] ks[i])
}

/// `perm` is a bijection of `0..n`.
pub open spec fn is_permutation(perm: Seq<int>, n: int) -> bool {
    &&& perm.len() == n
    &&& forall|i: int| 0 <= i < n ==> 0 <= #[trigger] perm[i] < n
    &&& forall|i: int, j: int| 0 <= i < j < n ==> #[trigger] perm[i] != #[trigger] perm[j]
}

/// Entries of `ks` with equal keys appear in increasing `perm` order.
pub open spec fn keeps_ties_in_order(ks: Seq<Key>, perm: Seq<int>) -> bool {
    forall|i: int, j: int|
        0 <= i < j < ks.len() && #[trigger] ks[i] == #[trigger] ks[j] ==> perm[i] < perm[j]
}

/// `perm` witnesses that `out` is `src` stably sorted by `key`.
pub open spec fn stable_sort_witness<T>(
    out: Seq<T>,
    src: Seq<T>,
    key: spec_fn(T) -> Key,
    descending: bool,
    perm: Seq<int>,
) -> bool {
    &&& out.len() == src.len()
    &&& is_permutation(perm, src.len() as int)
    &&& forall|i: int| 0 <= i < out.len() ==> #[trigger] out[i] == src[perm[i]]
    &&& keys_sorted(descending, out.map_values(key))
    &&& keeps_ties_in_order(out.map_values(key), perm)
}

/// `out` is `src` reordered so that keys are in order (ascending, or
/// descending when `descending`), records with equal keys keeping their
/// original relative order.
pub open spec fn is_stable_sort<T>(
    out: Seq<T>,
    src: Seq<T>,
    key: spec_fn(T) -> Key,
    descending: bool,
) -> bool {
    exists|perm: Seq<int>| stable_sort_witness(out, src, key, descending, perm)
}

/// `precedes` is irreflexive.
pub proof fn lemma_precedes_irreflexive(d: bool, a: Key)
    ensures
        !precedes(d, a, a),
{
    lemma_text_lt_irreflexive(a.1);
}

/// `precedes` is transitive.
pub proof fn lemma_precedes_transitive(d: bool, a: Key, b: Key, c: Key)
    requires
        precedes(d, a, b),
        precedes(d, b, c),
    ensures
        precedes(d, a, c),
{
    if d {
        if c.0 == b.0 && b.0 == a.0 {
            lemma_text_lt_transitive(c.1, b.1, a.1);
        }
    } else {
        if a.0 == b.0 && b.0 == c.0 {
            lemma_text_lt_transitive(a.1, b.1, c.1);
        }
    }
}

/// Distinct keys are ordered one way or the other.
pub proof fn lemma_precedes_total(d: bool, a: Key, b: Key)
    ensures
        a != b ==> precedes(d, a, b) || precedes(d, b, a),
{
    lemma_text_lt_total(a.1, b.1);
}

/// `precedes` is asymmetric.
pub proof fn lemma_precedes_asymmetric(d: bool, a: Key, b: Key)
    ensures
        !(precedes(d, a, b) && precedes(d, b, a)),
{
    if precedes(d, a, b) && precedes(d, b, a) {
        lemma_precedes_transitive(d, a, b, a);
        lemma_precedes_irreflexive(d, a);
    }
}

/// Inserting a key at the first position whose key it precedes keeps the
/// sequence sorted and keeps ties in order, when the inserted entry is the
/// latest one.
proof fn lemma_insert_step(d: bool, ks: Seq<Key>, perm: Seq<int>, kx: Key, m: int, p: int)
    requires
        ks.len() == perm.len(),
        0 <= p <= ks.len(),
        keys_sorted(d, ks),
        keeps_ties_in_order(ks, perm),
        forall|q: int| 0 <= q < ks.len() ==> perm[q] < m,
        forall|q: int| 0 <= q < p ==> !precedes(d, kx, #[trigger] ks[q]),
        p < ks.len() ==> precedes(d, kx, ks[p]),
    ensures
        keys_sorted(d, ks.insert(p, kx)),
        keeps_ties_in_order(ks.insert(p, kx), perm.insert(p, m)),
{
    let ks2 = ks.insert(p, kx);
    let perm2 = perm.insert(p, m);
    assert forall|i: int, j: int| 0 <= i < j < ks2.len() implies !precedes(
        d,
        #[trigger] ks2[j],
        #[trigger] ks2[i],
    ) && (ks2[i] == ks2[j] ==> perm2[i] < perm2[j]) by {
        if j < p {
            assert(ks2[i] == ks[i] && ks2[j] == ks[j]);
        } else if j == p {
            assert(ks2[i] == ks[i]);
            assert(!precedes(d, kx, ks[i]));
        } else if i > p {
            assert(ks2[i] == ks[i - 1] && ks2[j] == ks[j - 1]);
            assert(perm2[i] == perm[i - 1] && perm2[j] == perm[j - 1]);
        } else if i == p {
            // ks2[j] == ks[j - 1] with j - 1 >= p
            assert(ks2[j] == ks[j - 1]);
            assert(precedes(d, kx, ks[p]));
            if j - 1 > p {
                assert(!precedes(d, ks[j - 1], ks[p]));
            }
            if precedes(d, ks[j - 1], kx) {
                lemma_precedes_transitive(d, ks[j - 1], kx, ks[p]);
                lemma_precedes_irreflexive(d, ks[p]);
            }
            if ks[j - 1] == kx {
                if j - 1 == p {
                    lemma_precedes_irreflexive(d, kx);
                } else {
                    assert(!precedes(d, ks[j - 1], ks[p]));
                }
            }
        } else {
            // i < p < j
            assert(ks2[i] == ks[i] && ks2[j] == ks[j - 1]);
            assert(perm2[i] == perm[i] && perm2[j] == perm[j - 1]);
        }
    }
}

/// Whether a record with key `a` must come strictly before one with key `b`.
pub fn key_precedes(descending: bool, a: &SortKey, b: &SortKey) -> (r: bool)
    ensures
        r == precedes(descending, a@, b@),
{
    let (lo, hi) = if descending { (b, a) } else { (a, b) };
    if lo.rank < hi.rank {
        true
    } else if lo.rank > hi.rank {
        false
    } else {
        text_less(lo.text.as_str(), hi.text.as_str())
    }
}

/// Stable insertion sort of `v` by the keys in `keys` (`keys[i]` is the key
/// of `v[i]`).
pub(crate) fn stable_sort<T>(
    v: Vec<T>,
    keys: Vec<SortKey>,
    descending: bool,
    Ghost(key): Ghost<spec_fn(T) -> Key>,
) -> (out: Vec<T>)
    requires
        keys.len() == v.len(),
        forall|i: int| 0 <= i < v.len() ==> #[trigger] keys[i]@ == key(v[i]),
    ensures
        is_stable_sort(out@, v@, key, descending),
{
    let ghost src = v@;
    let n: usize = v.len();
    let mut rest = v;
    let mut rest_keys = keys;
    let mut out: Vec<T> = Vec::new();
    let mut out_keys: Vec<SortKey> = Vec::new();
    let ghost mut perm: Seq<int> = Seq::empty();
    let mut m: usize = 0;
    while m < n
        invariant
            n == src.len(),
            m <= n,
            rest@ == src.skip(m as int),
            rest_keys.len() == rest.len(),
            forall|i: int| 0 <= i < rest.len() ==> #[trigger] rest_keys[i]@ == key(rest[i]),
            out.len() == m,
            out_keys.len() == m,
            perm.len() == m,
            forall|i: int| 0 <= i < m ==> #[trigger] out_keys[i]@ == key(out[i]),
            forall|i: int| 0 <= i < m ==> 0 <= #[trigger] perm[i] < m,
            forall|i: int, j: int| 0 <= i < j < m ==> #[trigger] perm[i] != #[trigger] perm[j],
            forall|i: int| 0 <= i < m ==> #[trigger] out[i] == src[perm[i]],
            keys_sorted(descending, out@.map_values(key)),
            keeps_ties_in_order(out@.map_values(key), perm),
        decreases n - m,
    {
        let ghost ks = out@.map_values(key);
        let x = rest.remove(0);
        let kx = rest_keys.remove(0);
        assert(x == src[m as int]);
        let mut p: usize = 0;
        while p < out.len() && !key_precedes(descending, &kx, &out_keys[p])
            invariant
                out.len() == m,
                out_keys.len() == m,
                ks == out@.map_values(key),
                forall|i: int| 0 <= i < m ==> #[trigger] out_keys[i]@ == key(out[i]),
                p <= m,
                forall|q: int| 0 <= q < p ==> !precedes(descending, kx@, #[trigger] ks[q]),
            decreases m - p,
        {
            p = p + 1;
        }
        proof {
            assert(p < ks.len() ==> precedes(descending, kx@, ks[p as int]));
            lemma_insert_step(descending, ks, perm, kx@, m as int, p as int);
        }
        out.insert(p, x);
        out_keys.insert(p, kx);
        proof {
            perm = perm.insert(p as int, m as int);
            assert(out@.map_values(key) =~= ks.insert(p as int, kx@));
            assert(rest@ =~= src.skip(m + 1));
        }
        m = m + 1;
    }
    assert(stable_sort_witness(out@, src, key, descending, perm));
    out
}

/// A strictly increasing permutation of `0..n` is the identity.
proof fn lemma_increasing_permutation_is_identity(perm: Seq<int>, n: int)
    requires
        is_permutation(perm, n),
        forall|i: int, j: int| 0 <= i < j < n ==> #[trigger] perm[i] < #[trigger] perm[j],
    ensures
        forall|i: int| 0 <= i < n ==> #[trigger] perm[i] == i,
{
    assert forall|i: int| 0 <= i < n implies #[trigger] perm[i] == i by {
        lemma_increasing_lower(perm, n, i);
        lemma_increasing_upper(perm, n, i);
    }
}

proof fn lemma_increasing_lower(perm: Seq<int>, n: int, i: int)
    requires
        is_permutation(perm, n),
        forall|a: int, b: int| 0 <= a < b < n ==> #[trigger] perm[a] < #[trigger] perm[b],
        0 <= i < n,
    ensures
        perm[i] >= i,
    decreases i,
{
    if i > 0 {
        lemma_increasing_lower(perm, n, i - 1);
        assert(perm[i - 1] < perm[i]);
    }
}

proof fn lemma_increasing_upper(perm: Seq<int>, n: int, i: int)
    requires
        is_permutation(perm, n),
        forall|a: int, b: int| 0 <= a < b < n ==> #[trigger] perm[a] < #[trigger] perm[b],
        0 <= i < n,
    ensures
        perm[i] <= i,
    decreases n - i,
{
    if i < n - 1 {
        lemma_increasing_upper(perm, n, i + 1);
        assert(perm[i] < perm[i + 1]);
    }
}

/// Stably sorting a sequence that is already in order leaves it as it is.
pub proof fn lemma_stable_sort_of_sorted<T>(
    b: Seq<T>,
    c: Seq<T>,
    key: spec_fn(T) -> Key,
    descending: bool,
)
    requires
        keys_sorted(descending, b.map_values(key)),
        is_stable_sort(c, b, key, descending),
    ensures
        c == b,
{
    let perm = choose|perm: Seq<int>| stable_sort_witness(c, b, key, descending, perm);
    let n = b.len() as int;
    let kb = b.map_values(key);
    let kc = c.map_values(key);
    assert forall|i: int, j: int| 0 <= i < j < n implies #[trigger] perm[i] < #[trigger] perm[j] by {
        assert(kc[i] == kb[perm[i]]);
        assert(kc[j] == kb[perm[j]]);
        if kc[i] != kc[j] {
            assert(!precedes(descending, kc[j], kc[i]));
            lemma_precedes_total(descending, kc[i], kc[j]);
            assert(precedes(descending, kc[i], kc[j]));
            assert(perm[i] != perm[j]);
            if perm[j] < perm[i] {
                assert(!precedes(descending, kb[perm[i]], kb[perm[j]]));
            }
        }
    }
    lemma_increasing_permutation_is_identity(perm, n);
    assert(c =~= b) by {
        assert forall|i: int| 0 <= i < n implies c[i] == b[i] by {
            assert(c[i] == b[perm[i]]);
        }
    }
}

/// Sorting twice by the same key and direction gives what sorting once gave.
pub proof fn lemma_stable_sort_idempotent<T>(
    a: Seq<T>,
    b: Seq<T>,
    c: Seq<T>,
    key: spec_fn(T) -> Key,
    descending: bool,
)
    requires
        is_stable_sort(b, a, key, descending),
        is_stable_sort(c, b, key, descending),
    ensures
        c == b,
{
    let perm = choose|perm: Seq<int>| stable_sort_witness(b, a, key, descending, perm);
    lemma_stable_sort_of_sorted(b, c, key, descending);
}

} // verus!
