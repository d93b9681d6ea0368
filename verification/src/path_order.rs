//! The order of paths: sorting them and leaving out what is there twice.
//!
//! A path is known here by its key, the list of its components, each as bytes.
//! Paths are ordered by their first component that differs, and components by
//! their first byte that differs; what ends first comes first.
use vstd::prelude::*;
use crate::dsd_files::{files_at, law_paths_are_a_set, Tree};

verus! {

/// Whether the text `a` comes before the text `b`.
pub open spec fn text_before(a: Seq<u8>, b: Seq<u8>) -> bool
    decreases b.len(),
{
    if b.len() == 0 {
        false
    } else if a.len() == 0 {
        true
    } else if a[0] != b[0] {
        a[0] < b[0]
    } else {
        text_before(a.skip(1), b.skip(1))
    }
}

/// Whether the path with the key `a` comes before that with the key `b`.
pub open spec fn key_before(a: Seq<Seq<u8>>, b: Seq<Seq<u8>>) -> bool
    decreases b.len(),
{
    if b.len() == 0 {
        false
    } else if a.len() == 0 {
        true
    } else if a[0] != b[0] {
        text_before(a[0], b[0])
    } else {
        key_before(a.skip(1), b.skip(1))
    }
}

/// Two sequences that begin alike and go on alike are alike.
proof fn lemma_same_rest<A>(a: Seq<A>, b: Seq<A>)
    requires
        a.len() > 0,
        b.len() > 0,
        a[0] == b[0],
        a.skip(1) == b.skip(1),
    ensures
        a == b,
{
    assert(a.len() == a.skip(1).len() + 1);
    assert forall|i: int| 0 <= i < a.len() implies a[i] == b[i] by {
        if i > 0 {
            assert(a.skip(1)[i - 1] == a[i]);
            assert(b.skip(1)[i - 1] == b[i]);
        }
    }
    assert(a =~= b);
}

/// Of two different texts exactly one comes first, and no text before itself.
proof fn lemma_text_total(a: Seq<u8>, b: Seq<u8>)
    ensures
        a == b ==> !text_before(a, b),
        a != b ==> (text_before(a, b) <==> !text_before(b, a)),
    decreases b.len(),
{
    if a.len() > 0 && b.len() > 0 {
        if a[0] == b[0] {
            lemma_text_total(a.skip(1), b.skip(1));
            if a.skip(1) == b.skip(1) {
                lemma_same_rest(a, b);
            }
        }
    } else if a.len() == 0 && b.len() == 0 {
        assert(a =~= b);
    }
}

/// What comes before a text comes before all that come after it.
proof fn lemma_text_transitive(a: Seq<u8>, b: Seq<u8>, c: Seq<u8>)
    requires
        text_before(a, b),
        text_before(b, c),
    ensures
        text_before(a, c),
    decreases c.len(),
{
    if a.len() > 0 && a[0] == b[0] && b[0] == c[0] {
        lemma_text_transitive(a.skip(1), b.skip(1), c.skip(1));
    }
}

/// Of two different keys exactly one comes first, and no key before itself.
pub proof fn law_order_total(a: Seq<Seq<u8>>, b: Seq<Seq<u8>>)
    ensures
        a == b ==> !key_before(a, b),
        a != b ==> (key_before(a, b) <==> !key_before(b, a)),
    decreases b.len(),
{
    if a.len() > 0 && b.len() > 0 {
        if a[0] == b[0] {
            law_order_total(a.skip(1), b.skip(1));
            if a.skip(1) == b.skip(1) {
                lemma_same_rest(a, b);
            }
        } else {
            lemma_text_total(a[0], b[0]);
        }
    } else if a.len() == 0 && b.len() == 0 {
        assert(a =~= b);
    }
}

/// What comes before a key comes before all that come after it.
pub proof fn law_order_transitive(a: Seq<Seq<u8>>, b: Seq<Seq<u8>>, c: Seq<Seq<u8>>)
    requires
        key_before(a, b),
        key_before(b, c),
    ensures
        key_before(a, c),
    decreases c.len(),
{
    if a.len() > 0 {
        if a[0] == b[0] && b[0] == c[0] {
            law_order_transitive(a.skip(1), b.skip(1), c.skip(1));
        } else if a[0] != b[0] && b[0] != c[0] {
            lemma_text_transitive(a[0], b[0], c[0]);
            lemma_text_total(a[0], a[0]);
        }
    }
}

/// What a key says.
pub open spec fn key_view(v: Seq<Vec<u8>>) -> Seq<Seq<u8>> {
    Seq::new(v.len(), |i: int| v[i]@)
}

/// What a list of keys says.
pub open spec fn key_views(v: Seq<Vec<Vec<u8>>>) -> Seq<Seq<Seq<u8>>> {
    Seq::new(v.len(), |i: int| key_view(v[i]@))
}

/// The keys at some positions.
pub open spec fn keys_at(keys: Seq<Seq<Seq<u8>>>, positions: Seq<usize>) -> Seq<Seq<Seq<u8>>> {
    Seq::new(positions.len(), |i: int| keys[positions[i] as int])
}

/// Whether each key comes before the next, and so before all that follow.
pub open spec fn increasing(keys: Seq<Seq<Seq<u8>>>) -> bool {
    forall|i: int, j: int| 0 <= i < j < keys.len() ==> key_before(keys[i], keys[j])
}

/// Whether `positions` hold a position of the key at `k`, `k` itself or an earlier one.
pub open spec fn picked(keys: Seq<Seq<Seq<u8>>>, positions: Seq<usize>, k: int) -> bool {
    exists|i: int|
        0 <= i < positions.len() && #[trigger] positions[i] <= k && keys[positions[i] as int]
            == keys[k]
}

/// Whether `positions` sort the first `n` keys without repetition: they are
/// positions of these keys, the keys there increase, and every key is among them,
/// at the first position that has it.
pub open spec fn sorts(keys: Seq<Seq<Seq<u8>>>, n: nat, positions: Seq<usize>) -> bool {
    &&& forall|i: int| 0 <= i < positions.len() ==> (#[trigger] positions[i]) < n
    &&& increasing(keys_at(keys, positions))
    &&& forall|k: int| 0 <= k < n ==> #[trigger] picked(keys, positions, k)
}

/// How one thing stands to another.
#[derive(Copy, Clone, PartialEq, Eq, Debug, Structural)]
pub enum Rank {
    Before,
    Same,
    After,
}

/// How the text `a` stands to the text `b`.
fn rank_texts(a: &Vec<u8>, b: &Vec<u8>) -> (r: Rank)
    ensures
        r == Rank::Before <==> text_before(a@, b@),
        r == Rank::Same <==> a@ == b@,
{
    proof {
        lemma_text_total(a@, b@);
    }
    let (n, m): (usize, usize) = (a.len(), b.len());
    let mut k: usize = 0;
    assert(a@.skip(0) =~= a@ && b@.skip(0) =~= b@);
    while k < n && k < m
        invariant
            n == a@.len(),
            m == b@.len(),
            k <= n,
            k <= m,
            a@.take(k as int) == b@.take(k as int),
            text_before(a@, b@) == text_before(a@.skip(k as int), b@.skip(k as int)),
        decreases n - k,
    {
        if a[k] != b[k] {
            return if a[k] < b[k] {
                Rank::Before
            } else {
                Rank::After
            };
        }
        assert(a@.skip(k as int).skip(1) =~= a@.skip(k + 1));
        assert(b@.skip(k as int).skip(1) =~= b@.skip(k + 1));
        k = k + 1;
        assert(a@.take(k as int) =~= b@.take(k as int)) by {
            assert forall|i: int| 0 <= i < k implies a@[i] == b@[i] by {
                if i < k - 1 {
                    assert(a@.take(k - 1)[i] == b@.take(k - 1)[i]);
                }
            }
        }
    }
    if n == m {
        assert(a@.take(n as int) =~= a@ && b@.take(n as int) =~= b@);
        Rank::Same
    } else if n < m {
        Rank::Before
    } else {
        Rank::After
    }
}

/// How the path with the key `a` stands to that with the key `b`.
pub fn rank_keys(a: &Vec<Vec<u8>>, b: &Vec<Vec<u8>>) -> (r: Rank)
    ensures
        r == Rank::Before <==> key_before(key_view(a@), key_view(b@)),
        r == Rank::Same <==> key_view(a@) == key_view(b@),
        r == Rank::After <==> key_before(key_view(b@), key_view(a@)),
{
    let ghost (x, y) = (key_view(a@), key_view(b@));
    proof {
        law_order_total(x, y);
        law_order_total(y, x);
    }
    let (n, m): (usize, usize) = (a.len(), b.len());
    let mut k: usize = 0;
    assert(x.skip(0) =~= x && y.skip(0) =~= y);
    while k < n && k < m
        invariant
            n == a@.len(),
            m == b@.len(),
            x == key_view(a@),
            y == key_view(b@),
            k <= n,
            k <= m,
            x.take(k as int) == y.take(k as int),
            key_before(x, y) == key_before(x.skip(k as int), y.skip(k as int)),
            x == y ==> !key_before(x, y) && !key_before(y, x),
            x != y ==> (key_before(x, y) <==> !key_before(y, x)),
        decreases n - k,
    {
        assert(x[k as int] == a@[k as int]@ && y[k as int] == b@[k as int]@);
        let rank: Rank = rank_texts(&a[k], &b[k]);
        if rank != Rank::Same {
            return rank;
        }
        assert(x.skip(k as int).skip(1) =~= x.skip(k + 1));
        assert(y.skip(k as int).skip(1) =~= y.skip(k + 1));
        k = k + 1;
        assert(x.take(k as int) =~= y.take(k as int)) by {
            assert forall|i: int| 0 <= i < k implies x[i] == y[i] by {
                if i < k - 1 {
                    assert(x.take(k - 1)[i] == y.take(k - 1)[i]);
                }
            }
        }
    }
    if n == m {
        assert(x.take(n as int) =~= x && y.take(n as int) =~= y);
        Rank::Same
    } else if n < m {
        Rank::Before
    } else {
        Rank::After
    }
}

/// Where a key belongs among sorted positions: all before it are of lesser keys,
/// and the one there, if there is one, is of the same key or of a greater one.
fn find_place(keys: &Vec<Vec<Vec<u8>>>, positions: &Vec<usize>, k: usize) -> (r: (usize, bool))
    requires
        k < keys@.len(),
        forall|i: int| 0 <= i < positions@.len() ==> (#[trigger] positions@[i]) < keys@.len(),
        increasing(keys_at(key_views(keys@), positions@)),
    ensures
        r.0 <= positions@.len(),
        forall|i: int|
            0 <= i < r.0 ==> key_before(
                #[trigger] keys_at(key_views(keys@), positions@)[i],
                key_views(keys@)[k as int],
            ),
        r.1 ==> r.0 < positions@.len() && keys_at(key_views(keys@), positions@)[r.0 as int]
            == key_views(keys@)[k as int],
        !r.1 ==> forall|i: int|
            r.0 <= i < positions@.len() ==> key_before(
                key_views(keys@)[k as int],
                #[trigger] keys_at(key_views(keys@), positions@)[i],
            ),
{
    let ghost all = key_views(keys@);
    let ghost at = keys_at(all, positions@);
    let ghost key = all[k as int];
    let mut low: usize = 0;
    let mut high: usize = positions.len();
    while low < high
        invariant
            low <= high <= positions@.len(),
            k < keys@.len(),
            all == key_views(keys@),
            at == keys_at(all, positions@),
            key == all[k as int],
            forall|i: int| 0 <= i < positions@.len() ==> (#[trigger] positions@[i]) < keys@.len(),
            increasing(at),
            forall|i: int| 0 <= i < low ==> key_before(#[trigger] at[i], key),
            forall|i: int| high <= i < positions@.len() ==> key_before(key, #[trigger] at[i]),
        decreases high - low,
    {
        let mid: usize = low + (high - low) / 2;
        let p: usize = positions[mid];
        assert(at[mid as int] == key_view(keys@[p as int]@));
        assert(key == key_view(keys@[k as int]@));
        match rank_keys(&keys[p], &keys[k]) {
            Rank::Before => {
                proof {
                    assert forall|i: int| 0 <= i < mid + 1 implies key_before(
                        #[trigger] at[i],
                        key,
                    ) by {
                        if i < mid {
                            law_order_transitive(at[i], at[mid as int], key);
                        }
                    }
                }
                low = mid + 1;
            },
            Rank::Same => {
                assert forall|i: int| 0 <= i < mid implies key_before(#[trigger] at[i], key) by {
                    assert(key_before(at[i], at[mid as int]));
                }
                return (mid, true);
            },
            Rank::After => {
                proof {
                    assert forall|i: int| mid <= i < positions@.len() implies key_before(
                        key,
                        #[trigger] at[i],
                    ) by {
                        if i > mid {
                            law_order_transitive(key, at[mid as int], at[i]);
                        }
                    }
                }
                high = mid;
            },
        }
    }
    (low, false)
}

/// One more key that is there already.
proof fn lemma_sorts_known(keys: Seq<Seq<Seq<u8>>>, k: nat, positions: Seq<usize>, place: int)
    requires
        sorts(keys, k, positions),
        k < keys.len(),
        0 <= place < positions.len(),
        keys_at(keys, positions)[place] == keys[k as int],
    ensures
        sorts(keys, k + 1, positions),
{
    assert forall|j: int| 0 <= j < k + 1 implies #[trigger] picked(keys, positions, j) by {
        if j == k {
            assert(positions[place] <= j);
        }
    }
}

/// One more key, which is new.
proof fn lemma_sorts_new(keys: Seq<Seq<Seq<u8>>>, k: usize, positions: Seq<usize>, place: int)
    requires
        sorts(keys, k as nat, positions),
        k < keys.len(),
        0 <= place <= positions.len(),
        forall|i: int|
            0 <= i < place ==> key_before(
                #[trigger] keys_at(keys, positions)[i],
                keys[k as int],
            ),
        forall|i: int|
            place <= i < positions.len() ==> key_before(
                keys[k as int],
                #[trigger] keys_at(keys, positions)[i],
            ),
    ensures
        sorts(keys, k as nat + 1, positions.insert(place, k)),
{
    let more = positions.insert(place, k);
    let at = keys_at(keys, positions);
    let after = keys_at(keys, more);
    assert forall|i: int| 0 <= i < more.len() implies (#[trigger] more[i]) < k + 1 by {
        if i < place {
            assert(more[i] == positions[i]);
        } else if i > place {
            assert(more[i] == positions[i - 1]);
        }
    }
    assert forall|i: int, j: int| 0 <= i < j < after.len() implies key_before(
        after[i],
        after[j],
    ) by {
        let x = if i < place {
            i
        } else {
            i - 1
        };
        let y = if j < place {
            j
        } else {
            j - 1
        };
        if i != place {
            assert(after[i] == at[x]);
        }
        if j != place {
            assert(after[j] == at[y]);
        }
    }
    assert forall|j: int| 0 <= j < k + 1 implies #[trigger] picked(keys, more, j) by {
        if j == k {
            assert(more[place] <= j);
        } else {
            assert(picked(keys, positions, j));
            let i = choose|i: int|
                0 <= i < positions.len() && #[trigger] positions[i] <= j
                    && keys[positions[i] as int] == keys[j];
            if i < place {
                assert(more[i] == positions[i]);
            } else {
                assert(more[i + 1] == positions[i]);
            }
        }
    }
}

/// Sorts keys without repetition: gives the positions of the keys that stay, in the
/// order of the keys. Of equal keys the first one stays.
pub fn sorted_unique(keys: &Vec<Vec<Vec<u8>>>) -> (r: Vec<usize>)
    ensures
        sorts(key_views(keys@), keys@.len(), r@),
{
    let ghost all = key_views(keys@);
    let mut r: Vec<usize> = Vec::new();
    let mut k: usize = 0;
    while k < keys.len()
        invariant
            k <= keys@.len(),
            all == key_views(keys@),
            sorts(all, k as nat, r@),
        decreases keys@.len() - k,
    {
        assert forall|i: int| 0 <= i < r@.len() implies (#[trigger] r@[i]) < keys@.len() by {
            assert(r@[i] < k);
        }
        let (place, known): (usize, bool) = find_place(keys, &r, k);
        if known {
            proof {
                lemma_sorts_known(all, k as nat, r@, place as int);
            }
        } else {
            proof {
                lemma_sorts_new(all, k, r@, place as int);
            }
            r.insert(place, k);
        }
        k = k + 1;
    }
    r
}

/// Two increasing lists of the same keys are the same list.
proof fn lemma_increasing_unique(a: Seq<Seq<Seq<u8>>>, b: Seq<Seq<Seq<u8>>>)
    requires
        increasing(a),
        increasing(b),
        forall|x: Seq<Seq<u8>>| a.contains(x) <==> b.contains(x),
    ensures
        a == b,
    decreases a.len(),
{
    if a.len() == 0 {
        if b.len() > 0 {
            assert(b.contains(b[0]));
        }
        assert(a =~= b);
    } else if b.len() == 0 {
        assert(a.contains(a[0]));
    } else {
        let (x, y) = (a.last(), b.last());
        assert(a.contains(x) && b.contains(y));
        let i = choose|i: int| 0 <= i < a.len() && a[i] == y;
        let j = choose|j: int| 0 <= j < b.len() && b[j] == x;
        law_order_total(x, y);
        assert(x == y) by {
            if x != y {
                assert(key_before(a[i], a[a.len() - 1]));
                assert(key_before(b[j], b[b.len() - 1]));
            }
        }
        let (c, d) = (a.drop_last(), b.drop_last());
        assert(increasing(c)) by {
            assert forall|i: int, j: int| 0 <= i < j < c.len() implies key_before(c[i], c[j]) by {
                assert(c[i] == a[i] && c[j] == a[j]);
            }
        }
        assert(increasing(d)) by {
            assert forall|i: int, j: int| 0 <= i < j < d.len() implies key_before(d[i], d[j]) by {
                assert(d[i] == b[i] && d[j] == b[j]);
            }
        }
        lemma_without_last(a, b);
        lemma_without_last(b, a);
        assert forall|z: Seq<Seq<u8>>| c.contains(z) <==> d.contains(z) by {
            if c.contains(z) {
                assert(d.contains(z));
            }
            if d.contains(z) {
                assert(c.contains(z));
            }
        }
        lemma_increasing_unique(c, d);
        assert(a =~= c.push(x));
        assert(b =~= d.push(y));
    }
}

/// What is in one list but for its last key is in the other but for the same key.
proof fn lemma_without_last(a: Seq<Seq<Seq<u8>>>, b: Seq<Seq<Seq<u8>>>)
    requires
        increasing(a),
        a.len() > 0,
        b.len() > 0,
        a.last() == b.last(),
        forall|x: Seq<Seq<u8>>| a.contains(x) ==> b.contains(x),
    ensures
        forall|x: Seq<Seq<u8>>| a.drop_last().contains(x) ==> b.drop_last().contains(x),
{
    assert forall|x: Seq<Seq<u8>>| a.drop_last().contains(x) implies b.drop_last().contains(
        x,
    ) by {
        let i = choose|i: int| 0 <= i < a.drop_last().len() && a.drop_last()[i] == x;
        assert(a[i] == x);
        assert(key_before(a[i], a[a.len() - 1]));
        law_order_total(x, x);
        assert(b.contains(x));
        let j = choose|j: int| 0 <= j < b.len() && b[j] == x;
        assert(b.drop_last()[j] == x);
    }
}

/// The keys that stay are the keys that there are.
proof fn lemma_sorted_keys(keys: Seq<Seq<Seq<u8>>>, positions: Seq<usize>)
    requires
        sorts(keys, keys.len(), positions),
    ensures
        forall|x: Seq<Seq<u8>>| keys_at(keys, positions).contains(x) <==> keys.contains(x),
{
    let at = keys_at(keys, positions);
    assert forall|x: Seq<Seq<u8>>| at.contains(x) <==> keys.contains(x) by {
        if at.contains(x) {
            let i = choose|i: int| 0 <= i < at.len() && at[i] == x;
            assert(keys[positions[i] as int] == x);
        }
        if keys.contains(x) {
            let k = choose|k: int| 0 <= k < keys.len() && keys[k] == x;
            assert(picked(keys, positions, k));
            let i = choose|i: int|
                0 <= i < positions.len() && #[trigger] positions[i] <= k
                    && keys[positions[i] as int] == keys[k];
            assert(at[i] == x);
        }
    }
}

/// The sorted keys are the keys there are: no key is lost and none is added.
pub proof fn law_sorted_same_keys(
    keys: Seq<Seq<Seq<u8>>>,
    positions: Seq<usize>,
    x: Seq<Seq<u8>>,
)
    requires
        sorts(keys, keys.len(), positions),
    ensures
        keys_at(keys, positions).contains(x) <==> keys.contains(x),
{
    lemma_sorted_keys(keys, positions);
}

/// Sorting depends on the set of keys alone: neither the order in which they come
/// nor how often each of them comes makes a difference to the sorted keys.
pub proof fn law_sorted_by_set(
    keys: Seq<Seq<Seq<u8>>>,
    positions: Seq<usize>,
    others: Seq<Seq<Seq<u8>>>,
    other_positions: Seq<usize>,
)
    requires
        sorts(keys, keys.len(), positions),
        sorts(others, others.len(), other_positions),
        forall|x: Seq<Seq<u8>>| keys.contains(x) <==> others.contains(x),
    ensures
        keys_at(keys, positions) == keys_at(others, other_positions),
{
    let (a, b) = (keys_at(keys, positions), keys_at(others, other_positions));
    lemma_sorted_keys(keys, positions);
    lemma_sorted_keys(others, other_positions);
    assert forall|x: Seq<Seq<u8>>| a.contains(x) <==> b.contains(x) by {
        assert(keys.contains(x) <==> others.contains(x));
    }
    lemma_increasing_unique(a, b);
}

/// Where keys are picked in two ways, the first way picks no later position.
proof fn lemma_picked_first(
    keys: Seq<Seq<Seq<u8>>>,
    positions: Seq<usize>,
    others: Seq<usize>,
    i: int,
)
    requires
        sorts(keys, keys.len(), positions),
        sorts(keys, keys.len(), others),
        keys_at(keys, positions) == keys_at(keys, others),
        0 <= i < positions.len(),
    ensures
        positions.len() == others.len(),
        positions[i] <= others[i],
{
    let at = keys_at(keys, positions);
    assert(at.len() == positions.len() && keys_at(keys, others).len() == others.len());
    let k = others[i] as int;
    assert(picked(keys, positions, k));
    let j = choose|j: int|
        0 <= j < positions.len() && #[trigger] positions[j] <= k && keys[positions[j] as int]
            == keys[k];
    assert(at[j] == at[i]) by {
        assert(keys_at(keys, others)[i] == keys[k]);
    }
    law_order_total(at[i], at[j]);
    assert(i == j) by {
        if i < j {
            assert(key_before(at[i], at[j]));
        } else if j < i {
            assert(key_before(at[j], at[i]));
        }
    }
}

/// There is one way to sort given keys: the positions are fixed by them.
pub proof fn law_sorted_one_way(
    keys: Seq<Seq<Seq<u8>>>,
    positions: Seq<usize>,
    others: Seq<usize>,
)
    requires
        sorts(keys, keys.len(), positions),
        sorts(keys, keys.len(), others),
    ensures
        positions == others,
{
    law_sorted_by_set(keys, positions, keys, others);
    assert(keys_at(keys, positions).len() == positions.len());
    assert(keys_at(keys, others).len() == others.len());
    assert forall|i: int| 0 <= i < positions.len() implies positions[i] == others[i] by {
        lemma_picked_first(keys, positions, others, i);
        lemma_picked_first(keys, others, positions, i);
    }
    assert(positions =~= others);
}

/// The keys of some files.
pub open spec fn keys_of(
    files: Seq<std::path::PathBuf>,
    key: spec_fn(std::path::PathBuf) -> Seq<Seq<u8>>,
) -> Seq<Seq<Seq<u8>>> {
    Seq::new(files.len(), |i: int| key(files[i]))
}

/// The keys of what is found at the same paths.
proof fn lemma_found_keys(
    trees: Seq<Tree>,
    others: Seq<Tree>,
    recurse: bool,
    key: spec_fn(std::path::PathBuf) -> Seq<Seq<u8>>,
    x: Seq<Seq<u8>>,
)
    requires
        forall|t: Tree| trees.contains(t) <==> others.contains(t),
        keys_of(files_at(trees, recurse, trees.len()), key).contains(x),
    ensures
        keys_of(files_at(others, recurse, others.len()), key).contains(x),
{
    let a = files_at(trees, recurse, trees.len());
    let b = files_at(others, recurse, others.len());
    let i = choose|i: int| 0 <= i < keys_of(a, key).len() && keys_of(a, key)[i] == x;
    assert(a.contains(a[i]));
    law_paths_are_a_set(trees, others, recurse, a[i]);
    let j = choose|j: int| 0 <= j < b.len() && b[j] == a[i];
    assert(keys_of(b, key)[j] == x);
}

/// The sorted result of a search for files depends neither on the order of the
/// paths that it begins with nor on how often each of them is given.
pub proof fn law_found_by_set(
    trees: Seq<Tree>,
    others: Seq<Tree>,
    recurse: bool,
    key: spec_fn(std::path::PathBuf) -> Seq<Seq<u8>>,
    positions: Seq<usize>,
    other_positions: Seq<usize>,
)
    requires
        forall|t: Tree| trees.contains(t) <==> others.contains(t),
        ({
            let keys = keys_of(files_at(trees, recurse, trees.len()), key);
            sorts(keys, keys.len(), positions)
        }),
        ({
            let keys = keys_of(files_at(others, recurse, others.len()), key);
            sorts(keys, keys.len(), other_positions)
        }),
    ensures
        keys_at(keys_of(files_at(trees, recurse, trees.len()), key), positions) == keys_at(
            keys_of(files_at(others, recurse, others.len()), key),
            other_positions,
        ),
{
    let a = keys_of(files_at(trees, recurse, trees.len()), key);
    let b = keys_of(files_at(others, recurse, others.len()), key);
    assert forall|x: Seq<Seq<u8>>| a.contains(x) <==> b.contains(x) by {
        if a.contains(x) {
            lemma_found_keys(trees, others, recurse, key, x);
        }
        if b.contains(x) {
            lemma_found_keys(others, trees, recurse, key, x);
        }
    }
    law_sorted_by_set(a, positions, b, other_positions);
}

/// Of two texts the one with the lower byte, where they first differ, comes first; and
/// one that the other begins with comes before it.
pub proof fn law_text_order(a: Seq<u8>, b: Seq<u8>, i: int)
    requires
        0 <= i <= a.len(),
        i < b.len(),
        a.take(i) == b.take(i),
        i < a.len() ==> a[i] < b[i],
    ensures
        text_before(a, b),
        !text_before(b, a),
    decreases i,
{
    lemma_text_total(a, b);
    if i > 0 {
        assert(a[0] == a.take(i)[0] && b[0] == b.take(i)[0]);
        assert(a.skip(1).take(i - 1) =~= a.take(i).skip(1));
        assert(b.skip(1).take(i - 1) =~= b.take(i).skip(1));
        law_text_order(a.skip(1), b.skip(1), i - 1);
    }
}

/// Of two paths the one whose component comes first, where they first differ, comes
/// first; and one that the other begins with comes before it.
pub proof fn law_key_order(a: Seq<Seq<u8>>, b: Seq<Seq<u8>>, i: int)
    requires
        0 <= i <= a.len(),
        i < b.len(),
        a.take(i) == b.take(i),
        i < a.len() ==> text_before(a[i], b[i]),
    ensures
        key_before(a, b),
        !key_before(b, a),
    decreases i,
{
    law_order_total(a, b);
    if i > 0 {
        assert(a[0] == a.take(i)[0] && b[0] == b.take(i)[0]);
        assert(a.skip(1).take(i - 1) =~= a.take(i).skip(1));
        assert(b.skip(1).take(i - 1) =~= b.take(i).skip(1));
        law_key_order(a.skip(1), b.skip(1), i - 1);
    } else if a.len() > 0 {
        lemma_text_total(a[0], b[0]);
    }
    if a == b {
        if i < a.len() {
            lemma_text_total(a[i], b[i]);
        }
    }
}

} // verus!
