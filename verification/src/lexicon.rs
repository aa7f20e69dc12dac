//! Byte strings: their lexicographic order, sorting a vocabulary by it, and
//! finding an entry by its bytes.

use vstd::prelude::*;
use vstd::seq_lib::*;

verus! {

broadcast use group_to_multiset_ensures, lemma_multiset_commutative;

/// `a <= b` in the lexicographic order of bytes (the order of `str` and
/// `[u8]`).
pub open spec fn lex_le(a: Seq<u8>, b: Seq<u8>) -> bool
    decreases a.len(),
{
    if a.len() == 0 {
        true
    } else if b.len() == 0 {
        false
    } else if a[0] != b[0] {
        a[0] < b[0]
    } else {
        lex_le(a.drop_first(), b.drop_first())
    }
}

/// `a < b` in the lexicographic order of bytes.
pub open spec fn lex_lt(a: Seq<u8>, b: Seq<u8>) -> bool {
    lex_le(a, b) && a != b
}

/// The lexicographic order is total, antisymmetric and transitive.
pub proof fn lemma_lex_order(a: Seq<u8>, b: Seq<u8>, c: Seq<u8>)
    ensures
        lex_le(a, a),
        lex_le(a, b) || lex_le(b, a),
        lex_le(a, b) && lex_le(b, a) ==> a == b,
        lex_le(a, b) && lex_le(b, c) ==> lex_le(a, c),
    decreases a.len(),
{
    if a.len() > 0 {
        lemma_lex_order(a.drop_first(), a.drop_first(), a.drop_first());
        if b.len() > 0 {
            if c.len() > 0 {
                lemma_lex_order(a.drop_first(), b.drop_first(), c.drop_first());
            } else {
                lemma_lex_order(a.drop_first(), b.drop_first(), b.drop_first());
            }
            if lex_le(a, b) && lex_le(b, a) {
                assert(a.drop_first() == b.drop_first());
                assert(a =~= seq![a[0]].add(a.drop_first()));
                assert(b =~= seq![b[0]].add(b.drop_first()));
            }
        }
    } else {
        if lex_le(b, a) {
            assert(b.len() == 0);
            assert(a =~= b);
        }
    }
}

/// The outcome of comparing two byte strings.
#[derive(Debug, Clone, Copy, PartialEq, Eq, Structural)]
pub enum ByteOrder {
    Less,
    Equal,
    Greater,
}

/// Compares two byte strings lexicographically.
pub fn compare_bytes(a: &[u8], b: &[u8]) -> (r: ByteOrder)
    ensures
        r == ByteOrder::Equal <==> a@ == b@,
        r == ByteOrder::Less <==> lex_lt(a@, b@),
        r == ByteOrder::Greater <==> lex_lt(b@, a@),
{
    let mut i: usize = 0;
    assert(a@.skip(0) =~= a@);
    assert(b@.skip(0) =~= b@);
    assert(a@.take(0) =~= b@.take(0));
    while i < a.len() && i < b.len()
        invariant
            i <= a@.len(),
            i <= b@.len(),
            a@.take(i as int) == b@.take(i as int),
            lex_le(a@, b@) == lex_le(a@.skip(i as int), b@.skip(i as int)),
            lex_le(b@, a@) == lex_le(b@.skip(i as int), a@.skip(i as int)),
        decreases a.len() - i,
    {
        assert(a@.skip(i as int).drop_first() =~= a@.skip(i + 1));
        assert(b@.skip(i as int).drop_first() =~= b@.skip(i + 1));
        if a[i] != b[i] {
            proof {
                lemma_lex_order(a@, b@, a@);
            }
            if a[i] < b[i] {
                assert(a@[i as int] != b@[i as int]);
                return ByteOrder::Less;
            } else {
                assert(a@[i as int] != b@[i as int]);
                return ByteOrder::Greater;
            }
        }
        assert(a@.take(i + 1) =~= a@.take(i as int).push(a@[i as int]));
        assert(b@.take(i + 1) =~= b@.take(i as int).push(b@[i as int]));
        i += 1;
    }
    proof {
        lemma_lex_order(a@, b@, a@);
    }
    if a.len() == b.len() {
        assert(a@ =~= a@.take(i as int));
        assert(b@ =~= b@.take(i as int));
        ByteOrder::Equal
    } else if a.len() < b.len() {
        assert(a@ =~= a@.take(i as int));
        assert(a@ != b@) by {
            assert(a@.len() != b@.len());
        }
        ByteOrder::Less
    } else {
        assert(b@ =~= b@.take(i as int));
        assert(a@ != b@) by {
            assert(a@.len() != b@.len());
        }
        ByteOrder::Greater
    }
}

/// The bytes of each key.
pub open spec fn key_bytes(keys: Seq<Vec<u8>>) -> Seq<Seq<u8>> {
    keys.map_values(|k: Vec<u8>| k@)
}

/// Entry `i` comes no later than entry `j`: by key, then by index.
pub open spec fn id_le(keys: Seq<Seq<u8>>, i: int, j: int) -> bool {
    if keys[i] == keys[j] {
        i <= j
    } else {
        lex_le(keys[i], keys[j])
    }
}

/// The ids of `ord` are in the order of their keys, ties by id.
pub open spec fn sorted_by_key(keys: Seq<Seq<u8>>, ord: Seq<usize>) -> bool {
    forall|p: int, q: int| 0 <= p < q < ord.len() ==> id_le(keys, ord[p] as int, ord[q] as int)
}

/// The ids `0..n`.
pub open spec fn all_ids(n: nat) -> Seq<usize> {
    Seq::new(n, |i: int| i as usize)
}

/// `ord` lists every id of `keys` once, in key order.
pub open spec fn is_key_order(keys: Seq<Seq<u8>>, ord: Seq<usize>) -> bool {
    &&& sorted_by_key(keys, ord)
    &&& ord.to_multiset() == all_ids(keys.len()).to_multiset()
}

/// `id_le` is a total order on the ids.
pub proof fn lemma_id_order(keys: Seq<Seq<u8>>, i: int, j: int, k: int)
    ensures
        id_le(keys, i, i),
        id_le(keys, i, j) || id_le(keys, j, i),
        id_le(keys, i, j) && id_le(keys, j, i) ==> i == j,
        id_le(keys, i, j) && id_le(keys, j, k) ==> id_le(keys, i, k),
{
    lemma_lex_order(keys[i], keys[j], keys[k]);
    lemma_lex_order(keys[j], keys[i], keys[k]);
    lemma_lex_order(keys[i], keys[k], keys[j]);
    lemma_lex_order(keys[j], keys[k], keys[i]);
    lemma_lex_order(keys[k], keys[i], keys[j]);
}

/// Whether entry `a` comes no later than entry `b`.
fn id_before(keys: &Vec<Vec<u8>>, a: usize, b: usize) -> (r: bool)
    requires
        a < keys@.len(),
        b < keys@.len(),
    ensures
        r == id_le(key_bytes(keys@), a as int, b as int),
{
    match compare_bytes(keys[a].as_slice(), keys[b].as_slice()) {
        ByteOrder::Less => true,
        ByteOrder::Greater => false,
        ByteOrder::Equal => a <= b,
    }
}

/// Every id of `ord` is an index of `keys`.
pub open spec fn ids_in_range(ord: Seq<usize>, n: int) -> bool {
    forall|p: int| 0 <= p < ord.len() ==> #[trigger] ord[p] < n
}

/// Merges two key-ordered lists of ids into one.
fn merge(keys: &Vec<Vec<u8>>, left: &Vec<usize>, right: &Vec<usize>) -> (out: Vec<usize>)
    requires
        ids_in_range(left@, keys@.len() as int),
        ids_in_range(right@, keys@.len() as int),
        sorted_by_key(key_bytes(keys@), left@),
        sorted_by_key(key_bytes(keys@), right@),
    ensures
        ids_in_range(out@, keys@.len() as int),
        sorted_by_key(key_bytes(keys@), out@),
        out@.to_multiset() == left@.to_multiset().add(right@.to_multiset()),
{
    let ghost k = key_bytes(keys@);
    let mut out: Vec<usize> = Vec::new();
    let mut i: usize = 0;
    let mut j: usize = 0;
    assert(left@.take(0) =~= Seq::<usize>::empty());
    assert(right@.take(0) =~= Seq::<usize>::empty());
    while i < left.len() || j < right.len()
        invariant
            k == key_bytes(keys@),
            i <= left@.len(),
            j <= right@.len(),
            ids_in_range(left@, keys@.len() as int),
            ids_in_range(right@, keys@.len() as int),
            ids_in_range(out@, keys@.len() as int),
            sorted_by_key(k, left@),
            sorted_by_key(k, right@),
            sorted_by_key(k, out@),
            forall|p: int, q: int|
                0 <= p < out@.len() && i <= q < left@.len() ==> id_le(
                    k,
                    #[trigger] out@[p] as int,
                    #[trigger] left@[q] as int,
                ),
            forall|p: int, q: int|
                0 <= p < out@.len() && j <= q < right@.len() ==> id_le(
                    k,
                    #[trigger] out@[p] as int,
                    #[trigger] right@[q] as int,
                ),
            out@.to_multiset() == left@.take(i as int).to_multiset().add(
                right@.take(j as int).to_multiset(),
            ),
        decreases left@.len() + right@.len() - i - j,
    {
        let take_left = if i >= left.len() {
            false
        } else if j >= right.len() {
            true
        } else {
            id_before(keys, left[i], right[j])
        };
        let x = if take_left {
            left[i]
        } else {
            right[j]
        };
        proof {
            if take_left {
                assert forall|q: int| i <= q < left@.len() implies id_le(k, x as int, #[trigger] left@[q] as int) by {
                    lemma_id_order(k, x as int, x as int, x as int);
                }
                assert forall|q: int| j <= q < right@.len() implies id_le(k, x as int, #[trigger] right@[q] as int) by {
                    lemma_id_order(k, x as int, right@[j as int] as int, right@[q] as int);
                    lemma_id_order(k, right@[j as int] as int, right@[j as int] as int, right@[j as int] as int);
                }
            } else {
                assert forall|q: int| j <= q < right@.len() implies id_le(k, x as int, #[trigger] right@[q] as int) by {
                    lemma_id_order(k, x as int, x as int, x as int);
                }
                assert forall|q: int| i <= q < left@.len() implies id_le(k, x as int, #[trigger] left@[q] as int) by {
                    lemma_id_order(k, x as int, left@[i as int] as int, left@[q] as int);
                    lemma_id_order(k, left@[i as int] as int, left@[i as int] as int, left@[i as int] as int);
                }
            }
        }
        let ghost before = out@;
        out.push(x);
        assert(out@ =~= before.push(x));
        if take_left {
            assert(left@.take(i + 1) =~= left@.take(i as int).push(x));
            i += 1;
        } else {
            assert(right@.take(j + 1) =~= right@.take(j as int).push(x));
            j += 1;
        }
    }
    assert(left@.take(i as int) =~= left@);
    assert(right@.take(j as int) =~= right@);
    out
}

/// Sorts a list of ids by their keys, ties by id.
fn merge_sort(keys: &Vec<Vec<u8>>, ids: Vec<usize>) -> (out: Vec<usize>)
    requires
        ids_in_range(ids@, keys@.len() as int),
    ensures
        ids_in_range(out@, keys@.len() as int),
        sorted_by_key(key_bytes(keys@), out@),
        out@.to_multiset() == ids@.to_multiset(),
    decreases ids@.len(),
{
    if ids.len() <= 1 {
        return ids;
    }
    let mid = ids.len() / 2;
    let (l, r) = ids.as_slice().split_at(mid);
    let left = vstd::slice::slice_to_vec(l);
    let right = vstd::slice::slice_to_vec(r);
    assert(ids@ =~= left@ + right@);
    let sorted_left = merge_sort(keys, left);
    let sorted_right = merge_sort(keys, right);
    merge(keys, &sorted_left, &sorted_right)
}

/// The ids of `keys` in key order, ties by id.
pub fn sort_ids_by_key(keys: &Vec<Vec<u8>>) -> (ord: Vec<usize>)
    ensures
        is_key_order(key_bytes(keys@), ord@),
        ids_in_range(ord@, keys@.len() as int),
        ord@.len() == keys@.len(),
{
    let mut ids: Vec<usize> = Vec::new();
    let mut i: usize = 0;
    while i < keys.len()
        invariant
            i <= keys@.len(),
            ids@ == all_ids(i as nat),
        decreases keys@.len() - i,
    {
        ids.push(i);
        assert(ids@ =~= all_ids((i + 1) as nat));
        i += 1;
    }
    let ord = merge_sort(keys, ids);
    assert(ord@.len() == ord@.to_multiset().len());
    ord
}

/// The last index below `upto` whose key is `key`.
pub open spec fn last_index_below(keys: Seq<Seq<u8>>, key: Seq<u8>, upto: int) -> Option<int>
    decreases upto,
{
    if upto <= 0 || upto > keys.len() {
        None
    } else if keys[upto - 1] == key {
        Some(upto - 1)
    } else {
        last_index_below(keys, key, upto - 1)
    }
}

/// The last index whose key is `key`.
pub open spec fn last_index(keys: Seq<Seq<u8>>, key: Seq<u8>) -> Option<int> {
    last_index_below(keys, key, keys.len() as int)
}

/// What `last_index_below` finds: the greatest index below `upto` with that
/// key.
pub proof fn lemma_last_index_below(keys: Seq<Seq<u8>>, key: Seq<u8>, upto: int)
    requires
        upto <= keys.len(),
    ensures
        match last_index_below(keys, key, upto) {
            Some(i) => 0 <= i < upto && keys[i] == key && forall|j: int|
                i < j < upto ==> keys[j] != key,
            None => forall|j: int| 0 <= j < upto ==> keys[j] != key,
        },
    decreases upto,
{
    if upto > 0 && keys[upto - 1] != key {
        lemma_last_index_below(keys, key, upto - 1);
    }
}

/// In a key order, the position just before the first one whose key is
/// above `key` holds the last index with that key, if there is one.
pub proof fn lemma_upper_bound(keys: Seq<Seq<u8>>, ord: Seq<usize>, key: Seq<u8>, p: int)
    requires
        is_key_order(keys, ord),
        keys.len() <= usize::MAX,
        0 <= p <= ord.len(),
        forall|q: int| 0 <= q < p ==> lex_le(keys[#[trigger] ord[q] as int], key),
        p < ord.len() ==> lex_lt(key, keys[ord[p] as int]),
    ensures
        last_index(keys, key) == if p > 0 && keys[ord[p - 1] as int] == key {
            Some(ord[p - 1] as int)
        } else {
            None::<int>
        },
{
    assert(ord.len() == keys.len()) by {
        assert(ord.to_multiset().len() == all_ids(keys.len()).to_multiset().len());
    }
    lemma_last_index_below(keys, key, keys.len() as int);
    match last_index(keys, key) {
        Some(j) => {
            assert(all_ids(keys.len())[j] == j as usize);
            assert(all_ids(keys.len()).to_multiset().count(j as usize) > 0);
            assert(ord.contains(j as usize));
            let q = choose|q: int| 0 <= q < ord.len() && ord[q] == j as usize;
            if q >= p {
                if q > p {
                    assert(id_le(keys, ord[p] as int, ord[q] as int));
                }
                lemma_lex_order(key, keys[ord[p] as int], key);
            }
            assert(p > 0);
            assert(lex_le(keys[ord[p - 1] as int], key));
            if q < p - 1 {
                assert(id_le(keys, ord[q] as int, ord[p - 1] as int));
                lemma_lex_order(key, keys[ord[p - 1] as int], key);
                assert(ord.to_multiset().count(ord[p - 1]) > 0);
                assert(all_ids(keys.len()).contains(ord[p - 1]));
            }
        },
        None => {
            if p > 0 {
                assert(ord.to_multiset().count(ord[p - 1]) > 0);
                assert(all_ids(keys.len()).contains(ord[p - 1]));
            }
        },
    }
}

/// The id that the last index with key `key` has, if any.
pub open spec fn last_id(keys: Seq<Seq<u8>>, key: Seq<u8>) -> Option<usize> {
    match last_index(keys, key) {
        Some(i) => Some(i as usize),
        None => None,
    }
}

/// Finds the last index whose key is `key`, by binary search over a key
/// order of `keys`.
pub fn find_last(keys: &Vec<Vec<u8>>, order: &Vec<usize>, key: &[u8]) -> (r: Option<usize>)
    requires
        is_key_order(key_bytes(keys@), order@),
        ids_in_range(order@, keys@.len() as int),
    ensures
        r == last_id(key_bytes(keys@), key@),
{
    let ghost k = key_bytes(keys@);
    assert(order@.len() == keys@.len()) by {
        assert(order@.to_multiset().len() == all_ids(keys@.len()).to_multiset().len());
    }
    let mut lo: usize = 0;
    let mut hi: usize = order.len();
    while lo < hi
        invariant
            k == key_bytes(keys@),
            is_key_order(k, order@),
            ids_in_range(order@, keys@.len() as int),
            order@.len() == keys@.len(),
            lo <= hi <= order@.len(),
            forall|q: int| 0 <= q < lo ==> lex_le(k[#[trigger] order@[q] as int], key@),
            forall|q: int| hi <= q < order@.len() ==> lex_lt(key@, k[#[trigger] order@[q] as int]),
        decreases hi - lo,
    {
        let mid = lo + (hi - lo) / 2;
        let c = compare_bytes(keys[order[mid]].as_slice(), key);
        let ghost km = k[order@[mid as int] as int];
        if c == ByteOrder::Greater {
            assert forall|q: int| mid <= q < order@.len() implies lex_lt(key@, k[#[trigger] order@[q] as int]) by {
                if q > mid && q < hi {
                    assert(id_le(k, order@[mid as int] as int, order@[q] as int));
                    lemma_lex_order(key@, km, k[order@[q] as int]);
                    lemma_lex_order(km, k[order@[q] as int], key@);
                    lemma_lex_order(km, km, km);
                }
            }
            hi = mid;
        } else {
            assert forall|q: int| 0 <= q < mid + 1 implies lex_le(k[#[trigger] order@[q] as int], key@) by {
                if q < mid && q >= lo {
                    assert(id_le(k, order@[q] as int, order@[mid as int] as int));
                    lemma_lex_order(k[order@[q] as int], km, key@);
                    lemma_lex_order(km, km, km);
                }
                lemma_lex_order(km, key@, km);
            }
            lo = mid + 1;
        }
    }
    proof {
        lemma_upper_bound(k, order@, key@, lo as int);
    }
    if lo > 0 {
        let id = order[lo - 1];
        if compare_bytes(keys[id].as_slice(), key) == ByteOrder::Equal {
            return Some(id);
        }
    }
    None
}

} // verus!
