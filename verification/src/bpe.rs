//! Byte-pair merging: while some adjacent pair of pieces spells a vocabulary
//! entry, the pair whose entry scores highest is replaced by that entry.

use vstd::prelude::*;
use vstd::seq_lib::lemma_flatten_concat;
use crate::score::{spec_f32_gt, f32_gt_is_strict_order};

verus! {

/// A piece of text during encoding: a token id and the bytes it stands for.
pub type SpecPiece = (int, Seq<u8>);

/// The bytes of each piece.
pub open spec fn piece_bytes(ps: Seq<SpecPiece>) -> Seq<Seq<u8>> {
    ps.map_values(|p: SpecPiece| p.1)
}

/// The text that the pieces spell.
pub open spec fn spelled(ps: Seq<SpecPiece>) -> Seq<u8> {
    piece_bytes(ps).flatten()
}

/// Scans the adjacent pairs from pair `i` on, keeping the best candidate so
/// far: `(position, entry)` of the first pair whose entry scores strictly
/// above every earlier one (and above `best_score`). A pair is a candidate
/// when its joined bytes (no longer than `limit`, if there is one) are an
/// entry, as `lookup` finds it.
pub open spec fn scan_pairs(
    ps: Seq<SpecPiece>,
    lookup: spec_fn(Seq<u8>) -> Option<int>,
    scores: Seq<u32>,
    limit: Option<int>,
    i: int,
    best_score: u32,
    best: Option<(int, int)>,
) -> Option<(int, int)>
    decreases ps.len() - i,
{
    if i < 0 || i + 1 >= ps.len() {
        best
    } else {
        let joined = ps[i].1 + ps[i + 1].1;
        let next = scan_pairs(ps, lookup, scores, limit, i + 1, best_score, best);
        if limit matches Some(m) && joined.len() > m {
            next
        } else {
            match lookup(joined) {
                Some(id) => if 0 <= id < scores.len() && spec_f32_gt(scores[id], best_score) {
                    scan_pairs(ps, lookup, scores, limit, i + 1, scores[id], Some((i, id)))
                } else {
                    next
                },
                None => next,
            }
        }
    }
}

/// The pair to merge next: the best candidate over all pairs, starting from
/// the score `init`.
pub open spec fn best_pair(
    ps: Seq<SpecPiece>,
    lookup: spec_fn(Seq<u8>) -> Option<int>,
    scores: Seq<u32>,
    limit: Option<int>,
    init: u32,
) -> Option<(int, int)> {
    scan_pairs(ps, lookup, scores, limit, 0, init, None)
}

/// Whether pieces `j` and `j + 1` may merge into entry `id`: their joined
/// bytes (within the limit, if any) are entry `id`, which has a score.
pub open spec fn is_candidate(
    ps: Seq<SpecPiece>,
    lookup: spec_fn(Seq<u8>) -> Option<int>,
    scores: Seq<u32>,
    limit: Option<int>,
    j: int,
    id: int,
) -> bool {
    &&& 0 <= j
    &&& j + 1 < ps.len()
    &&& !(limit matches Some(m) && (ps[j].1 + ps[j + 1].1).len() > m)
    &&& lookup(ps[j].1 + ps[j + 1].1) == Some(id)
    &&& 0 <= id < scores.len()
}

/// What a scan from pair `k` ends with: either what it started with, or a
/// candidate at or after `k` scoring above `bs`; and no candidate from `k`
/// on scores above the final best score.
proof fn lemma_scan_best(
    ps: Seq<SpecPiece>,
    lookup: spec_fn(Seq<u8>) -> Option<int>,
    scores: Seq<u32>,
    limit: Option<int>,
    k: int,
    bs: u32,
    best: Option<(int, int)>,
)
    requires
        0 <= k,
        best matches Some((b, _)) ==> b < k,
    ensures
        ({
            let res = scan_pairs(ps, lookup, scores, limit, k, bs, best);
            let fs = if res == best {
                bs
            } else {
                scores[res.unwrap().1]
            };
            &&& res == best || (res matches Some((i, id)) && k <= i && is_candidate(
                ps,
                lookup,
                scores,
                limit,
                i,
                id,
            ) && spec_f32_gt(scores[id], bs))
            &&& forall|j: int, id2: int|
                k <= j && #[trigger] is_candidate(ps, lookup, scores, limit, j, id2) ==> !spec_f32_gt(
                    scores[id2],
                    fs,
                )
            &&& res != best ==> forall|j: int, id2: int|
                k <= j < res.unwrap().0 && #[trigger] is_candidate(ps, lookup, scores, limit, j, id2)
                    ==> scores[id2] != fs
        }),
    decreases ps.len() - k,
{
    let res = scan_pairs(ps, lookup, scores, limit, k, bs, best);
    if k + 1 >= ps.len() {
        assert forall|j: int, id2: int|
            k <= j && #[trigger] is_candidate(ps, lookup, scores, limit, j, id2) implies !spec_f32_gt(
                scores[id2],
                bs,
            ) by {}
    } else {
        let joined = ps[k].1 + ps[k + 1].1;
        let within = !(limit matches Some(m) && joined.len() > m);
        let chosen = within && (lookup(joined) matches Some(id) && 0 <= id < scores.len() && spec_f32_gt(
            scores[id],
            bs,
        ));
        if chosen {
            let id = lookup(joined).unwrap();
            let sk = scores[id];
            lemma_scan_best(ps, lookup, scores, limit, k + 1, sk, Some((k, id)));
            assert(res == scan_pairs(ps, lookup, scores, limit, k + 1, sk, Some((k, id))));
            let fs = if res == Some((k, id)) {
                sk
            } else {
                scores[res.unwrap().1]
            };
            f32_gt_is_strict_order(fs, sk, bs);
            f32_gt_is_strict_order(sk, fs, bs);
            assert(res != best);
            assert forall|j: int, id2: int|
                k <= j && #[trigger] is_candidate(ps, lookup, scores, limit, j, id2) implies !spec_f32_gt(
                    scores[id2],
                    fs,
                ) by {
                if j == k {
                    assert(id2 == id);
                }
            }
        } else {
            lemma_scan_best(ps, lookup, scores, limit, k + 1, bs, best);
            assert(res == scan_pairs(ps, lookup, scores, limit, k + 1, bs, best));
            let fs = if res == best {
                bs
            } else {
                scores[res.unwrap().1]
            };
            assert forall|j: int, id2: int|
                k <= j && #[trigger] is_candidate(ps, lookup, scores, limit, j, id2) implies !spec_f32_gt(
                    scores[id2],
                    fs,
                ) by {
                if j == k {
                    assert(lookup(joined) == Some(id2));
                    assert(!spec_f32_gt(scores[id2], bs));
                    f32_gt_is_strict_order(scores[id2], fs, bs);
                }
            }
        }
    }
}

/// The pair merged next is a highest-scoring one: it is a candidate that
/// scores above `init`, and no candidate pair anywhere scores above it.
/// Of equal best scores the first pair wins: no earlier candidate has
/// the same score. When no pair is picked, no candidate scores above
/// `init`.
pub proof fn best_pair_scores_highest(
    ps: Seq<SpecPiece>,
    lookup: spec_fn(Seq<u8>) -> Option<int>,
    scores: Seq<u32>,
    limit: Option<int>,
    init: u32,
)
    ensures
        match best_pair(ps, lookup, scores, limit, init) {
            Some((i, id)) => {
                &&& is_candidate(ps, lookup, scores, limit, i, id)
                &&& spec_f32_gt(scores[id], init)
                &&& forall|j: int, id2: int|
                    #[trigger] is_candidate(ps, lookup, scores, limit, j, id2) ==> !spec_f32_gt(
                        scores[id2],
                        scores[id],
                    )
                &&& forall|j: int, id2: int|
                    j < i && #[trigger] is_candidate(ps, lookup, scores, limit, j, id2) ==> scores[id2]
                        != scores[id]
            },
            None => forall|j: int, id2: int|
                #[trigger] is_candidate(ps, lookup, scores, limit, j, id2) ==> !spec_f32_gt(scores[id2], init),
        },
{
    lemma_scan_best(ps, lookup, scores, limit, 0, init, None);
}

/// Pieces `idx` and `idx + 1` replaced by one piece: entry `id`, spelling
/// both.
pub open spec fn merge_at(ps: Seq<SpecPiece>, idx: int, id: int) -> Seq<SpecPiece> {
    ps.update(idx, (id, ps[idx].1 + ps[idx + 1].1)).remove(idx + 1)
}

/// Merges best pairs until no pair is a candidate.
pub open spec fn merge_all(
    ps: Seq<SpecPiece>,
    lookup: spec_fn(Seq<u8>) -> Option<int>,
    scores: Seq<u32>,
    limit: Option<int>,
    init: u32,
) -> Seq<SpecPiece>
    decreases ps.len(),
{
    match best_pair(ps, lookup, scores, limit, init) {
        Some((idx, id)) => if 0 <= idx && idx + 1 < ps.len() {
            merge_all(merge_at(ps, idx, id), lookup, scores, limit, init)
        } else {
            ps
        },
        None => ps,
    }
}

/// A pair that a scan picks is a pair of the pieces whose joined bytes the
/// lookup finds, within the limit.
pub proof fn lemma_scan_pairs(
    ps: Seq<SpecPiece>,
    lookup: spec_fn(Seq<u8>) -> Option<int>,
    scores: Seq<u32>,
    limit: Option<int>,
    i: int,
    best_score: u32,
    best: Option<(int, int)>,
)
    requires
        best matches Some((b, id)) ==> 0 <= b && b + 1 < ps.len() && lookup(ps[b].1 + ps[b + 1].1)
            == Some(id) && 0 <= id < scores.len(),
    ensures
        scan_pairs(ps, lookup, scores, limit, i, best_score, best) matches Some((b, id)) ==> 0 <= b
            && b + 1 < ps.len() && lookup(ps[b].1 + ps[b + 1].1) == Some(id) && 0 <= id < scores.len(),
    decreases ps.len() - i,
{
    if !(i < 0 || i + 1 >= ps.len()) {
        let joined = ps[i].1 + ps[i + 1].1;
        lemma_scan_pairs(ps, lookup, scores, limit, i + 1, best_score, best);
        if let Some(id) = lookup(joined) {
            if 0 <= id < scores.len() {
                lemma_scan_pairs(ps, lookup, scores, limit, i + 1, scores[id], Some((i, id)));
            }
        }
    }
}

/// Merging two adjacent pieces does not change the text they spell.
pub proof fn lemma_merge_at_spelled(ps: Seq<SpecPiece>, idx: int, id: int)
    requires
        0 <= idx,
        idx + 1 < ps.len(),
    ensures
        spelled(merge_at(ps, idx, id)) == spelled(ps),
        merge_at(ps, idx, id).len() + 1 == ps.len(),
{
    let m = merge_at(ps, idx, id);
    let pre = ps.take(idx);
    let post = ps.skip(idx + 2);
    assert(m =~= pre + seq![(id, ps[idx].1 + ps[idx + 1].1)] + post);
    assert(ps =~= pre + seq![ps[idx], ps[idx + 1]] + post);
    assert(piece_bytes(m) =~= piece_bytes(pre) + seq![ps[idx].1 + ps[idx + 1].1] + piece_bytes(post));
    assert(piece_bytes(ps) =~= piece_bytes(pre) + seq![ps[idx].1, ps[idx + 1].1] + piece_bytes(post));
    lemma_flatten_concat(piece_bytes(pre) + seq![ps[idx].1 + ps[idx + 1].1], piece_bytes(post));
    lemma_flatten_concat(piece_bytes(pre), seq![ps[idx].1 + ps[idx + 1].1]);
    lemma_flatten_concat(piece_bytes(pre) + seq![ps[idx].1, ps[idx + 1].1], piece_bytes(post));
    lemma_flatten_concat(piece_bytes(pre), seq![ps[idx].1, ps[idx + 1].1]);
    let one: Seq<Seq<u8>> = seq![ps[idx].1 + ps[idx + 1].1];
    let two: Seq<Seq<u8>> = seq![ps[idx].1, ps[idx + 1].1];
    let e = Seq::<Seq<u8>>::empty();
    assert(e.flatten() =~= Seq::<u8>::empty());
    assert(one.flatten() =~= ps[idx].1 + ps[idx + 1].1) by {
        assert(one.drop_first() =~= e);
        assert(one.flatten() == one.first() + one.drop_first().flatten());
    }
    assert(two.flatten() =~= ps[idx].1 + ps[idx + 1].1) by {
        let rest = two.drop_first();
        assert(rest =~= seq![ps[idx + 1].1]);
        assert(rest.drop_first() =~= e);
        assert(rest.flatten() == rest.first() + rest.drop_first().flatten());
        assert(two.flatten() == two.first() + rest.flatten());
    }
}

/// Merging never changes the text that the pieces spell, and leaves no
/// candidate pair behind.
pub proof fn lemma_merge_all(
    ps: Seq<SpecPiece>,
    lookup: spec_fn(Seq<u8>) -> Option<int>,
    scores: Seq<u32>,
    limit: Option<int>,
    init: u32,
)
    ensures
        spelled(merge_all(ps, lookup, scores, limit, init)) == spelled(ps),
        merge_all(ps, lookup, scores, limit, init).len() <= ps.len(),
        best_pair(merge_all(ps, lookup, scores, limit, init), lookup, scores, limit, init) is None,
    decreases ps.len(),
{
    lemma_scan_pairs(ps, lookup, scores, limit, 0, init, None);
    if let Some((idx, id)) = best_pair(ps, lookup, scores, limit, init) {
        lemma_merge_at_spelled(ps, idx, id);
        lemma_merge_all(merge_at(ps, idx, id), lookup, scores, limit, init);
    }
}

/// Every piece is an entry of `keys` that spells exactly its bytes.
pub open spec fn faithful(keys: Seq<Seq<u8>>, ps: Seq<SpecPiece>) -> bool {
    forall|i: int| 0 <= i < ps.len() ==> 0 <= #[trigger] ps[i].0 < keys.len() && keys[ps[i].0] == ps[i].1
}

/// A lookup that only finds entries spelling what was looked up.
pub open spec fn sound_lookup(keys: Seq<Seq<u8>>, lookup: spec_fn(Seq<u8>) -> Option<int>) -> bool {
    forall|b: Seq<u8>| #[trigger] lookup(b) matches Some(i) ==> 0 <= i < keys.len() && keys[i] == b
}

/// The text of two runs of pieces is the text of the first, then the
/// text of the second.
pub proof fn lemma_spelled_concat(a: Seq<SpecPiece>, b: Seq<SpecPiece>)
    ensures
        spelled(a + b) == spelled(a) + spelled(b),
{
    assert(piece_bytes(a + b) =~= piece_bytes(a) + piece_bytes(b));
    lemma_flatten_concat(piece_bytes(a), piece_bytes(b));
}

/// The text of one piece is its bytes.
pub proof fn lemma_spelled_one(p: SpecPiece)
    ensures
        spelled(seq![p]) == p.1,
{
    let one = piece_bytes(seq![p]);
    assert(one =~= seq![p.1]);
    assert(one.drop_first() =~= Seq::<Seq<u8>>::empty());
    assert(one.drop_first().flatten() =~= Seq::<u8>::empty());
    assert(one.flatten() == one.first() + one.drop_first().flatten());
    assert(p.1 + Seq::<u8>::empty() =~= p.1);
}

/// With a sound lookup, merging keeps every piece an entry that spells
/// its bytes.
pub proof fn lemma_merge_all_faithful(
    ps: Seq<SpecPiece>,
    lookup: spec_fn(Seq<u8>) -> Option<int>,
    scores: Seq<u32>,
    limit: Option<int>,
    init: u32,
    keys: Seq<Seq<u8>>,
)
    requires
        faithful(keys, ps),
        sound_lookup(keys, lookup),
    ensures
        faithful(keys, merge_all(ps, lookup, scores, limit, init)),
    decreases ps.len(),
{
    lemma_scan_pairs(ps, lookup, scores, limit, 0, init, None);
    if let Some((idx, id)) = best_pair(ps, lookup, scores, limit, init) {
        let joined = ps[idx].1 + ps[idx + 1].1;
        assert(lookup(joined) == Some(id));
        let m = merge_at(ps, idx, id);
        assert forall|i: int| 0 <= i < m.len() implies 0 <= #[trigger] m[i].0 < keys.len() && keys[m[i].0]
            == m[i].1 by {
            if i < idx {
                assert(m[i] == ps[i]);
            } else if i == idx {
                assert(m[i] == (id, joined));
            } else {
                assert(m[i] == ps[i + 1]);
            }
        }
        lemma_merge_at_spelled(ps, idx, id);
        lemma_merge_all_faithful(m, lookup, scores, limit, init, keys);
    }
}

/// Merging keeps at least one piece of a non-empty run.
pub proof fn lemma_merge_all_nonempty(
    ps: Seq<SpecPiece>,
    lookup: spec_fn(Seq<u8>) -> Option<int>,
    scores: Seq<u32>,
    limit: Option<int>,
    init: u32,
)
    requires
        ps.len() > 0,
    ensures
        merge_all(ps, lookup, scores, limit, init).len() > 0,
    decreases ps.len(),
{
    if let Some((idx, id)) = best_pair(ps, lookup, scores, limit, init) {
        if 0 <= idx && idx + 1 < ps.len() {
            lemma_merge_at_spelled(ps, idx, id);
            lemma_merge_all_nonempty(merge_at(ps, idx, id), lookup, scores, limit, init);
        }
    }
}

} // verus!
