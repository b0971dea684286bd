//! Greedy non-maximum suppression.
//!
//! Candidates are ranked by score, highest first; candidates of equal score
//! keep the order in which they were given. The highest remaining candidate is
//! accepted, every remaining candidate that overlaps it by the threshold or
//! more is dropped, and the same is done with what is left. A dropped candidate
//! is never looked at again.

use vstd::prelude::*;
use crate::detection::{Box, HandDetails};
use crate::fixed::Fixed;
use crate::overlap::{intersection_over_union, iou_raw, lemma_iou_symmetric};

verus! {

/// `sorted` with `d` put behind the last record whose score is at least
/// `d`'s.
pub open spec fn insert_by_score(sorted: Seq<HandDetails>, d: HandDetails) -> Seq<HandDetails>
    decreases sorted.len(),
{
    if sorted.len() == 0 {
        seq![d]
    } else if sorted.last().score@ >= d.score@ {
        sorted.push(d)
    } else {
        insert_by_score(sorted.drop_last(), d).push(sorted.last())
    }
}

/// The records of `s` by score, highest first; records of equal score stay in
/// the order that they have in `s`.
pub open spec fn sort_by_score(s: Seq<HandDetails>) -> Seq<HandDetails>
    decreases s.len(),
{
    if s.len() == 0 {
        Seq::empty()
    } else {
        insert_by_score(sort_by_score(s.drop_last()), s.last())
    }
}

/// No record has a higher score than one before it.
pub open spec fn scores_descend(s: Seq<HandDetails>) -> bool {
    forall|i: int, j: int| 0 <= i < j < s.len() ==> s[i].score@ >= s[j].score@
}

/// The records of `rest`, in order, whose overlap with `best` is below the
/// threshold.
pub open spec fn survivors(rest: Seq<HandDetails>, best: Box, threshold: int) -> Seq<HandDetails>
    decreases rest.len(),
{
    if rest.len() == 0 {
        Seq::empty()
    } else {
        let kept = survivors(rest.drop_last(), best, threshold);
        if iou_raw(best, rest.last().bbox) < threshold {
            kept.push(rest.last())
        } else {
            kept
        }
    }
}

/// What greedy suppression accepts from `ranked`, in the order of acceptance:
/// the first record, then what it accepts from the later records that overlap
/// the first by less than the threshold.
pub open spec fn greedy_select(ranked: Seq<HandDetails>, threshold: int) -> Seq<HandDetails>
    decreases ranked.len(),
{
    if ranked.len() == 0 {
        Seq::empty()
    } else {
        proof {
            lemma_survivors_len(ranked.skip(1), ranked[0].bbox, threshold);
        }
        seq![ranked[0]] + greedy_select(
            survivors(ranked.skip(1), ranked[0].bbox, threshold),
            threshold,
        )
    }
}

/// Filtering never adds a record.
pub proof fn lemma_survivors_len(rest: Seq<HandDetails>, best: Box, threshold: int)
    ensures
        survivors(rest, best, threshold).len() <= rest.len(),
    decreases rest.len(),
{
    if rest.len() > 0 {
        lemma_survivors_len(rest.drop_last(), best, threshold);
    }
}

/// Where `pos` splits `s` into records that score at least `d` and records
/// that score less, inserting by score puts `d` at `pos`.
proof fn lemma_insert_position(s: Seq<HandDetails>, d: HandDetails, pos: int)
    requires
        0 <= pos <= s.len(),
        forall|k: int| pos <= k < s.len() ==> s[k].score@ < d.score@,
        pos == 0 || s[pos - 1].score@ >= d.score@,
    ensures
        insert_by_score(s, d) == s.insert(pos, d),
    decreases s.len(),
{
    if s.len() == 0 {
        assert(seq![d] =~= s.insert(pos, d));
    } else if s.last().score@ >= d.score@ {
        assert(pos == s.len());
        assert(s.push(d) =~= s.insert(pos, d));
    } else {
        assert(pos < s.len());
        lemma_insert_position(s.drop_last(), d, pos);
        assert(s.drop_last().insert(pos, d).push(s.last()) =~= s.insert(pos, d));
    }
}

/// Inserting by score keeps a descending sequence descending, adds exactly the
/// inserted record, and leaves the others in place relative to each other.
pub proof fn lemma_insert_by_score(s: Seq<HandDetails>, d: HandDetails)
    requires
        scores_descend(s),
    ensures
        scores_descend(insert_by_score(s, d)),
        insert_by_score(s, d).len() == s.len() + 1,
        insert_by_score(s, d).to_multiset() == s.to_multiset().insert(d),
    decreases s.len(),
{
    broadcast use vstd::seq_lib::group_to_multiset_ensures;

    let r = insert_by_score(s, d);
    if s.len() == 0 {
        assert(seq![d] =~= s.push(d));
    } else if s.last().score@ >= d.score@ {
        assert forall|i: int, j: int| 0 <= i < j < r.len() implies r[i].score@ >= r[j].score@ by {
            if j == s.len() {
                if i < s.len() - 1 {
                    assert(s[i].score@ >= s[s.len() - 1].score@);
                }
            }
        }
    } else {
        let front = s.drop_last();
        lemma_insert_by_score(front, d);
        let inner = insert_by_score(front, d);
        assert(forall|k: int| 0 <= k < inner.len() ==> inner.to_multiset().count(inner[k]) > 0);
        assert forall|k: int| 0 <= k < inner.len() implies inner[k].score@ >= s.last().score@ by {
            let e = inner[k];
            assert(inner.to_multiset().count(e) > 0);
            if e != d {
                assert(front.to_multiset().count(e) > 0);
                assert(front.contains(e));
                let m = choose|m: int| 0 <= m < front.len() && front[m] == e;
                assert(s[m].score@ >= s[s.len() - 1].score@);
            }
        }
        assert(s =~= front.push(s.last()));
        assert(r.to_multiset() =~= s.to_multiset().insert(d));
    }
}

/// Sorting by score yields a descending sequence that holds exactly the
/// records of the input, each as often as the input does.
pub proof fn lemma_sort_by_score(s: Seq<HandDetails>)
    ensures
        scores_descend(sort_by_score(s)),
        sort_by_score(s).len() == s.len(),
        sort_by_score(s).to_multiset() == s.to_multiset(),
    decreases s.len(),
{
    broadcast use vstd::seq_lib::group_to_multiset_ensures;

    if s.len() == 0 {
        assert(sort_by_score(s) =~= s);
    } else {
        lemma_sort_by_score(s.drop_last());
        lemma_insert_by_score(sort_by_score(s.drop_last()), s.last());
        assert(s =~= s.drop_last().push(s.last()));
    }
}

/// A sequence that already descends by score is its own sorting.
pub proof fn lemma_sort_keeps_sorted(s: Seq<HandDetails>)
    requires
        scores_descend(s),
    ensures
        sort_by_score(s) == s,
    decreases s.len(),
{
    if s.len() == 0 {
        assert(sort_by_score(s) =~= s);
    } else {
        let front = s.drop_last();
        lemma_sort_keeps_sorted(front);
        if front.len() > 0 {
            assert(front.last() == s[s.len() - 2]);
            assert(s[s.len() - 2].score@ >= s[s.len() - 1].score@);
        }
        assert(insert_by_score(front, s.last()) =~= s);
    }
}

/// Every survivor is a record of the input that overlaps `best` by less than
/// the threshold, and survivors keep their order.
pub proof fn lemma_survivors(rest: Seq<HandDetails>, best: Box, threshold: int)
    ensures
        forall|k: int|
            0 <= k < survivors(rest, best, threshold).len() ==> {
                &&& rest.contains(#[trigger] survivors(rest, best, threshold)[k])
                &&& iou_raw(best, survivors(rest, best, threshold)[k].bbox) < threshold
            },
        forall|k: int|
            0 <= k < rest.len() && iou_raw(best, (#[trigger] rest[k]).bbox) < threshold
                ==> survivors(rest, best, threshold).contains(rest[k]),
        scores_descend(rest) ==> scores_descend(survivors(rest, best, threshold)),
    decreases rest.len(),
{
    let out = survivors(rest, best, threshold);
    if rest.len() > 0 {
        let front = rest.drop_last();
        let kept = survivors(front, best, threshold);
        lemma_survivors(front, best, threshold);
        assert forall|k: int| 0 <= k < out.len() implies rest.contains(#[trigger] out[k])
            && iou_raw(best, out[k].bbox) < threshold by {
            if k < kept.len() {
                assert(front.contains(kept[k]));
                let m = choose|m: int| 0 <= m < front.len() && front[m] == kept[k];
                assert(rest[m] == out[k]);
            } else {
                assert(rest[rest.len() - 1] == out[k]);
            }
        }
        assert forall|k: int|
            0 <= k < rest.len() && iou_raw(best, (#[trigger] rest[k]).bbox) < threshold implies out.contains(
            rest[k],
        ) by {
            if k < front.len() {
                assert(front[k] == rest[k]);
                assert(kept.contains(front[k]));
                let m = choose|m: int| 0 <= m < kept.len() && kept[m] == front[k];
                assert(out[m] == rest[k]);
            } else {
                assert(out[out.len() - 1] == rest[k]);
            }
        }
        if scores_descend(rest) {
            assert(scores_descend(front)) by {
                assert forall|i: int, j: int| 0 <= i < j < front.len() implies front[i].score@
                    >= front[j].score@ by {
                    assert(rest[i].score@ >= rest[j].score@);
                }
            }
            assert forall|i: int, j: int| 0 <= i < j < out.len() implies out[i].score@
                >= out[j].score@ by {
                if j < kept.len() {
                    assert(kept[i].score@ >= kept[j].score@);
                } else {
                    assert(front.contains(kept[i]));
                    let m = choose|m: int| 0 <= m < front.len() && front[m] == kept[i];
                    assert(rest[m].score@ >= rest[rest.len() - 1].score@);
                }
            }
        }
    }
}

/// What greedy suppression guarantees of its result.
///
/// Every accepted record is a candidate; the first candidate is always
/// accepted; no accepted record overlaps an earlier accepted one by the
/// threshold or more; every candidate is either accepted or overlaps an
/// accepted record by the threshold or more; and a ranking that descends by
/// score yields a result that descends by score.
pub proof fn lemma_greedy_select(ranked: Seq<HandDetails>, threshold: int)
    ensures
        greedy_select(ranked, threshold).len() <= ranked.len(),
        ranked.len() > 0 ==> greedy_select(ranked, threshold).len() > 0 && greedy_select(
            ranked,
            threshold,
        )[0] == ranked[0],
        forall|k: int|
            0 <= k < greedy_select(ranked, threshold).len() ==> ranked.contains(
                #[trigger] greedy_select(ranked, threshold)[k],
            ),
        forall|i: int, j: int|
            0 <= i < j < greedy_select(ranked, threshold).len() ==> iou_raw(
                (#[trigger] greedy_select(ranked, threshold)[i]).bbox,
                (#[trigger] greedy_select(ranked, threshold)[j]).bbox,
            ) < threshold,
        forall|k: int|
            0 <= k < ranked.len() ==> accepted_or_covered(
                greedy_select(ranked, threshold),
                #[trigger] ranked[k],
                threshold,
            ),
        scores_descend(ranked) ==> scores_descend(greedy_select(ranked, threshold)),
    decreases ranked.len(),
{
    let out = greedy_select(ranked, threshold);
    if ranked.len() > 0 {
        let best = ranked[0];
        let rest = ranked.skip(1);
        let left = survivors(rest, best.bbox, threshold);
        let tail = greedy_select(left, threshold);
        lemma_survivors_len(rest, best.bbox, threshold);
        lemma_survivors(rest, best.bbox, threshold);
        lemma_greedy_select(left, threshold);
        assert(out == seq![best] + tail);
        assert(out[0] == best);
        assert forall|k: int| 0 <= k < out.len() implies ranked.contains(#[trigger] out[k]) by {
            if k > 0 {
                assert(out[k] == tail[k - 1]);
                assert(left.contains(tail[k - 1]));
                let m = choose|m: int| 0 <= m < left.len() && left[m] == tail[k - 1];
                assert(rest.contains(left[m]));
                let n = choose|n: int| 0 <= n < rest.len() && rest[n] == left[m];
                assert(ranked[n + 1] == out[k]);
            } else {
                assert(ranked[0] == out[k]);
            }
        }
        assert forall|i: int, j: int| 0 <= i < j < out.len() implies iou_raw(
            (#[trigger] out[i]).bbox,
            (#[trigger] out[j]).bbox,
        ) < threshold by {
            assert(out[j] == tail[j - 1]);
            if i == 0 {
                assert(left.contains(tail[j - 1]));
                let m = choose|m: int| 0 <= m < left.len() && left[m] == tail[j - 1];
                assert(iou_raw(best.bbox, left[m].bbox) < threshold);
            } else {
                assert(out[i] == tail[i - 1]);
            }
        }
        assert forall|k: int| 0 <= k < ranked.len() implies accepted_or_covered(
            out,
            #[trigger] ranked[k],
            threshold,
        ) by {
            if k == 0 {
                assert(out[0] == ranked[k]);
            } else {
                assert(rest[k - 1] == ranked[k]);
                if iou_raw(best.bbox, ranked[k].bbox) < threshold {
                    assert(left.contains(rest[k - 1]));
                    let m = choose|m: int| 0 <= m < left.len() && left[m] == rest[k - 1];
                    assert(accepted_or_covered(tail, left[m], threshold));
                    let n = choose|n: int|
                        0 <= n < tail.len() && (tail[n] == left[m] || iou_raw(
                            tail[n].bbox,
                            left[m].bbox,
                        ) >= threshold);
                    assert(out[n + 1] == tail[n]);
                } else {
                    assert(iou_raw(out[0].bbox, ranked[k].bbox) >= threshold);
                }
            }
        }
        if scores_descend(ranked) {
            assert(scores_descend(rest)) by {
                assert forall|i: int, j: int| 0 <= i < j < rest.len() implies rest[i].score@
                    >= rest[j].score@ by {
                    assert(ranked[i + 1].score@ >= ranked[j + 1].score@);
                }
            }
            assert forall|i: int, j: int| 0 <= i < j < out.len() implies out[i].score@
                >= out[j].score@ by {
                assert(out[j] == tail[j - 1]);
                if i == 0 {
                    assert(ranked.contains(out[j]));
                    let n = choose|n: int| 0 <= n < ranked.len() && ranked[n] == out[j];
                    if n > 0 {
                        assert(ranked[0].score@ >= ranked[n].score@);
                    }
                } else {
                    assert(out[i] == tail[i - 1]);
                    assert(tail[i - 1].score@ >= tail[j - 1].score@);
                }
            }
        }
    }
}

/// The places in `rest` of the records that `survivors` keeps, in order.
pub open spec fn survivor_places(rest: Seq<HandDetails>, best: Box, threshold: int) -> Seq<int>
    decreases rest.len(),
{
    if rest.len() == 0 {
        Seq::empty()
    } else {
        let kept = survivor_places(rest.drop_last(), best, threshold);
        if iou_raw(best, rest.last().bbox) < threshold {
            kept.push(rest.len() - 1)
        } else {
            kept
        }
    }
}

/// The places in `ranked` of the records that `greedy_select` accepts, in the
/// order of acceptance.
pub open spec fn accepted_places(ranked: Seq<HandDetails>, threshold: int) -> Seq<int>
    decreases ranked.len(),
{
    if ranked.len() == 0 {
        Seq::empty()
    } else {
        proof {
            lemma_survivors_len(ranked.skip(1), ranked[0].bbox, threshold);
        }
        let places = survivor_places(ranked.skip(1), ranked[0].bbox, threshold);
        let inner = accepted_places(
            survivors(ranked.skip(1), ranked[0].bbox, threshold),
            threshold,
        );
        seq![0int] + Seq::new(inner.len(), |k: int| places[inner[k]] + 1)
    }
}

/// Every entry of `p` is less than the next.
pub open spec fn strictly_increasing(p: Seq<int>) -> bool {
    forall|i: int, j: int| 0 <= i < j < p.len() ==> p[i] < p[j]
}

/// `j` is an entry of `p`.
pub open spec fn listed(p: Seq<int>, j: int) -> bool {
    exists|k: int| 0 <= k < p.len() && #[trigger] p[k] == j
}

/// The record at place `j` of `ranked` is accepted, or a record that was
/// accepted from a place before `j` overlaps it by the threshold or more.
pub open spec fn accepted_or_outranked(
    ranked: Seq<HandDetails>,
    accepted: Seq<int>,
    j: int,
    threshold: int,
) -> bool {
    exists|n: int|
        0 <= n < accepted.len() && (#[trigger] accepted[n] == j || (accepted[n] < j && iou_raw(
            ranked[accepted[n]].bbox,
            ranked[j].bbox,
        ) >= threshold))
}

/// The survivors are exactly the records at the survivor places: the places in
/// `rest`, in ascending order, whose record overlaps `best` by less than the
/// threshold.
pub proof fn lemma_survivor_places(rest: Seq<HandDetails>, best: Box, threshold: int)
    ensures
        survivor_places(rest, best, threshold).len() == survivors(rest, best, threshold).len(),
        strictly_increasing(survivor_places(rest, best, threshold)),
        forall|k: int|
            0 <= k < survivor_places(rest, best, threshold).len() ==> {
                &&& 0 <= (#[trigger] survivor_places(rest, best, threshold)[k]) < rest.len()
                &&& survivors(rest, best, threshold)[k] == rest[survivor_places(
                    rest,
                    best,
                    threshold,
                )[k]]
                &&& iou_raw(best, rest[survivor_places(rest, best, threshold)[k]].bbox) < threshold
            },
        forall|j: int|
            0 <= j < rest.len() && iou_raw(best, (#[trigger] rest[j]).bbox) < threshold ==> listed(
                survivor_places(rest, best, threshold),
                j,
            ),
    decreases rest.len(),
{
    let places = survivor_places(rest, best, threshold);
    if rest.len() > 0 {
        let front = rest.drop_last();
        let before = survivor_places(front, best, threshold);
        lemma_survivor_places(front, best, threshold);
        assert forall|j: int|
            0 <= j < rest.len() && iou_raw(best, (#[trigger] rest[j]).bbox) < threshold implies listed(
            places,
            j,
        ) by {
            if j < front.len() {
                assert(front[j] == rest[j]);
                assert(listed(before, j));
                let k = choose|k: int| 0 <= k < before.len() && #[trigger] before[k] == j;
                assert(places[k] == j);
            } else {
                assert(places[places.len() - 1] == j);
            }
        }
    }
}

/// Suppression by places. The accepted records are the records at the
/// accepted places; these ascend, so the result keeps the order of the
/// ranking; and a record that is not accepted overlaps, by the threshold or
/// more, a record that was accepted from a place before its own.
pub proof fn lemma_accepted_places(ranked: Seq<HandDetails>, threshold: int)
    ensures
        accepted_places(ranked, threshold).len() == greedy_select(ranked, threshold).len(),
        strictly_increasing(accepted_places(ranked, threshold)),
        forall|k: int|
            0 <= k < accepted_places(ranked, threshold).len() ==> {
                &&& 0 <= (#[trigger] accepted_places(ranked, threshold)[k]) < ranked.len()
                &&& greedy_select(ranked, threshold)[k] == ranked[accepted_places(
                    ranked,
                    threshold,
                )[k]]
            },
        forall|j: int|
            0 <= j < ranked.len() ==> #[trigger] accepted_or_outranked(
                ranked,
                accepted_places(ranked, threshold),
                j,
                threshold,
            ),
    decreases ranked.len(),
{
    let acc = accepted_places(ranked, threshold);
    let out = greedy_select(ranked, threshold);
    if ranked.len() > 0 {
        let best = ranked[0];
        let rest = ranked.skip(1);
        let left = survivors(rest, best.bbox, threshold);
        let places = survivor_places(rest, best.bbox, threshold);
        let inner = accepted_places(left, threshold);
        let tail = greedy_select(left, threshold);
        lemma_survivors_len(rest, best.bbox, threshold);
        lemma_survivor_places(rest, best.bbox, threshold);
        lemma_accepted_places(left, threshold);
        assert(acc == seq![0int] + Seq::new(inner.len(), |k: int| places[inner[k]] + 1));
        assert(out == seq![best] + tail);
        assert(acc[0] == 0);
        assert forall|k: int| 1 <= k < acc.len() implies #[trigger] acc[k] == places[inner[k - 1]]
            + 1 && 1 <= acc[k] < ranked.len() && out[k] == ranked[acc[k]] by {
            let m = inner[k - 1];
            assert(0 <= m < left.len());
            assert(0 <= places[m] < rest.len());
            assert(out[k] == tail[k - 1]);
            assert(tail[k - 1] == left[m]);
            assert(left[m] == rest[places[m]]);
            assert(rest[places[m]] == ranked[places[m] + 1]);
        }
        assert forall|i: int, j: int| 0 <= i < j < acc.len() implies acc[i] < acc[j] by {
            assert(acc[j] == places[inner[j - 1]] + 1);
            if i > 0 {
                assert(acc[i] == places[inner[i - 1]] + 1);
                assert(inner[i - 1] < inner[j - 1]);
                assert(places[inner[i - 1]] < places[inner[j - 1]]);
            }
        }
        assert forall|k: int| 0 <= k < acc.len() implies 0 <= (#[trigger] acc[k]) < ranked.len()
            && out[k] == ranked[acc[k]] by {
            if k > 0 {
                assert(acc[k] == places[inner[k - 1]] + 1);
            }
        }
        assert forall|j: int| 0 <= j < ranked.len() implies #[trigger] accepted_or_outranked(
            ranked,
            acc,
            j,
            threshold,
        ) by {
            if j == 0 {
                assert(acc[0] == j);
            } else {
                assert(rest[j - 1] == ranked[j]);
                if iou_raw(best.bbox, ranked[j].bbox) < threshold {
                    assert(listed(places, j - 1));
                    let k = choose|k: int| 0 <= k < places.len() && #[trigger] places[k] == j - 1;
                    assert(left[k] == ranked[j]);
                    assert(accepted_or_outranked(left, inner, k, threshold));
                    let n = choose|n: int|
                        0 <= n < inner.len() && (#[trigger] inner[n] == k || (inner[n] < k
                            && iou_raw(left[inner[n]].bbox, left[k].bbox) >= threshold));
                    assert(acc[n + 1] == places[inner[n]] + 1);
                    assert(ranked[acc[n + 1]] == left[inner[n]]);
                    if inner[n] < k {
                        assert(places[inner[n]] < places[k]);
                    }
                } else {
                    assert(acc[0] < j && iou_raw(ranked[acc[0]].bbox, ranked[j].bbox) >= threshold);
                }
            }
        }
    }
}

/// Of three candidates, two of which overlap each other by the threshold or
/// more while the third overlaps neither that much, suppression keeps two: the
/// better of the pair, and the third. They come out by score, in whatever order
/// the three went in.
pub proof fn lemma_pair_and_loner(
    s: Seq<HandDetails>,
    better: int,
    worse: int,
    loner: int,
    threshold: int,
)
    requires
        s.len() == 3,
        0 <= better < 3 && 0 <= worse < 3 && 0 <= loner < 3,
        better != worse && better != loner && worse != loner,
        s[better].score@ > s[worse].score@,
        iou_raw(s[better].bbox, s[worse].bbox) >= threshold,
        iou_raw(s[better].bbox, s[loner].bbox) < threshold,
        iou_raw(s[worse].bbox, s[loner].bbox) < threshold,
    ensures
        greedy_select(sort_by_score(s), threshold).len() == 2,
        greedy_select(sort_by_score(s), threshold) == sort_by_score(
            if better < loner {
                seq![s[better], s[loner]]
            } else {
                seq![s[loner], s[better]]
            },
        ),
{
    lemma_iou_symmetric(s[better].bbox, s[worse].bbox);
    lemma_iou_symmetric(s[better].bbox, s[loner].bbox);
    lemma_iou_symmetric(s[worse].bbox, s[loner].bbox);
    let x = s[0];
    let y = s[1];
    let z = s[2];
    lemma_sort_three(x, y, z);
    assert(s =~= seq![x, y, z]);
    let r = sort_by_score(s);
    lemma_select_three(r[0], r[1], r[2], threshold);
    assert(r =~= seq![r[0], r[1], r[2]]);
    let pair = if better < loner {
        seq![s[better], s[loner]]
    } else {
        seq![s[loner], s[better]]
    };
    lemma_sort_two(pair[0], pair[1]);
    assert(pair =~= seq![pair[0], pair[1]]);
}

/// The sorting of two records.
proof fn lemma_sort_two(x: HandDetails, y: HandDetails)
    ensures
        sort_by_score(seq![x, y]) == if x.score@ >= y.score@ {
            seq![x, y]
        } else {
            seq![y, x]
        },
{
    let s = seq![x, y];
    assert(s.drop_last() =~= seq![x]);
    assert(seq![x].drop_last() =~= Seq::<HandDetails>::empty());
    assert(sort_by_score(Seq::<HandDetails>::empty()) =~= Seq::<HandDetails>::empty());
    assert(sort_by_score(seq![x]) =~= seq![x]);
    let one = seq![x];
    if x.score@ >= y.score@ {
        assert(insert_by_score(one, y) =~= seq![x, y]);
    } else {
        assert(insert_by_score(one.drop_last(), y) =~= seq![y]);
        assert(insert_by_score(one, y) =~= seq![y, x]);
    }
}

/// The sorting of three records.
proof fn lemma_sort_three(x: HandDetails, y: HandDetails, z: HandDetails)
    ensures
        sort_by_score(seq![x, y, z]) == if x.score@ >= y.score@ {
            if y.score@ >= z.score@ {
                seq![x, y, z]
            } else if x.score@ >= z.score@ {
                seq![x, z, y]
            } else {
                seq![z, x, y]
            }
        } else {
            if x.score@ >= z.score@ {
                seq![y, x, z]
            } else if y.score@ >= z.score@ {
                seq![y, z, x]
            } else {
                seq![z, y, x]
            }
        },
{
    let s = seq![x, y, z];
    assert(s.drop_last() =~= seq![x, y]);
    lemma_sort_two(x, y);
    let two = sort_by_score(seq![x, y]);
    let a = two[0];
    let b = two[1];
    assert(two =~= seq![a, b]);
    assert(two.drop_last() =~= seq![a]);
    assert(seq![a].drop_last() =~= Seq::<HandDetails>::empty());
    if b.score@ >= z.score@ {
        assert(insert_by_score(two, z) =~= seq![a, b, z]);
    } else if a.score@ >= z.score@ {
        assert(insert_by_score(seq![a], z) =~= seq![a, z]);
        assert(insert_by_score(two, z) =~= seq![a, z, b]);
    } else {
        assert(insert_by_score(Seq::<HandDetails>::empty(), z) =~= seq![z]);
        assert(insert_by_score(seq![a], z) =~= seq![z, a]);
        assert(insert_by_score(two, z) =~= seq![z, a, b]);
    }
}

/// What suppression keeps of three ranked records.
proof fn lemma_select_three(a: HandDetails, b: HandDetails, c: HandDetails, threshold: int)
    ensures
        greedy_select(seq![a, b, c], threshold) == {
            let keep_b = iou_raw(a.bbox, b.bbox) < threshold;
            let keep_c = iou_raw(a.bbox, c.bbox) < threshold;
            if keep_b && keep_c {
                if iou_raw(b.bbox, c.bbox) < threshold {
                    seq![a, b, c]
                } else {
                    seq![a, b]
                }
            } else if keep_b {
                seq![a, b]
            } else if keep_c {
                seq![a, c]
            } else {
                seq![a]
            }
        },
{
    let none = Seq::<HandDetails>::empty();
    let s = seq![a, b, c];
    let rest = s.skip(1);
    assert(rest =~= seq![b, c]);
    assert(rest.drop_last() =~= seq![b]);
    assert(seq![b].drop_last() =~= none);
    assert(survivors(none, a.bbox, threshold) =~= none);
    let after_b = survivors(seq![b], a.bbox, threshold);
    let left = survivors(rest, a.bbox, threshold);
    assert(greedy_select(none, threshold) =~= none);
    lemma_select_one(b, threshold);
    lemma_select_one(c, threshold);
    let keep_b = iou_raw(a.bbox, b.bbox) < threshold;
    let keep_c = iou_raw(a.bbox, c.bbox) < threshold;
    if keep_b && keep_c {
        assert(after_b =~= seq![b]);
        assert(left =~= seq![b, c]);
        assert(left.skip(1) =~= seq![c]);
        assert(seq![c].drop_last() =~= none);
        assert(survivors(none, b.bbox, threshold) =~= none);
        if iou_raw(b.bbox, c.bbox) < threshold {
            assert(survivors(seq![c], b.bbox, threshold) =~= seq![c]);
            assert(greedy_select(left, threshold) =~= seq![b, c]);
            assert(greedy_select(s, threshold) =~= seq![a, b, c]);
        } else {
            assert(survivors(seq![c], b.bbox, threshold) =~= none);
            assert(greedy_select(left, threshold) =~= seq![b]);
            assert(greedy_select(s, threshold) =~= seq![a, b]);
        }
    } else if keep_b {
        assert(after_b =~= seq![b]);
        assert(left =~= seq![b]);
        assert(greedy_select(s, threshold) =~= seq![a, b]);
    } else if keep_c {
        assert(after_b =~= none);
        assert(left =~= seq![c]);
        assert(greedy_select(s, threshold) =~= seq![a, c]);
    } else {
        assert(after_b =~= none);
        assert(left =~= none);
        assert(greedy_select(s, threshold) =~= seq![a]);
    }
}

/// Suppression keeps a single record.
proof fn lemma_select_one(a: HandDetails, threshold: int)
    ensures
        greedy_select(seq![a], threshold) == seq![a],
{
    let none = Seq::<HandDetails>::empty();
    assert(seq![a].skip(1) =~= none);
    assert(survivors(none, a.bbox, threshold) =~= none);
    assert(greedy_select(none, threshold) =~= none);
    assert(greedy_select(seq![a], threshold) =~= seq![a]);
}

/// `d` is among `accepted`, or overlaps one of them by the threshold or more.
pub open spec fn accepted_or_covered(
    accepted: Seq<HandDetails>,
    d: HandDetails,
    threshold: int,
) -> bool {
    exists|n: int|
        0 <= n < accepted.len() && (#[trigger] accepted[n] == d || iou_raw(accepted[n].bbox, d.bbox)
            >= threshold)
}

/// The candidates by score, highest first; equal scores keep their order.
pub fn rank_by_score(candidates: &Vec<HandDetails>) -> (ranked: Vec<HandDetails>)
    ensures
        ranked@ == sort_by_score(candidates@),
{
    let mut ranked: Vec<HandDetails> = Vec::new();
    let mut i: usize = 0;
    while i < candidates.len()
        invariant
            i <= candidates.len(),
            ranked@ == sort_by_score(candidates@.take(i as int)),
        decreases candidates.len() - i,
    {
        let d: HandDetails = candidates[i];
        let mut pos: usize = ranked.len();
        while pos > 0 && !ranked[pos - 1].score.ge(d.score)
            invariant
                pos <= ranked.len(),
                forall|k: int| pos <= k < ranked.len() ==> ranked@[k].score@ < d.score@,
            decreases pos,
        {
            pos -= 1;
        }
        proof {
            lemma_insert_position(ranked@, d, pos as int);
            assert(candidates@.take(i + 1).drop_last() =~= candidates@.take(i as int));
        }
        ranked.insert(pos, d);
        i += 1;
    }
    proof {
        assert(candidates@.take(candidates.len() as int) =~= candidates@);
    }
    ranked
}

/// Greedy non-maximum suppression of `candidates`.
///
/// The result holds the accepted records in the order of acceptance, so by
/// score, highest first.
pub fn apply_nms(candidates: Vec<HandDetails>, iou_threshold: Fixed) -> (selected: Vec<HandDetails>)
    ensures
        selected@ == greedy_select(sort_by_score(candidates@), iou_threshold@),
        selected@.len() <= candidates@.len(),
        candidates@.len() > 0 ==> selected@.len() > 0,
        scores_descend(selected@),
        forall|k: int| 0 <= k < selected@.len() ==> candidates@.contains(#[trigger] selected@[k]),
        forall|i: int, j: int|
            0 <= i < j < selected@.len() ==> iou_raw(
                (#[trigger] selected@[i]).bbox,
                (#[trigger] selected@[j]).bbox,
            ) < iou_threshold@,
{
    let mut remaining: Vec<HandDetails> = rank_by_score(&candidates);
    let ghost ranked = remaining@;
    let mut selected: Vec<HandDetails> = Vec::new();
    while remaining.len() > 0
        invariant
            selected@ + greedy_select(remaining@, iou_threshold@) == greedy_select(
                ranked,
                iou_threshold@,
            ),
        decreases remaining.len(),
    {
        let best: HandDetails = remaining[0];
        let mut kept: Vec<HandDetails> = Vec::new();
        let mut j: usize = 1;
        while j < remaining.len()
            invariant
                1 <= j <= remaining.len(),
                best == remaining@[0],
                kept@ == survivors(remaining@.subrange(1, j as int), best.bbox, iou_threshold@),
            decreases remaining.len() - j,
        {
            let item: HandDetails = remaining[j];
            let overlap: Fixed = intersection_over_union(&best.bbox, &item.bbox);
            proof {
                assert(remaining@.subrange(1, j + 1).drop_last() =~= remaining@.subrange(
                    1,
                    j as int,
                ));
            }
            if !overlap.ge(iou_threshold) {
                kept.push(item);
            }
            j += 1;
        }
        proof {
            assert(remaining@.subrange(1, remaining.len() as int) =~= remaining@.skip(1));
            lemma_survivors_len(remaining@.skip(1), best.bbox, iou_threshold@);
            assert(selected@.push(best) + greedy_select(kept@, iou_threshold@) =~= selected@ + (
            seq![best] + greedy_select(kept@, iou_threshold@)));
        }
        selected.push(best);
        remaining = kept;
    }
    proof {
        assert(selected@ + Seq::<HandDetails>::empty() =~= selected@);
        lemma_sort_by_score(candidates@);
        lemma_greedy_select(ranked, iou_threshold@);
        assert forall|k: int| 0 <= k < selected@.len() implies candidates@.contains(
            #[trigger] selected@[k],
        ) by {
            broadcast use vstd::seq_lib::group_to_multiset_ensures;

            assert(ranked.contains(selected@[k]));
            assert(ranked.to_multiset().count(selected@[k]) > 0);
        }
    }
    selected
}

} // verus!
