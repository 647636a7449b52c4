//! Depth resolution: which of the candidate sections is seen at a pixel.
//!
//! A depth is held as the bit pattern of the 32-bit float that the render
//! stores. Depths are compared through [`depth_key`], an integer that
//! orders the patterns as the floats they stand for are ordered.

use vstd::prelude::*;

verus! {

/// The position of a depth in the order of the floats: the magnitude bits
/// for a pattern with a clear sign bit, their negation for one with the
/// sign bit set. Both zeros get key 0, and a larger float has a larger key.
/// The patterns that are no number lie beyond the infinities.
pub open spec fn depth_key(depth: u32) -> int {
    if depth >= 0x8000_0000 {
        -(depth - 0x8000_0000)
    } else {
        depth as int
    }
}

/// The key of `depth` in the order of depths.
pub fn key_of(depth: u32) -> (key: i64)
    ensures
        key == depth_key(depth),
{
    if depth >= 0x8000_0000 {
        -((depth - 0x8000_0000) as i64)
    } else {
        depth as i64
    }
}

/// A section with this depth covers the pixel: the depth is neither zero
/// nor the sentinel that the render writes where it shows nothing.
pub open spec fn covers(depth: u32, sentinel: u32) -> bool {
    depth_key(depth) != 0 && depth != sentinel
}

/// Whether a section with this depth covers the pixel.
pub fn covers_pixel(depth: u32, sentinel: u32) -> (covered: bool)
    ensures
        covered == covers(depth, sentinel),
{
    key_of(depth) != 0 && depth != sentinel
}

/// Candidate `a` is ranked before candidate `b`: it has the greater depth,
/// or the same depth and the earlier position.
pub open spec fn ranked_before(depths: Seq<u32>, a: int, b: int) -> bool {
    depth_key(depths[a]) > depth_key(depths[b]) || (depth_key(depths[a]) == depth_key(depths[b])
        && a < b)
}

/// Candidate `w` wins the pixel: it is eligible and ranked before every
/// other eligible candidate.
pub open spec fn is_winner(depths: Seq<u32>, eligible: Seq<bool>, w: int) -> bool {
    &&& 0 <= w < depths.len()
    &&& eligible[w]
    &&& forall|j: int|
        0 <= j < depths.len() && j != w && #[trigger] eligible[j] ==> ranked_before(depths, w, j)
}

/// The winner of a pixel, or `None` where no candidate is eligible.
pub open spec fn winner_spec(depths: Seq<u32>, eligible: Seq<bool>) -> Option<int> {
    if exists|w: int| is_winner(depths, eligible, w) {
        Some(choose|w: int| is_winner(depths, eligible, w))
    } else {
        None
    }
}

/// A pixel has at most one winner.
pub proof fn lemma_winner_unique(depths: Seq<u32>, eligible: Seq<bool>, a: int, b: int)
    requires
        is_winner(depths, eligible, a),
        is_winner(depths, eligible, b),
    ensures
        a == b,
{
}

/// A pixel has a winner exactly if some candidate is eligible.
pub proof fn lemma_winner_exists(depths: Seq<u32>, eligible: Seq<bool>)
    requires
        depths.len() == eligible.len(),
    ensures
        winner_spec(depths, eligible).is_some() <==> exists|j: int|
            0 <= j < depths.len() && #[trigger] eligible[j],
        winner_spec(depths, eligible).is_some() ==> is_winner(
            depths,
            eligible,
            winner_spec(depths, eligible).unwrap(),
        ),
{
    if exists|j: int| 0 <= j < depths.len() && #[trigger] eligible[j] {
        lemma_best_of_prefix(depths, eligible, depths.len() as int);
        let w = choose|w: int| is_best_of_prefix(depths, eligible, depths.len() as int, w);
        assert(is_winner(depths, eligible, w));
    }
    if winner_spec(depths, eligible).is_some() {
        let w = choose|w: int| is_winner(depths, eligible, w);
        assert(eligible[w]);
    }
}

/// Candidate `w` is eligible and ranked before every other eligible
/// candidate among the first `n`.
spec fn is_best_of_prefix(depths: Seq<u32>, eligible: Seq<bool>, n: int, w: int) -> bool {
    &&& 0 <= w < n
    &&& eligible[w]
    &&& forall|j: int| 0 <= j < n && j != w && #[trigger] eligible[j] ==> ranked_before(depths, w, j)
}

proof fn lemma_best_of_prefix(depths: Seq<u32>, eligible: Seq<bool>, n: int)
    requires
        depths.len() == eligible.len(),
        0 <= n <= depths.len(),
        exists|j: int| 0 <= j < n && #[trigger] eligible[j],
    ensures
        exists|w: int| is_best_of_prefix(depths, eligible, n, w),
    decreases n,
{
    let m = n - 1;
    if exists|j: int| 0 <= j < m && #[trigger] eligible[j] {
        lemma_best_of_prefix(depths, eligible, m);
        let w = choose|w: int| is_best_of_prefix(depths, eligible, m, w);
        if eligible[n - 1] && depth_key(depths[n - 1]) > depth_key(depths[w]) {
            assert(is_best_of_prefix(depths, eligible, n, n - 1));
        } else {
            assert(is_best_of_prefix(depths, eligible, n, w));
        }
    } else {
        assert(eligible[n - 1]);
        assert(is_best_of_prefix(depths, eligible, n, n - 1));
    }
}

/// Picks the section that is seen at a pixel: among the eligible
/// candidates the one with the greatest depth, and among those of equal
/// depth the earliest. A candidate that is not eligible never wins; where
/// none is eligible, nothing covers the pixel and the result is `None`.
pub fn resolve(depths: &Vec<u32>, eligible: &Vec<bool>) -> (winner: Option<usize>)
    requires
        depths.len() == eligible.len(),
    ensures
        match winner {
            Some(w) => is_winner(depths@, eligible@, w as int),
            None => forall|j: int| 0 <= j < depths.len() ==> !#[trigger] eligible[j],
        },
        winner.is_some() == winner_spec(depths@, eligible@).is_some(),
        winner.is_some() ==> winner.unwrap() == winner_spec(depths@, eligible@).unwrap(),
{
    let mut best: Option<usize> = None;
    let mut i: usize = 0;
    while i < depths.len()
        invariant
            i <= depths.len(),
            depths.len() == eligible.len(),
            match best {
                Some(w) => is_best_of_prefix(depths@, eligible@, i as int, w as int),
                None => forall|j: int| 0 <= j < i ==> !#[trigger] eligible[j],
            },
        decreases depths.len() - i,
    {
        if eligible[i] {
            match best {
                Some(w) => {
                    if key_of(depths[i]) > key_of(depths[w]) {
                        best = Some(i);
                    }
                },
                None => {
                    best = Some(i);
                },
            }
        }
        i += 1;
    }
    proof {
        lemma_winner_exists(depths@, eligible@);
        match best {
            Some(w) => {
                assert(is_winner(depths@, eligible@, w as int));
                lemma_winner_unique(
                    depths@,
                    eligible@,
                    w as int,
                    winner_spec(depths@, eligible@).unwrap(),
                );
            },
            None => {},
        }
    }
    best
}

/// `ranking` lists the candidates by rank: every entry is a candidate, and
/// an entry is ranked before every entry that follows it. Such a list has
/// each candidate once, first the one of greatest depth, and candidates of
/// equal depth in the order of their positions.
pub open spec fn is_ranking(depths: Seq<u32>, ranking: Seq<usize>) -> bool {
    &&& ranking.len() == depths.len()
    &&& forall|a: int| 0 <= a < ranking.len() ==> 0 <= #[trigger] ranking[a] < depths.len()
    &&& forall|a: int, b: int|
        0 <= a < b < ranking.len() ==> ranked_before(
            depths,
            #[trigger] ranking[a] as int,
            #[trigger] ranking[b] as int,
        )
}

/// Two rankings of the same candidates agree on their first `n` places.
proof fn lemma_ranking_places(depths: Seq<u32>, first: Seq<usize>, second: Seq<usize>, n: int)
    requires
        is_ranking(depths, first),
        is_ranking(depths, second),
        0 <= n <= depths.len(),
    ensures
        first.take(n) == second.take(n),
    decreases n,
{
    if n > 0 {
        let m = n - 1;
        lemma_ranking_places(depths, first, second, m);
        assert(first.take(m) =~= first.take(n).take(m));
        assert(second.take(m) =~= second.take(n).take(m));
        assert forall|k: int| 0 <= k < m implies first[k] == second[k] by {
            assert(first.take(m)[k] == second.take(m)[k]);
        }
        let a = first[m] as int;
        let b = second[m] as int;
        if a != b {
            // Each of the two stands later in the other ranking, so each is
            // ranked before the other.
            lemma_ranking_holds_all(depths, second, a);
            lemma_ranking_holds_all(depths, first, b);
            let at_a = choose|k: int| 0 <= k < second.len() && #[trigger] second[k] == a;
            let at_b = choose|k: int| 0 <= k < first.len() && #[trigger] first[k] == b;
            if at_a < m {
                assert(first[at_a] == second[at_a]);
                assert(ranked_before(depths, first[at_a] as int, first[m] as int));
            }
            if at_b < m {
                assert(first[at_b] == second[at_b]);
                assert(ranked_before(depths, second[at_b] as int, second[m] as int));
            }
            assert(ranked_before(depths, second[m] as int, second[at_a] as int));
            assert(ranked_before(depths, first[m] as int, first[at_b] as int));
        }
        assert(first.take(n) =~= second.take(n));
    }
}

/// A ranking holds every candidate.
proof fn lemma_ranking_holds_all(depths: Seq<u32>, ranking: Seq<usize>, c: int)
    requires
        is_ranking(depths, ranking),
        0 <= c < depths.len(),
    ensures
        exists|k: int| 0 <= k < ranking.len() && #[trigger] ranking[k] == c,
{
    // The entries are distinct, since none is ranked before itself; so the
    // ranking is an injection of the positions into the candidates.
    assert forall|a: int, b: int| 0 <= a < b < ranking.len() implies ranking[a] != ranking[b] by {
        assert(ranked_before(depths, ranking[a] as int, ranking[b] as int));
    }
    lemma_injection_is_onto(ranking, depths.len() as int, c);
}

/// A list of `n` distinct numbers below `n` holds every number below `n`.
proof fn lemma_injection_is_onto(list: Seq<usize>, n: int, c: int)
    requires
        list.len() == n,
        0 <= c < n,
        forall|a: int| 0 <= a < n ==> 0 <= #[trigger] list[a] < n,
        forall|a: int, b: int| 0 <= a < b < n ==> #[trigger] list[a] != #[trigger] list[b],
    ensures
        exists|k: int| 0 <= k < n && #[trigger] list[k] == c,
    decreases n,
{
    if !exists|k: int| 0 <= k < n && #[trigger] list[k] == c {
        // Drop the entry that holds the greatest number, or the last entry
        // where no entry holds it, and move `c` into the range below.
        let top = n - 1;
        if c == top {
            // No entry holds `top`: all entries are below `top`, so the
            // first `top` of them are distinct numbers below `top`, and the
            // last one is among the numbers they hold.
            if top > 0 {
                let last = list[top] as int;
                assert(last != top);
                let shorter = list.take(top);
                assert forall|a: int| 0 <= a < top implies 0 <= #[trigger] shorter[a] < top by {
                    assert(list[a] != c);
                }
                lemma_injection_is_onto(shorter, top, last);
                let k = choose|k: int| 0 <= k < top && #[trigger] shorter[k] == last;
                assert(list[k] == list[top]);
            } else {
                assert(list[0] != c);
            }
        } else {
            // Swap `top` out: the list with every `top` replaced by `c`.
            let shorter = Seq::new(
                top as nat,
                |a: int|
                    if list[a] == top {
                        c as usize
                    } else {
                        list[a]
                    },
            );
            if exists|k: int| 0 <= k < n && #[trigger] list[k] == top {
                let at = choose|k: int| 0 <= k < n && #[trigger] list[k] == top;
                if at == top {
                    let plain = list.take(top);
                    assert forall|a: int| 0 <= a < top implies 0 <= #[trigger] plain[a] < top by {
                        assert(list[a] != list[top]);
                    }
                    lemma_injection_is_onto(plain, top, c);
                    let k = choose|k: int| 0 <= k < top && #[trigger] plain[k] == c;
                    assert(list[k] == c);
                } else {
                    // The last entry is below `top` and is not `c`; the first
                    // `top` entries with `top` replaced by `c` are distinct
                    // numbers below `top`, so one of them is the last entry.
                    let last = list[top] as int;
                    assert(list[top] != list[at]);
                    assert(list[top] != c);
                    assert forall|a: int, b: int| 0 <= a < b < top implies #[trigger] shorter[a]
                        != #[trigger] shorter[b] by {
                        assert(list[a] != list[b]);
                        assert(list[a] != c && list[b] != c);
                    }
                    lemma_injection_is_onto(shorter, top, last);
                    let k = choose|k: int| 0 <= k < top && #[trigger] shorter[k] == last;
                    assert(list[k] != top);
                    assert(list[k] == list[top]);
                }
            } else {
                let plain = list.take(top);
                lemma_injection_is_onto(plain, top, c);
                let k = choose|k: int| 0 <= k < top && #[trigger] plain[k] == c;
                assert(list[k] == c);
            }
        }
    }
}

/// The candidates of a pixel have one ranking only.
pub proof fn lemma_ranking_unique(depths: Seq<u32>, first: Seq<usize>, second: Seq<usize>)
    requires
        is_ranking(depths, first),
        is_ranking(depths, second),
    ensures
        first == second,
{
    lemma_ranking_places(depths, first, second, depths.len() as int);
    assert(first.take(depths.len() as int) =~= first);
    assert(second.take(depths.len() as int) =~= second);
}

/// Where every candidate is eligible, the first of the ranking is the
/// winner.
pub proof fn lemma_ranking_starts_with_winner(depths: Seq<u32>, ranking: Seq<usize>)
    requires
        is_ranking(depths, ranking),
        depths.len() > 0,
    ensures
        is_winner(depths, Seq::new(depths.len(), |i: int| true), ranking[0] as int),
{
    let all = Seq::new(depths.len(), |i: int| true);
    let w = ranking[0] as int;
    assert forall|j: int| 0 <= j < depths.len() && j != w && #[trigger] all[j] implies ranked_before(
        depths,
        w,
        j,
    ) by {
        lemma_ranking_holds_all(depths, ranking, j);
        let k = choose|k: int| 0 <= k < ranking.len() && #[trigger] ranking[k] == j;
        assert(ranked_before(depths, ranking[0] as int, ranking[k] as int));
    }
}

/// The winner is the first eligible candidate of the ranking: every
/// candidate that the ranking lists before it is not eligible.
pub proof fn lemma_winner_is_first_eligible(
    depths: Seq<u32>,
    eligible: Seq<bool>,
    ranking: Seq<usize>,
    w: int,
) -> (place: int)
    requires
        depths.len() == eligible.len(),
        is_ranking(depths, ranking),
        is_winner(depths, eligible, w),
    ensures
        0 <= place < ranking.len(),
        ranking[place] == w,
        forall|b: int| 0 <= b < place ==> !eligible[#[trigger] ranking[b] as int],
{
    lemma_ranking_holds_all(depths, ranking, w);
    let place = choose|k: int| 0 <= k < ranking.len() && #[trigger] ranking[k] == w;
    assert forall|b: int| 0 <= b < place implies !eligible[#[trigger] ranking[b] as int] by {
        assert(ranked_before(depths, ranking[b] as int, ranking[place] as int));
    }
    place
}

/// Ranks the candidates of a pixel by depth: the positions of the
/// candidates, from the greatest depth to the smallest, candidates of equal
/// depth in the order of their positions.
pub fn rank(depths: &Vec<u32>) -> (ranking: Vec<usize>)
    ensures
        is_ranking(depths@, ranking@),
{
    let mut ranking: Vec<usize> = Vec::new();
    let mut i: usize = 0;
    while i < depths.len()
        invariant
            i <= depths.len(),
            ranking.len() == i,
            forall|a: int| 0 <= a < i ==> 0 <= #[trigger] ranking@[a] < i,
            forall|a: int, b: int|
                0 <= a < b < i ==> ranked_before(
                    depths@,
                    #[trigger] ranking@[a] as int,
                    #[trigger] ranking@[b] as int,
                ),
        decreases depths.len() - i,
    {
        let key = key_of(depths[i]);
        let mut at: usize = 0;
        while at < ranking.len() && key_of(depths[ranking[at]]) >= key
            invariant
                at <= ranking.len(),
                ranking.len() == i,
                i < depths.len(),
                key == depth_key(depths@[i as int]),
                forall|a: int| 0 <= a < i ==> 0 <= #[trigger] ranking@[a] < i,
                forall|a: int|
                    0 <= a < at ==> depth_key(depths@[#[trigger] ranking@[a] as int]) >= key,
            decreases ranking.len() - at,
        {
            at += 1;
        }
        let ghost before = ranking@;
        ranking.insert(at, i);
        proof {
            assert forall|a: int, b: int| 0 <= a < b < i + 1 implies ranked_before(
                depths@,
                #[trigger] ranking@[a] as int,
                #[trigger] ranking@[b] as int,
            ) by {
                if b < at {
                    assert(ranking@[a] == before[a] && ranking@[b] == before[b]);
                } else if b == at {
                    assert(ranking@[a] == before[a]);
                } else if a < at {
                    assert(ranking@[a] == before[a] && ranking@[b] == before[b - 1]);
                } else if a == at {
                    assert(ranking@[b] == before[b - 1]);
                    if b - 1 > at {
                        assert(ranked_before(depths@, before[at as int] as int, before[b - 1] as int));
                    }
                } else {
                    assert(ranking@[a] == before[a - 1] && ranking@[b] == before[b - 1]);
                }
            }
        }
        i += 1;
    }
    ranking
}

} // verus!
