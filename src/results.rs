use crate::bout::{Bout, TuplePos};
use crate::fencer::Fencer;
use crate::placement::Placement;
use crate::pools::PoolSheet;
use vstd::prelude::*;
use vstd::std_specs::iter::IteratorSpec;

verus! {

/// One fencer's record over a finished pool, with their final place.
/// `fencer` is the fencer's position in the pool.
#[derive(Debug, Clone, Copy, PartialEq, Eq, Structural)]
pub struct FencerResult {
    pub fencer: usize,
    pub victories: usize,
    pub touches_scored: u128,
    pub touches_recieved: u128,
    pub indicator: i128,
    pub place: Placement,
}

/// A score, or zero when it is not set.
pub open spec fn score_or_zero(s: Option<u8>) -> int {
    match s {
        Some(x) => x as int,
        None => 0,
    }
}

/// The touches that `fencer` scored in `b`.
pub open spec fn scored_in(b: Bout, fencer: usize) -> int {
    match b.fencers.side_of(fencer) {
        TuplePos::First => score_or_zero(b.scores.0),
        TuplePos::Second => score_or_zero(b.scores.1),
        TuplePos::Unset => 0,
    }
}

/// The touches that `fencer` received in `b`.
pub open spec fn received_in(b: Bout, fencer: usize) -> int {
    match b.fencers.side_of(fencer) {
        TuplePos::First => score_or_zero(b.scores.1),
        TuplePos::Second => score_or_zero(b.scores.0),
        TuplePos::Unset => 0,
    }
}

/// The victories, touches scored and touches received of `fencer` over the
/// first `n` bouts of `e`.
pub open spec fn tally(e: Seq<((usize, usize), Bout)>, n: int, fencer: usize) -> (int, int, int)
    decreases n,
{
    if n <= 0 {
        (0, 0, 0)
    } else {
        let t = tally(e, n - 1, fencer);
        let b = e[n - 1].1;
        (
            t.0 + if b.winner() == Some(fencer) {
                1int
            } else {
                0int
            },
            t.1 + scored_in(b, fencer),
            t.2 + received_in(b, fencer),
        )
    }
}

/// What a result is ranked by: victories, then indicator.
pub open spec fn rank_key(r: FencerResult) -> (int, int) {
    (r.victories as int, r.indicator as int)
}

/// `a` ranks ahead of `b`, or level with it.
pub open spec fn key_ge(a: (int, int), b: (int, int)) -> bool {
    a.0 > b.0 || (a.0 == b.0 && a.1 >= b.1)
}

/// The first index of the run of equal keys that ends at `k`.
pub open spec fn group_start(ks: Seq<(int, int)>, k: int) -> int
    decreases k,
{
    if k <= 0 {
        0
    } else if ks[k - 1] != ks[k] {
        k
    } else {
        group_start(ks, k - 1)
    }
}

/// The key at `k` equals a neighbour's.
pub open spec fn tied_at(ks: Seq<(int, int)>, k: int) -> bool {
    (k > 0 && ks[k - 1] == ks[k]) || (k + 1 < ks.len() && ks[k + 1] == ks[k])
}

/// The place of index `k` in the ranked keys `ks`: a run of equal keys
/// shares, as tied, the place of its first index; any other index has its
/// own place. Places count from one, so the run is followed by the place of
/// its first index plus its length.
pub open spec fn placement_at(ks: Seq<(int, int)>, k: int) -> Placement {
    if tied_at(ks, k) {
        Placement::Tied((group_start(ks, k) + 1) as usize)
    } else {
        Placement::Absolute((k + 1) as usize)
    }
}

/// When neighbouring ranking keys all differ, every place is held alone and
/// follows the ranking: the k-th result is placed k.
pub proof fn lemma_untied_places(ks: Seq<(int, int)>)
    requires
        ks.len() <= usize::MAX,
        forall|k: int| 0 < k < ks.len() ==> #[trigger] ks[k - 1] != ks[k],
    ensures
        forall|k: int| 0 <= k < ks.len() ==> #[trigger] placement_at(ks, k) == Placement::Absolute((k + 1) as usize),
{
    assert forall|k: int| 0 <= k < ks.len() implies #[trigger] placement_at(ks, k) == Placement::Absolute((k + 1) as usize) by {
        if k + 1 < ks.len() {
            assert(ks[k + 1 - 1] != ks[k + 1]);
        }
    }
}

/// Two results level with each other, and with nobody else, share the place
/// of the first as tied, and the next result is placed two further on.
pub proof fn lemma_tied_pair_places(ks: Seq<(int, int)>, g: int)
    requires
        ks.len() <= usize::MAX,
        0 <= g,
        g + 2 < ks.len(),
        g == 0 || ks[g - 1] != ks[g],
        ks[g] == ks[g + 1],
        ks[g + 1] != ks[g + 2],
        g + 3 >= ks.len() || ks[g + 3] != ks[g + 2],
    ensures
        placement_at(ks, g) == Placement::Tied((g + 1) as usize),
        placement_at(ks, g + 1) == Placement::Tied((g + 1) as usize),
        placement_at(ks, g + 2) == Placement::Absolute((g + 3) as usize),
{
    assert(group_start(ks, g) == g);
    assert(group_start(ks, g + 1) == group_start(ks, g));
}

/// The ranking keys of `rs`, in order.
pub open spec fn result_keys(rs: Seq<FencerResult>) -> Seq<(int, int)> {
    rs.map_values(|r: FencerResult| rank_key(r))
}

/// `rs` ranks the `n` fencers of a pool with the bouts `e`: one result per
/// fencer, holding the fencer's tallies, from the best to the worst by
/// victories and then indicator, with the places that follow.
pub open spec fn ranks_pool(n: nat, e: Seq<((usize, usize), Bout)>, rs: Seq<FencerResult>) -> bool {
    &&& rs.len() == n
    &&& forall|k: int|
        0 <= k < rs.len() ==> {
            let t = tally(e, e.len() as int, (#[trigger] rs[k]).fencer);
            &&& rs[k].fencer < n
            &&& rs[k].victories == t.0
            &&& rs[k].touches_scored == t.1
            &&& rs[k].touches_recieved == t.2
            &&& rs[k].indicator == t.1 - t.2
        }
    &&& forall|k: int, l: int|
        0 <= k < rs.len() && 0 <= l < rs.len() && k != l ==> (#[trigger] rs[k]).fencer != (
        #[trigger] rs[l]).fencer
    &&& forall|k: int, l: int|
        0 <= k < l < rs.len() ==> key_ge(rank_key(#[trigger] rs[k]), rank_key(#[trigger] rs[l]))
    &&& forall|k: int| 0 <= k < rs.len() ==> (#[trigger] rs[k]).place == placement_at(result_keys(rs), k)
}

/// The ranking of a finished pool, best first.
#[derive(Debug, Clone)]
pub struct PoolResults(pub Vec<FencerResult>);

/// `a` comes before `b`, or equals it, in the order of tuples.
pub open spec fn ranked_le(a: (usize, i128, u64, usize), b: (usize, i128, u64, usize)) -> bool {
    a.0 < b.0 || (a.0 == b.0 && (a.1 < b.1 || (a.1 == b.1 && (a.2 < b.2 || (a.2 == b.2 && a.3 <= b.3)))))
}

/// Relies on `rand::random`: a value drawn at random, of which nothing is
/// known.
#[verifier::external_body]
fn draw() -> (r: u64) {
    rand::random::<u64>()
}

/// Relies on `slice::sort_unstable`: the same items, in ascending order of
/// tuples, which compare field by field.
#[verifier::external_body]
fn sort_ranked(v: &mut Vec<(usize, i128, u64, usize)>)
    ensures
        final(v)@.to_multiset() == old(v)@.to_multiset(),
        forall|k: int, l: int| 0 <= k < l < final(v)@.len() ==> ranked_le(#[trigger] final(v)@[k], #[trigger] final(v)@[l]),
{
    v.sort_unstable()
}

/// Victories, touches scored and touches received of every fencer of a
/// finished pool, by position.
#[verifier::rlimit(40)]
fn tallies<T: Fencer>(pool: &PoolSheet<T>) -> (r: (Vec<usize>, Vec<u128>, Vec<u128>))
    requires
        pool.wf(),
        forall|i: int| 0 <= i < pool.entries().len() ==> (#[trigger] pool.entries()[i]).1.winner() is Some,
    ensures
        r.0@.len() == pool.fencer_seq().len(),
        r.1@.len() == pool.fencer_seq().len(),
        r.2@.len() == pool.fencer_seq().len(),
        pool.entries().len() <= usize::MAX,
        forall|f: int|
            0 <= f < pool.fencer_seq().len() ==> #[trigger] r.1@[f] <= 255 * pool.entries().len() && r.2@[f]
                <= 255 * pool.entries().len(),
        forall|f: int|
            0 <= f < pool.fencer_seq().len() ==> #[trigger] r.0@[f] == tally(
                pool.entries(),
                pool.entries().len() as int,
                f as usize,
            ).0,
        forall|f: int|
            0 <= f < pool.fencer_seq().len() ==> #[trigger] r.1@[f] == tally(
                pool.entries(),
                pool.entries().len() as int,
                f as usize,
            ).1,
        forall|f: int|
            0 <= f < pool.fencer_seq().len() ==> #[trigger] r.2@[f] == tally(
                pool.entries(),
                pool.entries().len() as int,
                f as usize,
            ).2,
{
    let ghost e = pool.entries();
    let n = pool.get_fencers().len();
    let m = pool.bout_total();
    let mut victories: Vec<usize> = Vec::new();
    let mut scored: Vec<u128> = Vec::new();
    let mut received: Vec<u128> = Vec::new();
    let mut f: usize = 0;
    while f < n
        invariant
            f <= n,
            victories@.len() == f,
            scored@.len() == f,
            received@.len() == f,
            forall|g: int| 0 <= g < f ==> #[trigger] victories@[g] == 0 && scored@[g] == 0 && received@[g] == 0,
        decreases n - f,
    {
        victories.push(0);
        scored.push(0);
        received.push(0);
        f = f + 1;
    }
    let mut i: usize = 0;
    while i < m
        invariant
            pool.wf(),
            e == pool.entries(),
            forall|j: int| 0 <= j < e.len() ==> (#[trigger] e[j]).1.winner() is Some,
            n == pool.fencer_seq().len(),
            m == e.len(),
            i <= m,
            victories@.len() == n,
            scored@.len() == n,
            received@.len() == n,
            forall|g: int|
                0 <= g < n ==> {
                    let t = tally(e, i as int, g as usize);
                    &&& #[trigger] victories@[g] == t.0
                    &&& scored@[g] == t.1
                    &&& received@[g] == t.2
                    &&& t.0 <= i
                    &&& t.1 <= 255 * i
                    &&& t.2 <= 255 * i
                },
        decreases m - i,
    {
        let (key, bout) = match pool.get_bout_at(i) {
            Some(entry) => entry,
            None => {
                assert(false);
                return (victories, scored, received);
            },
        };
        let (a, b) = key;
        assert(e[i as int].0 == e[i as int].1.fencers@);
        let (sa, sb) = match bout.get_scores() {
            Some(s) => s,
            None => {
                assert(false);
                return (victories, scored, received);
            },
        };
        let w = match bout.get_winner() {
            Some(w) => w,
            None => {
                assert(false);
                return (victories, scored, received);
            },
        };
        assert(a < b && b < n);
        assert(victories@[a as int] == tally(e, i as int, a).0);
        assert(victories@[b as int] == tally(e, i as int, b).0);
        assert(scored@[a as int] <= 255 * i && received@[a as int] <= 255 * i);
        assert(scored@[b as int] <= 255 * i && received@[b as int] <= 255 * i);
        assert(w == a || w == b);
        assert(victories@[w as int] <= i);
        let ghost v0 = victories@;
        let ghost s0 = scored@;
        let ghost r0 = received@;
        assert forall|g: int|
            0 <= g < n implies {
                let t = tally(e, i as int, g as usize);
                &&& #[trigger] v0[g] == t.0
                &&& s0[g] == t.1
                &&& r0[g] == t.2
                &&& t.0 <= i
                &&& t.1 <= 255 * i
                &&& t.2 <= 255 * i
            } by {
            assert(victories@[g] == tally(e, i as int, g as usize).0);
        }
        scored[a] = scored[a] + sa as u128;
        received[a] = received[a] + sb as u128;
        scored[b] = scored[b] + sb as u128;
        received[b] = received[b] + sa as u128;
        victories[w] = victories[w] + 1;
        assert forall|g: int|
            0 <= g < n implies {
                let t = tally(e, i + 1, g as usize);
                &&& #[trigger] victories@[g] == t.0
                &&& scored@[g] == t.1
                &&& received@[g] == t.2
                &&& t.0 <= i + 1
                &&& t.1 <= 255 * (i + 1)
                &&& t.2 <= 255 * (i + 1)
            } by {
            let t0 = tally(e, i as int, g as usize);
            let bo = e[i as int].1;
            assert(v0[g] == t0.0);
            assert(s0[g] == t0.1);
            assert(r0[g] == t0.2);
            assert(tally(e, i + 1, g as usize) == (
                t0.0 + if bo.winner() == Some(g as usize) {
                    1int
                } else {
                    0int
                },
                t0.1 + scored_in(bo, g as usize),
                t0.2 + received_in(bo, g as usize),
            ));
            if g == a as int {
                assert(bo.fencers.side_of(g as usize) == TuplePos::First);
            } else if g == b as int {
                assert(bo.fencers.side_of(g as usize) == TuplePos::Second);
            } else {
                assert(bo.fencers.side_of(g as usize) == TuplePos::Unset);
            }
        }
        i = i + 1;
    }
    assert forall|f: int|
        0 <= f < n implies #[trigger] scored@[f] <= 255 * e.len() && received@[f] <= 255 * e.len() by {
        assert(victories@[f] == tally(e, i as int, f as usize).0);
    }
    assert forall|f: int| 0 <= f < n implies #[trigger] scored@[f] == tally(e, e.len() as int, f as usize).1 by {
        assert(victories@[f] == tally(e, i as int, f as usize).0);
    }
    assert forall|f: int| 0 <= f < n implies #[trigger] received@[f] == tally(e, e.len() as int, f as usize).2 by {
        assert(victories@[f] == tally(e, i as int, f as usize).0);
    }
    (victories, scored, received)
}

/// The sorted items are those of `orig`, each once: an item's last field
/// is its place in `orig`.
proof fn lemma_sorted_members(orig: Seq<(usize, i128, u64, usize)>, sorted: Seq<(usize, i128, u64, usize)>)
    requires
        sorted.to_multiset() == orig.to_multiset(),
        forall|j: int| 0 <= j < orig.len() ==> (#[trigger] orig[j]).3 == j,
    ensures
        sorted.len() == orig.len(),
        forall|k: int|
            0 <= k < sorted.len() ==> (#[trigger] sorted[k]).3 < orig.len() && orig[sorted[k].3 as int]
                == sorted[k],
        forall|k: int, l: int|
            0 <= k < sorted.len() && 0 <= l < sorted.len() && k != l ==> (#[trigger] sorted[k]).3 != (
            #[trigger] sorted[l]).3,
{
    broadcast use vstd::seq_lib::group_to_multiset_ensures;

    assert(sorted.len() == sorted.to_multiset().len());
    assert(orig.len() == orig.to_multiset().len());
    assert forall|k: int| 0 <= k < sorted.len() implies (#[trigger] sorted[k]).3 < orig.len() && orig[sorted[k].3 as int]
        == sorted[k] by {
        assert(sorted.contains(sorted[k]));
        assert(sorted.to_multiset().count(sorted[k]) > 0);
        assert(orig.to_multiset().count(sorted[k]) > 0);
        assert(orig.contains(sorted[k]));
        let j = choose|j: int| 0 <= j < orig.len() && orig[j] == sorted[k];
        assert(orig[j].3 == j);
    }
    assert(orig.no_duplicates()) by {
        assert forall|i: int, j: int| 0 <= i < orig.len() && 0 <= j < orig.len() && i != j implies orig[i]
            != orig[j] by {
            assert(orig[i].3 == i && orig[j].3 == j);
        }
    }
    orig.lemma_multiset_has_no_duplicates();
    sorted.lemma_multiset_has_no_duplicates_conv();
    assert forall|k: int, l: int|
        0 <= k < sorted.len() && 0 <= l < sorted.len() && k != l implies (#[trigger] sorted[k]).3 != (
        #[trigger] sorted[l]).3 by {
        assert(sorted[k] != sorted[l]);
    }
}

/// Between two fencers level on victories and indicator, `f` goes before
/// `g`: its draw is higher, or the draws are equal and its position lower.
pub open spec fn draw_before(draws: Seq<u64>, f: usize, g: usize) -> bool {
    draws[f as int] > draws[g as int] || (draws[f as int] == draws[g as int] && f < g)
}

/// The ranking keys of the sorted `items`, from the last item to the first.
spec fn desc_keys(items: Seq<(usize, i128, u64, usize)>) -> Seq<(int, int)> {
    Seq::new(
        items.len(),
        |k: int| (items[items.len() - 1 - k].0 as int, items[items.len() - 1 - k].1 as int),
    )
}

/// The results for the sorted `items`, from the last item to the first,
/// with their places. An item's last field counts positions from the end.
fn placed(items: &Vec<(usize, i128, u64, usize)>, scored: &Vec<u128>, received: &Vec<u128>) -> (r: Vec<FencerResult>)
    requires
        items@.len() == scored@.len(),
        items@.len() == received@.len(),
        forall|j: int| 0 <= j < items@.len() ==> (#[trigger] items@[j]).3 < items@.len(),
    ensures
        r@.len() == items@.len(),
        result_keys(r@) == desc_keys(items@),
        forall|j: int|
            0 <= j < r@.len() ==> {
                let n = items@.len() as int;
                let it = items@[n - 1 - j];
                &&& (#[trigger] r@[j]).fencer == n - 1 - it.3
                &&& r@[j].victories == it.0
                &&& r@[j].indicator == it.1
                &&& r@[j].touches_scored == scored@[n - 1 - it.3]
                &&& r@[j].touches_recieved == received@[n - 1 - it.3]
                &&& r@[j].place == placement_at(desc_keys(items@), j)
            },
{
    let n = items.len();
    let ghost ks = desc_keys(items@);
    let mut results: Vec<FencerResult> = Vec::new();
    let mut gs: usize = 0;
    let mut k: usize = 0;
    while k < n
        invariant
            n == items@.len(),
            n == scored@.len(),
            n == received@.len(),
            k <= n,
            ks == desc_keys(items@),
            forall|j: int| 0 <= j < n ==> (#[trigger] items@[j]).3 < n,
            0 < k ==> gs == group_start(ks, k - 1),
            0 < k ==> gs < k,
            results@.len() == k,
            forall|j: int|
                0 <= j < k ==> {
                    let it = items@[n - 1 - j];
                    &&& (#[trigger] results@[j]).fencer == n - 1 - it.3
                    &&& results@[j].victories == it.0
                    &&& results@[j].indicator == it.1
                    &&& results@[j].touches_scored == scored@[n - 1 - it.3]
                    &&& results@[j].touches_recieved == received@[n - 1 - it.3]
                    &&& results@[j].place == placement_at(ks, j)
                },
        decreases n - k,
    {
        let it = items[n - 1 - k];
        let mut tied_prev = false;
        if k > 0 {
            let p = items[n - k];
            tied_prev = p.0 == it.0 && p.1 == it.1;
        }
        let mut tied_next = false;
        if k + 1 < n {
            let q = items[n - 2 - k];
            tied_next = q.0 == it.0 && q.1 == it.1;
        }
        if !tied_prev {
            gs = k;
        }
        assert(tied_prev == (k > 0 && ks[k - 1] == ks[k as int]));
        assert(tied_next == (k + 1 < n && ks[k + 1] == ks[k as int]));
        assert(gs == group_start(ks, k as int));
        let place = if tied_prev || tied_next {
            Placement::Tied(gs + 1)
        } else {
            Placement::Absolute(k + 1)
        };
        let fencer = n - 1 - it.3;
        results.push(
            FencerResult {
                fencer,
                victories: it.0,
                touches_scored: scored[fencer],
                touches_recieved: received[fencer],
                indicator: it.1,
                place,
            },
        );
        k = k + 1;
    }
    assert(result_keys(results@) =~= ks);
    results
}

impl PoolResults {
    /// Ranks the fencers of a finished pool: their tallies, from the best to
    /// the worst by victories and then indicator, fencers level on both
    /// ordered by a random draw, and their places.
    pub fn new<T: Fencer>(pool: &PoolSheet<T>) -> (r: PoolResults)
        requires
            pool.wf(),
            forall|i: int| 0 <= i < pool.entries().len() ==> (#[trigger] pool.entries()[i]).1.winner() is Some,
        ensures
            ranks_pool(pool.fencer_seq().len(), pool.entries(), r.0@),
    {
        let n = pool.get_fencers().len();
        let mut draws: Vec<u64> = Vec::new();
        let mut f: usize = 0;
        while f < n
            invariant
                f <= n,
                draws@.len() == f,
            decreases n - f,
        {
            draws.push(draw());
            f = f + 1;
        }
        Self::with_draws(pool, &draws)
    }

    /// Ranks the fencers of a finished pool as `new` does, breaking ties in
    /// victories and indicator by `draws`, one per fencer position: the
    /// higher draw first, and on equal draws the lower position.
    #[verifier::rlimit(40)]
    pub fn with_draws<T: Fencer>(pool: &PoolSheet<T>, draws: &Vec<u64>) -> (r: PoolResults)
        requires
            pool.wf(),
            forall|i: int| 0 <= i < pool.entries().len() ==> (#[trigger] pool.entries()[i]).1.winner() is Some,
            draws@.len() == pool.fencer_seq().len(),
        ensures
            ranks_pool(pool.fencer_seq().len(), pool.entries(), r.0@),
            forall|k: int, l: int|
                0 <= k < l < r.0@.len() && rank_key(#[trigger] r.0@[k]) == rank_key(#[trigger] r.0@[l])
                    ==> draw_before(draws@, r.0@[k].fencer, r.0@[l].fencer),
    {
        let ghost e = pool.entries();
        let (victories, scored, received) = tallies(pool);
        let n = victories.len();
        let mut items: Vec<(usize, i128, u64, usize)> = Vec::new();
        let mut j: usize = 0;
        while j < n
            invariant
                n == victories@.len(),
                n == scored@.len(),
                n == received@.len(),
                n == draws@.len(),
                e.len() <= usize::MAX,
                forall|g: int| 0 <= g < n ==> #[trigger] scored@[g] <= 255 * e.len() && received@[g] <= 255 * e.len(),
                j <= n,
                items@.len() == j,
                forall|x: int|
                    0 <= x < j ==> {
                        let f = n - 1 - x;
                        &&& (#[trigger] items@[x]).3 == x
                        &&& items@[x].0 == victories@[f]
                        &&& items@[x].1 == scored@[f] - received@[f]
                        &&& items@[x].2 == draws@[f]
                    },
            decreases n - j,
        {
            let f = n - 1 - j;
            assert(scored@[f as int] <= 255 * e.len());
            let indicator = scored[f] as i128 - received[f] as i128;
            items.push((victories[f], indicator, draws[f], j));
            j = j + 1;
        }
        let ghost orig = items@;
        sort_ranked(&mut items);
        proof {
            lemma_sorted_members(orig, items@);
        }
        let results = placed(&items, &scored, &received);
        let ghost rs = results@;
        let ghost it = items@;
        assert forall|k: int| 0 <= k < rs.len() implies {
            let t = tally(e, e.len() as int, (#[trigger] rs[k]).fencer);
            &&& rs[k].fencer < n
            &&& rs[k].victories == t.0
            &&& rs[k].touches_scored == t.1
            &&& rs[k].touches_recieved == t.2
            &&& rs[k].indicator == t.1 - t.2
        } by {
            let x = it[n - 1 - k];
            assert(orig[x.3 as int] == x);
            let f = n - 1 - x.3;
            assert(victories@[f] == tally(e, e.len() as int, f as usize).0);
        }
        assert forall|k: int, l: int| 0 <= k < rs.len() && 0 <= l < rs.len() && k != l implies (#[trigger] rs[k]).fencer != (
        #[trigger] rs[l]).fencer by {
            assert(it[n - 1 - k].3 != it[n - 1 - l].3);
        }
        assert forall|k: int, l: int| 0 <= k < l < rs.len() implies key_ge(rank_key(#[trigger] rs[k]), rank_key(#[trigger] rs[l])) by {
            assert(ranked_le(it[n - 1 - l], it[n - 1 - k]));
        }
        assert forall|k: int, l: int|
            0 <= k < l < rs.len() && rank_key(#[trigger] rs[k]) == rank_key(#[trigger] rs[l]) implies draw_before(
            draws@,
            rs[k].fencer,
            rs[l].fencer,
        ) by {
            let a = it[n - 1 - k];
            let b = it[n - 1 - l];
            assert(ranked_le(b, a));
            assert(a.3 != b.3);
            assert(orig[a.3 as int] == a && orig[b.3 as int] == b);
        }
        PoolResults(results)
    }

    /// The results, best first.
    pub fn iter(&self) -> (r: std::slice::Iter<'_, FencerResult>)
        ensures
            r.remaining() == self.0@.as_ref(),
    {
        self.0.iter()
    }
}

} // verus!
