use crate::bout::{pair_key, Bout, FencerScore, FencerVs, TuplePos};
use crate::bout_map::{
    bout_at, bout_count, bout_entries, bout_index_of, insert_bout, new_bout_map, unique_keys,
    BoutMap,
};
use crate::cards::Cards;
use crate::error::PoolSheetError;
use crate::fencer::Fencer;
use crate::orders::{
    check_round_robin, covered, default_table, get_default_order, is_round_robin, same_pair,
    valid_pair,
};
use crate::results::{ranks_pool, PoolResults};
use vstd::prelude::*;

verus! {

/// Some record of `s` has the identity `id`.
pub open spec fn holds_id<T: Fencer>(s: Seq<T>, id: Seq<char>) -> bool {
    exists|i: int| 0 <= i < s.len() && (#[trigger] s[i]).identity() == id
}

/// No two records of `s` stand for the same competitor.
pub open spec fn distinct_ids<T: Fencer>(s: Seq<T>) -> bool {
    forall|i: int, j: int|
        0 <= i < s.len() && 0 <= j < s.len() && i != j ==> (#[trigger] s[i]).identity() != (
        #[trigger] s[j]).identity()
}

/// `acc` followed by the records of `rest` whose competitor is not already
/// there, first occurrences kept, in order.
pub open spec fn dedup_into<T: Fencer>(acc: Seq<T>, rest: Seq<T>) -> Seq<T>
    decreases rest.len(),
{
    if rest.len() == 0 {
        acc
    } else if holds_id(acc, rest[0].identity()) {
        dedup_into(acc, rest.drop_first())
    } else {
        dedup_into(acc.push(rest[0]), rest.drop_first())
    }
}

/// The records of `s`, each competitor once, at its first occurrence.
pub open spec fn dedup<T: Fencer>(s: Seq<T>) -> Seq<T> {
    dedup_into(Seq::empty(), s)
}

/// The position of the competitor `id` in `s`, which holds it.
pub open spec fn position_of<T: Fencer>(s: Seq<T>, id: Seq<char>) -> usize {
    (choose|i: int| 0 <= i < s.len() && (#[trigger] s[i]).identity() == id) as usize
}

/// Some entry of `e` has the key `k`.
pub open spec fn has_key(e: Seq<((usize, usize), Bout)>, k: (usize, usize)) -> bool {
    exists|i: int| 0 <= i < e.len() && (#[trigger] e[i]).0 == k
}

/// The place of the entry with key `k` in `e`, which has one.
pub open spec fn key_index(e: Seq<((usize, usize), Bout)>, k: (usize, usize)) -> int {
    choose|i: int| 0 <= i < e.len() && (#[trigger] e[i]).0 == k
}

/// The bouts of a pool of `n` fencers: one entry for each two fencers, keyed
/// by their positions, lower first, each bout holding its own key's pair.
pub open spec fn entries_wf(n: nat, e: Seq<((usize, usize), Bout)>) -> bool {
    &&& unique_keys(e)
    &&& forall|i: int|
        0 <= i < e.len() ==> (#[trigger] e[i]).0 == e[i].1.fencers@ && e[i].0.0 < e[i].0.1 && e[i].0.1
            < n
    &&& forall|a: usize, b: usize| a < b < n ==> #[trigger] has_key(e, (a, b))
}

/// A bout as it is made: its pair, and nothing recorded.
pub open spec fn is_fresh(b: Bout, key: (usize, usize)) -> bool {
    &&& b.fencers@ == key
    &&& b.scores == (None::<u8>, None::<u8>)
    &&& b.cards == (Cards::zero(), Cards::zero())
    &&& b.priority == TuplePos::Unset
}

/// `e` holds, in order, one fresh bout for each pair of `order`, whose
/// positions count from one.
pub open spec fn built_from(e: Seq<((usize, usize), Bout)>, order: Seq<(usize, usize)>) -> bool {
    &&& e.len() == order.len()
    &&& forall|k: int|
        0 <= k < e.len() ==> {
            &&& (#[trigger] e[k]).0 == pair_key((order[k].0 - 1) as usize, (order[k].1 - 1) as usize)
            &&& is_fresh(e[k].1, e[k].0)
        }
}

/// `e` after the scores `sa` and `sb` are recorded in the bout with `key`.
pub open spec fn scored_entries(
    e: Seq<((usize, usize), Bout)>,
    key: (usize, usize),
    sa: FencerScore<usize>,
    sb: FencerScore<usize>,
) -> Seq<((usize, usize), Bout)> {
    e.map_values(
        |x: ((usize, usize), Bout)|
            if x.0 == key {
                (x.0, x.1.with_side(sa).with_side(sb))
            } else {
                x
            },
    )
}

/// `e` after both scores of the bout with `key` are cleared.
pub open spec fn cleared_entries(e: Seq<((usize, usize), Bout)>, key: (usize, usize)) -> Seq<
    ((usize, usize), Bout),
> {
    e.map_values(
        |x: ((usize, usize), Bout)|
            if x.0 == key {
                (x.0, Bout { scores: (None, None), ..x.1 })
            } else {
                x
            },
    )
}

/// `e` after the priority of the bout with `key` goes to the fencer at
/// position `holder`, or to nobody.
pub open spec fn prioritized_entries(
    e: Seq<((usize, usize), Bout)>,
    key: (usize, usize),
    holder: Option<usize>,
) -> Seq<((usize, usize), Bout)> {
    e.map_values(
        |x: ((usize, usize), Bout)|
            if x.0 == key {
                (
                    x.0,
                    Bout {
                        priority: match holder {
                            Some(f) => x.1.fencers.side_of(f),
                            None => TuplePos::Unset,
                        },
                        ..x.1
                    },
                )
            } else {
                x
            },
    )
}

/// The places, in order, of the first `n` bouts of `e` that have no winner.
pub open spec fn unfinished_upto(e: Seq<((usize, usize), Bout)>, n: int) -> Seq<usize>
    decreases n,
{
    if n <= 0 {
        Seq::empty()
    } else {
        let p = unfinished_upto(e, n - 1);
        if e[n - 1].1.winner() is None {
            p.push((n - 1) as usize)
        } else {
            p
        }
    }
}

/// The places, in order, of the bouts of `e` that have no winner.
pub open spec fn unfinished(e: Seq<((usize, usize), Bout)>) -> Seq<usize> {
    unfinished_upto(e, e.len() as int)
}

/// The list of unfinished bouts names exactly the bouts without a winner,
/// each once, in increasing order.
pub proof fn lemma_unfinished_exact(e: Seq<((usize, usize), Bout)>, n: int)
    requires
        0 <= n <= e.len(),
        e.len() <= usize::MAX,
    ensures
        forall|i: usize|
            #[trigger] unfinished_upto(e, n).contains(i) <==> (i < n && e[i as int].1.winner() is None),
        forall|k: int, l: int|
            0 <= k < l < unfinished_upto(e, n).len() ==> #[trigger] unfinished_upto(e, n)[k] < #[trigger] unfinished_upto(e, n)[l],
        forall|k: int| 0 <= k < unfinished_upto(e, n).len() ==> #[trigger] unfinished_upto(e, n)[k] < n,
    decreases n,
{
    if n > 0 {
        lemma_unfinished_exact(e, n - 1);
        let p = unfinished_upto(e, n - 1);
        let last = (n - 1) as usize;
        if e[n - 1].1.winner() is None {
            let q = p.push(last);
            assert(q[p.len() as int] == last);
            assert forall|k: int| 0 <= k < p.len() implies #[trigger] q[k] == p[k] by {}
            assert forall|i: usize| #[trigger] q.contains(i) <==> (i < n && e[i as int].1.winner() is None) by {
                if i == last {
                    assert(q[p.len() as int] == i);
                } else if q.contains(i) {
                    let k = choose|k: int| 0 <= k < q.len() && #[trigger] q[k] == i;
                    assert(k != p.len());
                    assert(p[k] == i);
                    assert(p.contains(i));
                } else if i < n && e[i as int].1.winner() is None {
                    assert(p.contains(i));
                    let k = choose|k: int| 0 <= k < p.len() && #[trigger] p[k] == i;
                    assert(q[k] == i);
                }
            }
            assert forall|k: int, l: int| 0 <= k < l < q.len() implies #[trigger] q[k] < #[trigger] q[l] by {
                if l == p.len() {
                    assert(p[k] < n - 1);
                } else {
                    assert(p[k] < p[l]);
                }
            }
        }
    }
}

/// Scores for the two sides of a bout may be recorded in either order.
pub proof fn lemma_with_sides_commute(b: Bout, sa: FencerScore<usize>, sb: FencerScore<usize>)
    requires
        b.fencers.side_of(sa.fencer) != TuplePos::Unset,
        b.fencers.side_of(sb.fencer) != TuplePos::Unset,
        b.fencers.side_of(sa.fencer) != b.fencers.side_of(sb.fencer),
    ensures
        b.with_side(sa).with_side(sb) == b.with_side(sb).with_side(sa),
{
}

/// Bouts built from the same order are the same bouts: two pools made with
/// the tables from the same fencers agree.
pub proof fn lemma_built_from_unique(e1: Seq<((usize, usize), Bout)>, e2: Seq<((usize, usize), Bout)>, order: Seq<(usize, usize)>)
    requires
        built_from(e1, order),
        built_from(e2, order),
    ensures
        e1 == e2,
{
    assert forall|k: int| 0 <= k < e1.len() implies #[trigger] e1[k] == e2[k] by {
        e1[k].1.fencers.lemma_view_injective(&e2[k].1.fencers);
    }
    assert(e1 =~= e2);
}

/// Where a pool's bout order comes from.
pub trait BoutsCreator<T: Fencer> {
    /// The pairs of the pool's bouts, as positions counted from one.
    fn get_order(&self, fencers: &[T]) -> Result<Vec<(usize, usize)>, PoolSheetError>;
}

/// The bout orders of the standard tables, for pools of four to twelve.
pub struct SimpleBoutsCreator;

impl<T: Fencer> BoutsCreator<T> for SimpleBoutsCreator {
    fn get_order(&self, fencers: &[T]) -> Result<Vec<(usize, usize)>, PoolSheetError> {
        match get_default_order(fencers.len()) {
            Ok(order) => Ok(order),
            Err(_) => Err(PoolSheetError::UnsupportedParticipantCount),
        }
    }
}

/// The position in `fencers` of the competitor `fencer`, if present.
pub fn find_fencer<T: Fencer>(fencers: &Vec<T>, fencer: &T) -> (r: Option<usize>)
    ensures
        r matches Some(i) ==> i < fencers@.len() && fencers@[i as int].identity() == fencer.identity(),
        r is None ==> !holds_id(fencers@, fencer.identity()),
{
    let mut i: usize = 0;
    while i < fencers.len()
        invariant
            i <= fencers@.len(),
            forall|j: int| 0 <= j < i ==> (#[trigger] fencers@[j]).identity() != fencer.identity(),
        decreases fencers@.len() - i,
    {
        if fencers[i].same_fencer(fencer) {
            return Some(i);
        }
        i = i + 1;
    }
    None
}

/// The records of `fencers`, each competitor once, at its first occurrence.
pub fn unique_fencers<T: Fencer>(fencers: Vec<T>) -> (r: Vec<T>)
    ensures
        r@ == dedup(fencers@),
        distinct_ids(r@),
{
    let ghost all = fencers@;
    let mut rest = fencers;
    let mut out: Vec<T> = Vec::new();
    while rest.len() > 0
        invariant
            dedup_into(out@, rest@) == dedup(all),
            distinct_ids(out@),
        decreases rest@.len(),
    {
        let ghost before = rest@;
        let f = rest.remove(0);
        assert(rest@ =~= before.drop_first());
        match find_fencer(&out, &f) {
            Some(_) => {},
            None => {
                out.push(f);
            },
        }
    }
    out
}

/// A round-robin pool: its fencers, each once, and one bout for every two of
/// them, in the order the bouts are to be fenced.
#[derive(Debug, PartialEq)]
pub struct PoolSheet<T: Fencer> {
    fencers: Vec<T>,
    bouts: BoutMap,
}

impl<T: Fencer> PoolSheet<T> {
    /// The fencers, in their order; a fencer's position is its index here.
    pub closed spec fn fencer_seq(&self) -> Seq<T> {
        self.fencers@
    }

    /// The bouts with their keys, in order.
    pub closed spec fn entries(&self) -> Seq<((usize, usize), Bout)> {
        bout_entries(self.bouts)
    }

    /// Fencers stand for distinct competitors, and there is exactly one bout
    /// for each two of them.
    pub open spec fn wf(&self) -> bool {
        &&& distinct_ids(self.fencer_seq())
        &&& self.fencer_seq().len() <= usize::MAX
        &&& entries_wf(self.fencer_seq().len(), self.entries())
    }

    fn build(fencers: Vec<T>, order: &Vec<(usize, usize)>) -> (r: Result<PoolSheet<T>, PoolSheetError>)
        requires
            distinct_ids(fencers@),
        ensures
            !is_round_robin(fencers@.len() as nat, order@) ==> r == Err::<PoolSheet<T>, PoolSheetError>(
                PoolSheetError::InvalidBout,
            ),
            is_round_robin(fencers@.len() as nat, order@) ==> (r matches Ok(p) && p.wf() && p.fencer_seq()
                == fencers@ && built_from(p.entries(), order@)),
    {
        let n = fencers.len();
        if !check_round_robin(n, order) {
            return Err(PoolSheetError::InvalidBout);
        }
        let mut bouts = new_bout_map();
        let mut k: usize = 0;
        while k < order.len()
            invariant
                n == fencers@.len(),
                is_round_robin(n as nat, order@),
                k <= order@.len(),
                unique_keys(bout_entries(bouts)),
                built_from(bout_entries(bouts), order@.take(k as int)),
            decreases order@.len() - k,
        {
            let (a, b) = order[k];
            assert(valid_pair(n as nat, order@[k as int]));
            let vs = match FencerVs::new(a - 1, b - 1) {
                Ok(vs) => vs,
                Err(_) => {
                    return Err(PoolSheetError::InvalidBout);
                },
            };
            let key = vs.key();
            let ghost e = bout_entries(bouts);
            assert forall|i: int| 0 <= i < e.len() implies (#[trigger] e[i]).0 != key by {
                assert(order@.take(k as int)[i] == order@[i]);
                assert(!same_pair(order@[i], order@[k as int]));
            }
            insert_bout(&mut bouts, key, Bout::new(vs));
            assert(order@.take(k as int + 1) =~= order@.take(k as int).push(order@[k as int]));
            k = k + 1;
        }
        assert(order@.take(order@.len() as int) =~= order@);
        let ghost e = bout_entries(bouts);
        assert forall|x: usize, y: usize| x < y < n implies #[trigger] has_key(e, (x, y)) by {
            assert(covered(order@, (x + 1) as usize, (y + 1) as usize));
            let i = choose|i: int| 0 <= i < order@.len() && same_pair(#[trigger] order@[i], ((x + 1) as usize, (y + 1) as usize));
            assert(e[i].0 == (x, y));
        }
        Ok(PoolSheet { fencers, bouts })
    }

    /// The pool of `fencers`, each competitor once, with the bouts of
    /// `order`, whose positions count from one. Fails unless the order pairs
    /// every two fencers exactly once.
    pub fn from_order(fencers: Vec<T>, order: Vec<(usize, usize)>) -> (r: Result<PoolSheet<T>, PoolSheetError>)
        ensures
            !is_round_robin(dedup(fencers@).len() as nat, order@) ==> r == Err::<PoolSheet<T>, PoolSheetError>(
                PoolSheetError::InvalidBout,
            ),
            is_round_robin(dedup(fencers@).len() as nat, order@) ==> (r matches Ok(p) && p.wf()
                && p.fencer_seq() == dedup(fencers@) && built_from(p.entries(), order@)),
    {
        let unique = unique_fencers(fencers);
        Self::build(unique, &order)
    }

    /// The pool of `fencers`, each competitor once, with the bout order of
    /// the tables; it exists for four to twelve distinct competitors.
    pub fn with_default_order(fencers: Vec<T>) -> (r: Result<PoolSheet<T>, PoolSheetError>)
        ensures
            4 <= dedup(fencers@).len() <= 12 ==> (r matches Ok(p) && p.wf() && p.fencer_seq() == dedup(
                fencers@,
            ) && built_from(p.entries(), default_table(dedup(fencers@).len() as usize))),
            !(4 <= dedup(fencers@).len() <= 12) ==> r == Err::<PoolSheet<T>, PoolSheetError>(
                PoolSheetError::UnsupportedParticipantCount,
            ),
    {
        let unique = unique_fencers(fencers);
        let order = match get_default_order(unique.len()) {
            Ok(order) => order,
            Err(_) => return Err(PoolSheetError::UnsupportedParticipantCount),
        };
        Self::build(unique, &order)
    }

    /// The pool of `fencers`, each competitor once, with the bout order that
    /// `creator` gives for them.
    pub fn new<C: BoutsCreator<T>>(fencers: Vec<T>, creator: &C) -> (r: Result<PoolSheet<T>, PoolSheetError>)
        ensures
            r matches Ok(p) ==> p.wf() && p.fencer_seq() == dedup(fencers@) && forall|k: int|
                0 <= k < p.entries().len() ==> is_fresh((#[trigger] p.entries()[k]).1, p.entries()[k].0),
    {
        let unique = unique_fencers(fencers);
        let order = creator.get_order(unique.as_slice())?;
        Self::build(unique, &order)
    }

    /// What `update_score(a, b)` leads to: the bouts afterwards, or the error.
    pub open spec fn update_outcome(&self, a: FencerScore<T>, b: FencerScore<T>) -> Result<
        Seq<((usize, usize), Bout)>,
        PoolSheetError,
    > {
        let s = self.fencer_seq();
        if a.fencer.identity() == b.fencer.identity() {
            Err(PoolSheetError::InvalidBout)
        } else if !holds_id(s, a.fencer.identity()) || !holds_id(s, b.fencer.identity()) {
            Err(PoolSheetError::NoBoutFound)
        } else {
            let pa = position_of(s, a.fencer.identity());
            let pb = position_of(s, b.fencer.identity());
            Ok(
                scored_entries(
                    self.entries(),
                    pair_key(pa, pb),
                    FencerScore { fencer: pa, score: a.score, cards: a.cards },
                    FencerScore { fencer: pb, score: b.score, cards: b.cards },
                ),
            )
        }
    }

    /// What `set_priority(a, b, holder)` leads to: the bouts afterwards, or
    /// the error.
    pub open spec fn priority_outcome(&self, a: &T, b: &T, holder: Option<&T>) -> Result<
        Seq<((usize, usize), Bout)>,
        PoolSheetError,
    > {
        let s = self.fencer_seq();
        if a.identity() == b.identity() {
            Err(PoolSheetError::InvalidBout)
        } else if !holds_id(s, a.identity()) || !holds_id(s, b.identity()) {
            Err(PoolSheetError::NoBoutFound)
        } else {
            let pa = position_of(s, a.identity());
            let pb = position_of(s, b.identity());
            match holder {
                None => Ok(prioritized_entries(self.entries(), pair_key(pa, pb), None)),
                Some(h) => if h.identity() == a.identity() {
                    Ok(prioritized_entries(self.entries(), pair_key(pa, pb), Some(pa)))
                } else if h.identity() == b.identity() {
                    Ok(prioritized_entries(self.entries(), pair_key(pa, pb), Some(pb)))
                } else {
                    Err(PoolSheetError::InvalidBout)
                },
            }
        }
    }

    /// What `unset_score(a, b)` leads to: the bouts afterwards, or the error.
    pub open spec fn unset_outcome(&self, a: FencerScore<T>, b: FencerScore<T>) -> Result<
        Seq<((usize, usize), Bout)>,
        PoolSheetError,
    > {
        let s = self.fencer_seq();
        if a.fencer.identity() == b.fencer.identity() {
            Err(PoolSheetError::InvalidBout)
        } else if !holds_id(s, a.fencer.identity()) || !holds_id(s, b.fencer.identity()) {
            Err(PoolSheetError::NoBoutFound)
        } else {
            let pa = position_of(s, a.fencer.identity());
            let pb = position_of(s, b.fencer.identity());
            Ok(cleared_entries(self.entries(), pair_key(pa, pb)))
        }
    }

    /// Bouts that keep their keys and pairs keep the pool well formed.
    proof fn lemma_same_keys(&self, e: Seq<((usize, usize), Bout)>)
        requires
            entries_wf(self.fencer_seq().len(), e),
            self.entries().len() == e.len(),
            forall|i: int|
                0 <= i < e.len() ==> (#[trigger] self.entries()[i]).0 == e[i].0 && self.entries()[i].1.fencers
                    == e[i].1.fencers,
        ensures
            entries_wf(self.fencer_seq().len(), self.entries()),
    {
        let f = self.entries();
        assert forall|x: usize, y: usize| x < y < self.fencer_seq().len() implies #[trigger] has_key(f, (x, y)) by {
            assert(has_key(e, (x, y)));
            let j = choose|j: int| 0 <= j < e.len() && (#[trigger] e[j]).0 == (x, y);
            assert(f[j].0 == (x, y));
        }
        assert forall|i: int, j: int| 0 <= i < f.len() && 0 <= j < f.len() && i != j implies #[trigger] f[i].0 != #[trigger] f[j].0 by {
            assert(e[i].0 != e[j].0);
        }
    }

    /// Updating a pool with the scores of two fencers gives the same pool
    /// whichever of the two comes first.
    pub proof fn lemma_update_score_order_independent(&self, a: FencerScore<T>, b: FencerScore<T>)
        requires
            self.wf(),
        ensures
            self.update_outcome(a, b) == self.update_outcome(b, a),
    {
        let s = self.fencer_seq();
        if a.fencer.identity() != b.fencer.identity() && holds_id(s, a.fencer.identity()) && holds_id(
            s,
            b.fencer.identity(),
        ) {
            let pa = position_of(s, a.fencer.identity());
            let pb = position_of(s, b.fencer.identity());
            let sa = FencerScore { fencer: pa, score: a.score, cards: a.cards };
            let sb = FencerScore { fencer: pb, score: b.score, cards: b.cards };
            let ia = choose|i: int| 0 <= i < s.len() && (#[trigger] s[i]).identity() == a.fencer.identity();
            let ib = choose|i: int| 0 <= i < s.len() && (#[trigger] s[i]).identity() == b.fencer.identity();
            assert(s[ia].identity() == a.fencer.identity());
            assert(s[ib].identity() == b.fencer.identity());
            assert(pa != pb);
            let e = self.entries();
            let key = pair_key(pa, pb);
            assert(pair_key(pb, pa) == key);
            let left = scored_entries(e, key, sa, sb);
            let right = scored_entries(e, pair_key(pb, pa), sb, sa);
            assert forall|i: int| 0 <= i < e.len() implies #[trigger] left[i] == right[i] by {
                if e[i].0 == key {
                    lemma_with_sides_commute(e[i].1, sa, sb);
                }
            }
            assert(left =~= right);
        }
    }

    /// Finds the bout of the fencers of `a` and `b`, given as records equal
    /// to the pool's own, and the pool's positions of the two.
    fn locate(&self, a: &T, b: &T) -> (r: Result<(usize, usize, usize), PoolSheetError>)
        requires
            self.wf(),
        ensures
            a.identity() == b.identity() ==> r == Err::<(usize, usize, usize), PoolSheetError>(
                PoolSheetError::InvalidBout,
            ),
            a.identity() != b.identity() && (!holds_id(self.fencer_seq(), a.identity()) || !holds_id(
                self.fencer_seq(),
                b.identity(),
            )) ==> r == Err::<(usize, usize, usize), PoolSheetError>(PoolSheetError::NoBoutFound),
            a.identity() != b.identity() && holds_id(self.fencer_seq(), a.identity()) && holds_id(
                self.fencer_seq(),
                b.identity(),
            ) ==> (r matches Ok((pa, pb, i)) && pa == position_of(self.fencer_seq(), a.identity())
                && pb == position_of(self.fencer_seq(), b.identity()) && pa != pb && i < self.entries().len()
                && self.entries()[i as int].0 == pair_key(pa, pb)),
    {
        if a.same_fencer(b) {
            return Err(PoolSheetError::InvalidBout);
        }
        let pa = match find_fencer(&self.fencers, a) {
            Some(p) => p,
            None => return Err(PoolSheetError::NoBoutFound),
        };
        let pb = match find_fencer(&self.fencers, b) {
            Some(p) => p,
            None => return Err(PoolSheetError::NoBoutFound),
        };
        let vs = match FencerVs::new(pa, pb) {
            Ok(vs) => vs,
            Err(e) => return Err(e),
        };
        assert(has_key(self.entries(), pair_key(pa, pb)));
        match bout_index_of(&self.bouts, vs.key()) {
            Some(i) => Ok((pa, pb, i)),
            None => Err(PoolSheetError::NoBoutFound),
        }
    }

    /// Records the scores and cards of both fencers of a bout, in whichever
    /// order they are given. The fencers may be records equal to, but not the
    /// same as, the pool's own.
    pub fn update_score(&mut self, fencer_a: FencerScore<T>, fencer_b: FencerScore<T>) -> (r: Result<
        (),
        PoolSheetError,
    >)
        requires
            old(self).wf(),
        ensures
            final(self).wf(),
            final(self).fencer_seq() == old(self).fencer_seq(),
            match old(self).update_outcome(fencer_a, fencer_b) {
                Ok(e) => r is Ok && final(self).entries() == e,
                Err(x) => r == Err::<(), PoolSheetError>(x) && final(self).entries() == old(self).entries(),
            },
    {
        let (pa, pb, i) = match self.locate(&fencer_a.fencer, &fencer_b.fencer) {
            Ok(found) => found,
            Err(e) => return Err(e),
        };
        let (key, mut bout) = match bout_at(&self.bouts, i) {
            Some(entry) => entry,
            None => return Err(PoolSheetError::NoBoutFound),
        };
        let sa = FencerScore::new(pa, fencer_a.score, fencer_a.cards);
        let sb = FencerScore::new(pb, fencer_b.score, fencer_b.cards);
        let ghost old_bout = bout;
        let res = bout.update_scores(sa, sb);
        if res.is_err() {
            return res;
        }
        let ghost e = self.entries();
        insert_bout(&mut self.bouts, key, bout);
        assert(self.entries() =~= scored_entries(e, key, sa, sb));
        proof {
            self.lemma_same_keys(e);
        }
        Ok(())
    }

    /// Gives the priority of the bout of `fencer_a` and `fencer_b` to
    /// `holder`, one of the two, or takes it away with `None`. The fencers
    /// may be records equal to, but not the same as, the pool's own.
    pub fn set_priority(&mut self, fencer_a: &T, fencer_b: &T, holder: Option<&T>) -> (r: Result<
        (),
        PoolSheetError,
    >)
        requires
            old(self).wf(),
        ensures
            final(self).wf(),
            final(self).fencer_seq() == old(self).fencer_seq(),
            match old(self).priority_outcome(fencer_a, fencer_b, holder) {
                Ok(e) => r is Ok && final(self).entries() == e,
                Err(x) => r == Err::<(), PoolSheetError>(x) && final(self).entries() == old(self).entries(),
            },
    {
        let (pa, pb, i) = match self.locate(fencer_a, fencer_b) {
            Ok(found) => found,
            Err(e) => return Err(e),
        };
        let side = match holder {
            None => None,
            Some(h) => {
                if h.same_fencer(fencer_a) {
                    Some(pa)
                } else if h.same_fencer(fencer_b) {
                    Some(pb)
                } else {
                    return Err(PoolSheetError::InvalidBout);
                }
            },
        };
        let (key, mut bout) = match bout_at(&self.bouts, i) {
            Some(entry) => entry,
            None => return Err(PoolSheetError::NoBoutFound),
        };
        let res = bout.set_priority(side);
        if res.is_err() {
            return res;
        }
        let ghost e = self.entries();
        insert_bout(&mut self.bouts, key, bout);
        assert(self.entries() =~= prioritized_entries(e, key, side));
        proof {
            self.lemma_same_keys(e);
        }
        Ok(())
    }

    /// Clears both scores of the bout of the fencers of `fencer_a` and
    /// `fencer_b`.
    pub fn unset_score(&mut self, fencer_a: FencerScore<T>, fencer_b: FencerScore<T>) -> (r: Result<
        (),
        PoolSheetError,
    >)
        requires
            old(self).wf(),
        ensures
            final(self).wf(),
            final(self).fencer_seq() == old(self).fencer_seq(),
            match old(self).unset_outcome(fencer_a, fencer_b) {
                Ok(e) => r is Ok && final(self).entries() == e,
                Err(x) => r == Err::<(), PoolSheetError>(x) && final(self).entries() == old(self).entries(),
            },
    {
        let (_, _, i) = match self.locate(&fencer_a.fencer, &fencer_b.fencer) {
            Ok(found) => found,
            Err(e) => return Err(e),
        };
        let (key, mut bout) = match bout_at(&self.bouts, i) {
            Some(entry) => entry,
            None => return Err(PoolSheetError::NoBoutFound),
        };
        bout.unset_scores();
        let ghost e = self.entries();
        insert_bout(&mut self.bouts, key, bout);
        assert(self.entries() =~= cleared_entries(e, key));
        proof {
            self.lemma_same_keys(e);
        }
        Ok(())
    }

    /// Whether every bout has a winner.
    pub fn is_finished(&self) -> (r: bool)
        ensures
            r == forall|i: int| 0 <= i < self.entries().len() ==> (#[trigger] self.entries()[i]).1.winner() is Some,
    {
        let n = bout_count(&self.bouts);
        let mut i: usize = 0;
        while i < n
            invariant
                n == self.entries().len(),
                i <= n,
                forall|j: int| 0 <= j < i ==> (#[trigger] self.entries()[j]).1.winner() is Some,
            decreases n - i,
        {
            match bout_at(&self.bouts, i) {
                Some((_, bout)) => {
                    if bout.get_winner().is_none() {
                        return false;
                    }
                },
                None => return false,
            }
            i = i + 1;
        }
        true
    }

    /// The places, in order, of the bouts that have no winner yet.
    pub fn unfinished_bout_indexes(&self) -> (r: Vec<usize>)
        ensures
            r@ == unfinished(self.entries()),
    {
        let n = bout_count(&self.bouts);
        let mut indexes: Vec<usize> = Vec::new();
        let mut i: usize = 0;
        while i < n
            invariant
                n == self.entries().len(),
                i <= n,
                indexes@ == unfinished_upto(self.entries(), i as int),
            decreases n - i,
        {
            match bout_at(&self.bouts, i) {
                Some((_, bout)) => {
                    if bout.get_winner().is_none() {
                        indexes.push(i);
                    }
                },
                None => {},
            }
            i = i + 1;
        }
        indexes
    }

    /// The ranking of the pool once every bout has a winner; otherwise the
    /// places of the bouts that still lack one.
    pub fn finish(&self) -> (r: Result<PoolResults, PoolSheetError>)
        requires
            self.wf(),
        ensures
            unfinished(self.entries()).len() == 0 ==> (r matches Ok(res) && ranks_pool(
                self.fencer_seq().len(),
                self.entries(),
                res.0@,
            )),
            unfinished(self.entries()).len() > 0 ==> (r matches Err(PoolSheetError::PoolNotComplete(v))
                && v@ == unfinished(self.entries())),
    {
        let total = self.bout_total();
        let indexes = self.unfinished_bout_indexes();
        if indexes.len() == 0 {
            proof {
                let e = self.entries();
                lemma_unfinished_exact(e, e.len() as int);
                assert forall|i: int| 0 <= i < e.len() implies (#[trigger] e[i]).1.winner() is Some by {
                    if e[i].1.winner() is None {
                        assert(unfinished(e).contains(i as usize));
                    }
                }
            }
            Ok(PoolResults::new(self))
        } else {
            Err(PoolSheetError::PoolNotComplete(indexes))
        }
    }

    /// A pool of the given fencers and bouts.
    pub(crate) fn from_parts(fencers: Vec<T>, bouts: BoutMap) -> (r: PoolSheet<T>)
        requires
            distinct_ids(fencers@),
            entries_wf(fencers@.len(), bout_entries(bouts)),
        ensures
            r.wf(),
            r.fencer_seq() == fencers@,
            r.entries() == bout_entries(bouts),
    {
        let n = fencers.len();
        PoolSheet { fencers, bouts }
    }

    /// The number of bouts.
    pub fn bout_total(&self) -> (r: usize)
        ensures
            r == self.entries().len(),
    {
        bout_count(&self.bouts)
    }

    /// The bout at place `index`, with its key.
    pub fn get_bout_at(&self, index: usize) -> (r: Option<((usize, usize), Bout)>)
        ensures
            index < self.entries().len() ==> r == Some(self.entries()[index as int]),
            index >= self.entries().len() ==> r is None,
    {
        bout_at(&self.bouts, index)
    }

    /// The fencers, in their order.
    pub fn get_fencers(&self) -> (r: &Vec<T>)
        ensures
            r@ == self.fencer_seq(),
    {
        &self.fencers
    }

    /// The bout of the pair `vs`.
    pub fn get_bout(&self, vs: &FencerVs) -> (r: Result<Bout, PoolSheetError>)
        requires
            self.wf(),
        ensures
            has_key(self.entries(), vs@) ==> r == Ok::<Bout, PoolSheetError>(
                self.entries()[key_index(self.entries(), vs@)].1,
            ),
            !has_key(self.entries(), vs@) ==> r == Err::<Bout, PoolSheetError>(PoolSheetError::NoBoutFound),
    {
        match bout_index_of(&self.bouts, vs.key()) {
            Some(i) => match bout_at(&self.bouts, i) {
                Some((_, bout)) => Ok(bout),
                None => Err(PoolSheetError::NoBoutFound),
            },
            None => Err(PoolSheetError::NoBoutFound),
        }
    }
}

} // verus!
