use crate::bout::{pair_key, Bout, FencerVs, TuplePos};
use crate::bout_map::{bout_entries, insert_bout, new_bout_map, unique_keys};
use crate::cards::Cards;
use crate::error::PoolSheetError;
use crate::fencer::Fencer;
use crate::orders::{check_round_robin, covered, is_round_robin, same_pair, valid_pair};
use crate::pools::{distinct_ids, entries_wf, has_key, PoolSheet};
use vstd::prelude::*;

verus! {

/// A bout as it is stored: the keys of its two fencers, and each side's
/// score and cards, and the priority, in the order of the keys.
#[derive(Debug, Clone, Copy, PartialEq, Eq)]
pub struct StoredBout {
    pub keys: (u64, u64),
    pub scores: (Option<u8>, Option<u8>),
    pub cards: (Cards, Cards),
    pub priority: TuplePos,
}

/// A pool as it is stored: each fencer record once, under a key, and the
/// bouts, which name their fencers by key.
#[derive(Debug, Clone)]
pub struct StoredPool<T> {
    pub fencers: Vec<(u64, T)>,
    pub bouts: Vec<StoredBout>,
}

/// Some fencer of `fs` is stored under `key`.
pub open spec fn key_known<T>(fs: Seq<(u64, T)>, key: u64) -> bool {
    exists|i: int| 0 <= i < fs.len() && (#[trigger] fs[i]).0 == key
}

/// The place in `fs` of the fencer stored under `key`.
pub open spec fn key_pos<T>(fs: Seq<(u64, T)>, key: u64) -> int {
    choose|i: int| 0 <= i < fs.len() && (#[trigger] fs[i]).0 == key
}

/// No two fencers share a key.
pub open spec fn distinct_keys<T>(fs: Seq<(u64, T)>) -> bool {
    forall|i: int, j: int|
        0 <= i < fs.len() && 0 <= j < fs.len() && i != j ==> (#[trigger] fs[i]).0 != (#[trigger] fs[j]).0
}

/// Every key that a bout names belongs to exactly one fencer.
pub open spec fn refs_resolve<T>(fs: Seq<(u64, T)>, bouts: Seq<StoredBout>) -> bool {
    &&& distinct_keys(fs)
    &&& forall|i: int|
        0 <= i < bouts.len() ==> key_known(fs, (#[trigger] bouts[i]).keys.0) && key_known(fs, bouts[i].keys.1)
}

/// The pairs of the stored bouts, as positions counted from one.
pub open spec fn resolved_order<T>(fs: Seq<(u64, T)>, bouts: Seq<StoredBout>) -> Seq<(usize, usize)> {
    bouts.map_values(
        |b: StoredBout| ((key_pos(fs, b.keys.0) + 1) as usize, (key_pos(fs, b.keys.1) + 1) as usize),
    )
}

/// The records of `fs`, without their keys.
pub open spec fn records<T>(fs: Seq<(u64, T)>) -> Seq<T> {
    fs.map_values(|x: (u64, T)| x.1)
}

/// The stored fencers are distinct competitors, and the stored bouts pair
/// every two of them exactly once.
pub open spec fn shape_ok<T: Fencer>(fs: Seq<(u64, T)>, bouts: Seq<StoredBout>) -> bool {
    &&& distinct_ids(records(fs))
    &&& is_round_robin(fs.len(), resolved_order(fs, bouts))
}

/// The other side.
pub open spec fn flip(p: TuplePos) -> TuplePos {
    match p {
        TuplePos::First => TuplePos::Second,
        TuplePos::Second => TuplePos::First,
        TuplePos::Unset => TuplePos::Unset,
    }
}

/// `entry` is the stored bout `sb` whose keys name the positions `pa` and
/// `pb`: keyed by the pair, with each side's record moved to the side of its
/// position.
pub open spec fn restores_bout(entry: ((usize, usize), Bout), pa: usize, pb: usize, sb: StoredBout) -> bool {
    &&& entry.0 == pair_key(pa, pb)
    &&& entry.1.fencers@ == entry.0
    &&& if pa < pb {
        &&& entry.1.scores == sb.scores
        &&& entry.1.cards == sb.cards
        &&& entry.1.priority == sb.priority
    } else {
        &&& entry.1.scores == (sb.scores.1, sb.scores.0)
        &&& entry.1.cards == (sb.cards.1, sb.cards.0)
        &&& entry.1.priority == flip(sb.priority)
    }
}

/// A pool with the fencers `fencers` and bouts `e` is what the stored
/// fencers `fs` and bouts `bouts` describe.
pub open spec fn restores<T: Fencer>(
    fs: Seq<(u64, T)>,
    bouts: Seq<StoredBout>,
    fencers: Seq<T>,
    e: Seq<((usize, usize), Bout)>,
) -> bool {
    &&& fencers == records(fs)
    &&& e.len() == bouts.len()
    &&& forall|i: int|
        0 <= i < e.len() ==> restores_bout(
            #[trigger] e[i],
            key_pos(fs, bouts[i].keys.0) as usize,
            key_pos(fs, bouts[i].keys.1) as usize,
            bouts[i],
        )
}

/// The stored fencers `fs` and bouts `bouts` describe the pool with the
/// fencers `fencers` and bouts `e`: a fencer's key is its position, and a
/// bout names its fencers lower position first.
pub open spec fn stores<T: Fencer>(
    fencers: Seq<T>,
    e: Seq<((usize, usize), Bout)>,
    fs: Seq<(u64, T)>,
    bouts: Seq<StoredBout>,
) -> bool {
    &&& fs.len() == fencers.len()
    &&& forall|i: int|
        0 <= i < fs.len() ==> (#[trigger] fs[i]).0 == i as u64 && fs[i].1.identity() == fencers[i].identity()
    &&& bouts.len() == e.len()
    &&& forall|i: int|
        0 <= i < bouts.len() ==> #[trigger] bouts[i] == (StoredBout {
            keys: (e[i].0.0 as u64, e[i].0.1 as u64),
            scores: e[i].1.scores,
            cards: e[i].1.cards,
            priority: e[i].1.priority,
        })
}

/// The place in `fs` of the fencer stored under `key`, if any.
fn find_key<T>(fs: &Vec<(u64, T)>, key: u64) -> (r: Option<usize>)
    ensures
        r matches Some(i) ==> i < fs@.len() && fs@[i as int].0 == key,
        r is None ==> !key_known(fs@, key),
{
    let mut i: usize = 0;
    while i < fs.len()
        invariant
            i <= fs@.len(),
            forall|j: int| 0 <= j < i ==> (#[trigger] fs@[j]).0 != key,
        decreases fs@.len() - i,
    {
        if fs[i].0 == key {
            return Some(i);
        }
        i = i + 1;
    }
    None
}

/// Restoring what a pool was stored as gives the pool back: the stored form
/// is accepted, and the pool it describes has the same competitors in the
/// same order and the same bouts, with the same scores, cards and
/// priorities.
pub proof fn lemma_round_trip<T: Fencer>(
    pool: PoolSheet<T>,
    fs: Seq<(u64, T)>,
    bouts: Seq<StoredBout>,
    fencers: Seq<T>,
    e: Seq<((usize, usize), Bout)>,
)
    requires
        pool.wf(),
        stores(pool.fencer_seq(), pool.entries(), fs, bouts),
    ensures
        refs_resolve(fs, bouts),
        shape_ok(fs, bouts),
        restores(fs, bouts, fencers, e) ==> {
            &&& fencers.len() == pool.fencer_seq().len()
            &&& forall|i: int| 0 <= i < fencers.len() ==> (#[trigger] fencers[i]).identity() == pool.fencer_seq()[i].identity()
            &&& e == pool.entries()
        },
{
    let n = pool.fencer_seq().len();
    let pe = pool.entries();
    assert(distinct_keys(fs)) by {
        assert forall|i: int, j: int| 0 <= i < fs.len() && 0 <= j < fs.len() && i != j implies (#[trigger] fs[i]).0 != (
        #[trigger] fs[j]).0 by {
            assert(fs[i].0 == i as u64 && fs[j].0 == j as u64);
        }
    }
    assert forall|j: int| 0 <= j < n implies key_pos(fs, #[trigger] (j as u64)) == j by {
        assert(fs[j].0 == j as u64);
    }
    assert forall|i: int| 0 <= i < bouts.len() implies key_known(fs, (#[trigger] bouts[i]).keys.0) && key_known(fs, bouts[i].keys.1) by {
        let lo = pe[i].0.0 as int;
        let hi = pe[i].0.1 as int;
        assert(fs[lo].0 == lo as u64);
        assert(fs[hi].0 == hi as u64);
    }
    assert(refs_resolve(fs, bouts));
    let order = resolved_order(fs, bouts);
    assert forall|i: int| 0 <= i < order.len() implies #[trigger] order[i] == ((pe[i].0.0 + 1) as usize, (pe[i].0.1 + 1) as usize) by {
        assert(key_pos(fs, pe[i].0.0 as u64) == pe[i].0.0 as int);
        assert(key_pos(fs, pe[i].0.1 as u64) == pe[i].0.1 as int);
    }
    assert forall|i: int, j: int| 0 <= i < order.len() && 0 <= j < order.len() && i != j implies !same_pair(
        #[trigger] order[i],
        #[trigger] order[j],
    ) by {
        assert(pe[i].0 != pe[j].0);
    }
    assert forall|a: usize, b: usize| 1 <= a < b <= n implies #[trigger] covered(order, a, b) by {
        assert(has_key(pe, ((a - 1) as usize, (b - 1) as usize)));
        let i = choose|i: int| 0 <= i < pe.len() && (#[trigger] pe[i]).0 == ((a - 1) as usize, (b - 1) as usize);
        assert(same_pair(order[i], (a, b)));
    }
    assert(is_round_robin(n, order));
    assert(distinct_ids(records(fs))) by {
        assert forall|i: int, j: int| 0 <= i < n && 0 <= j < n && i != j implies (#[trigger] records(fs)[i]).identity() != (
        #[trigger] records(fs)[j]).identity() by {
            assert(pool.fencer_seq()[i].identity() != pool.fencer_seq()[j].identity());
        }
    }
    if restores(fs, bouts, fencers, e) {
        assert forall|i: int| 0 <= i < fencers.len() implies (#[trigger] fencers[i]).identity() == pool.fencer_seq()[i].identity() by {
            assert(fencers[i] == fs[i].1);
        }
        assert forall|i: int| 0 <= i < e.len() implies #[trigger] e[i] == pe[i] by {
            assert(key_pos(fs, pe[i].0.0 as u64) == pe[i].0.0 as int);
            assert(key_pos(fs, pe[i].0.1 as u64) == pe[i].0.1 as int);
            assert(restores_bout(e[i], pe[i].0.0, pe[i].0.1, bouts[i]));
            e[i].1.fencers.lemma_view_injective(&pe[i].1.fencers);
        }
        assert(e =~= pe);
    }
}

impl<T: Fencer> PoolSheet<T> {
    /// The stored form of the pool: each fencer once, keyed by position, and
    /// each bout naming its fencers by key.
    pub fn to_stored(&self) -> (r: StoredPool<T>)
        requires
            self.wf(),
        ensures
            stores(self.fencer_seq(), self.entries(), r.fencers@, r.bouts@),
    {
        let own = self.get_fencers();
        let mut fencers: Vec<(u64, T)> = Vec::new();
        let mut i: usize = 0;
        while i < own.len()
            invariant
                own@ == self.fencer_seq(),
                i <= own@.len(),
                fencers@.len() == i,
                forall|j: int|
                    0 <= j < i ==> (#[trigger] fencers@[j]).0 == j as u64 && fencers@[j].1.identity()
                        == own@[j].identity(),
            decreases own@.len() - i,
        {
            fencers.push((i as u64, own[i].duplicate()));
            i = i + 1;
        }
        let m = self.bout_total();
        let mut bouts: Vec<StoredBout> = Vec::new();
        let mut k: usize = 0;
        while k < m
            invariant
                m == self.entries().len(),
                k <= m,
                bouts@.len() == k,
                forall|j: int|
                    0 <= j < k ==> #[trigger] bouts@[j] == (StoredBout {
                        keys: (self.entries()[j].0.0 as u64, self.entries()[j].0.1 as u64),
                        scores: self.entries()[j].1.scores,
                        cards: self.entries()[j].1.cards,
                        priority: self.entries()[j].1.priority,
                    }),
            decreases m - k,
        {
            match self.get_bout_at(k) {
                Some((key, bout)) => {
                    bouts.push(
                        StoredBout {
                            keys: (key.0 as u64, key.1 as u64),
                            scores: bout.scores,
                            cards: bout.cards,
                            priority: bout.priority,
                        },
                    );
                },
                None => {},
            }
            k = k + 1;
        }
        StoredPool { fencers, bouts }
    }

    /// The pool that a stored form describes. Fails with `InvalidReference`
    /// when two fencers share a key or a bout names a key that no fencer has,
    /// and otherwise with `InvalidBout` unless the fencers are distinct
    /// competitors and the bouts pair every two of them exactly once.
    pub fn from_stored(stored: StoredPool<T>) -> (r: Result<PoolSheet<T>, PoolSheetError>)
        ensures
            !refs_resolve(stored.fencers@, stored.bouts@) ==> r == Err::<PoolSheet<T>, PoolSheetError>(
                PoolSheetError::InvalidReference,
            ),
            refs_resolve(stored.fencers@, stored.bouts@) && !shape_ok(stored.fencers@, stored.bouts@) ==> r
                == Err::<PoolSheet<T>, PoolSheetError>(PoolSheetError::InvalidBout),
            refs_resolve(stored.fencers@, stored.bouts@) && shape_ok(stored.fencers@, stored.bouts@) ==> (r matches Ok(
                p,
            ) && p.wf() && restores(stored.fencers@, stored.bouts@, p.fencer_seq(), p.entries())),
    {
        Self::restore(stored.fencers, stored.bouts)
    }

    #[verifier::rlimit(40)]
    fn restore(fencers: Vec<(u64, T)>, bouts: Vec<StoredBout>) -> (r: Result<PoolSheet<T>, PoolSheetError>)
        ensures
            !refs_resolve(fencers@, bouts@) ==> r == Err::<PoolSheet<T>, PoolSheetError>(
                PoolSheetError::InvalidReference,
            ),
            refs_resolve(fencers@, bouts@) && !shape_ok(fencers@, bouts@) ==> r
                == Err::<PoolSheet<T>, PoolSheetError>(PoolSheetError::InvalidBout),
            refs_resolve(fencers@, bouts@) && shape_ok(fencers@, bouts@) ==> (r matches Ok(
                p,
            ) && p.wf() && restores(fencers@, bouts@, p.fencer_seq(), p.entries())),
    {
        let ghost sf = fencers@;
        let ghost sb0 = bouts@;
        let fs = &fencers;
        let n = fs.len();
        let mut i: usize = 0;
        while i < n
            invariant
                n == fs@.len(),
                fs@ == sf,
                sf == fencers@,
                bouts@ == sb0,
                i <= n,
                forall|a: int, b: int|
                    0 <= a < i && 0 <= b < n && a != b ==> (#[trigger] fs@[a]).0 != (#[trigger] fs@[b]).0,
            decreases n - i,
        {
            let mut j: usize = 0;
            while j < n
                invariant
                    n == fs@.len(),
                    fs@ == sf,
                    sf == fencers@,
                    bouts@ == sb0,
                    i < n,
                    j <= n,
                    forall|a: int, b: int|
                        0 <= a < i && 0 <= b < n && a != b ==> (#[trigger] fs@[a]).0 != (#[trigger] fs@[b]).0,
                    forall|b: int| 0 <= b < j && b != i ==> fs@[i as int].0 != (#[trigger] fs@[b]).0,
                decreases n - j,
            {
                if j != i && fs[i].0 == fs[j].0 {
                    assert(!distinct_keys(fs@));
                    return Err(PoolSheetError::InvalidReference);
                }
                j = j + 1;
            }
            i = i + 1;
        }
        assert(distinct_keys(fs@));
        let mut order: Vec<(usize, usize)> = Vec::new();
        let mut k: usize = 0;
        while k < bouts.len()
            invariant
                n == fs@.len(),
                fs@ == sf,
                sf == fencers@,
                bouts@ == sb0,
                distinct_keys(fs@),
                k <= bouts@.len(),
                order@.len() == k,
                forall|j: int|
                    0 <= j < k ==> key_known(fs@, (#[trigger] bouts@[j]).keys.0) && key_known(fs@, bouts@[j].keys.1),
                forall|j: int| 0 <= j < k ==> #[trigger] order@[j] == resolved_order(fs@, bouts@)[j],
            decreases bouts@.len() - k,
        {
            let sb = bouts[k];
            let pa = match find_key(&fs, sb.keys.0) {
                Some(p) => p,
                None => {
                    assert(!key_known(fs@, bouts@[k as int].keys.0));
                    return Err(PoolSheetError::InvalidReference);
                },
            };
            let pb = match find_key(&fs, sb.keys.1) {
                Some(p) => p,
                None => {
                    assert(!key_known(fs@, bouts@[k as int].keys.1));
                    return Err(PoolSheetError::InvalidReference);
                },
            };
            assert(pa == key_pos(fs@, sb.keys.0));
            assert(pb == key_pos(fs@, sb.keys.1));
            order.push((pa + 1, pb + 1));
            k = k + 1;
        }
        assert(order@ =~= resolved_order(fs@, bouts@));
        assert(refs_resolve(fs@, bouts@));
        if !check_round_robin(n, &order) {
            return Err(PoolSheetError::InvalidBout);
        }
        let mut a: usize = 0;
        while a < n
            invariant
                n == fs@.len(),
                fs@ == sf,
                sf == fencers@,
                refs_resolve(sf, sb0),
                bouts@ == sb0,
                a <= n,
                forall|x: int, y: int|
                    0 <= x < a && 0 <= y < n && x != y ==> (#[trigger] fs@[x]).1.identity() != (
                    #[trigger] fs@[y]).1.identity(),
            decreases n - a,
        {
            let mut b: usize = 0;
            while b < n
                invariant
                    n == fs@.len(),
                    fs@ == sf,
                    sf == fencers@,
                    refs_resolve(sf, sb0),
                    bouts@ == sb0,
                    a < n,
                    b <= n,
                    forall|x: int, y: int|
                        0 <= x < a && 0 <= y < n && x != y ==> (#[trigger] fs@[x]).1.identity() != (
                        #[trigger] fs@[y]).1.identity(),
                    forall|y: int| 0 <= y < b && y != a ==> fs@[a as int].1.identity() != (#[trigger] fs@[y]).1.identity(),
                decreases n - b,
            {
                if b != a && fs[a].1.same_fencer(&fs[b].1) {
                    assert(!distinct_ids(records(fs@))) by {
                        assert(records(fs@)[a as int] == fs@[a as int].1);
                        assert(records(fs@)[b as int] == fs@[b as int].1);
                    }
                    return Err(PoolSheetError::InvalidBout);
                }
                b = b + 1;
            }
            a = a + 1;
        }
        assert(distinct_ids(records(fs@))) by {
            assert forall|x: int, y: int|
                0 <= x < n && 0 <= y < n && x != y implies (#[trigger] records(fs@)[x]).identity() != (
                #[trigger] records(fs@)[y]).identity() by {
                assert(fs@[x].1.identity() != fs@[y].1.identity());
            }
        }
        let ghost kept = fs@;
        assert(refs_resolve(kept, bouts@));
        let mut fs = fencers;
        let mut own: Vec<T> = Vec::new();
        while fs.len() > 0
            invariant
                own@ + records(fs@) == records(kept),
                kept == sf,
                bouts@ == sb0,
                order@ == resolved_order(kept, bouts@),
                is_round_robin(kept.len(), order@),
                distinct_keys(kept),
                refs_resolve(kept, bouts@),
                distinct_ids(records(kept)),
            decreases fs@.len(),
        {
            let ghost before = fs@;
            let (_, f) = fs.remove(0);
            assert(records(before) =~= seq![before[0].1] + records(fs@));
            own.push(f);
            assert(own@ + records(fs@) =~= records(kept));
        }
        assert(own@ =~= records(kept));
        let mut map = new_bout_map();
        let mut k: usize = 0;
        while k < bouts.len()
            invariant
                n == kept.len(),
                kept == sf,
                bouts@ == sb0,
                own@.len() == n,
                own@ == records(kept),
                distinct_ids(own@),
                distinct_keys(kept),
                refs_resolve(kept, bouts@),
                order@ == resolved_order(kept, bouts@),
                is_round_robin(n as nat, order@),
                order@.len() == bouts@.len(),
                k <= bouts@.len(),
                unique_keys(bout_entries(map)),
                bout_entries(map).len() == k,
                forall|j: int|
                    0 <= j < k ==> restores_bout(
                        #[trigger] bout_entries(map)[j],
                        key_pos(kept, bouts@[j].keys.0) as usize,
                        key_pos(kept, bouts@[j].keys.1) as usize,
                        bouts@[j],
                    ),
                forall|j: int|
                    0 <= j < k ==> (#[trigger] bout_entries(map)[j]).0 == pair_key(
                        (order@[j].0 - 1) as usize,
                        (order@[j].1 - 1) as usize,
                    ),
            decreases bouts@.len() - k,
        {
            let sb = bouts[k];
            let (a1, b1) = order[k];
            assert(valid_pair(n as nat, order@[k as int]));
            assert(order@[k as int] == resolved_order(kept, bouts@)[k as int]);
            assert(key_known(kept, bouts@[k as int].keys.0) && key_known(kept, bouts@[k as int].keys.1));
            let ghost ia = key_pos(kept, bouts@[k as int].keys.0);
            let ghost ib = key_pos(kept, bouts@[k as int].keys.1);
            assert(0 <= ia < n && 0 <= ib < n);
            assert(order@[k as int] == ((ia + 1) as usize, (ib + 1) as usize));
            assert(a1 - 1 == key_pos(kept, bouts@[k as int].keys.0) as usize);
            assert(b1 - 1 == key_pos(kept, bouts@[k as int].keys.1) as usize);
            let pa = a1 - 1;
            let pb = b1 - 1;
            let vs = match FencerVs::new(pa, pb) {
                Ok(vs) => vs,
                Err(e) => return Err(e),
            };
            let bout = if pa < pb {
                Bout { fencers: vs, scores: sb.scores, cards: sb.cards, priority: sb.priority }
            } else {
                let priority = match sb.priority {
                    TuplePos::First => TuplePos::Second,
                    TuplePos::Second => TuplePos::First,
                    TuplePos::Unset => TuplePos::Unset,
                };
                Bout {
                    fencers: vs,
                    scores: (sb.scores.1, sb.scores.0),
                    cards: (sb.cards.1, sb.cards.0),
                    priority,
                }
            };
            let key = vs.key();
            let ghost e = bout_entries(map);
            assert forall|j: int| 0 <= j < e.len() implies (#[trigger] e[j]).0 != key by {
                assert(!same_pair(order@[j], order@[k as int]));
            }
            insert_bout(&mut map, key, bout);
            assert(bout_entries(map) == e.push((key, bout)));
            assert(bout_entries(map)[k as int] == (key, bout));
            assert forall|j: int| 0 <= j < k implies #[trigger] bout_entries(map)[j] == e[j] by {}
            k = k + 1;
        }
        let ghost e = bout_entries(map);
        assert forall|x: usize, y: usize| x < y < n implies #[trigger] has_key(e, (x, y)) by {
            assert(covered(order@, (x + 1) as usize, (y + 1) as usize));
            let i = choose|i: int| 0 <= i < order@.len() && same_pair(#[trigger] order@[i], ((x + 1) as usize, (y + 1) as usize));
            assert(e[i].0 == (x, y));
        }
        assert(forall|i: int| 0 <= i < e.len() ==> (#[trigger] e[i]).0 == e[i].1.fencers@ && e[i].0.0 < e[i].0.1 && e[i].0.1 < n);
        Ok(PoolSheet::from_parts(own, map))
    }
}

} // verus!
