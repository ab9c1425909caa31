use crate::error::PoolOrderError;
use vstd::prelude::*;

verus! {

/// `p` names two distinct fencers among `1..=n`.
pub open spec fn valid_pair(n: nat, p: (usize, usize)) -> bool {
    1 <= p.0 <= n && 1 <= p.1 <= n && p.0 != p.1
}

/// `p` and `q` name the same two fencers, in either order.
pub open spec fn same_pair(p: (usize, usize), q: (usize, usize)) -> bool {
    (p.0 == q.0 && p.1 == q.1) || (p.0 == q.1 && p.1 == q.0)
}

/// Some entry of `order` names the fencers `a` and `b`.
pub open spec fn covered(order: Seq<(usize, usize)>, a: usize, b: usize) -> bool {
    exists|i: int| 0 <= i < order.len() && same_pair(#[trigger] order[i], (a, b))
}

/// `order` pairs every two of the fencers `1..=n` exactly once: each entry
/// names two distinct fencers, no two entries name the same two, and every
/// two fencers are named by some entry.
pub open spec fn is_round_robin(n: nat, order: Seq<(usize, usize)>) -> bool {
    &&& forall|i: int| 0 <= i < order.len() ==> valid_pair(n, #[trigger] order[i])
    &&& forall|i: int, j: int|
        0 <= i < order.len() && 0 <= j < order.len() && i != j ==> !same_pair(
            #[trigger] order[i],
            #[trigger] order[j],
        )
    &&& forall|a: usize, b: usize| 1 <= a < b <= n ==> #[trigger] covered(order, a, b)
}

/// An order of `n * (n - 1) / 2` entries, each naming two distinct fencers
/// of `1..=n`, that names every two fencers, pairs each two exactly once.
proof fn lemma_complete_order(n: nat, order: Seq<(usize, usize)>)
    requires
        n <= usize::MAX,
        2 * order.len() == n * (n - 1),
        forall|i: int| 0 <= i < order.len() ==> valid_pair(n, #[trigger] order[i]),
        forall|a: usize, b: usize| 1 <= a < b <= n ==> #[trigger] covered(order, a, b),
    ensures
        is_round_robin(n, order),
{
    let s = order.map_values(|p: (usize, usize)| ordered_pair(p));
    lemma_pairs_upto(n);
    assert forall|p: (usize, usize)| #[trigger] s.to_set().contains(p) <==> pairs_upto(n).contains(p) by {
        if s.to_set().contains(p) {
            let i = choose|i: int| 0 <= i < s.len() && s[i] == p;
            assert(valid_pair(n, order[i]));
        }
        if pairs_upto(n).contains(p) {
            assert(covered(order, p.0, p.1));
            let i = choose|i: int| 0 <= i < order.len() && same_pair(#[trigger] order[i], (p.0, p.1));
            assert(s[i] == p);
            assert(s.contains(p));
        }
    }
    assert(s.to_set() =~= pairs_upto(n));
    s.lemma_no_dup_set_cardinality();
    assert forall|i: int, j: int|
        0 <= i < order.len() && 0 <= j < order.len() && i != j implies !same_pair(
        #[trigger] order[i],
        #[trigger] order[j],
    ) by {
        assert(s[i] != s[j]);
    }
}

/// The bout order of a pool of 4, as positions counted from one.
pub open spec fn table_4() -> Seq<(usize, usize)> {
    seq![
        (1usize, 4usize), (2usize, 3usize), (1usize, 3usize), (2usize, 4usize), (3usize, 4usize), (1usize, 2usize),
    ]
}

fn order_of_4() -> (r: Vec<(usize, usize)>)
    ensures
        r@ == table_4(),
{
    vec![
        (1, 4), (2, 3), (1, 3), (2, 4), (3, 4), (1, 2),
    ]
}

proof fn lemma_table_4()
    ensures
        is_round_robin(4, table_4()),
{
    let s = table_4();
    assert(s.len() == 6);
    assert forall|i: int| 0 <= i < s.len() implies valid_pair(4, #[trigger] s[i]) by {}
    assert forall|a: usize, b: usize| 1 <= a < b <= 4 implies #[trigger] covered(s, a, b) by {
        if a == 1 {
            if b == 2 {
                assert(same_pair(s[5], (a, b)));
            } else if b == 3 {
                assert(same_pair(s[2], (a, b)));
            } else if b == 4 {
                assert(same_pair(s[0], (a, b)));
            }
        } else if a == 2 {
            if b == 3 {
                assert(same_pair(s[1], (a, b)));
            } else if b == 4 {
                assert(same_pair(s[3], (a, b)));
            }
        } else if a == 3 {
            if b == 4 {
                assert(same_pair(s[4], (a, b)));
            }
        }
    }
    lemma_complete_order(4, s);
}

/// The bout order of a pool of 5, as positions counted from one.
pub open spec fn table_5() -> Seq<(usize, usize)> {
    seq![
        (1usize, 2usize), (3usize, 4usize), (5usize, 1usize), (2usize, 3usize), (5usize, 4usize), (1usize, 3usize),
        (2usize, 5usize), (4usize, 1usize), (3usize, 5usize), (4usize, 2usize),
    ]
}

fn order_of_5() -> (r: Vec<(usize, usize)>)
    ensures
        r@ == table_5(),
{
    vec![
        (1, 2), (3, 4), (5, 1), (2, 3), (5, 4), (1, 3),
        (2, 5), (4, 1), (3, 5), (4, 2),
    ]
}

proof fn lemma_table_5()
    ensures
        is_round_robin(5, table_5()),
{
    let s = table_5();
    assert(s.len() == 10);
    assert forall|i: int| 0 <= i < s.len() implies valid_pair(5, #[trigger] s[i]) by {}
    assert forall|a: usize, b: usize| 1 <= a < b <= 5 implies #[trigger] covered(s, a, b) by {
        if a == 1 {
            if b == 2 {
                assert(same_pair(s[0], (a, b)));
            } else if b == 3 {
                assert(same_pair(s[5], (a, b)));
            } else if b == 4 {
                assert(same_pair(s[7], (a, b)));
            } else if b == 5 {
                assert(same_pair(s[2], (a, b)));
            }
        } else if a == 2 {
            if b == 3 {
                assert(same_pair(s[3], (a, b)));
            } else if b == 4 {
                assert(same_pair(s[9], (a, b)));
            } else if b == 5 {
                assert(same_pair(s[6], (a, b)));
            }
        } else if a == 3 {
            if b == 4 {
                assert(same_pair(s[1], (a, b)));
            } else if b == 5 {
                assert(same_pair(s[8], (a, b)));
            }
        } else if a == 4 {
            if b == 5 {
                assert(same_pair(s[4], (a, b)));
            }
        }
    }
    lemma_complete_order(5, s);
}

/// The bout order of a pool of 6, as positions counted from one.
pub open spec fn table_6() -> Seq<(usize, usize)> {
    seq![
        (1usize, 2usize), (4usize, 5usize), (2usize, 3usize), (5usize, 6usize), (3usize, 1usize), (6usize, 4usize),
        (2usize, 5usize), (1usize, 4usize), (5usize, 3usize), (1usize, 6usize), (4usize, 2usize), (3usize, 6usize),
        (5usize, 1usize), (3usize, 4usize), (6usize, 2usize),
    ]
}

fn order_of_6() -> (r: Vec<(usize, usize)>)
    ensures
        r@ == table_6(),
{
    vec![
        (1, 2), (4, 5), (2, 3), (5, 6), (3, 1), (6, 4),
        (2, 5), (1, 4), (5, 3), (1, 6), (4, 2), (3, 6),
        (5, 1), (3, 4), (6, 2),
    ]
}

proof fn lemma_table_6()
    ensures
        is_round_robin(6, table_6()),
{
    let s = table_6();
    assert(s.len() == 15);
    assert forall|i: int| 0 <= i < s.len() implies valid_pair(6, #[trigger] s[i]) by {}
    assert forall|a: usize, b: usize| 1 <= a < b <= 6 implies #[trigger] covered(s, a, b) by {
        if a == 1 {
            if b == 2 {
                assert(same_pair(s[0], (a, b)));
            } else if b == 3 {
                assert(same_pair(s[4], (a, b)));
            } else if b == 4 {
                assert(same_pair(s[7], (a, b)));
            } else if b == 5 {
                assert(same_pair(s[12], (a, b)));
            } else if b == 6 {
                assert(same_pair(s[9], (a, b)));
            }
        } else if a == 2 {
            if b == 3 {
                assert(same_pair(s[2], (a, b)));
            } else if b == 4 {
                assert(same_pair(s[10], (a, b)));
            } else if b == 5 {
                assert(same_pair(s[6], (a, b)));
            } else if b == 6 {
                assert(same_pair(s[14], (a, b)));
            }
        } else if a == 3 {
            if b == 4 {
                assert(same_pair(s[13], (a, b)));
            } else if b == 5 {
                assert(same_pair(s[8], (a, b)));
            } else if b == 6 {
                assert(same_pair(s[11], (a, b)));
            }
        } else if a == 4 {
            if b == 5 {
                assert(same_pair(s[1], (a, b)));
            } else if b == 6 {
                assert(same_pair(s[5], (a, b)));
            }
        } else if a == 5 {
            if b == 6 {
                assert(same_pair(s[3], (a, b)));
            }
        }
    }
    lemma_complete_order(6, s);
}

/// The bout order of a pool of 7, as positions counted from one.
pub open spec fn table_7() -> Seq<(usize, usize)> {
    seq![
        (1usize, 4usize), (2usize, 5usize), (3usize, 6usize), (7usize, 1usize), (5usize, 4usize), (2usize, 3usize),
        (6usize, 7usize), (5usize, 1usize), (4usize, 3usize), (6usize, 2usize), (5usize, 7usize), (3usize, 1usize),
        (4usize, 6usize), (7usize, 2usize), (3usize, 5usize), (1usize, 6usize), (2usize, 4usize), (7usize, 3usize),
        (6usize, 5usize), (1usize, 2usize), (4usize, 7usize),
    ]
}

fn order_of_7() -> (r: Vec<(usize, usize)>)
    ensures
        r@ == table_7(),
{
    vec![
        (1, 4), (2, 5), (3, 6), (7, 1), (5, 4), (2, 3),
        (6, 7), (5, 1), (4, 3), (6, 2), (5, 7), (3, 1),
        (4, 6), (7, 2), (3, 5), (1, 6), (2, 4), (7, 3),
        (6, 5), (1, 2), (4, 7),
    ]
}

proof fn lemma_table_7()
    ensures
        is_round_robin(7, table_7()),
{
    let s = table_7();
    assert(s.len() == 21);
    assert forall|i: int| 0 <= i < s.len() implies valid_pair(7, #[trigger] s[i]) by {}
    assert forall|a: usize, b: usize| 1 <= a < b <= 7 implies #[trigger] covered(s, a, b) by {
        if a == 1 {
            if b == 2 {
                assert(same_pair(s[19], (a, b)));
            } else if b == 3 {
                assert(same_pair(s[11], (a, b)));
            } else if b == 4 {
                assert(same_pair(s[0], (a, b)));
            } else if b == 5 {
                assert(same_pair(s[7], (a, b)));
            } else if b == 6 {
                assert(same_pair(s[15], (a, b)));
            } else if b == 7 {
                assert(same_pair(s[3], (a, b)));
            }
        } else if a == 2 {
            if b == 3 {
                assert(same_pair(s[5], (a, b)));
            } else if b == 4 {
                assert(same_pair(s[16], (a, b)));
            } else if b == 5 {
                assert(same_pair(s[1], (a, b)));
            } else if b == 6 {
                assert(same_pair(s[9], (a, b)));
            } else if b == 7 {
                assert(same_pair(s[13], (a, b)));
            }
        } else if a == 3 {
            if b == 4 {
                assert(same_pair(s[8], (a, b)));
            } else if b == 5 {
                assert(same_pair(s[14], (a, b)));
            } else if b == 6 {
                assert(same_pair(s[2], (a, b)));
            } else if b == 7 {
                assert(same_pair(s[17], (a, b)));
            }
        } else if a == 4 {
            if b == 5 {
                assert(same_pair(s[4], (a, b)));
            } else if b == 6 {
                assert(same_pair(s[12], (a, b)));
            } else if b == 7 {
                assert(same_pair(s[20], (a, b)));
            }
        } else if a == 5 {
            if b == 6 {
                assert(same_pair(s[18], (a, b)));
            } else if b == 7 {
                assert(same_pair(s[10], (a, b)));
            }
        } else if a == 6 {
            if b == 7 {
                assert(same_pair(s[6], (a, b)));
            }
        }
    }
    lemma_complete_order(7, s);
}

/// The bout order of a pool of 8, as positions counted from one.
pub open spec fn table_8() -> Seq<(usize, usize)> {
    seq![
        (2usize, 3usize), (1usize, 5usize), (7usize, 4usize), (6usize, 8usize), (1usize, 2usize), (3usize, 4usize),
        (5usize, 6usize), (8usize, 7usize), (4usize, 1usize), (5usize, 2usize), (8usize, 3usize), (6usize, 7usize),
        (4usize, 2usize), (8usize, 1usize), (7usize, 5usize), (3usize, 6usize), (2usize, 8usize), (5usize, 4usize),
        (6usize, 1usize), (3usize, 7usize), (4usize, 8usize), (2usize, 6usize), (3usize, 5usize), (1usize, 7usize),
        (4usize, 6usize), (8usize, 5usize), (7usize, 2usize), (1usize, 3usize),
    ]
}

fn order_of_8() -> (r: Vec<(usize, usize)>)
    ensures
        r@ == table_8(),
{
    vec![
        (2, 3), (1, 5), (7, 4), (6, 8), (1, 2), (3, 4),
        (5, 6), (8, 7), (4, 1), (5, 2), (8, 3), (6, 7),
        (4, 2), (8, 1), (7, 5), (3, 6), (2, 8), (5, 4),
        (6, 1), (3, 7), (4, 8), (2, 6), (3, 5), (1, 7),
        (4, 6), (8, 5), (7, 2), (1, 3),
    ]
}

proof fn lemma_table_8()
    ensures
        is_round_robin(8, table_8()),
{
    let s = table_8();
    assert(s.len() == 28);
    assert forall|i: int| 0 <= i < s.len() implies valid_pair(8, #[trigger] s[i]) by {}
    assert forall|a: usize, b: usize| 1 <= a < b <= 8 implies #[trigger] covered(s, a, b) by {
        if a == 1 {
            if b == 2 {
                assert(same_pair(s[4], (a, b)));
            } else if b == 3 {
                assert(same_pair(s[27], (a, b)));
            } else if b == 4 {
                assert(same_pair(s[8], (a, b)));
            } else if b == 5 {
                assert(same_pair(s[1], (a, b)));
            } else if b == 6 {
                assert(same_pair(s[18], (a, b)));
            } else if b == 7 {
                assert(same_pair(s[23], (a, b)));
            } else if b == 8 {
                assert(same_pair(s[13], (a, b)));
            }
        } else if a == 2 {
            if b == 3 {
                assert(same_pair(s[0], (a, b)));
            } else if b == 4 {
                assert(same_pair(s[12], (a, b)));
            } else if b == 5 {
                assert(same_pair(s[9], (a, b)));
            } else if b == 6 {
                assert(same_pair(s[21], (a, b)));
            } else if b == 7 {
                assert(same_pair(s[26], (a, b)));
            } else if b == 8 {
                assert(same_pair(s[16], (a, b)));
            }
        } else if a == 3 {
            if b == 4 {
                assert(same_pair(s[5], (a, b)));
            } else if b == 5 {
                assert(same_pair(s[22], (a, b)));
            } else if b == 6 {
                assert(same_pair(s[15], (a, b)));
            } else if b == 7 {
                assert(same_pair(s[19], (a, b)));
            } else if b == 8 {
                assert(same_pair(s[10], (a, b)));
            }
        } else if a == 4 {
            if b == 5 {
                assert(same_pair(s[17], (a, b)));
            } else if b == 6 {
                assert(same_pair(s[24], (a, b)));
            } else if b == 7 {
                assert(same_pair(s[2], (a, b)));
            } else if b == 8 {
                assert(same_pair(s[20], (a, b)));
            }
        } else if a == 5 {
            if b == 6 {
                assert(same_pair(s[6], (a, b)));
            } else if b == 7 {
                assert(same_pair(s[14], (a, b)));
            } else if b == 8 {
                assert(same_pair(s[25], (a, b)));
            }
        } else if a == 6 {
            if b == 7 {
                assert(same_pair(s[11], (a, b)));
            } else if b == 8 {
                assert(same_pair(s[3], (a, b)));
            }
        } else if a == 7 {
            if b == 8 {
                assert(same_pair(s[7], (a, b)));
            }
        }
    }
    lemma_complete_order(8, s);
}

/// The bout order of a pool of 9, as positions counted from one.
pub open spec fn table_9() -> Seq<(usize, usize)> {
    seq![
        (1usize, 9usize), (2usize, 8usize), (3usize, 7usize), (4usize, 6usize), (1usize, 5usize), (2usize, 9usize),
        (8usize, 3usize), (7usize, 4usize), (6usize, 5usize), (1usize, 2usize), (9usize, 3usize), (8usize, 4usize),
        (7usize, 5usize), (6usize, 1usize), (3usize, 2usize), (9usize, 4usize), (5usize, 8usize), (7usize, 6usize),
        (3usize, 1usize), (2usize, 4usize), (5usize, 9usize), (8usize, 6usize), (7usize, 1usize), (4usize, 3usize),
        (5usize, 2usize), (6usize, 9usize), (8usize, 7usize), (4usize, 1usize), (5usize, 3usize), (6usize, 2usize),
        (9usize, 7usize), (1usize, 8usize), (4usize, 5usize), (3usize, 6usize), (2usize, 7usize), (9usize, 8usize),
    ]
}

fn order_of_9() -> (r: Vec<(usize, usize)>)
    ensures
        r@ == table_9(),
{
    vec![
        (1, 9), (2, 8), (3, 7), (4, 6), (1, 5), (2, 9),
        (8, 3), (7, 4), (6, 5), (1, 2), (9, 3), (8, 4),
        (7, 5), (6, 1), (3, 2), (9, 4), (5, 8), (7, 6),
        (3, 1), (2, 4), (5, 9), (8, 6), (7, 1), (4, 3),
        (5, 2), (6, 9), (8, 7), (4, 1), (5, 3), (6, 2),
        (9, 7), (1, 8), (4, 5), (3, 6), (2, 7), (9, 8),
    ]
}

proof fn lemma_table_9()
    ensures
        is_round_robin(9, table_9()),
{
    let s = table_9();
    assert(s.len() == 36);
    assert forall|i: int| 0 <= i < s.len() implies valid_pair(9, #[trigger] s[i]) by {}
    assert forall|a: usize, b: usize| 1 <= a < b <= 9 implies #[trigger] covered(s, a, b) by {
        if a == 1 {
            if b == 2 {
                assert(same_pair(s[9], (a, b)));
            } else if b == 3 {
                assert(same_pair(s[18], (a, b)));
            } else if b == 4 {
                assert(same_pair(s[27], (a, b)));
            } else if b == 5 {
                assert(same_pair(s[4], (a, b)));
            } else if b == 6 {
                assert(same_pair(s[13], (a, b)));
            } else if b == 7 {
                assert(same_pair(s[22], (a, b)));
            } else if b == 8 {
                assert(same_pair(s[31], (a, b)));
            } else if b == 9 {
                assert(same_pair(s[0], (a, b)));
            }
        } else if a == 2 {
            if b == 3 {
                assert(same_pair(s[14], (a, b)));
            } else if b == 4 {
                assert(same_pair(s[19], (a, b)));
            } else if b == 5 {
                assert(same_pair(s[24], (a, b)));
            } else if b == 6 {
                assert(same_pair(s[29], (a, b)));
            } else if b == 7 {
                assert(same_pair(s[34], (a, b)));
            } else if b == 8 {
                assert(same_pair(s[1], (a, b)));
            } else if b == 9 {
                assert(same_pair(s[5], (a, b)));
            }
        } else if a == 3 {
            if b == 4 {
                assert(same_pair(s[23], (a, b)));
            } else if b == 5 {
                assert(same_pair(s[28], (a, b)));
            } else if b == 6 {
                assert(same_pair(s[33], (a, b)));
            } else if b == 7 {
                assert(same_pair(s[2], (a, b)));
            } else if b == 8 {
                assert(same_pair(s[6], (a, b)));
            } else if b == 9 {
                assert(same_pair(s[10], (a, b)));
            }
        } else if a == 4 {
            if b == 5 {
                assert(same_pair(s[32], (a, b)));
            } else if b == 6 {
                assert(same_pair(s[3], (a, b)));
            } else if b == 7 {
                assert(same_pair(s[7], (a, b)));
            } else if b == 8 {
                assert(same_pair(s[11], (a, b)));
            } else if b == 9 {
                assert(same_pair(s[15], (a, b)));
            }
        } else if a == 5 {
            if b == 6 {
                assert(same_pair(s[8], (a, b)));
            } else if b == 7 {
                assert(same_pair(s[12], (a, b)));
            } else if b == 8 {
                assert(same_pair(s[16], (a, b)));
            } else if b == 9 {
                assert(same_pair(s[20], (a, b)));
            }
        } else if a == 6 {
            if b == 7 {
                assert(same_pair(s[17], (a, b)));
            } else if b == 8 {
                assert(same_pair(s[21], (a, b)));
            } else if b == 9 {
                assert(same_pair(s[25], (a, b)));
            }
        } else if a == 7 {
            if b == 8 {
                assert(same_pair(s[26], (a, b)));
            } else if b == 9 {
                assert(same_pair(s[30], (a, b)));
            }
        } else if a == 8 {
            if b == 9 {
                assert(same_pair(s[35], (a, b)));
            }
        }
    }
    lemma_complete_order(9, s);
}

/// The bout order of a pool of 10, as positions counted from one.
pub open spec fn table_10() -> Seq<(usize, usize)> {
    seq![
        (1usize, 4usize), (6usize, 9usize), (2usize, 5usize), (7usize, 10usize), (3usize, 1usize), (8usize, 6usize),
        (4usize, 5usize), (9usize, 10usize), (2usize, 3usize), (7usize, 8usize), (5usize, 1usize), (10usize, 6usize),
        (4usize, 2usize), (9usize, 7usize), (5usize, 3usize), (10usize, 8usize), (1usize, 2usize), (6usize, 7usize),
        (3usize, 4usize), (8usize, 9usize), (5usize, 10usize), (1usize, 6usize), (2usize, 7usize), (3usize, 8usize),
        (4usize, 9usize), (6usize, 5usize), (10usize, 2usize), (8usize, 1usize), (7usize, 4usize), (9usize, 3usize),
        (2usize, 6usize), (5usize, 8usize), (4usize, 10usize), (1usize, 9usize), (3usize, 7usize), (8usize, 2usize),
        (6usize, 4usize), (9usize, 5usize), (10usize, 3usize), (7usize, 1usize), (4usize, 8usize), (2usize, 9usize),
        (3usize, 6usize), (5usize, 7usize), (1usize, 10usize),
    ]
}

fn order_of_10() -> (r: Vec<(usize, usize)>)
    ensures
        r@ == table_10(),
{
    vec![
        (1, 4), (6, 9), (2, 5), (7, 10), (3, 1), (8, 6),
        (4, 5), (9, 10), (2, 3), (7, 8), (5, 1), (10, 6),
        (4, 2), (9, 7), (5, 3), (10, 8), (1, 2), (6, 7),
        (3, 4), (8, 9), (5, 10), (1, 6), (2, 7), (3, 8),
        (4, 9), (6, 5), (10, 2), (8, 1), (7, 4), (9, 3),
        (2, 6), (5, 8), (4, 10), (1, 9), (3, 7), (8, 2),
        (6, 4), (9, 5), (10, 3), (7, 1), (4, 8), (2, 9),
        (3, 6), (5, 7), (1, 10),
    ]
}

proof fn lemma_table_10()
    ensures
        is_round_robin(10, table_10()),
{
    let s = table_10();
    assert(s.len() == 45);
    assert forall|i: int| 0 <= i < s.len() implies valid_pair(10, #[trigger] s[i]) by {}
    assert forall|a: usize, b: usize| 1 <= a < b <= 10 implies #[trigger] covered(s, a, b) by {
        if a == 1 {
            if b == 2 {
                assert(same_pair(s[16], (a, b)));
            } else if b == 3 {
                assert(same_pair(s[4], (a, b)));
            } else if b == 4 {
                assert(same_pair(s[0], (a, b)));
            } else if b == 5 {
                assert(same_pair(s[10], (a, b)));
            } else if b == 6 {
                assert(same_pair(s[21], (a, b)));
            } else if b == 7 {
                assert(same_pair(s[39], (a, b)));
            } else if b == 8 {
                assert(same_pair(s[27], (a, b)));
            } else if b == 9 {
                assert(same_pair(s[33], (a, b)));
            } else if b == 10 {
                assert(same_pair(s[44], (a, b)));
            }
        } else if a == 2 {
            if b == 3 {
                assert(same_pair(s[8], (a, b)));
            } else if b == 4 {
                assert(same_pair(s[12], (a, b)));
            } else if b == 5 {
                assert(same_pair(s[2], (a, b)));
            } else if b == 6 {
                assert(same_pair(s[30], (a, b)));
            } else if b == 7 {
                assert(same_pair(s[22], (a, b)));
            } else if b == 8 {
                assert(same_pair(s[35], (a, b)));
            } else if b == 9 {
                assert(same_pair(s[41], (a, b)));
            } else if b == 10 {
                assert(same_pair(s[26], (a, b)));
            }
        } else if a == 3 {
            if b == 4 {
                assert(same_pair(s[18], (a, b)));
            } else if b == 5 {
                assert(same_pair(s[14], (a, b)));
            } else if b == 6 {
                assert(same_pair(s[42], (a, b)));
            } else if b == 7 {
                assert(same_pair(s[34], (a, b)));
            } else if b == 8 {
                assert(same_pair(s[23], (a, b)));
            } else if b == 9 {
                assert(same_pair(s[29], (a, b)));
            } else if b == 10 {
                assert(same_pair(s[38], (a, b)));
            }
        } else if a == 4 {
            if b == 5 {
                assert(same_pair(s[6], (a, b)));
            } else if b == 6 {
                assert(same_pair(s[36], (a, b)));
            } else if b == 7 {
                assert(same_pair(s[28], (a, b)));
            } else if b == 8 {
                assert(same_pair(s[40], (a, b)));
            } else if b == 9 {
                assert(same_pair(s[24], (a, b)));
            } else if b == 10 {
                assert(same_pair(s[32], (a, b)));
            }
        } else if a == 5 {
            if b == 6 {
                assert(same_pair(s[25], (a, b)));
            } else if b == 7 {
                assert(same_pair(s[43], (a, b)));
            } else if b == 8 {
                assert(same_pair(s[31], (a, b)));
            } else if b == 9 {
                assert(same_pair(s[37], (a, b)));
            } else if b == 10 {
                assert(same_pair(s[20], (a, b)));
            }
        } else if a == 6 {
            if b == 7 {
                assert(same_pair(s[17], (a, b)));
            } else if b == 8 {
                assert(same_pair(s[5], (a, b)));
            } else if b == 9 {
                assert(same_pair(s[1], (a, b)));
            } else if b == 10 {
                assert(same_pair(s[11], (a, b)));
            }
        } else if a == 7 {
            if b == 8 {
                assert(same_pair(s[9], (a, b)));
            } else if b == 9 {
                assert(same_pair(s[13], (a, b)));
            } else if b == 10 {
                assert(same_pair(s[3], (a, b)));
            }
        } else if a == 8 {
            if b == 9 {
                assert(same_pair(s[19], (a, b)));
            } else if b == 10 {
                assert(same_pair(s[15], (a, b)));
            }
        } else if a == 9 {
            if b == 10 {
                assert(same_pair(s[7], (a, b)));
            }
        }
    }
    lemma_complete_order(10, s);
}

/// The bout order of a pool of 11, as positions counted from one.
pub open spec fn table_11() -> Seq<(usize, usize)> {
    seq![
        (1usize, 2usize), (7usize, 8usize), (4usize, 5usize), (10usize, 11usize), (2usize, 3usize), (8usize, 9usize),
        (5usize, 6usize), (3usize, 1usize), (9usize, 7usize), (6usize, 4usize), (2usize, 5usize), (8usize, 11usize),
        (1usize, 4usize), (7usize, 10usize), (5usize, 3usize), (11usize, 9usize), (1usize, 6usize), (4usize, 2usize),
        (10usize, 8usize), (3usize, 6usize), (5usize, 1usize), (11usize, 7usize), (3usize, 4usize), (9usize, 10usize),
        (6usize, 2usize), (1usize, 7usize), (3usize, 9usize), (10usize, 4usize), (8usize, 2usize), (5usize, 11usize),
        (1usize, 8usize), (9usize, 2usize), (3usize, 10usize), (4usize, 11usize), (6usize, 7usize), (9usize, 1usize),
        (2usize, 10usize), (11usize, 3usize), (7usize, 5usize), (6usize, 8usize), (10usize, 1usize), (11usize, 2usize),
        (4usize, 7usize), (8usize, 5usize), (6usize, 9usize), (11usize, 1usize), (7usize, 3usize), (4usize, 8usize),
        (9usize, 5usize), (6usize, 10usize), (2usize, 7usize), (8usize, 3usize), (4usize, 9usize), (10usize, 5usize),
        (6usize, 11usize),
    ]
}

fn order_of_11() -> (r: Vec<(usize, usize)>)
    ensures
        r@ == table_11(),
{
    vec![
        (1, 2), (7, 8), (4, 5), (10, 11), (2, 3), (8, 9),
        (5, 6), (3, 1), (9, 7), (6, 4), (2, 5), (8, 11),
        (1, 4), (7, 10), (5, 3), (11, 9), (1, 6), (4, 2),
        (10, 8), (3, 6), (5, 1), (11, 7), (3, 4), (9, 10),
        (6, 2), (1, 7), (3, 9), (10, 4), (8, 2), (5, 11),
        (1, 8), (9, 2), (3, 10), (4, 11), (6, 7), (9, 1),
        (2, 10), (11, 3), (7, 5), (6, 8), (10, 1), (11, 2),
        (4, 7), (8, 5), (6, 9), (11, 1), (7, 3), (4, 8),
        (9, 5), (6, 10), (2, 7), (8, 3), (4, 9), (10, 5),
        (6, 11),
    ]
}

proof fn lemma_table_11()
    ensures
        is_round_robin(11, table_11()),
{
    let s = table_11();
    assert(s.len() == 55);
    assert forall|i: int| 0 <= i < s.len() implies valid_pair(11, #[trigger] s[i]) by {}
    assert forall|a: usize, b: usize| 1 <= a < b <= 11 implies #[trigger] covered(s, a, b) by {
        if a == 1 {
            if b == 2 {
                assert(same_pair(s[0], (a, b)));
            } else if b == 3 {
                assert(same_pair(s[7], (a, b)));
            } else if b == 4 {
                assert(same_pair(s[12], (a, b)));
            } else if b == 5 {
                assert(same_pair(s[20], (a, b)));
            } else if b == 6 {
                assert(same_pair(s[16], (a, b)));
            } else if b == 7 {
                assert(same_pair(s[25], (a, b)));
            } else if b == 8 {
                assert(same_pair(s[30], (a, b)));
            } else if b == 9 {
                assert(same_pair(s[35], (a, b)));
            } else if b == 10 {
                assert(same_pair(s[40], (a, b)));
            } else if b == 11 {
                assert(same_pair(s[45], (a, b)));
            }
        } else if a == 2 {
            if b == 3 {
                assert(same_pair(s[4], (a, b)));
            } else if b == 4 {
                assert(same_pair(s[17], (a, b)));
            } else if b == 5 {
                assert(same_pair(s[10], (a, b)));
            } else if b == 6 {
                assert(same_pair(s[24], (a, b)));
            } else if b == 7 {
                assert(same_pair(s[50], (a, b)));
            } else if b == 8 {
                assert(same_pair(s[28], (a, b)));
            } else if b == 9 {
                assert(same_pair(s[31], (a, b)));
            } else if b == 10 {
                assert(same_pair(s[36], (a, b)));
            } else if b == 11 {
                assert(same_pair(s[41], (a, b)));
            }
        } else if a == 3 {
            if b == 4 {
                assert(same_pair(s[22], (a, b)));
            } else if b == 5 {
                assert(same_pair(s[14], (a, b)));
            } else if b == 6 {
                assert(same_pair(s[19], (a, b)));
            } else if b == 7 {
                assert(same_pair(s[46], (a, b)));
            } else if b == 8 {
                assert(same_pair(s[51], (a, b)));
            } else if b == 9 {
                assert(same_pair(s[26], (a, b)));
            } else if b == 10 {
                assert(same_pair(s[32], (a, b)));
            } else if b == 11 {
                assert(same_pair(s[37], (a, b)));
            }
        } else if a == 4 {
            if b == 5 {
                assert(same_pair(s[2], (a, b)));
            } else if b == 6 {
                assert(same_pair(s[9], (a, b)));
            } else if b == 7 {
                assert(same_pair(s[42], (a, b)));
            } else if b == 8 {
                assert(same_pair(s[47], (a, b)));
            } else if b == 9 {
                assert(same_pair(s[52], (a, b)));
            } else if b == 10 {
                assert(same_pair(s[27], (a, b)));
            } else if b == 11 {
                assert(same_pair(s[33], (a, b)));
            }
        } else if a == 5 {
            if b == 6 {
                assert(same_pair(s[6], (a, b)));
            } else if b == 7 {
                assert(same_pair(s[38], (a, b)));
            } else if b == 8 {
                assert(same_pair(s[43], (a, b)));
            } else if b == 9 {
                assert(same_pair(s[48], (a, b)));
            } else if b == 10 {
                assert(same_pair(s[53], (a, b)));
            } else if b == 11 {
                assert(same_pair(s[29], (a, b)));
            }
        } else if a == 6 {
            if b == 7 {
                assert(same_pair(s[34], (a, b)));
            } else if b == 8 {
                assert(same_pair(s[39], (a, b)));
            } else if b == 9 {
                assert(same_pair(s[44], (a, b)));
            } else if b == 10 {
                assert(same_pair(s[49], (a, b)));
            } else if b == 11 {
                assert(same_pair(s[54], (a, b)));
            }
        } else if a == 7 {
            if b == 8 {
                assert(same_pair(s[1], (a, b)));
            } else if b == 9 {
                assert(same_pair(s[8], (a, b)));
            } else if b == 10 {
                assert(same_pair(s[13], (a, b)));
            } else if b == 11 {
                assert(same_pair(s[21], (a, b)));
            }
        } else if a == 8 {
            if b == 9 {
                assert(same_pair(s[5], (a, b)));
            } else if b == 10 {
                assert(same_pair(s[18], (a, b)));
            } else if b == 11 {
                assert(same_pair(s[11], (a, b)));
            }
        } else if a == 9 {
            if b == 10 {
                assert(same_pair(s[23], (a, b)));
            } else if b == 11 {
                assert(same_pair(s[15], (a, b)));
            }
        } else if a == 10 {
            if b == 11 {
                assert(same_pair(s[3], (a, b)));
            }
        }
    }
    lemma_complete_order(11, s);
}

/// The bout order of a pool of 12, as positions counted from one.
pub open spec fn table_12() -> Seq<(usize, usize)> {
    seq![
        (1usize, 2usize), (7usize, 8usize), (4usize, 5usize), (10usize, 11usize), (2usize, 3usize), (8usize, 9usize),
        (5usize, 6usize), (11usize, 12usize), (3usize, 1usize), (9usize, 7usize), (6usize, 4usize), (12usize, 10usize),
        (2usize, 5usize), (8usize, 11usize), (1usize, 4usize), (7usize, 10usize), (5usize, 3usize), (11usize, 9usize),
        (1usize, 6usize), (7usize, 12usize), (4usize, 2usize), (10usize, 8usize), (3usize, 6usize), (9usize, 12usize),
        (5usize, 1usize), (11usize, 7usize), (3usize, 4usize), (9usize, 10usize), (6usize, 2usize), (12usize, 8usize),
        (1usize, 7usize), (3usize, 9usize), (10usize, 4usize), (8usize, 2usize), (5usize, 11usize), (12usize, 6usize),
        (1usize, 8usize), (9usize, 2usize), (3usize, 10usize), (4usize, 11usize), (12usize, 5usize), (6usize, 7usize),
        (9usize, 1usize), (2usize, 10usize), (11usize, 3usize), (4usize, 12usize), (7usize, 5usize), (6usize, 8usize),
        (10usize, 1usize), (11usize, 2usize), (12usize, 3usize), (4usize, 7usize), (8usize, 5usize), (6usize, 9usize),
        (11usize, 1usize), (2usize, 12usize), (7usize, 3usize), (4usize, 8usize), (9usize, 5usize), (6usize, 10usize),
        (12usize, 1usize), (2usize, 7usize), (8usize, 3usize), (4usize, 9usize), (10usize, 5usize), (6usize, 11usize),
    ]
}

fn order_of_12() -> (r: Vec<(usize, usize)>)
    ensures
        r@ == table_12(),
{
    vec![
        (1, 2), (7, 8), (4, 5), (10, 11), (2, 3), (8, 9),
        (5, 6), (11, 12), (3, 1), (9, 7), (6, 4), (12, 10),
        (2, 5), (8, 11), (1, 4), (7, 10), (5, 3), (11, 9),
        (1, 6), (7, 12), (4, 2), (10, 8), (3, 6), (9, 12),
        (5, 1), (11, 7), (3, 4), (9, 10), (6, 2), (12, 8),
        (1, 7), (3, 9), (10, 4), (8, 2), (5, 11), (12, 6),
        (1, 8), (9, 2), (3, 10), (4, 11), (12, 5), (6, 7),
        (9, 1), (2, 10), (11, 3), (4, 12), (7, 5), (6, 8),
        (10, 1), (11, 2), (12, 3), (4, 7), (8, 5), (6, 9),
        (11, 1), (2, 12), (7, 3), (4, 8), (9, 5), (6, 10),
        (12, 1), (2, 7), (8, 3), (4, 9), (10, 5), (6, 11),
    ]
}

proof fn lemma_table_12()
    ensures
        is_round_robin(12, table_12()),
{
    let s = table_12();
    assert(s.len() == 66);
    assert forall|i: int| 0 <= i < s.len() implies valid_pair(12, #[trigger] s[i]) by {}
    assert forall|a: usize, b: usize| 1 <= a < b <= 12 implies #[trigger] covered(s, a, b) by {
        if a == 1 {
            if b == 2 {
                assert(same_pair(s[0], (a, b)));
            } else if b == 3 {
                assert(same_pair(s[8], (a, b)));
            } else if b == 4 {
                assert(same_pair(s[14], (a, b)));
            } else if b == 5 {
                assert(same_pair(s[24], (a, b)));
            } else if b == 6 {
                assert(same_pair(s[18], (a, b)));
            } else if b == 7 {
                assert(same_pair(s[30], (a, b)));
            } else if b == 8 {
                assert(same_pair(s[36], (a, b)));
            } else if b == 9 {
                assert(same_pair(s[42], (a, b)));
            } else if b == 10 {
                assert(same_pair(s[48], (a, b)));
            } else if b == 11 {
                assert(same_pair(s[54], (a, b)));
            } else if b == 12 {
                assert(same_pair(s[60], (a, b)));
            }
        } else if a == 2 {
            if b == 3 {
                assert(same_pair(s[4], (a, b)));
            } else if b == 4 {
                assert(same_pair(s[20], (a, b)));
            } else if b == 5 {
                assert(same_pair(s[12], (a, b)));
            } else if b == 6 {
                assert(same_pair(s[28], (a, b)));
            } else if b == 7 {
                assert(same_pair(s[61], (a, b)));
            } else if b == 8 {
                assert(same_pair(s[33], (a, b)));
            } else if b == 9 {
                assert(same_pair(s[37], (a, b)));
            } else if b == 10 {
                assert(same_pair(s[43], (a, b)));
            } else if b == 11 {
                assert(same_pair(s[49], (a, b)));
            } else if b == 12 {
                assert(same_pair(s[55], (a, b)));
            }
        } else if a == 3 {
            if b == 4 {
                assert(same_pair(s[26], (a, b)));
            } else if b == 5 {
                assert(same_pair(s[16], (a, b)));
            } else if b == 6 {
                assert(same_pair(s[22], (a, b)));
            } else if b == 7 {
                assert(same_pair(s[56], (a, b)));
            } else if b == 8 {
                assert(same_pair(s[62], (a, b)));
            } else if b == 9 {
                assert(same_pair(s[31], (a, b)));
            } else if b == 10 {
                assert(same_pair(s[38], (a, b)));
            } else if b == 11 {
                assert(same_pair(s[44], (a, b)));
            } else if b == 12 {
                assert(same_pair(s[50], (a, b)));
            }
        } else if a == 4 {
            if b == 5 {
                assert(same_pair(s[2], (a, b)));
            } else if b == 6 {
                assert(same_pair(s[10], (a, b)));
            } else if b == 7 {
                assert(same_pair(s[51], (a, b)));
            } else if b == 8 {
                assert(same_pair(s[57], (a, b)));
            } else if b == 9 {
                assert(same_pair(s[63], (a, b)));
            } else if b == 10 {
                assert(same_pair(s[32], (a, b)));
            } else if b == 11 {
                assert(same_pair(s[39], (a, b)));
            } else if b == 12 {
                assert(same_pair(s[45], (a, b)));
            }
        } else if a == 5 {
            if b == 6 {
                assert(same_pair(s[6], (a, b)));
            } else if b == 7 {
                assert(same_pair(s[46], (a, b)));
            } else if b == 8 {
                assert(same_pair(s[52], (a, b)));
            } else if b == 9 {
                assert(same_pair(s[58], (a, b)));
            } else if b == 10 {
                assert(same_pair(s[64], (a, b)));
            } else if b == 11 {
                assert(same_pair(s[34], (a, b)));
            } else if b == 12 {
                assert(same_pair(s[40], (a, b)));
            }
        } else if a == 6 {
            if b == 7 {
                assert(same_pair(s[41], (a, b)));
            } else if b == 8 {
                assert(same_pair(s[47], (a, b)));
            } else if b == 9 {
                assert(same_pair(s[53], (a, b)));
            } else if b == 10 {
                assert(same_pair(s[59], (a, b)));
            } else if b == 11 {
                assert(same_pair(s[65], (a, b)));
            } else if b == 12 {
                assert(same_pair(s[35], (a, b)));
            }
        } else if a == 7 {
            if b == 8 {
                assert(same_pair(s[1], (a, b)));
            } else if b == 9 {
                assert(same_pair(s[9], (a, b)));
            } else if b == 10 {
                assert(same_pair(s[15], (a, b)));
            } else if b == 11 {
                assert(same_pair(s[25], (a, b)));
            } else if b == 12 {
                assert(same_pair(s[19], (a, b)));
            }
        } else if a == 8 {
            if b == 9 {
                assert(same_pair(s[5], (a, b)));
            } else if b == 10 {
                assert(same_pair(s[21], (a, b)));
            } else if b == 11 {
                assert(same_pair(s[13], (a, b)));
            } else if b == 12 {
                assert(same_pair(s[29], (a, b)));
            }
        } else if a == 9 {
            if b == 10 {
                assert(same_pair(s[27], (a, b)));
            } else if b == 11 {
                assert(same_pair(s[17], (a, b)));
            } else if b == 12 {
                assert(same_pair(s[23], (a, b)));
            }
        } else if a == 10 {
            if b == 11 {
                assert(same_pair(s[3], (a, b)));
            } else if b == 12 {
                assert(same_pair(s[11], (a, b)));
            }
        } else if a == 11 {
            if b == 12 {
                assert(same_pair(s[7], (a, b)));
            }
        }
    }
    lemma_complete_order(12, s);
}

/// The pairs `(a, m)` for `1 <= a <= k`.
pub open spec fn column(m: usize, k: nat) -> Set<(usize, usize)>
    decreases k,
{
    if k == 0 {
        Set::empty()
    } else {
        column(m, (k - 1) as nat).insert((k as usize, m))
    }
}

/// The pairs `(a, b)` for `1 <= a < b <= n`.
pub open spec fn pairs_upto(n: nat) -> Set<(usize, usize)>
    decreases n,
{
    if n == 0 {
        Set::empty()
    } else {
        pairs_upto((n - 1) as nat) + column(n as usize, (n - 1) as nat)
    }
}

proof fn lemma_column(m: usize, k: nat)
    requires
        k < m,
    ensures
        column(m, k).finite(),
        column(m, k).len() == k,
        forall|p: (usize, usize)| #[trigger] column(m, k).contains(p) <==> 1 <= p.0 <= k && p.1 == m,
    decreases k,
{
    if k > 0 {
        lemma_column(m, (k - 1) as nat);
        assert(!column(m, (k - 1) as nat).contains((k as usize, m)));
    }
}

proof fn lemma_pairs_upto(n: nat)
    requires
        n <= usize::MAX,
    ensures
        pairs_upto(n).finite(),
        2 * pairs_upto(n).len() == n * (n - 1),
        forall|p: (usize, usize)| #[trigger] pairs_upto(n).contains(p) <==> 1 <= p.0 < p.1 <= n,
    decreases n,
{
    if n > 0 {
        let prev = pairs_upto((n - 1) as nat);
        let col = column(n as usize, (n - 1) as nat);
        lemma_pairs_upto((n - 1) as nat);
        lemma_column(n as usize, (n - 1) as nat);
        assert(prev.disjoint(col));
        vstd::set_lib::lemma_set_disjoint_lens(prev, col);
        assert(2 * prev.len() == (n - 1) * (n - 2)) by {
            if n == 1 {
                assert(prev.len() == 0);
            }
        }
        assert((n - 1) * (n - 2) + 2 * (n - 1) == n * (n - 1)) by (nonlinear_arith)
            requires
                n >= 1,
        ;
    }
}

/// The pair `p`, lower fencer first.
pub open spec fn ordered_pair(p: (usize, usize)) -> (usize, usize) {
    if p.0 <= p.1 {
        p
    } else {
        (p.1, p.0)
    }
}

/// A round robin of `n` fencers has `n * (n - 1) / 2` bouts: twice as many
/// bouts as `n * (n - 1)` halved.
pub proof fn lemma_round_robin_len(n: nat, order: Seq<(usize, usize)>)
    requires
        n <= usize::MAX,
        is_round_robin(n, order),
    ensures
        2 * order.len() == n * (n - 1),
{
    let s = order.map_values(|p: (usize, usize)| ordered_pair(p));
    assert(s.no_duplicates()) by {
        assert forall|i: int, j: int| 0 <= i < s.len() && 0 <= j < s.len() && i != j implies s[i] != s[j] by {
            assert(!same_pair(order[i], order[j]));
        }
    }
    s.unique_seq_to_set();
    lemma_pairs_upto(n);
    assert forall|p: (usize, usize)| #[trigger] s.to_set().contains(p) <==> pairs_upto(n).contains(p) by {
        if s.to_set().contains(p) {
            let i = choose|i: int| 0 <= i < s.len() && s[i] == p;
            assert(valid_pair(n, order[i]));
        }
        if pairs_upto(n).contains(p) {
            assert(covered(order, p.0, p.1));
            let i = choose|i: int| 0 <= i < order.len() && same_pair(#[trigger] order[i], (p.0, p.1));
            assert(s[i] == p);
            assert(s.contains(p));
        }
    }
    assert(s.to_set() =~= pairs_upto(n));
}

/// Whether `order` pairs every two of the fencers `1..=n` exactly once.
pub fn check_round_robin(n: usize, order: &Vec<(usize, usize)>) -> (r: bool)
    ensures
        r == is_round_robin(n as nat, order@),
{
    let len = order.len();
    let mut i: usize = 0;
    while i < len
        invariant
            len == order@.len(),
            i <= len,
            forall|k: int| 0 <= k < i ==> valid_pair(n as nat, #[trigger] order@[k]),
        decreases len - i,
    {
        let (a, b) = order[i];
        if a < 1 || a > n || b < 1 || b > n || a == b {
            assert(!valid_pair(n as nat, order@[i as int]));
            return false;
        }
        i = i + 1;
    }
    let mut i: usize = 0;
    while i < len
        invariant
            len == order@.len(),
            i <= len,
            forall|k: int, l: int|
                0 <= k < i && 0 <= l < len && k != l ==> !same_pair(
                    #[trigger] order@[k],
                    #[trigger] order@[l],
                ),
        decreases len - i,
    {
        let mut j: usize = 0;
        while j < len
            invariant
                len == order@.len(),
                i < len,
                j <= len,
                forall|k: int, l: int|
                    0 <= k < i && 0 <= l < len && k != l ==> !same_pair(
                        #[trigger] order@[k],
                        #[trigger] order@[l],
                    ),
                forall|l: int| 0 <= l < j && l != i ==> !same_pair(order@[i as int], #[trigger] order@[l]),
            decreases len - j,
        {
            let (a, b) = order[i];
            let (c, d) = order[j];
            if j != i && ((a == c && b == d) || (a == d && b == c)) {
                assert(same_pair(order@[i as int], order@[j as int]));
                return false;
            }
            j = j + 1;
        }
        i = i + 1;
    }
    let mut a: usize = 1;
    while a < n
        invariant
            len == order@.len(),
            1 <= a,
            forall|x: usize, y: usize| 1 <= x < a && x < y <= n ==> #[trigger] covered(order@, x, y),
        decreases n - a,
    {
        let mut c: usize = a;
        while c < n
            invariant
                len == order@.len(),
                1 <= a < n,
                a <= c <= n,
                forall|x: usize, y: usize| 1 <= x < a && x < y <= n ==> #[trigger] covered(order@, x, y),
                forall|y: usize| a < y <= c ==> #[trigger] covered(order@, a, y),
            decreases n - c,
        {
            let b = c + 1;
            let mut k: usize = 0;
            let mut found = false;
            while k < len
                invariant
                    len == order@.len(),
                    k <= len,
                    found ==> exists|m: int| 0 <= m < order.len() && same_pair(#[trigger] order@[m], (a, b)),
                    !found ==> forall|m: int| 0 <= m < k ==> !same_pair(#[trigger] order@[m], (a, b)),
                decreases len - k,
            {
                let (x, y) = order[k];
                if (x == a && y == b) || (x == b && y == a) {
                    assert(same_pair(order@[k as int], (a, b)));
                    found = true;
                }
                k = k + 1;
            }
            if !found {
                assert(!covered(order@, a, b));
                return false;
            }
            assert(covered(order@, a, b));
            c = b;
        }
        a = a + 1;
    }
    true
}

/// The bout order of the tables for a pool of `n`, four to twelve.
pub open spec fn default_table(n: usize) -> Seq<(usize, usize)> {
    if n == 4 {
        table_4()
    } else if n == 5 {
        table_5()
    } else if n == 6 {
        table_6()
    } else if n == 7 {
        table_7()
    } else if n == 8 {
        table_8()
    } else if n == 9 {
        table_9()
    } else if n == 10 {
        table_10()
    } else if n == 11 {
        table_11()
    } else {
        table_12()
    }
}

/// Every table pairs every two of its fencers exactly once, in
/// `n * (n - 1) / 2` bouts.
pub proof fn lemma_default_tables(n: usize)
    requires
        4 <= n <= 12,
    ensures
        is_round_robin(n as nat, default_table(n)),
        2 * default_table(n).len() == n * (n - 1),
{
    if n == 4 {
        lemma_table_4();
    } else if n == 5 {
        lemma_table_5();
    } else if n == 6 {
        lemma_table_6();
    } else if n == 7 {
        lemma_table_7();
    } else if n == 8 {
        lemma_table_8();
    } else if n == 9 {
        lemma_table_9();
    } else if n == 10 {
        lemma_table_10();
    } else if n == 11 {
        lemma_table_11();
    } else {
        lemma_table_12();
    }
    lemma_round_robin_len(n as nat, default_table(n));
}

/// The bout order for a pool of `num_fencers`, from the tables for pools of
/// four to twelve.
pub fn get_default_order(num_fencers: usize) -> (r: Result<Vec<(usize, usize)>, PoolOrderError>)
    ensures
        4 <= num_fencers <= 12 ==> (r matches Ok(order) && order@ == default_table(num_fencers)
            && is_round_robin(num_fencers as nat, order@) && 2 * order@.len() == num_fencers * (
        num_fencers - 1)),
        num_fencers < 4 || num_fencers > 12 ==> r == Err::<Vec<(usize, usize)>, PoolOrderError>(
            PoolOrderError::UnsupportedParticipantCount,
        ),
{
    let order = match num_fencers {
        4 => order_of_4(),
        5 => order_of_5(),
        6 => order_of_6(),
        7 => order_of_7(),
        8 => order_of_8(),
        9 => order_of_9(),
        10 => order_of_10(),
        11 => order_of_11(),
        12 => order_of_12(),
        _ => return Err(PoolOrderError::UnsupportedParticipantCount),
    };
    proof {
        lemma_default_tables(num_fencers);
    }
    Ok(order)
}

} // verus!
