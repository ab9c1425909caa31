use fencing_sport_lib::error::PoolOrderError;
use fencing_sport_lib::orders::{check_round_robin, get_default_order};

#[test]
fn default_orders_pair_everyone_once() {
    for n in 4..=12usize {
        let order = get_default_order(n).unwrap();
        assert_eq!(order.len(), n * (n - 1) / 2);
        for a in 1..=n {
            for b in (a + 1)..=n {
                let count = order
                    .iter()
                    .filter(|p| (p.0 == a && p.1 == b) || (p.0 == b && p.1 == a))
                    .count();
                assert_eq!(count, 1);
            }
        }
        assert!(check_round_robin(n, &order));
    }
}

#[test]
fn default_order_of_four() {
    assert_eq!(
        get_default_order(4).unwrap(),
        vec![(1, 4), (2, 3), (1, 3), (2, 4), (3, 4), (1, 2)]
    );
}

#[test]
fn unsupported_pool_sizes() {
    for n in [0usize, 1, 2, 3, 13, 20] {
        assert_eq!(get_default_order(n), Err(PoolOrderError::UnsupportedParticipantCount));
    }
}

#[test]
fn round_robin_check_rejects_bad_orders() {
    assert!(check_round_robin(3, &vec![(1, 2), (2, 3), (3, 1)]));
    assert!(!check_round_robin(3, &vec![(1, 2), (2, 3)]));
    assert!(!check_round_robin(3, &vec![(1, 2), (2, 3), (1, 3), (2, 1)]));
    assert!(!check_round_robin(3, &vec![(1, 2), (2, 3), (3, 3)]));
    assert!(!check_round_robin(3, &vec![(1, 2), (2, 4), (1, 3)]));
    assert!(check_round_robin(1, &vec![]));
    assert!(check_round_robin(0, &vec![]));
}
