use fencing_sport_lib::bout::{FencerScore, FencerVs};
use fencing_sport_lib::cards::Cards;
use fencing_sport_lib::codec::{StoredBout, StoredPool};
use fencing_sport_lib::error::PoolSheetError;
use fencing_sport_lib::fencer::SimpleFencer;
use fencing_sport_lib::placement::Placement;
use fencing_sport_lib::pools::{PoolSheet, SimpleBoutsCreator};
use fencing_sport_lib::results::PoolResults;

fn four() -> Vec<SimpleFencer> {
    vec![
        SimpleFencer::new("Fencer1"),
        SimpleFencer::new("Fencer2"),
        SimpleFencer::new("Fencer3"),
        SimpleFencer::new("Fencer4"),
    ]
}

fn score(name: &str, touches: u8) -> FencerScore<SimpleFencer> {
    FencerScore::new(SimpleFencer::new(name), touches, Cards::default())
}

#[test]
fn from_vec_test() {
    let _pool_sheet = PoolSheet::new(four(), &SimpleBoutsCreator).unwrap();
}

#[test]
fn pools_iter_test() {
    let pool_sheet = PoolSheet::new(four(), &SimpleBoutsCreator).unwrap();
    assert_eq!(pool_sheet.bout_total(), 6);
    let keys: Vec<(usize, usize)> =
        (0..pool_sheet.bout_total()).map(|i| pool_sheet.get_bout_at(i).unwrap().0).collect();
    assert_eq!(keys, vec![(0, 3), (1, 2), (0, 2), (1, 3), (2, 3), (0, 1)]);
    assert!(pool_sheet.get_bout_at(6).is_none());
}

#[test]
fn mod_iter_test() {
    let pool_sheet = PoolSheet::new(four(), &SimpleBoutsCreator).unwrap();
    for i in 0..pool_sheet.bout_total() {
        let (key, bout) = pool_sheet.get_bout_at(i).unwrap();
        assert_eq!(bout.get_fencers(), key);
        assert_eq!(bout.get_scores(), None);
    }
}

#[test]
fn pools_bout_addressing() {
    let mut pool_sheet = PoolSheet::new(four(), &SimpleBoutsCreator).unwrap();
    let result = pool_sheet.update_score(score("Fencer1", 0), score("Fencer2", 0));
    assert_eq!(result, Ok(()));
    let bout = pool_sheet.get_bout(&FencerVs::new(0, 1).unwrap()).unwrap();
    assert_eq!(bout.get_scores(), Some((0, 0)));
}

#[test]
fn mod_bout_addressing() {
    let mut pool_sheet = PoolSheet::new(four(), &SimpleBoutsCreator).unwrap();
    pool_sheet.update_score(score("Fencer2", 5), score("Fencer1", 2)).unwrap();
    let bout = pool_sheet.get_bout(&FencerVs::new(1, 0).unwrap()).unwrap();
    assert_eq!(bout.get_scores(), Some((2, 5)));
    assert_eq!(bout.get_winner(), Some(1));
}

#[test]
fn update_score_unordered() {
    let fencers = four();
    let fencer_1_score = FencerScore::new(fencers[0].clone(), 3, Cards::default());
    let fencer_2_score = FencerScore::new(fencers[1].clone(), 5, Cards::default());

    let mut pool_sheet_a = PoolSheet::new(fencers.clone(), &SimpleBoutsCreator).unwrap();
    pool_sheet_a.update_score(fencer_1_score.clone(), fencer_2_score.clone()).unwrap();

    let mut pool_sheet_b = PoolSheet::new(fencers.clone(), &SimpleBoutsCreator).unwrap();
    pool_sheet_b.update_score(fencer_2_score.clone(), fencer_1_score.clone()).unwrap();

    assert_eq!(pool_sheet_a, pool_sheet_b)
}

#[test]
fn update_score_errors() {
    let mut pool_sheet = PoolSheet::new(four(), &SimpleBoutsCreator).unwrap();
    let before = PoolSheet::new(four(), &SimpleBoutsCreator).unwrap();
    assert_eq!(
        pool_sheet.update_score(score("Fencer1", 5), score("Fencer1", 3)),
        Err(PoolSheetError::InvalidBout)
    );
    assert_eq!(
        pool_sheet.update_score(score("Fencer1", 5), score("Stranger", 3)),
        Err(PoolSheetError::NoBoutFound)
    );
    assert_eq!(pool_sheet, before);
}

#[test]
fn unset_score_clears_both_sides() {
    let mut pool_sheet = PoolSheet::new(four(), &SimpleBoutsCreator).unwrap();
    pool_sheet.update_score(score("Fencer3", 5), score("Fencer4", 1)).unwrap();
    let vs = FencerVs::new(2, 3).unwrap();
    assert_eq!(pool_sheet.get_bout(&vs).unwrap().get_scores(), Some((5, 1)));
    pool_sheet.unset_score(score("Fencer4", 0), score("Fencer3", 0)).unwrap();
    assert_eq!(pool_sheet.get_bout(&vs).unwrap().scores, (None, None));
    assert_eq!(
        pool_sheet.unset_score(score("Fencer4", 0), score("Nobody", 0)),
        Err(PoolSheetError::NoBoutFound)
    );
}

#[test]
fn get_bout_outside_pool() {
    let pool_sheet = PoolSheet::new(four(), &SimpleBoutsCreator).unwrap();
    assert_eq!(pool_sheet.get_bout(&FencerVs::new(0, 9).unwrap()), Err(PoolSheetError::NoBoutFound));
}

#[test]
fn duplicate_fencers_are_kept_once() {
    let mut fencers = four();
    fencers.push(SimpleFencer::new("Fencer2"));
    let pool_sheet = PoolSheet::new(fencers, &SimpleBoutsCreator).unwrap();
    let names: Vec<String> = pool_sheet.get_fencers().iter().map(|f| f.name.clone()).collect();
    assert_eq!(names, vec!["Fencer1", "Fencer2", "Fencer3", "Fencer4"]);
    assert_eq!(pool_sheet.bout_total(), 6);
}

#[test]
fn unsupported_participant_count() {
    let fencers = vec![SimpleFencer::new("A"), SimpleFencer::new("B"), SimpleFencer::new("C")];
    assert_eq!(
        PoolSheet::new(fencers, &SimpleBoutsCreator),
        Err(PoolSheetError::UnsupportedParticipantCount)
    );
}

#[test]
fn from_order_rejects_incomplete_orders() {
    let fencers = vec![SimpleFencer::new("A"), SimpleFencer::new("B"), SimpleFencer::new("C")];
    assert_eq!(
        PoolSheet::from_order(fencers.clone(), vec![(1, 2), (2, 3)]),
        Err(PoolSheetError::InvalidBout)
    );
    assert_eq!(
        PoolSheet::from_order(fencers.clone(), vec![(1, 2), (2, 3), (3, 3)]),
        Err(PoolSheetError::InvalidBout)
    );
    assert_eq!(
        PoolSheet::from_order(fencers.clone(), vec![(1, 2), (2, 3), (1, 4)]),
        Err(PoolSheetError::InvalidBout)
    );
    let pool = PoolSheet::from_order(fencers, vec![(3, 1), (1, 2), (2, 3)]).unwrap();
    assert_eq!(pool.get_bout_at(0).unwrap().0, (0, 2));
}

#[test]
fn finish_lists_unfinished_bouts() {
    let mut pool_sheet = PoolSheet::new(four(), &SimpleBoutsCreator).unwrap();
    // The order of four is (1,4) (2,3) (1,3) (2,4) (3,4) (1,2).
    pool_sheet.update_score(score("Fencer1", 5), score("Fencer4", 2)).unwrap();
    pool_sheet.update_score(score("Fencer3", 4), score("Fencer4", 4)).unwrap();
    assert!(!pool_sheet.is_finished());
    assert_eq!(pool_sheet.unfinished_bout_indexes(), vec![1, 2, 3, 4, 5]);
    match pool_sheet.finish() {
        Err(PoolSheetError::PoolNotComplete(indexes)) => assert_eq!(indexes, vec![1, 2, 3, 4, 5]),
        _ => panic!("an unfinished pool must not finish"),
    }
}

/// Plays the four-fencer pool given the scores of the first-named fencer of
/// each bout against the second, for the pairs 1-2, 1-3, 1-4, 2-3, 2-4, 3-4.
fn play(results: [(u8, u8); 6]) -> PoolSheet<SimpleFencer> {
    let names = ["A", "B", "C", "D"];
    let fencers: Vec<SimpleFencer> = names.iter().map(|n| SimpleFencer::new(n)).collect();
    let mut pool = PoolSheet::new(fencers, &SimpleBoutsCreator).unwrap();
    let pairs = [(0, 1), (0, 2), (0, 3), (1, 2), (1, 3), (2, 3)];
    for (k, (a, b)) in pairs.iter().enumerate() {
        pool.update_score(score(names[*a], results[k].0), score(names[*b], results[k].1)).unwrap();
    }
    pool
}

#[test]
fn results_without_ties() {
    let pool = play([(5, 1), (5, 2), (5, 3), (5, 0), (5, 4), (5, 2)]);
    assert!(pool.is_finished());
    let results = pool.finish().unwrap();
    let fencers: Vec<usize> = results.0.iter().map(|r| r.fencer).collect();
    let victories: Vec<usize> = results.0.iter().map(|r| r.victories).collect();
    let places: Vec<Placement> = results.0.iter().map(|r| r.place).collect();
    assert_eq!(fencers, vec![0, 1, 2, 3]);
    assert_eq!(victories, vec![3, 2, 1, 0]);
    assert_eq!(
        places,
        vec![Placement::Absolute(1), Placement::Absolute(2), Placement::Absolute(3), Placement::Absolute(4)]
    );
    let a = results.0[0];
    assert_eq!((a.touches_scored, a.touches_recieved, a.indicator), (15, 6, 9));
    let d = results.0[3];
    assert_eq!((d.touches_scored, d.touches_recieved, d.indicator), (9, 15, -6));
}

#[test]
fn results_with_a_tie() {
    // A: beats C and D, loses to B.  B: beats A and D, loses to C.
    // C: beats B, loses to A and D.  D: beats C, loses to A and B.
    let pool = play([(0, 5), (5, 0), (5, 0), (0, 5), (5, 0), (3, 5)]);
    let results = pool.finish().unwrap();
    let top: Vec<usize> = results.0[..2].iter().map(|r| r.fencer).collect();
    assert!(top == vec![0, 1] || top == vec![1, 0]);
    assert_eq!(results.0[0].place, Placement::Tied(1));
    assert_eq!(results.0[1].place, Placement::Tied(1));
    assert_eq!((results.0[0].victories, results.0[0].indicator), (2, 5));
    assert_eq!((results.0[1].victories, results.0[1].indicator), (2, 5));
    assert_eq!(results.0[2].fencer, 2);
    assert_eq!(results.0[2].place, Placement::Absolute(3));
    assert_eq!(results.0[3].fencer, 3);
    assert_eq!(results.0[3].place, Placement::Absolute(4));
}

#[test]
fn results_with_a_tie_at_the_bottom() {
    // Everyone beats D, and A, B, C beat each other in a circle 5-3.
    let pool = play([(5, 3), (3, 5), (5, 0), (5, 3), (5, 0), (5, 0)]);
    let results = pool.finish().unwrap();
    let places: Vec<Placement> = results.0.iter().map(|r| r.place).collect();
    assert_eq!(
        places,
        vec![Placement::Tied(1), Placement::Tied(1), Placement::Tied(1), Placement::Absolute(4)]
    );
    assert_eq!(results.0[3].fencer, 3);
}

#[test]
fn placement_helpers() {
    let mut place = Placement::Absolute(3);
    assert_eq!(place.inner(), 3);
    place.to_tied();
    assert_eq!(place, Placement::Tied(3));
    assert_eq!(place.inner(), 3);
}

#[test]
fn deserialize_poolsheet() {
    let mut pool_sheet = PoolSheet::new(four(), &SimpleBoutsCreator).unwrap();
    pool_sheet.update_score(score("Fencer1", 3), score("Fencer2", 5)).unwrap();
    let stored = pool_sheet.to_stored();
    let keys: Vec<u64> = stored.fencers.iter().map(|f| f.0).collect();
    assert_eq!(keys, vec![0, 1, 2, 3]);
    let new_poolsheet = PoolSheet::from_stored(stored).unwrap();
    assert_eq!(pool_sheet, new_poolsheet);
}

#[test]
fn round_trip_of_an_empty_pool() {
    let pool_sheet = PoolSheet::new(four(), &SimpleBoutsCreator).unwrap();
    let again = PoolSheet::from_stored(pool_sheet.to_stored()).unwrap();
    assert_eq!(pool_sheet, again);
}

fn stored_bout(a: u64, b: u64, scores: (Option<u8>, Option<u8>)) -> StoredBout {
    StoredBout {
        keys: (a, b),
        scores,
        cards: (Cards::default(), Cards::default()),
        priority: fencing_sport_lib::bout::TuplePos::Unset,
    }
}

#[test]
fn stored_keys_are_resolved() {
    let fencers = vec![(140, SimpleFencer::new("X")), (66, SimpleFencer::new("Y"))];
    let stored = StoredPool { fencers, bouts: vec![stored_bout(66, 140, (Some(5), Some(2)))] };
    let pool = PoolSheet::from_stored(stored).unwrap();
    let (key, bout) = pool.get_bout_at(0).unwrap();
    assert_eq!(key, (0, 1));
    assert_eq!(bout.get_scores(), Some((2, 5)));
    assert_eq!(bout.get_winner(), Some(1));
}

#[test]
fn stored_errors() {
    let two = || vec![(1, SimpleFencer::new("X")), (2, SimpleFencer::new("Y"))];
    let missing = StoredPool { fencers: two(), bouts: vec![stored_bout(1, 3, (None, None))] };
    assert_eq!(PoolSheet::from_stored(missing), Err(PoolSheetError::InvalidReference));
    let shared_key = StoredPool {
        fencers: vec![(1, SimpleFencer::new("X")), (1, SimpleFencer::new("Y"))],
        bouts: vec![],
    };
    assert_eq!(PoolSheet::from_stored(shared_key), Err(PoolSheetError::InvalidReference));
    let itself = StoredPool { fencers: two(), bouts: vec![stored_bout(1, 1, (None, None))] };
    assert_eq!(PoolSheet::from_stored(itself), Err(PoolSheetError::InvalidBout));
    let lacking = StoredPool { fencers: two(), bouts: vec![] };
    assert_eq!(PoolSheet::from_stored(lacking), Err(PoolSheetError::InvalidBout));
    let same_person = StoredPool {
        fencers: vec![(1, SimpleFencer::new("X")), (2, SimpleFencer::new("X"))],
        bouts: vec![stored_bout(1, 2, (None, None))],
    };
    assert_eq!(PoolSheet::from_stored(same_person), Err(PoolSheetError::InvalidBout));
}

#[test]
fn deserialize_poolsheet_intermediate() {
    let stored = StoredPool {
        fencers: vec![
            (140300542545664, SimpleFencer::new("Fencer1")),
            (140300542545744, SimpleFencer::new("Fencer2")),
        ],
        bouts: vec![stored_bout(140300542545664, 140300542545744, (Some(3), Some(5)))],
    };
    let pool = PoolSheet::from_stored(stored).unwrap();
    let names: Vec<String> = pool.get_fencers().iter().map(|f| f.name.clone()).collect();
    assert_eq!(names, vec!["Fencer1", "Fencer2"]);
    let bout = pool.get_bout(&FencerVs::new(0, 1).unwrap()).unwrap();
    assert_eq!(bout.get_scores(), Some((3, 5)));
    assert_eq!(bout.get_winner(), Some(1));
    let again = pool.to_stored();
    let keys: Vec<(u64, u64)> = again.bouts.iter().map(|b| b.keys).collect();
    assert_eq!(keys, vec![(0, 1)]);
}

#[test]
fn draws_break_ties() {
    let pool = play([(0, 5), (5, 0), (5, 0), (0, 5), (5, 0), (3, 5)]);
    let by_position = PoolResults::with_draws(&pool, &vec![0, 0, 0, 0]);
    let order: Vec<usize> = by_position.iter().map(|r| r.fencer).collect();
    assert_eq!(order, vec![0, 1, 2, 3]);
    let by_draw = PoolResults::with_draws(&pool, &vec![1, 5, 9, 0]);
    let order: Vec<usize> = by_draw.iter().map(|r| r.fencer).collect();
    assert_eq!(order, vec![1, 0, 2, 3]);
    assert_eq!(by_draw.0[0].place, Placement::Tied(1));
    assert_eq!(by_draw.0[1].place, Placement::Tied(1));
    assert_eq!(by_draw.0[2].place, Placement::Absolute(3));
}

#[test]
fn default_order_pools() {
    let pool = PoolSheet::with_default_order(four()).unwrap();
    assert_eq!(pool, PoolSheet::new(four(), &SimpleBoutsCreator).unwrap());
    let keys: Vec<(usize, usize)> = (0..pool.bout_total()).map(|i| pool.get_bout_at(i).unwrap().0).collect();
    assert_eq!(keys, vec![(0, 3), (1, 2), (0, 2), (1, 3), (2, 3), (0, 1)]);
    let three = vec![SimpleFencer::new("A"), SimpleFencer::new("B"), SimpleFencer::new("C")];
    assert_eq!(PoolSheet::with_default_order(three), Err(PoolSheetError::UnsupportedParticipantCount));
    let many: Vec<SimpleFencer> = (0..13).map(|i| SimpleFencer::new(&format!("F{i}"))).collect();
    assert_eq!(PoolSheet::with_default_order(many), Err(PoolSheetError::UnsupportedParticipantCount));
    let twelve: Vec<SimpleFencer> = (0..12).map(|i| SimpleFencer::new(&format!("F{i}"))).collect();
    assert_eq!(PoolSheet::with_default_order(twelve).unwrap().bout_total(), 66);
}

#[test]
fn update_score_unordered_with_tables() {
    let s1 = score("Fencer1", 3);
    let s2 = score("Fencer2", 5);
    let mut a = PoolSheet::with_default_order(four()).unwrap();
    a.update_score(s1.clone(), s2.clone()).unwrap();
    let mut b = PoolSheet::with_default_order(four()).unwrap();
    b.update_score(s2, s1).unwrap();
    assert_eq!(a, b);
}

#[test]
fn pool_priority_decides_a_level_bout() {
    let mut pool = PoolSheet::with_default_order(four()).unwrap();
    pool.update_score(score("Fencer3", 4), score("Fencer1", 4)).unwrap();
    let vs = FencerVs::new(0, 2).unwrap();
    assert_eq!(pool.get_bout(&vs).unwrap().get_winner(), None);
    let f1 = SimpleFencer::new("Fencer1");
    let f3 = SimpleFencer::new("Fencer3");
    pool.set_priority(&f3, &f1, Some(&f3)).unwrap();
    assert_eq!(pool.get_bout(&vs).unwrap().get_winner(), Some(2));
    assert_eq!(pool.get_bout(&vs).unwrap().get_priority(), Some(2));
    let f4 = SimpleFencer::new("Fencer4");
    assert_eq!(pool.set_priority(&f3, &f1, Some(&f4)), Err(PoolSheetError::InvalidBout));
    assert_eq!(pool.set_priority(&f3, &f3, None), Err(PoolSheetError::InvalidBout));
    let stranger = SimpleFencer::new("Stranger");
    assert_eq!(pool.set_priority(&f3, &stranger, None), Err(PoolSheetError::NoBoutFound));
    assert_eq!(pool.get_bout(&vs).unwrap().get_winner(), Some(2));
    pool.set_priority(&f1, &f3, None).unwrap();
    assert_eq!(pool.get_bout(&vs).unwrap().get_winner(), None);
}
