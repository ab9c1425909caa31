use fencing_sport_lib::bout::{Bout, FencerScore, FencerVs, TuplePos};
use fencing_sport_lib::cards::Cards;
use fencing_sport_lib::error::PoolSheetError;
use std::collections::hash_map::DefaultHasher;
use std::hash::{Hash, Hasher};

fn hash_of(vs: &FencerVs) -> u64 {
    let mut state = DefaultHasher::new();
    vs.hash(&mut state);
    state.finish()
}

#[test]
fn hash_unordered_test() {
    let vs_ab = FencerVs::new(0, 1).unwrap();
    let vs_ba = FencerVs::new(1, 0).unwrap();
    assert_eq!(hash_of(&vs_ab), hash_of(&vs_ba));
}

#[test]
fn eq_unordered_test() {
    let vs_ab = FencerVs::new(0, 1).unwrap();
    let vs_ba = FencerVs::new(1, 0).unwrap();
    assert_eq!(vs_ab, vs_ba);
}

#[test]
fn pair_of_one_fencer_fails() {
    assert_eq!(FencerVs::new(3, 3), Err(PoolSheetError::InvalidBout));
    assert_eq!(FencerVs::new(0, 0), Err(PoolSheetError::InvalidBout));
}

#[test]
fn pair_keeps_lower_position_first() {
    let vs = FencerVs::new(7, 2).unwrap();
    assert_eq!(vs.key(), (2, 7));
    assert_eq!(vs.get_fencer(7), Some(2));
    assert_eq!(vs.get_fencer(2), Some(7));
    assert_eq!(vs.get_fencer(5), None);
    assert_eq!(vs.pos(2), TuplePos::First);
    assert_eq!(vs.pos(7), TuplePos::Second);
    assert_eq!(vs.pos(1), TuplePos::Unset);
}

fn card(yellow: u8) -> Cards {
    Cards { yellow, ..Cards::default() }
}

#[test]
fn new_bout_is_empty() {
    let bout = Bout::new(FencerVs::new(1, 4).unwrap());
    assert_eq!(bout.get_fencers(), (1, 4));
    assert_eq!(bout.get_scores(), None);
    assert_eq!(bout.get_winner(), None);
    assert_eq!(bout.get_priority(), None);
    assert_eq!(bout.cards, (Cards::default(), Cards::default()));
}

#[test]
fn update_scores_resolves_sides() {
    let mut bout = Bout::new(FencerVs::new(1, 4).unwrap());
    bout.update_scores(FencerScore::new(4, 5, card(1)), FencerScore::new(1, 3, card(0))).unwrap();
    assert_eq!(bout.get_scores(), Some((3, 5)));
    assert_eq!(bout.cards, (card(0), card(1)));
    assert_eq!(bout.get_score(4), Some(5));
    assert_eq!(bout.get_score(1), Some(3));
    assert_eq!(bout.get_score(2), None);
    assert_eq!(bout.get_winner(), Some(4));
}

#[test]
fn update_scores_rejects_strangers_and_repeats() {
    let mut bout = Bout::new(FencerVs::new(1, 4).unwrap());
    let before = bout;
    assert_eq!(
        bout.update_scores(FencerScore::new(1, 5, card(0)), FencerScore::new(1, 3, card(0))),
        Err(PoolSheetError::InvalidBout)
    );
    assert_eq!(
        bout.update_scores(FencerScore::new(1, 5, card(0)), FencerScore::new(2, 3, card(0))),
        Err(PoolSheetError::InvalidBout)
    );
    assert_eq!(bout, before);
}

#[test]
fn set_and_unset_one_score() {
    let mut bout = Bout::new(FencerVs::new(0, 2).unwrap());
    bout.set_score(FencerScore::new(2, 4, card(2))).unwrap();
    assert_eq!(bout.scores, (None, Some(4)));
    assert_eq!(bout.get_scores(), None);
    assert_eq!(bout.get_winner(), None);
    bout.set_score(FencerScore::new(0, 1, card(0))).unwrap();
    assert_eq!(bout.get_scores(), Some((1, 4)));
    assert_eq!(bout.get_winner(), Some(2));
    assert_eq!(bout.set_score(FencerScore::new(1, 1, card(0))), Err(PoolSheetError::InvalidBout));
    bout.unset_score(2).unwrap();
    assert_eq!(bout.scores, (Some(1), None));
    assert_eq!(bout.unset_score(3), Err(PoolSheetError::InvalidBout));
    bout.unset_scores();
    assert_eq!(bout.scores, (None, None));
}

#[test]
fn equal_scores_need_priority() {
    let mut bout = Bout::new(FencerVs::new(0, 1).unwrap());
    bout.update_scores(FencerScore::new(0, 4, card(0)), FencerScore::new(1, 4, card(0))).unwrap();
    assert_eq!(bout.get_winner(), None);
    bout.set_priority(Some(1)).unwrap();
    assert_eq!(bout.get_priority(), Some(1));
    assert_eq!(bout.get_winner(), Some(1));
    bout.set_priority(Some(0)).unwrap();
    assert_eq!(bout.get_winner(), Some(0));
    assert_eq!(bout.set_priority(Some(5)), Err(PoolSheetError::InvalidBout));
    assert_eq!(bout.get_winner(), Some(0));
    bout.set_priority(None).unwrap();
    assert_eq!(bout.priority, TuplePos::Unset);
    assert_eq!(bout.get_winner(), None);
}

#[test]
fn priority_does_not_override_a_higher_score() {
    let mut bout = Bout::new(FencerVs::new(0, 1).unwrap());
    bout.set_priority(Some(1)).unwrap();
    bout.update_scores(FencerScore::new(0, 5, card(0)), FencerScore::new(1, 2, card(0))).unwrap();
    assert_eq!(bout.get_winner(), Some(0));
}
