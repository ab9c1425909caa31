use crate::cards::Cards;
use crate::error::PoolSheetError;
use vstd::prelude::*;

verus! {

/// Which side of a pair a fencer stands on, if any.
#[derive(Debug, Clone, Copy, PartialEq, Eq, Structural)]
pub enum TuplePos {
    First,
    Second,
    Unset,
}

/// The key of the unordered pair of the positions `a` and `b`: lower first.
pub open spec fn pair_key(a: usize, b: usize) -> (usize, usize) {
    if a < b {
        (a, b)
    } else {
        (b, a)
    }
}

/// Two distinct fencers, given by their positions in a pool, who meet in one
/// bout. The pair does not depend on the order in which they were given:
/// it keeps the lower position first, so equal pairs are equal values and
/// hash alike.
#[derive(Debug, Clone, Copy, PartialEq, Eq, Hash, Structural)]
pub struct FencerVs {
    lo: usize,
    hi: usize,
}

impl View for FencerVs {
    type V = (usize, usize);

    closed spec fn view(&self) -> (usize, usize) {
        (self.lo, self.hi)
    }
}

impl FencerVs {
    /// Whether the pair holds two distinct positions, the lower first: true
    /// of every pair that `new` returns.
    pub open spec fn wf(&self) -> bool {
        self@.0 < self@.1
    }

    /// A pair is determined by its two positions.
    pub proof fn lemma_view_injective(&self, other: &FencerVs)
        ensures
            self@ == other@ <==> *self == *other,
    {
    }

    /// The side on which `fencer` stands in this pair.
    pub open spec fn side_of(&self, fencer: usize) -> TuplePos {
        if fencer == self@.0 {
            TuplePos::First
        } else if fencer == self@.1 {
            TuplePos::Second
        } else {
            TuplePos::Unset
        }
    }

    /// Pairs `fencer_a` with `fencer_b`; fails when both are the same.
    pub fn new(fencer_a: usize, fencer_b: usize) -> (r: Result<FencerVs, PoolSheetError>)
        ensures
            fencer_a == fencer_b ==> r == Err::<FencerVs, PoolSheetError>(PoolSheetError::InvalidBout),
            fencer_a != fencer_b ==> (r matches Ok(p) && p@ == pair_key(fencer_a, fencer_b) && p.wf()),
    {
        if fencer_a == fencer_b {
            Err(PoolSheetError::InvalidBout)
        } else if fencer_a < fencer_b {
            Ok(FencerVs { lo: fencer_a, hi: fencer_b })
        } else {
            Ok(FencerVs { lo: fencer_b, hi: fencer_a })
        }
    }

    /// The two positions, lower first.
    pub fn key(&self) -> (r: (usize, usize))
        ensures
            r == self@,
    {
        (self.lo, self.hi)
    }

    /// The side on which `fencer` stands.
    pub fn pos(&self, fencer: usize) -> (r: TuplePos)
        ensures
            r == self.side_of(fencer),
    {
        if fencer == self.lo {
            TuplePos::First
        } else if fencer == self.hi {
            TuplePos::Second
        } else {
            TuplePos::Unset
        }
    }

    /// The opponent of `fencer` in this pair, if `fencer` is one of the two.
    pub fn get_fencer(&self, fencer: usize) -> (r: Option<usize>)
        ensures
            fencer == self@.0 ==> r == Some(self@.1),
            fencer == self@.1 ==> r == Some(self@.0),
            fencer != self@.0 && fencer != self@.1 ==> r is None,
    {
        if fencer == self.lo {
            Some(self.hi)
        } else if fencer == self.hi {
            Some(self.lo)
        } else {
            None
        }
    }
}

/// A fencer together with the score and cards they had in one bout.
#[derive(Debug, Clone)]
pub struct FencerScore<F> {
    pub fencer: F,
    pub score: u8,
    pub cards: Cards,
}

impl<F> FencerScore<F> {
    pub fn new(fencer: F, score: u8, cards: Cards) -> (r: FencerScore<F>)
        ensures
            r.fencer == fencer,
            r.score == score,
            r.cards == cards,
    {
        FencerScore { fencer, score, cards }
    }
}

/// One bout of a pool: the pair of fencers, each side's score and cards, and
/// the side that wins if the scores end equal.
#[derive(Debug, Clone, Copy, PartialEq, Eq)]
pub struct Bout {
    pub fencers: FencerVs,
    pub scores: (Option<u8>, Option<u8>),
    pub cards: (Cards, Cards),
    pub priority: TuplePos,
}

impl Bout {
    /// The position standing on `side`, if the side is set.
    pub open spec fn holder(&self, side: TuplePos) -> Option<usize> {
        match side {
            TuplePos::First => Some(self.fencers@.0),
            TuplePos::Second => Some(self.fencers@.1),
            TuplePos::Unset => None,
        }
    }

    /// The bout after `fs` is recorded on the side of its fencer, who is in
    /// the bout.
    pub open spec fn with_side(self, fs: FencerScore<usize>) -> Bout {
        if self.fencers.side_of(fs.fencer) == TuplePos::First {
            Bout { scores: (Some(fs.score), self.scores.1), cards: (fs.cards, self.cards.1), ..self }
        } else {
            Bout { scores: (self.scores.0, Some(fs.score)), cards: (self.cards.0, fs.cards), ..self }
        }
    }

    /// The bout after the score on the side of `fencer`, who is in the bout,
    /// is cleared.
    pub open spec fn without_side(self, fencer: usize) -> Bout {
        if self.fencers.side_of(fencer) == TuplePos::First {
            Bout { scores: (None, self.scores.1), ..self }
        } else {
            Bout { scores: (self.scores.0, None), ..self }
        }
    }

    /// The winner: the higher score, or on equal scores the priority holder;
    /// none while a score is missing.
    pub open spec fn winner(&self) -> Option<usize> {
        match (self.scores.0, self.scores.1) {
            (Some(a), Some(b)) => if a > b {
                Some(self.fencers@.0)
            } else if a < b {
                Some(self.fencers@.1)
            } else {
                self.holder(self.priority)
            },
            _ => None,
        }
    }

    /// A fresh bout for the pair: no scores, no cards, no priority.
    pub fn new(fencers: FencerVs) -> (r: Bout)
        ensures
            r == (Bout {
                fencers,
                scores: (None, None),
                cards: (Cards::zero(), Cards::zero()),
                priority: TuplePos::Unset,
            }),
    {
        Bout {
            fencers,
            scores: (None, None),
            cards: (Cards::default(), Cards::default()),
            priority: TuplePos::Unset,
        }
    }

    /// Records both fencers' scores and cards, each on their own side,
    /// whatever order they are given in.
    pub fn update_scores(
        &mut self,
        score_a: FencerScore<usize>,
        score_b: FencerScore<usize>,
    ) -> (r: Result<(), PoolSheetError>)
        ensures
            ({
                let pa = old(self).fencers.side_of(score_a.fencer);
                let pb = old(self).fencers.side_of(score_b.fencer);
                if pa == TuplePos::Unset || pb == TuplePos::Unset || pa == pb {
                    &&& r == Err::<(), PoolSheetError>(PoolSheetError::InvalidBout)
                    &&& *final(self) == *old(self)
                } else {
                    &&& r is Ok
                    &&& *final(self) == old(self).with_side(score_a).with_side(score_b)
                }
            }),
    {
        let pos_a = self.fencers.pos(score_a.fencer);
        let pos_b = self.fencers.pos(score_b.fencer);
        if pos_a == pos_b {
            return Err(PoolSheetError::InvalidBout);
        }
        match pos_a {
            TuplePos::First => {
                if pos_b == TuplePos::Unset {
                    return Err(PoolSheetError::InvalidBout);
                }
                self.scores = (Some(score_a.score), Some(score_b.score));
                self.cards = (score_a.cards, score_b.cards);
            },
            TuplePos::Second => {
                if pos_b == TuplePos::Unset {
                    return Err(PoolSheetError::InvalidBout);
                }
                self.scores = (Some(score_b.score), Some(score_a.score));
                self.cards = (score_b.cards, score_a.cards);
            },
            TuplePos::Unset => return Err(PoolSheetError::InvalidBout),
        }
        Ok(())
    }

    /// Both scores, once both are set.
    pub fn get_scores(&self) -> (r: Option<(u8, u8)>)
        ensures
            r == (match (self.scores.0, self.scores.1) {
                (Some(a), Some(b)) => Some((a, b)),
                _ => None,
            }),
    {
        match (self.scores.0, self.scores.1) {
            (Some(a), Some(b)) => Some((a, b)),
            _ => None,
        }
    }

    /// Records one fencer's score and cards on their side.
    pub fn set_score(&mut self, fencer_score: FencerScore<usize>) -> (r: Result<(), PoolSheetError>)
        ensures
            old(self).fencers.side_of(fencer_score.fencer) == TuplePos::Unset ==> {
                &&& r == Err::<(), PoolSheetError>(PoolSheetError::InvalidBout)
                &&& *final(self) == *old(self)
            },
            old(self).fencers.side_of(fencer_score.fencer) != TuplePos::Unset ==> {
                &&& r is Ok
                &&& *final(self) == old(self).with_side(fencer_score)
            },
    {
        match self.fencers.pos(fencer_score.fencer) {
            TuplePos::First => {
                self.scores.0 = Some(fencer_score.score);
                self.cards.0 = fencer_score.cards;
            },
            TuplePos::Second => {
                self.scores.1 = Some(fencer_score.score);
                self.cards.1 = fencer_score.cards;
            },
            TuplePos::Unset => return Err(PoolSheetError::InvalidBout),
        }
        Ok(())
    }

    /// The score on the side of `fencer`, if `fencer` is in the bout.
    pub fn get_score(&self, fencer: usize) -> (r: Option<u8>)
        ensures
            r == (match self.fencers.side_of(fencer) {
                TuplePos::First => self.scores.0,
                TuplePos::Second => self.scores.1,
                TuplePos::Unset => None,
            }),
    {
        match self.fencers.pos(fencer) {
            TuplePos::First => self.scores.0,
            TuplePos::Second => self.scores.1,
            TuplePos::Unset => None,
        }
    }

    /// Clears the score on the side of `fencer`.
    pub fn unset_score(&mut self, fencer: usize) -> (r: Result<(), PoolSheetError>)
        ensures
            old(self).fencers.side_of(fencer) == TuplePos::Unset ==> {
                &&& r == Err::<(), PoolSheetError>(PoolSheetError::InvalidBout)
                &&& *final(self) == *old(self)
            },
            old(self).fencers.side_of(fencer) != TuplePos::Unset ==> {
                &&& r is Ok
                &&& *final(self) == old(self).without_side(fencer)
            },
    {
        match self.fencers.pos(fencer) {
            TuplePos::First => self.scores.0 = None,
            TuplePos::Second => self.scores.1 = None,
            TuplePos::Unset => return Err(PoolSheetError::InvalidBout),
        }
        Ok(())
    }

    /// Clears both scores.
    pub fn unset_scores(&mut self)
        ensures
            *final(self) == (Bout { scores: (None, None), ..*old(self) }),
    {
        self.scores = (None, None);
    }

    /// The two positions, lower first.
    pub fn get_fencers(&self) -> (r: (usize, usize))
        ensures
            r == self.fencers@,
    {
        self.fencers.key()
    }

    /// Gives the priority to `fencer`, or takes it away with `None`.
    pub fn set_priority(&mut self, fencer: Option<usize>) -> (r: Result<(), PoolSheetError>)
        ensures
            match fencer {
                Some(f) => if old(self).fencers.side_of(f) == TuplePos::Unset {
                    &&& r == Err::<(), PoolSheetError>(PoolSheetError::InvalidBout)
                    &&& *final(self) == *old(self)
                } else {
                    &&& r is Ok
                    &&& *final(self) == (Bout { priority: old(self).fencers.side_of(f), ..*old(self) })
                },
                None => {
                    &&& r is Ok
                    &&& *final(self) == (Bout { priority: TuplePos::Unset, ..*old(self) })
                },
            },
    {
        match fencer {
            Some(f) => {
                let pos = self.fencers.pos(f);
                if pos == TuplePos::Unset {
                    Err(PoolSheetError::InvalidBout)
                } else {
                    self.priority = pos;
                    Ok(())
                }
            },
            None => {
                self.priority = TuplePos::Unset;
                Ok(())
            },
        }
    }

    /// The fencer who holds the priority, if any.
    pub fn get_priority(&self) -> (r: Option<usize>)
        ensures
            r == self.holder(self.priority),
    {
        let (a, b) = self.fencers.key();
        match self.priority {
            TuplePos::First => Some(a),
            TuplePos::Second => Some(b),
            TuplePos::Unset => None,
        }
    }

    /// The winner of the bout, if it is decided.
    pub fn get_winner(&self) -> (r: Option<usize>)
        ensures
            r == self.winner(),
    {
        let (a, b) = match self.get_scores() {
            Some(s) => s,
            None => return None,
        };
        let (fa, fb) = self.fencers.key();
        if a > b {
            Some(fa)
        } else if a < b {
            Some(fb)
        } else {
            self.get_priority()
        }
    }
}

/// A bout has no winner while a score is missing, or while the scores are
/// equal and nobody holds the priority.
pub proof fn lemma_winner_undetermined(bout: Bout)
    requires
        bout.scores.0 is None || bout.scores.1 is None || (bout.scores.0 == bout.scores.1
            && bout.priority == TuplePos::Unset),
    ensures
        bout.winner() is None,
{
}

/// Pairing two distinct positions gives the same pair in either order, and
/// a position cannot be paired with itself.
pub proof fn lemma_pair_unordered(a: usize, b: usize)
    ensures
        pair_key(a, b) == pair_key(b, a),
        a != b ==> pair_key(a, b).0 < pair_key(a, b).1,
        forall|p: FencerVs, q: FencerVs|
            p@ == pair_key(a, b) && q@ == pair_key(b, a) ==> p == q,
{
    assert forall|p: FencerVs, q: FencerVs|
        p@ == pair_key(a, b) && q@ == pair_key(b, a) implies p == q by {
        p.lemma_view_injective(&q);
    }
}

} // verus!
