//! Portfolio bookkeeping: held positions per instrument.

use vstd::prelude::*;

use crate::models::{ikey, IKey, Instrument, Position, PositionUpdate};
use crate::num::{dec_wf, Dec};

verus! {

/// A consumer of position updates.
pub trait Portfolio {
    fn handle_position_update(&self, update: &PositionUpdate);
}

/// A simple portfolio: one position per instrument.
pub struct SinglePortfolio {
    pub positions: Vec<Position>,
}

/// The quantity held in the instrument with key `ik`: the first stored
/// position's, or zero.
pub open spec fn positions_quantity(ps: Seq<Position>, ik: IKey) -> Dec
    decreases ps.len(),
{
    if ps.len() == 0 {
        Dec { m: 0 }
    } else if ikey(ps[0].instrument) == ik {
        ps[0].quantity
    } else {
        positions_quantity(ps.skip(1), ik)
    }
}

proof fn lemma_positions_quantity_at(ps: Seq<Position>, ik: IKey, i: int)
    requires
        0 <= i <= ps.len(),
        forall|j: int| 0 <= j < i ==> ikey(ps[j].instrument) != ik,
        i < ps.len() ==> ikey(ps[i].instrument) == ik,
    ensures
        positions_quantity(ps, ik) == if i < ps.len() {
            ps[i].quantity
        } else {
            Dec { m: 0 }
        },
    decreases ps.len(),
{
    if ps.len() == 0 {
    } else if i == 0 {
    } else {
        assert forall|j: int| 0 <= j < i - 1 implies ikey(ps.skip(1)[j].instrument) != ik by {
            assert(ps.skip(1)[j] == ps[j + 1]);
        }
        assert(i - 1 < ps.skip(1).len() ==> ikey(ps.skip(1)[i - 1].instrument) == ik);
        lemma_positions_quantity_at(ps.skip(1), ik, i - 1);
    }
}

impl SinglePortfolio {
    /// Every stored quantity is in range.
    pub open spec fn wf(&self) -> bool {
        forall|i: int| 0 <= i < self.positions@.len() ==> dec_wf(self.positions@[i].quantity)
    }

    /// The quantity this portfolio holds under an instrument key.
    pub open spec fn position_quantity(&self, ik: IKey) -> Dec {
        positions_quantity(self.positions@, ik)
    }

    /// An empty portfolio.
    pub fn new() -> (r: SinglePortfolio)
        ensures
            r.positions@.len() == 0,
            r.wf(),
    {
        SinglePortfolio { positions: Vec::new() }
    }

    /// Record a position.
    pub fn add_position(&mut self, p: Position)
        requires
            old(self).wf(),
            dec_wf(p.quantity),
        ensures
            final(self).positions@ == old(self).positions@.push(p),
            final(self).wf(),
    {
        self.positions.push(p);
        proof {
            assert forall|i: int| 0 <= i < self.positions@.len() implies dec_wf(
                self.positions@[i].quantity,
            ) by {
                if i < self.positions@.len() - 1 {
                    assert(self.positions@[i] == old(self).positions@[i]);
                }
            }
        }
    }

    /// The position held in an instrument at a time: the stored one, or a
    /// flat (zero-quantity) position.
    pub fn position(&self, instrument: &Instrument, _event_time: u64) -> (r: Position)
        requires
            self.wf(),
        ensures
            r.quantity == self.position_quantity(ikey(*instrument)),
            ikey(r.instrument) == ikey(*instrument),
            dec_wf(r.quantity),
    {
        let mut i: usize = 0;
        while i < self.positions.len()
            invariant
                0 <= i <= self.positions@.len(),
                self.wf(),
                forall|j: int|
                    0 <= j < i ==> ikey(self.positions@[j].instrument) != ikey(*instrument),
            decreases self.positions.len() - i,
        {
            if self.positions[i].instrument.matches(instrument) {
                proof {
                    lemma_positions_quantity_at(
                        self.positions@,
                        ikey(*instrument),
                        i as int,
                    );
                }
                return Position::new(instrument.clone(), self.positions[i].quantity);
            }
            i += 1;
        }
        proof {
            lemma_positions_quantity_at(
                self.positions@,
                ikey(*instrument),
                self.positions@.len() as int,
            );
        }
        Position::new(instrument.clone(), Dec::zero())
    }
}

impl Portfolio for SinglePortfolio {
    fn handle_position_update(&self, _update: &PositionUpdate) {
    }
}

/// The portfolios the engine can run with.
pub enum PortfolioType {
    Single(SinglePortfolio),
}

impl Portfolio for PortfolioType {
    fn handle_position_update(&self, update: &PositionUpdate) {
        match self {
            PortfolioType::Single(portfolio) => portfolio.handle_position_update(update),
        }
    }
}

} // verus!
