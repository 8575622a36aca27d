//! Positions, the amounts they are worth, and the ledger that keeps the
//! positions of each day together.
//!
//! An amount is a formula over the prices of one equity, not a number: the
//! caller, who has the prices, works it out. `crate::valuation` says what
//! number each formula stands for.

use vstd::prelude::*;

verus! {

/// The price that an amount starts from.
#[derive(Debug, Clone, Copy, PartialEq, Eq, Structural)]
pub enum Basis {
    /// The price at which the equity was bought.
    Buy,
    /// The price at which the equity was sold.
    Sell,
    /// The close of the equity's quote with this index.
    Close(usize),
    /// The adjusted close of the equity's quote with this index.
    AdjustedClose(usize),
}

/// The exchange rate into dollars that an amount is multiplied by.
#[derive(Debug, Clone, Copy, PartialEq, Eq, Structural)]
pub enum Conversion {
    /// None: the amount is in dollars already.
    Unit,
    /// The rate on the date of purchase.
    AtBuy,
    /// The rate at the end of the equity's range: on the date of sale, or
    /// the present rate while the equity is held.
    AtSell,
}

/// An amount of money for one unit of an equity: a basis, times an exchange
/// rate, and where `rescaled_at` names a quote, times that quote's close and
/// divided by its adjusted close, in this order.
#[derive(Debug, Clone, Copy, PartialEq, Eq, Structural)]
pub struct Amount {
    pub basis: Basis,
    pub conversion: Conversion,
    pub rescaled_at: Option<usize>,
}

/// What one equity is worth on one day: the price of a unit as the day
/// begins and as it ends, and the number of units. `equity` is the place of
/// the equity in the portfolio.
#[derive(Debug, Clone, Copy, PartialEq, Eq, Structural)]
pub struct Position {
    pub equity: usize,
    pub old_price: Amount,
    pub price: Amount,
    pub quantity: u32,
}

/// A position and the day it is for.
#[derive(Debug, Clone, Copy, PartialEq, Eq, Structural)]
pub struct Dated {
    pub day: i32,
    pub position: Position,
}

/// The positions of one day.
#[derive(Debug)]
pub struct DayEntry {
    pub day: i32,
    pub positions: Vec<Position>,
}

/// The positions of every day that has any, by ascending day.
#[derive(Debug)]
pub struct Ledger {
    pub days: Vec<DayEntry>,
}

/// The positions among `log` that are for `day`, in the order of `log`.
pub open spec fn on_day(log: Seq<Dated>, day: int) -> Seq<Position>
    decreases log.len(),
{
    if log.len() == 0 {
        Seq::empty()
    } else if log.last().day == day {
        on_day(log.drop_last(), day).push(log.last().position)
    } else {
        on_day(log.drop_last(), day)
    }
}

/// A day that has a position among `log` has one on that day, and no other
/// day has.
pub proof fn on_day_is_empty(log: Seq<Dated>, day: int)
    ensures
        on_day(log, day).len() == 0 <==> forall|i: int| 0 <= i < log.len() ==> log[i].day != day,
    decreases log.len(),
{
    if log.len() > 0 {
        let front = log.drop_last();
        on_day_is_empty(front, day);
        if on_day(log, day).len() == 0 {
            assert forall|i: int| 0 <= i < log.len() implies log[i].day != day by {
                if i < front.len() {
                    assert(front[i] == log[i]);
                }
            }
        }
        if forall|i: int| 0 <= i < log.len() ==> log[i].day != day {
            assert forall|i: int| 0 <= i < front.len() implies front[i].day != day by {
                assert(front[i] == log[i]);
            }
        }
    }
}

impl Ledger {
    /// Whether the days are in ascending order, each once.
    pub open spec fn ordered(&self) -> bool {
        forall|i: int, j: int| 0 <= i < j < self.days@.len() ==> self.days@[i].day < self.days@[j].day
    }

    /// Whether the ledger has an entry for `day`.
    pub open spec fn has_day(&self, day: int) -> bool {
        exists|k: int| 0 <= k < self.days@.len() && (#[trigger] self.days@[k]).day == day
    }

    /// Whether the ledger is the ledger of `log`: its days ascend, each day
    /// that has a position among `log` has an entry and no other day has,
    /// and the entry of a day holds the positions that `log` has for that
    /// day, in the order of `log`.
    pub open spec fn holds(&self, log: Seq<Dated>) -> bool {
        &&& self.ordered()
        &&& forall|k: int|
            0 <= k < self.days@.len() ==> {
                &&& (#[trigger] self.days@[k]).positions@ == on_day(log, self.days@[k].day as int)
                &&& self.days@[k].positions@.len() > 0
            }
        &&& forall|i: int| 0 <= i < log.len() ==> self.has_day((#[trigger] log[i]).day as int)
    }

    /// The ledger of no position.
    pub fn new() -> (ledger: Self)
        ensures
            ledger.days@.len() == 0,
            ledger.holds(Seq::empty()),
    {
        Ledger { days: Vec::new() }
    }

    /// The number of entries whose day lies before `day`.
    fn rank(&self, day: i32) -> (r: usize)
        requires
            self.ordered(),
        ensures
            r <= self.days@.len(),
            forall|i: int| 0 <= i < r ==> self.days@[i].day < day,
            forall|i: int| r <= i < self.days@.len() ==> self.days@[i].day >= day,
    {
        let mut low: usize = 0;
        let mut high: usize = self.days.len();
        while low < high
            invariant
                self.ordered(),
                low <= high <= self.days@.len(),
                forall|i: int| 0 <= i < low ==> self.days@[i].day < day,
                forall|i: int| high <= i < self.days@.len() ==> self.days@[i].day >= day,
            decreases high - low,
        {
            let mid: usize = low + (high - low) / 2;
            if self.days[mid].day < day {
                low = mid + 1;
            } else {
                high = mid;
            }
        }
        low
    }

    /// Adds a position to the entry of its day, after the positions that
    /// the entry has, and makes the entry first where the day has none.
    pub fn record(&mut self, entry: Dated)
        requires
            old(self).ordered(),
        ensures
            final(self).ordered(),
            forall|log: Seq<Dated>| #[trigger]
                old(self).holds(log) ==> final(self).holds(log.push(entry)),
    {
        let r = self.rank(entry.day);
        let ghost before = self.days@;
        if r < self.days.len() && self.days[r].day == entry.day {
            self.days[r].positions.push(entry.position);
            proof {
                let after = self.days@;
                assert forall|log: Seq<Dated>| #[trigger] old(self).holds(log) implies self.holds(
                    log.push(entry),
                ) by {
                    let longer = log.push(entry);
                    assert(longer.drop_last() =~= log);
                    assert forall|k: int| 0 <= k < after.len() implies {
                        &&& (#[trigger] after[k]).positions@ == on_day(longer, after[k].day as int)
                        &&& after[k].positions@.len() > 0
                    } by {
                        assert(before[k].positions@ == on_day(log, before[k].day as int));
                        if k != r {
                            assert(after[k] == before[k]);
                        }
                    }
                    assert forall|i: int| 0 <= i < longer.len() implies self.has_day(
                        (#[trigger] longer[i]).day as int,
                    ) by {
                        if i < log.len() {
                            assert(old(self).has_day(log[i].day as int));
                            let k = choose|k: int|
                                0 <= k < before.len() && (#[trigger] before[k]).day == log[i].day;
                            assert(after[k].day == log[i].day);
                        } else {
                            assert(after[r as int].day == entry.day);
                        }
                    }
                }
            }
        } else {
            let mut positions: Vec<Position> = Vec::new();
            positions.push(entry.position);
            self.days.insert(r, DayEntry { day: entry.day, positions });
            proof {
                let after = self.days@;
                assert forall|i: int, j: int| 0 <= i < j < after.len() implies after[i].day
                    < after[j].day by {
                    if j < r {
                        assert(after[i] == before[i] && after[j] == before[j]);
                    } else if j == r {
                        assert(after[i] == before[i]);
                    } else if i < r {
                        assert(after[i] == before[i] && after[j] == before[j - 1]);
                    } else if i == r {
                        assert(after[j] == before[j - 1]);
                    } else {
                        assert(after[i] == before[i - 1] && after[j] == before[j - 1]);
                    }
                }
                assert forall|log: Seq<Dated>| #[trigger] old(self).holds(log) implies self.holds(
                    log.push(entry),
                ) by {
                    let longer = log.push(entry);
                    assert(longer.drop_last() =~= log);
                    assert forall|i: int| 0 <= i < log.len() implies log[i].day != entry.day by {
                        assert(old(self).has_day(log[i].day as int));
                        let k = choose|k: int|
                            0 <= k < before.len() && (#[trigger] before[k]).day == log[i].day;
                        if k < r {
                            assert(before[k].day < entry.day);
                        } else {
                            assert(before[k].day >= entry.day);
                        }
                    }
                    on_day_is_empty(log, entry.day as int);
                    assert(on_day(log, entry.day as int) =~= Seq::empty());
                    assert forall|k: int| 0 <= k < after.len() implies {
                        &&& (#[trigger] after[k]).positions@ == on_day(longer, after[k].day as int)
                        &&& after[k].positions@.len() > 0
                    } by {
                        if k < r {
                            assert(after[k] == before[k]);
                            assert(before[k].positions@ == on_day(log, before[k].day as int));
                        } else if k > r {
                            assert(after[k] == before[k - 1]);
                            assert(before[k - 1].positions@ == on_day(
                                log,
                                before[k - 1].day as int,
                            ));
                        } else {
                            assert(after[k].positions@ =~= seq![entry.position]);
                            assert(on_day(longer, entry.day as int) =~= seq![entry.position]);
                        }
                    }
                    assert forall|i: int| 0 <= i < longer.len() implies self.has_day(
                        (#[trigger] longer[i]).day as int,
                    ) by {
                        if i < log.len() {
                            assert(old(self).has_day(log[i].day as int));
                            let k = choose|k: int|
                                0 <= k < before.len() && (#[trigger] before[k]).day == log[i].day;
                            if k < r {
                                assert(after[k].day == log[i].day);
                            } else {
                                assert(after[k + 1].day == log[i].day);
                            }
                        } else {
                            assert(after[r as int].day == entry.day);
                        }
                    }
                }
            }
        }
    }
}

} // verus!
