//! The trading calendar: the days on which some instrument has a quote,
//! each once and in ascending order.

use vstd::prelude::*;

verus! {

/// Whether each entry is smaller than the one after it.
pub open spec fn strictly_increasing(days: Seq<i32>) -> bool {
    forall|i: int, j: int| 0 <= i < j < days.len() ==> days[i] < days[j]
}

/// The number of entries of an ascending sequence that lie before `day`.
pub open spec fn rank_of(days: Seq<i32>, day: int) -> int
    decreases days.len(),
{
    if days.len() == 0 {
        0
    } else if days.last() < day {
        days.len() as int
    } else {
        rank_of(days.drop_last(), day)
    }
}

/// `rank_of` splits an ascending sequence: the entries before it are smaller
/// than `day`, the others are not.
pub proof fn rank_of_splits(days: Seq<i32>, day: int)
    requires
        strictly_increasing(days),
    ensures
        0 <= rank_of(days, day) <= days.len(),
        forall|i: int| 0 <= i < rank_of(days, day) ==> days[i] < day,
        forall|i: int| rank_of(days, day) <= i < days.len() ==> days[i] >= day,
    decreases days.len(),
{
    if days.len() > 0 && days.last() >= day {
        let front = days.drop_last();
        rank_of_splits(front, day);
        assert forall|i: int| rank_of(days, day) <= i < days.len() implies days[i] >= day by {
            if i < front.len() {
                assert(front[i] == days[i]);
            }
        }
        assert forall|i: int| 0 <= i < rank_of(days, day) implies days[i] < day by {
            assert(front[i] == days[i]);
        }
    }
}

/// A place that splits an ascending sequence as `rank_of` does is the rank.
pub proof fn rank_of_is(days: Seq<i32>, day: int, r: int)
    requires
        strictly_increasing(days),
        0 <= r <= days.len(),
        forall|i: int| 0 <= i < r ==> days[i] < day,
        forall|i: int| r <= i < days.len() ==> days[i] >= day,
    ensures
        rank_of(days, day) == r,
{
    rank_of_splits(days, day);
    let q = rank_of(days, day);
    if q < r {
        assert(days[q] < day);
    } else if r < q {
        assert(days[r] >= day);
    }
}

/// The days on which some instrument has a quote.
pub struct TradingCalendar {
    days: Vec<i32>,
}

impl View for TradingCalendar {
    type V = Seq<i32>;

    /// The days of the calendar in ascending order.
    closed spec fn view(&self) -> Seq<i32> {
        self.days@
    }
}

impl TradingCalendar {
    #[verifier::type_invariant]
    spec fn ordered(&self) -> bool {
        strictly_increasing(self.days@)
    }

    /// The calendar without a day.
    pub fn new() -> (calendar: Self)
        ensures
            calendar@.len() == 0,
    {
        TradingCalendar { days: Vec::new() }
    }

    /// The number of days.
    pub fn len(&self) -> (n: usize)
        ensures
            n == self@.len(),
    {
        self.days.len()
    }

    /// The days in ascending order.
    pub fn dates(&self) -> (days: &Vec<i32>)
        ensures
            days@ == self@,
            strictly_increasing(days@),
    {
        proof {
            use_type_invariant(self);
        }
        &self.days
    }

    /// The number of days of the calendar that lie before `day`: the place
    /// of `day` in the calendar if it is one of its days, and the place of
    /// the first later day otherwise.
    pub fn rank(&self, day: i32) -> (r: usize)
        ensures
            r == rank_of(self@, day as int),
            r <= self@.len(),
            strictly_increasing(self@),
            forall|i: int| 0 <= i < r ==> self@[i] < day,
            forall|i: int| r <= i < self@.len() ==> self@[i] >= day,
    {
        proof {
            use_type_invariant(self);
        }
        let mut low: usize = 0;
        let mut high: usize = self.days.len();
        while low < high
            invariant
                strictly_increasing(self.days@),
                low <= high <= self.days@.len(),
                forall|i: int| 0 <= i < low ==> self.days@[i] < day,
                forall|i: int| high <= i < self.days@.len() ==> self.days@[i] >= day,
            decreases high - low,
        {
            let mid: usize = low + (high - low) / 2;
            if self.days[mid] < day {
                low = mid + 1;
            } else {
                high = mid;
            }
        }
        proof {
            rank_of_is(self.days@, day as int, low as int);
        }
        low
    }

    /// Whether `day` is a day of the calendar.
    pub fn contains(&self, day: i32) -> (found: bool)
        ensures
            found == self@.contains(day),
    {
        let r = self.rank(day);
        if r < self.days.len() && self.days[r] == day {
            true
        } else {
            assert(!self.days@.contains(day));
            false
        }
    }

    /// The place of `day` among the days of the calendar, counted from 0.
    pub fn position(&self, day: i32) -> (place: Option<usize>)
        ensures
            place is Some <==> self@.contains(day),
            place matches Some(i) ==> i < self@.len() && self@[i as int] == day,
    {
        let r = self.rank(day);
        if r < self.days.len() && self.days[r] == day {
            Some(r)
        } else {
            assert(!self.days@.contains(day));
            None
        }
    }

    /// Makes `day` a day of the calendar. The other days stay.
    pub fn insert(&mut self, day: i32)
        ensures
            forall|d: i32| final(self)@.contains(d) <==> old(self)@.contains(d) || d == day,
            strictly_increasing(final(self)@),
            final(self)@.len() == old(self)@.len() + if old(self)@.contains(day) {
                0int
            } else {
                1int
            },
    {
        let r = self.rank(day);
        if r < self.days.len() && self.days[r] == day {
            return ;
        }
        let ghost before = self.days@;
        assert(!before.contains(day));
        proof {
            let after = before.insert(r as int, day);
            assert forall|i: int, j: int| 0 <= i < j < after.len() implies after[i] < after[j] by {
                if j < r {
                    assert(after[i] == before[i] && after[j] == before[j]);
                } else if j == r {
                    assert(after[i] == before[i]);
                } else if i < r {
                    assert(after[i] == before[i] && after[j] == before[j - 1]);
                } else if i == r {
                    assert(after[j] == before[j - 1]);
                } else {
                    assert(after[i] == before[i - 1] && after[j] == before[j - 1]);
                }
            }
            assert forall|d: i32| after.contains(d) <==> before.contains(d) || d == day by {
                if before.contains(d) {
                    let k = choose|k: int| 0 <= k < before.len() && before[k] == d;
                    if k < r {
                        assert(after[k] == d);
                    } else {
                        assert(after[k + 1] == d);
                    }
                }
                if d == day {
                    assert(after[r as int] == d);
                }
                if after.contains(d) {
                    let k = choose|k: int| 0 <= k < after.len() && after[k] == d;
                    if k < r {
                        assert(before[k] == d);
                    } else if k > r {
                        assert(before[k - 1] == d);
                    }
                }
            }
        }
        let mut days = self.days.clone();
        assert(days@ == before);
        days.insert(r, day);
        self.days = days;
    }
}

} // verus!
