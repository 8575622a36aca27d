use modus::calendar::TradingCalendar;
use modus::ledger::{Amount, Basis, Conversion, Dated, Ledger, Position};

fn position(equity: usize, quantity: u32) -> Position {
    let amount = Amount {
        basis: Basis::Buy,
        conversion: Conversion::Unit,
        rescaled_at: None,
    };
    Position {
        equity,
        old_price: amount,
        price: amount,
        quantity,
    }
}

#[test]
fn calendar_keeps_days_in_order() {
    let mut calendar = TradingCalendar::new();
    for day in [5, 1, 9, 3, 7, -2] {
        calendar.insert(day);
    }
    assert_eq!(calendar.dates(), &vec![-2, 1, 3, 5, 7, 9]);
    assert_eq!(calendar.len(), 6);
}

#[test]
fn calendar_keeps_each_day_once() {
    let mut calendar = TradingCalendar::new();
    for day in [4, 4, 2, 4, 2] {
        calendar.insert(day);
    }
    assert_eq!(calendar.dates(), &vec![2, 4]);
}

#[test]
fn rank_counts_the_days_before() {
    let mut calendar = TradingCalendar::new();
    assert_eq!(calendar.rank(3), 0);
    for day in [10, 20, 30] {
        calendar.insert(day);
    }
    assert_eq!(calendar.rank(5), 0);
    assert_eq!(calendar.rank(10), 0);
    assert_eq!(calendar.rank(11), 1);
    assert_eq!(calendar.rank(20), 1);
    assert_eq!(calendar.rank(30), 2);
    assert_eq!(calendar.rank(31), 3);
    assert_eq!(calendar.rank(i32::MAX), 3);
    assert_eq!(calendar.rank(i32::MIN), 0);
}

#[test]
fn position_of_a_day() {
    let mut calendar = TradingCalendar::new();
    for day in [10, 20, 30] {
        calendar.insert(day);
    }
    assert_eq!(calendar.position(10), Some(0));
    assert_eq!(calendar.position(20), Some(1));
    assert_eq!(calendar.position(30), Some(2));
    assert_eq!(calendar.position(15), None);
    assert_eq!(calendar.position(40), None);
    assert!(calendar.contains(20));
    assert!(!calendar.contains(21));
    assert!(!TradingCalendar::new().contains(0));
}

#[test]
fn ledger_keeps_days_in_order() {
    let mut ledger = Ledger::new();
    for (day, equity) in [(5, 0), (1, 1), (9, 2), (3, 3)] {
        ledger.record(Dated {
            day,
            position: position(equity, 1),
        });
    }
    let days: Vec<i32> = ledger.days.iter().map(|e| e.day).collect();
    assert_eq!(days, vec![1, 3, 5, 9]);
    let equities: Vec<usize> = ledger.days.iter().map(|e| e.positions[0].equity).collect();
    assert_eq!(equities, vec![1, 3, 0, 2]);
}

#[test]
fn ledger_keeps_the_positions_of_a_day_in_order() {
    let mut ledger = Ledger::new();
    for (day, equity) in [(5, 0), (1, 1), (5, 2), (1, 3), (5, 4)] {
        ledger.record(Dated {
            day,
            position: position(equity, equity as u32 + 1),
        });
    }
    assert_eq!(ledger.days.len(), 2);
    assert_eq!(ledger.days[0].day, 1);
    assert_eq!(
        ledger.days[0].positions,
        vec![position(1, 2), position(3, 4)]
    );
    assert_eq!(ledger.days[1].day, 5);
    assert_eq!(
        ledger.days[1].positions,
        vec![position(0, 1), position(2, 3), position(4, 5)]
    );
}

#[test]
fn new_ledger_is_empty() {
    assert!(Ledger::new().days.is_empty());
}
