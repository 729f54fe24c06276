use todo_list::refresh::{advance, refresh, StoredRecurrence, StoredSchedule};
use todo_list::statement::Statement;

#[test]
fn not_due_until_more_than_a_period_passed() {
    assert_eq!(advance(100, 1000, 1100), None);
    assert_eq!(advance(100, 1000, 1050), None);
}

#[test]
fn due_moves_by_whole_periods() {
    assert_eq!(advance(100, 1000, 1101), Some(1100));
    assert_eq!(advance(100, 1000, 1399), Some(1300));
    assert_eq!(advance(86400, 0, 3 * 86400 + 5), Some(3 * 86400));
}

#[test]
fn zero_period_moves_to_now() {
    assert_eq!(advance(0, 1000, 1001), Some(1001));
    assert_eq!(advance(0, 1000, 1000), None);
}

#[test]
fn negative_period_divides_toward_zero() {
    // 1005 - 1000 = 5 > -3; 5 / -3 rounds to -1, so the last time moves by 3
    assert_eq!(advance(-3, 1000, 1005), Some(1003));
    // -2 > -3; -2 / -3 rounds to 0
    assert_eq!(advance(-3, 1000, 998), Some(1000));
}

#[test]
fn extreme_times_stay_in_range() {
    assert_eq!(advance(1, i64::MIN, i64::MAX), Some(i64::MAX));
    assert_eq!(advance(i64::MIN, i64::MAX, i64::MIN), None);
}

#[test]
fn refresh_writes_due_items_only() {
    let recurrences = vec![
        StoredRecurrence { id: 1, list_id: 7, period: 10, time_last: 0 },
        StoredRecurrence { id: 2, list_id: 7, period: 100, time_last: 0 },
    ];
    let schedules = vec![
        StoredSchedule { id: 3, list_id: 8, activation_date: 20 },
        StoredSchedule { id: 4, list_id: 8, activation_date: 25 },
    ];
    assert_eq!(
        refresh(&recurrences, &schedules, 25),
        vec![
            Statement::TouchList { list_id: 7 },
            Statement::ReopenItem { id: 1 },
            Statement::SetTimeLast { id: 1, time_last: 20 },
            Statement::TouchList { list_id: 8 },
            Statement::DeleteSchedule { id: 3 },
        ]
    );
}
