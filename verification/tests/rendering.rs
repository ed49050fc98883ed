use chain::clock::Moment;
use chain::tasklisting::TaskListing;
use chain::taskoperation::TaskOperation;
use chrono::Datelike;

fn at(day: u32, hour: u32, minute: u32) -> Moment {
    Moment {
        utc_seconds: day as u64 * 86400 + hour as u64 * 3600 + minute as u64 * 60,
        local_day: day,
        hour,
        minute,
    }
}

fn listing_with(names: &[&str], day: u32) -> TaskListing {
    let mut list = TaskListing::new();
    for name in names {
        let add = TaskOperation::Add {
            description: (*name).into(),
        };
        assert!(list.handle_operation_at(&add, &at(day, 8, 0)).is_ok());
    }
    list
}

fn day_number(year: i32, month: u32, day: u32) -> u32 {
    chrono::NaiveDate::from_ymd_opt(year, month, day)
        .unwrap()
        .num_days_from_ce() as u32
}

#[test]
fn today_view_rows() {
    let day = day_number(2023, 5, 3);
    let mut list = listing_with(&["water", "read"], day);
    let complete = TaskOperation::MarkComplete {
        task_index: 0,
        remark: None,
    };
    assert!(list.handle_operation_at(&complete, &at(day, 7, 45)).is_ok());

    let rows = list.list_for_today(day);
    assert_eq!(rows.len(), 2);
    assert_eq!(rows[0], "[x] 0   water   07:45   ");
    assert_eq!(rows[1], "[ ] 1   read    --:--   (next)");
}

#[test]
fn today_view_next_marker_on_first_incomplete() {
    let day = day_number(2023, 5, 3);
    let mut list = listing_with(&["a", "b", "c"], day);
    let complete = TaskOperation::MarkComplete {
        task_index: 1,
        remark: None,
    };
    assert!(list.handle_operation_at(&complete, &at(day, 23, 59)).is_ok());

    let rows = list.list_for_today(day);
    assert_eq!(rows[0], "[ ] 0   a   --:--   (next)");
    assert_eq!(rows[1], "[x] 1   b   23:59   ");
    assert_eq!(rows[2], "[ ] 2   c   --:--   ");
}

#[test]
fn today_view_empty_listing() {
    let list = TaskListing::new();
    let rows = list.list_for_today(day_number(2023, 5, 3));
    assert_eq!(rows.len(), 0);
}

#[test]
fn history_streak_and_missed() {
    let start = day_number(2023, 5, 1);
    let today = start + 2;
    let mut list = listing_with(&["water"], start);
    let complete = TaskOperation::MarkComplete {
        task_index: 0,
        remark: None,
    };
    assert!(list.handle_operation_at(&complete, &at(start, 9, 0)).is_ok());

    let rows = list.history_for_range(start, today, today);
    assert_eq!(rows.len(), 2);
    // Header: blank index and description columns, then day-of-month labels.
    let mut header = String::from("            ");
    for d in [start, start + 1, start + 2] {
        let date = chrono::NaiveDate::from_num_days_from_ce_opt(d as i32).unwrap();
        header.push_str(&format!("|{:02}  ", date.day()));
    }
    assert_eq!(rows[0], header);
    assert_eq!(rows[0], "            |01  |02  |03  ");
    // Completed on day one: done marker with streak connector, then a
    // missed day, then today's pending marker.
    assert_eq!(rows[1], "0   water   |o-o-|x   |?");
}

#[test]
fn history_single_day_completed_today() {
    let day = day_number(2023, 5, 1);
    let mut list = listing_with(&["water"], day);
    let complete = TaskOperation::MarkComplete {
        task_index: 0,
        remark: None,
    };
    assert!(list.handle_operation_at(&complete, &at(day, 9, 0)).is_ok());

    let rows = list.history_for_range(day, day, day);
    // Single column: the done marker with no connector.
    assert_eq!(rows[1], "0   water   |o");
}

#[test]
fn history_never_completed_all_blank() {
    let start = day_number(2023, 5, 1);
    let today = start + 2;
    let list = listing_with(&["water"], start);

    let rows = list.history_for_range(start, today, today);
    assert_eq!(rows[1], "0   water   |    |    |?");
    assert!(!rows[1].contains('x'));
}

#[test]
fn history_future_days_blank() {
    let start = day_number(2023, 5, 1);
    let today = start;
    let mut list = listing_with(&["water"], start);
    let complete = TaskOperation::MarkComplete {
        task_index: 0,
        remark: None,
    };
    assert!(list.handle_operation_at(&complete, &at(start, 9, 0)).is_ok());

    // Two days after today are in range: both render blank, and today's
    // own completion gets no streak connector.
    let rows = list.history_for_range(start, start + 2, today);
    assert_eq!(rows[1], "0   water   |o   |    |    ");
}

#[test]
fn decimal_rendering() {
    assert_eq!(chain::textfmt::u64_to_string(0), "0");
    assert_eq!(chain::textfmt::u64_to_string(7), "7");
    assert_eq!(chain::textfmt::u64_to_string(12345), "12345");
    assert_eq!(chain::textfmt::u64_to_string(u64::MAX), "18446744073709551615");
}
