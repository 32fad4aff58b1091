use commit_roller::calendar::CalendarDate;
use commit_roller::roller::gitlog::{
    find_commits, get_context_log, history_window, resolve, window_from, Failure, Gitlog,
    HistoryWindow,
    LogContext, ResolveError,
};

fn change(title: &str, commits: &[&str], date: &str, start_date: Option<&str>) -> Gitlog {
    Gitlog {
        title: title.to_string(),
        commits: commits.iter().map(|c| c.to_string()).collect(),
        date: date.to_string(),
        start_date: start_date.map(|d| d.to_string()),
    }
}

fn context(title: &str, hash_cur: &str, hash_old: &str) -> LogContext {
    LogContext {
        hash_cur: hash_cur.to_string(),
        hash_old: hash_old.to_string(),
        title: title.to_string(),
    }
}

fn day(year: i32, month: u32, day: u32) -> CalendarDate {
    CalendarDate { year, month, day }
}

const HISTORY: &str = "c3c3c3c Fix bug\nb2b2b2b Introduce bug\na1a1a1a Add unrelated\n";

#[test]
fn test() {
    let logs = vec![
        change("Fix foo", &["Introduce bug", "Fix bug"], "2023-03-10", None),
        change("Fix bar", &["Introduce bar", "Fix bar"], "2023-03-10", None),
    ];
    let histories = vec![Some(HISTORY.to_string()), Some(HISTORY.to_string())];
    let report = find_commits(&logs, &histories);
    assert_eq!(report.contexts, vec![context("Fix foo", "c3c3c3c", "a1a1a1a")]);
    assert_eq!(report.failures, vec![Failure { index: 1, error: ResolveError::NotFound }]);
}

#[test]
fn scenario_change_is_bracketed() {
    let log = change("Fix foo", &["Introduce bug", "Fix bug"], "2023-03-10", None);
    assert_eq!(resolve(&log, Some(HISTORY)), Ok(context("Fix foo", "c3c3c3c", "a1a1a1a")));
}

#[test]
fn scenario_missing_first_commit_is_dropped() {
    let log = change("Fix foo", &["Introduce bug", "Fix bug"], "2023-03-10", None);
    let history = "c3c3c3c Fix bug\na1a1a1a Add unrelated\n";
    assert_eq!(resolve(&log, Some(history)), Err(ResolveError::NotFound));
    let report = find_commits(&vec![log], &vec![Some(history.to_string())]);
    assert!(report.contexts.is_empty());
    assert_eq!(report.failures, vec![Failure { index: 0, error: ResolveError::NotFound }]);
}

#[test]
fn window_pads_one_day_on_both_sides() {
    let log = change("t", &["a"], "2023-03-10", None);
    assert_eq!(
        history_window(&log),
        Ok(HistoryWindow { start: day(2023, 3, 9), end: day(2023, 3, 11) })
    );
}

#[test]
fn window_starts_before_start_date() {
    let log = change("t", &["a"], "2023-03-10", Some("2023-03-01"));
    assert_eq!(
        history_window(&log),
        Ok(HistoryWindow { start: day(2023, 2, 28), end: day(2023, 3, 11) })
    );
}

#[test]
fn window_crosses_years_and_leap_days() {
    let log = change("t", &["a"], "2023-12-31", Some("2024-03-01"));
    assert_eq!(
        history_window(&log),
        Ok(HistoryWindow { start: day(2024, 2, 29), end: day(2024, 1, 1) })
    );
    let log = change("t", &["a"], "2024-02-28", Some("2023-01-01"));
    assert_eq!(
        history_window(&log),
        Ok(HistoryWindow { start: day(2022, 12, 31), end: day(2024, 2, 29) })
    );
    let log = change("t", &["a"], "1900-02-28", Some("2000-03-01"));
    assert_eq!(
        history_window(&log),
        Ok(HistoryWindow { start: day(2000, 2, 29), end: day(1900, 3, 1) })
    );
}

#[test]
fn bad_date_is_reported() {
    let log = change("t", &["a"], "10 March 2023", None);
    assert_eq!(history_window(&log), Err(ResolveError::BadDate));
    assert_eq!(resolve(&log, Some(HISTORY)), Err(ResolveError::BadDate));
    let log = change("t", &["a"], "2023-02-30", None);
    assert_eq!(history_window(&log), Err(ResolveError::BadDate));
    let log = change("t", &["a"], "", Some("2023-03-01"));
    assert_eq!(history_window(&log), Err(ResolveError::BadDate));
}

#[test]
fn bad_start_date_is_reported() {
    let log = change("t", &["a"], "2023-03-10", Some("yesterday"));
    assert_eq!(history_window(&log), Err(ResolveError::BadStartDate));
    assert_eq!(resolve(&log, Some(HISTORY)), Err(ResolveError::BadStartDate));
}

#[test]
fn dates_at_the_ends_of_the_calendar_bound_no_window() {
    let log = change("t", &["a"], "+262142-12-31", None);
    assert_eq!(history_window(&log), Err(ResolveError::BadDate));
    let log = change("t", &["a"], "-262143-01-01", None);
    assert_eq!(history_window(&log), Err(ResolveError::BadDate));
    let log = change("t", &["a"], "2023-03-10", Some("-262143-01-01"));
    assert_eq!(history_window(&log), Err(ResolveError::BadStartDate));
    let log = change("t", &["a"], "+262142-12-30", Some("-262143-01-02"));
    assert_eq!(
        history_window(&log),
        Ok(HistoryWindow { start: day(-262143, 1, 1), end: day(262142, 12, 31) })
    );
}

#[test]
fn missing_history_is_reported() {
    let log = change("Fix foo", &["Introduce bug", "Fix bug"], "2023-03-10", None);
    assert_eq!(resolve(&log, None), Err(ResolveError::QueryFailed));
    let report = find_commits(&vec![log], &vec![]);
    assert!(report.contexts.is_empty());
    assert_eq!(report.failures, vec![Failure { index: 0, error: ResolveError::QueryFailed }]);
}

#[test]
fn change_without_commits_is_reported() {
    let log = change("Fix foo", &[], "2023-03-10", None);
    assert_eq!(resolve(&log, Some(HISTORY)), Err(ResolveError::NoCommits));
    assert_eq!(
        get_context_log(&"Fix foo".to_string(), &vec![], HISTORY),
        Err(ResolveError::NoCommits)
    );
}

#[test]
fn empty_window_resolves_nothing() {
    let log = change("Fix foo", &["Introduce bug", "Fix bug"], "2023-03-10", None);
    assert_eq!(resolve(&log, Some("")), Err(ResolveError::NotFound));
}

#[test]
fn last_match_wins() {
    let history = "f6 Fix bug again\ne5 Introduce bug\nd4 Middle\nc3 Fix bug\nb2 Introduce bug\na1 Base\n";
    let commits = vec!["Introduce bug".to_string(), "Fix bug".to_string()];
    assert_eq!(
        get_context_log(&"t".to_string(), &commits, history),
        Ok(context("t", "c3", "a1"))
    );
}

#[test]
fn first_commit_on_the_last_line_has_no_predecessor() {
    let history = "c3 Fix bug\nb2 Introduce bug";
    let commits = vec!["Introduce bug".to_string(), "Fix bug".to_string()];
    assert_eq!(get_context_log(&"t".to_string(), &commits, history), Err(ResolveError::NotFound));
}

#[test]
fn single_commit_change_is_bracketed() {
    let history = "b2 Only commit\r\na1 Base\r\n";
    let commits = vec!["Only commit".to_string()];
    assert_eq!(
        get_context_log(&"t".to_string(), &commits, history),
        Ok(context("t", "b2", "a1"))
    );
}

#[test]
fn identifier_is_not_part_of_the_message() {
    let history = "c3 Fix bug\nb2 Introduce bug\na1 Base\n";
    let commits = vec!["b2".to_string(), "c3".to_string()];
    assert_eq!(get_context_log(&"t".to_string(), &commits, history), Err(ResolveError::NotFound));
}

#[test]
fn line_without_identifier_names_no_commit() {
    let history = "c3 Fix bug\nb2 Introduce bug\n Base\n";
    let commits = vec!["Introduce bug".to_string(), "Fix bug".to_string()];
    assert_eq!(get_context_log(&"t".to_string(), &commits, history), Err(ResolveError::NotFound));
}

#[test]
fn batch_keeps_order_and_goes_on_after_failures() {
    let logs = vec![
        change("one", &["Introduce bug", "Fix bug"], "not a date", None),
        change("two", &["Introduce bug", "Fix bug"], "2023-03-10", None),
        change("three", &["Introduce bug"], "2023-03-10", Some("2023-03-32")),
        change("four", &["Add unrelated"], "2023-03-10", None),
        change("five", &["Fix bug"], "2023-03-10", None),
    ];
    let histories = vec![
        Some(HISTORY.to_string()),
        Some(HISTORY.to_string()),
        Some(HISTORY.to_string()),
        Some(HISTORY.to_string()),
        Some(HISTORY.to_string()),
    ];
    let report = find_commits(&logs, &histories);
    assert_eq!(
        report.contexts,
        vec![context("two", "c3c3c3c", "a1a1a1a"), context("five", "c3c3c3c", "b2b2b2b")]
    );
    assert_eq!(
        report.failures,
        vec![
            Failure { index: 0, error: ResolveError::BadDate },
            Failure { index: 2, error: ResolveError::BadStartDate },
            Failure { index: 3, error: ResolveError::NotFound },
        ]
    );
}

#[test]
fn date_text_has_no_padding() {
    assert_eq!(day(2023, 3, 9).text(), "2023-3-9");
    assert_eq!(day(2023, 12, 31).text(), "2023-12-31");
    assert_eq!(day(-5, 1, 10).text(), "-5-1-10");
    assert_eq!(day(0, 10, 1).text(), "0-10-1");
    assert_eq!(day(i32::MIN, 1, 1).text(), "-2147483648-1-1");
}

#[test]
fn context_records_round_trip() {
    let contexts =
        vec![context("Fix foo", "c3c3c3c", "a1a1a1a"), context("Say \"hi\"\n", "f6", "d4")];
    let mut list = Vec::new();
    for context in &contexts {
        let mut record = serde_json::Map::new();
        record.insert("hash_cur".to_string(), serde_json::Value::String(context.hash_cur.clone()));
        record.insert("hash_old".to_string(), serde_json::Value::String(context.hash_old.clone()));
        record.insert("title".to_string(), serde_json::Value::String(context.title.clone()));
        list.push(serde_json::Value::Object(record));
    }
    let written = serde_json::to_string(&serde_json::Value::Array(list)).unwrap();
    let read: serde_json::Value = serde_json::from_str(&written).unwrap();
    let read: Vec<LogContext> = read
        .as_array()
        .unwrap()
        .iter()
        .map(|record| LogContext {
            hash_cur: record["hash_cur"].as_str().unwrap().to_string(),
            hash_old: record["hash_old"].as_str().unwrap().to_string(),
            title: record["title"].as_str().unwrap().to_string(),
        })
        .collect();
    assert_eq!(read, contexts);
}

#[test]
fn window_from_read_dates() {
    assert_eq!(
        window_from(Some(day(2023, 3, 10)), None),
        Ok(HistoryWindow { start: day(2023, 3, 9), end: day(2023, 3, 11) })
    );
    assert_eq!(
        window_from(Some(day(2023, 1, 1)), Some(Some(day(2022, 12, 1)))),
        Ok(HistoryWindow { start: day(2022, 11, 30), end: day(2023, 1, 2) })
    );
    assert_eq!(window_from(None, None), Err(ResolveError::BadDate));
    assert_eq!(window_from(None, Some(None)), Err(ResolveError::BadDate));
    assert_eq!(window_from(Some(day(2023, 3, 10)), Some(None)), Err(ResolveError::BadStartDate));
    assert_eq!(window_from(Some(day(2023, 2, 29)), None), Err(ResolveError::BadDate));
    assert_eq!(
        window_from(Some(day(2023, 3, 10)), Some(Some(day(2023, 4, 31)))),
        Err(ResolveError::BadStartDate)
    );
    assert_eq!(window_from(Some(day(2023, 13, 1)), Some(Some(day(2023, 4, 31)))), Err(ResolveError::BadDate));
}

#[test]
fn neighbours_follow_the_calendar() {
    let around = |y: i32, m: u32, d: u32| match window_from(Some(day(y, m, d)), None) {
        Ok(window) => (window.start, window.end),
        Err(error) => panic!("{:?}", error),
    };
    assert_eq!(around(2023, 5, 1), (day(2023, 4, 30), day(2023, 5, 2)));
    assert_eq!(around(2023, 4, 30), (day(2023, 4, 29), day(2023, 5, 1)));
    assert_eq!(around(2023, 12, 31), (day(2023, 12, 30), day(2024, 1, 1)));
    assert_eq!(around(2023, 1, 1), (day(2022, 12, 31), day(2023, 1, 2)));
    assert_eq!(around(2023, 2, 28), (day(2023, 2, 27), day(2023, 3, 1)));
    assert_eq!(around(2024, 2, 28), (day(2024, 2, 27), day(2024, 2, 29)));
    assert_eq!(around(2024, 2, 29), (day(2024, 2, 28), day(2024, 3, 1)));
    assert_eq!(around(2024, 3, 1), (day(2024, 2, 29), day(2024, 3, 2)));
    assert_eq!(around(2100, 3, 1), (day(2100, 2, 28), day(2100, 3, 2)));
    assert_eq!(around(2000, 3, 1), (day(2000, 2, 29), day(2000, 3, 2)));
    assert_eq!(around(0, 3, 1), (day(0, 2, 29), day(0, 3, 2)));
    assert_eq!(around(-4, 3, 1), (day(-4, 2, 29), day(-4, 3, 2)));
    assert_eq!(around(-100, 3, 1), (day(-100, 2, 28), day(-100, 3, 2)));
    assert_eq!(around(-1, 1, 1), (day(-2, 12, 31), day(-1, 1, 2)));
    for month in 1..=12u32 {
        let last = match month {
            2 => 28,
            4 | 6 | 9 | 11 => 30,
            _ => 31,
        };
        let (_, after) = around(2023, month, last);
        let next = if month == 12 { day(2024, 1, 1) } else { day(2023, month + 1, 1) };
        assert_eq!(after, next);
        assert_eq!(window_from(Some(day(2023, month, last + 1)), None), Err(ResolveError::BadDate));
        assert_eq!(window_from(Some(day(2023, month, 0)), None), Err(ResolveError::BadDate));
    }
    assert_eq!(window_from(Some(day(2023, 0, 1)), None), Err(ResolveError::BadDate));
    assert_eq!(window_from(Some(day(262143, 1, 1)), None), Err(ResolveError::BadDate));
    assert_eq!(window_from(Some(day(-262144, 12, 31)), None), Err(ResolveError::BadDate));
}
