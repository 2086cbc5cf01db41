use syncrab::report::{derive_status, fallback_block, finalize_log};
use syncrab::schedule::get_jobs_to_run;
use syncrab::structs::{Job, Log, LogResult, Stat};

fn job(id: u16, freq: &str, hour: u8, day: Option<&str>, active: u8) -> Job {
    Job {
        id: Some(id),
        source: format!("/src/{id}"),
        target: format!("/tgt/{id}"),
        frequency: freq.to_string(),
        hour,
        day: day.map(|d| d.to_string()),
        mirror: 1,
        active,
    }
}

#[test]
fn daily_job_due_exactly_on_its_hour() {
    let jobs = vec![job(1, "daily", 9, None, 1)];
    let day = "Mon".to_string();
    let due = get_jobs_to_run(&jobs, &None, &day, 9);
    assert_eq!(due.daily.len(), 1);
    assert_eq!(due.daily[0].id, Some(1));
    let not_due = get_jobs_to_run(&jobs, &None, &day, 10);
    assert_eq!(not_due.daily.len(), 0);
}

#[test]
fn inactive_daily_job_never_due() {
    let jobs = vec![job(1, "daily", 9, None, 0)];
    let day = "Mon".to_string();
    let due = get_jobs_to_run(&jobs, &None, &day, 9);
    assert_eq!(due.daily.len(), 0);
}

#[test]
fn weekly_job_due_only_when_day_and_hour_both_match() {
    let jobs = vec![job(2, "weekly", 6, Some("Fri"), 1)];
    let day_match = "Fri".to_string();
    let day_other = "Sat".to_string();
    assert_eq!(get_jobs_to_run(&jobs, &None, &day_match, 6).weekly.len(), 1);
    assert_eq!(get_jobs_to_run(&jobs, &None, &day_other, 6).weekly.len(), 0);
    assert_eq!(get_jobs_to_run(&jobs, &None, &day_match, 7).weekly.len(), 0);
}

#[test]
fn realtime_jobs_are_not_selected_by_the_due_rule() {
    let jobs = vec![job(3, "realtime", 0, None, 1)];
    let day = "Mon".to_string();
    let due = get_jobs_to_run(&jobs, &None, &day, 0);
    assert_eq!(due.realtime.len(), 0);
}

#[test]
fn explicit_filter_selects_by_frequency_and_activity() {
    let jobs = vec![
        job(1, "daily", 9, None, 1),
        job(2, "daily", 10, None, 0),
        job(3, "weekly", 9, Some("Mon"), 1),
        job(4, "realtime", 0, None, 1),
    ];
    let day = "Mon".to_string();

    let all = get_jobs_to_run(&jobs, &Some(("all".to_string(), None)), &day, 0);
    assert_eq!(all.daily.len(), 2);
    assert_eq!(all.weekly.len(), 1);
    assert_eq!(all.realtime.len(), 1);

    let active_daily = get_jobs_to_run(
        &jobs,
        &Some(("daily".to_string(), Some("active".to_string()))),
        &day,
        0,
    );
    assert_eq!(active_daily.daily.len(), 1);
    assert_eq!(active_daily.daily[0].id, Some(1));

    let inactive_daily = get_jobs_to_run(
        &jobs,
        &Some(("daily".to_string(), Some("inactive".to_string()))),
        &day,
        0,
    );
    assert_eq!(inactive_daily.daily.len(), 1);
    assert_eq!(inactive_daily.daily[0].id, Some(2));
}

fn outcome(msg: &str) -> LogResult {
    LogResult::new(
        "daily".to_string(),
        msg.to_string(),
        "/s".to_string(),
        "/t".to_string(),
    )
}

#[test]
fn status_success_when_nothing_failed() {
    assert_eq!(derive_status(3, 0), "success");
}

#[test]
fn status_failed_when_nothing_succeeded() {
    assert_eq!(derive_status(0, 3), "failed");
}

#[test]
fn status_partial_when_both_present() {
    assert_eq!(derive_status(2, 1), "partial");
}

#[test]
fn finalize_log_derives_status_counts_and_order() {
    let log = Log::new("01-01-2024 09:00".to_string());
    let successes = vec![outcome("OK"), outcome("OK")];
    let failures = vec![outcome("boom")];
    let (done, rows) = finalize_log(log, successes, failures, "01-01-2024 09:05".to_string())
        .expect("outcomes present");
    assert_eq!(done.status, "partial");
    assert_eq!(done.success_count, 2);
    assert_eq!(done.failed_count, 1);
    assert_eq!(done.endstamp, "01-01-2024 09:05");
    assert_eq!(done.startstamp, "01-01-2024 09:00");
    assert_eq!(rows.len(), 3);
    assert_eq!(rows[0].message, "OK");
    assert_eq!(rows[1].message, "OK");
    assert_eq!(rows[2].message, "boom");
}

#[test]
fn finalize_log_with_no_outcomes_persists_nothing() {
    let log = Log::new("x".to_string());
    assert!(finalize_log(log, Vec::new(), Vec::new(), "y".to_string()).is_none());
}

#[test]
fn fallback_block_is_self_describing() {
    let mut log = Log::new("start".to_string());
    log.endstamp = "01-02-2024 10:00".to_string();
    log.status = "failed".to_string();
    log.success_count = 0;
    log.failed_count = 1;
    let rows = vec![LogResult::new(
        "weekly".to_string(),
        "disk full".to_string(),
        "/a".to_string(),
        "/b".to_string(),
    )];
    let block = fallback_block(&log, &rows, "db unreachable");
    let expected = "=== Cron job failed at 01-02-2024 10:00 ===\n\
                    Status: failed\n\
                    Success count: 0\n\
                    Failed count: 1\n\
                    Error: db unreachable\n\
                    [weekly] disk full | From: /a -> /b\n\
                    ----------------------------\n";
    assert_eq!(block, expected);
}

#[test]
fn attach_results_groups_rows_by_report_id() {
    let mut first = Log::new("a".to_string());
    first.id = Some(1);
    let mut second = Log::new("b".to_string());
    second.id = Some(2);
    let mut third = Log::new("c".to_string());
    third.id = Some(3);

    let mut row_a = outcome("OK");
    row_a.log_id = Some(1);
    let mut row_b = outcome("boom");
    row_b.log_id = Some(2);
    let mut row_c = outcome("OK");
    row_c.log_id = Some(1);
    let rows = vec![row_a, row_b, row_c];

    let attached = syncrab::report::attach_results(vec![first, second, third], &rows);
    assert_eq!(attached.len(), 3);
    let first_rows = attached[0].log_results.as_ref().expect("rows for report 1");
    assert_eq!(first_rows.len(), 2);
    assert_eq!(first_rows[0].message, "OK");
    assert_eq!(first_rows[1].message, "OK");
    let second_rows = attached[1].log_results.as_ref().expect("rows for report 2");
    assert_eq!(second_rows.len(), 1);
    assert_eq!(second_rows[0].message, "boom");
    assert!(attached[2].log_results.is_none());
}

#[test]
fn job_row_cells_by_frequency() {
    let j = job(7, "daily", 5, None, 1);
    let cells = j.get_fields_data();
    assert_eq!(cells, vec!["7", "/src/7", "/tgt/7", "05", "✅"]);

    let w = job(12, "weekly", 23, Some("Fri"), 0);
    let cells = w.get_fields_data();
    assert_eq!(cells, vec!["12", "/src/12", "/tgt/12", "23", "Fri", "❌"]);

    let r = job(340, "realtime", 0, None, 1);
    let cells = r.get_fields_data();
    assert_eq!(cells, vec!["340", "/src/340", "/tgt/340", "✅"]);
}

#[test]
fn log_and_result_row_cells() {
    let mut log = Log::new("s".to_string());
    log.id = Some(4);
    log.endstamp = "e".to_string();
    log.status = "success".to_string();
    log.success_count = 10;
    log.failed_count = 0;
    assert_eq!(log.get_fields_data(), vec!["4", "s", "e", "success", "10", "0"]);

    let row = LogResult::new(
        "daily".to_string(),
        "OK".to_string(),
        "/s".to_string(),
        "/t".to_string(),
    );
    assert_eq!(row.get_fields_data(), vec!["daily", "/s", "/t", "OK"]);
}

#[test]
fn new_records_start_blank() {
    let j = Job::new("daily".to_string());
    assert_eq!(j.id, None);
    assert_eq!(j.frequency, "daily");
    assert_eq!(j.source, "");
    assert_eq!(j.active, 0);
    assert_eq!(j.mirror, 1);

    let s = Stat::new("Daily Backups");
    assert_eq!(s.name, "Daily Backups");
    assert_eq!(s.count, 0);

    let l = Log::new("now".to_string());
    assert_eq!(l.startstamp, "now");
    assert_eq!(l.status, "");
    assert_eq!(l.log_results.is_none(), true);
}
