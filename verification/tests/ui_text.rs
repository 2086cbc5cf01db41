use syncrab::digits::{u16_to_string, u16_to_string_padded};
use syncrab::query::{capitalise, get_active_jobs, get_active_logs, get_stats};
use syncrab::structs::{Job, Log};
use syncrab::ui::{filter_suggestions, Component, Filter, InputField, Modal};
use syncrab::wrap::into_lines;

fn job(id: u16, source: &str, target: &str, active: u8) -> Job {
    Job {
        id: Some(id),
        source: source.to_string(),
        target: target.to_string(),
        frequency: "daily".to_string(),
        hour: 0,
        day: None,
        mirror: 1,
        active,
    }
}

#[test]
fn filter_cycles_through_all_active_inactive() {
    assert_eq!(Filter::All.next(), Filter::Active);
    assert_eq!(Filter::Active.next(), Filter::Inactive);
    assert_eq!(Filter::Inactive.next(), Filter::All);
    assert_eq!(Filter::default(), Filter::All);
}

#[test]
fn filter_tokens_parse_with_surrounding_whitespace_ignored() {
    assert_eq!(Filter::from_str("all"), Ok(Filter::All));
    assert_eq!(Filter::from_str("  active  "), Ok(Filter::Active));
    assert_eq!(Filter::from_str("inactive"), Ok(Filter::Inactive));
    let err = Filter::from_str(" bogus ").unwrap_err();
    assert_eq!(err, "Could not parse the value [bogus] to the enum Filter");
    assert!(Filter::from_str("").is_err());
}

#[test]
fn component_tokens_round_trip() {
    let all = [
        Component::Source,
        Component::Target,
        Component::Hour,
        Component::Day,
        Component::Daily,
        Component::Weekly,
        Component::RealTime,
        Component::ToReplace,
        Component::ReplaceWith,
    ];
    for c in all {
        assert_eq!(Component::from_str(c.to_str()), c);
    }
    assert_eq!(Component::Search.to_str(), "search");
    assert_eq!(Component::Journal.to_str(), "journal");
    assert_eq!(Component::Log.to_str(), "log");
}

#[test]
fn component_classification() {
    assert!(Component::Search.is_field());
    assert!(Component::Source.is_field());
    assert!(!Component::Daily.is_field());
    assert!(Component::Daily.is_table());
    assert!(Component::Journal.is_table());
    assert!(!Component::Hour.is_table());
    assert!(Component::Source.is_listable());
    assert!(!Component::Hour.is_listable());
}

#[test]
fn form_focus_order_depends_on_frequency() {
    assert_eq!(Component::Source.next(Some(Component::Daily)), Component::Target);
    assert_eq!(Component::Target.next(Some(Component::Daily)), Component::Hour);
    assert_eq!(Component::Hour.next(Some(Component::Daily)), Component::Source);
    assert_eq!(Component::Target.next(Some(Component::RealTime)), Component::Source);
    assert_eq!(Component::Hour.next(Some(Component::Weekly)), Component::Day);
    assert_eq!(Component::Day.next(Some(Component::Weekly)), Component::Source);
    assert_eq!(Component::ToReplace.next(None), Component::ReplaceWith);
    assert_eq!(Component::Source.previous(Some(Component::Daily)), Component::Hour);
    assert_eq!(Component::Day.previous(Some(Component::Weekly)), Component::Hour);
    assert_eq!(Component::Search.next(None), Component::Search);
    let _ = Modal::Job;
}

#[test]
fn input_field_insert_and_cursor() {
    let mut f = InputField::default();
    f.insert_char('a');
    f.insert_char('b');
    assert_eq!(f.value, "ab");
    assert_eq!(f.index, 2);
    f.move_cursor_left();
    f.insert_char('x');
    assert_eq!(f.value, "axb");
    assert_eq!(f.index, 2);
    f.move_cursor_right();
    assert_eq!(f.index, 3);
    f.move_cursor_right();
    assert_eq!(f.index, 3);
}

#[test]
fn input_field_deletes_around_the_cursor() {
    let mut f = InputField::default();
    for c in "abcd".chars() {
        f.insert_char(c);
    }
    f.move_cursor_left();
    f.delete_prev_char();
    assert_eq!(f.value, "abd");
    assert_eq!(f.index, 2);
    f.delete_next_char();
    assert_eq!(f.value, "ab");
    assert_eq!(f.index, 2);
    f.delete_next_char();
    assert_eq!(f.value, "ab");
}

#[test]
fn input_field_deletes_the_previous_word() {
    let mut f = InputField::default();
    for c in "/home/user/docs".chars() {
        f.insert_char(c);
    }
    f.delete_prev_word();
    assert_eq!(f.value, "/home/user");
    assert_eq!(f.index, 10);
    f.delete_prev_word();
    assert_eq!(f.value, "/home");
}

#[test]
fn input_field_byte_index_counts_utf8_bytes() {
    let mut f = InputField::default();
    f.insert_char('é');
    f.insert_char('x');
    assert_eq!(f.byte_index(), 3);
    f.move_cursor_left();
    assert_eq!(f.byte_index(), 2);
    f.move_cursor_left();
    assert_eq!(f.byte_index(), 0);
}

#[test]
fn input_field_paste_inserts_at_the_cursor() {
    let mut f = InputField::default();
    for c in "ad".chars() {
        f.insert_char(c);
    }
    f.move_cursor_left();
    f.insert_paste("bc");
    assert_eq!(f.value, "abcd");
    assert_eq!(f.index, 3);
}

#[test]
fn suggestions_filter_by_case_folded_file_name() {
    let candidates = vec![
        ("Docs".to_string(), "/home/u/Docs".to_string()),
        ("music".to_string(), "/home/u/music".to_string()),
        ("Downloads".to_string(), "/home/u/Downloads".to_string()),
    ];
    let hits = filter_suggestions(&candidates, "do");
    let paths: Vec<&str> = hits.iter().map(|c| c.1.as_str()).collect();
    assert_eq!(paths, vec!["/home/u/Docs", "/home/u/Downloads"]);
}

#[test]
fn capitalise_upcases_the_first_letter_and_downcases_the_rest() {
    assert_eq!(capitalise("abC"), "Abc");
    assert_eq!(capitalise("WEEKLY"), "Weekly");
    assert_eq!(capitalise("x"), "X");
}

#[test]
fn stats_count_active_and_inactive_jobs() {
    let jobs = vec![
        job(1, "/a", "/b", 1),
        job(2, "/c", "/d", 0),
        job(3, "/e", "/f", 1),
    ];
    let s = get_stats("Daily Backups", &jobs);
    assert_eq!(s.name, "Daily Backups");
    assert_eq!(s.count, 3);
    assert_eq!(s.active_count, 2);
    assert_eq!(s.inactive_count, 1);
}

#[test]
fn job_search_is_case_folded_and_respects_the_filter() {
    let jobs = vec![
        job(1, "/home/Music", "/bak", 1),
        job(2, "/home/docs", "/bak", 0),
        job(3, "/var/data", "/bak", 1),
    ];
    let all = get_active_jobs("", &Filter::All, &jobs);
    assert_eq!(all.len(), 3);

    let hits = get_active_jobs("music", &Filter::All, &jobs);
    assert_eq!(hits.len(), 1);
    assert_eq!(hits[0].id, Some(1));

    let active_only = get_active_jobs("home", &Filter::Active, &jobs);
    assert_eq!(active_only.len(), 1);
    assert_eq!(active_only[0].id, Some(1));

    let by_id = get_active_jobs("3", &Filter::All, &jobs);
    assert_eq!(by_id.len(), 1);
    assert_eq!(by_id[0].id, Some(3));
}

#[test]
fn log_search_matches_stamps_status_and_counts() {
    let mut a = Log::new("01-01-2024 10:00".to_string());
    a.id = Some(1);
    a.status = "Success".to_string();
    a.success_count = 4;
    let mut b = Log::new("02-01-2024 11:00".to_string());
    b.id = Some(2);
    b.status = "failed".to_string();
    b.failed_count = 9;
    let logs = vec![a, b];

    assert_eq!(get_active_logs("", &logs).len(), 2);
    let by_status = get_active_logs("success", &logs);
    assert_eq!(by_status.len(), 1);
    assert_eq!(by_status[0].id, Some(1));
    let by_count = get_active_logs("9", &logs);
    assert_eq!(by_count.len(), 1);
    assert_eq!(by_count[0].id, Some(2));
}

#[test]
fn single_word_messages_come_back_untouched() {
    assert_eq!(into_lines("hello".to_string()), (1, "hello".to_string()));
    assert_eq!(into_lines("  hello  ".to_string()), (1, "  hello  ".to_string()));
}

#[test]
fn messages_wrap_after_five_words() {
    let (n, text) = into_lines("one two three four five six seven".to_string());
    assert_eq!(n, 2);
    assert_eq!(text, "one two three four five\nsix seven");
}

#[test]
fn messages_wrap_before_exceeding_thirty_two_bytes() {
    let (n, text) = into_lines("aaaaaaaaaaaaaaaa bbbbbbbbbbbbbbbb cc".to_string());
    assert_eq!(n, 2);
    assert_eq!(text, "aaaaaaaaaaaaaaaa\nbbbbbbbbbbbbbbbb cc");
}

#[test]
fn empty_message_yields_no_lines() {
    assert_eq!(into_lines(String::new()), (0, String::new()));
    assert_eq!(into_lines("   ".to_string()), (0, String::new()));
}

#[test]
fn an_oversized_word_forces_its_own_line() {
    let long = "cccccccccccccccccccccccccccccccccccc";
    let (n, text) = into_lines(format!("{long} dd"));
    assert_eq!(n, 3);
    assert_eq!(text, format!("\n{long}\ndd"));
}

#[test]
fn decimal_rendering_of_counters() {
    assert_eq!(u16_to_string(0), "0");
    assert_eq!(u16_to_string(7), "7");
    assert_eq!(u16_to_string(65535), "65535");
    assert_eq!(u16_to_string_padded(5), "05");
    assert_eq!(u16_to_string_padded(23), "23");
}
