use mellow_ui::lyrics::{
    checked_timestamp, current_line_index, label_text, lines_from_entries, lrc_entries,
    sort_by_timestamp, time_tag_fields, LineChange, LrcEntry, LyricLine, LyricsPage,
};

fn line(timestamp: u64, text: &str) -> LyricLine {
    LyricLine { timestamp, text: text.to_string() }
}

fn entry(minutes: u64, seconds: &str, text: &str) -> LrcEntry {
    LrcEntry { minutes, seconds: seconds.to_string(), text: text.to_string() }
}

fn view(es: &[LrcEntry]) -> Vec<(u64, String, String)> {
    es.iter().map(|e| (e.minutes, e.seconds.clone(), e.text.clone())).collect()
}

fn own(minutes: u64, seconds: &str, text: &str) -> (u64, String, String) {
    (minutes, seconds.to_string(), text.to_string())
}

#[test]
fn entries_of_well_formed_tags() {
    let raw = "[00:12.34]Hello\n[01:02.5]  World  \r\n[00:01]\n";
    let es = lrc_entries(raw);
    assert_eq!(
        view(&es),
        vec![own(0, "12.34", "Hello"), own(1, "02.5", "World"), own(0, "01", "")]
    );
}

#[test]
fn entries_skip_lines_that_are_not_tagged() {
    let raw = "plain text\n[ab:12]bad minutes\n[1:2:3]two colons\n[0012]no colon\n[00:05 no bracket\n";
    assert!(lrc_entries(raw).is_empty());
}

#[test]
fn entries_read_minutes_as_u64_from_str_does() {
    let es = lrc_entries("[+3:4]plus\n[-3:4]minus\n[18446744073709551615:0]max\n[18446744073709551616:0]over");
    assert_eq!(view(&es), vec![own(3, "4", "plus"), own(u64::MAX, "0", "max")]);
}

#[test]
fn entries_text_is_after_first_bracket_and_trimmed() {
    let es = lrc_entries("[00:01]a]b\t\n[00:02]\u{3000}wide\u{a0}");
    assert_eq!(view(&es), vec![own(0, "01", "a]b"), own(0, "02", "wide")]);
}

#[test]
fn entries_follow_str_lines() {
    // a lone carriage return at the end of the last line stays, then is trimmed
    let es = lrc_entries("[00:01]one\r\n\n[00:02]two\r");
    assert_eq!(view(&es), vec![own(0, "01", "one"), own(0, "02", "two")]);
    assert!(lrc_entries("").is_empty());
}

#[test]
fn time_tag_fields_split_minutes_and_seconds() {
    assert_eq!(time_tag_fields("03:15.20"), Some((3, "15.20".to_string())));
    assert_eq!(time_tag_fields(":15"), None);
    assert_eq!(time_tag_fields("3"), None);
    assert_eq!(time_tag_fields("3:4:5"), None);
    assert_eq!(time_tag_fields("3:"), Some((3, String::new())));
}

#[test]
fn timestamps_are_minutes_and_milliseconds() {
    assert_eq!(checked_timestamp(2, 3_500), Some(123_500));
    assert_eq!(checked_timestamp(0, 0), Some(0));
    assert_eq!(checked_timestamp(u64::MAX / 60000, u64::MAX % 60000), Some(u64::MAX));
    assert_eq!(checked_timestamp(u64::MAX / 60000, u64::MAX % 60000 + 1), None);
    assert_eq!(checked_timestamp(u64::MAX, 0), None);
}

#[test]
fn lines_from_entries_sorts_stably_and_drops_unread_seconds() {
    let es = vec![
        entry(1, "00", "b"),
        entry(0, "30", "a"),
        entry(1, "00", "c"),
        entry(0, "xx", "dropped"),
        entry(0, "10", "first"),
    ];
    let ms = vec![Some(0), Some(30_000), Some(0), None, Some(10_000)];
    let lines = lines_from_entries(&es, &ms);
    let got: Vec<(u64, &str)> = lines.iter().map(|l| (l.timestamp, l.text.as_str())).collect();
    assert_eq!(got, vec![(10_000, "first"), (30_000, "a"), (60_000, "b"), (60_000, "c")]);
}

#[test]
fn sorting_keeps_lines_of_one_time_in_order() {
    let lines = vec![line(5, "x"), line(1, "y"), line(5, "z"), line(0, "w"), line(5, "v")];
    let sorted = sort_by_timestamp(lines);
    let got: Vec<(u64, &str)> = sorted.iter().map(|l| (l.timestamp, l.text.as_str())).collect();
    assert_eq!(got, vec![(0, "w"), (1, "y"), (5, "x"), (5, "z"), (5, "v")]);
    assert!(sort_by_timestamp(Vec::new()).is_empty());
}

#[test]
fn current_line_is_last_started_moved_back_over_a_tie() {
    let lines = vec![line(1000, "a"), line(2000, "b"), line(2000, "c"), line(2000, "d"), line(5000, "e")];
    assert_eq!(current_line_index(&lines, 0), None);
    assert_eq!(current_line_index(&lines, 999), None);
    assert_eq!(current_line_index(&lines, 1000), Some(0));
    assert_eq!(current_line_index(&lines, 1999), Some(0));
    // the last started line is index 3; it ties with index 2, one step back only
    assert_eq!(current_line_index(&lines, 2000), Some(2));
    assert_eq!(current_line_index(&lines, 4999), Some(2));
    assert_eq!(current_line_index(&lines, 5000), Some(4));
    assert_eq!(current_line_index(&Vec::new(), 5000), None);
}

#[test]
fn current_line_never_moves_back_as_position_grows() {
    let lines = vec![line(0, "a"), line(0, "b"), line(300, "c"), line(300, "d"), line(900, "e")];
    let mut last = None;
    for pos in 0..1200u64 {
        let now = current_line_index(&lines, pos);
        assert!(now.is_some());
        assert!(last <= now);
        last = now;
    }
}

#[test]
fn page_reports_changes_of_the_shown_line() {
    let mut page = LyricsPage::new();
    assert_eq!(page.update_position(10), None);
    page.set_lines(vec![line(100, "a"), line(200, "b")]);
    assert_eq!(page.current_index, None);
    assert_eq!(page.update_position(50), None);
    assert_eq!(
        page.update_position(150),
        Some(LineChange { previous: None, current: Some(0) })
    );
    assert_eq!(page.update_position(160), None);
    assert_eq!(
        page.update_position(250),
        Some(LineChange { previous: Some(0), current: Some(1) })
    );
    assert_eq!(
        page.update_position(10),
        Some(LineChange { previous: Some(1), current: None })
    );
    assert_eq!(page.current_index, None);
    page.update_position(250);
    page.set_lines(vec![line(0, "x")]);
    assert_eq!(page.current_index, None);
}

#[test]
fn empty_lines_show_as_a_space() {
    assert_eq!(label_text(&line(0, "")), " ");
    assert_eq!(label_text(&line(0, "la la")), "la la");
}

#[test]
fn written_minutes_read_back() {
    for n in [0u64, 9, 10, 99, 100, 12345, u64::MAX] {
        let tag = format!("{}:00", n);
        assert_eq!(time_tag_fields(&tag), Some((n, "00".to_string())));
    }
}
