use yapper::history::{
    file_text, history_path_in, mm_ss, unique_id, unique_id_at, unix_micros, Entry, History,
};
use yapper::lines::{nonblank_lines, read_lines};
use yapper::moment::{
    calendar_days_between, count_days, describe, plural, relative_time, relative_time_at, Moment,
};

fn entry(id: i64, text: &str) -> Entry<f32> {
    Entry {
        id,
        text: text.to_string(),
        duration_secs: 1.0,
    }
}

fn duration_label(entry: &Entry<f32>) -> String {
    mm_ss(entry.duration_secs.round() as u32)
}

#[test]
fn summary_takes_the_first_line() {
    assert_eq!(entry(1, "hello\nworld").summary(), "hello");
    assert_eq!(entry(1, "").summary(), "");
}

#[test]
fn duration_is_minutes_and_seconds() {
    let mut e = entry(1, "x");
    e.duration_secs = 75.4;
    assert_eq!(duration_label(&e), "1:15");
    e.duration_secs = 4.0;
    assert_eq!(duration_label(&e), "0:04");
}

#[test]
fn ids_stay_unique_when_the_clock_stands_still() {
    let first = unique_id(None);
    let second = unique_id(Some(first));
    assert!(second > first);
    // A clock that jumped backwards must not produce a duplicate either.
    assert!(unique_id(Some(i64::MAX - 1)) > i64::MAX - 1);
}

/// Days since the start of 1970, by counting them.
fn days_since_epoch(year: i64, month: i64, day: i64) -> i64 {
    let leap = |year: i64| year % 4 == 0 && (year % 100 != 0 || year % 400 == 0);
    let lengths = |year: i64| {
        [31, if leap(year) { 29 } else { 28 }, 31, 30, 31, 30, 31, 31, 30, 31, 30, 31]
    };
    let mut days = day - 1;
    for past in 1970..year {
        days += lengths(past).iter().sum::<i64>();
    }
    for past in 0..(month - 1) as usize {
        days += lengths(year)[past];
    }
    days
}

fn at(spec: &str) -> Moment {
    let parts: Vec<i64> = spec
        .split(['-', ' ', ':'])
        .map(|p| p.parse().unwrap())
        .collect();
    let seconds =
        days_since_epoch(parts[0], parts[1], parts[2]) * 86_400 + parts[3] * 3_600 + parts[4] * 60;
    let months = [
        "Jan", "Feb", "Mar", "Apr", "May", "Jun", "Jul", "Aug", "Sep", "Oct", "Nov", "Dec",
    ];
    Moment {
        micros: seconds * 1_000_000,
        year: parts[0] as i32,
        month: parts[1] as i32,
        day: parts[2] as i32,
        time_of_day: Some(format!("{:02}:{:02}", parts[3], parts[4])),
        date: Some(format!("{:>2} {} {}", parts[2], months[(parts[1] - 1) as usize], parts[0])),
    }
}

#[test]
fn relative_times_read_the_way_a_person_would_say_them() {
    let now = at("2026-09-15 09:00");
    assert_eq!(describe(&at("2026-09-15 09:00"), &now), "just now");
    assert_eq!(describe(&at("2026-09-15 08:59"), &now), "1 minute ago");
    assert_eq!(describe(&at("2026-09-15 08:48"), &now), "12 minutes ago");
    assert_eq!(describe(&at("2026-09-15 07:55"), &now), "1 hour ago");
    assert_eq!(describe(&at("2026-09-15 03:00"), &now), "6 hours ago");
    // Ten hours earlier, but a different calendar day.
    assert_eq!(describe(&at("2026-09-14 23:00"), &now), "Yesterday 23:00");
    assert_eq!(describe(&at("2026-09-12 10:00"), &now), "3 days ago");
    assert_eq!(describe(&at("2026-08-15 10:00"), &now), "15 Aug 2026");
}

#[test]
fn relative_times_at_the_edges() {
    let now = at("2026-09-15 09:00");
    let mut then = at("2026-09-15 09:00");
    then.micros = now.micros - 44_999_999;
    assert_eq!(describe(&then, &now), "just now");
    // Not yet a minute, but no longer now.
    then.micros = now.micros - 45_000_000;
    assert_eq!(describe(&then, &now), "1 minute ago");
    then.micros = now.micros - 59 * 60_000_000;
    assert_eq!(describe(&then, &now), "59 minutes ago");
    then.micros = now.micros - 60 * 60_000_000;
    assert_eq!(describe(&then, &now), "1 hour ago");
    // A clock that has been set back.
    then.micros = now.micros + 3_600_000_000;
    assert_eq!(describe(&then, &now), "just now");
    assert_eq!(describe(&at("2026-09-17 10:00"), &now), "-2 days ago");
    assert_eq!(describe(&at("2026-09-09 10:00"), &now), "6 days ago");
    assert_eq!(describe(&at("2026-09-08 10:00"), &now), "8 Sep 2026");
    // Over the end of a February.
    assert_eq!(describe(&at("2024-02-28 10:00"), &at("2024-03-01 09:00")), "2 days ago");
    assert_eq!(describe(&at("2023-02-28 10:00"), &at("2023-03-01 09:00")), "Yesterday 10:00");
    assert_eq!(describe(&at("2025-12-31 23:59"), &at("2026-01-01 00:00")), "Yesterday 23:59");
}

#[test]
fn a_moment_nobody_can_place_is_not_described() {
    let now = at("2026-09-15 09:00");
    assert_eq!(relative_time_at(None, &now), "");
    assert_eq!(relative_time_at(Some(&now), &now), "just now");
    assert_eq!(relative_time(Some(&now), None), "");
    assert_eq!(relative_time(None, Some(&now)), "");
    assert_eq!(relative_time(Some(&at("2026-09-14 23:00")), Some(&now)), "Yesterday 23:00");
    let mut wordless = at("2026-09-14 23:00");
    wordless.time_of_day = None;
    assert_eq!(describe(&wordless, &now), "Yesterday ");
    let mut dateless = at("2020-01-01 00:00");
    dateless.date = None;
    assert_eq!(describe(&dateless, &now), "");
}

#[test]
fn days_are_counted_by_the_calendar() {
    let mut earlier = at("1970-01-01 00:00");
    let start = count_days(&earlier);
    for spec in ["1972-02-29 12:00", "1999-12-31 23:59", "2000-03-01 00:00", "2100-03-01 01:00"] {
        let later = at(spec);
        let parts: Vec<i64> = spec.split(['-', ' ', ':']).map(|p| p.parse().unwrap()).collect();
        let days = days_since_epoch(parts[0], parts[1], parts[2]);
        assert_eq!(count_days(&later) - start, days, "{spec}");
        assert_eq!(
            calendar_days_between(&earlier, &later),
            count_days(&later) - count_days(&earlier)
        );
        earlier = later;
    }
    let first = Moment { micros: 0, year: 1, month: 1, day: 1, time_of_day: None, date: None };
    assert_eq!(count_days(&first), 1);
    let last = Moment { micros: 0, year: 9999, month: 12, day: 31, time_of_day: None, date: None };
    assert_eq!(count_days(&last), 3_652_059);
}

#[test]
fn one_is_the_only_singular() {
    assert_eq!(plural(1i64), "");
    assert_eq!(plural(0i64), "s");
    assert_eq!(plural(-1i64), "s");
    assert_eq!(plural(2u32), "s");
    assert_eq!(plural(1u8), "");
}

#[test]
fn recorded_at_converts_micros_to_seconds() {
    assert_eq!(entry(1_700_000_000_000_123, "x").recorded_at(), 1_700_000_000);
}

#[test]
fn seconds_are_rounded_towards_the_epoch() {
    assert_eq!(entry(-1, "x").recorded_at(), 0);
    assert_eq!(entry(-1_000_001, "x").recorded_at(), -1);
    assert_eq!(entry(999_999, "x").recorded_at(), 0);
}

#[test]
fn clocks_show_two_digits_of_seconds() {
    assert_eq!(mm_ss(0), "0:00");
    assert_eq!(mm_ss(65), "1:05");
    assert_eq!(mm_ss(3_600), "60:00");
    assert_eq!(mm_ss(u32::MAX), "71582788:15");
}

#[test]
fn ids_follow_the_clock_or_the_entry_before() {
    assert_eq!(unique_id_at(None, 7), 7);
    assert_eq!(unique_id_at(Some(6), 7), 7);
    assert_eq!(unique_id_at(Some(7), 7), 8);
    assert_eq!(unique_id_at(Some(100), 7), 101);
}

/// An entry as one line.
fn encode(entry: &Entry<f32>) -> String {
    serde_json::to_string(&(entry.id, &entry.text, entry.duration_secs)).unwrap()
}

fn decode(line: &str) -> Option<Entry<f32>> {
    let (id, text, duration_secs) = serde_json::from_str(line).ok()?;
    Some(Entry { id, text, duration_secs })
}

/// What the history file would hold.
fn save(history: &History<f32>) -> String {
    let encoded: Vec<String> = history.entries().iter().map(encode).collect();
    file_text(&encoded)
}

/// Read it back.
fn load(text: &str, limit: usize) -> History<f32> {
    let parsed = nonblank_lines(text).iter().map(|line| decode(line)).collect();
    History::load(parsed, limit)
}

#[test]
fn entries_survive_a_reload_and_a_delete() {
    let mut history = load("", 10);
    let first = history.add("hello".into(), 1.0);
    let second = history.add("world".into(), 2.0);

    let reloaded = load(&save(&history), 10);
    assert_eq!(reloaded.entries().len(), 2);
    // Newest first, which is the order the list shows.
    assert_eq!(reloaded.entries()[0].id, second);
    assert_eq!(reloaded.entries()[0].text, "world");
    assert_eq!(reloaded.entries()[0].duration_secs, 2.0);
    assert_eq!(reloaded.entries()[1].id, first);

    let mut history = reloaded;
    assert!(history.remove(first));
    assert!(!history.remove(first), "deleting twice is a no-op");

    let reloaded = load(&save(&history), 10);
    assert_eq!(reloaded.entries().len(), 1);
    assert_eq!(reloaded.entries()[0].id, second);
}

#[test]
fn the_limit_drops_the_oldest() {
    let mut history = load("", 2);
    history.add("one".into(), 1.0);
    history.add("two".into(), 1.0);
    history.add("three".into(), 1.0);

    let reloaded = load(&save(&history), 2);
    let texts: Vec<&str> = reloaded
        .entries()
        .iter()
        .map(|entry| entry.text.as_str())
        .collect();
    assert_eq!(texts, ["three", "two"]);
}

#[test]
fn a_damaged_line_costs_only_that_entry() {
    let mut history = load("", 10);
    history.add("kept".into(), 1.0);
    history.add("also kept".into(), 1.0);

    let mut raw = save(&history);
    raw.push_str("{ this is not json\n");

    let reloaded = load(&raw, 10);
    assert_eq!(reloaded.entries().len(), 2);
}

#[test]
fn a_missing_file_is_an_empty_history() {
    assert!(History::<f32>::load(Vec::new(), 10).entries().is_empty());
}

#[test]
fn a_file_in_any_order_loads_newest_first() {
    let parsed = vec![Some(entry(3, "c")), None, Some(entry(9, "d")), Some(entry(3, "e")), Some(entry(1, "a"))];
    let history = History::load(parsed, 3);
    let texts: Vec<&str> = history.entries().iter().map(|entry| entry.text.as_str()).collect();
    // Of two with one id, the one that came first stays first.
    assert_eq!(texts, ["d", "c", "e"]);
    assert_eq!(history.limit, 3);
}

#[test]
fn the_file_reads_chronologically() {
    let mut history = load("", 10);
    history.add_at("first".into(), 1.0, 5);
    history.add_at("second".into(), 1.5, 5);
    assert_eq!(save(&history), "[5,\"first\",1.0]\n[6,\"second\",1.5]\n");
    assert_eq!(file_text(&[]), "");
    assert_eq!(history_path_in(b"/home/you/.local/state"), b"/home/you/.local/state/yapper/history.jsonl");
}

#[test]
fn there_may_be_no_room_at_all() {
    let mut history = load("", 0);
    assert_eq!(history.add_at("gone".into(), 1.0, 5), 5);
    assert!(history.entries().is_empty());
}

#[test]
fn deleting_takes_every_entry_of_that_id_and_no_other() {
    let parsed = vec![Some(entry(3, "c")), Some(entry(9, "d")), Some(entry(3, "e")), Some(entry(1, "a"))];
    let mut history = History::load(parsed, 10);
    assert!(!history.remove(4));
    assert!(history.remove(3));
    let ids: Vec<i64> = history.entries().iter().map(|entry| entry.id).collect();
    assert_eq!(ids, [9, 1]);
}

#[test]
fn a_clock_set_before_the_epoch_reads_zero() {
    assert_eq!(unix_micros(None), 0);
    assert_eq!(unix_micros(Some(0)), 0);
    assert_eq!(unix_micros(Some(1_700_000_000_000_000)), 1_700_000_000_000_000);
    assert_eq!(unix_micros(Some(i64::MAX as u128)), i64::MAX);
    assert_eq!(unix_micros(Some(i64::MAX as u128 + 1)), i64::MIN);
    assert_eq!(unix_micros(Some(u64::MAX as u128)), -1);
    assert_eq!(unix_micros(Some(u64::MAX as u128 + 8)), 7);
}

#[test]
fn a_new_entry_is_stamped_by_the_clock() {
    let before = std::time::SystemTime::now()
        .duration_since(std::time::UNIX_EPOCH)
        .unwrap()
        .as_micros() as i64;
    let id = unique_id(None);
    assert!(before <= id && id < before + 60_000_000, "{before} {id}");
}

/// Read a file back by its bytes.
fn load_bytes(bytes: &[u8], limit: usize) -> History<f32> {
    let parsed = read_lines(bytes)
        .iter()
        .map(|line| line.as_deref().and_then(decode))
        .collect();
    History::load(parsed, limit)
}

#[test]
fn any_number_of_damaged_lines_cost_only_themselves() {
    let mut history = load("", 10);
    history.add_at("gr\u{fc}n \u{2192} rot".into(), 1.0, 5);
    history.add_at("also kept".into(), 2.0, 6);
    let saved = save(&history);
    let mut lines = saved.split_inclusive('\n');

    let mut raw: Vec<u8> = Vec::new();
    raw.extend_from_slice(b"\xff\xfe not text\n\n{ not json\r\n");
    raw.extend_from_slice(lines.next().unwrap().as_bytes());
    raw.extend_from_slice(b" \t\n\xc3\n");
    raw.extend_from_slice(lines.next().unwrap().as_bytes());
    raw.extend_from_slice(b"[7, \"cut sho");

    let reloaded = load_bytes(&raw, 10);
    let texts: Vec<&str> = reloaded.entries().iter().map(|entry| entry.text.as_str()).collect();
    assert_eq!(texts, ["also kept", "gr\u{fc}n \u{2192} rot"]);
    // What is text reads the same either way.
    assert_eq!(save(&load_bytes(saved.as_bytes(), 10)), save(&load(&saved, 10)));
}

#[test]
fn a_moment_is_a_date_there_is() {
    let with = |year, month, day| Moment { year, month, day, ..at("2024-05-05 12:00:00") };
    assert!(with(2024, 2, 29).is_valid());
    assert!(!with(2023, 2, 29).is_valid());
    assert!(!with(2024, 4, 31).is_valid());
    assert!(!with(2024, 13, 1).is_valid());
    assert!(!with(2024, 0, 1).is_valid());
    assert!(!with(0, 1, 1).is_valid());
    assert!(with(9999, 12, 31).is_valid());
    assert!(!Moment { micros: i64::MAX, ..with(2024, 1, 1) }.is_valid());
}
