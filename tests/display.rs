use efficacy::due::{describe_due, format_due_date, Tone};
use efficacy::objects::{Task, TaskState, Timestamp};
use efficacy::program::Efficacy;
use efficacy::settings::Settings;
use efficacy::state::{bootstrap_steps, Bootstrap, State};
use efficacy::task_text::{format_task, format_task_spotlight};

fn s(text: &str) -> String {
    String::from(text)
}

fn strip(text: &str) -> String {
    let mut out = String::new();
    let mut chars = text.chars();
    while let Some(c) = chars.next() {
        if c == '\x1b' {
            for d in chars.by_ref() {
                if d == 'm' {
                    break;
                }
            }
        } else {
            out.push(c);
        }
    }
    out
}

const NOW: Timestamp = Timestamp { seconds: 1_700_000_000, nanoseconds: 500 };

fn later(seconds: i64) -> Timestamp {
    Timestamp { seconds: NOW.seconds + seconds, nanoseconds: NOW.nanoseconds }
}

const MINUTE: i64 = 60;
const HOUR: i64 = 3600;
const DAY: i64 = 86400;
const WEEK: i64 = 7 * DAY;

fn described(seconds: i64) -> (String, Tone, bool) {
    let d = describe_due(later(seconds), NOW);
    (d.text, d.tone, d.overdue)
}

#[test]
fn due_spans_in_words() {
    assert_eq!(described(0), (s("0 seconds"), Tone::Red, false));
    assert_eq!(described(1), (s("1 second"), Tone::Red, false));
    assert_eq!(described(59), (s("59 seconds"), Tone::Red, false));
    assert_eq!(described(90), (s("1 minute"), Tone::Red, false));
    assert_eq!(described(5 * HOUR + 10), (s("5 hours"), Tone::Red, false));
    assert_eq!(described(DAY + HOUR), (s("1 day"), Tone::Red, false));
    assert_eq!(described(-(2 * DAY + 5 * HOUR)), (s("2 days"), Tone::BrightRed, true));
    assert_eq!(described(10 * DAY), (s("10 days"), Tone::BrightRed, false));
    assert_eq!(described(30 * DAY), (s("1 month"), Tone::Plain, false));
    assert_eq!(described(20 * WEEK), (s("5 months"), Tone::Plain, false));
    assert_eq!(described(60 * WEEK), (s("1 year"), Tone::Plain, false));
    assert_eq!(described(-(200 * WEEK)), (s("3 years"), Tone::Plain, true));
}

#[test]
fn due_span_just_under_a_second_ahead() {
    let due = Timestamp { seconds: NOW.seconds + 1, nanoseconds: 0 };
    let d = describe_due(due, NOW);
    assert_eq!(d.text, "0 seconds");
    assert!(!d.overdue);
}

#[test]
fn due_date_text() {
    assert_eq!(strip(&format_due_date(later(3 * HOUR), NOW)), "3 hours");
    assert_eq!(strip(&format_due_date(later(-3 * WEEK), NOW)), "21 days");
    assert_eq!(format_due_date(later(100 * WEEK), NOW), "1 year");
}

#[test]
fn task_lines() {
    let mut task = Task::new(s("Write"), Some(s("Work")), None, None);
    assert_eq!(strip(&format_task(&s("%b %d (%i)"), &task, 3, NOW)), "[ ] Write (#3)");
    assert_eq!(strip(&format_task(&s("%b %d -> %D"), &task, 3, NOW)), "[ ] Write ");
    task.due = Some(later(2 * DAY + 1));
    assert_eq!(strip(&format_task(&s("%b %d -> %D"), &task, 3, NOW)), "[ ] Write -> 2 days");
    task.state = efficacy::objects::TaskState::Done;
    assert_eq!(strip(&format_task(&s("%b %d %i"), &task, 12, NOW)), "[X] Write #12");
    assert_eq!(strip(&format_task(&s("%d %d"), &task, 0, NOW)), "Write Write");
}

#[test]
fn spotlight_view() {
    let task = Task::new(s("Write"), Some(s("Work")), None, None);
    assert_eq!(
        strip(&format_task_spotlight(&task, 3, NOW, &s("unused"))),
        "\n[ ] Write\nDue: None\ncategory: Work\nid: #3\n\nNo information.\n"
    );
    let detailed = Task::new(s("Call"), None, Some(s("ask about it")), Some(later(-90)));
    assert_eq!(
        strip(&format_task_spotlight(&detailed, 0, NOW, &s("2023-11-14 22:12"))),
        "\n[ ] Call\nDue: 1 minute (2023-11-14 22:12)\ncategory: None\nid: #0\n\nask about it\n"
    );
}

fn manager() -> Efficacy {
    let settings = Settings::new(s("/c"), s("/d"), s("/d"), true, s("%b %d %i"));
    Efficacy::init(settings, State::new(vec![s("work.json"), s("alpha.json")]))
}

#[test]
fn listing_orders_categories_and_tasks() {
    let mut eff = manager();
    assert_eq!(strip(&eff.list(NOW)), "No tasks!");
    eff.add_task(s("a"), Some(s("Work")), None, None);
    eff.add_task(s("b"), None, None, None);
    eff.add_task(s("c"), None, None, None);
    eff.complete_task(1).unwrap();
    assert_eq!(
        strip(&eff.list(NOW)),
        "\nNo category: 2 tasks\n[ ] c #2\n[X] b #1\n\nWork: 1 tasks\n[ ] a #0\n"
    );
    assert_eq!(eff.list_task(5, NOW, &s("")), None);
    assert_eq!(
        strip(&eff.list_task(0, NOW, &s("")).unwrap()),
        "\n[ ] a\nDue: None\ncategory: Work\nid: #0\n\nNo information.\n"
    );
}

#[test]
fn listing_contexts() {
    let eff = manager();
    assert_eq!(strip(&eff.list_contexts()), "\nalpha\n~default~\nwork\n");
}

#[test]
fn bootstrap_plans() {
    let all = |a, b, c, d| Bootstrap { create_dir: a, create_marker: b, create_default_file: c, load_existing: d };
    assert_eq!(bootstrap_steps(false, false, false), all(true, true, true, false));
    assert_eq!(bootstrap_steps(true, false, true), all(false, true, true, false));
    assert_eq!(bootstrap_steps(true, true, false), all(false, false, true, false));
    assert_eq!(bootstrap_steps(true, true, true), all(false, false, false, true));
}

#[test]
fn format_objects() {
    let task = Task {
        description: String::from("Add classes to calendar"),
        state: TaskState::Done,
        category: Option::Some(String::from("School")),
        information: None,
        due: None,
    };
    let task_fmt_string = String::from("%b %d (#%i)");
    let line = format_task(&task_fmt_string, &task, 1, NOW);
    assert_eq!(strip(&line), "[X] Add classes to calendar (##1)");
}

#[test]
fn due_span_across_a_leap_second() {
    let leap = Timestamp { seconds: NOW.seconds, nanoseconds: 1_500_000_000 };
    let d = describe_due(leap, NOW);
    assert_eq!(d.text, "1 second");
    assert!(!d.overdue);
    let d = describe_due(NOW, leap);
    assert_eq!(d.text, "1 second");
    assert!(d.overdue);
    assert_eq!(strip(&format_due_date(later(-3 * HOUR), NOW)), "3 hours");
}
