use efficacy::dates::{calculate_day_difference, string_to_weekday, CliError, Weekday};
use efficacy::errors::EfficacyError;
use efficacy::formatting::{format_category, format_context, format_nothing, valid_task_format};
use efficacy::objects::{Context, Task, TaskState, Timestamp};
use efficacy::program::Efficacy;
use efficacy::registry::{is_valid_context_name, stem_of};
use efficacy::settings::Settings;
use efficacy::state::{ContextDeletion, State};
use std::collections::HashMap;

fn s(text: &str) -> String {
    String::from(text)
}

fn settings() -> Settings {
    Settings::new(s("/home/u/.effconfig"), s("/home/u/.efficacy"), s("/home/u/.efficacy"), true, s("%b %d %i"))
}

fn fresh() -> Efficacy {
    Efficacy::init(settings(), State::new(vec![s("context.json"), s("default.json")]))
}

fn bucket(eff: &Efficacy, name: &str) -> Option<Vec<usize>> {
    eff.state.category_map.get(&s(name)).cloned()
}

fn descriptions(eff: &Efficacy) -> Vec<String> {
    eff.state.task_objects.iter().map(|t| t.description.clone()).collect()
}

fn strip(text: &str) -> String {
    let mut out = String::new();
    let mut chars = text.chars();
    while let Some(c) = chars.next() {
        if c == '\x1b' {
            for d in chars.by_ref() {
                if d == 'm' {
                    break;
                }
            }
        } else {
            out.push(c);
        }
    }
    out
}

#[test]
fn it_works() {
    assert_eq!(2 + 2, 4);
}

#[test]
fn format_string_validation() {
    assert!(valid_task_format(&String::from("%b %d")));
    assert!(!valid_task_format(&String::from("%a %z")));
}

#[test]
fn format_validation_edges() {
    assert!(valid_task_format(&s("")));
    assert!(valid_task_format(&s("%b %d %i -> %D")));
    assert!(valid_task_format(&s("trailing %")));
    assert!(!valid_task_format(&s("%%b")));
}

#[test]
fn test_settings() {
    let settings = settings();
    println!("{:#?}", settings);
}

#[test]
fn settings_fall_back() {
    let st = Settings::new(s("/c"), s("/default"), s("/missing"), false, s("%q"));
    assert_eq!(st.data_file_path, "/default");
    assert_eq!(st.config_file_path, "/c");
    assert_eq!(st.task_format, "%b %d");
    let kept = Settings::new(s("/c"), s("/default"), s("/set"), true, s("%d (%i)"));
    assert_eq!(kept.data_file_path, "/set");
    assert_eq!(kept.task_format, "%d (%i)");
}

#[test]
fn save_and_load() {
    let mut state = State::new(vec![s("context.json"), s("default.json")]);
    let tasks = vec![
        Task {
            description: s("Add classes to calendar"),
            state: TaskState::Done,
            category: Some(s("School")),
            information: Some(String::new()),
            due: None,
        },
        Task::new(s("Study for exam"), Some(s("School")), Some(String::new()), None),
        Task::new(s("Get haircut"), Some(s("Personal")), Some(String::new()), None),
        Task::new(s("Workout"), None, Some(String::new()), None),
    ];
    assert!(state.load_context(Some(Context { context_name: s("default") })).is_ok());
    state.load(Some(tasks));
    assert_eq!(state.task_file(), "default.json");
    assert_eq!(state.task_objects.len(), 4);
    assert_eq!(state.category_map.get(&s("School")), Some(&vec![0, 1]));
    assert_eq!(state.category_map.get(&s("Personal")), Some(&vec![2]));
    assert_eq!(state.category_map.get(&s("No category")), Some(&vec![3]));
    assert_eq!(state.category_map.len(), 3);
    assert_eq!(state.task_objects[0].state, TaskState::Done);
    assert_eq!(state.task_objects[1].state, TaskState::Todo);
}

#[test]
fn load_of_malformed_file_gives_empty_store() {
    let mut eff = fresh();
    eff.add_task(s("a"), None, None, None);
    eff.state.load(None);
    assert!(eff.state.task_objects.is_empty());
    assert_eq!(eff.state.category_map.len(), 0);
}

#[test]
fn load_context_falls_back_to_default() {
    let mut state = State::new(vec![s("work.json")]);
    assert!(state.load_context(None).is_ok());
    assert_eq!(state.current_context.context_name, "default");
    assert_eq!(
        state.load_context(Some(Context { context_name: s("gone") })).unwrap_err(),
        EfficacyError::NonexistentContextError
    );
    assert_eq!(state.current_context.context_name, "default");
    assert!(state.load_context(Some(Context { context_name: s("work") })).is_ok());
    assert_eq!(state.task_file(), "work.json");
}

#[test]
fn add_then_complete_scenario() {
    let mut eff = fresh();
    eff.add_task(s("Buy milk"), None, None, None);
    eff.add_task(s("Finish report"), Some(s("Work")), None, None);
    assert_eq!(eff.complete_task(0), Ok(()));
    assert_eq!(bucket(&eff, "No category"), Some(vec![0]));
    assert_eq!(bucket(&eff, "Work"), Some(vec![1]));
    assert_eq!(eff.state.category_map.len(), 2);
    assert_eq!(eff.state.task_objects[0].state, TaskState::Done);
    assert_eq!(eff.state.task_objects[1].state, TaskState::Todo);
}

#[test]
fn adds_partition_ids() {
    let mut eff = fresh();
    let cats = [None, Some("A"), Some("B"), None, Some("A"), Some("No category")];
    for (i, c) in cats.iter().enumerate() {
        eff.add_task(format!("t{}", i), c.map(s), None, None);
    }
    assert_eq!(bucket(&eff, "No category"), Some(vec![0, 3, 5]));
    assert_eq!(bucket(&eff, "A"), Some(vec![1, 4]));
    assert_eq!(bucket(&eff, "B"), Some(vec![2]));
    let mut all: Vec<usize> = Vec::new();
    for i in 0..eff.state.category_map.len() {
        all.extend(eff.state.category_map.entry(i).1.iter().copied());
    }
    all.sort();
    assert_eq!(all, vec![0, 1, 2, 3, 4, 5]);
}

#[test]
fn delete_category_scenario() {
    let mut eff = fresh();
    eff.add_task(s("zero"), None, None, None);
    eff.add_task(s("one"), Some(s("Work")), None, None);
    eff.add_task(s("two"), Some(s("Home")), None, None);
    eff.add_task(s("three"), Some(s("Work")), None, None);
    assert_eq!(bucket(&eff, "Work"), Some(vec![1, 3]));
    assert_eq!(eff.delete_category(Some(s("Work"))), Ok(()));
    assert_eq!(descriptions(&eff), vec![s("zero"), s("two")]);
    assert_eq!(bucket(&eff, "Work"), None);
    assert_eq!(bucket(&eff, "No category"), Some(vec![0]));
    assert_eq!(bucket(&eff, "Home"), Some(vec![1]));
}

#[test]
fn delete_uncategorised() {
    let mut eff = fresh();
    eff.add_task(s("a"), Some(s("X")), None, None);
    assert_eq!(eff.delete_category(None), Err(EfficacyError::NonexistentCategoryError));
    eff.add_task(s("b"), None, None, None);
    eff.add_task(s("c"), None, None, None);
    assert_eq!(eff.delete_category(None), Ok(()));
    assert_eq!(descriptions(&eff), vec![s("a")]);
    assert_eq!(bucket(&eff, "X"), Some(vec![0]));
}

#[test]
fn delete_task_shifts_ids() {
    let mut eff = fresh();
    eff.add_task(s("a"), Some(s("X")), None, None);
    eff.add_task(s("b"), Some(s("Y")), None, None);
    eff.add_task(s("c"), Some(s("X")), None, None);
    let removed = eff.delete_task(0).unwrap();
    assert_eq!(removed.description, "a");
    assert_eq!(descriptions(&eff), vec![s("b"), s("c")]);
    assert_eq!(bucket(&eff, "X"), Some(vec![1]));
    assert_eq!(bucket(&eff, "Y"), Some(vec![0]));
    assert_eq!(eff.delete_task(2).unwrap_err(), EfficacyError::MismatchedIdError);
}

#[test]
fn unknown_ids_are_refused() {
    let mut eff = fresh();
    eff.add_task(s("a"), None, None, None);
    assert_eq!(eff.complete_task(1), Err(EfficacyError::MismatchedIdError));
    assert_eq!(eff.edit_task(3, Some(s("x")), None, None, None), Err(EfficacyError::MismatchedIdError));
    assert_eq!(eff.state.task_objects[0].description, "a");
}

#[test]
fn edit_task_changes_supplied_fields() {
    let mut eff = fresh();
    let due = Timestamp { seconds: 1_700_000_000, nanoseconds: 5 };
    eff.add_task(s("a"), None, Some(s("note")), None);
    eff.add_task(s("b"), None, None, None);
    assert_eq!(eff.edit_task(0, None, Some(s("Work")), None, Some(due)), Ok(()));
    let t = &eff.state.task_objects[0];
    assert_eq!(t.description, "a");
    assert_eq!(t.category, Some(s("Work")));
    assert_eq!(t.information, Some(s("note")));
    assert_eq!(t.due, Some(due));
    assert_eq!(bucket(&eff, "Work"), Some(vec![0]));
    assert_eq!(bucket(&eff, "No category"), Some(vec![1]));
    assert_eq!(eff.edit_task(1, Some(s("bee")), None, Some(s("i")), None), Ok(()));
    assert_eq!(eff.state.task_objects[1].description, "bee");
    assert_eq!(eff.state.task_objects[1].information, Some(s("i")));
    assert_eq!(bucket(&eff, "No category"), Some(vec![1]));
}

#[test]
fn edit_category_moves_tasks() {
    let mut eff = fresh();
    eff.add_task(s("a"), Some(s("Old")), None, None);
    eff.add_task(s("b"), None, None, None);
    eff.add_task(s("c"), Some(s("Old")), None, None);
    assert_eq!(eff.edit_category(s("Missing"), s("New")), Err(EfficacyError::NonexistentCategoryError));
    assert_eq!(eff.edit_category(s("Old"), s("New")), Ok(()));
    assert_eq!(bucket(&eff, "Old"), None);
    assert_eq!(bucket(&eff, "New"), Some(vec![0, 2]));
    assert_eq!(eff.state.task_objects[2].category, Some(s("New")));
    assert_eq!(eff.edit_category(s("No category"), s("New")), Ok(()));
    assert_eq!(bucket(&eff, "New"), Some(vec![0, 1, 2]));
    assert_eq!(eff.state.category_map.len(), 1);
}

#[test]
fn clean_removes_done_tasks() {
    let mut eff = fresh();
    eff.add_task(s("a"), Some(s("X")), None, None);
    eff.add_task(s("b"), None, None, None);
    eff.add_task(s("c"), Some(s("X")), None, None);
    eff.add_task(s("d"), Some(s("Y")), None, None);
    eff.complete_task(0).unwrap();
    eff.complete_task(3).unwrap();
    eff.clean();
    assert_eq!(descriptions(&eff), vec![s("b"), s("c")]);
    assert_eq!(bucket(&eff, "X"), Some(vec![1]));
    assert_eq!(bucket(&eff, "Y"), None);
    assert!(eff.state.task_objects.iter().all(|t| t.state == TaskState::Todo));
}

#[test]
fn new_context_names() {
    let mut eff = fresh();
    assert_eq!(eff.new_context(&s("default")).unwrap_err(), EfficacyError::BadContextNameError);
    assert_eq!(eff.new_context(&s("my context")).unwrap_err(), EfficacyError::BadContextNameError);
    assert_eq!(eff.new_context(&s("tab\tname")).unwrap_err(), EfficacyError::BadContextNameError);
    assert!(!eff.context_exists(&s("my context")));
    let sw = eff.new_context(&s("work")).unwrap();
    assert_eq!(sw.context_name, "work");
    assert_eq!(sw.incoming_file, "work.json");
    assert_eq!(sw.outgoing_file, "default.json");
    assert!(eff.context_exists(&s("work")));
    assert!(is_valid_context_name(&s("work")));
    assert!(!is_valid_context_name(&s("no\u{3000}way")));
}

#[test]
fn switching_away_and_back_keeps_tasks() {
    let mut eff = fresh();
    let mut disk: HashMap<String, Vec<Task>> = HashMap::new();
    let mut persist = |eff: &Efficacy, file: &str, disk: &mut HashMap<String, Vec<Task>>| {
        let copy = eff.state.task_objects.iter().map(|t| t.duplicate()).collect();
        disk.insert(s(file), copy);
    };
    let mut switch = |eff: &mut Efficacy, name: &str, disk: &mut HashMap<String, Vec<Task>>| {
        let sw = eff.change_context(&s(name)).unwrap();
        persist(eff, &sw.outgoing_file, disk);
        let loaded = disk.get(&sw.incoming_file).map(|v| v.iter().map(|t| t.duplicate()).collect());
        eff.enter_context(&sw.context_name, loaded).unwrap();
    };
    let sw = eff.new_context(&s("work")).unwrap();
    eff.enter_context(&sw.context_name, None).unwrap();
    eff.add_task(s("report"), Some(s("Job")), None, None);
    eff.add_task(s("email"), None, None, None);
    switch(&mut eff, "default", &mut disk);
    assert!(eff.state.task_objects.is_empty());
    eff.add_task(s("milk"), None, None, None);
    switch(&mut eff, "work", &mut disk);
    assert_eq!(eff.state.current_context.context_name, "work");
    assert_eq!(descriptions(&eff), vec![s("report"), s("email")]);
    assert_eq!(bucket(&eff, "Job"), Some(vec![0]));
    switch(&mut eff, "default", &mut disk);
    assert_eq!(descriptions(&eff), vec![s("milk")]);
    assert_eq!(eff.change_context(&s("nowhere")).unwrap_err(), EfficacyError::NonexistentContextError);
    assert_eq!(eff.enter_context(&s("nowhere"), None).unwrap_err(), EfficacyError::NonexistentContextError);
}

#[test]
fn delete_context_rules() {
    let mut eff = Efficacy::init(settings(), State::new(vec![s("home.json"), s("work.json")]));
    assert!(matches!(eff.delete_context(&s("default")), ContextDeletion::Reserved));
    assert!(matches!(eff.delete_context(&s("nope")), ContextDeletion::Unknown));
    let sw = eff.change_context(&s("work")).unwrap();
    eff.enter_context(&sw.context_name, None).unwrap();
    assert!(matches!(eff.delete_context(&s("work")), ContextDeletion::Active));
    match eff.delete_context(&s("home")) {
        ContextDeletion::Deleted(f) => assert_eq!(f, "home.json"),
        _ => panic!("home was not deleted"),
    }
    assert!(!eff.context_exists(&s("home")));
    assert!(eff.context_exists(&s("work")));
}

#[test]
fn registry_from_scanned_files() {
    let state = State::new(vec![
        s("context.json"),
        s("default.json"),
        s("work.json"),
        s("notes.v2.txt"),
        s(".hidden"),
        s("plain"),
    ]);
    let reg = &state.task_file_paths;
    assert_eq!(reg.len(), 5);
    assert_eq!(reg.get(&s("default")), Some(&s("default.json")));
    assert_eq!(reg.get(&s("work")), Some(&s("work.json")));
    assert_eq!(reg.get(&s("notes.v2")), Some(&s("notes.v2.txt")));
    assert_eq!(reg.get(&s(".hidden")), Some(&s(".hidden")));
    assert_eq!(reg.get(&s("plain")), Some(&s("plain")));
    assert_eq!(reg.get(&s("context")), None);
    assert_eq!(state.current_context.context_name, "default");
}

#[test]
fn stems() {
    assert_eq!(stem_of(&s("a.json")), "a");
    assert_eq!(stem_of(&s("a.b.c")), "a.b");
    assert_eq!(stem_of(&s(".json")), ".json");
    assert_eq!(stem_of(&s("..")), "..");
    assert_eq!(stem_of(&s("x.")), "x");
    assert_eq!(stem_of(&s("")), "");
}

#[test]
fn category_line() {
    let line = format_category(&s("Work"), &vec![1, 3]);
    assert_eq!(strip(&line), "Work: 2 tasks");
    assert!(line == "Work: 2 tasks" || line.contains("\x1b[1mWork\x1b[0m"));
    let many = format_category(&s("Home"), &(0..12).collect());
    assert_eq!(strip(&many), "Home: 12 tasks");
}

#[test]
fn context_lines() {
    assert_eq!(format_context(&s("work"), false), "work");
    let current = format_context(&s("work"), true);
    assert_eq!(strip(&current), "~work~");
    assert!(current == "~work~" || current == "~\x1b[3mwork\x1b[0m~");
    let nothing = format_nothing();
    assert!(nothing == "No tasks!" || nothing == "\x1b[90mNo tasks!\x1b[0m");
}

#[test]
fn weekdays() {
    assert_eq!(string_to_weekday("Monday"), Ok(Weekday::Mon));
    assert_eq!(string_to_weekday("TUES"), Ok(Weekday::Tue));
    assert_eq!(string_to_weekday("su"), Ok(Weekday::Sun));
    assert_eq!(string_to_weekday("Thur"), Ok(Weekday::Thu));
    assert_eq!(string_to_weekday("someday"), Err(CliError::ParsingError));
}

#[test]
fn day_differences() {
    assert_eq!(calculate_day_difference(Weekday::Sun, Weekday::Mon), 1);
    assert_eq!(calculate_day_difference(Weekday::Mon, Weekday::Mon), 0);
    assert_eq!(calculate_day_difference(Weekday::Tue, Weekday::Mon), 6);
    assert_eq!(Weekday::Sun.number_from_monday(), 7);
}
