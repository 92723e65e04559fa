use task_manager::repo::TasksManager;
use task_manager::task::{Priority, Task, Timestamp};

#[test]
fn priority_tags() {
    assert_eq!(Priority::Low.to_string(), "Low");
    assert_eq!(Priority::Medium.to_string(), "Medium");
    assert_eq!(Priority::High.to_string(), "High");
}

#[test]
fn priority_from_console_input() {
    assert_eq!(Priority::from_input("low"), Priority::Low);
    assert_eq!(Priority::from_input("medium"), Priority::Medium);
    assert_eq!(Priority::from_input("high"), Priority::High);
    assert_eq!(Priority::from_input("urgent"), Priority::Low);
    assert_eq!(Priority::from_input(""), Priority::Low);
    assert_eq!(Priority::from_input("High"), Priority::Low);
}

#[test]
fn render_is_two_fixed_lines() {
    let task = Task::new(
        "Buy milk".to_string(),
        "2%".to_string(),
        Priority::Low,
        Timestamp::new(2024, 5, 1, 12, 30, 45, 120),
    );
    assert_eq!(task.render(), "> Buy milk | Low | 01-05-2024 12:30:45\n/ 2% /");
}

#[test]
fn render_pads_single_digits() {
    let task = Task::new(
        "n".to_string(),
        "d".to_string(),
        Priority::High,
        Timestamp::new(987, 1, 7, 3, 4, 5, 0),
    );
    assert_eq!(task.render(), "> n | High | 07-01-0987 03:04:05\n/ d /");
}

#[test]
fn stored_text_has_the_documented_shape() {
    let mut repo = TasksManager::new();
    repo.add_task(Task::new(
        "Buy milk".to_string(),
        "2%".to_string(),
        Priority::Low,
        Timestamp::new(2024, 5, 1, 12, 30, 45, 120),
    ));
    let text = repo.store_to_file(false).expect("fresh path saves");
    assert_eq!(
        text,
        "[{\"name\":\"Buy milk\",\"description\":\"2%\",\"priority\":\"Low\",\
         \"add_time\":\"2024-05-01T12:30:45+02:00\"}]"
    );
}

#[test]
fn stored_text_escapes_special_characters() {
    let mut repo = TasksManager::new();
    repo.add_task(Task::new(
        "a\"b".to_string(),
        "c\\d\ne".to_string(),
        Priority::Medium,
        Timestamp::new(2024, 5, 1, 12, 30, 45, 0),
    ));
    let text = repo.store_to_file(false).expect("fresh path saves");
    assert_eq!(
        text,
        "[{\"name\":\"a\\\"b\",\"description\":\"c\\\\d\\u000ae\",\"priority\":\"Medium\",\
         \"add_time\":\"2024-05-01T12:30:45+00:00\"}]"
    );
}

#[test]
fn negative_offset_round_trips() {
    let mut repo = TasksManager::new();
    let ts = Timestamp::new(2025, 12, 31, 23, 59, 59, -330);
    repo.add_task(Task::new("x".to_string(), "".to_string(), Priority::High, ts));
    let text = repo.store_to_file(false).expect("fresh path saves");
    assert!(text.contains("2025-12-31T23:59:59-05:30"));
    let mut fresh = TasksManager::new();
    assert!(fresh.read_from_file(Some(&text)).is_ok());
    assert_eq!(fresh.list_all()[0].add_time, ts);
}

#[test]
fn stored_text_is_valid_json_for_other_readers() {
    let mut repo = TasksManager::new();
    repo.add_task(Task::new(
        "quote \" slash \\ tab\there".to_string(),
        "plain".to_string(),
        Priority::High,
        Timestamp::new(2024, 5, 1, 12, 30, 45, 60),
    ));
    let text = repo.store_to_file(false).expect("fresh path saves");
    let value: serde_json::Value = serde_json::from_str(&text).expect("well-formed JSON");
    let items = value.as_array().expect("top level array");
    assert_eq!(items.len(), 1);
    let obj = items[0].as_object().expect("task object");
    assert_eq!(
        obj.get("name").and_then(|v| v.as_str()),
        Some("quote \" slash \\ tab\there")
    );
    assert_eq!(obj.get("description").and_then(|v| v.as_str()), Some("plain"));
    assert_eq!(obj.get("priority").and_then(|v| v.as_str()), Some("High"));
    assert_eq!(
        obj.get("add_time").and_then(|v| v.as_str()),
        Some("2024-05-01T12:30:45+01:00")
    );
}

#[test]
fn rejects_unknown_priority_tag() {
    let mut repo = TasksManager::new();
    let text = "[{\"name\":\"a\",\"description\":\"b\",\"priority\":\"Urgent\",\
                \"add_time\":\"2024-05-01T12:30:45+02:00\"}]";
    assert!(repo.read_from_file(Some(text)).is_err());
}

#[test]
fn rejects_out_of_range_timestamp() {
    let mut repo = TasksManager::new();
    let text = "[{\"name\":\"a\",\"description\":\"b\",\"priority\":\"Low\",\
                \"add_time\":\"2024-13-01T12:30:45+02:00\"}]";
    assert!(repo.read_from_file(Some(text)).is_err());
}
