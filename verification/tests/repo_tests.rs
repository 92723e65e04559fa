use task_manager::repo::{RepoError, TasksManager};
use task_manager::task::{Priority, Task, Timestamp};

fn t1() -> Timestamp {
    Timestamp::new(2024, 5, 1, 12, 30, 45, 120)
}

fn t2() -> Timestamp {
    Timestamp::new(2025, 12, 31, 23, 59, 59, -330)
}

fn t3() -> Timestamp {
    Timestamp::new(2023, 1, 7, 0, 0, 0, 0)
}

fn buy_milk() -> Task {
    Task::new("Buy milk".to_string(), "2%".to_string(), Priority::Low, t1())
}

fn pay_rent() -> Task {
    Task::new("Pay rent".to_string(), "".to_string(), Priority::High, t2())
}

#[test]
fn add_keeps_insertion_order() {
    let mut repo = TasksManager::new();
    repo.add_task(buy_milk());
    repo.add_task(pay_rent());
    repo.add_task(Task::new(
        "Water plants".to_string(),
        "balcony".to_string(),
        Priority::Medium,
        t3(),
    ));
    let all = repo.list_all();
    assert_eq!(all.len(), 3);
    assert_eq!(all[0].name, "Buy milk");
    assert_eq!(all[1].name, "Pay rent");
    assert_eq!(all[2].name, "Water plants");
}

#[test]
fn scenario_add_list_remove() {
    let mut repo = TasksManager::new();
    repo.add_task(buy_milk());
    repo.add_task(pay_rent());
    let all = repo.list_all();
    assert_eq!(all.len(), 2);
    assert_eq!(all[0].name, "Buy milk");
    assert_eq!(all[1].name, "Pay rent");
    assert!(repo.remove_task("Buy milk").is_ok());
    let all = repo.list_all();
    assert_eq!(all.len(), 1);
    assert_eq!(all[0].name, "Pay rent");
    assert_eq!(repo.remove_task("Buy milk"), Err(RepoError::TaskNotFound));
}

#[test]
fn remove_then_find_reports_not_found() {
    let mut repo = TasksManager::new();
    repo.add_task(buy_milk());
    repo.add_task(pay_rent());
    assert!(repo.remove_task("Pay rent").is_ok());
    assert!(repo.find_task("Pay rent").is_none());
    assert!(repo.find_task_index("Pay rent").is_none());
}

#[test]
fn find_returns_first_match() {
    let mut repo = TasksManager::new();
    repo.add_task(buy_milk());
    repo.add_task(Task::new(
        "Buy milk".to_string(),
        "oat".to_string(),
        Priority::Medium,
        t2(),
    ));
    assert_eq!(repo.find_task_index("Buy milk"), Some(0));
    let found = repo.find_task("Buy milk").expect("first duplicate");
    assert_eq!(found.description, "2%");
    assert!(repo.find_task("Pay rent").is_none());
}

#[test]
fn edit_replaces_fields_in_place() {
    let mut repo = TasksManager::new();
    repo.add_task(buy_milk());
    repo.add_task(pay_rent());
    let replacement = Task::new(
        "Buy oat milk".to_string(),
        "unsweetened".to_string(),
        Priority::Medium,
        t3(),
    );
    assert!(repo.edit_task("Buy milk", replacement).is_ok());
    let all = repo.list_all();
    assert_eq!(all.len(), 2);
    assert_eq!(all[0].name, "Buy oat milk");
    assert_eq!(all[0].description, "unsweetened");
    assert_eq!(all[0].priority, Priority::Medium);
    assert_eq!(all[0].add_time, t3());
    assert_eq!(all[1].name, "Pay rent");
}

#[test]
fn edit_missing_name_fails() {
    let mut repo = TasksManager::new();
    repo.add_task(buy_milk());
    let replacement = Task::new("x".to_string(), "y".to_string(), Priority::Low, t1());
    assert_eq!(
        repo.edit_task("Pay rent", replacement),
        Err(RepoError::TaskNotFound)
    );
    assert_eq!(repo.list_all().len(), 1);
    assert_eq!(repo.list_all()[0].name, "Buy milk");
}

#[test]
fn store_fails_when_file_exists() {
    let mut repo = TasksManager::new();
    repo.add_task(buy_milk());
    assert_eq!(repo.store_to_file(true), Err(RepoError::FileAlreadyExists));
}

#[test]
fn load_fails_when_file_missing() {
    let mut repo = TasksManager::new();
    repo.add_task(buy_milk());
    assert_eq!(repo.read_from_file(None), Err(RepoError::FileMissing));
    assert_eq!(repo.list_all().len(), 1);
    assert_eq!(repo.list_all()[0].name, "Buy milk");
}

#[test]
fn load_fails_on_malformed_text() {
    let mut repo = TasksManager::new();
    repo.add_task(pay_rent());
    assert_eq!(
        repo.read_from_file(Some("not json at all")),
        Err(RepoError::MalformedData)
    );
    assert_eq!(repo.read_from_file(Some("")), Err(RepoError::MalformedData));
    assert_eq!(repo.read_from_file(Some("[")), Err(RepoError::MalformedData));
    assert_eq!(
        repo.read_from_file(Some("[]trailing")),
        Err(RepoError::MalformedData)
    );
    assert_eq!(
        repo.read_from_file(Some("[{\"name\":\"a\"}]")),
        Err(RepoError::MalformedData)
    );
    let all = repo.list_all();
    assert_eq!(all.len(), 1);
    assert_eq!(all[0].name, "Pay rent");
}

#[test]
fn save_then_load_round_trips_all_fields() {
    let mut repo = TasksManager::new();
    repo.add_task(Task::new(
        "tricky \"name\" with \\ and \nnewline".to_string(),
        "caf\u{e9} au lait \u{1F600}".to_string(),
        Priority::Medium,
        t2(),
    ));
    repo.add_task(pay_rent());
    let text = repo.store_to_file(false).expect("fresh path saves");
    let mut fresh = TasksManager::new();
    assert!(fresh.read_from_file(Some(&text)).is_ok());
    let original = repo.list_all();
    let loaded = fresh.list_all();
    assert_eq!(loaded.len(), original.len());
    for i in 0..loaded.len() {
        assert_eq!(loaded[i].name, original[i].name);
        assert_eq!(loaded[i].description, original[i].description);
        assert_eq!(loaded[i].priority, original[i].priority);
        assert_eq!(loaded[i].add_time, original[i].add_time);
    }
}

#[test]
fn scenario_save_twice_then_load_replaces() {
    let mut repo = TasksManager::new();
    repo.add_task(buy_milk());
    repo.add_task(pay_rent());
    let text = repo.store_to_file(false).expect("out.json is fresh");
    assert_eq!(repo.store_to_file(true), Err(RepoError::FileAlreadyExists));
    let mut other = TasksManager::new();
    other.add_task(Task::new(
        "Third task".to_string(),
        "temporary".to_string(),
        Priority::Medium,
        t3(),
    ));
    assert!(other.read_from_file(Some(&text)).is_ok());
    let all = other.list_all();
    assert_eq!(all.len(), 2);
    assert_eq!(all[0].name, "Buy milk");
    assert_eq!(all[1].name, "Pay rent");
    assert!(other.find_task("Third task").is_none());
}

#[test]
fn empty_repository_round_trips() {
    let repo = TasksManager::new();
    let text = repo.store_to_file(false).expect("fresh path saves");
    assert_eq!(text, "[]");
    let mut fresh = TasksManager::new();
    fresh.add_task(buy_milk());
    assert!(fresh.read_from_file(Some(&text)).is_ok());
    assert_eq!(fresh.list_all().len(), 0);
}
