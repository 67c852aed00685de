use std::cell::RefCell;
use std::rc::Rc;

use async_channel::Sender;
use behavior_tree::handlers::{Act, Check, Draw, FnAct, FnCheck, FnDraw, FnLaunch, Launch, Still};
use behavior_tree::rules::{cooldown_status, skill_is_ready};
use behavior_tree::table::Table;
use behavior_tree::tracker::TaskTracker;
use behavior_tree::NodeResult;
use serde_json::Value;

#[test]
fn flag_becomes_status() {
    assert_eq!(NodeResult::from_flag(true), NodeResult::Success);
    assert_eq!(NodeResult::from_flag(false), NodeResult::Failure);
}

#[test]
fn running_is_not_resolved() {
    assert!(!NodeResult::Running.is_resolved());
    assert!(NodeResult::Success.is_resolved());
    assert!(NodeResult::Failure.is_resolved());
}

#[test]
fn table_files_under_distinct_names() {
    let mut table: Table<u32> = Table::new();
    assert_eq!(table.len(), 0);
    assert_eq!(table.get(&"move".to_string()), None);
    table.insert("move".to_string(), 1);
    table.insert("loot".to_string(), 2);
    assert_eq!(table.len(), 2);
    assert!(table.contains(&"move".to_string()));
    assert!(!table.contains(&"attack".to_string()));
    assert_eq!(table.get(&"move".to_string()), Some(&1));
    assert_eq!(table.get(&"loot".to_string()), Some(&2));
}

#[test]
fn table_insert_replaces() {
    let mut table: Table<u32> = Table::new();
    table.insert("move".to_string(), 1);
    table.insert("move".to_string(), 7);
    assert_eq!(table.len(), 1);
    assert_eq!(table.get(&"move".to_string()), Some(&7));
}

#[test]
fn table_remove_takes_out_one_name() {
    let mut table: Table<u32> = Table::new();
    table.insert("first".to_string(), 1);
    table.insert("second".to_string(), 2);
    table.insert("third".to_string(), 3);
    assert_eq!(table.remove(&"second".to_string()), Some(2));
    assert_eq!(table.remove(&"second".to_string()), None);
    assert_eq!(table.len(), 2);
    assert_eq!(table.get(&"first".to_string()), Some(&1));
    assert_eq!(table.get(&"second".to_string()), None);
    assert_eq!(table.get(&"third".to_string()), Some(&3));
}

#[test]
fn adapters_call_their_closure() {
    let check = FnCheck::new(|args: &[Value]| args.len() == 1);
    assert!(check.check(&[Value::Null]));
    assert!(!check.check(&[]));
    let act = FnAct::new(|args: &[Value]| if args.is_empty() { NodeResult::Running } else { NodeResult::Failure });
    assert_eq!(act.act(&[]), NodeResult::Running);
    assert_eq!(act.act(&[Value::Bool(true)]), NodeResult::Failure);
}

#[test]
fn tracker_starts_polls_and_resolves() {
    let started: Rc<RefCell<Vec<(Vec<Value>, Sender<bool>)>>> = Rc::new(RefCell::new(Vec::new()));
    let record = Rc::clone(&started);
    let launcher: Box<dyn Launch> = Box::new(FnLaunch::new(move |args: &[Value], done: Sender<bool>| {
        record.borrow_mut().push((args.to_vec(), done));
    }));
    let key = "move: [1,2]".to_string();
    let args = [Value::from(1), Value::from(2)];
    let mut tracker = TaskTracker::new();

    assert_eq!(tracker.advance(key.clone(), &launcher, &args), NodeResult::Running);
    assert!(tracker.contains(&key));
    assert_eq!(tracker.len(), 1);
    assert_eq!(started.borrow().len(), 1);
    assert_eq!(started.borrow()[0].0, args.to_vec());

    assert_eq!(tracker.advance(key.clone(), &launcher, &args), NodeResult::Running);
    assert_eq!(started.borrow().len(), 1);

    started.borrow()[0].1.try_send(false).unwrap();
    assert_eq!(tracker.advance(key.clone(), &launcher, &args), NodeResult::Failure);
    assert!(!tracker.contains(&key));
    assert_eq!(tracker.len(), 0);
    assert_eq!(started.borrow().len(), 1);
}

#[test]
fn tracker_resolve_applies_a_poll_answer() {
    let launcher: Box<dyn Launch> = Box::new(FnLaunch::new(|_args: &[Value], _done: Sender<bool>| {}));
    let key = "loot: []".to_string();
    let mut tracker = TaskTracker::new();
    assert_eq!(tracker.advance(key.clone(), &launcher, &[]), NodeResult::Running);
    assert_eq!(tracker.resolve(&key, None), Some(NodeResult::Running));
    assert!(tracker.contains(&key));
    assert_eq!(tracker.resolve(&key, Some(true)), Some(NodeResult::Success));
    assert!(!tracker.contains(&key));
    assert_eq!(tracker.resolve(&key, Some(true)), None);

    assert_eq!(tracker.advance(key.clone(), &launcher, &[]), NodeResult::Running);
    assert_eq!(tracker.resolve(&key, Some(false)), Some(NodeResult::Failure));
    assert_eq!(tracker.len(), 0);
}

#[test]
fn channel_holds_one_completion_flag() {
    let started: Rc<RefCell<Vec<Sender<bool>>>> = Rc::new(RefCell::new(Vec::new()));
    let record = Rc::clone(&started);
    let launcher: Box<dyn Launch> = Box::new(FnLaunch::new(move |_args: &[Value], done: Sender<bool>| {
        record.borrow_mut().push(done);
    }));
    let mut tracker = TaskTracker::new();
    tracker.advance("wait: []".to_string(), &launcher, &[]);
    assert!(started.borrow()[0].try_send(true).is_ok());
    assert!(started.borrow()[0].try_send(true).is_err());
}

#[test]
fn skill_needs_mana_and_no_cooldown() {
    assert!(skill_is_ready(false, 50, Some(50)));
    assert!(!skill_is_ready(false, 49, Some(50)));
    assert!(!skill_is_ready(true, 500, Some(50)));
    assert!(skill_is_ready(false, 0, None));
    assert!(!skill_is_ready(false, -1, None));
    assert!(skill_is_ready(false, i32::MIN, Some(i32::MIN)));
    assert!(!skill_is_ready(true, 0, None));
}

#[test]
fn waiting_ends_with_the_cooldown() {
    assert_eq!(cooldown_status(true), NodeResult::Running);
    assert_eq!(cooldown_status(false), NodeResult::Success);
}

#[test]
fn table_names_are_listed_once() {
    let mut table: Table<u32> = Table::new();
    assert_eq!(table.names(), Vec::<String>::new());
    table.insert("first".to_string(), 1);
    table.insert("second".to_string(), 2);
    table.insert("first".to_string(), 3);
    assert_eq!(table.names(), vec!["first".to_string(), "second".to_string()]);
    table.remove(&"first".to_string());
    assert_eq!(table.names(), vec!["second".to_string()]);
}

#[test]
fn tracker_keys_follow_the_effects() {
    let launcher: Box<dyn Launch> = Box::new(FnLaunch::new(|_args: &[Value], _done: Sender<bool>| {}));
    let mut tracker = TaskTracker::new();
    assert_eq!(tracker.keys(), Vec::<String>::new());
    tracker.advance("loot: []".to_string(), &launcher, &[]);
    assert_eq!(tracker.keys(), vec!["loot: []".to_string()]);
    tracker.resolve(&"loot: []".to_string(), Some(true));
    assert_eq!(tracker.keys(), Vec::<String>::new());
}

#[test]
fn sources_give_their_numbers() {
    assert_eq!(Still.draw(), 0);
    assert_eq!(FnDraw::new(|| 42).draw(), 42);
    assert_eq!(FnDraw::new(|| u128::MAX).draw(), u128::MAX);
}
