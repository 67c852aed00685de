use std::cell::{Cell, RefCell};
use std::rc::Rc;

use async_channel::Sender;
use behavior_tree::actor::Actor;
use behavior_tree::bt::{BehaviorTree, Node};
use behavior_tree::key::{compose_key, task_key};
use behavior_tree::registry::{Registry, TickError};
use behavior_tree::tracker::TaskTracker;
use behavior_tree::util::{timeout_millis, TimeoutID};
use behavior_tree::NodeResult;
use serde_json::Value;

type Outbox = Rc<RefCell<Vec<(Vec<Value>, Sender<bool>)>>>;

fn outbox() -> Outbox {
    Rc::new(RefCell::new(Vec::new()))
}

fn register_spawner(registry: &mut Registry, name: &str, started: &Outbox) {
    let started = Rc::clone(started);
    registry.register_async_action(name, move |args: &[Value], done: Sender<bool>| {
        started.borrow_mut().push((args.to_vec(), done));
    });
}

fn complete(started: &Outbox, index: usize, flag: bool) {
    started.borrow()[index].1.try_send(flag).unwrap();
}

#[test]
fn key_is_name_colon_space_arguments() {
    assert_eq!(compose_key("move", "[1,2]"), "move: [1,2]");
    assert_eq!(compose_key("", ""), ": ");
    assert_eq!(task_key("use_skill", &[Value::from("use_hp")]), "use_skill: [\"use_hp\"]");
    assert_eq!(task_key("loot", &[]), "loot: []");
    assert_eq!(
        task_key("move", &[Value::from(1), Value::from(2.5), Value::Bool(true), Value::Null]),
        "move: [1,2.5,true,null]"
    );
}

#[test]
fn key_tells_arguments_apart() {
    let goo = task_key("smart_move", &[Value::from("goo")]);
    let bee = task_key("smart_move", &[Value::from("bee")]);
    assert_ne!(goo, bee);
    assert_eq!(goo, task_key("smart_move", &[Value::from("goo")]));
}

#[test]
fn timeout_saturates() {
    assert_eq!(timeout_millis(0), 0);
    assert_eq!(timeout_millis(250), 250);
    assert_eq!(timeout_millis(2_147_483_647), i32::MAX);
    assert_eq!(timeout_millis(2_147_483_648), i32::MAX);
    assert_eq!(timeout_millis(u128::MAX), i32::MAX);
    let id = TimeoutID(timeout_millis(7));
    assert_eq!(id.0, 7);
}

#[test]
fn tracker_resolves_by_poll_answer() {
    let mut tracker = TaskTracker::new();
    let key = "move: [1,2]".to_string();
    assert!(!tracker.contains(&key));
    assert_eq!(tracker.len(), 0);
    assert_eq!(tracker.resolve(&key, Some(true)), None);
    assert_eq!(tracker.resolve(&key, None), None);
    assert_eq!(tracker.len(), 0);
}

#[test]
fn effect_in_flight_is_polled_not_restarted() {
    let started = outbox();
    let mut registry = Registry::new();
    register_spawner(&mut registry, "use_skill", &started);
    let mut node = Node::action("use_skill", vec![Value::from("use_hp")]);
    for _ in 0..25 {
        assert_eq!(node.tick(&mut registry), Ok(NodeResult::Running));
    }
    assert_eq!(started.borrow().len(), 1);
    assert_eq!(started.borrow()[0].0, vec![Value::from("use_hp")]);
}

#[test]
fn completion_is_reported_once_then_a_fresh_effect_starts() {
    let started = outbox();
    let mut registry = Registry::new();
    register_spawner(&mut registry, "use_skill", &started);
    let mut node = Node::action("use_skill", vec![Value::from("use_hp")]);
    assert_eq!(node.tick(&mut registry), Ok(NodeResult::Running));
    assert_eq!(node.tick(&mut registry), Ok(NodeResult::Running));
    complete(&started, 0, true);
    assert_eq!(node.tick(&mut registry), Ok(NodeResult::Success));
    assert_eq!(started.borrow().len(), 1);
    assert_eq!(node.tick(&mut registry), Ok(NodeResult::Running));
    assert_eq!(started.borrow().len(), 2);
    complete(&started, 1, false);
    assert_eq!(node.tick(&mut registry), Ok(NodeResult::Failure));
    assert_eq!(started.borrow().len(), 2);
}

#[test]
fn dropped_effect_stays_running() {
    let started = outbox();
    let mut registry = Registry::new();
    register_spawner(&mut registry, "move", &started);
    let mut node = Node::action("move", vec![Value::from(1), Value::from(2)]);
    assert_eq!(node.tick(&mut registry), Ok(NodeResult::Running));
    started.borrow_mut().clear();
    assert_eq!(node.tick(&mut registry), Ok(NodeResult::Running));
    assert_eq!(started.borrow().len(), 0);
}

#[test]
fn different_arguments_run_side_by_side() {
    let started = outbox();
    let mut registry = Registry::new();
    register_spawner(&mut registry, "smart_move", &started);
    let mut goo = Node::action("smart_move", vec![Value::from("goo")]);
    let mut bee = Node::action("smart_move", vec![Value::from("bee")]);
    assert_eq!(goo.tick(&mut registry), Ok(NodeResult::Running));
    assert_eq!(bee.tick(&mut registry), Ok(NodeResult::Running));
    assert_eq!(started.borrow().len(), 2);
    complete(&started, 1, true);
    assert_eq!(goo.tick(&mut registry), Ok(NodeResult::Running));
    assert_eq!(bee.tick(&mut registry), Ok(NodeResult::Success));
    assert_eq!(started.borrow().len(), 2);
}

#[test]
fn same_action_and_arguments_share_one_effect() {
    let started = outbox();
    let mut registry = Registry::new();
    register_spawner(&mut registry, "smart_move", &started);
    let mut here = Node::action("smart_move", vec![Value::from("goo")]);
    let mut there = Node::sequence(vec![Node::action("smart_move", vec![Value::from("goo")])]);
    assert_eq!(here.tick(&mut registry), Ok(NodeResult::Running));
    assert_eq!(there.tick(&mut registry), Ok(NodeResult::Running));
    assert_eq!(started.borrow().len(), 1);
    complete(&started, 0, true);
    assert_eq!(there.tick(&mut registry), Ok(NodeResult::Success));
    assert_eq!(here.tick(&mut registry), Ok(NodeResult::Running));
    assert_eq!(started.borrow().len(), 2);
}

#[test]
fn synchronous_registration_replaces_asynchronous() {
    let started = outbox();
    let mut registry = Registry::new();
    register_spawner(&mut registry, "loot", &started);
    registry.register_action("loot", |_args: &[Value]| NodeResult::Success);
    let mut node = Node::action("loot", Vec::new());
    assert_eq!(node.tick(&mut registry), Ok(NodeResult::Success));
    assert_eq!(started.borrow().len(), 0);
}

#[test]
fn registry_runs_handlers_by_name() {
    let started = outbox();
    let mut registry = Registry::new();
    registry.register_condition("yes", |_args: &[Value]| true);
    registry.register_action("wait", |_args: &[Value]| NodeResult::Running);
    register_spawner(&mut registry, "go", &started);
    assert_eq!(registry.evaluate_condition("yes", &[]), Ok(true));
    assert_eq!(registry.evaluate_condition("no", &[]), Err(TickError::ConditionNotFound("no".to_string())));
    assert_eq!(registry.execute_action("wait", &[]), Ok(NodeResult::Running));
    assert_eq!(registry.execute_action("go", &[Value::from("goo")]), Ok(NodeResult::Running));
    assert_eq!(registry.execute_action("stay", &[]), Err(TickError::ActionNotFound("stay".to_string())));
    assert_eq!(started.borrow().len(), 1);
}

#[test]
fn abandoned_effect_is_collected_when_guard_holds_again() {
    let started = outbox();
    let alive = Rc::new(Cell::new(true));
    let mut registry = Registry::new();
    let answer = Rc::clone(&alive);
    registry.register_condition("alive", move |_args: &[Value]| answer.get());
    register_spawner(&mut registry, "move", &started);
    let mut node = Node::while_("alive", Vec::new(), Node::action("move", Vec::new()));
    assert_eq!(node.tick(&mut registry), Ok(NodeResult::Running));
    alive.set(false);
    complete(&started, 0, true);
    assert_eq!(node.tick(&mut registry), Ok(NodeResult::Failure));
    assert_eq!(node.tick(&mut registry), Ok(NodeResult::Failure));
    alive.set(true);
    assert_eq!(node.tick(&mut registry), Ok(NodeResult::Success));
    assert_eq!(started.borrow().len(), 1);
}

#[test]
fn low_health_is_restored_before_anything_else() {
    let started = outbox();
    let (attack_calls, ready_calls) = (Rc::new(Cell::new(0u32)), Rc::new(Cell::new(0u32)));
    let health = Rc::new(Cell::new((40i32, 100i32)));
    let mut actor = Actor::new(BehaviorTree::new(Node::root(Node::selector(vec![
        Node::sequence(vec![
            Node::condition("HealthIsLow", vec![Value::from(0.5)]),
            Node::condition("SkillIsReady", vec![Value::from("use_hp")]),
            Node::action("use_skill", vec![Value::from("use_hp")]),
        ]),
        Node::action("attack", Vec::new()),
    ]))));
    let vitals = Rc::clone(&health);
    actor.register_condition("HealthIsLow", move |args: &[Value]| {
        let threshold = args[0].as_f64().unwrap();
        let (hp, max_hp) = vitals.get();
        (hp as f64) < threshold * (max_hp as f64)
    });
    let ready = Rc::clone(&ready_calls);
    actor.register_condition("SkillIsReady", move |args: &[Value]| {
        ready.set(ready.get() + 1);
        args[0] == Value::from("use_hp")
    });
    let launched = Rc::clone(&started);
    actor.register_async_action("use_skill", move |args: &[Value], done: Sender<bool>| {
        launched.borrow_mut().push((args.to_vec(), done));
    });
    let attacks = Rc::clone(&attack_calls);
    actor.register_action("attack", move |_args: &[Value]| {
        attacks.set(attacks.get() + 1);
        NodeResult::Success
    });

    assert_eq!(actor.tick(), Ok(NodeResult::Running));
    assert_eq!(started.borrow().len(), 1);
    assert_eq!(started.borrow()[0].0, vec![Value::from("use_hp")]);
    assert_eq!(actor.tick(), Ok(NodeResult::Running));
    assert_eq!(started.borrow().len(), 1);
    complete(&started, 0, true);
    assert_eq!(actor.tick(), Ok(NodeResult::Success));
    assert_eq!(started.borrow().len(), 1);
    assert_eq!(attack_calls.get(), 0);
    assert_eq!(ready_calls.get(), 3);

    health.set((90, 100));
    assert_eq!(actor.tick(), Ok(NodeResult::Success));
    assert_eq!(attack_calls.get(), 1);
    assert_eq!(started.borrow().len(), 1);
}

#[test]
fn actor_reports_unregistered_names() {
    let mut actor = Actor::new(BehaviorTree::new(Node::root(Node::condition("HasTarget", Vec::new()))));
    assert_eq!(actor.tick(), Err(TickError::ConditionNotFound("HasTarget".to_string())));
    actor.register_condition("HasTarget", |_args: &[Value]| false);
    assert_eq!(actor.tick(), Ok(NodeResult::Failure));
}

#[test]
fn current_tasks_lists_the_keys_in_flight() {
    let started = outbox();
    let mut actor = Actor::new(BehaviorTree::new(Node::root(Node::sequence(vec![
        Node::action("go", vec![Value::from("goo")]),
    ]))));
    let launched = Rc::clone(&started);
    actor.register_async_action("go", move |args: &[Value], done: Sender<bool>| {
        launched.borrow_mut().push((args.to_vec(), done));
    });
    assert_eq!(actor.current_tasks(), Vec::<String>::new());
    assert_eq!(actor.tick(), Ok(NodeResult::Running));
    assert_eq!(actor.current_tasks(), vec!["go: [\"goo\"]".to_string()]);
    complete(&started, 0, true);
    assert_eq!(actor.tick(), Ok(NodeResult::Success));
    assert_eq!(actor.current_tasks(), Vec::<String>::new());
}

#[test]
fn registry_lists_every_key_once() {
    let started = outbox();
    let mut registry = Registry::new();
    register_spawner(&mut registry, "go", &started);
    assert_eq!(registry.execute_action("go", &[Value::from(1)]), Ok(NodeResult::Running));
    assert_eq!(registry.execute_action("go", &[Value::from(2)]), Ok(NodeResult::Running));
    assert_eq!(registry.execute_action("go", &[Value::from(1)]), Ok(NodeResult::Running));
    let mut keys = registry.current_tasks();
    keys.sort();
    assert_eq!(keys, vec!["go: [1]".to_string(), "go: [2]".to_string()]);
}

#[test]
fn actor_draws_from_its_registered_source() {
    let (goo, bee) = (Rc::new(Cell::new(0u32)), Rc::new(Cell::new(0u32)));
    let mut actor = Actor::new(BehaviorTree::new(Node::root(Node::lotto(vec![
        Node::action("goo", Vec::new()),
        Node::action("bee", Vec::new()),
    ]))));
    let count = Rc::clone(&goo);
    actor.register_action("goo", move |_args: &[Value]| {
        count.set(count.get() + 1);
        NodeResult::Success
    });
    let count = Rc::clone(&bee);
    actor.register_action("bee", move |_args: &[Value]| {
        count.set(count.get() + 1);
        NodeResult::Success
    });
    assert_eq!(actor.tick(), Ok(NodeResult::Success));
    assert_eq!((goo.get(), bee.get()), (1, 0));
    actor.register_draw(|| 3);
    assert_eq!(actor.tick(), Ok(NodeResult::Success));
    assert_eq!((goo.get(), bee.get()), (1, 1));
}
