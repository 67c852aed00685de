use std::cell::Cell;
use std::rc::Rc;

use behavior_tree::bt::{pick, BehaviorTree, Node};
use behavior_tree::registry::{Registry, TickError};
use behavior_tree::NodeResult;
use serde_json::Value;

fn probe() -> Rc<Cell<u32>> {
    Rc::new(Cell::new(0))
}

fn register_fixed(registry: &mut Registry, name: &str, status: NodeResult, calls: &Rc<Cell<u32>>) {
    let calls = Rc::clone(calls);
    registry.register_action(name, move |_args: &[Value]| {
        calls.set(calls.get() + 1);
        status
    });
}

fn register_answer(registry: &mut Registry, name: &str, answer: &Rc<Cell<bool>>, calls: &Rc<Cell<u32>>) {
    let answer = Rc::clone(answer);
    let calls = Rc::clone(calls);
    registry.register_condition(name, move |_args: &[Value]| {
        calls.set(calls.get() + 1);
        answer.get()
    });
}

fn register_variable(registry: &mut Registry, name: &str, status: &Rc<Cell<NodeResult>>, calls: &Rc<Cell<u32>>) {
    let status = Rc::clone(status);
    let calls = Rc::clone(calls);
    registry.register_action(name, move |_args: &[Value]| {
        calls.set(calls.get() + 1);
        status.get()
    });
}

fn leaf(name: &str) -> Node {
    Node::action(name, Vec::new())
}

#[test]
fn sequence_stops_at_first_failure() {
    let (first, second, third) = (probe(), probe(), probe());
    let mut registry = Registry::new();
    register_fixed(&mut registry, "first", NodeResult::Success, &first);
    register_fixed(&mut registry, "second", NodeResult::Failure, &second);
    register_fixed(&mut registry, "third", NodeResult::Success, &third);
    let mut node = Node::sequence(vec![leaf("first"), leaf("second"), leaf("third")]);
    assert_eq!(node.tick(&mut registry), Ok(NodeResult::Failure));
    assert_eq!((first.get(), second.get(), third.get()), (1, 1, 0));
}

#[test]
fn sequence_of_successes_succeeds() {
    let (first, second) = (probe(), probe());
    let mut registry = Registry::new();
    register_fixed(&mut registry, "first", NodeResult::Success, &first);
    register_fixed(&mut registry, "second", NodeResult::Success, &second);
    let mut node = Node::sequence(vec![leaf("first"), leaf("second")]);
    assert_eq!(node.tick(&mut registry), Ok(NodeResult::Success));
    assert_eq!((first.get(), second.get()), (1, 1));
}

#[test]
fn selector_stops_at_first_success() {
    let (first, second, third) = (probe(), probe(), probe());
    let mut registry = Registry::new();
    register_fixed(&mut registry, "first", NodeResult::Failure, &first);
    register_fixed(&mut registry, "second", NodeResult::Success, &second);
    register_fixed(&mut registry, "third", NodeResult::Failure, &third);
    let mut node = Node::selector(vec![leaf("first"), leaf("second"), leaf("third")]);
    assert_eq!(node.tick(&mut registry), Ok(NodeResult::Success));
    assert_eq!((first.get(), second.get(), third.get()), (1, 1, 0));
}

#[test]
fn selector_of_failures_fails() {
    let (first, second) = (probe(), probe());
    let mut registry = Registry::new();
    register_fixed(&mut registry, "first", NodeResult::Failure, &first);
    register_fixed(&mut registry, "second", NodeResult::Failure, &second);
    let mut node = Node::selector(vec![leaf("first"), leaf("second")]);
    assert_eq!(node.tick(&mut registry), Ok(NodeResult::Failure));
    assert_eq!((first.get(), second.get()), (1, 1));
}

#[test]
fn running_child_suspends_a_sequence() {
    let (first, second, third) = (probe(), probe(), probe());
    let mut registry = Registry::new();
    register_fixed(&mut registry, "first", NodeResult::Success, &first);
    register_fixed(&mut registry, "second", NodeResult::Running, &second);
    register_fixed(&mut registry, "third", NodeResult::Success, &third);
    let mut node = Node::sequence(vec![leaf("first"), leaf("second"), leaf("third")]);
    assert_eq!(node.tick(&mut registry), Ok(NodeResult::Running));
    assert_eq!((first.get(), second.get(), third.get()), (1, 1, 0));
}

#[test]
fn running_child_suspends_a_selector() {
    let (first, second, third) = (probe(), probe(), probe());
    let mut registry = Registry::new();
    register_fixed(&mut registry, "first", NodeResult::Failure, &first);
    register_fixed(&mut registry, "second", NodeResult::Running, &second);
    register_fixed(&mut registry, "third", NodeResult::Success, &third);
    let mut node = Node::selector(vec![leaf("first"), leaf("second"), leaf("third")]);
    assert_eq!(node.tick(&mut registry), Ok(NodeResult::Running));
    assert_eq!((first.get(), second.get(), third.get()), (1, 1, 0));
}

#[test]
fn empty_composites_decide_without_children() {
    let mut registry = Registry::new();
    assert_eq!(Node::sequence(Vec::new()).tick(&mut registry), Ok(NodeResult::Success));
    assert_eq!(Node::selector(Vec::new()).tick(&mut registry), Ok(NodeResult::Failure));
    assert_eq!(Node::lotto(Vec::new()).tick(&mut registry), Ok(NodeResult::Failure));
}

#[test]
fn root_hands_status_on() {
    let calls = probe();
    let status = Rc::new(Cell::new(NodeResult::Running));
    let mut registry = Registry::new();
    register_variable(&mut registry, "work", &status, &calls);
    let mut tree = BehaviorTree::new(Node::root(leaf("work")));
    assert_eq!(tree.tick(&mut registry), Ok(NodeResult::Running));
    status.set(NodeResult::Success);
    assert_eq!(tree.tick(&mut registry), Ok(NodeResult::Success));
    status.set(NodeResult::Failure);
    assert_eq!(tree.tick(&mut registry), Ok(NodeResult::Failure));
    assert_eq!(calls.get(), 3);
}

#[test]
fn condition_maps_answer_to_status() {
    let calls = probe();
    let answer = Rc::new(Cell::new(true));
    let mut registry = Registry::new();
    register_answer(&mut registry, "ready", &answer, &calls);
    let mut node = Node::condition("ready", Vec::new());
    assert_eq!(node.tick(&mut registry), Ok(NodeResult::Success));
    answer.set(false);
    assert_eq!(node.tick(&mut registry), Ok(NodeResult::Failure));
    assert_eq!(calls.get(), 2);
}

#[test]
fn handlers_receive_the_arguments_of_their_leaf() {
    let seen = Rc::new(Cell::new(0usize));
    let mut registry = Registry::new();
    let record = Rc::clone(&seen);
    registry.register_condition("takes", move |args: &[Value]| {
        record.set(args.len());
        args.len() == 2 && args[0] == Value::from("use_hp") && args[1] == Value::from(7)
    });
    let mut node = Node::condition("takes", vec![Value::from("use_hp"), Value::from(7)]);
    assert_eq!(node.tick(&mut registry), Ok(NodeResult::Success));
    assert_eq!(seen.get(), 2);
}

#[test]
fn false_guard_fails_without_ticking_child() {
    let (guard_calls, child_calls) = (probe(), probe());
    let alive = Rc::new(Cell::new(false));
    let mut registry = Registry::new();
    register_answer(&mut registry, "alive", &alive, &guard_calls);
    register_fixed(&mut registry, "work", NodeResult::Success, &child_calls);
    let mut node = Node::while_("alive", Vec::new(), leaf("work"));
    assert_eq!(node.tick(&mut registry), Ok(NodeResult::Failure));
    assert_eq!(node.tick(&mut registry), Ok(NodeResult::Failure));
    assert_eq!((guard_calls.get(), child_calls.get()), (2, 0));
}

#[test]
fn true_guard_hands_tick_to_child() {
    let (guard_calls, child_calls) = (probe(), probe());
    let alive = Rc::new(Cell::new(true));
    let mut registry = Registry::new();
    register_answer(&mut registry, "alive", &alive, &guard_calls);
    register_fixed(&mut registry, "work", NodeResult::Running, &child_calls);
    let mut node = Node::while_("alive", Vec::new(), leaf("work"));
    assert_eq!(node.tick(&mut registry), Ok(NodeResult::Running));
    assert_eq!((guard_calls.get(), child_calls.get()), (1, 1));
    alive.set(false);
    assert_eq!(node.tick(&mut registry), Ok(NodeResult::Failure));
    assert_eq!((guard_calls.get(), child_calls.get()), (2, 1));
}

#[test]
fn unknown_action_is_an_error() {
    let mut registry = Registry::new();
    let mut tree = BehaviorTree::new(Node::root(leaf("missing")));
    assert_eq!(tree.tick(&mut registry), Err(TickError::ActionNotFound("missing".to_string())));
}

#[test]
fn unknown_condition_is_an_error() {
    let mut registry = Registry::new();
    let mut node = Node::condition("missing", Vec::new());
    assert_eq!(node.tick(&mut registry), Err(TickError::ConditionNotFound("missing".to_string())));
}

#[test]
fn unknown_guard_is_an_error_and_child_is_not_ticked() {
    let calls = probe();
    let mut registry = Registry::new();
    register_fixed(&mut registry, "work", NodeResult::Success, &calls);
    let mut node = Node::while_("missing", Vec::new(), leaf("work"));
    assert_eq!(node.tick(&mut registry), Err(TickError::ConditionNotFound("missing".to_string())));
    assert_eq!(calls.get(), 0);
}

#[test]
fn error_aborts_a_selector_instead_of_falling_through() {
    let calls = probe();
    let mut registry = Registry::new();
    register_fixed(&mut registry, "fallback", NodeResult::Success, &calls);
    let mut node = Node::selector(vec![leaf("missing"), leaf("fallback")]);
    assert_eq!(node.tick(&mut registry), Err(TickError::ActionNotFound("missing".to_string())));
    assert_eq!(calls.get(), 0);
}

#[test]
fn conditions_and_actions_are_separate_names() {
    let calls = probe();
    let mut registry = Registry::new();
    register_fixed(&mut registry, "shared", NodeResult::Success, &calls);
    let mut node = Node::condition("shared", Vec::new());
    assert_eq!(node.tick(&mut registry), Err(TickError::ConditionNotFound("shared".to_string())));
    assert_eq!(calls.get(), 0);
}

#[test]
fn later_registration_replaces_earlier() {
    let (old, new) = (probe(), probe());
    let mut registry = Registry::new();
    register_fixed(&mut registry, "work", NodeResult::Failure, &old);
    register_fixed(&mut registry, "work", NodeResult::Success, &new);
    let mut node = leaf("work");
    assert_eq!(node.tick(&mut registry), Ok(NodeResult::Success));
    assert_eq!((old.get(), new.get()), (0, 1));
}

#[test]
fn pick_takes_the_remainder() {
    assert_eq!(pick(0, 3), Some(0));
    assert_eq!(pick(7, 3), Some(1));
    assert_eq!(pick(8, 3), Some(2));
    assert_eq!(pick(1_700_000_000_123_456_789, 2), Some(1));
    assert_eq!(pick(u128::MAX, 1), Some(0));
    assert_eq!(pick(5, 0), None);
}

#[test]
fn lotto_stays_with_running_child() {
    let (first, second, third) = (probe(), probe(), probe());
    let status = Rc::new(Cell::new(NodeResult::Running));
    let mut registry = Registry::new();
    register_variable(&mut registry, "first", &status, &first);
    register_variable(&mut registry, "second", &status, &second);
    register_variable(&mut registry, "third", &status, &third);
    let mut node = Node::lotto(vec![leaf("first"), leaf("second"), leaf("third")]);
    for _ in 0..50 {
        assert_eq!(node.tick(&mut registry), Ok(NodeResult::Running));
    }
    let counts = [first.get(), second.get(), third.get()];
    assert_eq!(counts.iter().sum::<u32>(), 50);
    assert_eq!(counts.iter().filter(|&&count| count == 50).count(), 1);
    assert_eq!(counts.iter().filter(|&&count| count == 0).count(), 2);
}

#[test]
fn lotto_reports_the_status_of_its_child() {
    let calls = probe();
    let status = Rc::new(Cell::new(NodeResult::Running));
    let mut registry = Registry::new();
    register_variable(&mut registry, "only", &status, &calls);
    let mut node = Node::lotto(vec![leaf("only")]);
    assert_eq!(node.tick(&mut registry), Ok(NodeResult::Running));
    status.set(NodeResult::Success);
    assert_eq!(node.tick(&mut registry), Ok(NodeResult::Success));
    status.set(NodeResult::Failure);
    assert_eq!(node.tick(&mut registry), Ok(NodeResult::Failure));
    assert_eq!(calls.get(), 3);
}

#[test]
fn lotto_draws_again_after_resolution() {
    let (first, second, third) = (probe(), probe(), probe());
    let mut registry = Registry::new();
    register_fixed(&mut registry, "first", NodeResult::Success, &first);
    register_fixed(&mut registry, "second", NodeResult::Failure, &second);
    register_fixed(&mut registry, "third", NodeResult::Failure, &third);
    let turn = Rc::new(Cell::new(0u128));
    let source = Rc::clone(&turn);
    registry.register_draw(move || {
        source.set(source.get() + 7);
        source.get()
    });
    let mut node = Node::lotto(vec![leaf("first"), leaf("second"), leaf("third")]);
    let mut successes = 0;
    let mut failures = 0;
    for _ in 0..3000 {
        match node.tick(&mut registry) {
            Ok(NodeResult::Success) => successes += 1,
            Ok(NodeResult::Failure) => failures += 1,
            other => panic!("unexpected {:?}", other),
        }
    }
    assert_eq!(successes, first.get());
    assert_eq!(failures, second.get() + third.get());
    assert_eq!(successes + failures, 3000);
    assert_eq!((first.get(), second.get(), third.get()), (1000, 1000, 1000));
    assert_eq!(turn.get(), 21000);
}

#[test]
fn lotto_without_a_source_takes_its_first_child() {
    let (first, second) = (probe(), probe());
    let mut registry = Registry::new();
    register_fixed(&mut registry, "first", NodeResult::Success, &first);
    register_fixed(&mut registry, "second", NodeResult::Failure, &second);
    let mut node = Node::lotto(vec![leaf("first"), leaf("second")]);
    for _ in 0..10 {
        assert_eq!(node.tick(&mut registry), Ok(NodeResult::Success));
    }
    assert_eq!((first.get(), second.get()), (10, 0));
    assert_eq!(registry.draw(), 0);
}

#[test]
fn lotto_takes_the_child_at_the_remainder_of_the_draw() {
    let (first, second, third) = (probe(), probe(), probe());
    let mut registry = Registry::new();
    register_fixed(&mut registry, "first", NodeResult::Success, &first);
    register_fixed(&mut registry, "second", NodeResult::Success, &second);
    register_fixed(&mut registry, "third", NodeResult::Success, &third);
    registry.register_draw(|| 1_700_000_000_123_456_788);
    assert_eq!(registry.draw(), 1_700_000_000_123_456_788);
    let mut node = Node::lotto(vec![leaf("first"), leaf("second"), leaf("third")]);
    assert_eq!(node.tick(&mut registry), Ok(NodeResult::Success));
    assert_eq!((first.get(), second.get(), third.get()), (0, 1, 0));
    registry.register_draw(|| 9);
    assert_eq!(node.tick(&mut registry), Ok(NodeResult::Success));
    assert_eq!((first.get(), second.get(), third.get()), (1, 1, 0));
    registry.register_draw(|| 11);
    assert_eq!(node.tick(&mut registry), Ok(NodeResult::Success));
    assert_eq!((first.get(), second.get(), third.get()), (1, 1, 1));
}

#[test]
fn lotto_draws_only_when_it_has_to_select() {
    let calls = probe();
    let draws = probe();
    let status = Rc::new(Cell::new(NodeResult::Running));
    let mut registry = Registry::new();
    register_variable(&mut registry, "work", &status, &calls);
    let count = Rc::clone(&draws);
    registry.register_draw(move || {
        count.set(count.get() + 1);
        5
    });
    let mut node = Node::lotto(vec![leaf("work"), leaf("work")]);
    for _ in 0..4 {
        assert_eq!(node.tick(&mut registry), Ok(NodeResult::Running));
    }
    assert_eq!(draws.get(), 1);
    status.set(NodeResult::Success);
    assert_eq!(node.tick(&mut registry), Ok(NodeResult::Success));
    assert_eq!(draws.get(), 1);
    assert_eq!(node.tick(&mut registry), Ok(NodeResult::Success));
    assert_eq!(draws.get(), 2);
    assert_eq!(Node::lotto(Vec::new()).tick(&mut registry), Ok(NodeResult::Failure));
    assert_eq!(draws.get(), 2);
}

#[test]
fn well_formed_tree_has_one_root_and_no_empty_composite() {
    let whole = Node::root(Node::while_(
        "alive",
        Vec::new(),
        Node::selector(vec![
            Node::sequence(vec![Node::condition("low", vec![Value::from(0.75)]), leaf("heal")]),
            Node::lotto(vec![leaf("goo"), leaf("bee")]),
        ]),
    ));
    assert!(whole.is_well_formed());
    assert!(BehaviorTree::new(whole).is_well_formed());

    assert!(!leaf("heal").is_well_formed());
    assert!(!Node::sequence(vec![leaf("heal")]).is_well_formed());
    assert!(!Node::root(Node::root(leaf("heal"))).is_well_formed());
    assert!(!Node::root(Node::sequence(Vec::new())).is_well_formed());
    assert!(!Node::root(Node::selector(Vec::new())).is_well_formed());
    assert!(!Node::root(Node::lotto(Vec::new())).is_well_formed());
    assert!(!Node::root(Node::sequence(vec![leaf("heal"), Node::selector(Vec::new())])).is_well_formed());
    assert!(!Node::root(Node::while_("alive", Vec::new(), Node::root(leaf("heal")))).is_well_formed());
    assert!(!BehaviorTree::new(leaf("heal")).is_well_formed());
}

#[test]
fn tick_leaves_tree_well_formed() {
    let calls = probe();
    let mut registry = Registry::new();
    register_fixed(&mut registry, "goo", NodeResult::Running, &calls);
    register_fixed(&mut registry, "bee", NodeResult::Success, &calls);
    let mut tree = BehaviorTree::new(Node::root(Node::lotto(vec![leaf("goo"), leaf("bee")])));
    assert!(tree.is_well_formed());
    for _ in 0..20 {
        assert!(tree.tick(&mut registry).is_ok());
        assert!(tree.is_well_formed());
    }
}

#[test]
fn guard_takes_one_child_or_the_sequence_of_several() {
    let (first, second) = (probe(), probe());
    let alive = Rc::new(Cell::new(true));
    let guard_calls = probe();
    let mut registry = Registry::new();
    register_answer(&mut registry, "alive", &alive, &guard_calls);
    register_fixed(&mut registry, "first", NodeResult::Failure, &first);
    register_fixed(&mut registry, "second", NodeResult::Success, &second);

    let mut single = Node::guard("alive", Vec::new(), vec![leaf("second")]);
    assert_eq!(single.tick(&mut registry), Ok(NodeResult::Success));
    assert!(Node::root(Node::guard("alive", Vec::new(), vec![leaf("second")])).is_well_formed());

    let mut several = Node::guard("alive", Vec::new(), vec![leaf("first"), leaf("second")]);
    assert_eq!(several.tick(&mut registry), Ok(NodeResult::Failure));
    assert_eq!((first.get(), second.get()), (1, 1));

    let mut none = Node::guard("alive", Vec::new(), Vec::new());
    assert_eq!(none.tick(&mut registry), Ok(NodeResult::Success));
    assert!(!Node::root(Node::guard("alive", Vec::new(), Vec::new())).is_well_formed());

    alive.set(false);
    assert_eq!(several.tick(&mut registry), Ok(NodeResult::Failure));
    assert_eq!((first.get(), second.get()), (1, 1));
}
