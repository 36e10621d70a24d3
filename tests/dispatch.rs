use std::cell::RefCell;
use std::rc::Rc;

use simple_event_bus::event_bus::{next_step, Position, Stage, Step};
use simple_event_bus::{Event, EventBus, Subscriber};

struct ExampleSubscriber {}

impl ExampleSubscriber {
    const NAME: &'static str = "ExampleSubscriber";

    pub fn new() -> ExampleSubscriber {
        ExampleSubscriber {}
    }
}

impl Subscriber for ExampleSubscriber {
    fn on_event(&mut self, event: &mut Event) -> Result<(), String> {
        match event.get_data::<String>() {
            Some(_value) => Ok(()),
            None => {
                let message = format!("{} received UNKNOWN message", ExampleSubscriber::NAME);
                Err(message)
            }
        }
    }
}

#[test]
fn test_publisher() {
    let mut event_bus = EventBus::new();
    event_bus.subscribe_listener("bar", ExampleSubscriber::new());
    let result = event_bus
        .register("bar", Event::new("hello".to_string()))
        .publish();
    assert_eq!(Ok(()), result);
}

#[test]
fn test_publisher_with_invalid_payload() {
    let mut event_bus = EventBus::new();
    event_bus.subscribe_listener("bar", ExampleSubscriber::new());
    let result = event_bus.register("bar", Event::new(32u32)).publish();
    let message = "ExampleSubscriber received UNKNOWN message".to_string();
    let expected = Err(message.clone());
    assert_eq!(expected, result, "Expected error message: '{}'", message);
}

type Log = Rc<RefCell<Vec<String>>>;

fn describe(event: &Event) -> String {
    if let Some(s) = event.get_data::<String>() {
        format!("str:{}", s)
    } else if let Some(n) = event.get_data::<u32>() {
        format!("u32:{}", n)
    } else {
        "other".to_string()
    }
}

/// Records every stage it runs; fails a stage on payloads of an unexpected type.
struct Recorder {
    name: &'static str,
    log: Log,
    fail_before_on_str: bool,
    expect_u32_in_event: bool,
}

impl Recorder {
    fn new(name: &'static str, log: &Log) -> Recorder {
        Recorder { name, log: log.clone(), fail_before_on_str: false, expect_u32_in_event: false }
    }
}

impl Subscriber for Recorder {
    fn on_before(&mut self, event: &mut Event) -> Result<(), String> {
        self.log.borrow_mut().push(format!("{} before {}", self.name, describe(event)));
        if self.fail_before_on_str && event.get_data::<String>().is_some() {
            return Err(format!("{} rejected a string", self.name));
        }
        Ok(())
    }

    fn on_event(&mut self, event: &mut Event) -> Result<(), String> {
        self.log.borrow_mut().push(format!("{} event {}", self.name, describe(event)));
        if self.expect_u32_in_event && event.get_data::<u32>().is_none() {
            return Err(format!("{} expected a number", self.name));
        }
        Ok(())
    }

    fn on_after(&self, event: &Event) -> Result<(), String> {
        self.log.borrow_mut().push(format!("{} after {}", self.name, describe(event)));
        Ok(())
    }
}

/// Adds one to a `u32` payload before the main stage; fails on anything else.
struct Incrementer {
    log: Log,
}

impl Subscriber for Incrementer {
    fn on_before(&mut self, event: &mut Event) -> Result<(), String> {
        match event.get_data::<u32>() {
            Some(v) => {
                let next = *v + 1;
                event.set_data::<u32>(next);
                Ok(())
            }
            None => Err("Number Subscriber received invalid message".to_string()),
        }
    }

    fn on_event(&mut self, event: &mut Event) -> Result<(), String> {
        self.log.borrow_mut().push(describe(event));
        Ok(())
    }
}

fn entries(log: &Log) -> Vec<String> {
    log.borrow().clone()
}

#[test]
fn two_string_listeners_receive_in_subscription_order() {
    let log: Log = Rc::new(RefCell::new(Vec::new()));
    let mut bus = EventBus::new();
    bus.subscribe_listener("bar", Recorder::new("A", &log));
    bus.subscribe_listener("bar", Recorder::new("B", &log));
    let result = bus.register("bar", Event::new("hello".to_string())).publish();
    assert_eq!(result, Ok(()));
    assert_eq!(
        entries(&log),
        vec![
            "A before str:hello",
            "B before str:hello",
            "A event str:hello",
            "B event str:hello",
            "A after str:hello",
            "B after str:hello",
        ]
    );
}

#[test]
fn events_arrive_in_registration_order() {
    let log: Log = Rc::new(RefCell::new(Vec::new()));
    let mut bus = EventBus::new();
    bus.subscribe_listener("t", Recorder::new("L", &log));
    bus.register("t", Event::new(1u32));
    bus.register("t", Event::new(2u32));
    bus.register("t", Event::new(3u32));
    assert_eq!(bus.publish(), Ok(()));
    let events: Vec<String> = entries(&log).into_iter().filter(|e| e.starts_with("L event")).collect();
    assert_eq!(events, vec!["L event u32:1", "L event u32:2", "L event u32:3"]);
}

#[test]
fn numeric_listener_then_string_payload_fails_fast() {
    let log: Log = Rc::new(RefCell::new(Vec::new()));
    let mut bus = EventBus::new();
    bus.subscribe_listener("foo", Incrementer { log: log.clone() });
    bus.register("foo", Event::new(32u32));
    bus.register("foo", Event::new("hello".to_string()));
    let result = bus.publish();
    assert_eq!(result, Err("Number Subscriber received invalid message".to_string()));
    assert_eq!(entries(&log), vec!["u32:33"]);
}

#[test]
fn topic_without_listeners_is_dropped_without_error() {
    let log: Log = Rc::new(RefCell::new(Vec::new()));
    let mut bus = EventBus::new();
    bus.subscribe_listener("other", Recorder::new("L", &log));
    bus.register("lonely", Event::new(7u32));
    assert_eq!(bus.publish(), Ok(()));
    assert!(entries(&log).is_empty());
    assert_eq!(bus.publish(), Ok(()));
    assert!(entries(&log).is_empty());

    let mut best_effort = EventBus::with_fail_on_error(false);
    best_effort.subscribe_listener("other", Recorder::new("L", &log));
    best_effort.register("lonely", Event::new(7u32));
    assert_eq!(best_effort.publish(), Ok(()));
    assert!(entries(&log).is_empty());
}

#[test]
fn clear_discards_pending_events() {
    let log: Log = Rc::new(RefCell::new(Vec::new()));
    let mut bus = EventBus::new();
    bus.subscribe_listener("t", Recorder::new("L", &log));
    bus.register("t", Event::new(1u32));
    bus.register("u", Event::new(2u32));
    bus.clear();
    assert_eq!(bus.publish(), Ok(()));
    assert!(entries(&log).is_empty());
    bus.register("t", Event::new(3u32));
    assert_eq!(bus.publish(), Ok(()));
    assert_eq!(entries(&log), vec!["L before u32:3", "L event u32:3", "L after u32:3"]);
}

#[test]
fn event_failure_under_fail_fast_stops_other_topics() {
    let log: Log = Rc::new(RefCell::new(Vec::new()));
    let mut bus = EventBus::new();
    let mut strict = Recorder::new("N", &log);
    strict.expect_u32_in_event = true;
    bus.subscribe_listener("first", strict);
    bus.subscribe_listener("second", Recorder::new("S", &log));
    bus.register("first", Event::new("x".to_string()));
    bus.register("second", Event::new(5u32));
    let result = bus.publish();
    assert_eq!(result, Err("N expected a number".to_string()));
    assert_eq!(entries(&log), vec!["N before str:x", "N event str:x"]);
    assert_eq!(bus.publish(), Ok(()));
    assert_eq!(entries(&log).len(), 2);
}

#[test]
fn before_failure_under_best_effort_skips_later_stages() {
    let log: Log = Rc::new(RefCell::new(Vec::new()));
    let mut bus = EventBus::with_fail_on_error(false);
    let mut picky = Recorder::new("P", &log);
    picky.fail_before_on_str = true;
    bus.subscribe_listener("t", picky);
    bus.subscribe_listener("t", Recorder::new("Q", &log));
    bus.subscribe_listener("u", Recorder::new("U", &log));
    bus.register("t", Event::new(1u32));
    bus.register("t", Event::new("bad".to_string()));
    bus.register("t", Event::new(2u32));
    bus.register("u", Event::new(9u32));
    assert_eq!(bus.publish(), Ok(()));
    assert_eq!(
        entries(&log),
        vec![
            "P before u32:1",
            "Q before u32:1",
            "P event u32:1",
            "Q event u32:1",
            "P after u32:1",
            "Q after u32:1",
            "P before str:bad",
            "U before u32:9",
            "U event u32:9",
            "U after u32:9",
        ]
    );
}

/// Keeps every default stage.
struct Quiet;

impl Subscriber for Quiet {}

#[test]
fn default_stages_succeed() {
    let mut bus = EventBus::new();
    bus.subscribe_listener("t", Quiet).subscribe_listener("t", Quiet);
    bus.register("t", Event::new(true)).register("t", Event::new('c'));
    assert_eq!(bus.publish(), Ok(()));
}

#[test]
fn get_data_round_trip() {
    let e = Event::new(32u32);
    assert_eq!(e.get_data::<u32>(), Some(&32u32));
    assert_eq!(e.get_data::<u64>(), None);
    assert_eq!(e.get_data::<i32>(), None);
    assert_eq!(e.get_data::<String>(), None);

    let s = Event::new("hello".to_string());
    assert_eq!(s.get_data::<String>(), Some(&"hello".to_string()));
    assert_eq!(s.get_data::<u32>(), None);
}

#[test]
fn set_data_changes_type() {
    let mut e = Event::new(32u32);
    e.set_data::<String>("hello".to_string());
    assert_eq!(e.get_data::<u32>(), None);
    assert_eq!(e.get_data::<String>(), Some(&"hello".to_string()));
    e.set_data::<i64>(-5);
    assert_eq!(e.get_data::<i64>(), Some(&-5i64));
    assert_eq!(e.get_data::<String>(), None);
}

#[test]
fn every_payload_type_reads_back() {
    assert_eq!(Event::new(true).get_data::<bool>(), Some(&true));
    assert_eq!(Event::new('z').get_data::<char>(), Some(&'z'));
    assert_eq!(Event::new(200u8).get_data::<u8>(), Some(&200u8));
    assert_eq!(Event::new(60000u16).get_data::<u16>(), Some(&60000u16));
    assert_eq!(Event::new(u64::MAX).get_data::<u64>(), Some(&u64::MAX));
    assert_eq!(Event::new(7usize).get_data::<usize>(), Some(&7usize));
    assert_eq!(Event::new(-8i8).get_data::<i8>(), Some(&-8i8));
    assert_eq!(Event::new(-300i16).get_data::<i16>(), Some(&-300i16));
    assert_eq!(Event::new(-70000i32).get_data::<i32>(), Some(&-70000i32));
    assert_eq!(Event::new(-1isize).get_data::<isize>(), Some(&-1isize));
    assert_eq!(Event::new(1u8).get_data::<u16>(), None);
    assert_eq!(Event::new(1i8).get_data::<u8>(), None);
}

fn at(event: usize, stage: Stage, listener: usize) -> Position {
    Position { event, stage, listener }
}

#[test]
fn next_step_walks_listeners_stages_and_events() {
    let s = next_step(true, at(0, Stage::Before, 0), 2, 2, Ok(()));
    assert!(matches!(s, Step::Next(p) if p == at(0, Stage::Before, 1)));
    let s = next_step(true, at(0, Stage::Before, 1), 2, 2, Ok(()));
    assert!(matches!(s, Step::Next(p) if p == at(0, Stage::OnEvent, 0)));
    let s = next_step(true, at(0, Stage::OnEvent, 1), 2, 2, Ok(()));
    assert!(matches!(s, Step::Next(p) if p == at(0, Stage::After, 0)));
    let s = next_step(false, at(0, Stage::After, 1), 2, 2, Ok(()));
    assert!(matches!(s, Step::Next(p) if p == at(1, Stage::Before, 0)));
    let s = next_step(true, at(1, Stage::After, 1), 2, 2, Ok(()));
    assert!(matches!(s, Step::EndOfTopic));
}

#[test]
fn next_step_on_failure_follows_policy() {
    let s = next_step(true, at(0, Stage::OnEvent, 0), 3, 1, Err("boom".to_string()));
    assert!(matches!(s, Step::Abort(ref m) if m == "boom"));
    let s = next_step(false, at(0, Stage::OnEvent, 0), 3, 1, Err("boom".to_string()));
    assert!(matches!(s, Step::EndOfTopic));
}
