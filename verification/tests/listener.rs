use std::cell::RefCell;
use std::rc::Rc;

use xybrid::listener::{
    clear_execution_listener, closing_event_for, emit, set_execution_listener, ExecutionEvent,
    ExecutionGuard, ListenerRegistry, latency_from_millis,
};

type Log = Rc<RefCell<Vec<(&'static str, ExecutionEvent)>>>;
type Listener = Box<dyn Fn(ExecutionEvent)>;

fn recorder(tag: &'static str, log: Log) -> Listener {
    Box::new(move |event| log.borrow_mut().push((tag, event)))
}

fn started(model: &str, method: &str) -> ExecutionEvent {
    ExecutionEvent::Started { model_id: model.to_string(), method: method.to_string() }
}

#[test]
fn emit_without_listener_reaches_nobody() {
    let log: Log = Rc::new(RefCell::new(Vec::new()));
    let mut registry: ListenerRegistry<Listener> = ListenerRegistry::new();
    emit(&mut registry, started("m", "execute"));
    assert!(log.borrow().is_empty());
}

#[test]
fn emit_reaches_registered_listener() {
    let log = Rc::new(RefCell::new(Vec::new()));
    let mut registry: ListenerRegistry<Listener> = ListenerRegistry::new();
    set_execution_listener(&mut registry, recorder("first", log.clone()));
    emit(&mut registry, started("whisper-tiny", "execute"));
    assert_eq!(*log.borrow(), vec![("first", started("whisper-tiny", "execute"))]);
}

#[test]
fn registering_replaces_previous_listener() {
    let log = Rc::new(RefCell::new(Vec::new()));
    let mut registry: ListenerRegistry<Listener> = ListenerRegistry::new();
    set_execution_listener(&mut registry, recorder("first", log.clone()));
    set_execution_listener(&mut registry, recorder("second", log.clone()));
    emit(&mut registry, started("a", "b"));
    assert_eq!(*log.borrow(), vec![("second", started("a", "b"))]);
}

#[test]
fn cleared_listener_receives_nothing() {
    let log = Rc::new(RefCell::new(Vec::new()));
    let mut registry: ListenerRegistry<Listener> = ListenerRegistry::new();
    set_execution_listener(&mut registry, recorder("first", log.clone()));
    emit(&mut registry, started("a", "b"));
    clear_execution_listener(&mut registry);
    emit(&mut registry, started("c", "d"));
    assert_eq!(log.borrow().len(), 1);
}

#[test]
fn guard_reports_started_then_completed() {
    let log = Rc::new(RefCell::new(Vec::new()));
    let mut registry: ListenerRegistry<Listener> = ListenerRegistry::new();
    set_execution_listener(&mut registry, recorder("l", log.clone()));
    let guard = ExecutionGuard::new(&mut registry, "kokoro-82m".to_string(), "execute".to_string());
    assert_eq!(*log.borrow(), vec![("l", started("kokoro-82m", "execute"))]);
    let latency = guard.finish(&mut registry);
    assert_eq!(
        log.borrow()[1],
        (
            "l",
            ExecutionEvent::Completed {
                model_id: "kokoro-82m".to_string(),
                method: "execute".to_string(),
                latency_ms: latency,
            }
        )
    );
    assert_eq!(log.borrow().len(), 2);
}

#[test]
fn guard_reports_last_failure() {
    let log = Rc::new(RefCell::new(Vec::new()));
    let mut registry: ListenerRegistry<Listener> = ListenerRegistry::new();
    set_execution_listener(&mut registry, recorder("l", log.clone()));
    let mut guard =
        ExecutionGuard::new(&mut registry, "m".to_string(), "execute_streaming".to_string());
    guard.set_failed("first error".to_string());
    guard.set_failed("out of memory".to_string());
    let latency = guard.finish(&mut registry);
    assert_eq!(log.borrow().len(), 2);
    assert_eq!(
        log.borrow()[1].1,
        ExecutionEvent::Failed {
            model_id: "m".to_string(),
            method: "execute_streaming".to_string(),
            latency_ms: latency,
            error: "out of memory".to_string(),
        }
    );
}

#[test]
fn guard_without_listener_is_silent() {
    let mut registry: ListenerRegistry<Listener> = ListenerRegistry::new();
    let guard = ExecutionGuard::new(&mut registry, "m".to_string(), "execute".to_string());
    let latency = guard.finish(&mut registry);
    assert!(latency < 10_000);
}

#[test]
fn closing_event_is_failed_or_completed() {
    let model = "m".to_string();
    let method = "execute".to_string();
    assert_eq!(
        closing_event_for(&model, &method, 42, None),
        ExecutionEvent::Completed { model_id: model.clone(), method: method.clone(), latency_ms: 42 }
    );
    assert_eq!(
        closing_event_for(&model, &method, 7, Some("boom".to_string())),
        ExecutionEvent::Failed {
            model_id: model.clone(),
            method: method.clone(),
            latency_ms: 7,
            error: "boom".to_string(),
        }
    );
}

#[test]
fn listener_registered_after_start_gets_outcome_only() {
    let log: Log = Rc::new(RefCell::new(Vec::new()));
    let mut registry: ListenerRegistry<Listener> = ListenerRegistry::new();
    let guard = ExecutionGuard::new(&mut registry, "m".to_string(), "execute".to_string());
    set_execution_listener(&mut registry, recorder("late", log.clone()));
    let latency = guard.finish(&mut registry);
    assert_eq!(
        *log.borrow(),
        vec![(
            "late",
            ExecutionEvent::Completed {
                model_id: "m".to_string(),
                method: "execute".to_string(),
                latency_ms: latency,
            }
        )]
    );
}

#[test]
fn latency_is_truncated_millis() {
    assert_eq!(latency_from_millis(1234), 1234);
    assert_eq!(latency_from_millis(u64::MAX as u128), u64::MAX);
    assert_eq!(latency_from_millis(u64::MAX as u128 + 5), 4);
}

#[test]
fn finish_after_reports_given_latency() {
    let log: Log = Rc::new(RefCell::new(Vec::new()));
    let mut registry: ListenerRegistry<Listener> = ListenerRegistry::new();
    set_execution_listener(&mut registry, recorder("l", log.clone()));
    let mut guard = ExecutionGuard::new(&mut registry, "m".to_string(), "execute".to_string());
    guard.set_failed("timeout".to_string());
    assert_eq!(guard.finish_after(&mut registry, 250), 250);
    assert_eq!(
        log.borrow()[1].1,
        ExecutionEvent::Failed {
            model_id: "m".to_string(),
            method: "execute".to_string(),
            latency_ms: 250,
            error: "timeout".to_string(),
        }
    );
}
