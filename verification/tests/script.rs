use wat::script::{runs_as_script, normalise_event, Dispatch, ScriptError};

#[test]
fn event_names_are_normalised() {
    assert_eq!(normalise_event("onclick"), "click");
    assert_eq!(normalise_event("onClick"), "click");
    assert_eq!(normalise_event("click"), "click");
    assert_eq!(normalise_event("CLICK"), "click");
    // A bare `on` is an event named "on", not an empty name.
    assert_eq!(normalise_event("on"), "on");
}

#[test]
fn an_on_prefix_names_the_same_event() {
    for name in ["click", "Input", "KEYDOWN", "on"] {
        assert_eq!(
            normalise_event(&format!("on{name}")),
            normalise_event(name)
        );
    }
}

#[test]
fn script_errors_read_like_a_console_line() {
    let error = ScriptError { index: Some(12), message: "boom".to_string(), fatal: false };
    assert_eq!(error.describe(), "script 12: boom");
    let eval = ScriptError { index: None, message: "oops".to_string(), fatal: true };
    assert_eq!(eval.describe(), "oops");
    let first = ScriptError { index: Some(0), message: "x".to_string(), fatal: false };
    assert_eq!(first.describe(), "script 0: x");
}

#[test]
fn a_fresh_dispatch_changed_nothing() {
    let dispatch = Dispatch::default();
    assert!(!dispatch.default_prevented);
    assert_eq!(dispatch.listeners_run, 0);
    assert!(dispatch.errors.is_empty());
}

#[test]
fn only_javascript_types_run() {
    assert!(runs_as_script(None));
    assert!(runs_as_script(Some("")));
    assert!(runs_as_script(Some("  Text/JavaScript ")));
    assert!(runs_as_script(Some("application/javascript")));
    assert!(runs_as_script(Some("module")));
    assert!(!runs_as_script(Some("application/json")));
    assert!(!runs_as_script(Some("text/template")));
}
