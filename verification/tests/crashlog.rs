//! The crash log and the watch over the UI thread.

use gridterm::crashlog::{
    event_label, freeze_body, freeze_warning, log_block, log_dir, log_path, now_str, panic_body,
    startup_body, EventKind, Heartbeat, Watchdog,
};

#[test]
fn append_writes_to_log() {
    let contents = log_block("TEST", 17, "hello from test");
    assert!(contents.contains("TEST"), "log missing TEST block");
    assert!(contents.contains("hello from test"));
    assert_eq!(contents, "\n===== TEST @ unix:17 =====\nhello from test\n");
}

#[test]
fn watchdog_flags_long_processing() {
    let mut hb = Heartbeat::new();
    let mut watchdog = Watchdog::new(300);
    hb.begin(100);
    // The watchdog looks every half second.
    let mut contents = String::new();
    if let Some(ms) = watchdog.look(hb.processing_since_ms, 500) {
        contents = log_block("FREEZE", 0, &freeze_body(ms, &hb.current_op));
    }
    hb.end();
    assert!(contents.contains("FREEZE"), "watchdog did not log FREEZE");
    assert!(contents.contains("UI thread blocked for 0.4s during operation: [idle]."));
}

#[test]
fn one_warning_per_freeze() {
    let mut watchdog = Watchdog::new(300);
    assert_eq!(watchdog.look(0, 10_000), None);
    assert_eq!(watchdog.look(1_000, 1_299), None);
    assert_eq!(watchdog.look(1_000, 1_300), Some(300));
    assert_eq!(watchdog.look(1_000, 9_000), None);
    assert_eq!(watchdog.look(9_500, 9_900), Some(400));
    assert_eq!(watchdog.look(20_000, 10_000), None);
}

#[test]
fn processing_begins_and_ends() {
    let mut hb = Heartbeat::new();
    assert_eq!(hb.current_op, "idle");
    hb.mark("render".to_string());
    hb.begin(0);
    assert_eq!(hb.processing_since_ms, 1);
    hb.begin(42);
    assert_eq!(hb.processing_since_ms, 42);
    assert_eq!(hb.current_op, "render");
    hb.end();
    assert_eq!(hb.processing_since_ms, 0);
}

#[test]
fn texts_of_the_log() {
    assert_eq!(now_str(0), "unix:0");
    assert_eq!(log_dir("/h"), "/h/.gridterm");
    assert_eq!(log_path(Some("/h".to_string())), "/h/.gridterm/crash.log");
    assert_eq!(log_path(None), "gridterm-crash.log");
    assert_eq!(startup_body(7), "gridterm started (pid 7)");
    assert_eq!(
        panic_body(Some("main"), Some("a.rs:1:2"), Some("boom"), "bt"),
        "thread: main\nlocation: a.rs:1:2\nmessage: boom\n\nbacktrace:\nbt"
    );
    assert_eq!(
        panic_body(None, None, None, ""),
        "thread: <unnamed>\nlocation: unknown\nmessage: <non-string panic payload>\n\nbacktrace:\n"
    );
    assert_eq!(
        freeze_body(12_345, "tool:wait"),
        "UI thread blocked for 12.3s during operation: [tool:wait]. A blocking call is running on the UI thread (long tool call, lock contention, or deadlock)."
    );
    assert_eq!(
        freeze_warning(4_000, "/l"),
        "[gridterm] WARNING: UI blocked 4.0s — logged to /l"
    );
}

#[test]
fn events_have_labels() {
    let all = [
        (EventKind::RedrawRequested, "redraw"),
        (EventKind::KeyboardInput, "key"),
        (EventKind::MouseInput, "mouse"),
        (EventKind::MouseWheel, "wheel"),
        (EventKind::CursorMoved, "cursor"),
        (EventKind::Resized, "resize"),
        (EventKind::ModifiersChanged, "mods"),
        (EventKind::CloseRequested, "close"),
        (EventKind::Other, "other"),
    ];
    for (kind, label) in all {
        assert_eq!(event_label(kind), label);
    }
}
