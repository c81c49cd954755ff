//! What goes to the crash log: the blocks of the log, and the watch over the
//! UI thread that tells a freeze from a healthy wait.

use vstd::prelude::*;

use crate::ai::client;
use crate::browser;
use crate::browser::join_path;
use crate::rounding;
use crate::rounding::seconds_text;
use crate::text;
use crate::text::push_decimal;

verus! {

/// The directory of the log, where the user has one.
pub fn log_dir(home: &str) -> (r: String)
    ensures
        r@ == browser::own_dir(home@),
{
    join_path(home, ".gridterm")
}

/// Path to the crash/diagnostics log: in this program's own directory, or in
/// the working directory where the user has none.
pub fn log_path(home: Option<String>) -> (r: String)
    ensures
        r@ == (match client::opt_view(home) {
            Some(h) => browser::joined(browser::own_dir(h), "crash.log"@),
            None => "gridterm-crash.log"@,
        }),
{
    match home {
        Some(h) => join_path(log_dir(h.as_str()).as_str(), "crash.log"),
        None => "gridterm-crash.log".to_owned(),
    }
}

/// A time as the log shows it.
pub open spec fn stamp(secs: nat) -> Seq<char> {
    "unix:"@ + text::decimal(secs)
}

/// A time as the log shows it, in seconds since 1970.
pub fn now_str(secs: u64) -> (r: String)
    ensures
        r@ == stamp(secs as nat),
{
    let mut r: String = "unix:".to_owned();
    push_decimal(&mut r, secs as u128);
    r
}

/// A block of the log.
pub open spec fn block(label: Seq<char>, secs: nat, body: Seq<char>) -> Seq<char> {
    "\n===== "@ + label + " @ "@ + stamp(secs) + " =====\n"@ + body + "\n"@
}

/// A labeled block, as it is appended to the log.
pub fn log_block(label: &str, secs: u64, body: &str) -> (r: String)
    ensures
        r@ == block(label@, secs as nat, body@),
{
    let mut r: String = "\n===== ".to_owned();
    r.append(label);
    r.append(" @ ");
    r.append(now_str(secs).as_str());
    r.append(" =====\n");
    r.append(body);
    r.append("\n");
    r
}

/// What the log says of a panic.
pub fn panic_body(
    thread: Option<&str>,
    location: Option<&str>,
    message: Option<&str>,
    backtrace: &str,
) -> (r: String)
    ensures
        r@ == "thread: "@ + (match thread {
            Some(t) => t@,
            None => "<unnamed>"@,
        }) + "\nlocation: "@ + (match location {
            Some(l) => l@,
            None => "unknown"@,
        }) + "\nmessage: "@ + (match message {
            Some(m) => m@,
            None => "<non-string panic payload>"@,
        }) + "\n\nbacktrace:\n"@ + backtrace@,
{
    let mut r: String = "thread: ".to_owned();
    r.append(
        match thread {
            Some(t) => t,
            None => "<unnamed>",
        },
    );
    r.append("\nlocation: ");
    r.append(
        match location {
            Some(l) => l,
            None => "unknown",
        },
    );
    r.append("\nmessage: ");
    r.append(
        match message {
            Some(m) => m,
            None => "<non-string panic payload>",
        },
    );
    r.append("\n\nbacktrace:\n");
    r.append(backtrace);
    r
}

/// What the log says when the program starts.
pub fn startup_body(pid: u32) -> (r: String)
    ensures
        r@ == "gridterm started (pid "@ + text::decimal(pid as nat) + ")"@,
{
    let mut r: String = "gridterm started (pid ".to_owned();
    push_decimal(&mut r, pid as u128);
    r.append(")");
    r
}

/// Tracks whether the UI thread is currently inside event/render processing.
/// Freezes come from blocking calls during handling, so only processing that
/// has been active too long counts, never a healthy idle wait.
pub struct Heartbeat {
    /// When current processing began, in ms (0 = idle).
    pub processing_since_ms: u64,
    /// Label of the operation currently running on the UI thread.
    pub current_op: String,
}

impl Heartbeat {
    /// Nothing is being processed.
    pub fn new() -> (r: Self)
        ensures
            r.processing_since_ms == 0,
            r.current_op@ == "idle"@,
    {
        Heartbeat { processing_since_ms: 0, current_op: "idle".to_owned() }
    }

    /// Records what the UI thread is about to do.
    pub fn mark(&mut self, op: String)
        ensures
            final(self).current_op@ == op@,
            final(self).processing_since_ms == old(self).processing_since_ms,
    {
        self.current_op = op;
    }

    /// Marks the start of event/render processing, `now_ms` after the program
    /// started.
    pub fn begin(&mut self, now_ms: u64)
        ensures
            final(self).processing_since_ms == (if now_ms == 0 {
                1
            } else {
                now_ms
            }),
            final(self).current_op == old(self).current_op,
    {
        self.processing_since_ms = if now_ms == 0 {
            1
        } else {
            now_ms
        };
    }

    /// Marks the end of processing (back to healthy idle).
    pub fn end(&mut self)
        ensures
            final(self).processing_since_ms == 0,
            final(self).current_op == old(self).current_op,
    {
        self.processing_since_ms = 0;
    }
}

/// The watch over the UI thread.
pub struct Watchdog {
    /// How long processing may take, in ms.
    pub threshold_ms: u64,
    /// When the processing began of which there was a warning last (0 = none).
    pub warned_at: u64,
}

/// How long processing has taken.
pub open spec fn stalled(since: u64, now: u64) -> nat {
    if now > since {
        (now - since) as nat
    } else {
        0
    }
}

/// Whether processing that began at `since` is a freeze to warn of: it takes
/// too long, and there was no warning of it yet.
pub open spec fn frozen(since: u64, now: u64, threshold: u64, warned_at: u64) -> bool {
    since != 0 && stalled(since, now) >= threshold && since != warned_at
}

impl Watchdog {
    /// A watch that has warned of nothing yet.
    pub fn new(threshold_ms: u64) -> (r: Self)
        ensures
            r.threshold_ms == threshold_ms,
            r.warned_at == 0,
    {
        Watchdog { threshold_ms, warned_at: 0 }
    }

    /// Looks at the UI thread, `now` ms after the program started. Returns how
    /// long it has been frozen, where that is to be warned of.
    pub fn look(&mut self, since: u64, now: u64) -> (r: Option<u64>)
        ensures
            final(self).threshold_ms == old(self).threshold_ms,
            match r {
                Some(ms) => {
                    &&& frozen(since, now, old(self).threshold_ms, old(self).warned_at)
                    &&& ms == stalled(since, now)
                    &&& final(self).warned_at == since
                },
                None => {
                    &&& !frozen(since, now, old(self).threshold_ms, old(self).warned_at)
                    &&& final(self).warned_at == old(self).warned_at
                },
            },
    {
        if since == 0 {
            return None;
        }
        let ms: u64 = now.saturating_sub(since);
        if ms >= self.threshold_ms && since != self.warned_at {
            self.warned_at = since;
            Some(ms)
        } else {
            None
        }
    }
}

/// What the log says of a freeze.
pub fn freeze_body(ms: u64, op: &str) -> (r: String)
    ensures
        r@ == "UI thread blocked for "@ + rounding::seconds(ms as nat) + "s during operation: ["@
            + op@
            + "]. A blocking call is running on the UI thread (long tool call, lock contention, or deadlock)."@,
{
    let mut r: String = "UI thread blocked for ".to_owned();
    r.append(seconds_text(ms).as_str());
    r.append("s during operation: [");
    r.append(op);
    r.append(
        "]. A blocking call is running on the UI thread (long tool call, lock contention, or deadlock).",
    );
    r
}

/// What the user is warned of a freeze.
pub fn freeze_warning(ms: u64, log: &str) -> (r: String)
    ensures
        r@ == "[gridterm] WARNING: UI blocked "@ + rounding::seconds(ms as nat)
            + "s — logged to "@ + log@,
{
    let mut r: String = "[gridterm] WARNING: UI blocked ".to_owned();
    r.append(seconds_text(ms).as_str());
    r.append("s — logged to ");
    r.append(log);
    r
}

/// A healthy wait is never taken for a freeze.
pub proof fn law_idle_is_never_frozen(now: u64, threshold: u64, warned_at: u64)
    ensures
        !frozen(0, now, threshold, warned_at),
{
}

/// There is one warning of each freeze: after it, none of the same processing,
/// however long that goes on.
pub proof fn law_one_warning_per_freeze(since: u64, later: u64, threshold: u64)
    ensures
        !frozen(since, later, threshold, since),
{
}

/// Processing that takes too long is warned of, whenever one looks after that.
pub proof fn law_every_freeze_is_noticed(since: u64, now: u64, threshold: u64, warned_at: u64)
    requires
        0 < since <= now,
        now - since >= threshold,
        warned_at != since,
    ensures
        frozen(since, now, threshold, warned_at),
{
}

/// The kinds of event that the UI thread handles.
#[derive(Clone, Copy, Debug, PartialEq, Eq, Structural)]
pub enum EventKind {
    RedrawRequested,
    KeyboardInput,
    MouseInput,
    MouseWheel,
    CursorMoved,
    Resized,
    ModifiersChanged,
    CloseRequested,
    Other,
}

/// The label of an event in the log.
pub open spec fn label(kind: EventKind) -> Seq<char> {
    match kind {
        EventKind::RedrawRequested => "redraw"@,
        EventKind::KeyboardInput => "key"@,
        EventKind::MouseInput => "mouse"@,
        EventKind::MouseWheel => "wheel"@,
        EventKind::CursorMoved => "cursor"@,
        EventKind::Resized => "resize"@,
        EventKind::ModifiersChanged => "mods"@,
        EventKind::CloseRequested => "close"@,
        EventKind::Other => "other"@,
    }
}

/// The label of an event in the log.
pub fn event_label(kind: EventKind) -> (r: &'static str)
    ensures
        r@ == label(kind),
{
    match kind {
        EventKind::RedrawRequested => "redraw",
        EventKind::KeyboardInput => "key",
        EventKind::MouseInput => "mouse",
        EventKind::MouseWheel => "wheel",
        EventKind::CursorMoved => "cursor",
        EventKind::Resized => "resize",
        EventKind::ModifiersChanged => "mods",
        EventKind::CloseRequested => "close",
        EventKind::Other => "other",
    }
}

/// A block of the log has its label, its time and all of its body.
pub proof fn law_blocks_hold_what_is_logged(name: Seq<char>, secs: nat, body: Seq<char>, later: nat)
    ensures
        text::has_text(block(name, secs, body), name),
        text::has_text(block(name, secs, body), stamp(secs)),
        (body + "\n"@).is_suffix_of(block(name, secs, body)),
        text::decimal(secs).is_suffix_of(stamp(secs)),
        secs != later ==> stamp(secs) != stamp(later),
{
    let all = block(name, secs, body);
    text::law_text_is_found("\n===== "@, name, " @ "@ + stamp(secs) + " =====\n"@ + body + "\n"@);
    assert(all =~= "\n===== "@ + name + (" @ "@ + stamp(secs) + " =====\n"@ + body + "\n"@));
    text::law_text_is_found(
        "\n===== "@ + name + " @ "@,
        stamp(secs),
        " =====\n"@ + body + "\n"@,
    );
    assert(all =~= "\n===== "@ + name + " @ "@ + stamp(secs) + (" =====\n"@ + body + "\n"@));
    let end = body + "\n"@;
    assert(all.skip(all.len() - end.len()) =~= end);
    text::law_numbers_are_read_back(secs, later, 0);
    let n = "unix:"@.len() as int;
    assert(stamp(secs).skip(n) =~= text::decimal(secs));
    assert(stamp(later).skip(n) =~= text::decimal(later));
}

/// Processing that has not taken too long yet is no freeze, and how long it has
/// taken is what has passed since it began.
pub proof fn law_no_freeze_is_made_up(since: u64, now: u64, threshold: u64, warned_at: u64)
    requires
        since <= now,
    ensures
        now - since < threshold ==> !frozen(since, now, threshold, warned_at),
        stalled(since, now) == now - since,
        stalled(now, since) == 0,
{
}

/// Each kind of event has a label of its own.
pub proof fn law_labels_differ(a: EventKind, b: EventKind)
    requires
        a != b,
    ensures
        label(a) != label(b),
{
    reveal_strlit("redraw");
    reveal_strlit("key");
    reveal_strlit("mouse");
    reveal_strlit("wheel");
    reveal_strlit("cursor");
    reveal_strlit("resize");
    reveal_strlit("mods");
    reveal_strlit("close");
    reveal_strlit("other");
    assert("redraw"@.len() == 6 && "key"@.len() == 3 && "mouse"@.len() == 5 && "wheel"@.len() == 5
        && "cursor"@.len() == 6 && "resize"@.len() == 6 && "mods"@.len() == 4 && "close"@.len() == 5
        && "other"@.len() == 5);
    assert("redraw"@[2] == 'd' && "cursor"@[2] == 'r' && "resize"@[2] == 's');
    assert("mouse"@[0] == 'm' && "wheel"@[0] == 'w' && "close"@[0] == 'c' && "other"@[0] == 'o');
}

} // verus!
