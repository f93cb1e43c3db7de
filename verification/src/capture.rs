//! The hook binary's modes, and the throttling of its live captures.
use vstd::prelude::*;

use crate::paging::{parse_u64, parse_u64_of};
use crate::text::{chars_of, push_char, same_text};

verus! {

/// Seconds between two live captures of the same session, unless configured otherwise.
pub const DEFAULT_INTERVAL_SECS: u64 = 300;

/// A character that may appear in the marker's file name: ASCII letter, digit or `-`.
pub open spec fn safe_char(c: char) -> bool {
    ('a' <= c <= 'z') || ('A' <= c <= 'Z') || ('0' <= c <= '9') || c == '-'
}

/// The characters of `s` that are [`safe_char`], in order.
pub open spec fn safe_chars(s: Seq<char>) -> Seq<char>
    decreases s.len(),
{
    if s.len() == 0 {
        Seq::empty()
    } else if safe_char(s.last()) {
        safe_chars(s.drop_last()).push(s.last())
    } else {
        safe_chars(s.drop_last())
    }
}

/// The file name of the capture marker of a session: `"truncus-capture-"` followed by the
/// session id with every character other than ASCII letters, digits and `-` dropped.
pub fn state_file_name(session_id: &str) -> (res: String)
    ensures
        res@ == "truncus-capture-"@ + safe_chars(session_id@),
{
    let v = chars_of(session_id);
    let mut s = "truncus-capture-".to_owned();
    let n = v.len();
    assert(session_id@.take(0) =~= Seq::<char>::empty());
    for i in 0..n
        invariant
            n == v@.len(),
            v@ == session_id@,
            s@ == "truncus-capture-"@ + safe_chars(session_id@.take(i as int)),
    {
        let c = v[i];
        assert(session_id@.take(i + 1).drop_last() =~= session_id@.take(i as int));
        assert(session_id@.take(i + 1).last() == c);
        if ('a' <= c && c <= 'z') || ('A' <= c && c <= 'Z') || ('0' <= c && c <= '9') || c == '-' {
            push_char(&mut s, c);
        }
    }
    assert(session_id@.take(n as int) =~= session_id@);
    s
}

/// The seconds between two live captures: the configured value when it reads as a `u64`,
/// else [`DEFAULT_INTERVAL_SECS`].
pub fn interval_secs_from(raw: Option<&str>) -> (r: u64)
    ensures
        r == match raw {
            Some(s) => match parse_u64_of(s@) {
                Some(n) => n,
                None => DEFAULT_INTERVAL_SECS as nat,
            },
            None => DEFAULT_INTERVAL_SECS as nat,
        },
{
    match raw {
        Some(s) => match parse_u64(s) {
            Some(n) => n,
            None => DEFAULT_INTERVAL_SECS,
        },
        None => DEFAULT_INTERVAL_SECS,
    }
}

/// A live capture is due when the age of the session's marker is unknown (no marker, or no
/// readable time on it), or when it is at least `interval` seconds.
pub open spec fn capture_due_of(age_secs: Option<u64>, interval: u64) -> bool {
    match age_secs {
        Some(a) => a >= interval,
        None => true,
    }
}

/// Whether a live capture is due: when the age of the session's marker is unknown (no
/// marker, or no readable time on it), or when it is at least `interval` seconds.
pub fn capture_due(age_secs: Option<u64>, interval: u64) -> (r: bool)
    ensures
        r == capture_due_of(age_secs, interval),
{
    match age_secs {
        Some(a) => a >= interval,
        None => true,
    }
}

/// What the hook binary is asked to do.
#[derive(Debug, PartialEq, Eq, Clone, Copy)]
pub enum HookMode {
    SessionEnd,
    SessionStart,
    Capture,
}

/// The mode named by the hook binary's first argument: `session-end`, `session-start` or
/// `capture`; nothing for any other word.
pub fn hook_mode(arg: &str) -> (r: Option<HookMode>)
    ensures
        r == (if arg@ == "session-end"@ {
            Some(HookMode::SessionEnd)
        } else if arg@ == "session-start"@ {
            Some(HookMode::SessionStart)
        } else if arg@ == "capture"@ {
            Some(HookMode::Capture)
        } else {
            None
        }),
{
    if same_text(arg, "session-end") {
        Some(HookMode::SessionEnd)
    } else if same_text(arg, "session-start") {
        Some(HookMode::SessionStart)
    } else if same_text(arg, "capture") {
        Some(HookMode::Capture)
    } else {
        None
    }
}

/// The times (in seconds) at which a session is captured, given the times of its Stop
/// hooks in order, each upload succeeding: a hook captures when it is due, with the marker
/// written at the last capture (none before the first), and each capture writes the marker
/// anew.
pub open spec fn capture_times(hooks: Seq<u64>, interval: u64) -> Seq<u64>
    decreases hooks.len(),
{
    if hooks.len() == 0 {
        Seq::empty()
    } else {
        let before = capture_times(hooks.drop_last(), interval);
        let t = hooks.last();
        let age = if before.len() == 0 {
            None
        } else {
            Some((t - before.last()) as u64)
        };
        if capture_due_of(age, interval) {
            before.push(t)
        } else {
            before
        }
    }
}

/// Throttle law: Stop hooks that come in time order capture a session at most once per
/// interval; the first hook always captures, and two captures lie at least `interval`
/// seconds apart.
pub proof fn lemma_capture_throttled(hooks: Seq<u64>, interval: u64)
    requires
        forall|i: int, j: int| 0 <= i <= j < hooks.len() ==> hooks[i] <= hooks[j],
    ensures
        hooks.len() > 0 ==> capture_times(hooks, interval).len() > 0 && capture_times(
            hooks,
            interval,
        )[0] == hooks[0],
        forall|k: int|
            0 <= k < capture_times(hooks, interval).len() - 1 ==> capture_times(hooks, interval)[k
                + 1] - #[trigger] capture_times(hooks, interval)[k] >= interval,
        forall|k: int|
            0 <= k < capture_times(hooks, interval).len() ==> exists|i: int|
                0 <= i < hooks.len() && hooks[i] == #[trigger] capture_times(hooks, interval)[k],
    decreases hooks.len(),
{
    if hooks.len() > 0 {
        let rest = hooks.drop_last();
        lemma_capture_throttled(rest, interval);
        let before = capture_times(rest, interval);
        let c = capture_times(hooks, interval);
        assert forall|k: int| 0 <= k < c.len() implies exists|i: int|
            0 <= i < hooks.len() && hooks[i] == #[trigger] c[k] by {
            if k < before.len() {
                let i = choose|i: int| 0 <= i < rest.len() && rest[i] == before[k];
                assert(hooks[i] == rest[i]);
            } else {
                assert(hooks[hooks.len() - 1] == c[k]);
            }
        }
        if before.len() > 0 {
            let last = before.last();
            let i = choose|i: int| 0 <= i < rest.len() && rest[i] == last;
            assert(hooks[i] == rest[i]);
            assert(last <= hooks.last());
        }
        if rest.len() > 0 {
            assert(before[0] == rest[0]);
            assert(c[0] == hooks[0]);
        }
    }
}

} // verus!
