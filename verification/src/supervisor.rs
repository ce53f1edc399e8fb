//! The crash supervisor: what it does after each run of the server, and
//! the lines it writes to the crash log.

use vstd::prelude::*;
use crate::text::{chars_of, extend_chars, extend_vec, int_text, int_text_of, string_of};

verus! {

/// How many crashes inside the window make the supervisor give up.
pub const MAX_CRASHES: usize = 3;

/// The window, in seconds, within which crashes are counted.
pub const WINDOW_SECS: i64 = 600;

/// Timestamps the supervisor is given lie within this bound, so that the
/// difference of two never overflows.
pub open spec fn time_ok(t: i64) -> bool {
    -0x2000_0000_0000_0000 <= t <= 0x2000_0000_0000_0000
}

/// The crash times of `times` that lie less than the window before `now`,
/// in order.
pub open spec fn recent(times: Seq<i64>, now: i64) -> Seq<i64>
    decreases times.len(),
{
    if times.len() == 0 {
        seq![]
    } else if now - times.last() < WINDOW_SECS {
        recent(times.drop_last(), now).push(times.last())
    } else {
        recent(times.drop_last(), now)
    }
}

/// The crash times kept after a crash at `now`.
pub open spec fn after_crash(times: Seq<i64>, now: i64) -> Seq<i64> {
    recent(times, now).push(now)
}

/// What the supervisor does next.
#[derive(PartialEq, Eq, Structural, Debug, Clone, Copy)]
pub enum SupervisorAction {
    /// The stop flag is set: remove it and end.
    Stop,
    /// Run the server (again).
    Start,
    /// The server exited cleanly: log it and end.
    CleanExit,
    /// The server crashed: log it, wait, and run it again.
    Restart,
    /// Too many crashes inside the window: log it and wait for the stop
    /// flag.
    GiveUp,
    /// Given up: the server is not run again; check the stop flag later.
    Wait,
}

/// What follows an exit of the server with `code`.
pub open spec fn exit_action(times: Seq<i64>, code: i32, stopping: bool, now: i64) -> SupervisorAction {
    if stopping {
        SupervisorAction::Stop
    } else if code == 0 {
        SupervisorAction::CleanExit
    } else if after_crash(times, now).len() >= MAX_CRASHES {
        SupervisorAction::GiveUp
    } else {
        SupervisorAction::Restart
    }
}

/// The supervisor's memory: the times of the recent crashes.
pub struct Supervisor {
    crash_times: Vec<i64>,
    given_up: bool,
}

impl Supervisor {
    /// The recorded crash times, oldest first.
    pub closed spec fn crashes(self) -> Seq<i64> {
        self.crash_times@
    }

    /// The supervisor has given up on the server.
    pub closed spec fn gave_up(self) -> bool {
        self.given_up
    }

    #[verifier::type_invariant]
    spec fn inv(self) -> bool {
        forall|i: int| 0 <= i < self.crash_times@.len() ==> time_ok(#[trigger] self.crash_times@[i])
    }

    /// A supervisor that has seen no crash.
    pub fn new() -> (s: Self)
        ensures
            s.crashes() == Seq::<i64>::empty(),
            !s.gave_up(),
    {
        Supervisor { crash_times: Vec::new(), given_up: false }
    }

    /// Before each run: stop where the stop flag is set; otherwise start,
    /// unless the supervisor has given up, when it waits for the flag.
    pub fn before_start(&self, stopping: bool) -> (a: SupervisorAction)
        ensures
            a == (if stopping {
                SupervisorAction::Stop
            } else if self.gave_up() {
                SupervisorAction::Wait
            } else {
                SupervisorAction::Start
            }),
    {
        if stopping {
            SupervisorAction::Stop
        } else if self.given_up {
            SupervisorAction::Wait
        } else {
            SupervisorAction::Start
        }
    }

    /// After the server exited with `code`, with the stop flag as
    /// `stopping` and the time `now`: a crash is recorded (dropping crashes
    /// that lie a window or more before it) and the next action chosen.
    pub fn after_exit(&mut self, code: i32, stopping: bool, now: i64) -> (a: SupervisorAction)
        requires
            time_ok(now),
        ensures
            a == exit_action(old(self).crashes(), code, stopping, now),
            final(self).crashes() == (if stopping || code == 0 {
                old(self).crashes()
            } else {
                after_crash(old(self).crashes(), now)
            }),
            final(self).gave_up() == (old(self).gave_up() || a == SupervisorAction::GiveUp),
    {
        proof {
            use_type_invariant(&*self);
        }
        if stopping {
            return SupervisorAction::Stop;
        }
        if code == 0 {
            return SupervisorAction::CleanExit;
        }
        let mut kept: Vec<i64> = Vec::new();
        let n = self.crash_times.len();
        let mut i: usize = 0;
        while i < n
            invariant
                n == self.crash_times.len(),
                i <= n,
                time_ok(now),
                forall|j: int| 0 <= j < n ==> time_ok(#[trigger] self.crash_times@[j]),
                kept@ == recent(self.crash_times@.take(i as int), now),
                forall|j: int| 0 <= j < kept@.len() ==> time_ok(#[trigger] kept@[j]),
            decreases n - i,
        {
            let t = self.crash_times[i];
            assert(time_ok(self.crash_times@[i as int]));
            assert(self.crash_times@.take(i + 1).drop_last() =~= self.crash_times@.take(i as int));
            if now - t < WINDOW_SECS {
                kept.push(t);
            }
            i = i + 1;
        }
        assert(self.crash_times@.take(n as int) =~= self.crash_times@);
        kept.push(now);
        let count = kept.len();
        self.crash_times = kept;
        if count >= MAX_CRASHES {
            self.given_up = true;
            SupervisorAction::GiveUp
        } else {
            SupervisorAction::Restart
        }
    }
}

/// Every kept crash time lies less than the window before `now`.
pub proof fn lemma_recent_within(times: Seq<i64>, now: i64)
    ensures
        forall|i: int| 0 <= i < recent(times, now).len() ==> now - #[trigger] recent(times, now)[i] < WINDOW_SECS,
        recent(times, now).len() <= times.len(),
    decreases times.len(),
{
    if times.len() > 0 {
        lemma_recent_within(times.drop_last(), now);
    }
}

/// A crash the window still covers stays recorded.
proof fn lemma_recent_push(times: Seq<i64>, t: i64, now: i64)
    requires
        now - t < WINDOW_SECS,
    ensures
        recent(times.push(t), now) == recent(times, now).push(t),
{
    assert(times.push(t).drop_last() =~= times);
}

/// The supervisor gives up only on its third crash within the window:
/// when it does, the crash times it holds, this one included, are at
/// least three and all lie less than ten minutes before now.
pub proof fn law_give_up_needs_three_recent_crashes(times: Seq<i64>, code: i32, stopping: bool, now: i64)
    requires
        exit_action(times, code, stopping, now) == SupervisorAction::GiveUp,
    ensures
        after_crash(times, now).len() >= 3,
        forall|i: int|
            0 <= i < after_crash(times, now).len() ==> now - #[trigger] after_crash(times, now)[i]
                < WINDOW_SECS,
{
    lemma_recent_within(times, now);
    assert forall|i: int| 0 <= i < after_crash(times, now).len() implies now
        - #[trigger] after_crash(times, now)[i] < WINDOW_SECS by {
        if i < recent(times, now).len() {
            assert(after_crash(times, now)[i] == recent(times, now)[i]);
        }
    }
}

/// A crash is followed by a restart as long as fewer than two crashes
/// were recorded before it.
pub proof fn law_crash_restarts(times: Seq<i64>, code: i32, now: i64)
    requires
        code != 0,
        times.len() < 2,
    ensures
        exit_action(times, code, false, now) == SupervisorAction::Restart,
{
    lemma_recent_within(times, now);
}

/// Three crashes within ten minutes make the supervisor give up: after
/// crashes at `t1 <= t2 <= t3` with `t3 - t1` under the window, whatever
/// it held before, the third exit is answered with `GiveUp`.
pub proof fn law_three_crashes_give_up(
    times: Seq<i64>,
    code1: i32,
    code2: i32,
    code3: i32,
    t1: i64,
    t2: i64,
    t3: i64,
)
    requires
        code1 != 0,
        code2 != 0,
        code3 != 0,
        time_ok(t1),
        time_ok(t2),
        time_ok(t3),
        t1 <= t2 <= t3,
        t3 - t1 < WINDOW_SECS,
    ensures
        exit_action(times, code1, false, t1) == SupervisorAction::Restart ==> exit_action(
            after_crash(times, t1),
            code2,
            false,
            t2,
        ) == SupervisorAction::Restart ==> exit_action(
            after_crash(after_crash(times, t1), t2),
            code3,
            false,
            t3,
        ) == SupervisorAction::GiveUp,
        exit_action(after_crash(after_crash(times, t1), t2), code3, false, t3)
            == SupervisorAction::GiveUp,
{
    let s1 = after_crash(times, t1);
    let r2 = recent(s1, t2);
    lemma_recent_push(recent(times, t1), t1, t2);
    let s2 = after_crash(s1, t2);
    lemma_recent_push(r2, t2, t3);
    assert(s2 == r2.push(t2));
    assert(s1 == recent(times, t1).push(t1));
    let r1t = recent(recent(times, t1), t2);
    assert(r2 == r1t.push(t1));
    lemma_recent_push(r1t, t1, t3);
    assert(recent(s2, t3) == recent(r2, t3).push(t2));
    assert(recent(r2, t3) == recent(r1t, t3).push(t1));
    assert(recent(s2, t3).len() >= 2);
}

/// The log line written when the server exits cleanly.
pub open spec fn clean_exit_entry(stamp: Seq<char>, name: Seq<char>, duration: int) -> Seq<char> {
    stamp + "  CLEAN EXIT for "@ + name + " (exit 0, ran "@ + int_text(duration) + "s)\n"@
}

/// The log lines written when the server crashes; each line carries the
/// time at which it was written.
pub open spec fn crash_entry(
    stamp: Seq<char>,
    stamp2: Seq<char>,
    name: Seq<char>,
    duration: int,
    code: int,
) -> Seq<char> {
    stamp + "  CRASH: "@ + name + "\n"@ + stamp2 + "  Ran for: "@ + int_text(duration)
        + "s  |  Exit code: "@ + int_text(code) + "\n"@
}

/// The log lines written when the supervisor gives up; each line carries
/// the time at which it was written.
pub open spec fn give_up_entry(stamp: Seq<char>, stamp2: Seq<char>, name: Seq<char>) -> Seq<char> {
    stamp + "  TOO MANY CRASHES — 3 in 10 min. Giving up.\n"@ + stamp2
        + "  Manual intervention required for: "@ + name + "\n"@
}

/// The crash-log line for a clean exit after `duration` seconds.
pub fn clean_exit_log(stamp: &str, name: &str, duration: i64) -> (r: String)
    ensures
        r@ == clean_exit_entry(stamp@, name@, duration as int),
{
    let mut v = chars_of(stamp);
    extend_chars(&mut v, "  CLEAN EXIT for ");
    extend_chars(&mut v, name);
    extend_chars(&mut v, " (exit 0, ran ");
    extend_vec(&mut v, &int_text_of(duration));
    extend_chars(&mut v, "s)\n");
    string_of(&v)
}

/// The crash-log lines for a crash after `duration` seconds with `code`.
pub fn crash_log(stamp: &str, stamp2: &str, name: &str, duration: i64, code: i32) -> (r: String)
    ensures
        r@ == crash_entry(stamp@, stamp2@, name@, duration as int, code as int),
{
    let mut v = chars_of(stamp);
    extend_chars(&mut v, "  CRASH: ");
    extend_chars(&mut v, name);
    extend_chars(&mut v, "\n");
    extend_chars(&mut v, stamp2);
    extend_chars(&mut v, "  Ran for: ");
    extend_vec(&mut v, &int_text_of(duration));
    extend_chars(&mut v, "s  |  Exit code: ");
    extend_vec(&mut v, &int_text_of(code as i64));
    extend_chars(&mut v, "\n");
    string_of(&v)
}

/// The crash-log lines written when the supervisor gives up.
pub fn give_up_log(stamp: &str, stamp2: &str, name: &str) -> (r: String)
    ensures
        r@ == give_up_entry(stamp@, stamp2@, name@),
{
    let mut v = chars_of(stamp);
    extend_chars(&mut v, "  TOO MANY CRASHES — 3 in 10 min. Giving up.\n");
    extend_chars(&mut v, stamp2);
    extend_chars(&mut v, "  Manual intervention required for: ");
    extend_chars(&mut v, name);
    extend_chars(&mut v, "\n");
    string_of(&v)
}

/// The crash-log entries written after the supervisor chose `a`: a clean
/// exit is logged as such, a crash is logged with its duration and exit
/// code, and giving up adds the give-up entry after it; nothing else is
/// logged.
pub open spec fn exit_log_entries(
    a: SupervisorAction,
    stamp: Seq<char>,
    stamp2: Seq<char>,
    name: Seq<char>,
    duration: int,
    code: int,
) -> Seq<Seq<char>> {
    match a {
        SupervisorAction::CleanExit => seq![clean_exit_entry(stamp, name, duration)],
        SupervisorAction::Restart => seq![crash_entry(stamp, stamp2, name, duration, code)],
        SupervisorAction::GiveUp => seq![
            crash_entry(stamp, stamp2, name, duration, code),
            give_up_entry(stamp, stamp2, name),
        ],
        _ => seq![],
    }
}

/// The crash-log entries to write after the supervisor chose `a`.
pub fn exit_log(a: SupervisorAction, stamp: &str, stamp2: &str, name: &str, duration: i64, code: i32) -> (r:
    Vec<String>)
    ensures
        r@.map_values(|e: String| e@) == exit_log_entries(
            a,
            stamp@,
            stamp2@,
            name@,
            duration as int,
            code as int,
        ),
{
    let mut v: Vec<String> = Vec::new();
    match a {
        SupervisorAction::CleanExit => {
            v.push(clean_exit_log(stamp, name, duration));
        },
        SupervisorAction::Restart => {
            v.push(crash_log(stamp, stamp2, name, duration, code));
        },
        SupervisorAction::GiveUp => {
            v.push(crash_log(stamp, stamp2, name, duration, code));
            v.push(give_up_log(stamp, stamp2, name));
        },
        _ => {},
    }
    assert(v@.map_values(|e: String| e@) =~= exit_log_entries(
        a,
        stamp@,
        stamp2@,
        name@,
        duration as int,
        code as int,
    ));
    v
}

} // verus!
