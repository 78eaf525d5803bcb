//! Debounced load-severity tracking behind the hardware-lag notifications.
//!
//! Each sample is classified (by the caller, from CPU and memory load) into a
//! severity; the monitor moves to a higher severity only after two
//! consecutive higher samples, and back down only after four consecutive lower
//! ones. It reports on every transition and, while degraded, every 15 seconds.

use vstd::prelude::*;

verus! {

#[derive(Debug, Clone, Copy, PartialEq, Eq, Structural)]
pub enum LagSeverity {
    Nominal,
    Warning,
    Critical,
}

pub open spec fn rank(s: LagSeverity) -> nat {
    match s {
        LagSeverity::Nominal => 0,
        LagSeverity::Warning => 1,
        LagSeverity::Critical => 2,
    }
}

pub fn severity_rank(s: LagSeverity) -> (r: u8)
    ensures
        r as nat == rank(s),
{
    match s {
        LagSeverity::Nominal => 0,
        LagSeverity::Warning => 1,
        LagSeverity::Critical => 2,
    }
}

/// Consecutive higher samples needed to escalate.
pub const ESCALATE_DEBOUNCE: u8 = 2;

/// Consecutive lower samples needed to recover.
pub const RECOVER_DEBOUNCE: u8 = 4;

/// Interval of repeated reports while degraded.
pub const HEARTBEAT_INTERVAL_MS: u64 = 15000;

#[derive(Debug, Clone, Copy, PartialEq, Eq, Structural)]
pub struct LagMonitor {
    pub current: LagSeverity,
    pub escalate_count: u8,
    pub recover_count: u8,
    pub state_entered_ms: u64,
    pub last_heartbeat_ms: u64,
}

/// A report to send to the UI.
#[derive(Debug, Clone, Copy, PartialEq, Eq, Structural)]
pub struct LagReport {
    pub severity: LagSeverity,
    /// How long the current severity has held.
    pub sustained_ms: u64,
}

pub open spec fn sat_inc(c: u8) -> u8 {
    if c < 255 { (c + 1) as u8 } else { 255 }
}

pub open spec fn elapsed(now: u64, since: u64) -> u64 {
    if now >= since { (now - since) as u64 } else { 0 }
}

/// Severity and counters after one sample, before reporting.
pub open spec fn debounce(m: LagMonitor, observed: LagSeverity) -> (LagSeverity, u8, u8) {
    if observed == m.current {
        (m.current, 0, 0)
    } else if rank(observed) > rank(m.current) {
        let e = sat_inc(m.escalate_count);
        (if e >= ESCALATE_DEBOUNCE { observed } else { m.current }, e, 0)
    } else {
        let r = sat_inc(m.recover_count);
        (if r >= RECOVER_DEBOUNCE { observed } else { m.current }, 0, r)
    }
}

/// The monitor after a sample at `now`, and the report it sends, if any.
pub open spec fn step_spec(m: LagMonitor, observed: LagSeverity, now: u64) -> (LagMonitor, Option<LagReport>) {
    let (next, e, r) = debounce(m, observed);
    let transitioned = next != m.current;
    let m1 = if transitioned {
        LagMonitor { current: next, escalate_count: 0, recover_count: 0, state_entered_ms: now, ..m }
    } else {
        LagMonitor { escalate_count: e, recover_count: r, ..m }
    };
    let heartbeat = m1.current != LagSeverity::Nominal && elapsed(now, m.last_heartbeat_ms) >= HEARTBEAT_INTERVAL_MS;
    if transitioned || heartbeat {
        (LagMonitor { last_heartbeat_ms: now, ..m1 }, Some(LagReport { severity: m1.current, sustained_ms: elapsed(now, m1.state_entered_ms) }))
    } else {
        (m1, None)
    }
}

fn sat_inc_exec(c: u8) -> (r: u8)
    ensures
        r == sat_inc(c),
{
    if c < 255 { c + 1 } else { 255 }
}

fn elapsed_exec(now: u64, since: u64) -> (r: u64)
    ensures
        r == elapsed(now, since),
{
    if now >= since { now - since } else { 0 }
}

impl LagMonitor {
    /// A monitor that starts out nominal at `now_ms`.
    pub fn new(now_ms: u64) -> (m: Self)
        ensures
            m == (LagMonitor {
                current: LagSeverity::Nominal,
                escalate_count: 0,
                recover_count: 0,
                state_entered_ms: now_ms,
                last_heartbeat_ms: now_ms,
            }),
    {
        LagMonitor {
            current: LagSeverity::Nominal,
            escalate_count: 0,
            recover_count: 0,
            state_entered_ms: now_ms,
            last_heartbeat_ms: now_ms,
        }
    }

    /// Feeds one classified sample taken at `now_ms`.
    pub fn step(&mut self, observed: LagSeverity, now_ms: u64) -> (report: Option<LagReport>)
        ensures
            (*final(self), report) == step_spec(*old(self), observed, now_ms),
    {
        let next;
        if observed == self.current {
            self.escalate_count = 0;
            self.recover_count = 0;
            next = self.current;
        } else if severity_rank(observed) > severity_rank(self.current) {
            self.escalate_count = sat_inc_exec(self.escalate_count);
            self.recover_count = 0;
            next = if self.escalate_count >= ESCALATE_DEBOUNCE { observed } else { self.current };
        } else {
            self.recover_count = sat_inc_exec(self.recover_count);
            self.escalate_count = 0;
            next = if self.recover_count >= RECOVER_DEBOUNCE { observed } else { self.current };
        }
        let transitioned = next != self.current;
        if transitioned {
            self.current = next;
            self.state_entered_ms = now_ms;
            self.escalate_count = 0;
            self.recover_count = 0;
        }
        let heartbeat = self.current != LagSeverity::Nominal && elapsed_exec(now_ms, self.last_heartbeat_ms)
            >= HEARTBEAT_INTERVAL_MS;
        if transitioned || heartbeat {
            let report = LagReport {
                severity: self.current,
                sustained_ms: elapsed_exec(now_ms, self.state_entered_ms),
            };
            self.last_heartbeat_ms = now_ms;
            Some(report)
        } else {
            None
        }
    }
}

/// A single higher sample never changes the severity of a settled monitor.
pub proof fn lemma_single_spike_ignored(m: LagMonitor, observed: LagSeverity, now: u64)
    requires
        m.escalate_count == 0,
        rank(observed) > rank(m.current),
    ensures
        step_spec(m, observed, now).0.current == m.current,
{
}

/// Two consecutive higher samples escalate a settled monitor to the second
/// sample's severity.
pub proof fn lemma_two_samples_escalate(m: LagMonitor, a: LagSeverity, b: LagSeverity, t1: u64, t2: u64)
    requires
        m.escalate_count == 0,
        rank(a) > rank(m.current),
        rank(b) > rank(m.current),
    ensures
        step_spec(step_spec(m, a, t1).0, b, t2).0.current == b,
        step_spec(step_spec(m, a, t1).0, b, t2).1 == Some(LagReport { severity: b, sustained_ms: 0 }),
{
}

/// Recovery waits for four consecutive lower samples: after three the
/// severity still holds, the fourth lowers it.
pub proof fn lemma_recovery_needs_four(m: LagMonitor, low: LagSeverity, t1: u64, t2: u64, t3: u64, t4: u64)
    requires
        m.recover_count == 0,
        rank(low) < rank(m.current),
    ensures
        ({
            let s1 = step_spec(m, low, t1).0;
            let s2 = step_spec(s1, low, t2).0;
            let s3 = step_spec(s2, low, t3).0;
            let s4 = step_spec(s3, low, t4).0;
            &&& s1.current == m.current
            &&& s2.current == m.current
            &&& s3.current == m.current
            &&& s4.current == low
        }),
{
}

/// A nominal monitor that stays nominal never reports.
pub proof fn lemma_nominal_is_quiet(m: LagMonitor, now: u64)
    requires
        m.current == LagSeverity::Nominal,
    ensures
        step_spec(m, LagSeverity::Nominal, now).1 == None::<LagReport>,
        step_spec(m, LagSeverity::Nominal, now).0.escalate_count == 0,
        step_spec(m, LagSeverity::Nominal, now).0.recover_count == 0,
{
}

/// Counters below their thresholds: every state the monitor reaches from
/// `new` is settled.
pub open spec fn settled(m: LagMonitor) -> bool {
    m.escalate_count < ESCALATE_DEBOUNCE && m.recover_count < RECOVER_DEBOUNCE
}

/// One sample from a settled state: the severity changes exactly when this
/// is the second consecutive higher sample or the fourth consecutive lower
/// one, and then to the sample's severity; otherwise the counters count the
/// current run of higher or lower samples. A report goes out on a change,
/// and otherwise only while degraded once the heartbeat interval has passed.
pub proof fn lemma_step_hysteresis(m: LagMonitor, observed: LagSeverity, now: u64)
    requires
        settled(m),
    ensures
        ({
            let (m2, report) = step_spec(m, observed, now);
            let up = rank(observed) > rank(m.current);
            let down = rank(observed) < rank(m.current);
            &&& settled(m2)
            &&& (m2.current != m.current <==> ((up && m.escalate_count == 1) || (down && m.recover_count == 3)))
            &&& m2.current != m.current ==> m2.current == observed && m2.escalate_count == 0 && m2.recover_count == 0
                && report == Some(LagReport { severity: observed, sustained_ms: 0 })
            &&& m2.current == m.current ==> {
                &&& m2.escalate_count == (if up { m.escalate_count + 1 } else { 0 })
                &&& m2.recover_count == (if down { m.recover_count + 1 } else { 0 })
                &&& (report is Some <==> (m.current != LagSeverity::Nominal
                    && elapsed(now, m.last_heartbeat_ms) >= HEARTBEAT_INTERVAL_MS))
            }
        }),
{
    if rank(observed) == rank(m.current) {
        assert(observed == m.current);
    }
}

/// The monitor after a run of timed samples, in order.
pub open spec fn run_spec(m: LagMonitor, samples: Seq<(LagSeverity, u64)>) -> LagMonitor
    decreases samples.len(),
{
    if samples.len() == 0 {
        m
    } else {
        step_spec(run_spec(m, samples.drop_last()), samples.last().0, samples.last().1).0
    }
}

/// Length of the trailing run of samples ranked above `c`.
pub open spec fn trailing_above(samples: Seq<(LagSeverity, u64)>, c: LagSeverity) -> nat
    decreases samples.len(),
{
    if samples.len() == 0 {
        0
    } else if rank(samples.last().0) > rank(c) {
        trailing_above(samples.drop_last(), c) + 1
    } else {
        0
    }
}

/// Length of the trailing run of samples ranked below `c`.
pub open spec fn trailing_below(samples: Seq<(LagSeverity, u64)>, c: LagSeverity) -> nat
    decreases samples.len(),
{
    if samples.len() == 0 {
        0
    } else if rank(samples.last().0) < rank(c) {
        trailing_below(samples.drop_last(), c) + 1
    } else {
        0
    }
}

/// Over any run of samples in which no two consecutive ones rank above the
/// current severity and no four consecutive ones rank below it, a monitor
/// with cleared counters keeps its severity; its counters are the lengths of
/// the trailing higher and lower runs.
pub proof fn lemma_no_run_no_change(m: LagMonitor, samples: Seq<(LagSeverity, u64)>)
    requires
        m.escalate_count == 0,
        m.recover_count == 0,
        forall|i: int| 0 <= i <= samples.len() ==> trailing_above(#[trigger] samples.take(i), m.current) < 2
            && trailing_below(samples.take(i), m.current) < 4,
    ensures
        run_spec(m, samples).current == m.current,
        run_spec(m, samples).escalate_count == trailing_above(samples, m.current),
        run_spec(m, samples).recover_count == trailing_below(samples, m.current),
    decreases samples.len(),
{
    assert(samples.take(samples.len() as int) =~= samples);
    if samples.len() > 0 {
        let p = samples.drop_last();
        assert forall|i: int| 0 <= i <= p.len() implies trailing_above(#[trigger] p.take(i), m.current) < 2
            && trailing_below(p.take(i), m.current) < 4 by {
            assert(p.take(i) =~= samples.take(i));
        }
        lemma_no_run_no_change(m, p);
        let prev = run_spec(m, p);
        lemma_step_hysteresis(prev, samples.last().0, samples.last().1);
        assert(samples.take(samples.len() as int) == samples);
    }
}

/// Over a whole run from a monitor with cleared counters, the severity
/// changes only if somewhere in the run two consecutive samples ranked above
/// it or four consecutive samples ranked below it; a monitor that stays
/// nominal through a run of nominal samples reports nothing.
pub proof fn lemma_run_changes_only_after_runs(m: LagMonitor, samples: Seq<(LagSeverity, u64)>)
    requires
        m.escalate_count == 0,
        m.recover_count == 0,
    ensures
        run_spec(m, samples).current != m.current ==> exists|i: int| 0 <= i <= samples.len()
            && (trailing_above(#[trigger] samples.take(i), m.current) >= 2 || trailing_below(samples.take(i), m.current) >= 4),
{
    if run_spec(m, samples).current != m.current {
        if !(exists|i: int| 0 <= i <= samples.len()
            && (trailing_above(#[trigger] samples.take(i), m.current) >= 2 || trailing_below(samples.take(i), m.current) >= 4)) {
            lemma_no_run_no_change(m, samples);
        }
    }
}

/// Nominal samples keep a nominal monitor nominal and silent for the whole
/// run.
pub proof fn lemma_nominal_run_is_quiet(m: LagMonitor, samples: Seq<(LagSeverity, u64)>)
    requires
        m.current == LagSeverity::Nominal,
        forall|i: int| 0 <= i < samples.len() ==> (#[trigger] samples[i]).0 == LagSeverity::Nominal,
    ensures
        run_spec(m, samples).current == LagSeverity::Nominal,
        samples.len() > 0 ==> step_spec(run_spec(m, samples.drop_last()), samples.last().0, samples.last().1).1 == None::<LagReport>,
    decreases samples.len(),
{
    if samples.len() > 0 {
        let p = samples.drop_last();
        assert forall|i: int| 0 <= i < p.len() implies (#[trigger] p[i]).0 == LagSeverity::Nominal by {
            assert(p[i] == samples[i]);
        }
        lemma_nominal_run_is_quiet(m, p);
        assert(samples.last() == samples[samples.len() - 1]);
    }
}

} // verus!
