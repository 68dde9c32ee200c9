//! The progress reporter: what to show for a count of finished items, and
//! whether to look again.
//!
//! The caller owns the clock and the screen. It reads the shared counter, hands
//! the value to [`Reporter::observe`], shows the line that comes back, and either
//! sleeps for [`POLL_INTERVAL_MS`] and looks again or stops, as it is told.

use crate::utility::{decimal_of, decimal_string};
use vstd::prelude::*;
use vstd::string::StringExecFns;

verus! {

/// Milliseconds between two looks at the counter.
pub const POLL_INTERVAL_MS: u64 = 500;

/// Number of phases of the animation: zero to three dots.
pub const PHASES: usize = 4;

/// `n` copies of one character.
pub open spec fn repeated(c: char, n: nat) -> Seq<char> {
    Seq::new(n, |i: int| c)
}

/// The line shown while work goes on: the counts, then as many dots as the
/// phase says, padded with spaces to three places.
pub open spec fn progress_text(done: usize, total: usize, phase: nat) -> Seq<char> {
    "\r\x1b[32mIn progress: "@ + decimal_of(done as nat) + "/"@ + decimal_of(total as nat) + " ["@
        + repeated('.', phase) + repeated(' ', (3 - phase) as nat) + "]\x1b[0m"@
}

/// The line shown once, after the last record has been taken.
pub open spec fn completed_text(done: usize, total: usize) -> Seq<char> {
    "\r\x1b[32mCompleted: "@ + decimal_of(done as nat) + "/"@ + decimal_of(total as nat)
        + " [Done]\x1b[0m"@
}

/// What the caller does after showing a line.
#[derive(Debug, Clone, Copy, PartialEq, Eq, Structural)]
pub enum Next {
    /// Sleep for the polling interval, then observe the counter again.
    Poll,
    /// The counter has reached the total: stop.
    Stop,
}

/// One answer of the reporter: the line to show and what to do after it.
#[derive(Debug, Clone)]
pub struct Frame {
    /// The line to show.
    pub line: String,
    /// What to do after showing it.
    pub next: Next,
}

/// The reporter's state: the expected total and the phase of its animation.
/// It only ever reads the counter values it is given.
#[derive(Debug, Clone, Copy, PartialEq, Eq, Structural)]
pub struct Reporter {
    total: usize,
    phase: usize,
}

/// Appends `n` copies of the one-character text `unit`.
fn append_repeated(line: &mut String, unit: &str, c: char, n: usize)
    requires
        unit@ == seq![c],
    ensures
        final(line)@ == old(line)@ + repeated(c, n as nat),
{
    let mut i: usize = 0;
    assert(line@ =~= old(line)@ + repeated(c, 0));
    while i < n
        invariant
            i <= n,
            unit@ == seq![c],
            line@ == old(line)@ + repeated(c, i as nat),
        decreases n - i,
    {
        line.append(unit);
        i += 1;
        assert(line@ =~= old(line)@ + repeated(c, i as nat));
    }
}

/// The line shown while work goes on.
pub fn progress_line(done: usize, total: usize, phase: usize) -> (line: String)
    requires
        phase <= 3,
    ensures
        line@ == progress_text(done, total, phase as nat),
{
    proof {
        reveal_strlit(".");
        reveal_strlit(" ");
    }
    let mut line = "\r\x1b[32mIn progress: ".to_owned();
    line.append(decimal_string(done).as_str());
    line.append("/");
    line.append(decimal_string(total).as_str());
    line.append(" [");
    assert(("."@) =~= seq!['.']);
    assert((" "@) =~= seq![' ']);
    append_repeated(&mut line, ".", '.', phase);
    append_repeated(&mut line, " ", ' ', 3 - phase);
    line.append("]\x1b[0m");
    line
}

/// The line shown once, after the last record has been taken.
pub fn completed_line(done: usize, total: usize) -> (line: String)
    ensures
        line@ == completed_text(done, total),
{
    let mut line = "\r\x1b[32mCompleted: ".to_owned();
    line.append(decimal_string(done).as_str());
    line.append("/");
    line.append(decimal_string(total).as_str());
    line.append(" [Done]\x1b[0m");
    line
}

impl Reporter {
    /// The total that the reporter waits for.
    pub closed spec fn spec_total(&self) -> usize {
        self.total
    }

    /// The phase of the animation, from 0 to 3.
    pub closed spec fn spec_phase(&self) -> nat {
        self.phase as nat
    }

    /// The phase is one of the four.
    pub open spec fn wf(&self) -> bool {
        self.spec_phase() <= 3
    }

    /// A reporter for `total` items, at the first phase.
    pub fn new(total: usize) -> (reporter: Reporter)
        ensures
            reporter.wf(),
            reporter.spec_total() == total,
            reporter.spec_phase() == 0,
    {
        Reporter { total, phase: 0 }
    }

    /// The total that the reporter waits for.
    pub fn total(&self) -> (total: usize)
        ensures
            total == self.spec_total(),
    {
        self.total
    }

    /// The phase of the animation.
    pub fn phase(&self) -> (phase: usize)
        ensures
            phase == self.spec_phase(),
    {
        self.phase
    }

    /// Takes one reading of the counter. The line shows the reading at the
    /// current phase. The reporter stops exactly when the reading has reached
    /// the total; until then it moves to the next of its four phases and asks
    /// to be called again. The total never changes.
    pub fn observe(&mut self, done: usize) -> (frame: Frame)
        requires
            old(self).wf(),
        ensures
            final(self).wf(),
            final(self).spec_total() == old(self).spec_total(),
            frame.line@ == progress_text(done, old(self).spec_total(), old(self).spec_phase()),
            frame.next == (if done >= old(self).spec_total() {
                Next::Stop
            } else {
                Next::Poll
            }),
            final(self).spec_phase() == (if done >= old(self).spec_total() {
                old(self).spec_phase()
            } else {
                (old(self).spec_phase() + 1) % 4
            }),
    {
        let line = progress_line(done, self.total, self.phase);
        if done >= self.total {
            Frame { line, next: Next::Stop }
        } else {
            self.phase = (self.phase + 1) % PHASES;
            Frame { line, next: Next::Poll }
        }
    }
}

} // verus!
