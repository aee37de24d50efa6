use vstd::prelude::*;

use crate::format::{format_mark, format_text};
use crate::render::{overwrite_text, Printer};
use crate::span::{Span, NANOS_PER_MILLI};

verus! {

/// The shortest tick interval, in nanoseconds: one millisecond.
pub open spec fn min_interval() -> nat {
    1_000_000
}

/// The interval actually used for a requested one of `interval` nanoseconds.
pub open spec fn clamped(interval: nat) -> nat {
    if interval < min_interval() { min_interval() } else { interval }
}

/// What remains of `remaining` nanoseconds after one tick of `interval`, never below zero.
pub open spec fn after_tick(remaining: nat, interval: nat) -> nat {
    if remaining >= interval { (remaining - interval) as nat } else { 0 }
}

/// The interval to tick at, no shorter than one millisecond, and whether the
/// requested one was shorter and replaced (a case to warn of, not to refuse).
pub fn clamp_interval(interval: &Span) -> (r: (Span, bool))
    requires
        interval.wf(),
    ensures
        r.0.wf(),
        r.0@ == clamped(interval@),
        r.1 == (interval@ < min_interval()),
{
    let floor = Span::new(0, NANOS_PER_MILLI);
    if interval.lt(&floor) {
        (floor, true)
    } else {
        (*interval, false)
    }
}

/// What happens while the countdown runs.
#[derive(Clone, Copy, Debug, PartialEq, Eq)]
pub enum Event {
    /// One interval has passed.
    Tick,
    /// The whole duration has passed; the countdown ends.
    Deadline,
}

/// A countdown: what remains, the interval it ticks at, the terminal line it
/// rewrites, and whether the deadline has come.
#[derive(Clone, Copy, Debug)]
pub struct Countdown {
    pub remaining: Span,
    pub interval: Span,
    pub printer: Printer,
    pub finished: bool,
}

impl Countdown {
    /// Both spans are valid and the interval is at least one millisecond.
    pub open spec fn wf(&self) -> bool {
        &&& self.remaining.wf()
        &&& self.interval.wf()
        &&& self.interval@ >= min_interval()
    }

    /// A countdown of `total` that ticks every `interval`, with nothing written yet.
    pub fn new(total: &Span, interval: &Span) -> (r: Countdown)
        requires
            total.wf(),
            interval.wf(),
            interval@ >= min_interval(),
        ensures
            r.wf(),
            r.remaining == *total,
            r.interval == *interval,
            r.printer == Printer::new_spec(),
            !r.finished,
    {
        Countdown { remaining: *total, interval: *interval, printer: Printer::new(), finished: false }
    }

    /// The first line, written before the first wait: the whole duration.
    pub fn start(&mut self) -> (line: String)
        requires
            old(self).wf(),
        ensures
            final(self).wf(),
            line@ == overwrite_text(
                format_text(old(self).remaining@, old(self).printer.max_decimals as nat),
                old(self).printer.prev_line as nat,
            ),
            final(self).remaining == old(self).remaining,
            final(self).interval == old(self).interval,
            final(self).finished == old(self).finished,
            final(self).printer.prev_line == format_text(
                old(self).remaining@,
                old(self).printer.max_decimals as nat,
            ).len(),
            final(self).printer.max_decimals == format_mark(
                old(self).remaining@,
                old(self).printer.max_decimals as nat,
            ),
    {
        self.printer.render(&self.remaining)
    }

    /// The line to write on `event`, and the new state. A tick takes one
    /// interval off what remains, never going below zero, and shows the rest.
    /// The deadline sets what remains to zero, ends the countdown and shows
    /// zero afresh, as `0s`, whatever fractional digits were shown before.
    /// Once ended, the countdown writes nothing more.
    pub fn step(&mut self, event: Event) -> (line: String)
        requires
            old(self).wf(),
        ensures
            final(self).wf(),
            final(self).interval == old(self).interval,
            old(self).finished ==> line@.len() == 0 && *final(self) == *old(self),
            !old(self).finished && event == Event::Tick ==> {
                let rest = after_tick(old(self).remaining@, old(self).interval@);
                let text = format_text(rest, old(self).printer.max_decimals as nat);
                &&& final(self).remaining@ == rest
                &&& !final(self).finished
                &&& line@ == overwrite_text(text, old(self).printer.prev_line as nat)
                &&& final(self).printer.prev_line == text.len()
                &&& final(self).printer.max_decimals == format_mark(
                    rest,
                    old(self).printer.max_decimals as nat,
                )
            },
            !old(self).finished && event == Event::Deadline ==> {
                &&& final(self).remaining@ == 0
                &&& final(self).finished
                &&& line@ == overwrite_text(seq!['0', 's'], old(self).printer.prev_line as nat)
                &&& final(self).printer.prev_line == 2
                &&& final(self).printer.max_decimals == 0
            },
    {
        if self.finished {
            return String::new();
        }
        match event {
            Event::Tick => {
                self.remaining = self.remaining.saturating_sub(&self.interval);
                self.printer.render(&self.remaining)
            },
            Event::Deadline => {
                self.remaining = Span::zero();
                self.finished = true;
                self.printer.max_decimals = 0;
                let line = self.printer.render(&self.remaining);
                proof {
                    crate::span::lemma_split(0, 0);
                    reveal_with_fuel(crate::format::dec, 1);
                    assert(format_text(0, 0) =~= seq!['0', 's']);
                }
                line
            },
        }
    }
}

} // verus!
