use vstd::prelude::*;

verus! {

/// Nanoseconds in one second.
pub const NANOS_PER_SEC: u32 = 1_000_000_000;

/// Nanoseconds in one millisecond.
pub const NANOS_PER_MILLI: u32 = 1_000_000;

/// A non-negative time span: whole seconds and the nanoseconds beyond them.
#[derive(Clone, Copy, Debug, PartialEq, Eq)]
pub struct Span {
    pub secs: u64,
    pub nanos: u32,
}

impl Span {
    /// The nanoseconds part is below one second.
    pub open spec fn wf(&self) -> bool {
        self.nanos < NANOS_PER_SEC
    }

    /// The span as a number of nanoseconds.
    pub open spec fn view(&self) -> nat {
        self.secs as nat * 1_000_000_000 + self.nanos as nat
    }

    pub fn new(secs: u64, nanos: u32) -> (r: Span)
        requires
            nanos < NANOS_PER_SEC,
        ensures
            r.wf(),
            r.secs == secs,
            r.nanos == nanos,
    {
        Span { secs, nanos }
    }

    pub fn zero() -> (r: Span)
        ensures
            r.wf(),
            r@ == 0,
    {
        Span { secs: 0, nanos: 0 }
    }

    pub fn from_secs(secs: u64) -> (r: Span)
        ensures
            r.wf(),
            r@ == secs * 1_000_000_000,
    {
        Span { secs, nanos: 0 }
    }

    pub fn from_millis(millis: u64) -> (r: Span)
        ensures
            r.wf(),
            r@ == millis * 1_000_000,
    {
        let secs = millis / 1000;
        let rest = millis % 1000;
        proof {
            assert(millis == secs * 1000 + rest);
            assert(millis * 1_000_000 == secs * 1_000_000_000 + rest * 1_000_000) by (nonlinear_arith)
                requires millis == secs * 1000 + rest;
        }
        Span { secs, nanos: (rest as u32) * NANOS_PER_MILLI }
    }

    /// Whole milliseconds beyond the whole seconds.
    pub fn subsec_millis(&self) -> (r: u32)
        requires
            self.wf(),
        ensures
            r < 1000,
            r == (self@ % 1_000_000_000) / 1_000_000,
    {
        proof { lemma_split(self.secs as nat, self.nanos as nat); }
        self.nanos / NANOS_PER_MILLI
    }

    /// Whether this span is shorter than `other`.
    pub fn lt(&self, other: &Span) -> (r: bool)
        requires
            self.wf(),
            other.wf(),
        ensures
            r == (self@ < other@),
    {
        proof {
            lemma_order(self.secs as nat, self.nanos as nat, other.secs as nat, other.nanos as nat);
        }
        self.secs < other.secs || (self.secs == other.secs && self.nanos < other.nanos)
    }

    /// This span less `other`, or zero where `other` is longer.
    pub fn saturating_sub(&self, other: &Span) -> (r: Span)
        requires
            self.wf(),
            other.wf(),
        ensures
            r.wf(),
            r@ == if self@ >= other@ { (self@ - other@) as nat } else { 0 },
    {
        proof {
            lemma_order(self.secs as nat, self.nanos as nat, other.secs as nat, other.nanos as nat);
        }
        if self.lt(other) {
            Span::zero()
        } else if self.nanos >= other.nanos {
            let r = Span { secs: self.secs - other.secs, nanos: self.nanos - other.nanos };
            proof {
                assert(r@ == self@ - other@) by (nonlinear_arith)
                    requires
                        r.secs == self.secs - other.secs,
                        r.nanos == self.nanos - other.nanos,
                        r@ == r.secs * 1_000_000_000 + r.nanos,
                        self@ == self.secs * 1_000_000_000 + self.nanos,
                        other@ == other.secs * 1_000_000_000 + other.nanos,
                ;
            }
            r
        } else {
            let r = Span {
                secs: self.secs - other.secs - 1,
                nanos: NANOS_PER_SEC - other.nanos + self.nanos,
            };
            proof {
                assert(r@ == self@ - other@) by (nonlinear_arith)
                    requires
                        r.secs == self.secs - other.secs - 1,
                        r.nanos == 1_000_000_000 - other.nanos + self.nanos,
                        r@ == r.secs * 1_000_000_000 + r.nanos,
                        self@ == self.secs * 1_000_000_000 + self.nanos,
                        other@ == other.secs * 1_000_000_000 + other.nanos,
                ;
            }
            r
        }
    }
}

/// Seconds and nanoseconds are recovered from the total by division.
pub proof fn lemma_split(secs: nat, nanos: nat)
    requires
        nanos < 1_000_000_000,
    ensures
        (secs * 1_000_000_000 + nanos) / 1_000_000_000 == secs,
        (secs * 1_000_000_000 + nanos) % 1_000_000_000 == nanos,
{
    vstd::arithmetic::div_mod::lemma_fundamental_div_mod_converse(
        (secs * 1_000_000_000 + nanos) as int,
        1_000_000_000,
        secs as int,
        nanos as int,
    );
}

/// Spans compare as their (seconds, nanoseconds) pairs do.
pub proof fn lemma_order(s1: nat, n1: nat, s2: nat, n2: nat)
    requires
        n1 < 1_000_000_000,
        n2 < 1_000_000_000,
    ensures
        (s1 * 1_000_000_000 + n1 < s2 * 1_000_000_000 + n2) == (s1 < s2 || (s1 == s2 && n1 < n2)),
{
    if s1 < s2 {
        assert(s1 * 1_000_000_000 + 1_000_000_000 <= s2 * 1_000_000_000) by (nonlinear_arith)
            requires s1 < s2;
    } else if s1 > s2 {
        assert(s2 * 1_000_000_000 + 1_000_000_000 <= s1 * 1_000_000_000) by (nonlinear_arith)
            requires s1 > s2;
    }
}

} // verus!
