//! A span of time, held as whole nanoseconds, and its human rendering.
use vstd::prelude::*;
use crate::text::{decimal, decimal_vec, extend, extend_str};

verus! {

pub const NANOS_PER_MILLI: u128 = 1_000_000;

pub const NANOS_PER_SEC: u128 = 1_000_000_000;

/// A span of time in nanoseconds. Every `std::time::Duration` has one exact value here.
#[derive(Debug, Clone, Copy, PartialEq, Eq, PartialOrd, Ord, Structural)]
pub struct Dur {
    pub nanos: u128,
}

impl Dur {
    /// `Duration::from_secs`.
    pub fn from_secs(secs: u64) -> (d: Dur)
        ensures
            d.nanos == secs as nat * NANOS_PER_SEC as nat,
    {
        Dur { nanos: secs as u128 * NANOS_PER_SEC }
    }

    /// `Duration::from_millis`.
    pub fn from_millis(ms: u64) -> (d: Dur)
        ensures
            d.nanos == ms as nat * NANOS_PER_MILLI as nat,
    {
        Dur { nanos: ms as u128 * NANOS_PER_MILLI }
    }

    /// `Duration::from_nanos`, widened.
    pub fn from_nanos(nanos: u128) -> (d: Dur)
        ensures
            d.nanos == nanos,
    {
        Dur { nanos }
    }

    /// `Duration::ZERO`.
    pub fn zero() -> (d: Dur)
        ensures
            d.nanos == 0,
    {
        Dur { nanos: 0 }
    }

    /// Whole seconds (`Duration::as_secs`), widened.
    pub fn whole_secs(&self) -> (s: u128)
        ensures
            s == self.nanos / NANOS_PER_SEC,
    {
        self.nanos / NANOS_PER_SEC
    }

    /// `Ord::min`.
    pub fn min(self, other: Dur) -> (d: Dur)
        ensures
            d.nanos == if self.nanos <= other.nanos {
                self.nanos
            } else {
                other.nanos
            },
    {
        if self.nanos <= other.nanos {
            self
        } else {
            other
        }
    }

    /// `Ord::max`.
    pub fn max(self, other: Dur) -> (d: Dur)
        ensures
            d.nanos == if self.nanos >= other.nanos {
                self.nanos
            } else {
                other.nanos
            },
    {
        if self.nanos >= other.nanos {
            self
        } else {
            other
        }
    }

    /// `Duration::saturating_sub`.
    pub fn saturating_sub(self, other: Dur) -> (d: Dur)
        ensures
            d.nanos == if self.nanos >= other.nanos {
                self.nanos - other.nanos
            } else {
                0
            },
    {
        if self.nanos >= other.nanos {
            Dur { nanos: self.nanos - other.nanos }
        } else {
            Dur { nanos: 0 }
        }
    }
}

/// How a wait is named to a user: hours and minutes from an hour up, minutes and seconds
/// from a minute up, and whole seconds below that.
pub open spec fn duration_text(nanos: nat) -> Seq<char> {
    let secs = nanos / (NANOS_PER_SEC as nat);
    if secs >= 3600 {
        decimal(secs / 3600) + "h "@ + decimal((secs % 3600) / 60) + "m"@
    } else if secs >= 60 {
        decimal(secs / 60) + "m "@ + decimal(secs % 60) + "s"@
    } else {
        decimal(secs) + "s"@
    }
}

/// Renders `d` as `duration_text` says.
pub fn format_duration(d: Dur) -> (r: Vec<char>)
    ensures
        r@ == duration_text(d.nanos as nat),
{
    let secs = d.nanos / NANOS_PER_SEC;
    let mut out: Vec<char> = Vec::new();
    if secs >= 3600 {
        let h = decimal_vec(secs / 3600);
        extend(&mut out, h.as_slice());
        extend_str(&mut out, "h ");
        let m = decimal_vec((secs % 3600) / 60);
        extend(&mut out, m.as_slice());
        extend_str(&mut out, "m");
    } else if secs >= 60 {
        let m = decimal_vec(secs / 60);
        extend(&mut out, m.as_slice());
        extend_str(&mut out, "m ");
        let s = decimal_vec(secs % 60);
        extend(&mut out, s.as_slice());
        extend_str(&mut out, "s");
    } else {
        let s = decimal_vec(secs);
        extend(&mut out, s.as_slice());
        extend_str(&mut out, "s");
    }
    out
}

} // verus!
