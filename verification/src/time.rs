//! A nanosecond-resolution span of time over the range of `std::time::Duration`.

use vstd::prelude::*;

verus! {

/// Nanoseconds in one second.
pub const NANOS_PER_SEC: u128 = 1_000_000_000;

/// Largest span representable: `u64::MAX` seconds plus 999 999 999 nanoseconds.
pub open spec fn max_nanos() -> nat {
    18_446_744_073_709_551_615 * 1_000_000_000 + 999_999_999
}

/// A span of time in nanoseconds, over the same range as `std::time::Duration`.
#[derive(Debug, Clone, Copy, PartialEq, Eq, Structural)]
pub struct Duration {
    nanos: u128,
}

impl View for Duration {
    type V = nat;

    closed spec fn view(&self) -> nat {
        self.nanos as nat
    }
}

impl Duration {
    #[verifier::type_invariant]
    closed spec fn in_range(self) -> bool {
        self.nanos <= max_nanos()
    }

    /// Every duration lies within the range of `std::time::Duration`.
    pub fn check_range(&self)
        ensures
            self@ <= max_nanos(),
    {
        proof {
            use_type_invariant(self);
        }
    }

    /// Two durations are equal exactly when they span the same time.
    pub proof fn lemma_eq_iff_view(a: Duration, b: Duration)
        ensures
            (a == b) <==> (a@ == b@),
    {
    }

    /// The span of `nanos` nanoseconds.
    pub fn from_nanos_total(nanos: u128) -> (d: Duration)
        requires
            nanos <= max_nanos(),
        ensures
            d@ == nanos,
    {
        Duration { nanos }
    }

    /// The empty span.
    pub fn zero() -> (d: Duration)
        ensures
            d@ == 0,
    {
        Duration { nanos: 0 }
    }

    pub fn from_secs(secs: u64) -> (d: Duration)
        ensures
            d@ == secs * 1_000_000_000,
    {
        Duration { nanos: secs as u128 * NANOS_PER_SEC }
    }

    pub fn from_millis(millis: u64) -> (d: Duration)
        ensures
            d@ == millis * 1_000_000,
    {
        Duration { nanos: millis as u128 * 1_000_000 }
    }

    pub fn from_micros(micros: u64) -> (d: Duration)
        ensures
            d@ == micros * 1_000,
    {
        Duration { nanos: micros as u128 * 1_000 }
    }

    pub fn from_nanos(nanos: u64) -> (d: Duration)
        ensures
            d@ == nanos,
    {
        Duration { nanos: nanos as u128 }
    }

    /// Total nanoseconds.
    pub fn as_nanos(&self) -> (n: u128)
        ensures
            n == self@,
            n <= max_nanos(),
    {
        proof {
            use_type_invariant(self);
        }
        self.nanos
    }

    /// Whole microseconds, rounded toward zero.
    pub fn as_micros(&self) -> (n: u128)
        ensures
            n == self@ / 1_000,
    {
        self.nanos / 1_000
    }

    /// Whole seconds, rounded toward zero.
    pub fn as_secs(&self) -> (s: u64)
        ensures
            s == self@ / 1_000_000_000,
    {
        proof {
            use_type_invariant(self);
        }
        (self.nanos / NANOS_PER_SEC) as u64
    }

    /// Nanoseconds past the whole second.
    pub fn subsec_nanos(&self) -> (n: u32)
        ensures
            n == self@ % 1_000_000_000,
    {
        (self.nanos % NANOS_PER_SEC) as u32
    }

    /// Whether `self` spans no more time than `other`.
    pub fn le(&self, other: &Duration) -> (b: bool)
        ensures
            b == (self@ <= other@),
    {
        self.nanos <= other.nanos
    }

    /// Whether `self` spans strictly more time than zero.
    pub fn is_positive(&self) -> (b: bool)
        ensures
            b == (self@ > 0),
    {
        self.nanos > 0
    }
}

/// The text `format!("{:?}", d)` (or `format!("{:.p?}", d)` with precision
/// `p`) gives for the `std::time::Duration` of `secs` seconds and `nanos`
/// nanoseconds.
pub uninterp spec fn duration_debug_text(secs: u64, nanos: u32, precision: Option<usize>) -> Seq<char>;

/// The `Debug` rendering of `std::time::Duration::new(secs, nanos)`, with
/// the given precision if any.
#[verifier::external_body]
fn std_duration_debug(secs: u64, nanos: u32, precision: Option<usize>) -> (s: String)
    requires
        nanos < 1_000_000_000,
    ensures
        s@ == duration_debug_text(secs, nanos, precision),
{
    let d = std::time::Duration::new(secs, nanos);
    match precision {
        Some(p) => format!("{:.*?}", p, d),
        None => format!("{:?}", d),
    }
}

/// The `Debug` text of the span of `nanos` nanoseconds.
pub open spec fn duration_debug(nanos: nat, precision: Option<usize>) -> Seq<char> {
    duration_debug_text((nanos / 1_000_000_000) as u64, (nanos % 1_000_000_000) as u32, precision)
}

impl Duration {
    /// The span written as `std::time::Duration` writes itself for `{:?}`
    /// (`1.5s`, `250ms`, ...), with `precision` fractional digits if given.
    pub fn debug_text(&self, precision: Option<usize>) -> (s: String)
        ensures
            s@ == duration_debug(self@, precision),
    {
        let secs = self.as_secs();
        let nanos = self.subsec_nanos();
        std_duration_debug(secs, nanos, precision)
    }
}

/// `std::time::Duration::as_nanos`: the whole span in nanoseconds, which
/// for any standard duration lies within [`max_nanos`].
#[verifier::external_body]
pub(crate) fn std_duration_nanos(d: &core::time::Duration) -> (n: u128)
    ensures
        n <= max_nanos(),
{
    d.as_nanos()
}

} // verus!
