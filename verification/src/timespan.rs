use vstd::prelude::*;

verus! {

/// Nanoseconds in one second.
pub const NANOS_PER_SEC: u32 = 1_000_000_000;

/// The longest span a `TimeSpan` holds, in nanoseconds: `u64::MAX` seconds
/// and 999 999 999 nanoseconds.
pub open spec fn max_nanos() -> nat {
    u64::MAX as nat * 1_000_000_000 + 999_999_999
}

/// A span of time, held as whole seconds and the nanoseconds of the
/// second under way, with the range and the checked arithmetic of
/// `std::time::Duration`.
#[derive(Clone, Copy, Debug, PartialEq, Eq)]
pub struct TimeSpan {
    secs: u64,
    nanos: u32,
}

impl TimeSpan {
    #[verifier::type_invariant]
    spec fn inv(self) -> bool {
        self.nanos < NANOS_PER_SEC
    }
}

impl View for TimeSpan {
    /// The span in nanoseconds.
    type V = nat;

    closed spec fn view(&self) -> nat {
        self.secs as nat * 1_000_000_000 + self.nanos as nat
    }
}

impl TimeSpan {
    /// A span whose nanoseconds are below a second is at most
    /// `max_nanos()` nanoseconds long.
    proof fn lemma_bounded(secs: u64, nanos: u32)
        requires
            nanos < NANOS_PER_SEC,
        ensures
            secs as nat * 1_000_000_000 + nanos as nat <= max_nanos(),
    {
        assert(secs as nat * 1_000_000_000 <= u64::MAX as nat * 1_000_000_000) by (nonlinear_arith)
            requires
                secs <= u64::MAX,
        ;
    }

    /// The span of `n` nanoseconds.
    fn from_total_nanos(n: u128) -> (r: TimeSpan)
        requires
            n <= max_nanos(),
        ensures
            r@ == n,
    {
        let secs = n / (NANOS_PER_SEC as u128);
        let nanos = n % (NANOS_PER_SEC as u128);
        assert(secs <= u64::MAX) by (nonlinear_arith)
            requires
                n <= max_nanos(),
                secs == n / 1_000_000_000,
        ;
        TimeSpan { secs: secs as u64, nanos: nanos as u32 }
    }

    /// The span of `secs` seconds and `nanos` nanoseconds; nanoseconds
    /// beyond a second carry into the seconds.
    pub fn new(secs: u64, nanos: u32) -> (r: TimeSpan)
        requires
            secs as nat * 1_000_000_000 + nanos as nat <= max_nanos(),
        ensures
            r@ == secs as nat * 1_000_000_000 + nanos as nat,
    {
        let total = (secs as u128) * (NANOS_PER_SEC as u128) + (nanos as u128);
        Self::from_total_nanos(total)
    }

    /// The empty span.
    pub fn zero() -> (r: TimeSpan)
        ensures
            r@ == 0,
    {
        TimeSpan { secs: 0, nanos: 0 }
    }

    /// The span in nanoseconds.
    pub fn as_nanos(&self) -> (r: u128)
        ensures
            r == self@,
    {
        proof {
            use_type_invariant(self);
            Self::lemma_bounded(self.secs, self.nanos);
        }
        (self.secs as u128) * (NANOS_PER_SEC as u128) + (self.nanos as u128)
    }

    /// The whole seconds of the span.
    pub fn as_secs(&self) -> (r: u64)
        ensures
            r == self@ / 1_000_000_000,
    {
        proof {
            use_type_invariant(self);
        }
        self.secs
    }

    /// The nanoseconds of the span beyond its whole seconds.
    pub fn subsec_nanos(&self) -> (r: u32)
        ensures
            r == self@ % 1_000_000_000,
    {
        proof {
            use_type_invariant(self);
        }
        self.nanos
    }

    /// `self` repeated `rhs` times, or `None` when that is too long.
    pub fn checked_mul(self, rhs: u32) -> (r: Option<TimeSpan>)
        ensures
            r is Some <==> self@ * rhs <= max_nanos(),
            r matches Some(t) ==> t@ == self@ * rhs,
    {
        let total = self.as_nanos();
        proof {
            use_type_invariant(self);
            Self::lemma_bounded(self.secs, self.nanos);
            assert(total * rhs <= u128::MAX) by (nonlinear_arith)
                requires
                    total <= max_nanos(),
                    rhs <= u32::MAX,
            ;
        }
        let product = total * (rhs as u128);
        if product <= 18_446_744_073_709_551_615_999_999_999u128 {
            Some(Self::from_total_nanos(product))
        } else {
            None
        }
    }

    /// `self` followed by `rhs`, or `None` when that is too long.
    pub fn checked_add(self, rhs: TimeSpan) -> (r: Option<TimeSpan>)
        ensures
            r is Some <==> self@ + rhs@ <= max_nanos(),
            r matches Some(t) ==> t@ == self@ + rhs@,
    {
        let a = self.as_nanos();
        let b = rhs.as_nanos();
        proof {
            use_type_invariant(self);
            use_type_invariant(rhs);
            Self::lemma_bounded(self.secs, self.nanos);
            Self::lemma_bounded(rhs.secs, rhs.nanos);
        }
        let sum = a + b;
        if sum <= 18_446_744_073_709_551_615_999_999_999u128 {
            Some(Self::from_total_nanos(sum))
        } else {
            None
        }
    }

    /// `self` cut into `rhs` equal parts, rounded down to the nanosecond,
    /// or `None` when `rhs` is 0.
    pub fn checked_div(self, rhs: u32) -> (r: Option<TimeSpan>)
        ensures
            r is Some <==> rhs != 0,
            r matches Some(t) ==> t@ == self@ / (rhs as nat),
    {
        if rhs == 0 {
            return None;
        }
        let total = self.as_nanos();
        proof {
            use_type_invariant(self);
            Self::lemma_bounded(self.secs, self.nanos);
            assert(total as nat / (rhs as nat) <= total as nat) by (nonlinear_arith)
                requires
                    rhs >= 1,
            ;
        }
        Some(Self::from_total_nanos(total / (rhs as u128)))
    }
}

} // verus!
