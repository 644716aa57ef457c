use vstd::prelude::*;

verus! {

/// Nanoseconds in one second.
pub const NANOS_PER_SECOND: u64 = 1_000_000_000;

/// The block in which an operation executes: its height and its time in
/// nanoseconds.
#[derive(Clone, Copy, Debug, PartialEq, Eq, Structural)]
pub struct BlockInfo {
    pub height: u64,
    pub time: u64,
}

/// A delay, counted in blocks or in seconds.
#[derive(Clone, Copy, Debug, PartialEq, Eq, Structural)]
pub enum Duration {
    Height(u64),
    Time(u64),
}

/// A point after which something matures: a height, a time in nanoseconds,
/// or never.
#[derive(Clone, Copy, Debug, PartialEq, Eq, Structural)]
pub enum Expiration {
    AtHeight(u64),
    AtTime(u64),
    Never,
}

impl Expiration {
    /// Whether `block` lies at or after this point.
    pub open spec fn expired_at(self, block: BlockInfo) -> bool {
        match self {
            Expiration::AtHeight(h) => block.height >= h,
            Expiration::AtTime(t) => block.time >= t,
            Expiration::Never => false,
        }
    }

    pub fn is_expired(&self, block: &BlockInfo) -> (r: bool)
        ensures
            r == self.expired_at(*block),
    {
        match self {
            Expiration::AtHeight(h) => block.height >= *h,
            Expiration::AtTime(t) => block.time >= *t,
            Expiration::Never => false,
        }
    }
}

impl Duration {
    /// The point reached when this delay has passed from `block`, as an
    /// unbounded number.
    pub open spec fn end_after(self, block: BlockInfo) -> int {
        match self {
            Duration::Height(h) => block.height + h,
            Duration::Time(t) => block.time + t * NANOS_PER_SECOND,
        }
    }

    /// Whether the end of this delay from `block` is a representable point.
    pub open spec fn fits_after(self, block: BlockInfo) -> bool {
        self.end_after(block) <= u64::MAX
    }

    /// The expiration reached when this delay has passed from `block`.
    pub open spec fn spec_after(self, block: BlockInfo) -> Expiration {
        match self {
            Duration::Height(_) => Expiration::AtHeight(self.end_after(block) as u64),
            Duration::Time(_) => Expiration::AtTime(self.end_after(block) as u64),
        }
    }

    pub fn after(&self, block: &BlockInfo) -> (r: Expiration)
        requires
            self.fits_after(*block),
        ensures
            r == self.spec_after(*block),
    {
        match self {
            Duration::Height(h) => Expiration::AtHeight(block.height + *h),
            Duration::Time(t) => {
                assert(*t * NANOS_PER_SECOND <= u64::MAX);
                Expiration::AtTime(block.time + *t * NANOS_PER_SECOND)
            },
        }
    }

    /// Whether a delay can be added to `block` without leaving `u64`.
    pub fn fits(&self, block: &BlockInfo) -> (r: bool)
        ensures
            r == self.fits_after(*block),
    {
        match self {
            Duration::Height(h) => *h <= u64::MAX - block.height,
            Duration::Time(t) => {
                if *t > u64::MAX / NANOS_PER_SECOND {
                    assert(*t * NANOS_PER_SECOND > u64::MAX) by (nonlinear_arith)
                        requires
                            *t > u64::MAX / NANOS_PER_SECOND,
                    ;
                    false
                } else {
                    assert(*t * NANOS_PER_SECOND <= u64::MAX) by (nonlinear_arith)
                        requires
                            *t <= u64::MAX / NANOS_PER_SECOND,
                    ;
                    *t * NANOS_PER_SECOND <= u64::MAX - block.time
                }
            },
        }
    }
}

} // verus!
