//! Bandwidth limits and transfer statistics for sync transfers.
use vstd::prelude::*;

verus! {

#[verifier::external_type_specification]
#[verifier::external_body]
pub struct ExInstant(std::time::Instant);

/// Bandwidth limit configuration.
#[derive(Debug, Clone, Copy)]
pub struct BandwidthLimit {
    /// Bytes per second limit (0 means no limit).
    pub bytes_per_second: u64,
}

impl BandwidthLimit {
    /// Create a new bandwidth limit.
    pub fn new(bytes_per_second: u64) -> (r: Self)
        ensures
            r.bytes_per_second == bytes_per_second,
    {
        BandwidthLimit { bytes_per_second }
    }

    /// No limit.
    pub fn unlimited() -> (r: Self)
        ensures
            r.bytes_per_second == 0,
    {
        BandwidthLimit { bytes_per_second: 0 }
    }

    /// 1 MB/s limit.
    pub fn slow() -> (r: Self)
        ensures
            r.bytes_per_second == 1_000_000,
    {
        Self::new(1_000_000)
    }

    /// 10 MB/s limit.
    pub fn medium() -> (r: Self)
        ensures
            r.bytes_per_second == 10_000_000,
    {
        Self::new(10_000_000)
    }

    /// 100 MB/s limit.
    pub fn fast() -> (r: Self)
        ensures
            r.bytes_per_second == 100_000_000,
    {
        Self::new(100_000_000)
    }

    /// Check if there's a limit.
    pub fn is_limited(&self) -> (r: bool)
        ensures
            r == (self.bytes_per_second > 0),
    {
        self.bytes_per_second > 0
    }

    /// The token-bucket rate a limiter uses for this limit, in 1 KiB chunks
    /// per second: the limit divided by 1024 (at least one), truncated to
    /// 32 bits; `None` when there is no limit or the truncated rate is zero.
    pub fn quota_chunks(&self) -> (r: Option<u32>)
        ensures
            r == (if self.bytes_per_second == 0 {
                None
            } else {
                let per = if self.bytes_per_second / 1024 >= 1 {
                    self.bytes_per_second / 1024
                } else {
                    1
                };
                if per % 0x1_0000_0000 == 0 {
                    None
                } else {
                    Some((per % 0x1_0000_0000) as u32)
                }
            }),
    {
        if !self.is_limited() {
            return None;
        }
        let per = self.bytes_per_second / 1024;
        let per = if per >= 1 {
            per
        } else {
            1
        };
        let rate = per as u32;
        assert(rate as int == per % 0x1_0000_0000) by (bit_vector)
            requires
                rate == per as u32,
        ;
        if rate == 0 {
            None
        } else {
            Some(rate)
        }
    }
}

/// The number of 1 KiB chunks a limiter charges for a transfer of `bytes`
/// bytes: rounded up, at least one.
pub fn transfer_chunks(bytes: usize) -> (r: usize)
    requires
        bytes + 1023 <= usize::MAX,
    ensures
        r == (if (bytes + 1023) / 1024 >= 1 {
            (bytes + 1023) / 1024
        } else {
            1
        }),
{
    let chunks = (bytes + 1023) / 1024;
    if chunks >= 1 {
        chunks
    } else {
        1
    }
}

impl Default for BandwidthLimit {
    fn default() -> (r: Self)
        ensures
            r.bytes_per_second == 0,
    {
        Self::unlimited()
    }
}

/// `Instant::now`: the current monotonic time; nothing is known of its
/// value.
#[verifier::external_body]
pub(crate) fn instant_now() -> std::time::Instant {
    std::time::Instant::now()
}

/// The whole nanoseconds of a `Duration` (`Duration::as_nanos`).
pub uninterp spec fn duration_nanos(d: core::time::Duration) -> nat;

/// `Duration::ZERO`.
#[verifier::external_body]
fn duration_zero() -> (r: core::time::Duration)
    ensures
        duration_nanos(r) == 0,
{
    core::time::Duration::ZERO
}

/// The whole nanoseconds from `earlier` to `later` that
/// `Instant::duration_since` gives for two instants (zero when `earlier` is
/// the later one).
pub uninterp spec fn instant_gap(later: std::time::Instant, earlier: std::time::Instant) -> nat;

/// `Instant::duration_since`: the time from `earlier` to `later` (zero
/// when `earlier` is later), a function of the two instants alone.
#[verifier::external_body]
pub(crate) fn instant_duration_since(
    later: &std::time::Instant,
    earlier: &std::time::Instant,
) -> (r: core::time::Duration)
    ensures
        duration_nanos(r) == instant_gap(*later, *earlier),
{
    later.duration_since(*earlier)
}

/// `Duration::as_nanos`: the whole nanoseconds of `d`.
#[verifier::external_body]
pub(crate) fn duration_as_nanos(d: &core::time::Duration) -> (r: u128)
    ensures
        r == duration_nanos(*d),
{
    d.as_nanos()
}

/// `Instant::elapsed`: the time since `start`; depends on the clock.
#[verifier::external_body]
fn instant_elapsed(start: &std::time::Instant) -> core::time::Duration {
    start.elapsed()
}

/// Transfer statistics for bandwidth monitoring.
#[derive(Debug, Clone)]
pub struct TransferStats {
    /// Total bytes transferred.
    pub bytes_transferred: u64,
    /// Transfer start time.
    pub start_time: Option<std::time::Instant>,
    /// Transfer end time.
    pub end_time: Option<std::time::Instant>,
}

impl Default for TransferStats {
    fn default() -> (r: Self)
        ensures
            r.bytes_transferred == 0,
            r.start_time is None,
            r.end_time is None,
    {
        TransferStats { bytes_transferred: 0, start_time: None, end_time: None }
    }
}

impl TransferStats {
    /// Create new transfer stats.
    pub fn new() -> (r: Self)
        ensures
            r.bytes_transferred == 0,
            r.start_time is None,
            r.end_time is None,
    {
        Self::default()
    }

    /// Start tracking: the start time is taken now and the byte count reset.
    pub fn start(&mut self)
        ensures
            final(self).start_time is Some,
            final(self).bytes_transferred == 0,
            final(self).end_time == old(self).end_time,
    {
        self.start_time = Some(instant_now());
        self.bytes_transferred = 0;
    }

    /// Record bytes transferred.
    pub fn record(&mut self, bytes: u64)
        requires
            old(self).bytes_transferred + bytes <= u64::MAX,
        ensures
            final(self).bytes_transferred == old(self).bytes_transferred + bytes,
            final(self).start_time == old(self).start_time,
            final(self).end_time == old(self).end_time,
    {
        self.bytes_transferred = self.bytes_transferred + bytes;
    }

    /// Stop tracking: the end time is taken now.
    pub fn stop(&mut self)
        ensures
            final(self).end_time is Some,
            final(self).bytes_transferred == old(self).bytes_transferred,
            final(self).start_time == old(self).start_time,
    {
        self.end_time = Some(instant_now());
    }

    /// Get elapsed duration: from start to end, from start to now while
    /// running, zero when never started.
    pub fn elapsed(&self) -> (r: core::time::Duration)
        ensures
            self.start_time is None ==> duration_nanos(r) == 0,
            self.start_time is Some && self.end_time is Some ==> duration_nanos(r) == instant_gap(
                self.end_time->0,
                self.start_time->0,
            ),
    {
        match &self.start_time {
            Some(start) => match &self.end_time {
                Some(end) => instant_duration_since(end, start),
                None => instant_elapsed(start),
            },
            None => duration_zero(),
        }
    }
}

} // verus!
