//! Prober decisions: what one probe cycle records, and the fixed sampling
//! cadence. The echo itself (send one packet, await reply or timeout) is a
//! capability of the surrounding process; every decision about its outcome
//! stands here.
use vstd::prelude::*;
use crate::measurement::{Measurement, MeasurementModel};
use crate::store::{Store, StorageError};

verus! {

/// Sampling period of the probe loop, in milliseconds.
pub const PERIOD_MS: u64 = 10000;

/// Timeout for a single echo probe, in milliseconds.
pub const TIMEOUT_MS: u64 = 1000;

/// The prober for one fixed target host.
pub struct Pinger {
    pub host: String,
}

/// The measurement that a probe cycle records: a cycle with at least one
/// drop is missing (its observed latency is discarded), and only a cycle
/// whose reply arrived carries the measured round trip.
pub open spec fn outcome_model(
    host: Seq<char>,
    timestamp: int,
    dropped: int,
    latency_us: int,
) -> MeasurementModel {
    MeasurementModel {
        host: host,
        timestamp: timestamp,
        missing: dropped > 0,
        latency_us: if dropped > 0 {
            0
        } else {
            latency_us
        },
    }
}

impl Pinger {
    pub fn new(host: String) -> (p: Pinger)
        ensures
            p.host == host,
    {
        Pinger { host }
    }

    /// Turns one cycle's observation into the measurement to record:
    /// `dropped` echoes lost out of the one sent, and the measured round
    /// trip in microseconds, meaningful only when nothing was dropped.
    pub fn outcome(&self, timestamp: i64, dropped: u32, latency_us: u64) -> (m: Measurement)
        ensures
            m@ == outcome_model(self.host@, timestamp as int, dropped as int, latency_us as int),
    {
        if dropped > 0 {
            Measurement::new(self.host.clone(), timestamp, true, 0)
        } else {
            Measurement::new(self.host.clone(), timestamp, false, latency_us)
        }
    }

    /// Records one cycle's outcome: on success the store's log is extended
    /// by exactly that measurement; on failure it is unchanged.
    pub fn record(
        &self,
        store: &mut Store,
        timestamp: i64,
        dropped: u32,
        latency_us: u64,
    ) -> (r: Result<(), StorageError>)
        ensures
            r matches Ok(()) ==> final(store)@ == old(store)@.push(
                outcome_model(self.host@, timestamp as int, dropped as int, latency_us as int),
            ),
            r matches Err(_) ==> final(store)@ == old(store)@,
    {
        let m = self.outcome(timestamp, dropped, latency_us);
        store.insert(&m)
    }
}

/// How long the probe loop must sleep after a cycle that took
/// `elapsed_ms` milliseconds: the remainder of the period, or nothing
/// when the cycle overran it.
pub fn pause_after(elapsed_ms: u64) -> (r: u64)
    ensures
        r == if elapsed_ms < PERIOD_MS {
            PERIOD_MS - elapsed_ms
        } else {
            0
        },
{
    if elapsed_ms < PERIOD_MS {
        PERIOD_MS - elapsed_ms
    } else {
        0
    }
}

} // verus!
