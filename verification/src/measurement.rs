//! The measurement record: one row per probe attempt, and the
//! chronological-log facts that a sequence of probe cycles establishes.
use vstd::prelude::*;

verus! {

/// Mathematical image of one measurement row.
pub struct MeasurementModel {
    pub host: Seq<char>,
    pub timestamp: int,
    pub missing: bool,
    pub latency_us: int,
}

/// One persisted record of a probe's outcome. `latency_us` is the round
/// trip in microseconds; it carries no information when `missing` is true
/// (by convention it is then zero), and readers must ignore it.
pub struct Measurement {
    pub host: String,
    pub timestamp: i64,
    pub missing: bool,
    pub latency_us: u64,
}

impl View for Measurement {
    type V = MeasurementModel;

    open spec fn view(&self) -> MeasurementModel {
        MeasurementModel {
            host: self.host@,
            timestamp: self.timestamp as int,
            missing: self.missing,
            latency_us: self.latency_us as int,
        }
    }
}

impl Measurement {
    pub fn new(host: String, timestamp: i64, missing: bool, latency_us: u64) -> (m: Measurement)
        ensures
            m@ == (MeasurementModel {
                host: host@,
                timestamp: timestamp as int,
                missing: missing,
                latency_us: latency_us as int,
            }),
    {
        Measurement { host, timestamp, missing, latency_us }
    }
}

/// The models of a sequence of rows.
pub open spec fn models(rows: Seq<Measurement>) -> Seq<MeasurementModel> {
    rows.map_values(|m: Measurement| m@)
}

/// Timestamps are non-decreasing in insertion order.
pub open spec fn chronological(log: Seq<MeasurementModel>) -> bool {
    forall|i: int, j: int|
        0 <= i <= j < log.len() ==> log[i].timestamp <= log[j].timestamp
}

/// Appending one measurement taken no earlier than the last recorded one
/// grows the log by exactly one row and keeps its timestamps
/// non-decreasing: what each probe cycle's insert does to the store.
pub proof fn lemma_record_keeps_chronology(log: Seq<MeasurementModel>, m: MeasurementModel)
    requires
        chronological(log),
        log.len() > 0 ==> log.last().timestamp <= m.timestamp,
    ensures
        chronological(log.push(m)),
        log.push(m).len() == log.len() + 1,
{
    assert forall|i: int, j: int|
        0 <= i <= j < log.push(m).len() implies log.push(m)[i].timestamp <= log.push(
        m,
    )[j].timestamp by {
        if j < log.len() {
            assert(log.push(m)[i] == log[i] && log.push(m)[j] == log[j]);
        } else if i < log.len() {
            assert(log[i].timestamp <= log.last().timestamp);
        }
    }
}

/// The store's log after a sequence of recorded probe outcomes, each one
/// appended in turn: exactly what `Store::insert` does for each element.
pub open spec fn after_probes(
    log: Seq<MeasurementModel>,
    probes: Seq<MeasurementModel>,
) -> Seq<MeasurementModel>
    decreases probes.len(),
{
    if probes.len() == 0 {
        log
    } else {
        after_probes(log.push(probes[0]), probes.drop_first())
    }
}

/// Recording a sequence of probe outcomes appends them in order.
pub proof fn lemma_after_probes_is_append(log: Seq<MeasurementModel>, probes: Seq<MeasurementModel>)
    ensures
        after_probes(log, probes) == log + probes,
    decreases probes.len(),
{
    if probes.len() == 0 {
        assert(after_probes(log, probes) =~= log + probes);
    } else {
        lemma_after_probes_is_append(log.push(probes[0]), probes.drop_first());
        assert(log.push(probes[0]) + probes.drop_first() =~= log + probes);
    }
}

/// A sequence of N probe outcomes, recorded one by one into an empty
/// store, leaves exactly N rows; and when the probes' timestamps were
/// non-decreasing (clock skew aside), so are the rows' timestamps in
/// insertion order.
pub proof fn lemma_probe_history(probes: Seq<MeasurementModel>)
    ensures
        after_probes(Seq::<MeasurementModel>::empty(), probes) == probes,
        after_probes(Seq::<MeasurementModel>::empty(), probes).len() == probes.len(),
        chronological(probes) ==> chronological(
            after_probes(Seq::<MeasurementModel>::empty(), probes),
        ),
{
    lemma_after_probes_is_append(Seq::<MeasurementModel>::empty(), probes);
    assert(Seq::<MeasurementModel>::empty() + probes =~= probes);
}

} // verus!
