use vstd::prelude::*;
use crate::bandwidth::{bandwidth_of, measure_bandwidth, Bandwidth};
use crate::decimal::Decimal;
use crate::dns::{measure_dns_resolution_time, resolution_of, DnsResolution, IpAddress};
use crate::jitter::{jitter_of, measure_jitter, Jitter};
use crate::ping::{measure_latency, measure_packet_loss, ping_latency, ping_loss, PingOutcome};

verus! {

/// How a finished cycle leads to the next one.
#[derive(Clone, Copy, Debug, PartialEq, Eq, Structural)]
pub enum ContinuationMode {
    /// Ask the operator whether to measure again.
    Interactive,
    /// Pause for the given number of seconds, then measure again.
    Interval { seconds: u64 },
}

#[derive(Clone, Copy, Debug, PartialEq, Eq, Structural)]
pub enum CycleState {
    Running,
    AwaitingContinuation,
    Terminal,
}

#[derive(Clone, Copy, Debug, PartialEq, Eq, Structural)]
pub enum CycleEvent {
    /// All probes of the cycle have run, whatever each gave.
    ProbesDone,
    /// The operator asked for another cycle.
    Confirmed,
    /// The operator declined another cycle.
    Declined,
    /// The pause between cycles is over.
    IntervalElapsed,
}

/// What the driver of the cycle does next.
#[derive(Clone, Copy, Debug, PartialEq, Eq, Structural)]
pub enum CycleAction {
    /// Run latency, DNS, packet loss, jitter and bandwidth, in that order.
    RunProbes,
    AskOperator,
    Sleep { seconds: u64 },
    Exit,
}

pub open spec fn next_state_of(mode: ContinuationMode, state: CycleState, event: CycleEvent) -> CycleState {
    match (state, event) {
        (CycleState::Running, CycleEvent::ProbesDone) => CycleState::AwaitingContinuation,
        (CycleState::AwaitingContinuation, CycleEvent::Confirmed) => if mode
            == ContinuationMode::Interactive {
            CycleState::Running
        } else {
            state
        },
        (CycleState::AwaitingContinuation, CycleEvent::Declined) => if mode
            == ContinuationMode::Interactive {
            CycleState::Terminal
        } else {
            state
        },
        (CycleState::AwaitingContinuation, CycleEvent::IntervalElapsed) => if mode is Interval {
            CycleState::Running
        } else {
            state
        },
        _ => state,
    }
}

/// The state after `event`; an event that does not apply in `state` and
/// `mode` leaves it as it is.
pub fn next_state(mode: ContinuationMode, state: CycleState, event: CycleEvent) -> (r: CycleState)
    ensures
        r == next_state_of(mode, state, event),
{
    match (state, event) {
        (CycleState::Running, CycleEvent::ProbesDone) => CycleState::AwaitingContinuation,
        (CycleState::AwaitingContinuation, CycleEvent::Confirmed) => match mode {
            ContinuationMode::Interactive => CycleState::Running,
            ContinuationMode::Interval { .. } => state,
        },
        (CycleState::AwaitingContinuation, CycleEvent::Declined) => match mode {
            ContinuationMode::Interactive => CycleState::Terminal,
            ContinuationMode::Interval { .. } => state,
        },
        (CycleState::AwaitingContinuation, CycleEvent::IntervalElapsed) => match mode {
            ContinuationMode::Interactive => state,
            ContinuationMode::Interval { .. } => CycleState::Running,
        },
        _ => state,
    }
}

/// What to do in `state`.
pub fn action_for(mode: ContinuationMode, state: CycleState) -> (r: CycleAction)
    ensures
        state == CycleState::Running ==> r == CycleAction::RunProbes,
        state == CycleState::Terminal ==> r == CycleAction::Exit,
        state == CycleState::AwaitingContinuation ==> r == (match mode {
            ContinuationMode::Interactive => CycleAction::AskOperator,
            ContinuationMode::Interval { seconds } => CycleAction::Sleep { seconds },
        }),
{
    match state {
        CycleState::Running => CycleAction::RunProbes,
        CycleState::Terminal => CycleAction::Exit,
        CycleState::AwaitingContinuation => match mode {
            ContinuationMode::Interactive => CycleAction::AskOperator,
            ContinuationMode::Interval { seconds } => CycleAction::Sleep { seconds },
        },
    }
}

/// In interval mode no event ends the run: a cycle that has not ended
/// never ends.
pub proof fn lemma_interval_mode_never_terminates(
    seconds: u64,
    state: CycleState,
    event: CycleEvent,
)
    requires
        state != CycleState::Terminal,
    ensures
        next_state_of(ContinuationMode::Interval { seconds }, state, event) != CycleState::Terminal,
{
}

/// What the outside world gave during one cycle.
#[derive(Clone, Debug)]
pub struct CycleObservations {
    /// The single-packet ping for the latency probe.
    pub latency_ping: PingOutcome,
    /// The addresses that resolving the target gave, `None` where it failed.
    pub resolved: Option<Vec<IpAddress>>,
    pub resolve_nanos: u64,
    /// The ping burst for the packet loss probe.
    pub loss_ping: PingOutcome,
    /// The single-packet pings of the jitter probe, in order.
    pub jitter_pings: Vec<PingOutcome>,
    /// Bytes received by the download, `None` where it failed.
    pub download_bytes: Option<u64>,
    /// Bytes that the upload's response reported, `None` where it failed.
    pub upload_bytes: Option<u64>,
    pub transfer_nanos: u64,
}

/// The results of one cycle, each absent where its probe failed.
#[derive(Clone, Debug)]
pub struct MeasurementReport {
    pub latency_micros: Option<u64>,
    pub dns: Option<DnsResolution>,
    pub packet_loss_percent: Option<Decimal>,
    pub jitter: Option<Jitter>,
    pub bandwidth: Option<Bandwidth>,
}

pub open spec fn latency_series_of(pings: Seq<PingOutcome>) -> Seq<Option<u64>> {
    pings.map_values(|p: PingOutcome| ping_latency(p))
}

pub open spec fn report_of(obs: CycleObservations) -> MeasurementReport {
    MeasurementReport {
        latency_micros: ping_latency(obs.latency_ping),
        dns: resolution_of(obs.resolved, obs.resolve_nanos),
        packet_loss_percent: ping_loss(obs.loss_ping),
        jitter: jitter_of(latency_series_of(obs.jitter_pings@)),
        bandwidth: bandwidth_of(obs.download_bytes, obs.upload_bytes, obs.transfer_nanos),
    }
}

/// The latency samples of a series of pings, in order.
pub fn latency_series(pings: &Vec<PingOutcome>) -> (r: Vec<Option<u64>>)
    ensures
        r@ == latency_series_of(pings@),
{
    let mut r: Vec<Option<u64>> = Vec::new();
    let mut i: usize = 0;
    while i < pings.len()
        invariant
            i <= pings.len(),
            r@ == latency_series_of(pings@.take(i as int)),
        decreases pings.len() - i,
    {
        r.push(measure_latency(&pings[i]));
        i = i + 1;
        assert(r@ =~= latency_series_of(pings@.take(i as int)));
    }
    assert(pings@.take(i as int) =~= pings@);
    r
}

/// The report of one cycle: each probe's result from its own observations.
pub fn report_cycle(obs: CycleObservations) -> (r: MeasurementReport)
    ensures
        r == report_of(obs),
{
    let latency_micros = measure_latency(&obs.latency_ping);
    let packet_loss_percent = measure_packet_loss(&obs.loss_ping);
    let series = latency_series(&obs.jitter_pings);
    let jitter = measure_jitter(&series);
    let bandwidth = measure_bandwidth(obs.download_bytes, obs.upload_bytes, obs.transfer_nanos);
    let dns = measure_dns_resolution_time(obs.resolved, obs.resolve_nanos);
    MeasurementReport { latency_micros, dns, packet_loss_percent, jitter, bandwidth }
}

/// A failed download leaves the cycle without a bandwidth result and
/// changes none of the others: two cycles that observed the same pings and
/// resolution report the same latency, DNS, packet loss and jitter, whatever
/// their transfers gave.
pub proof fn lemma_failed_download_leaves_other_probes(
    failed: CycleObservations,
    other: CycleObservations,
)
    requires
        failed.download_bytes is None,
        failed.latency_ping == other.latency_ping,
        failed.resolved == other.resolved,
        failed.resolve_nanos == other.resolve_nanos,
        failed.loss_ping == other.loss_ping,
        failed.jitter_pings == other.jitter_pings,
    ensures
        report_of(failed).bandwidth is None,
        report_of(failed).latency_micros == report_of(other).latency_micros,
        report_of(failed).dns == report_of(other).dns,
        report_of(failed).packet_loss_percent == report_of(other).packet_loss_percent,
        report_of(failed).jitter == report_of(other).jitter,
{
}

} // verus!
