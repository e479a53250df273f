use pantheon_probe::cli::{is_affirmative, should_continue, target_from_input};
use pantheon_probe::cycle::{
    action_for, latency_series, next_state, report_cycle, ContinuationMode, CycleAction,
    CycleEvent, CycleObservations, CycleState,
};
use pantheon_probe::dns::{literal_addresses, measure_dns_resolution_time, IpAddress};
use pantheon_probe::jitter::Jitter;
use pantheon_probe::ping::PingOutcome;

fn reply(ms: &str) -> PingOutcome {
    PingOutcome {
        success: true,
        stdout: format!("64 bytes from 127.0.0.1: icmp_seq=1 ttl=64 time={} ms\n", ms),
    }
}

fn observations(download: Option<u64>) -> CycleObservations {
    CycleObservations {
        latency_ping: reply("1.5"),
        resolved: Some(vec![IpAddress::V4(0x7f00_0001)]),
        resolve_nanos: 800,
        loss_ping: PingOutcome {
            success: true,
            stdout: "10 packets transmitted, 10 received, 0% packet loss, time 9ms\n".to_string(),
        },
        jitter_pings: vec![reply("1.0"), reply("3.0"), PingOutcome { success: false, stdout: String::new() }],
        download_bytes: download,
        upload_bytes: Some(0),
        transfer_nanos: 2_000_000_000,
    }
}

#[test]
fn ip_literal_resolves_to_itself() {
    let loopback = IpAddress::V4(0x7f00_0001);
    let addrs = literal_addresses(Some(loopback));
    assert_eq!(addrs, Some(vec![loopback]));
    let r = measure_dns_resolution_time(addrs, 1_200).unwrap();
    assert_eq!(r.addresses, vec![loopback]);
    assert_eq!(r.elapsed_nanos, 1_200);
    assert_eq!(literal_addresses(None), None);
}

#[test]
fn resolution_without_addresses_is_absent() {
    assert!(measure_dns_resolution_time(Some(vec![]), 5).is_none());
    assert!(measure_dns_resolution_time(None, 5).is_none());
}

#[test]
fn failed_download_leaves_other_results() {
    let failed = report_cycle(observations(None));
    let fine = report_cycle(observations(Some(4_000_000)));
    assert!(failed.bandwidth.is_none());
    assert_eq!(fine.bandwidth.unwrap().download_mbps(), 16);
    assert_eq!(failed.latency_micros, Some(1_500));
    assert_eq!(failed.latency_micros, fine.latency_micros);
    assert_eq!(failed.dns.unwrap().addresses, fine.dns.unwrap().addresses);
    assert_eq!(failed.packet_loss_percent, fine.packet_loss_percent);
    assert_eq!(failed.jitter, Some(Jitter { total_micros: 2_000, pairs: 1 }));
    assert_eq!(failed.jitter, fine.jitter);
}

#[test]
fn series_keeps_failures_in_place() {
    let s = latency_series(&vec![reply("2"), PingOutcome { success: false, stdout: String::new() }]);
    assert_eq!(s, vec![Some(2_000), None]);
}

#[test]
fn interactive_cycle_transitions() {
    let m = ContinuationMode::Interactive;
    let s = next_state(m, CycleState::Running, CycleEvent::ProbesDone);
    assert_eq!(s, CycleState::AwaitingContinuation);
    assert_eq!(action_for(m, s), CycleAction::AskOperator);
    assert_eq!(next_state(m, s, CycleEvent::Confirmed), CycleState::Running);
    assert_eq!(next_state(m, s, CycleEvent::Declined), CycleState::Terminal);
    assert_eq!(next_state(m, s, CycleEvent::IntervalElapsed), s);
    assert_eq!(action_for(m, CycleState::Terminal), CycleAction::Exit);
    assert_eq!(action_for(m, CycleState::Running), CycleAction::RunProbes);
}

#[test]
fn interval_cycle_never_ends() {
    let m = ContinuationMode::Interval { seconds: 10 };
    let s = next_state(m, CycleState::Running, CycleEvent::ProbesDone);
    assert_eq!(action_for(m, s), CycleAction::Sleep { seconds: 10 });
    assert_eq!(next_state(m, s, CycleEvent::Declined), s);
    assert_eq!(next_state(m, s, CycleEvent::IntervalElapsed), CycleState::Running);
}

#[test]
fn continuation_answers() {
    assert!(should_continue("y\n"));
    assert!(should_continue("  YES \r\n"));
    assert!(should_continue("Yes"));
    assert!(!should_continue("no\n"));
    assert!(!should_continue("yess"));
    assert!(!should_continue(""));
    assert!(is_affirmative("yes"));
    assert!(!is_affirmative("YES"));
}

#[test]
fn typed_target_is_trimmed() {
    assert_eq!(target_from_input("  example.com \n").target_host, "example.com");
}
