use pantheon_probe::bandwidth::{count_chunk, measure_bandwidth, throughput_bps, Bandwidth};
use pantheon_probe::decimal::{parse_decimal, Decimal};
use pantheon_probe::jitter::{measure_jitter, Jitter};
use pantheon_probe::ping::{
    count_flag, extract_latency_from_ping_output, extract_packet_loss_from_ping_output,
    measure_latency, measure_packet_loss, PingOutcome, Platform,
};
use pantheon_probe::text::{chars_of, split_lines};

const LINUX_REPLY: &str = "PING 1.1.1.1 (1.1.1.1) 56(84) bytes of data.\n\
64 bytes from 1.1.1.1: icmp_seq=1 ttl=57 time=42.0 ms\n\
\n\
--- 1.1.1.1 ping statistics ---\n\
1 packets transmitted, 1 received, 0% packet loss, time 0ms\n\
rtt min/avg/max/mdev = 42.000/42.000/42.000/0.000 ms\n";

const ALL_LOST: &str = "PING 10.255.255.1 (10.255.255.1) 56(84) bytes of data.\n\
\n\
--- 10.255.255.1 ping statistics ---\n\
10 packets transmitted, 0 received, 100% packet loss, time 9213ms\n";

fn ok(stdout: &str) -> PingOutcome {
    PingOutcome { success: true, stdout: stdout.to_string() }
}

fn chars(s: &str) -> Vec<char> {
    s.chars().collect()
}

#[test]
fn latency_of_reply_is_42_ms() {
    assert_eq!(extract_latency_from_ping_output(LINUX_REPLY), Some(42_000));
    assert_eq!(measure_latency(&ok(LINUX_REPLY)), Some(42_000));
}

#[test]
fn latency_without_time_marker_is_absent() {
    assert_eq!(extract_latency_from_ping_output(ALL_LOST), None);
    assert_eq!(extract_latency_from_ping_output(""), None);
}

#[test]
fn latency_of_failed_ping_is_absent() {
    let failed = PingOutcome { success: false, stdout: LINUX_REPLY.to_string() };
    assert_eq!(measure_latency(&failed), None);
}

#[test]
fn latency_field_may_end_the_line() {
    assert_eq!(extract_latency_from_ping_output("reply time=7.25"), Some(7_250));
    assert_eq!(extract_latency_from_ping_output("reply time=7.25\r\nnext"), Some(7_250));
}

#[test]
fn latency_keeps_whole_microseconds() {
    assert_eq!(extract_latency_from_ping_output("time=0.0456 ms"), Some(45));
    assert_eq!(extract_latency_from_ping_output("time=12 ms"), Some(12_000));
}

#[test]
fn latency_uses_first_marked_line_only() {
    let out = "time=12ms TTL=57\nReply from x: bytes=32 time=3.5 ms\n";
    assert_eq!(extract_latency_from_ping_output(out), None);
    let out = "reply time=abc ms\n64 bytes from 10.0.0.1: icmp_seq=1 ttl=64 time=5.0 ms";
    assert_eq!(extract_latency_from_ping_output(out), None);
    assert_eq!(extract_latency_from_ping_output("time<1ms\ntime=2.5 ms"), Some(2_500));
    assert_eq!(extract_latency_from_ping_output("time<1ms\ntime=abc ms"), None);
}

#[test]
fn packet_loss_of_summary_is_30() {
    let out = "10 packets transmitted, 7 received, 30% packet loss, time 9011ms\n";
    let loss = extract_packet_loss_from_ping_output(out);
    assert_eq!(loss, Some(Decimal { mantissa: 30, scale: 0 }));
    assert_eq!(loss.unwrap().to_fixed(1), Some(300));
}

#[test]
fn packet_loss_keeps_fraction() {
    let out = "3 packets transmitted, 2 received, 33.3333% packet loss, time 2003ms";
    assert_eq!(
        extract_packet_loss_from_ping_output(out),
        Some(Decimal { mantissa: 333_333, scale: 4 })
    );
}

#[test]
fn packet_loss_uses_first_summary_line_only() {
    let out = "packet loss, 7 received, lots% lost\n10 packets transmitted, 7 received, 30% packet loss\n";
    assert_eq!(extract_packet_loss_from_ping_output(out), None);
    let out = "no summary here, 7 received, 30%\n10 packets transmitted, 8 received, 20% packet loss\n";
    assert_eq!(extract_packet_loss_from_ping_output(out), Some(Decimal { mantissa: 20, scale: 0 }));
}

#[test]
fn packet_loss_needs_percent_sign() {
    assert_eq!(extract_packet_loss_from_ping_output("packet loss, 7 received, 30"), None);
}

#[test]
fn packet_loss_stays_within_hundred() {
    let over = "10 packets transmitted, 7 received, 150% packet loss";
    assert_eq!(extract_packet_loss_from_ping_output(over), None);
    let just_over = "10 packets transmitted, 7 received, 100.01% packet loss";
    assert_eq!(extract_packet_loss_from_ping_output(just_over), None);
    let full = "10 packets transmitted, 0 received, 100.0% packet loss";
    assert_eq!(extract_packet_loss_from_ping_output(full), Some(Decimal { mantissa: 1000, scale: 1 }));
}

#[test]
fn decimal_bound() {
    assert!(Decimal { mantissa: 100, scale: 0 }.at_most(100));
    assert!(!Decimal { mantissa: 101, scale: 0 }.at_most(100));
    assert!(Decimal { mantissa: u64::MAX, scale: 30 }.at_most(100));
    assert!(!Decimal { mantissa: 1, scale: 0 }.at_most(0));
}

#[test]
fn jitter_average_rounds_toward_zero() {
    assert_eq!(Jitter { total_micros: 7, pairs: 2 }.mean_micros(), Some(3));
    assert_eq!(Jitter { total_micros: -7, pairs: 2 }.mean_micros(), Some(-3));
    assert_eq!(Jitter { total_micros: 0, pairs: 9 }.mean_micros(), Some(0));
    assert_eq!(Jitter { total_micros: 5, pairs: 0 }.mean_micros(), None);
    assert_eq!(Jitter { total_micros: i128::MIN, pairs: 1 }.mean_micros(), Some(i128::MIN));
}

#[test]
fn packet_loss_of_total_loss_is_100() {
    let loss = measure_packet_loss(&ok(ALL_LOST));
    assert_eq!(loss, Some(Decimal { mantissa: 100, scale: 0 }));
}

#[test]
fn packet_loss_needs_summary_phrase() {
    assert_eq!(extract_packet_loss_from_ping_output("7 received, 30% lost"), None);
    assert_eq!(extract_packet_loss_from_ping_output(LINUX_REPLY), Some(Decimal { mantissa: 0, scale: 0 }));
    let failed = PingOutcome { success: false, stdout: ALL_LOST.to_string() };
    assert_eq!(measure_packet_loss(&failed), None);
}

#[test]
fn jitter_of_identical_samples_is_zero() {
    let j = measure_jitter(&vec![Some(10_000), Some(10_000), Some(10_000)]);
    assert_eq!(j, Some(Jitter { total_micros: 0, pairs: 2 }));
}

#[test]
fn jitter_needs_two_successes() {
    assert_eq!(measure_jitter(&vec![]), None);
    assert_eq!(measure_jitter(&vec![None, Some(5_000), None]), None);
    assert_eq!(measure_jitter(&vec![None; 10]), None);
}

#[test]
fn jitter_sums_signed_differences() {
    let j = measure_jitter(&vec![Some(10_000), None, Some(14_000), Some(11_000), None]);
    assert_eq!(j, Some(Jitter { total_micros: 1_000, pairs: 2 }));
    let down = measure_jitter(&vec![Some(20_000), Some(5_000)]);
    assert_eq!(down, Some(Jitter { total_micros: -15_000, pairs: 1 }));
}

#[test]
fn jitter_handles_extreme_samples() {
    let j = measure_jitter(&vec![Some(0), Some(u64::MAX), Some(0)]);
    assert_eq!(j, Some(Jitter { total_micros: 0, pairs: 2 }));
}

#[test]
fn bandwidth_of_one_megabyte_in_one_second_is_8_mbps() {
    assert_eq!(throughput_bps(1_000_000, 1_000_000_000), Some(8_000_000));
    let b = measure_bandwidth(Some(1_000_000), Some(0), 1_000_000_000).unwrap();
    assert_eq!(b, Bandwidth { download_bps: 8_000_000, upload_bps: 0 });
    assert_eq!(b.download_mbps(), 8);
    assert_eq!(b.upload_mbps(), 0);
}

#[test]
fn bandwidth_is_absent_when_a_transfer_fails() {
    assert_eq!(measure_bandwidth(None, Some(10), 1_000_000_000), None);
    assert_eq!(measure_bandwidth(Some(10), None, 1_000_000_000), None);
    assert_eq!(measure_bandwidth(Some(10), Some(10), 0), None);
}

#[test]
fn throughput_truncates_and_bounds() {
    assert_eq!(throughput_bps(1, 3_000_000_000), Some(2));
    assert_eq!(throughput_bps(5, 0), None);
    assert_eq!(throughput_bps(u64::MAX, 1), None);
}

#[test]
fn chunk_count_saturates() {
    assert_eq!(count_chunk(10, 5), 15);
    assert_eq!(count_chunk(u64::MAX - 1, 5), u64::MAX);
}

#[test]
fn decimal_grammar() {
    assert_eq!(parse_decimal(&chars("42.0")), Some(Decimal { mantissa: 420, scale: 1 }));
    assert_eq!(parse_decimal(&chars("5.")), Some(Decimal { mantissa: 5, scale: 0 }));
    assert_eq!(parse_decimal(&chars(".5")), Some(Decimal { mantissa: 5, scale: 1 }));
    assert_eq!(parse_decimal(&chars(".")), None);
    assert_eq!(parse_decimal(&chars("")), None);
    assert_eq!(parse_decimal(&chars("1.2.3")), None);
    assert_eq!(parse_decimal(&chars("12ms")), None);
    assert_eq!(parse_decimal(&chars("18446744073709551615")), Some(Decimal { mantissa: u64::MAX, scale: 0 }));
    assert_eq!(parse_decimal(&chars("18446744073709551616")), None);
}

#[test]
fn decimal_to_fixed() {
    let d = Decimal { mantissa: 123_456, scale: 3 };
    assert_eq!(d.to_fixed(0), Some(123));
    assert_eq!(d.to_fixed(3), Some(123_456));
    assert_eq!(d.to_fixed(5), Some(12_345_600));
    assert_eq!(Decimal { mantissa: u64::MAX, scale: 0 }.to_fixed(1), None);
}

#[test]
fn lines_follow_line_feeds() {
    let ls = split_lines("a\r\nb\n\nc\r");
    assert_eq!(ls, vec![chars("a"), chars("b"), chars(""), chars("c\r")]);
    assert_eq!(split_lines("x\n"), vec![chars("x")]);
    assert!(split_lines("").is_empty());
    assert_eq!(chars_of("héllo"), chars("héllo"));
}

#[test]
fn count_flag_by_platform() {
    assert_eq!(count_flag(Platform::Windows), "-n");
    assert_eq!(count_flag(Platform::Unix), "-c");
}
