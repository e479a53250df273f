use vstd::prelude::*;

verus! {

pub const NANOS_PER_SECOND: u64 = 1_000_000_000;

pub const BITS_PER_MEGABIT: u64 = 1_000_000;

/// Bits per second for `bytes` moved in `elapsed_nanos` nanoseconds,
/// truncated to a whole number.
pub open spec fn throughput_of(bytes: nat, elapsed_nanos: nat) -> nat
    recommends
        elapsed_nanos > 0,
{
    (bytes * 8 * (NANOS_PER_SECOND as nat) / elapsed_nanos) as nat
}

/// The throughput of `bytes` moved in `elapsed_nanos` nanoseconds, in bits
/// per second; absent for a zero elapsed time or a rate beyond 64 bits.
pub fn throughput_bps(bytes: u64, elapsed_nanos: u64) -> (r: Option<u64>)
    ensures
        elapsed_nanos == 0 ==> r is None,
        elapsed_nanos > 0 && throughput_of(bytes as nat, elapsed_nanos as nat) <= u64::MAX ==> r
            == Some(throughput_of(bytes as nat, elapsed_nanos as nat) as u64),
        elapsed_nanos > 0 && throughput_of(bytes as nat, elapsed_nanos as nat) > u64::MAX ==> r
            is None,
{
    if elapsed_nanos == 0 {
        return None;
    }
    assert(bytes as u128 * 8 * NANOS_PER_SECOND as u128 <= u64::MAX as u128 * 8_000_000_000) by (nonlinear_arith)
        requires
            bytes <= u64::MAX,
            NANOS_PER_SECOND == 1_000_000_000u64,
    ;
    let bits: u128 = bytes as u128 * 8 * NANOS_PER_SECOND as u128;
    let rate: u128 = bits / elapsed_nanos as u128;
    if rate > u64::MAX as u128 {
        None
    } else {
        Some(rate as u64)
    }
}

/// Download and upload throughput of one bandwidth probe, in bits per second.
#[derive(Clone, Copy, Debug, PartialEq, Eq, Structural)]
pub struct Bandwidth {
    pub download_bps: u64,
    pub upload_bps: u64,
}

impl Bandwidth {
    /// Download throughput in whole megabits per second.
    pub fn download_mbps(&self) -> (r: u64)
        ensures
            r == self.download_bps / BITS_PER_MEGABIT,
    {
        self.download_bps / BITS_PER_MEGABIT
    }

    /// Upload throughput in whole megabits per second.
    pub fn upload_mbps(&self) -> (r: u64)
        ensures
            r == self.upload_bps / BITS_PER_MEGABIT,
    {
        self.upload_bps / BITS_PER_MEGABIT
    }
}

/// The bandwidth result for a download of `download` bytes and an upload
/// that reported `upload` bytes (each absent where its request failed),
/// both timed together over `elapsed_nanos`.
pub open spec fn bandwidth_of(download: Option<u64>, upload: Option<u64>, elapsed_nanos: u64) -> Option<
    Bandwidth,
> {
    match (download, upload) {
        (Some(d), Some(u)) => if elapsed_nanos > 0 && throughput_of(d as nat, elapsed_nanos as nat)
            <= u64::MAX && throughput_of(u as nat, elapsed_nanos as nat) <= u64::MAX {
            Some(
                Bandwidth {
                    download_bps: throughput_of(d as nat, elapsed_nanos as nat) as u64,
                    upload_bps: throughput_of(u as nat, elapsed_nanos as nat) as u64,
                },
            )
        } else {
            None
        },
        _ => None,
    }
}

/// Download and upload throughput from the byte counts of the two transfers
/// (absent where a request failed) and the time both took together: absent
/// if either failed, so that no partial result is given.
pub fn measure_bandwidth(download: Option<u64>, upload: Option<u64>, elapsed_nanos: u64) -> (r:
    Option<Bandwidth>)
    ensures
        r == bandwidth_of(download, upload, elapsed_nanos),
        download is None || upload is None ==> r is None,
{
    match (download, upload) {
        (Some(d), Some(u)) => match (throughput_bps(d, elapsed_nanos), throughput_bps(u, elapsed_nanos)) {
            (Some(down), Some(up)) => Some(Bandwidth { download_bps: down, upload_bps: up }),
            _ => None,
        },
        _ => None,
    }
}

/// The byte count of a download after one more chunk of `chunk_len` bytes,
/// held at the largest count rather than wrapping.
pub fn count_chunk(received: u64, chunk_len: usize) -> (r: u64)
    ensures
        received + chunk_len <= u64::MAX ==> r == received + chunk_len,
        received + chunk_len > u64::MAX ==> r == u64::MAX,
{
    let len = chunk_len as u64;
    if received > u64::MAX - len {
        u64::MAX
    } else {
        received + len
    }
}

} // verus!
