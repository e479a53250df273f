use vstd::prelude::*;

verus! {

/// An IP address, held as its bits in network order.
#[derive(Clone, Copy, Debug, PartialEq, Eq, Structural)]
pub enum IpAddress {
    V4(u32),
    V6(u128),
}

/// A successful resolution: how long it took and the addresses found.
#[derive(Clone, Debug)]
pub struct DnsResolution {
    pub elapsed_nanos: u64,
    pub addresses: Vec<IpAddress>,
}

/// The addresses for a target that reads as an IP literal: that address
/// alone, with no lookup. `None` when the target is no literal and must be
/// looked up.
pub fn literal_addresses(literal: Option<IpAddress>) -> (r: Option<Vec<IpAddress>>)
    ensures
        literal matches Some(ip) ==> r matches Some(v) && v@ == seq![ip],
        literal is None ==> r is None,
{
    match literal {
        Some(ip) => {
            let v = vec![ip];
            assert(v@ =~= seq![ip]);
            Some(v)
        },
        None => None,
    }
}

/// The resolution result for `resolved`, the addresses found (`None` where
/// resolving failed), and the time it took.
pub open spec fn resolution_of(resolved: Option<Vec<IpAddress>>, elapsed_nanos: u64) -> Option<
    DnsResolution,
> {
    match resolved {
        Some(v) => if v@.len() > 0 {
            Some(DnsResolution { elapsed_nanos, addresses: v })
        } else {
            None
        },
        None => None,
    }
}

/// The resolution result from what resolving gave (`None` where it failed)
/// and the time it took: absent where it failed or found no address.
pub fn measure_dns_resolution_time(resolved: Option<Vec<IpAddress>>, elapsed_nanos: u64) -> (r:
    Option<DnsResolution>)
    ensures
        r == resolution_of(resolved, elapsed_nanos),
        r is Some <==> (resolved matches Some(v) && v@.len() > 0),
        r matches Some(d) ==> d.elapsed_nanos == elapsed_nanos && resolved == Some(d.addresses),
{
    match resolved {
        Some(addresses) => if addresses.len() > 0 {
            Some(DnsResolution { elapsed_nanos, addresses })
        } else {
            None
        },
        None => None,
    }
}

} // verus!
