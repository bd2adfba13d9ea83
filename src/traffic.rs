//! Traffic counters of the bridge.
use vstd::prelude::*;

verus! {

/// Bytes and messages that went through the bridge in each direction.
pub struct TrafficCounters {
    pub tx_bytes: u64,
    pub rx_bytes: u64,
    pub tx_count: u64,
    pub rx_count: u64,
}

impl TrafficCounters {
    pub fn new() -> (r: TrafficCounters)
        ensures
            r.tx_bytes == 0 && r.rx_bytes == 0 && r.tx_count == 0 && r.rx_count == 0,
    {
        TrafficCounters { tx_bytes: 0, rx_bytes: 0, tx_count: 0, rx_count: 0 }
    }
}

/// `a + b` wrapped to 64 bits.
pub open spec fn wrapping(a: u64, b: u64) -> u64 {
    ((a as int + b as int) % 0x1_0000_0000_0000_0000) as u64
}

fn add_wrapping(a: u64, b: u64) -> (r: u64)
    ensures
        r == wrapping(a, b),
{
    if a <= u64::MAX - b {
        a + b
    } else {
        let r = b - (u64::MAX - a) - 1;
        assert(r == wrapping(a, b));
        r
    }
}

/// Records one message of `bytes` bytes sent; the counters wrap around as
/// atomic additions do.
pub fn record_tx(counters: &mut TrafficCounters, bytes: u64)
    ensures
        final(counters).tx_bytes == wrapping(old(counters).tx_bytes, bytes),
        final(counters).tx_count == wrapping(old(counters).tx_count, 1),
        final(counters).rx_bytes == old(counters).rx_bytes,
        final(counters).rx_count == old(counters).rx_count,
{
    counters.tx_bytes = add_wrapping(counters.tx_bytes, bytes);
    counters.tx_count = add_wrapping(counters.tx_count, 1);
}

/// Records one message of `bytes` bytes received.
pub fn record_rx(counters: &mut TrafficCounters, bytes: u64)
    ensures
        final(counters).rx_bytes == wrapping(old(counters).rx_bytes, bytes),
        final(counters).rx_count == wrapping(old(counters).rx_count, 1),
        final(counters).tx_bytes == old(counters).tx_bytes,
        final(counters).tx_count == old(counters).tx_count,
{
    counters.rx_bytes = add_wrapping(counters.rx_bytes, bytes);
    counters.rx_count = add_wrapping(counters.rx_count, 1);
}

} // verus!
