//! I2C bus utilization estimation.
//!
//! Each polled device contributes traffic proportional to its poll rate and the
//! size of a transaction. A transaction is an address byte, a register byte,
//! and an assumed payload, each taking 9 bit-times (8 data + 1 ACK) on the bus
//! clock. The estimate is a ratio of integers and is computed exactly.

use vstd::prelude::*;
use crate::model::{I2cBus, I2cDevice};
use crate::text::{dec, owned, push_str, push_dec};

verus! {

/// Assumed data-payload bytes per transaction.
pub const PAYLOAD_BYTES: u64 = 2;

/// Bit-times per byte on the wire: 8 data bits + 1 ACK.
pub const BITS_PER_BYTE: u64 = 9;

/// Warn above this percentage of bus capacity.
pub const WARN_PERCENT: u64 = 70;

/// Bit-times per transaction: address, register and payload bytes.
pub open spec fn bits_per_transaction() -> nat {
    ((1 + 1 + PAYLOAD_BYTES) * BITS_PER_BYTE) as nat
}

/// `a / b` rounded to the nearest integer, halves away from zero.
pub open spec fn round_div(a: nat, b: nat) -> nat {
    (2 * a + b) / (2 * b)
}

/// The sum of the poll rates of the devices that declare one.
pub open spec fn polled_rate_sum(ds: Seq<I2cDevice>) -> nat
    decreases ds.len(),
{
    if ds.len() == 0 {
        0
    } else {
        polled_rate_sum(ds.drop_last()) + match ds.last().poll_rate_hz {
            Some(r) => r as nat,
            None => 0,
        }
    }
}

/// The number of devices that declare a poll rate.
pub open spec fn polled_count(ds: Seq<I2cDevice>) -> nat
    decreases ds.len(),
{
    if ds.len() == 0 {
        0
    } else {
        polled_count(ds.drop_last()) + if ds.last().poll_rate_hz is Some {
            1nat
        } else {
            0nat
        }
    }
}

/// A bus has an estimate when it has a clock and at least one polled device.
pub open spec fn has_estimate(b: I2cBus) -> bool {
    b.speed_khz > 0 && polled_count(b.devices@) > 0
}

/// The estimated utilization exceeds the threshold: polled bit-times per
/// second above `WARN_PERCENT`% of the bus clock in Hz.
pub open spec fn over_threshold(b: I2cBus) -> bool {
    100 * bits_per_transaction() * polled_rate_sum(b.devices@) > WARN_PERCENT * 1000 * b.speed_khz
}

/// The estimated utilization in whole percent, rounded, capped at `u32::MAX`.
pub open spec fn percent(b: I2cBus) -> nat {
    let p = round_div(100 * bits_per_transaction() * polled_rate_sum(b.devices@), 1000 * b.speed_khz as nat);
    if p > u32::MAX {
        u32::MAX as nat
    } else {
        p
    }
}

/// The warning for an overloaded bus.
pub open spec fn overload_msg(b: I2cBus) -> Seq<char> {
    "I2C bus '"@ + b.label@ + "' estimated at ~"@ + dec(percent(b)) + "% utilization with "@ + dec(
        polled_count(b.devices@),
    ) + " polled device(s) on a "@ + dec(b.speed_khz as nat) + " kHz bus. Consider splitting across two buses."@
}

/// The warnings for a run of buses, in order.
pub open spec fn utilization_warnings(bs: Seq<I2cBus>) -> Seq<Seq<char>>
    decreases bs.len(),
{
    if bs.len() == 0 {
        Seq::empty()
    } else if has_estimate(bs.last()) && over_threshold(bs.last()) {
        utilization_warnings(bs.drop_last()).push(overload_msg(bs.last()))
    } else {
        utilization_warnings(bs.drop_last())
    }
}

/// The polled-rate sum and count of a bus's devices.
fn polled_totals(bus: &I2cBus) -> (r: (u128, u64))
    ensures
        r.0 == polled_rate_sum(bus.devices@),
        r.1 == polled_count(bus.devices@),
        r.0 < 0x1_0000_0000_0000_0000_0000_0000,
{
    let mut sum: u128 = 0;
    let mut count: u64 = 0;
    for i in 0..bus.devices.len()
        invariant
            sum == polled_rate_sum(bus.devices@.take(i as int)),
            count == polled_count(bus.devices@.take(i as int)),
            sum <= i * 0xFFFF_FFFF,
            count <= i,
            i <= bus.devices@.len(),
    {
        assert(bus.devices@.take(i + 1).drop_last() =~= bus.devices@.take(i as int));
        match bus.devices[i].poll_rate_hz {
            Some(r) => {
                sum = sum + r as u128;
                count = count + 1;
            },
            None => {},
        }
    }
    assert(bus.devices@.take(bus.devices@.len() as int) =~= bus.devices@);
    let ghost n = bus.devices@.len();
    assert(sum < 0x1_0000_0000_0000_0000_0000_0000) by (nonlinear_arith)
        requires
            sum <= n * 0xFFFF_FFFF,
            n <= 0xFFFF_FFFF_FFFF_FFFF,
    ;
    (sum, count)
}

/// Number of devices on the bus that declare a poll rate.
pub fn polled_device_count(bus: &I2cBus) -> (r: usize)
    ensures
        r == polled_count(bus.devices@),
{
    let mut count: usize = 0;
    for i in 0..bus.devices.len()
        invariant
            count == polled_count(bus.devices@.take(i as int)),
            count <= i,
    {
        assert(bus.devices@.take(i + 1).drop_last() =~= bus.devices@.take(i as int));
        if bus.devices[i].poll_rate_hz.is_some() {
            count = count + 1;
        }
    }
    assert(bus.devices@.take(bus.devices@.len() as int) =~= bus.devices@);
    count
}

/// The estimated utilization of a bus in whole percent, or `None` when no
/// device on it is polled (or it has no clock): nothing to estimate.
pub fn utilization_percent(bus: &I2cBus) -> (r: Option<u32>)
    ensures
        r is Some <==> has_estimate(*bus),
        r matches Some(p) ==> p == percent(*bus),
{
    let (sum, count) = polled_totals(bus);
    if bus.speed_khz == 0 || count == 0 {
        return None;
    }
    assert(sum < 0x1_0000_0000_0000_0000_0000_0000);
    let a: u128 = 3600 * sum;
    let b: u128 = 1000 * (bus.speed_khz as u128);
    assert(a < 0x1_0000_0000_0000_0000_0000_0000_0000);
    let p: u128 = (2 * a + b) / (2 * b);
    if p > 0xFFFF_FFFF {
        Some(0xFFFF_FFFFu32)
    } else {
        Some(p as u32)
    }
}

/// Produce a warning for every I2C bus whose estimated utilization exceeds
/// the threshold.
pub fn check(buses: &[I2cBus]) -> (r: Vec<String>)
    ensures
        r@.map_values(|w: String| w@) == utilization_warnings(buses@),
{
    let mut warnings: Vec<String> = Vec::new();
    for i in 0..buses.len()
        invariant
            warnings@.map_values(|w: String| w@) == utilization_warnings(buses@.take(i as int)),
    {
        assert(buses@.take(i + 1).drop_last() =~= buses@.take(i as int));
        let bus = &buses[i];
        let (sum, count) = polled_totals(bus);
        if bus.speed_khz > 0 && count > 0 && 3600 * sum > 70000 * (bus.speed_khz as u128) {
            let pct = utilization_percent(bus);
            let mut w = owned("I2C bus '");
            push_str(&mut w, bus.label.as_str());
            push_str(&mut w, "' estimated at ~");
            match pct {
                Some(p) => push_dec(&mut w, p as u64),
                None => {},
            }
            push_str(&mut w, "% utilization with ");
            push_dec(&mut w, count);
            push_str(&mut w, " polled device(s) on a ");
            push_dec(&mut w, bus.speed_khz as u64);
            push_str(&mut w, " kHz bus. Consider splitting across two buses.");
            assert(w@ =~= overload_msg(*bus));
            let ghost before = warnings@;
            warnings.push(w);
            assert(warnings@.map_values(|w: String| w@) =~= before.map_values(|w: String| w@).push(w@));
        }
    }
    assert(buses@.take(buses@.len() as int) =~= buses@);
    warnings
}

} // verus!
