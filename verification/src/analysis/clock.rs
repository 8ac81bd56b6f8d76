//! SPI clock-speed validation.
//!
//! SPI peripherals derive their clock from the system clock through
//! power-of-two prescalers, so the achievable speed is rarely exactly what was
//! requested. This check flags devices whose closest achievable speed is more
//! than 10% off. Speeds are ratios of integers and are compared exactly.

use vstd::prelude::*;
use crate::model::{Board, SpiBus, SpiDevice};
use crate::text::{dec, digit, digit_char, owned, push_char, push_str, push_dec};
use super::bus_utilization::round_div;
use vstd::arithmetic::power2::{pow2, lemma_pow2_unfold, lemma_pow2_strictly_increases};

verus! {

/// Warn when the achievable speed differs from the request by more than this
/// percentage.
pub const TOLERANCE_PERCENT: u64 = 10;

/// The first power of two from `p` on whose multiple of `req` reaches `sys`.
pub open spec fn prescaler_from(p: nat, sys: nat, req: nat) -> nat
    decreases 2 * sys - p,
{
    if p == 0 || req == 0 || p * req >= sys {
        p
    } else {
        proof {
            assert(p * req >= p) by (nonlinear_arith)
                requires
                    req >= 1,
            ;
        }
        prescaler_from(2 * p, sys, req)
    }
}

/// The smallest power of two `p` with
/// `sys / p <= req`.
pub open spec fn floor_prescaler(sys: nat, req: nat) -> nat {
    prescaler_from(1, sys, req)
}

/// The power-of-two prescaler whose speed `sys / p` is closest to `req`: the
/// closest speed is either the fastest one not above the request (at
/// [`floor_prescaler`]) or the next faster one (at half that prescaler); the
/// faster one is taken only when it is strictly closer.
pub open spec fn prescaler(sys: nat, req: nat) -> nat {
    let f = floor_prescaler(sys, req);
    if f >= 2 && 3 * sys < 2 * req * f {
        f / 2
    } else {
        f
    }
}

/// `|sys / p - req|`, scaled by `p`.
pub open spec fn clock_gap(sys: nat, req: nat) -> nat {
    let pr = prescaler(sys, req) * req;
    if pr >= sys {
        (pr - sys) as nat
    } else {
        (sys - pr) as nat
    }
}

/// The achievable speed is more than the tolerance away from the request.
pub open spec fn off_tolerance(sys: nat, req: nat) -> bool {
    100 * clock_gap(sys, req) > TOLERANCE_PERCENT * (prescaler(sys, req) * req)
}

/// The relative error in whole percent, rounded.
pub open spec fn error_percent(sys: nat, req: nat) -> nat {
    round_div(100 * clock_gap(sys, req), prescaler(sys, req) * req)
}

/// Whether the achievable speed is lower or higher than requested.
pub open spec fn direction(sys: nat, req: nat) -> Seq<char> {
    if sys < prescaler(sys, req) * req {
        "lower"@
    } else {
        "higher"@
    }
}

/// `a / b` rounded to the nearest integer, halves to even.
pub open spec fn round_half_even(a: nat, b: nat) -> nat {
    let q = a / b;
    let r = a % b;
    if 2 * r > b {
        q + 1
    } else if 2 * r < b {
        q
    } else if q % 2 == 1 {
        q + 1
    } else {
        q
    }
}

/// Two decimal digits, `00` to `99`.
pub open spec fn two_digits(n: nat) -> Seq<char> {
    seq![digit_char((n / 10) as int), digit_char((n % 10) as int)]
}

/// `sys / p` MHz as text: a whole number when it is one (to within 1e-9),
/// otherwise with two decimal places.
pub open spec fn mhz_text(sys: nat, p: nat) -> Seq<char> {
    if (sys % p) * 1_000_000_000 < p {
        dec(sys / p)
    } else {
        let h = round_half_even(100 * sys, p);
        dec(h / 100) + "."@ + two_digits(h % 100)
    }
}

/// The prescaler as shown, capped at `u32::MAX`.
pub open spec fn shown_prescaler(sys: nat, req: nat) -> nat {
    if prescaler(sys, req) > u32::MAX {
        u32::MAX as nat
    } else {
        prescaler(sys, req)
    }
}

/// The warning for a device whose clock is out of tolerance.
pub open spec fn clock_msg(d: SpiDevice, sys: nat) -> Seq<char> {
    let req = d.speed_mhz as nat;
    "SPI device '"@ + d.label@ + "' requested "@ + dec(req) + " MHz but closest achievable is "@ + mhz_text(
        sys,
        prescaler(sys, req),
    ) + " MHz (system clock "@ + dec(sys) + " MHz / prescaler "@ + dec(shown_prescaler(sys, req))
        + "). Actual speed is "@ + dec(error_percent(sys, req)) + "% "@ + direction(sys, req)
        + " than requested."@
}

/// A device with a requested speed whose clock is out of tolerance.
pub open spec fn warns(d: SpiDevice, sys: nat) -> bool {
    d.speed_mhz != 0 && off_tolerance(sys, d.speed_mhz as nat)
}

/// The warnings for a run of devices, in order.
pub open spec fn device_clock_warnings(ds: Seq<SpiDevice>, sys: nat) -> Seq<Seq<char>>
    decreases ds.len(),
{
    if ds.len() == 0 {
        Seq::empty()
    } else if warns(ds.last(), sys) {
        device_clock_warnings(ds.drop_last(), sys).push(clock_msg(ds.last(), sys))
    } else {
        device_clock_warnings(ds.drop_last(), sys)
    }
}

/// The warnings for a run of buses, bus by bus.
pub open spec fn clock_warnings(bs: Seq<SpiBus>, sys: nat) -> Seq<Seq<char>>
    decreases bs.len(),
{
    if bs.len() == 0 {
        Seq::empty()
    } else {
        clock_warnings(bs.drop_last(), sys) + device_clock_warnings(bs.last().devices@, sys)
    }
}

/// The smallest power of two that brings `sys` MHz down to `req` MHz or
/// below.
fn find_floor_prescaler(sys: u32, req: u32) -> (p: u64)
    requires
        req > 0,
    ensures
        p == floor_prescaler(sys as nat, req as nat),
        1 <= p <= 0x2_0000_0000,
        p * req >= sys,
        p == 1 || p % 2 == 0,
{
    let mut p: u64 = 1;
    loop
        invariant
            1 <= p <= 0x2_0000_0000,
            p == 1 || p % 2 == 0,
            req > 0,
            prescaler_from(p as nat, sys as nat, req as nat) == floor_prescaler(sys as nat, req as nat),
        ensures
            p * req >= sys,
        decreases 0x4_0000_0000 - p,
    {
        assert(p * req < 0x1_0000_0000_0000_0000_0000) by (nonlinear_arith)
            requires
                p <= 0x2_0000_0000,
                req <= 0xFFFF_FFFF,
        ;
        let prod: u128 = (p as u128) * (req as u128);
        if prod >= sys as u128 {
            break;
        }
        assert(p * req >= p) by (nonlinear_arith)
            requires
                req >= 1,
        ;
        p = p * 2;
    }
    p
}

/// The power-of-two prescaler whose speed is closest to `req` MHz on a
/// `sys` MHz clock (see [`prescaler`]).
pub fn find_prescaler(sys: u32, req: u32) -> (p: u64)
    requires
        req > 0,
    ensures
        p == prescaler(sys as nat, req as nat),
        1 <= p <= 0x2_0000_0000,
        2 * p * req >= sys,
{
    let f = find_floor_prescaler(sys, req);
    assert(2 * req * f < 0x1_0000_0000_0000_0000_0000) by (nonlinear_arith)
        requires
            f <= 0x2_0000_0000,
            req <= 0xFFFF_FFFF,
    ;
    if f >= 2 && 3 * (sys as u128) < 2 * (req as u128) * (f as u128) {
        assert(2 * (f / 2) == f);
        assert(2 * (f / 2) * req == f * req);
        f / 2
    } else {
        assert(2 * f * req >= f * req) by (nonlinear_arith);
        f
    }
}

/// Append `sys / p` MHz as text (see [`mhz_text`]).
fn push_mhz(s: &mut String, sys: u32, p: u64)
    requires
        1 <= p <= 0x2_0000_0000,
    ensures
        final(s)@ == old(s)@ + mhz_text(sys as nat, p as nat),
{
    let sys = sys as u64;
    let m = sys % p;
    assert(m * 1_000_000_000 < 0x8000_0000_0000_0000) by (nonlinear_arith)
        requires
            m < p,
            p <= 0x2_0000_0000,
    ;
    if m * 1_000_000_000 < p {
        push_dec(s, sys / p);
    } else {
        let a: u64 = 100 * sys;
        let q = a / p;
        let r = a % p;
        let h: u64 = if 2 * r > p {
            q + 1
        } else if 2 * r < p {
            q
        } else if q % 2 == 1 {
            q + 1
        } else {
            q
        };
        assert(h == round_half_even(100 * sys as nat, p as nat));
        push_dec(s, h / 100);
        push_str(s, ".");
        let frac = h % 100;
        push_char(s, digit(frac / 10));
        push_char(s, digit(frac % 10));
    }
    assert(final(s)@ =~= old(s)@ + mhz_text(sys as nat, p as nat));
}

/// The warning for one device, when its clock is out of tolerance.
fn device_warning(d: &SpiDevice, sys: u32) -> (r: Option<String>)
    ensures
        r is Some <==> warns(*d, sys as nat),
        r matches Some(w) ==> w@ == clock_msg(*d, sys as nat),
{
    if d.speed_mhz == 0 {
        return None;
    }
    let p = find_prescaler(sys, d.speed_mhz);
    assert(p * d.speed_mhz < 0x1_0000_0000_0000_0000_0000) by (nonlinear_arith)
        requires
            p <= 0x2_0000_0000,
            d.speed_mhz <= 0xFFFF_FFFF,
    ;
    let pr: u128 = (p as u128) * (d.speed_mhz as u128);
    let gap: u128 = if pr >= sys as u128 {
        pr - sys as u128
    } else {
        sys as u128 - pr
    };
    assert(2 * pr >= sys as u128) by (nonlinear_arith)
        requires
            pr == p * d.speed_mhz,
            2 * p * d.speed_mhz >= sys,
    ;
    assert(gap <= pr);
    if 100 * gap <= 10 * pr {
        return None;
    }
    let pct: u128 = (200 * gap + pr) / (2 * pr);
    assert(pct <= 100) by (nonlinear_arith)
        requires
            gap <= pr,
            pr > 0,
            pct == (200 * gap + pr) / (2 * pr),
    ;
    let mut w = owned("SPI device '");
    push_str(&mut w, d.label.as_str());
    push_str(&mut w, "' requested ");
    push_dec(&mut w, d.speed_mhz as u64);
    push_str(&mut w, " MHz but closest achievable is ");
    push_mhz(&mut w, sys, p);
    push_str(&mut w, " MHz (system clock ");
    push_dec(&mut w, sys as u64);
    push_str(&mut w, " MHz / prescaler ");
    if p > 0xFFFF_FFFF {
        push_dec(&mut w, 0xFFFF_FFFF);
    } else {
        push_dec(&mut w, p);
    }
    push_str(&mut w, "). Actual speed is ");
    push_dec(&mut w, pct as u64);
    push_str(&mut w, "% ");
    if (sys as u128) < pr {
        push_str(&mut w, "lower");
    } else {
        push_str(&mut w, "higher");
    }
    push_str(&mut w, " than requested.");
    assert(w@ =~= clock_msg(*d, sys as nat));
    Some(w)
}

/// Produce a warning for every SPI device whose achievable clock is out of
/// tolerance.
pub fn check(board: &Board) -> (r: Vec<String>)
    ensures
        r@.map_values(|w: String| w@) == clock_warnings(board.spi_buses@, board.clock_mhz as nat),
{
    let sys = board.clock_mhz;
    let mut warnings: Vec<String> = Vec::new();
    for i in 0..board.spi_buses.len()
        invariant
            sys == board.clock_mhz,
            warnings@.map_values(|w: String| w@) == clock_warnings(board.spi_buses@.take(i as int), sys as nat),
    {
        assert(board.spi_buses@.take(i + 1).drop_last() =~= board.spi_buses@.take(i as int));
        let bus = &board.spi_buses[i];
        let ghost base = warnings@.map_values(|w: String| w@);
        for j in 0..bus.devices.len()
            invariant
                warnings@.map_values(|w: String| w@) == base + device_clock_warnings(
                    bus.devices@.take(j as int),
                    sys as nat,
                ),
        {
            assert(bus.devices@.take(j + 1).drop_last() =~= bus.devices@.take(j as int));
            match device_warning(&bus.devices[j], sys) {
                Some(w) => {
                    let ghost before = warnings@;
                    warnings.push(w);
                    assert(warnings@.map_values(|w: String| w@) =~= before.map_values(|w: String| w@).push(w@));
                },
                None => {},
            }
            assert(warnings@.map_values(|w: String| w@) =~= base + device_clock_warnings(
                bus.devices@.take(j + 1),
                sys as nat,
            ));
        }
        assert(bus.devices@.take(bus.devices@.len() as int) =~= bus.devices@);
    }
    assert(board.spi_buses@.take(board.spi_buses@.len() as int) =~= board.spi_buses@);
    warnings
}

/// The floor prescaler is the least power of two that brings the system
/// clock down to the requested speed or below: `sys / p <= req`, and every
/// smaller power of two would leave the clock above the request.
pub proof fn lemma_floor_prescaler_least(sys: nat, req: nat)
    requires
        req > 0,
    ensures
        exists|k: nat| floor_prescaler(sys, req) == pow2(k),
        floor_prescaler(sys, req) * req >= sys,
        forall|j: nat| #[trigger] pow2(j) < floor_prescaler(sys, req) ==> pow2(j) * req < sys,
{
    assert(pow2(0) == 1) by {
        vstd::arithmetic::power2::lemma2_to64();
    }
    assert forall|j: nat| #[trigger] pow2(j) < pow2(0) implies pow2(j) * req < sys by {
        if j > 0 {
            lemma_pow2_strictly_increases(0, j);
        }
    }
    lemma_prescaler_from(0, sys, req);
}

/// `|sys / q - req|`, scaled by `q`.
pub open spec fn scaled_gap(sys: nat, req: nat, q: nat) -> nat {
    if q * req >= sys {
        (q * req - sys) as nat
    } else {
        (sys - q * req) as nat
    }
}

/// `a / b <= c / d` and `c / d <= e / g` give `a / b <= e / g`, for positive
/// denominators, in cross-multiplied form.
proof fn lemma_ratio_le_trans(a: nat, b: nat, c: nat, d: nat, e: nat, g: nat)
    requires
        b > 0,
        d > 0,
        g > 0,
        d * a <= b * c,
        g * c <= d * e,
    ensures
        g * a <= b * e,
{
    assert(a * d * g <= c * b * g) by (nonlinear_arith)
        requires
            d * a <= b * c,
    ;
    assert(c * g * b <= e * d * b) by (nonlinear_arith)
        requires
            g * c <= d * e,
    ;
    assert(a * g * d <= e * b * d) by (nonlinear_arith)
        requires
            a * d * g <= c * b * g,
            c * g * b <= e * d * b,
    ;
    assert(g * a <= b * e) by (nonlinear_arith)
        requires
            a * g * d <= e * b * d,
            d > 0,
    ;
}

/// The prescaler gives the closest achievable speed: it is a power of two,
/// and no power of two `q` brings the clock nearer the request,
/// `|sys / p - req| <= |sys / q - req|`.
pub proof fn lemma_prescaler_closest(sys: nat, req: nat, k: nat)
    requires
        req > 0,
    ensures
        exists|e: nat| prescaler(sys, req) == pow2(e),
        pow2(k) * scaled_gap(sys, req, prescaler(sys, req)) <= prescaler(sys, req) * scaled_gap(sys, req, pow2(k)),
{
    lemma_floor_prescaler_least(sys, req);
    let f = floor_prescaler(sys, req);
    let e = choose|e: nat| f == pow2(e);
    let q = pow2(k);
    let p = prescaler(sys, req);
    vstd::arithmetic::power2::lemma_pow2_pos(k);
    vstd::arithmetic::power2::lemma_pow2_pos(e);
    let gf = scaled_gap(sys, req, f);
    assert(gf == f * req - sys);
    // The fastest speed not above the request beats every slower one.
    if k >= e {
        if k > e {
            lemma_pow2_strictly_increases(e, k);
        }
        assert(q * req >= f * req) by (nonlinear_arith)
            requires
                q >= f,
        ;
        assert(q * gf <= f * scaled_gap(sys, req, q)) by (nonlinear_arith)
            requires
                q >= f,
                gf == f * req - sys,
                scaled_gap(sys, req, q) == q * req - sys,
                f * req >= sys,
        ;
    }
    if e >= 1 {
        let h = pow2((e - 1) as nat);
        lemma_pow2_unfold(e);
        assert(f == 2 * h);
        vstd::arithmetic::power2::lemma_pow2_pos((e - 1) as nat);
        lemma_pow2_strictly_increases((e - 1) as nat, e);
        assert(h * req < sys);
        let gh = scaled_gap(sys, req, h);
        assert(gh == sys - h * req);
        // The next faster speed beats every faster one still.
        if k < e {
            if k < e - 1 {
                lemma_pow2_strictly_increases(k, (e - 1) as nat);
            }
            assert(q <= h);
            assert(q * req <= h * req) by (nonlinear_arith)
                requires
                    q <= h,
            ;
            assert(q * gh <= h * scaled_gap(sys, req, q)) by (nonlinear_arith)
                requires
                    q <= h,
                    gh == sys - h * req,
                    scaled_gap(sys, req, q) == sys - q * req,
                    h * req < sys,
            ;
        }
        if 3 * sys < 2 * req * f {
            assert(p == h);
            assert(f * gh <= h * gf) by (nonlinear_arith)
                requires
                    f == 2 * h,
                    gh == sys - h * req,
                    gf == f * req - sys,
                    3 * sys < 2 * req * f,
            ;
            if k >= e {
                lemma_ratio_le_trans(gh, h, gf, f, scaled_gap(sys, req, q), q);
            } else {
                assert(q * gh <= h * scaled_gap(sys, req, q));
            }
        } else {
            assert(p == f);
            assert(h * gf <= f * gh) by (nonlinear_arith)
                requires
                    f == 2 * h,
                    gh == sys - h * req,
                    gf == f * req - sys,
                    3 * sys >= 2 * req * f,
            ;
            if k < e {
                lemma_ratio_le_trans(gf, f, gh, h, scaled_gap(sys, req, q), q);
            }
        }
        assert(p == pow2(e) || p == pow2((e - 1) as nat));
    } else {
        assert(f == 1) by {
            vstd::arithmetic::power2::lemma2_to64();
        }
        assert(p == f);
    }
}

/// Doubling from `pow2(k)` keeps every power of two below the result too
/// slow.
proof fn lemma_prescaler_from(k: nat, sys: nat, req: nat)
    requires
        req > 0,
        forall|j: nat| #[trigger] pow2(j) < pow2(k) ==> pow2(j) * req < sys,
    ensures
        exists|e: nat| prescaler_from(pow2(k), sys, req) == pow2(e),
        prescaler_from(pow2(k), sys, req) * req >= sys,
        forall|j: nat| #[trigger] pow2(j) < prescaler_from(pow2(k), sys, req) ==> pow2(j) * req < sys,
    decreases 2 * sys - pow2(k),
{
    let p = pow2(k);
    vstd::arithmetic::power2::lemma_pow2_pos(k);
    if p * req >= sys {
        assert(prescaler_from(p, sys, req) == p);
    } else {
        lemma_pow2_unfold(k + 1);
        assert(pow2(k + 1) == 2 * p);
        assert(p * req >= p) by (nonlinear_arith)
            requires
                req >= 1,
        ;
        assert forall|j: nat| #[trigger] pow2(j) < pow2(k + 1) implies pow2(j) * req < sys by {
            if j > k {
                lemma_pow2_strictly_increases(k + 1, j);
            } else if j < k {
                lemma_pow2_strictly_increases(j, k);
                assert(pow2(j) * req < sys);
            } else {
                assert(pow2(j) == p);
            }
        }
        lemma_prescaler_from(k + 1, sys, req);
    }
}

} // verus!
