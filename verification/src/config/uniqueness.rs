//! Why a validated board is sound: every pin and every label it claims is
//! claimed once.
//!
//! Validation registers each pin and each label as it meets them, and
//! reports a conflict whenever one is already registered. A document that
//! validates therefore never claims the same pin or label twice; the lemmas
//! below prove that from [`findings`], and, the other way round, that a
//! document describing such a board, with its interrupt spellings and I2C
//! addresses in range, validates without error. The one pin shared on
//! purpose is a chip select on the pin of a declared GPIO: that GPIO drives
//! it.

use vstd::prelude::*;
use crate::config::parse::{RawConfig, RawGpio, RawI2c, RawI2cDevice, RawSpi, RawSpiDevice, RawUart};
use crate::config::validate::{
    board_from, claim_label, claim_pin, findings, gpio_check, gpio_checks, gpio_from, i2c_bus_from, i2c_check, i2c_checks,
    i2c_device_check, i2c_device_checks, i2c_device_from, i2c_head_check, lookup, spi_bus_from, spi_check, spi_checks,
    spi_device_check, spi_device_checks, spi_device_from, spi_head_check, uart_check, uart_checks, uart_from,
    gpio_pins_of, Findings,
};
use crate::graph::builder::{board_labels, i2c_bus_labels, spi_bus_labels};
use crate::model::{Board, Gpio, I2cBus, I2cDevice, SpiBus, SpiDevice, Uart};
use crate::text::{cat, opt_str};
use crate::config::validate::{board_checks, usable_label};
use crate::model::board::edge_named;

verus! {

/// The pins registered so far.
pub open spec fn pin_keys(f: Findings) -> Seq<u32> {
    f.pins.map_values(|e: (u32, Seq<char>)| e.0)
}

/// The labels registered so far.
pub open spec fn label_keys(f: Findings) -> Seq<Seq<char>> {
    f.labels.map_values(|e: (Seq<char>, Seq<char>)| e.0)
}

/// No pin and no label is registered twice.
pub open spec fn distinct_claims(f: Findings) -> bool {
    pin_keys(f).no_duplicates() && label_keys(f).no_duplicates()
}

/// A GPIO entry's interrupt, when given, is `none` or a known edge.
pub open spec fn interrupt_ok(g: RawGpio) -> bool {
    opt_str(g.interrupt) matches Some(e) ==> (e == "none"@ || edge_named(e) is Some)
}

/// An I2C device entry's address, when given, fits in seven bits.
pub open spec fn address_ok(d: RawI2cDevice) -> bool {
    d.address matches Some(a) ==> a <= 0x7F
}

/// The values a board cannot hold on its own are in range: every GPIO
/// interrupt is spelled correctly and every I2C address has seven bits.
pub open spec fn values_in_range(raw: RawConfig) -> bool {
    &&& forall|i: int| 0 <= i < raw.gpio@.len() ==> #[trigger] interrupt_ok(raw.gpio@[i])
    &&& forall|i: int, k: int|
        0 <= i < raw.i2c@.len() && 0 <= k < raw.i2c@[i].devices@.len() ==> #[trigger] address_ok(
            raw.i2c@[i].devices@[k],
        )
}

/// `raw` describes `b` field for field, its values are in range, and no pin
/// and no label of `b` is claimed twice (a chip select on a GPIO's pin being
/// that GPIO's).
pub open spec fn describes_sound_board(raw: RawConfig, b: Board) -> bool {
    &&& board_from(b, raw)
    &&& values_in_range(raw)
    &&& board_pins(b).no_duplicates()
    &&& board_labels(&b).no_duplicates()
}

/// Splitting a sequence without repeats: both parts are without repeats and
/// share nothing.
proof fn lemma_no_dup_split<T>(a: Seq<T>, b: Seq<T>)
    requires
        (a + b).no_duplicates(),
    ensures
        a.no_duplicates(),
        b.no_duplicates(),
        forall|x: T| #[trigger] b.contains(x) ==> !a.contains(x),
{
    let s = a + b;
    assert forall|i: int, j: int| 0 <= i < j < a.len() implies a[i] != a[j] by {
        assert(s[i] == a[i] && s[j] == a[j]);
    }
    assert forall|i: int, j: int| 0 <= i < j < b.len() implies b[i] != b[j] by {
        assert(s[a.len() + i] == b[i] && s[a.len() + j] == b[j]);
    }
    assert forall|x: T| #[trigger] b.contains(x) implies !a.contains(x) by {
        let j = choose|j: int| 0 <= j < b.len() && b[j] == x;
        if a.contains(x) {
            let i = choose|i: int| 0 <= i < a.len() && a[i] == x;
            assert(s[i] == s[a.len() + j]);
        }
    }
}

/// A lookup finds nothing exactly when the key is not registered.
pub proof fn lemma_lookup_none<K, V>(entries: Seq<(K, V)>, key: K)
    ensures
        lookup(entries, key) is None <==> !entries.map_values(|e: (K, V)| e.0).contains(key),
    decreases entries.len(),
{
    let keys = entries.map_values(|e: (K, V)| e.0);
    if entries.len() > 0 {
        let rest = entries.drop_last();
        lemma_lookup_none(rest, key);
        assert(keys =~= rest.map_values(|e: (K, V)| e.0).push(entries.last().0));
        crate::text::lemma_push_contains(rest.map_values(|e: (K, V)| e.0), entries.last().0, key);
    }
}

/// Pushing a fresh key keeps keys distinct.
proof fn lemma_push_fresh<T>(s: Seq<T>, x: T)
    requires
        s.no_duplicates(),
        !s.contains(x),
    ensures
        s.push(x).no_duplicates(),
{
    assert forall|i: int, j: int| 0 <= i < j < s.push(x).len() implies s.push(x)[i] != s.push(x)[j] by {
        if j == s.len() {
            assert(s.contains(s[i]));
        }
    }
}

/// Claiming a pin: errors only grow; without a new error the pin was free
/// and is now registered; labels are untouched; keys stay distinct.
pub broadcast proof fn lemma_claim_pin(f: Findings, pin: u32, owner: Seq<char>)
    ensures
        #[trigger] claim_pin(f, pin, owner).errors.len() >= f.errors.len(),
        !pin_keys(f).contains(pin) ==> claim_pin(f, pin, owner).errors == f.errors,
        claim_pin(f, pin, owner).labels == f.labels,
        distinct_claims(f) ==> distinct_claims(claim_pin(f, pin, owner)),
        claim_pin(f, pin, owner).errors.len() == f.errors.len() ==> pin_keys(claim_pin(f, pin, owner)) == pin_keys(
            f,
        ).push(pin),
{
    lemma_lookup_none(f.pins, pin);
    let g = claim_pin(f, pin, owner);
    if lookup(f.pins, pin) is None {
        assert(pin_keys(g) =~= pin_keys(f).push(pin));
        if distinct_claims(f) {
            lemma_push_fresh(pin_keys(f), pin);
        }
    }
}

/// Claiming a label: the same, for the label registry.
pub broadcast proof fn lemma_claim_label(f: Findings, label: Seq<char>, owner: Seq<char>)
    ensures
        #[trigger] claim_label(f, label, owner).errors.len() >= f.errors.len(),
        !label_keys(f).contains(label) ==> claim_label(f, label, owner).errors == f.errors,
        claim_label(f, label, owner).pins == f.pins,
        distinct_claims(f) ==> distinct_claims(claim_label(f, label, owner)),
        claim_label(f, label, owner).errors.len() == f.errors.len() ==> label_keys(claim_label(f, label, owner))
            == label_keys(f).push(label),
{
    lemma_lookup_none(f.labels, label);
    let g = claim_label(f, label, owner);
    if lookup(f.labels, label) is None {
        assert(label_keys(g) =~= label_keys(f).push(label));
        if distinct_claims(f) {
            lemma_push_fresh(label_keys(f), label);
        }
    }
}

/// One `[[gpio]]` entry: errors only grow, claims stay distinct, and
/// without a new error the entry is complete and its pin and label are
/// registered.
#[verifier::spinoff_prover]
pub proof fn lemma_gpio_step(f: Findings, idx: nat, g: RawGpio)
    ensures
        gpio_check(f, idx, g).errors.len() >= f.errors.len(),
        distinct_claims(f) ==> distinct_claims(gpio_check(f, idx, g)),
        gpio_check(f, idx, g).errors.len() == f.errors.len() ==> {
            &&& g.pin is Some
            &&& interrupt_ok(g)
            &&& usable_label(opt_str(g.label)) is Some
            &&& pin_keys(gpio_check(f, idx, g)) == pin_keys(f).push(g.pin->Some_0)
            &&& label_keys(gpio_check(f, idx, g)) == label_keys(f).push(usable_label(opt_str(g.label))->Some_0)
        },
{
    broadcast use lemma_claim_pin, lemma_claim_label;
}

/// One `[[i2c.device]]` entry: it claims its label only.
#[verifier::spinoff_prover]
pub proof fn lemma_i2c_device_step(f: Findings, idx: nat, d: RawI2cDevice, bus_name: Seq<char>)
    ensures
        i2c_device_check(f, idx, d, bus_name).errors.len() >= f.errors.len(),
        distinct_claims(f) ==> distinct_claims(i2c_device_check(f, idx, d, bus_name)),
        i2c_device_check(f, idx, d, bus_name).errors.len() == f.errors.len() ==> {
            &&& usable_label(opt_str(d.label)) is Some
            &&& address_ok(d)
            &&& pin_keys(i2c_device_check(f, idx, d, bus_name)) == pin_keys(f)
            &&& label_keys(i2c_device_check(f, idx, d, bus_name)) == label_keys(f).push(
                usable_label(opt_str(d.label))->Some_0,
            )
        },
{
    broadcast use lemma_claim_pin, lemma_claim_label;
}

/// The head of an `[[i2c]]` entry claims its label and its SDA and SCL pins.
#[verifier::spinoff_prover]
pub proof fn lemma_i2c_head_step(f: Findings, idx: nat, b: RawI2c)
    ensures
        i2c_head_check(f, idx, b).errors.len() >= f.errors.len(),
        distinct_claims(f) ==> distinct_claims(i2c_head_check(f, idx, b)),
        i2c_head_check(f, idx, b).errors.len() == f.errors.len() ==> {
            &&& usable_label(opt_str(b.label)) is Some
            &&& b.sda_pin is Some
            &&& b.scl_pin is Some
            &&& pin_keys(i2c_head_check(f, idx, b)) == pin_keys(f).push(b.sda_pin->Some_0).push(b.scl_pin->Some_0)
            &&& label_keys(i2c_head_check(f, idx, b)) == label_keys(f).push(usable_label(opt_str(b.label))->Some_0)
        },
{
    broadcast use lemma_claim_pin, lemma_claim_label;
}

/// The chip-select pin a device claims: none when a declared GPIO drives it.
pub open spec fn own_pin(pin: u32, gpio_pins: Seq<u32>) -> Seq<u32> {
    if gpio_pins.contains(pin) {
        Seq::empty()
    } else {
        seq![pin]
    }
}

/// One `[[spi.device]]` entry claims its label and its chip-select pin,
/// unless a declared GPIO drives that pin.
#[verifier::spinoff_prover]
pub proof fn lemma_spi_device_step(f: Findings, idx: nat, d: RawSpiDevice, bus_name: Seq<char>, gp: Seq<u32>)
    ensures
        spi_device_check(f, idx, d, bus_name, gp).errors.len() >= f.errors.len(),
        distinct_claims(f) ==> distinct_claims(spi_device_check(f, idx, d, bus_name, gp)),
        spi_device_check(f, idx, d, bus_name, gp).errors.len() == f.errors.len() ==> {
            &&& usable_label(opt_str(d.label)) is Some
            &&& d.cs_pin is Some
            &&& pin_keys(spi_device_check(f, idx, d, bus_name, gp)) == pin_keys(f) + own_pin(d.cs_pin->Some_0, gp)
            &&& label_keys(spi_device_check(f, idx, d, bus_name, gp)) == label_keys(f).push(
                usable_label(opt_str(d.label))->Some_0,
            )
        },
{
    broadcast use lemma_claim_pin, lemma_claim_label;

    let g = spi_device_check(f, idx, d, bus_name, gp);
    if g.errors.len() == f.errors.len() {
        let p = d.cs_pin->Some_0;
        if gp.contains(p) {
            assert(pin_keys(g) =~= pin_keys(f) + own_pin(p, gp));
        } else {
            assert(pin_keys(f).push(p) =~= pin_keys(f) + own_pin(p, gp));
        }
    }
}

/// The head of an `[[spi]]` entry claims its label and its MOSI, MISO and
/// SCK pins.
#[verifier::spinoff_prover]
pub proof fn lemma_spi_head_step(f: Findings, idx: nat, b: RawSpi)
    ensures
        spi_head_check(f, idx, b).errors.len() >= f.errors.len(),
        distinct_claims(f) ==> distinct_claims(spi_head_check(f, idx, b)),
        spi_head_check(f, idx, b).errors.len() == f.errors.len() ==> {
            &&& usable_label(opt_str(b.label)) is Some
            &&& b.mosi_pin is Some
            &&& b.miso_pin is Some
            &&& b.sck_pin is Some
            &&& pin_keys(spi_head_check(f, idx, b)) == pin_keys(f).push(b.mosi_pin->Some_0).push(
                b.miso_pin->Some_0,
            ).push(b.sck_pin->Some_0)
            &&& label_keys(spi_head_check(f, idx, b)) == label_keys(f).push(usable_label(opt_str(b.label))->Some_0)
        },
{
    broadcast use lemma_claim_pin, lemma_claim_label;
}

/// One `[[uart]]` entry claims its label and its TX and RX pins.
#[verifier::spinoff_prover]
pub proof fn lemma_uart_step(f: Findings, idx: nat, u: RawUart)
    ensures
        uart_check(f, idx, u).errors.len() >= f.errors.len(),
        distinct_claims(f) ==> distinct_claims(uart_check(f, idx, u)),
        uart_check(f, idx, u).errors.len() == f.errors.len() ==> {
            &&& usable_label(opt_str(u.label)) is Some
            &&& u.tx_pin is Some
            &&& u.rx_pin is Some
            &&& pin_keys(uart_check(f, idx, u)) == pin_keys(f).push(u.tx_pin->Some_0).push(u.rx_pin->Some_0)
            &&& label_keys(uart_check(f, idx, u)) == label_keys(f).push(usable_label(opt_str(u.label))->Some_0)
        },
{
    broadcast use lemma_claim_pin, lemma_claim_label;
}

/// A key pushed onto a run without repeats was not there before.
proof fn lemma_push_no_dup<T>(s: Seq<T>, x: T)
    requires
        s.push(x).no_duplicates(),
    ensures
        s.no_duplicates(),
        !s.contains(x),
{
    assert(s.push(x) =~= s + seq![x]);
    lemma_no_dup_split(s, seq![x]);
    assert(seq![x].contains(x)) by {
        assert(seq![x][0] == x);
    }
}

/// A sound `[[gpio]]` entry whose pin and label are still free adds no error.
proof fn lemma_gpio_step_clean(f: Findings, idx: nat, g: RawGpio, x: Gpio)
    requires
        gpio_from(x, g),
        interrupt_ok(g),
        pin_keys(f).push(x.pin).no_duplicates(),
        label_keys(f).push(x.label@).no_duplicates(),
    ensures
        gpio_check(f, idx, g).errors == f.errors,
{
    broadcast use lemma_claim_pin, lemma_claim_label;

    lemma_push_no_dup(pin_keys(f), x.pin);
    lemma_push_no_dup(label_keys(f), x.label@);
}

/// A sound `[[i2c.device]]` entry whose label is still free adds no error.
proof fn lemma_i2c_device_step_clean(f: Findings, idx: nat, d: RawI2cDevice, bus_name: Seq<char>, x: I2cDevice)
    requires
        i2c_device_from(x, d),
        address_ok(d),
        label_keys(f).push(x.label@).no_duplicates(),
    ensures
        i2c_device_check(f, idx, d, bus_name).errors == f.errors,
{
    broadcast use lemma_claim_pin, lemma_claim_label;

    lemma_push_no_dup(label_keys(f), x.label@);
}

/// The head of a sound `[[i2c]]` entry whose label and pins are still free
/// adds no error.
proof fn lemma_i2c_head_step_clean(f: Findings, idx: nat, b: RawI2c, x: I2cBus)
    requires
        i2c_bus_from(x, b),
        label_keys(f).push(x.label@).no_duplicates(),
        pin_keys(f).push(x.sda_pin).push(x.scl_pin).no_duplicates(),
    ensures
        i2c_head_check(f, idx, b).errors == f.errors,
{
    broadcast use lemma_claim_pin, lemma_claim_label;

    lemma_push_no_dup(label_keys(f), x.label@);
    lemma_push_no_dup(pin_keys(f).push(x.sda_pin), x.scl_pin);
    lemma_push_no_dup(pin_keys(f), x.sda_pin);
}

/// A sound `[[spi.device]]` entry whose label and chip select are still free
/// adds no error.
proof fn lemma_spi_device_step_clean(
    f: Findings,
    idx: nat,
    d: RawSpiDevice,
    bus_name: Seq<char>,
    gp: Seq<u32>,
    x: SpiDevice,
)
    requires
        spi_device_from(x, d),
        label_keys(f).push(x.label@).no_duplicates(),
        (pin_keys(f) + own_pin(x.cs_pin, gp)).no_duplicates(),
    ensures
        spi_device_check(f, idx, d, bus_name, gp).errors == f.errors,
{
    broadcast use lemma_claim_pin, lemma_claim_label;

    lemma_push_no_dup(label_keys(f), x.label@);
    if !gp.contains(x.cs_pin) {
        assert(pin_keys(f) + own_pin(x.cs_pin, gp) =~= pin_keys(f).push(x.cs_pin));
        lemma_push_no_dup(pin_keys(f), x.cs_pin);
    }
}

/// The head of a sound `[[spi]]` entry whose label and pins are still free
/// adds no error.
proof fn lemma_spi_head_step_clean(f: Findings, idx: nat, b: RawSpi, x: SpiBus)
    requires
        spi_bus_from(x, b),
        label_keys(f).push(x.label@).no_duplicates(),
        pin_keys(f).push(x.mosi_pin).push(x.miso_pin).push(x.sck_pin).no_duplicates(),
    ensures
        spi_head_check(f, idx, b).errors == f.errors,
{
    broadcast use lemma_claim_pin, lemma_claim_label;

    lemma_push_no_dup(label_keys(f), x.label@);
    lemma_push_no_dup(pin_keys(f).push(x.mosi_pin).push(x.miso_pin), x.sck_pin);
    lemma_push_no_dup(pin_keys(f).push(x.mosi_pin), x.miso_pin);
    lemma_push_no_dup(pin_keys(f), x.mosi_pin);
}

/// A sound `[[uart]]` entry whose label and pins are still free adds no
/// error.
proof fn lemma_uart_step_clean(f: Findings, idx: nat, u: RawUart, x: Uart)
    requires
        uart_from(x, u),
        label_keys(f).push(x.label@).no_duplicates(),
        pin_keys(f).push(x.tx_pin).push(x.rx_pin).no_duplicates(),
    ensures
        uart_check(f, idx, u).errors == f.errors,
{
    broadcast use lemma_claim_pin, lemma_claim_label;

    lemma_push_no_dup(label_keys(f), x.label@);
    lemma_push_no_dup(pin_keys(f).push(x.tx_pin), x.rx_pin);
    lemma_push_no_dup(pin_keys(f), x.tx_pin);
}

/// The pins the I2C buses claim: SDA then SCL of each.
pub open spec fn i2c_pins(bs: Seq<I2cBus>) -> Seq<u32>
    decreases bs.len(),
{
    if bs.len() == 0 {
        Seq::empty()
    } else {
        i2c_pins(bs.drop_last()) + seq![bs.last().sda_pin, bs.last().scl_pin]
    }
}

/// The chip-select pins a run of devices claims (see [`own_pin`]).
pub open spec fn own_cs_pins(ds: Seq<SpiDevice>, gpio_pins: Seq<u32>) -> Seq<u32>
    decreases ds.len(),
{
    if ds.len() == 0 {
        Seq::empty()
    } else {
        own_cs_pins(ds.drop_last(), gpio_pins) + own_pin(ds.last().cs_pin, gpio_pins)
    }
}

/// The pins an SPI bus claims: MOSI, MISO, SCK, then the chip selects that
/// no declared GPIO drives.
pub open spec fn spi_bus_pins(b: SpiBus, gpio_pins: Seq<u32>) -> Seq<u32> {
    seq![b.mosi_pin, b.miso_pin, b.sck_pin] + own_cs_pins(b.devices@, gpio_pins)
}

/// The pins the SPI buses claim.
pub open spec fn spi_pins(bs: Seq<SpiBus>, gpio_pins: Seq<u32>) -> Seq<u32>
    decreases bs.len(),
{
    if bs.len() == 0 {
        Seq::empty()
    } else {
        spi_pins(bs.drop_last(), gpio_pins) + spi_bus_pins(bs.last(), gpio_pins)
    }
}

/// The pins the UARTs claim: TX then RX of each.
pub open spec fn uart_pins(us: Seq<Uart>) -> Seq<u32>
    decreases us.len(),
{
    if us.len() == 0 {
        Seq::empty()
    } else {
        uart_pins(us.drop_last()) + seq![us.last().tx_pin, us.last().rx_pin]
    }
}

/// The pins of the board's GPIOs.
pub open spec fn gpio_pins(b: Board) -> Seq<u32> {
    b.gpios@.map_values(|g: Gpio| g.pin)
}

/// Every pin the board claims, in the order validation registers them.
pub open spec fn board_pins(b: Board) -> Seq<u32> {
    gpio_pins(b) + i2c_pins(b.i2c_buses@) + spi_pins(b.spi_buses@, gpio_pins(b)) + uart_pins(b.uarts@)
}

/// In a document whose GPIO entries are all complete, the declared pins are
/// the pins of the GPIOs they describe.
proof fn lemma_gpio_pins_of(raw: Seq<RawGpio>, xs: Seq<Gpio>)
    requires
        xs.len() == raw.len(),
        forall|k: int| 0 <= k < xs.len() ==> #[trigger] gpio_from(xs[k], raw[k]),
    ensures
        gpio_pins_of(raw) == xs.map_values(|g: Gpio| g.pin),
    decreases raw.len(),
{
    if raw.len() == 0 {
        assert(xs.map_values(|g: Gpio| g.pin) =~= Seq::<u32>::empty());
    } else {
        let n = raw.len() - 1;
        assert forall|k: int| 0 <= k < xs.drop_last().len() implies #[trigger] gpio_from(
            xs.drop_last()[k],
            raw.drop_last()[k],
        ) by {
            assert(gpio_from(xs[k], raw[k]));
        }
        lemma_gpio_pins_of(raw.drop_last(), xs.drop_last());
        assert(gpio_from(xs[n], raw[n]));
        assert(xs.map_values(|g: Gpio| g.pin) =~= xs.drop_last().map_values(|g: Gpio| g.pin) + seq![xs[n].pin]);
    }
}

proof fn lemma_gpio_fold(f: Findings, raw: Seq<RawGpio>, xs: Seq<Gpio>)
    requires
        xs.len() == raw.len(),
        forall|k: int| 0 <= k < xs.len() ==> #[trigger] gpio_from(xs[k], raw[k]),
    ensures
        gpio_checks(f, raw).errors.len() >= f.errors.len(),
        distinct_claims(f) ==> distinct_claims(gpio_checks(f, raw)),
        gpio_checks(f, raw).errors.len() == f.errors.len() ==> pin_keys(gpio_checks(f, raw)) == pin_keys(f)
            + xs.map_values(|g: Gpio| g.pin) && label_keys(gpio_checks(f, raw)) == label_keys(f) + xs.map_values(
            |g: Gpio| g.label@,
        ),
    decreases raw.len(),
{
    if raw.len() == 0 {
        assert(pin_keys(f) + xs.map_values(|g: Gpio| g.pin) =~= pin_keys(f));
        assert(label_keys(f) + xs.map_values(|g: Gpio| g.label@) =~= label_keys(f));
    } else {
        let n = raw.len() - 1;
        assert forall|k: int| 0 <= k < xs.drop_last().len() implies #[trigger] gpio_from(
            xs.drop_last()[k],
            raw.drop_last()[k],
        ) by {
            assert(gpio_from(xs[k], raw[k]));
        }
        lemma_gpio_fold(f, raw.drop_last(), xs.drop_last());
        let mid = gpio_checks(f, raw.drop_last());
        lemma_gpio_step(mid, n as nat, raw.last());
        assert(gpio_from(xs[n], raw[n]));
        assert(xs.map_values(|g: Gpio| g.pin) =~= xs.drop_last().map_values(|g: Gpio| g.pin).push(xs[n].pin));
        assert(xs.map_values(|g: Gpio| g.label@) =~= xs.drop_last().map_values(|g: Gpio| g.label@).push(
            xs[n].label@,
        ));
    }
}

proof fn lemma_i2c_device_fold(f: Findings, raw: Seq<RawI2cDevice>, bus_name: Seq<char>, xs: Seq<I2cDevice>)
    requires
        xs.len() == raw.len(),
        forall|k: int| 0 <= k < xs.len() ==> #[trigger] i2c_device_from(xs[k], raw[k]),
    ensures
        i2c_device_checks(f, raw, bus_name).errors.len() >= f.errors.len(),
        distinct_claims(f) ==> distinct_claims(i2c_device_checks(f, raw, bus_name)),
        i2c_device_checks(f, raw, bus_name).errors.len() == f.errors.len() ==> pin_keys(
            i2c_device_checks(f, raw, bus_name),
        ) == pin_keys(f) && label_keys(i2c_device_checks(f, raw, bus_name)) == label_keys(f) + xs.map_values(
            |d: I2cDevice| d.label@,
        ),
    decreases raw.len(),
{
    if raw.len() == 0 {
        assert(label_keys(f) + xs.map_values(|d: I2cDevice| d.label@) =~= label_keys(f));
    } else {
        let n = raw.len() - 1;
        assert forall|k: int| 0 <= k < xs.drop_last().len() implies #[trigger] i2c_device_from(
            xs.drop_last()[k],
            raw.drop_last()[k],
        ) by {
            assert(i2c_device_from(xs[k], raw[k]));
        }
        lemma_i2c_device_fold(f, raw.drop_last(), bus_name, xs.drop_last());
        let mid = i2c_device_checks(f, raw.drop_last(), bus_name);
        lemma_i2c_device_step(mid, n as nat, raw.last(), bus_name);
        assert(i2c_device_from(xs[n], raw[n]));
        assert(xs.map_values(|d: I2cDevice| d.label@) =~= xs.drop_last().map_values(|d: I2cDevice| d.label@).push(
            xs[n].label@,
        ));
    }
}

proof fn lemma_i2c_step(f: Findings, idx: nat, b: RawI2c, x: I2cBus)
    requires
        i2c_bus_from(x, b),
    ensures
        i2c_check(f, idx, b).errors.len() >= f.errors.len(),
        distinct_claims(f) ==> distinct_claims(i2c_check(f, idx, b)),
        i2c_check(f, idx, b).errors.len() == f.errors.len() ==> pin_keys(i2c_check(f, idx, b)) == pin_keys(f)
            + seq![x.sda_pin, x.scl_pin] && label_keys(i2c_check(f, idx, b)) == label_keys(f) + i2c_bus_labels(x),
{
    let head = i2c_head_check(f, idx, b);
    lemma_i2c_head_step(f, idx, b);
    let name = crate::config::validate::entry_name("i2c bus"@, usable_label(opt_str(b.label)), idx);
    lemma_i2c_device_fold(head, b.devices@, name, x.devices@);
    assert(pin_keys(f).push(x.sda_pin).push(x.scl_pin) =~= pin_keys(f) + seq![x.sda_pin, x.scl_pin]);
    assert(label_keys(f).push(x.label@) + x.devices@.map_values(|d: I2cDevice| d.label@) =~= label_keys(f)
        + i2c_bus_labels(x));
}

proof fn lemma_i2c_fold(f: Findings, raw: Seq<RawI2c>, xs: Seq<I2cBus>)
    requires
        xs.len() == raw.len(),
        forall|k: int| 0 <= k < xs.len() ==> #[trigger] i2c_bus_from(xs[k], raw[k]),
    ensures
        i2c_checks(f, raw).errors.len() >= f.errors.len(),
        distinct_claims(f) ==> distinct_claims(i2c_checks(f, raw)),
        i2c_checks(f, raw).errors.len() == f.errors.len() ==> pin_keys(i2c_checks(f, raw)) == pin_keys(f)
            + i2c_pins(xs) && label_keys(i2c_checks(f, raw)) == label_keys(f) + cat(
            xs.map_values(|b: I2cBus| i2c_bus_labels(b)),
        ),
    decreases raw.len(),
{
    if raw.len() == 0 {
        assert(pin_keys(f) + i2c_pins(xs) =~= pin_keys(f));
        assert(xs.map_values(|b: I2cBus| i2c_bus_labels(b)) =~= Seq::<Seq<Seq<char>>>::empty());
        assert(label_keys(f) + cat(xs.map_values(|b: I2cBus| i2c_bus_labels(b))) =~= label_keys(f));
    } else {
        let n = raw.len() - 1;
        assert forall|k: int| 0 <= k < xs.drop_last().len() implies #[trigger] i2c_bus_from(
            xs.drop_last()[k],
            raw.drop_last()[k],
        ) by {
            assert(i2c_bus_from(xs[k], raw[k]));
        }
        lemma_i2c_fold(f, raw.drop_last(), xs.drop_last());
        let mid = i2c_checks(f, raw.drop_last());
        assert(i2c_bus_from(xs[n], raw[n]));
        lemma_i2c_step(mid, n as nat, raw.last(), xs[n]);
        assert(xs.map_values(|b: I2cBus| i2c_bus_labels(b)).drop_last() =~= xs.drop_last().map_values(
            |b: I2cBus| i2c_bus_labels(b),
        ));
        assert(xs.drop_last().push(xs[n]) =~= xs);
    }
}

proof fn lemma_spi_device_fold(
    f: Findings,
    raw: Seq<RawSpiDevice>,
    bus_name: Seq<char>,
    gp: Seq<u32>,
    xs: Seq<SpiDevice>,
)
    requires
        xs.len() == raw.len(),
        forall|k: int| 0 <= k < xs.len() ==> #[trigger] spi_device_from(xs[k], raw[k]),
    ensures
        spi_device_checks(f, raw, bus_name, gp).errors.len() >= f.errors.len(),
        distinct_claims(f) ==> distinct_claims(spi_device_checks(f, raw, bus_name, gp)),
        spi_device_checks(f, raw, bus_name, gp).errors.len() == f.errors.len() ==> pin_keys(
            spi_device_checks(f, raw, bus_name, gp),
        ) == pin_keys(f) + own_cs_pins(xs, gp) && label_keys(spi_device_checks(f, raw, bus_name, gp)) == label_keys(
            f,
        ) + xs.map_values(|d: SpiDevice| d.label@),
    decreases raw.len(),
{
    if raw.len() == 0 {
        assert(pin_keys(f) + own_cs_pins(xs, gp) =~= pin_keys(f));
        assert(label_keys(f) + xs.map_values(|d: SpiDevice| d.label@) =~= label_keys(f));
    } else {
        let n = raw.len() - 1;
        assert forall|k: int| 0 <= k < xs.drop_last().len() implies #[trigger] spi_device_from(
            xs.drop_last()[k],
            raw.drop_last()[k],
        ) by {
            assert(spi_device_from(xs[k], raw[k]));
        }
        lemma_spi_device_fold(f, raw.drop_last(), bus_name, gp, xs.drop_last());
        let mid = spi_device_checks(f, raw.drop_last(), bus_name, gp);
        lemma_spi_device_step(mid, n as nat, raw.last(), bus_name, gp);
        assert(spi_device_from(xs[n], raw[n]));
        assert(pin_keys(f) + own_cs_pins(xs.drop_last(), gp) + own_pin(xs[n].cs_pin, gp) =~= pin_keys(f)
            + own_cs_pins(xs, gp));
        assert(xs.map_values(|d: SpiDevice| d.label@) =~= xs.drop_last().map_values(|d: SpiDevice| d.label@).push(
            xs[n].label@,
        ));
    }
}

proof fn lemma_spi_step(f: Findings, idx: nat, b: RawSpi, gp: Seq<u32>, x: SpiBus)
    requires
        spi_bus_from(x, b),
    ensures
        spi_check(f, idx, b, gp).errors.len() >= f.errors.len(),
        distinct_claims(f) ==> distinct_claims(spi_check(f, idx, b, gp)),
        spi_check(f, idx, b, gp).errors.len() == f.errors.len() ==> pin_keys(spi_check(f, idx, b, gp)) == pin_keys(f)
            + spi_bus_pins(x, gp) && label_keys(spi_check(f, idx, b, gp)) == label_keys(f) + spi_bus_labels(x),
{
    let head = spi_head_check(f, idx, b);
    lemma_spi_head_step(f, idx, b);
    let name = crate::config::validate::entry_name("spi bus"@, usable_label(opt_str(b.label)), idx);
    lemma_spi_device_fold(head, b.devices@, name, gp, x.devices@);
    assert(pin_keys(f).push(x.mosi_pin).push(x.miso_pin).push(x.sck_pin) + own_cs_pins(x.devices@, gp) =~= pin_keys(
        f,
    ) + spi_bus_pins(x, gp));
    assert(label_keys(f).push(x.label@) + x.devices@.map_values(|d: SpiDevice| d.label@) =~= label_keys(f)
        + spi_bus_labels(x));
}

proof fn lemma_spi_fold(f: Findings, raw: Seq<RawSpi>, gp: Seq<u32>, xs: Seq<SpiBus>)
    requires
        xs.len() == raw.len(),
        forall|k: int| 0 <= k < xs.len() ==> #[trigger] spi_bus_from(xs[k], raw[k]),
    ensures
        spi_checks(f, raw, gp).errors.len() >= f.errors.len(),
        distinct_claims(f) ==> distinct_claims(spi_checks(f, raw, gp)),
        spi_checks(f, raw, gp).errors.len() == f.errors.len() ==> pin_keys(spi_checks(f, raw, gp)) == pin_keys(f)
            + spi_pins(xs, gp) && label_keys(spi_checks(f, raw, gp)) == label_keys(f) + cat(
            xs.map_values(|b: SpiBus| spi_bus_labels(b)),
        ),
    decreases raw.len(),
{
    if raw.len() == 0 {
        assert(pin_keys(f) + spi_pins(xs, gp) =~= pin_keys(f));
        assert(xs.map_values(|b: SpiBus| spi_bus_labels(b)) =~= Seq::<Seq<Seq<char>>>::empty());
        assert(label_keys(f) + cat(xs.map_values(|b: SpiBus| spi_bus_labels(b))) =~= label_keys(f));
    } else {
        let n = raw.len() - 1;
        assert forall|k: int| 0 <= k < xs.drop_last().len() implies #[trigger] spi_bus_from(
            xs.drop_last()[k],
            raw.drop_last()[k],
        ) by {
            assert(spi_bus_from(xs[k], raw[k]));
        }
        lemma_spi_fold(f, raw.drop_last(), gp, xs.drop_last());
        let mid = spi_checks(f, raw.drop_last(), gp);
        assert(spi_bus_from(xs[n], raw[n]));
        lemma_spi_step(mid, n as nat, raw.last(), gp, xs[n]);
        assert(xs.map_values(|b: SpiBus| spi_bus_labels(b)).drop_last() =~= xs.drop_last().map_values(
            |b: SpiBus| spi_bus_labels(b),
        ));
        assert(xs.drop_last().push(xs[n]) =~= xs);
    }
}

proof fn lemma_uart_fold(f: Findings, raw: Seq<RawUart>, xs: Seq<Uart>)
    requires
        xs.len() == raw.len(),
        forall|k: int| 0 <= k < xs.len() ==> #[trigger] uart_from(xs[k], raw[k]),
    ensures
        uart_checks(f, raw).errors.len() >= f.errors.len(),
        distinct_claims(f) ==> distinct_claims(uart_checks(f, raw)),
        uart_checks(f, raw).errors.len() == f.errors.len() ==> pin_keys(uart_checks(f, raw)) == pin_keys(f)
            + uart_pins(xs) && label_keys(uart_checks(f, raw)) == label_keys(f) + xs.map_values(|u: Uart| u.label@),
    decreases raw.len(),
{
    if raw.len() == 0 {
        assert(pin_keys(f) + uart_pins(xs) =~= pin_keys(f));
        assert(label_keys(f) + xs.map_values(|u: Uart| u.label@) =~= label_keys(f));
    } else {
        let n = raw.len() - 1;
        assert forall|k: int| 0 <= k < xs.drop_last().len() implies #[trigger] uart_from(
            xs.drop_last()[k],
            raw.drop_last()[k],
        ) by {
            assert(uart_from(xs[k], raw[k]));
        }
        lemma_uart_fold(f, raw.drop_last(), xs.drop_last());
        let mid = uart_checks(f, raw.drop_last());
        lemma_uart_step(mid, n as nat, raw.last());
        assert(uart_from(xs[n], raw[n]));
        assert(xs.drop_last().push(xs[n]) =~= xs);
        assert(xs.map_values(|u: Uart| u.label@) =~= xs.drop_last().map_values(|u: Uart| u.label@).push(
            xs[n].label@,
        ));
        assert(pin_keys(mid).push(raw.last().tx_pin->Some_0).push(raw.last().rx_pin->Some_0) =~= pin_keys(mid)
            + seq![xs[n].tx_pin, xs[n].rx_pin]);
    }
}

proof fn lemma_gpio_fold_clean(f: Findings, raw: Seq<RawGpio>, xs: Seq<Gpio>)
    requires
        xs.len() == raw.len(),
        forall|k: int| 0 <= k < xs.len() ==> #[trigger] gpio_from(xs[k], raw[k]),
        forall|k: int| 0 <= k < raw.len() ==> #[trigger] interrupt_ok(raw[k]),
        (pin_keys(f) + xs.map_values(|g: Gpio| g.pin)).no_duplicates(),
        (label_keys(f) + xs.map_values(|g: Gpio| g.label@)).no_duplicates(),
    ensures
        gpio_checks(f, raw).errors == f.errors,
    decreases raw.len(),
{
    if raw.len() > 0 {
        let n = raw.len() - 1;
        let xd = xs.drop_last();
        assert forall|k: int| 0 <= k < xd.len() implies #[trigger] gpio_from(xd[k], raw.drop_last()[k]) by {
            assert(gpio_from(xs[k], raw[k]));
        }
        assert forall|k: int| 0 <= k < raw.drop_last().len() implies #[trigger] interrupt_ok(raw.drop_last()[k]) by {
            assert(interrupt_ok(raw[k]));
        }
        assert(pin_keys(f) + xs.map_values(|g: Gpio| g.pin) =~= (pin_keys(f) + xd.map_values(|g: Gpio| g.pin)).push(
            xs[n].pin,
        ));
        assert(label_keys(f) + xs.map_values(|g: Gpio| g.label@) =~= (label_keys(f) + xd.map_values(
            |g: Gpio| g.label@,
        )).push(xs[n].label@));
        lemma_push_no_dup(pin_keys(f) + xd.map_values(|g: Gpio| g.pin), xs[n].pin);
        lemma_push_no_dup(label_keys(f) + xd.map_values(|g: Gpio| g.label@), xs[n].label@);
        lemma_gpio_fold_clean(f, raw.drop_last(), xd);
        lemma_gpio_fold(f, raw.drop_last(), xd);
        let mid = gpio_checks(f, raw.drop_last());
        assert(gpio_from(xs[n], raw[n]));
        assert(interrupt_ok(raw[n]));
        lemma_gpio_step_clean(mid, n as nat, raw.last(), xs[n]);
    }
}

proof fn lemma_i2c_device_fold_clean(f: Findings, raw: Seq<RawI2cDevice>, bus_name: Seq<char>, xs: Seq<I2cDevice>)
    requires
        xs.len() == raw.len(),
        forall|k: int| 0 <= k < xs.len() ==> #[trigger] i2c_device_from(xs[k], raw[k]),
        forall|k: int| 0 <= k < raw.len() ==> #[trigger] address_ok(raw[k]),
        (label_keys(f) + xs.map_values(|d: I2cDevice| d.label@)).no_duplicates(),
    ensures
        i2c_device_checks(f, raw, bus_name).errors == f.errors,
    decreases raw.len(),
{
    if raw.len() > 0 {
        let n = raw.len() - 1;
        let xd = xs.drop_last();
        assert forall|k: int| 0 <= k < xd.len() implies #[trigger] i2c_device_from(xd[k], raw.drop_last()[k]) by {
            assert(i2c_device_from(xs[k], raw[k]));
        }
        assert forall|k: int| 0 <= k < raw.drop_last().len() implies #[trigger] address_ok(raw.drop_last()[k]) by {
            assert(address_ok(raw[k]));
        }
        assert(label_keys(f) + xs.map_values(|d: I2cDevice| d.label@) =~= (label_keys(f) + xd.map_values(
            |d: I2cDevice| d.label@,
        )).push(xs[n].label@));
        lemma_push_no_dup(label_keys(f) + xd.map_values(|d: I2cDevice| d.label@), xs[n].label@);
        lemma_i2c_device_fold_clean(f, raw.drop_last(), bus_name, xd);
        lemma_i2c_device_fold(f, raw.drop_last(), bus_name, xd);
        let mid = i2c_device_checks(f, raw.drop_last(), bus_name);
        assert(i2c_device_from(xs[n], raw[n]));
        assert(address_ok(raw[n]));
        lemma_i2c_device_step_clean(mid, n as nat, raw.last(), bus_name, xs[n]);
    }
}

proof fn lemma_i2c_step_clean(f: Findings, idx: nat, b: RawI2c, x: I2cBus)
    requires
        i2c_bus_from(x, b),
        forall|k: int| 0 <= k < b.devices@.len() ==> #[trigger] address_ok(b.devices@[k]),
        (pin_keys(f) + seq![x.sda_pin, x.scl_pin]).no_duplicates(),
        (label_keys(f) + i2c_bus_labels(x)).no_duplicates(),
    ensures
        i2c_check(f, idx, b).errors == f.errors,
{
    let devs = x.devices@.map_values(|d: I2cDevice| d.label@);
    assert(pin_keys(f) + seq![x.sda_pin, x.scl_pin] =~= pin_keys(f).push(x.sda_pin).push(x.scl_pin));
    assert(label_keys(f) + i2c_bus_labels(x) =~= label_keys(f).push(x.label@) + devs);
    lemma_no_dup_split(label_keys(f).push(x.label@), devs);
    lemma_i2c_head_step_clean(f, idx, b, x);
    lemma_i2c_head_step(f, idx, b);
    let head = i2c_head_check(f, idx, b);
    let name = crate::config::validate::entry_name("i2c bus"@, usable_label(opt_str(b.label)), idx);
    lemma_i2c_device_fold_clean(head, b.devices@, name, x.devices@);
}

proof fn lemma_i2c_fold_clean(f: Findings, raw: Seq<RawI2c>, xs: Seq<I2cBus>)
    requires
        xs.len() == raw.len(),
        forall|k: int| 0 <= k < xs.len() ==> #[trigger] i2c_bus_from(xs[k], raw[k]),
        forall|i: int, k: int|
            0 <= i < raw.len() && 0 <= k < raw[i].devices@.len() ==> #[trigger] address_ok(raw[i].devices@[k]),
        (pin_keys(f) + i2c_pins(xs)).no_duplicates(),
        (label_keys(f) + cat(xs.map_values(|b: I2cBus| i2c_bus_labels(b)))).no_duplicates(),
    ensures
        i2c_checks(f, raw).errors == f.errors,
    decreases raw.len(),
{
    if raw.len() > 0 {
        let n = raw.len() - 1;
        let xd = xs.drop_last();
        let rd = raw.drop_last();
        assert forall|k: int| 0 <= k < xd.len() implies #[trigger] i2c_bus_from(xd[k], rd[k]) by {
            assert(i2c_bus_from(xs[k], raw[k]));
        }
        assert forall|i: int, k: int| 0 <= i < rd.len() && 0 <= k < rd[i].devices@.len() implies #[trigger] address_ok(
            rd[i].devices@[k],
        ) by {
            assert(address_ok(raw[i].devices@[k]));
        }
        assert forall|k: int| 0 <= k < raw[n].devices@.len() implies #[trigger] address_ok(raw[n].devices@[k]) by {
            assert(address_ok(raw[n].devices@[k]));
        }
        assert(xs.map_values(|b: I2cBus| i2c_bus_labels(b)).drop_last() =~= xd.map_values(|b: I2cBus| i2c_bus_labels(b)));
        let lp = label_keys(f) + cat(xd.map_values(|b: I2cBus| i2c_bus_labels(b)));
        assert(label_keys(f) + cat(xs.map_values(|b: I2cBus| i2c_bus_labels(b))) =~= lp + i2c_bus_labels(xs[n]));
        let pp = pin_keys(f) + i2c_pins(xd);
        assert(pin_keys(f) + i2c_pins(xs) =~= pp + seq![xs[n].sda_pin, xs[n].scl_pin]);
        lemma_no_dup_split(lp, i2c_bus_labels(xs[n]));
        lemma_no_dup_split(pp, seq![xs[n].sda_pin, xs[n].scl_pin]);
        lemma_i2c_fold_clean(f, rd, xd);
        lemma_i2c_fold(f, rd, xd);
        let mid = i2c_checks(f, rd);
        assert(i2c_bus_from(xs[n], raw[n]));
        lemma_i2c_step_clean(mid, n as nat, raw.last(), xs[n]);
    }
}

proof fn lemma_spi_device_fold_clean(
    f: Findings,
    raw: Seq<RawSpiDevice>,
    bus_name: Seq<char>,
    gp: Seq<u32>,
    xs: Seq<SpiDevice>,
)
    requires
        xs.len() == raw.len(),
        forall|k: int| 0 <= k < xs.len() ==> #[trigger] spi_device_from(xs[k], raw[k]),
        (pin_keys(f) + own_cs_pins(xs, gp)).no_duplicates(),
        (label_keys(f) + xs.map_values(|d: SpiDevice| d.label@)).no_duplicates(),
    ensures
        spi_device_checks(f, raw, bus_name, gp).errors == f.errors,
    decreases raw.len(),
{
    if raw.len() > 0 {
        let n = raw.len() - 1;
        let xd = xs.drop_last();
        assert forall|k: int| 0 <= k < xd.len() implies #[trigger] spi_device_from(xd[k], raw.drop_last()[k]) by {
            assert(spi_device_from(xs[k], raw[k]));
        }
        assert(label_keys(f) + xs.map_values(|d: SpiDevice| d.label@) =~= (label_keys(f) + xd.map_values(
            |d: SpiDevice| d.label@,
        )).push(xs[n].label@));
        lemma_push_no_dup(label_keys(f) + xd.map_values(|d: SpiDevice| d.label@), xs[n].label@);
        let pp = pin_keys(f) + own_cs_pins(xd, gp);
        assert(pin_keys(f) + own_cs_pins(xs, gp) =~= pp + own_pin(xs[n].cs_pin, gp));
        lemma_no_dup_split(pp, own_pin(xs[n].cs_pin, gp));
        lemma_spi_device_fold_clean(f, raw.drop_last(), bus_name, gp, xd);
        lemma_spi_device_fold(f, raw.drop_last(), bus_name, gp, xd);
        let mid = spi_device_checks(f, raw.drop_last(), bus_name, gp);
        assert(spi_device_from(xs[n], raw[n]));
        lemma_spi_device_step_clean(mid, n as nat, raw.last(), bus_name, gp, xs[n]);
    }
}

proof fn lemma_spi_step_clean(f: Findings, idx: nat, b: RawSpi, gp: Seq<u32>, x: SpiBus)
    requires
        spi_bus_from(x, b),
        (pin_keys(f) + spi_bus_pins(x, gp)).no_duplicates(),
        (label_keys(f) + spi_bus_labels(x)).no_duplicates(),
    ensures
        spi_check(f, idx, b, gp).errors == f.errors,
{
    let devs = x.devices@.map_values(|d: SpiDevice| d.label@);
    let heads = pin_keys(f).push(x.mosi_pin).push(x.miso_pin).push(x.sck_pin);
    assert(pin_keys(f) + spi_bus_pins(x, gp) =~= heads + own_cs_pins(x.devices@, gp));
    lemma_no_dup_split(heads, own_cs_pins(x.devices@, gp));
    assert(label_keys(f) + spi_bus_labels(x) =~= label_keys(f).push(x.label@) + devs);
    lemma_no_dup_split(label_keys(f).push(x.label@), devs);
    lemma_spi_head_step_clean(f, idx, b, x);
    lemma_spi_head_step(f, idx, b);
    let head = spi_head_check(f, idx, b);
    let name = crate::config::validate::entry_name("spi bus"@, usable_label(opt_str(b.label)), idx);
    lemma_spi_device_fold_clean(head, b.devices@, name, gp, x.devices@);
}

proof fn lemma_spi_fold_clean(f: Findings, raw: Seq<RawSpi>, gp: Seq<u32>, xs: Seq<SpiBus>)
    requires
        xs.len() == raw.len(),
        forall|k: int| 0 <= k < xs.len() ==> #[trigger] spi_bus_from(xs[k], raw[k]),
        (pin_keys(f) + spi_pins(xs, gp)).no_duplicates(),
        (label_keys(f) + cat(xs.map_values(|b: SpiBus| spi_bus_labels(b)))).no_duplicates(),
    ensures
        spi_checks(f, raw, gp).errors == f.errors,
    decreases raw.len(),
{
    if raw.len() > 0 {
        let n = raw.len() - 1;
        let xd = xs.drop_last();
        let rd = raw.drop_last();
        assert forall|k: int| 0 <= k < xd.len() implies #[trigger] spi_bus_from(xd[k], rd[k]) by {
            assert(spi_bus_from(xs[k], raw[k]));
        }
        assert(xs.map_values(|b: SpiBus| spi_bus_labels(b)).drop_last() =~= xd.map_values(|b: SpiBus| spi_bus_labels(b)));
        let lp = label_keys(f) + cat(xd.map_values(|b: SpiBus| spi_bus_labels(b)));
        assert(label_keys(f) + cat(xs.map_values(|b: SpiBus| spi_bus_labels(b))) =~= lp + spi_bus_labels(xs[n]));
        let pp = pin_keys(f) + spi_pins(xd, gp);
        assert(pin_keys(f) + spi_pins(xs, gp) =~= pp + spi_bus_pins(xs[n], gp));
        lemma_no_dup_split(lp, spi_bus_labels(xs[n]));
        lemma_no_dup_split(pp, spi_bus_pins(xs[n], gp));
        lemma_spi_fold_clean(f, rd, gp, xd);
        lemma_spi_fold(f, rd, gp, xd);
        let mid = spi_checks(f, rd, gp);
        assert(spi_bus_from(xs[n], raw[n]));
        lemma_spi_step_clean(mid, n as nat, raw.last(), gp, xs[n]);
    }
}

proof fn lemma_uart_fold_clean(f: Findings, raw: Seq<RawUart>, xs: Seq<Uart>)
    requires
        xs.len() == raw.len(),
        forall|k: int| 0 <= k < xs.len() ==> #[trigger] uart_from(xs[k], raw[k]),
        (pin_keys(f) + uart_pins(xs)).no_duplicates(),
        (label_keys(f) + xs.map_values(|u: Uart| u.label@)).no_duplicates(),
    ensures
        uart_checks(f, raw).errors == f.errors,
    decreases raw.len(),
{
    if raw.len() > 0 {
        let n = raw.len() - 1;
        let xd = xs.drop_last();
        assert forall|k: int| 0 <= k < xd.len() implies #[trigger] uart_from(xd[k], raw.drop_last()[k]) by {
            assert(uart_from(xs[k], raw[k]));
        }
        assert(label_keys(f) + xs.map_values(|u: Uart| u.label@) =~= (label_keys(f) + xd.map_values(
            |u: Uart| u.label@,
        )).push(xs[n].label@));
        lemma_push_no_dup(label_keys(f) + xd.map_values(|u: Uart| u.label@), xs[n].label@);
        let pp = pin_keys(f) + uart_pins(xd);
        assert(pin_keys(f) + uart_pins(xs) =~= pp.push(xs[n].tx_pin).push(xs[n].rx_pin));
        lemma_push_no_dup(pp.push(xs[n].tx_pin), xs[n].rx_pin);
        lemma_push_no_dup(pp, xs[n].tx_pin);
        lemma_uart_fold_clean(f, raw.drop_last(), xd);
        lemma_uart_fold(f, raw.drop_last(), xd);
        let mid = uart_checks(f, raw.drop_last());
        assert(uart_from(xs[n], raw[n]));
        lemma_uart_step_clean(mid, n as nat, raw.last(), xs[n]);
    }
}

proof fn lemma_gpio_values(f: Findings, raw: Seq<RawGpio>)
    ensures
        gpio_checks(f, raw).errors.len() >= f.errors.len(),
        gpio_checks(f, raw).errors.len() == f.errors.len() ==> forall|k: int|
            0 <= k < raw.len() ==> #[trigger] interrupt_ok(raw[k]),
    decreases raw.len(),
{
    if raw.len() > 0 {
        lemma_gpio_values(f, raw.drop_last());
        let mid = gpio_checks(f, raw.drop_last());
        lemma_gpio_step(mid, (raw.len() - 1) as nat, raw.last());
        if gpio_checks(f, raw).errors.len() == f.errors.len() {
            assert forall|k: int| 0 <= k < raw.len() implies #[trigger] interrupt_ok(raw[k]) by {
                if k < raw.len() - 1 {
                    assert(raw.drop_last()[k] == raw[k]);
                }
            }
        }
    }
}

proof fn lemma_i2c_device_values(f: Findings, raw: Seq<RawI2cDevice>, bus_name: Seq<char>)
    ensures
        i2c_device_checks(f, raw, bus_name).errors.len() >= f.errors.len(),
        i2c_device_checks(f, raw, bus_name).errors.len() == f.errors.len() ==> forall|k: int|
            0 <= k < raw.len() ==> #[trigger] address_ok(raw[k]),
    decreases raw.len(),
{
    if raw.len() > 0 {
        lemma_i2c_device_values(f, raw.drop_last(), bus_name);
        let mid = i2c_device_checks(f, raw.drop_last(), bus_name);
        lemma_i2c_device_step(mid, (raw.len() - 1) as nat, raw.last(), bus_name);
        if i2c_device_checks(f, raw, bus_name).errors.len() == f.errors.len() {
            assert forall|k: int| 0 <= k < raw.len() implies #[trigger] address_ok(raw[k]) by {
                if k < raw.len() - 1 {
                    assert(raw.drop_last()[k] == raw[k]);
                }
            }
        }
    }
}

proof fn lemma_i2c_values(f: Findings, raw: Seq<RawI2c>)
    ensures
        i2c_checks(f, raw).errors.len() >= f.errors.len(),
        i2c_checks(f, raw).errors.len() == f.errors.len() ==> forall|i: int, k: int|
            0 <= i < raw.len() && 0 <= k < raw[i].devices@.len() ==> #[trigger] address_ok(raw[i].devices@[k]),
    decreases raw.len(),
{
    if raw.len() > 0 {
        let n = raw.len() - 1;
        lemma_i2c_values(f, raw.drop_last());
        let mid = i2c_checks(f, raw.drop_last());
        lemma_i2c_head_step(mid, n as nat, raw.last());
        let head = i2c_head_check(mid, n as nat, raw.last());
        let name = crate::config::validate::entry_name("i2c bus"@, usable_label(opt_str(raw.last().label)), n as nat);
        lemma_i2c_device_values(head, raw.last().devices@, name);
        if i2c_checks(f, raw).errors.len() == f.errors.len() {
            assert forall|i: int, k: int| 0 <= i < raw.len() && 0 <= k < raw[i].devices@.len() implies #[trigger] address_ok(
                raw[i].devices@[k],
            ) by {
                if i < n {
                    assert(raw.drop_last()[i] == raw[i]);
                }
            }
        }
    }
}

/// A document that describes a sound board validates without error: every
/// required field is present and well formed, every label is a C
/// identifier, no pin and no label is claimed twice, every GPIO interrupt is
/// spelled correctly and every I2C address has seven bits.
pub proof fn lemma_sound_board_validates(raw: RawConfig, b: Board)
    requires
        describes_sound_board(raw, b),
    ensures
        findings(raw).errors.len() == 0,
{
    let f0 = board_checks(raw.board);
    assert(f0.errors.len() == 0);
    assert(pin_keys(f0) =~= Seq::<u32>::empty());
    assert(label_keys(f0) =~= Seq::<Seq<char>>::empty());
    let gp = gpio_pins(b);
    let ip = i2c_pins(b.i2c_buses@);
    let sp = spi_pins(b.spi_buses@, gp);
    let up = uart_pins(b.uarts@);
    lemma_no_dup_split(gp + ip + sp, up);
    lemma_no_dup_split(gp + ip, sp);
    lemma_no_dup_split(gp, ip);
    let gl = b.gpios@.map_values(|g: Gpio| g.label@);
    let il = cat(b.i2c_buses@.map_values(|x: I2cBus| i2c_bus_labels(x)));
    let sl = cat(b.spi_buses@.map_values(|x: SpiBus| spi_bus_labels(x)));
    let ul = b.uarts@.map_values(|u: Uart| u.label@);
    assert(board_labels(&b) == gl + il + sl + ul);
    lemma_no_dup_split(gl + il + sl, ul);
    lemma_no_dup_split(gl + il, sl);
    lemma_no_dup_split(gl, il);
    assert(pin_keys(f0) + gp =~= gp);
    assert(label_keys(f0) + gl =~= gl);
    assert forall|k: int| 0 <= k < raw.gpio@.len() implies #[trigger] interrupt_ok(raw.gpio@[k]) by {
        assert(interrupt_ok(raw.gpio@[k]));
    }
    lemma_gpio_fold_clean(f0, raw.gpio@, b.gpios@);
    lemma_gpio_fold(f0, raw.gpio@, b.gpios@);
    let f1 = gpio_checks(f0, raw.gpio@);
    lemma_i2c_fold_clean(f1, raw.i2c@, b.i2c_buses@);
    lemma_i2c_fold(f1, raw.i2c@, b.i2c_buses@);
    let f2 = i2c_checks(f1, raw.i2c@);
    lemma_gpio_pins_of(raw.gpio@, b.gpios@);
    lemma_spi_fold_clean(f2, raw.spi@, gpio_pins_of(raw.gpio@), b.spi_buses@);
    lemma_spi_fold(f2, raw.spi@, gpio_pins_of(raw.gpio@), b.spi_buses@);
    let f3 = spi_checks(f2, raw.spi@, gpio_pins_of(raw.gpio@));
    lemma_uart_fold_clean(f3, raw.uart@, b.uarts@);
}

/// A document that validates claims no pin twice and no label twice: every
/// pin of the board it describes belongs to one peripheral (a chip select on
/// a GPIO's pin being that GPIO's), and every label names one peripheral.
pub proof fn lemma_validated_claims_distinct(raw: RawConfig, b: Board)
    requires
        findings(raw).errors.len() == 0,
        board_from(b, raw),
    ensures
        board_pins(b).no_duplicates(),
        board_labels(&b).no_duplicates(),
        values_in_range(raw),
{
    let f0 = board_checks(raw.board);
    assert(pin_keys(f0) =~= Seq::<u32>::empty());
    assert(label_keys(f0) =~= Seq::<Seq<char>>::empty());
    lemma_gpio_fold(f0, raw.gpio@, b.gpios@);
    let f1 = gpio_checks(f0, raw.gpio@);
    lemma_i2c_fold(f1, raw.i2c@, b.i2c_buses@);
    let f2 = i2c_checks(f1, raw.i2c@);
    lemma_gpio_pins_of(raw.gpio@, b.gpios@);
    lemma_spi_fold(f2, raw.spi@, gpio_pins_of(raw.gpio@), b.spi_buses@);
    let f3 = spi_checks(f2, raw.spi@, gpio_pins_of(raw.gpio@));
    lemma_uart_fold(f3, raw.uart@, b.uarts@);
    lemma_gpio_values(f0, raw.gpio@);
    lemma_i2c_values(f1, raw.i2c@);
    assert(pin_keys(findings(raw)) =~= board_pins(b));
    assert(label_keys(findings(raw)) =~= board_labels(&b));
}

} // verus!
