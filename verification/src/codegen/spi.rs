//! SPI code generation: per bus, an init and full-duplex transfer; per device,
//! an init stub the developer fills in with device-specific setup, and
//! chip-select assert/deassert helpers.

use vstd::prelude::*;
use crate::model::{SpiBus, SpiDevice};
use crate::text::{cat, dec, owned, push_str, push_dec};

verus! {

/// The init/select/deselect declaration lines of the devices.
pub open spec fn spi_device_decls(ds: Seq<SpiDevice>) -> Seq<char>
    decreases ds.len(),
{
    if ds.len() == 0 {
        Seq::empty()
    } else {
        spi_device_decls(ds.drop_last()) + "\nvoid spi_"@ + ds.last().label@ + "_init(void);"@ + "\nvoid spi_"@
            + ds.last().label@ + "_select(void);"@
            + "\nvoid spi_"@ + ds.last().label@ + "_deselect(void);"@
    }
}

/// The declaration lines of one bus and its devices.
pub open spec fn spi_bus_decls(b: SpiBus) -> Seq<char> {
    "\nvoid spi_"@ + b.label@ + "_init(void);"@ + spi_device_decls(b.devices@) + "\nvoid spi_"@ + b.label@
        + "_transfer(uint8_t *tx, uint8_t *rx, uint16_t len);"@
}

/// The declaration lines of all buses.
pub open spec fn spi_decls(bs: Seq<SpiBus>) -> Seq<char>
    decreases bs.len(),
{
    if bs.len() == 0 {
        Seq::empty()
    } else {
        spi_decls(bs.drop_last()) + spi_bus_decls(bs.last())
    }
}

/// The `init.h` block for SPI, absent when there are no buses.
pub open spec fn spi_decl_section(bs: Seq<SpiBus>) -> Option<Seq<char>> {
    if bs.len() == 0 {
        None
    } else {
        Some("/* SPI */"@ + spi_decls(bs))
    }
}

/// Every device clock, in Hz, fits a `u32`.
pub open spec fn spi_speeds_fit(bs: Seq<SpiBus>) -> bool {
    forall|i: int, j: int|
        0 <= i < bs.len() && 0 <= j < bs[i].devices@.len() ==> (#[trigger] bs[i].devices@[j]).speed_mhz * 1_000_000
            <= u32::MAX
}

/// The chip-select configuration lines of one device inside its bus's init.
pub open spec fn spi_cs_lines(d: SpiDevice) -> Seq<char> {
    "    /* Chip-select: "@ + d.label@ + " on pin "@ + dec(d.cs_pin as nat) + " (mode "@ + dec(d.mode as nat)
        + ", "@ + dec(d.speed_mhz as nat) + " MHz) */\n"@ + "    GPIO_SET_MODE("@ + dec(d.cs_pin as nat)
        + ", GPIO_MODE_OUTPUT);\n"@ + "    SPI_CONFIG_CS("@ + dec(d.cs_pin as nat) + ", SPI_MODE_"@ + dec(
        d.mode as nat,
    ) + ", "@ + dec((d.speed_mhz * 1_000_000) as nat) + ");\n"@
}

/// The chip-select lines of a run of devices.
pub open spec fn spi_cs_block(ds: Seq<SpiDevice>) -> Seq<char>
    decreases ds.len(),
{
    if ds.len() == 0 {
        Seq::empty()
    } else {
        spi_cs_block(ds.drop_last()) + spi_cs_lines(ds.last())
    }
}

/// A bus's init function.
pub open spec fn spi_init_fn(b: SpiBus) -> Seq<char> {
    "void spi_"@ + b.label@ + "_init(void) {\n"@ + "    /* SPI bus "@ + dec(b.bus as nat) + ": MOSI="@ + dec(
        b.mosi_pin as nat,
    ) + ", MISO="@ + dec(b.miso_pin as nat) + ", SCK="@ + dec(b.sck_pin as nat) + " */\n"@ + "    SPI_INIT("@
        + dec(b.bus as nat) + ", "@ + dec(b.mosi_pin as nat) + ", "@ + dec(b.miso_pin as nat) + ", "@ + dec(
        b.sck_pin as nat,
    ) + ");\n"@ + spi_cs_block(b.devices@) + "}"@
}

/// A device's init stub, on the bus named `bus`.
pub open spec fn spi_device_init_fn(d: SpiDevice, bus: Seq<char>) -> Seq<char> {
    "void spi_"@ + d.label@ + "_init(void) {\n    "@ + "/* TODO: Initialize "@ + d.label@ + " (SPI device on bus "@ + bus
        + ", CS pin "@ + dec(d.cs_pin as nat) + ") */\n}"@
}

/// A device's select helper.
pub open spec fn spi_select_fn(d: SpiDevice) -> Seq<char> {
    "void spi_"@ + d.label@ + "_select(void) {\n    "@ + "/* Pull CS low to select "@ + d.label@ + " */\n    "@
        + "GPIO_WRITE("@ + dec(d.cs_pin as nat) + ", 0);\n}"@
}

/// A device's deselect helper.
pub open spec fn spi_deselect_fn(d: SpiDevice) -> Seq<char> {
    "void spi_"@ + d.label@ + "_deselect(void) {\n    "@ + "/* Pull CS high to deselect "@ + d.label@
        + " */\n    "@ + "GPIO_WRITE("@ + dec(d.cs_pin as nat) + ", 1);\n}"@
}

/// A bus's transfer helper.
pub open spec fn spi_transfer_fn(b: SpiBus) -> Seq<char> {
    "void spi_"@ + b.label@ + "_transfer(uint8_t *tx, uint8_t *rx, uint16_t len) {\n    "@
        + "/* Full-duplex transfer of `len` bytes on SPI bus "@ + dec(b.bus as nat) + " */\n    "@
        + "SPI_TRANSFER("@ + dec(b.bus as nat) + ", tx, rx, len);\n}"@
}

/// The init stub and the select and deselect helpers of each of a run of
/// devices on the bus named `bus`.
pub open spec fn spi_device_fns(ds: Seq<SpiDevice>, bus: Seq<char>) -> Seq<Seq<char>>
    decreases ds.len(),
{
    if ds.len() == 0 {
        Seq::empty()
    } else {
        spi_device_fns(ds.drop_last(), bus).push(spi_device_init_fn(ds.last(), bus)).push(
            spi_select_fn(ds.last()),
        ).push(spi_deselect_fn(ds.last()))
    }
}

/// A bus's functions: init, the devices' functions, then transfer.
pub open spec fn spi_bus_fns(b: SpiBus) -> Seq<Seq<char>> {
    seq![spi_init_fn(b)] + spi_device_fns(b.devices@, b.label@) + seq![spi_transfer_fn(b)]
}

/// The functions of all buses, bus by bus.
pub open spec fn spi_fns(bs: Seq<SpiBus>) -> Seq<Seq<char>>
    decreases bs.len(),
{
    if bs.len() == 0 {
        Seq::empty()
    } else {
        spi_fns(bs.drop_last()) + spi_bus_fns(bs.last())
    }
}

/// Declaration block for `init.h`. `None` when there are no SPI buses.
pub fn decl_section(buses: &[SpiBus]) -> (r: Option<String>)
    ensures
        crate::text::opt_str(r) == spi_decl_section(buses@),
{
    if buses.len() == 0 {
        return None;
    }
    let mut s = owned("/* SPI */");
    for i in 0..buses.len()
        invariant
            s@ == "/* SPI */"@ + spi_decls(buses@.take(i as int)),
    {
        assert(buses@.take(i + 1).drop_last() =~= buses@.take(i as int));
        let b = &buses[i];
        let ghost before = s@;
        push_str(&mut s, "\nvoid spi_");
        push_str(&mut s, b.label.as_str());
        push_str(&mut s, "_init(void);");
        let ghost mid = s@;
        for j in 0..b.devices.len()
            invariant
                s@ == mid + spi_device_decls(b.devices@.take(j as int)),
        {
            assert(b.devices@.take(j + 1).drop_last() =~= b.devices@.take(j as int));
            push_str(&mut s, "\nvoid spi_");
            push_str(&mut s, b.devices[j].label.as_str());
            push_str(&mut s, "_init(void);");
            push_str(&mut s, "\nvoid spi_");
            push_str(&mut s, b.devices[j].label.as_str());
            push_str(&mut s, "_select(void);");
            push_str(&mut s, "\nvoid spi_");
            push_str(&mut s, b.devices[j].label.as_str());
            push_str(&mut s, "_deselect(void);");
            assert(s@ =~= mid + spi_device_decls(b.devices@.take(j + 1)));
        }
        assert(b.devices@.take(b.devices@.len() as int) =~= b.devices@);
        push_str(&mut s, "\nvoid spi_");
        push_str(&mut s, b.label.as_str());
        push_str(&mut s, "_transfer(uint8_t *tx, uint8_t *rx, uint16_t len);");
        assert(s@ =~= before + spi_bus_decls(*b));
        assert(s@ =~= "/* SPI */"@ + spi_decls(buses@.take(i + 1)));
    }
    assert(buses@.take(buses@.len() as int) =~= buses@);
    Some(s)
}

/// Append the chip-select lines of one device.
fn push_cs_lines(s: &mut String, d: &SpiDevice)
    requires
        d.speed_mhz * 1_000_000 <= u32::MAX,
    ensures
        final(s)@ == old(s)@ + spi_cs_lines(*d),
{
    push_str(s, "    /* Chip-select: ");
    push_str(s, d.label.as_str());
    push_str(s, " on pin ");
    push_dec(s, d.cs_pin as u64);
    push_str(s, " (mode ");
    push_dec(s, d.mode as u64);
    push_str(s, ", ");
    push_dec(s, d.speed_mhz as u64);
    push_str(s, " MHz) */\n");
    push_str(s, "    GPIO_SET_MODE(");
    push_dec(s, d.cs_pin as u64);
    push_str(s, ", GPIO_MODE_OUTPUT);\n");
    push_str(s, "    SPI_CONFIG_CS(");
    push_dec(s, d.cs_pin as u64);
    push_str(s, ", SPI_MODE_");
    push_dec(s, d.mode as u64);
    push_str(s, ", ");
    push_dec(s, (d.speed_mhz * 1_000_000) as u64);
    push_str(s, ");\n");
    assert(final(s)@ =~= old(s)@ + spi_cs_lines(*d));
}

/// A bus's init function.
fn init_fn(b: &SpiBus) -> (r: String)
    requires
        forall|j: int| 0 <= j < b.devices@.len() ==> (#[trigger] b.devices@[j]).speed_mhz * 1_000_000 <= u32::MAX,
    ensures
        r@ == spi_init_fn(*b),
{
    let mut s = owned("void spi_");
    push_str(&mut s, b.label.as_str());
    push_str(&mut s, "_init(void) {\n");
    push_str(&mut s, "    /* SPI bus ");
    push_dec(&mut s, b.bus as u64);
    push_str(&mut s, ": MOSI=");
    push_dec(&mut s, b.mosi_pin as u64);
    push_str(&mut s, ", MISO=");
    push_dec(&mut s, b.miso_pin as u64);
    push_str(&mut s, ", SCK=");
    push_dec(&mut s, b.sck_pin as u64);
    push_str(&mut s, " */\n");
    push_str(&mut s, "    SPI_INIT(");
    push_dec(&mut s, b.bus as u64);
    push_str(&mut s, ", ");
    push_dec(&mut s, b.mosi_pin as u64);
    push_str(&mut s, ", ");
    push_dec(&mut s, b.miso_pin as u64);
    push_str(&mut s, ", ");
    push_dec(&mut s, b.sck_pin as u64);
    push_str(&mut s, ");\n");
    let ghost head = s@;
    for j in 0..b.devices.len()
        invariant
            forall|k: int| 0 <= k < b.devices@.len() ==> (#[trigger] b.devices@[k]).speed_mhz * 1_000_000 <= u32::MAX,
            s@ == head + spi_cs_block(b.devices@.take(j as int)),
    {
        assert(b.devices@.take(j + 1).drop_last() =~= b.devices@.take(j as int));
        push_cs_lines(&mut s, &b.devices[j]);
        assert(s@ =~= head + spi_cs_block(b.devices@.take(j + 1)));
    }
    assert(b.devices@.take(b.devices@.len() as int) =~= b.devices@);
    push_str(&mut s, "}");
    assert(s@ =~= spi_init_fn(*b));
    s
}

/// A device's init stub.
fn device_init_fn(d: &SpiDevice, bus: &str) -> (r: String)
    ensures
        r@ == spi_device_init_fn(*d, bus@),
{
    let mut s = owned("void spi_");
    push_str(&mut s, d.label.as_str());
    push_str(&mut s, "_init(void) {\n    ");
    push_str(&mut s, "/* TODO: Initialize ");
    push_str(&mut s, d.label.as_str());
    push_str(&mut s, " (SPI device on bus ");
    push_str(&mut s, bus);
    push_str(&mut s, ", CS pin ");
    push_dec(&mut s, d.cs_pin as u64);
    push_str(&mut s, ") */\n}");
    assert(s@ =~= spi_device_init_fn(*d, bus@));
    s
}

/// A device's select helper.
fn select_fn(d: &SpiDevice) -> (r: String)
    ensures
        r@ == spi_select_fn(*d),
{
    let mut s = owned("void spi_");
    push_str(&mut s, d.label.as_str());
    push_str(&mut s, "_select(void) {\n    ");
    push_str(&mut s, "/* Pull CS low to select ");
    push_str(&mut s, d.label.as_str());
    push_str(&mut s, " */\n    ");
    push_str(&mut s, "GPIO_WRITE(");
    push_dec(&mut s, d.cs_pin as u64);
    push_str(&mut s, ", 0);\n}");
    assert(s@ =~= spi_select_fn(*d));
    s
}

/// A device's deselect helper.
fn deselect_fn(d: &SpiDevice) -> (r: String)
    ensures
        r@ == spi_deselect_fn(*d),
{
    let mut s = owned("void spi_");
    push_str(&mut s, d.label.as_str());
    push_str(&mut s, "_deselect(void) {\n    ");
    push_str(&mut s, "/* Pull CS high to deselect ");
    push_str(&mut s, d.label.as_str());
    push_str(&mut s, " */\n    ");
    push_str(&mut s, "GPIO_WRITE(");
    push_dec(&mut s, d.cs_pin as u64);
    push_str(&mut s, ", 1);\n}");
    assert(s@ =~= spi_deselect_fn(*d));
    s
}

/// A bus's transfer helper.
fn transfer_fn(b: &SpiBus) -> (r: String)
    ensures
        r@ == spi_transfer_fn(*b),
{
    let mut s = owned("void spi_");
    push_str(&mut s, b.label.as_str());
    push_str(&mut s, "_transfer(uint8_t *tx, uint8_t *rx, uint16_t len) {\n    ");
    push_str(&mut s, "/* Full-duplex transfer of `len` bytes on SPI bus ");
    push_dec(&mut s, b.bus as u64);
    push_str(&mut s, " */\n    ");
    push_str(&mut s, "SPI_TRANSFER(");
    push_dec(&mut s, b.bus as u64);
    push_str(&mut s, ", tx, rx, len);\n}");
    assert(s@ =~= spi_transfer_fn(*b));
    s
}

/// The functions of one bus: init, the devices' helpers, then transfer.
fn bus_fns(b: &SpiBus) -> (r: Vec<String>)
    requires
        forall|j: int| 0 <= j < b.devices@.len() ==> (#[trigger] b.devices@[j]).speed_mhz * 1_000_000 <= u32::MAX,
    ensures
        r@.map_values(|f: String| f@) == spi_bus_fns(*b),
{
    let mut fns: Vec<String> = Vec::new();
    fns.push(init_fn(b));
    let ghost mid = fns@.map_values(|f: String| f@);
    assert(mid =~= seq![spi_init_fn(*b)]);
    for j in 0..b.devices.len()
        invariant
            fns@.map_values(|f: String| f@) == mid + spi_device_fns(b.devices@.take(j as int), b.label@),
    {
        assert(b.devices@.take(j + 1).drop_last() =~= b.devices@.take(j as int));
        let ghost prev = fns@.map_values(|f: String| f@);
        fns.push(device_init_fn(&b.devices[j], b.label.as_str()));
        fns.push(select_fn(&b.devices[j]));
        fns.push(deselect_fn(&b.devices[j]));
        assert(fns@.map_values(|f: String| f@) =~= prev.push(spi_device_init_fn(b.devices@[j as int], b.label@)).push(
            spi_select_fn(b.devices@[j as int]),
        ).push(spi_deselect_fn(b.devices@[j as int])));
        assert(fns@.map_values(|f: String| f@) =~= mid + spi_device_fns(b.devices@.take(j + 1), b.label@));
    }
    assert(b.devices@.take(b.devices@.len() as int) =~= b.devices@);
    let ghost prev = fns@.map_values(|f: String| f@);
    fns.push(transfer_fn(b));
    assert(fns@.map_values(|f: String| f@) =~= prev.push(spi_transfer_fn(*b)));
    assert(fns@.map_values(|f: String| f@) =~= spi_bus_fns(*b));
    fns
}

/// Implementation functions for `init.c`.
pub fn impl_fns(buses: &[SpiBus]) -> (r: Vec<String>)
    requires
        spi_speeds_fit(buses@),
    ensures
        r@.map_values(|f: String| f@) == spi_fns(buses@),
{
    let mut fns: Vec<String> = Vec::new();
    for i in 0..buses.len()
        invariant
            spi_speeds_fit(buses@),
            fns@.map_values(|f: String| f@) == spi_fns(buses@.take(i as int)),
    {
        assert(buses@.take(i + 1).drop_last() =~= buses@.take(i as int));
        let b = &buses[i];
        assert forall|j: int| 0 <= j < b.devices@.len() implies (#[trigger] b.devices@[j]).speed_mhz * 1_000_000
            <= u32::MAX by {
            assert(buses@[i as int].devices@[j] == b.devices@[j]);
        }
        let ghost before = fns@;
        let mut part = bus_fns(b);
        let ghost added = part@;
        fns.append(&mut part);
        assert(fns@.map_values(|f: String| f@) =~= before.map_values(|f: String| f@) + added.map_values(
            |f: String| f@,
        ));
        assert(fns@.map_values(|f: String| f@) =~= spi_fns(buses@.take(i + 1)));
    }
    assert(buses@.take(buses@.len() as int) =~= buses@);
    fns
}

/// The chip-select lines of a run of devices are every device's lines, in
/// order.
pub proof fn lemma_spi_cs_block_all(ds: Seq<SpiDevice>)
    ensures
        spi_cs_block(ds) == cat(ds.map_values(|d: SpiDevice| spi_cs_lines(d))),
    decreases ds.len(),
{
    if ds.len() > 0 {
        lemma_spi_cs_block_all(ds.drop_last());
        assert(ds.map_values(|d: SpiDevice| spi_cs_lines(d)).drop_last() =~= ds.drop_last().map_values(
            |d: SpiDevice| spi_cs_lines(d),
        ));
    }
}

/// Adding a device to a bus adds that device's chip-select lines to the bus
/// init, just before its closing brace, and changes nothing else in it.
pub proof fn lemma_spi_init_adds_device(b1: SpiBus, b2: SpiBus, d: SpiDevice)
    requires
        b2.bus == b1.bus,
        b2.mosi_pin == b1.mosi_pin,
        b2.miso_pin == b1.miso_pin,
        b2.sck_pin == b1.sck_pin,
        b2.label@ == b1.label@,
        b2.devices@ == b1.devices@.push(d),
    ensures
        spi_init_fn(b2) == spi_init_fn(b1).drop_last() + spi_cs_lines(d) + "}"@,
{
    assert(b2.devices@.drop_last() =~= b1.devices@);
    assert(spi_cs_block(b2.devices@) == spi_cs_block(b1.devices@) + spi_cs_lines(d));
    reveal_strlit("}");
    let t1 = spi_init_fn(b1);
    let x = t1.subrange(0, t1.len() - 1);
    assert(t1 =~= x + "}"@);
    assert(t1.drop_last() =~= x);
    assert(spi_init_fn(b2) =~= x + spi_cs_lines(d) + "}"@);
}

/// A bus init is the init of the same bus without devices, with every
/// device's chip-select lines, in order, inserted before its closing brace.
pub proof fn lemma_spi_init_all_devices(b0: SpiBus, b: SpiBus)
    requires
        b0.bus == b.bus,
        b0.mosi_pin == b.mosi_pin,
        b0.miso_pin == b.miso_pin,
        b0.sck_pin == b.sck_pin,
        b0.label@ == b.label@,
        b0.devices@.len() == 0,
    ensures
        spi_init_fn(b) == spi_init_fn(b0).drop_last() + cat(b.devices@.map_values(|d: SpiDevice| spi_cs_lines(d)))
            + "}"@,
{
    lemma_spi_cs_block_all(b.devices@);
    assert(spi_cs_block(b0.devices@) == Seq::<char>::empty());
    reveal_strlit("}");
    let t0 = spi_init_fn(b0);
    let x = t0.subrange(0, t0.len() - 1);
    assert(t0 =~= x + "}"@);
    assert(t0.drop_last() =~= x);
    assert(spi_init_fn(b) =~= x + spi_cs_block(b.devices@) + "}"@);
}

} // verus!
