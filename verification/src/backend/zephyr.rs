//! The Zephyr backend: a devicetree overlay that enables and configures the
//! board's buses and devices, and a `prj.conf` that turns on exactly the
//! driver subsystems the board uses.

use vstd::prelude::*;
use super::{Backend, GeneratedFile, InitPlan};
use super::c::file_views;
use crate::codegen::clocks_fit;
use crate::codegen::i2c::i2c_speeds_fit;
use crate::codegen::spi::spi_speeds_fit;
use crate::model::{Board, I2cBus, I2cDevice, SpiBus, SpiDevice, Uart};
use crate::text::{dec, owned, push_char, push_dec, push_str};

verus! {

/// Emits `<board>.overlay` and `prj.conf`.
pub struct ZephyrBackend;

/// A lower-case hexadecimal digit.
pub open spec fn lower_digit(d: nat) -> char {
    if d < 10 {
        (d + 48) as char
    } else {
        (d + 87) as char
    }
}

/// A byte in lower-case hexadecimal without leading zeros (a devicetree unit
/// address).
pub open spec fn unit_address(a: nat) -> Seq<char> {
    if a < 16 {
        seq![lower_digit(a)]
    } else {
        seq![lower_digit(a / 16), lower_digit(a % 16)]
    }
}

/// A byte as `0x` and two lower-case hexadecimal digits.
pub open spec fn hex_pair(a: nat) -> Seq<char> {
    seq!['0', 'x', lower_digit(a / 16), lower_digit(a % 16)]
}

/// The node of an I2C device.
pub open spec fn i2c_device_node(d: I2cDevice) -> Seq<char> {
    "\n    "@ + d.label@ + ": "@ + d.label@ + "@"@ + unit_address(d.address as nat) + " {\n        reg = <"@
        + hex_pair(d.address as nat) + ">;\n    };\n"@
}

/// The nodes of a run of I2C devices.
pub open spec fn i2c_device_nodes(ds: Seq<I2cDevice>) -> Seq<char>
    decreases ds.len(),
{
    if ds.len() == 0 {
        Seq::empty()
    } else {
        i2c_device_nodes(ds.drop_last()) + i2c_device_node(ds.last())
    }
}

/// The overlay block of an I2C bus.
pub open spec fn i2c_bus_block(b: I2cBus) -> Seq<char> {
    "\n&i2c"@ + dec(b.bus as nat) + " {\n    status = \"okay\";\n    clock-frequency = <"@ + dec(
        (b.speed_khz * 1000) as nat,
    ) + ">;\n"@ + i2c_device_nodes(b.devices@) + "};\n"@
}

/// The overlay blocks of the I2C buses.
pub open spec fn i2c_blocks(bs: Seq<I2cBus>) -> Seq<char>
    decreases bs.len(),
{
    if bs.len() == 0 {
        Seq::empty()
    } else {
        i2c_blocks(bs.drop_last()) + i2c_bus_block(bs.last())
    }
}

/// One chip-select entry of `cs-gpios`.
pub open spec fn cs_entry(d: SpiDevice) -> Seq<char> {
    "<&gpio0 "@ + dec(d.cs_pin as nat) + " GPIO_ACTIVE_LOW>"@
}

/// The chip-select entries of a run of devices, comma-separated.
pub open spec fn cs_entries(ds: Seq<SpiDevice>) -> Seq<char>
    decreases ds.len(),
{
    if ds.len() == 0 {
        Seq::empty()
    } else if ds.len() == 1 {
        cs_entry(ds[0])
    } else {
        cs_entries(ds.drop_last()) + ", "@ + cs_entry(ds.last())
    }
}

/// The node of the SPI device at chip-select index `j`.
pub open spec fn spi_device_node(d: SpiDevice, j: nat) -> Seq<char> {
    "\n    "@ + d.label@ + ": "@ + d.label@ + "@"@ + dec(j) + " {\n        reg = <"@ + dec(j)
        + ">;\n        spi-max-frequency = <"@ + dec((d.speed_mhz * 1_000_000) as nat) + ">;\n    };\n"@
}

/// The nodes of a run of SPI devices, numbered from 0.
pub open spec fn spi_device_nodes(ds: Seq<SpiDevice>) -> Seq<char>
    decreases ds.len(),
{
    if ds.len() == 0 {
        Seq::empty()
    } else {
        spi_device_nodes(ds.drop_last()) + spi_device_node(ds.last(), (ds.len() - 1) as nat)
    }
}

/// The overlay block of an SPI bus.
pub open spec fn spi_bus_block(b: SpiBus) -> Seq<char> {
    "\n&spi"@ + dec(b.bus as nat) + " {\n    status = \"okay\";\n"@ + (if b.devices@.len() == 0 {
        Seq::empty()
    } else {
        "    cs-gpios = "@ + cs_entries(b.devices@) + ";\n"@
    }) + spi_device_nodes(b.devices@) + "};\n"@
}

/// The overlay blocks of the SPI buses.
pub open spec fn spi_blocks(bs: Seq<SpiBus>) -> Seq<char>
    decreases bs.len(),
{
    if bs.len() == 0 {
        Seq::empty()
    } else {
        spi_blocks(bs.drop_last()) + spi_bus_block(bs.last())
    }
}

/// The overlay block of a UART.
pub open spec fn uart_block(u: Uart) -> Seq<char> {
    "\n&uart"@ + dec(u.index as nat) + " {\n    status = \"okay\";\n    current-speed = <"@ + dec(u.baud as nat)
        + ">;\n};\n"@
}

/// The overlay blocks of the UARTs.
pub open spec fn uart_blocks(us: Seq<Uart>) -> Seq<char>
    decreases us.len(),
{
    if us.len() == 0 {
        Seq::empty()
    } else {
        uart_blocks(us.drop_last()) + uart_block(us.last())
    }
}

/// The text of the devicetree overlay.
pub open spec fn overlay_text(board: Board) -> Seq<char> {
    "/* Devicetree overlay for board '"@ + board.name@ + "' ("@ + board.mcu@ + "). */\n"@ + i2c_blocks(
        board.i2c_buses@,
    ) + spi_blocks(board.spi_buses@) + uart_blocks(board.uarts@)
}

/// The text of `prj.conf`: GPIO when there are GPIO pins or SPI buses (whose
/// chip selects are GPIOs), then I2C, SPI and the serial driver, each only
/// when the board has such a peripheral.
pub open spec fn prj_text(board: Board) -> Seq<char> {
    "# Zephyr configuration for board '"@ + board.name@ + "'\n"@ + (if board.gpios@.len() > 0
        || board.spi_buses@.len() > 0 {
        "CONFIG_GPIO=y\n"@
    } else {
        Seq::empty()
    }) + (if board.i2c_buses@.len() > 0 {
        "CONFIG_I2C=y\n"@
    } else {
        Seq::empty()
    }) + (if board.spi_buses@.len() > 0 {
        "CONFIG_SPI=y\n"@
    } else {
        Seq::empty()
    }) + (if board.uarts@.len() > 0 {
        "CONFIG_SERIAL=y\n"@
    } else {
        Seq::empty()
    })
}

/// The path and text of each file the Zephyr backend emits, in order.
pub open spec fn zephyr_files(board: Board) -> Seq<(Seq<char>, Seq<char>)> {
    seq![(board.name@ + ".overlay"@, overlay_text(board)), ("prj.conf"@, prj_text(board))]
}

/// The lower-case hexadecimal digit of `d`.
fn lower_hex(d: u8) -> (c: char)
    requires
        d < 16,
    ensures
        c == lower_digit(d as nat),
{
    if d < 10 {
        (d + 48u8) as char
    } else {
        (d + 87u8) as char
    }
}

/// Append the node of one I2C device.
fn push_i2c_device(s: &mut String, d: &I2cDevice)
    ensures
        final(s)@ == old(s)@ + i2c_device_node(*d),
{
    push_str(s, "\n    ");
    push_str(s, d.label.as_str());
    push_str(s, ": ");
    push_str(s, d.label.as_str());
    push_str(s, "@");
    let hi = lower_hex(d.address / 16);
    let lo = lower_hex(d.address % 16);
    let ghost before_unit = s@;
    if d.address >= 16 {
        push_char(s, hi);
        push_char(s, lo);
    } else {
        push_char(s, lo);
    }
    proof {
        if d.address < 16 {
            assert(d.address % 16 == d.address);
        }
        assert(s@ =~= before_unit + unit_address(d.address as nat));
    }
    push_str(s, " {\n        reg = <");
    push_char(s, '0');
    push_char(s, 'x');
    push_char(s, hi);
    push_char(s, lo);
    push_str(s, ">;\n    };\n");
    assert(final(s)@ =~= old(s)@ + i2c_device_node(*d));
}

/// Append the overlay block of one I2C bus.
fn push_i2c_bus(s: &mut String, b: &I2cBus)
    requires
        b.speed_khz * 1000 <= u32::MAX,
    ensures
        final(s)@ == old(s)@ + i2c_bus_block(*b),
{
    push_str(s, "\n&i2c");
    push_dec(s, b.bus as u64);
    push_str(s, " {\n    status = \"okay\";\n    clock-frequency = <");
    push_dec(s, (b.speed_khz * 1000) as u64);
    push_str(s, ">;\n");
    let ghost head = s@;
    for j in 0..b.devices.len()
        invariant
            s@ == head + i2c_device_nodes(b.devices@.take(j as int)),
    {
        assert(b.devices@.take(j + 1).drop_last() =~= b.devices@.take(j as int));
        push_i2c_device(s, &b.devices[j]);
        assert(s@ =~= head + i2c_device_nodes(b.devices@.take(j + 1)));
    }
    assert(b.devices@.take(b.devices@.len() as int) =~= b.devices@);
    push_str(s, "};\n");
    assert(final(s)@ =~= old(s)@ + i2c_bus_block(*b));
}

/// Append the `cs-gpios` entries of a run of devices.
fn push_cs_entries(s: &mut String, ds: &Vec<SpiDevice>)
    ensures
        final(s)@ == old(s)@ + cs_entries(ds@),
{
    let ghost head = s@;
    for j in 0..ds.len()
        invariant
            s@ == head + cs_entries(ds@.take(j as int)),
    {
        assert(ds@.take(j + 1).drop_last() =~= ds@.take(j as int));
        if j > 0 {
            push_str(s, ", ");
        }
        push_str(s, "<&gpio0 ");
        push_dec(s, ds[j].cs_pin as u64);
        push_str(s, " GPIO_ACTIVE_LOW>");
        proof {
            if j == 0 {
                assert(ds@.take(1)[0] == ds@[0]);
            }
        }
        assert(s@ =~= head + cs_entries(ds@.take(j + 1)));
    }
    assert(ds@.take(ds@.len() as int) =~= ds@);
}

/// Append the node of the SPI device at chip-select index `j`.
fn push_spi_device(s: &mut String, d: &SpiDevice, j: usize)
    requires
        d.speed_mhz * 1_000_000 <= u32::MAX,
    ensures
        final(s)@ == old(s)@ + spi_device_node(*d, j as nat),
{
    push_str(s, "\n    ");
    push_str(s, d.label.as_str());
    push_str(s, ": ");
    push_str(s, d.label.as_str());
    push_str(s, "@");
    push_dec(s, j as u64);
    push_str(s, " {\n        reg = <");
    push_dec(s, j as u64);
    push_str(s, ">;\n        spi-max-frequency = <");
    push_dec(s, (d.speed_mhz * 1_000_000) as u64);
    push_str(s, ">;\n    };\n");
    assert(final(s)@ =~= old(s)@ + spi_device_node(*d, j as nat));
}

/// Append the overlay block of one SPI bus.
fn push_spi_bus(s: &mut String, b: &SpiBus)
    requires
        forall|j: int| 0 <= j < b.devices@.len() ==> (#[trigger] b.devices@[j]).speed_mhz * 1_000_000 <= u32::MAX,
    ensures
        final(s)@ == old(s)@ + spi_bus_block(*b),
{
    push_str(s, "\n&spi");
    push_dec(s, b.bus as u64);
    push_str(s, " {\n    status = \"okay\";\n");
    if b.devices.len() > 0 {
        push_str(s, "    cs-gpios = ");
        push_cs_entries(s, &b.devices);
        push_str(s, ";\n");
    }
    let ghost head = s@;
    for j in 0..b.devices.len()
        invariant
            forall|k: int| 0 <= k < b.devices@.len() ==> (#[trigger] b.devices@[k]).speed_mhz * 1_000_000 <= u32::MAX,
            s@ == head + spi_device_nodes(b.devices@.take(j as int)),
    {
        assert(b.devices@.take(j + 1).drop_last() =~= b.devices@.take(j as int));
        push_spi_device(s, &b.devices[j], j);
        assert(s@ =~= head + spi_device_nodes(b.devices@.take(j + 1)));
    }
    assert(b.devices@.take(b.devices@.len() as int) =~= b.devices@);
    push_str(s, "};\n");
    assert(final(s)@ =~= old(s)@ + spi_bus_block(*b));
}

/// Append the overlay block of one UART.
fn push_uart(s: &mut String, u: &Uart)
    ensures
        final(s)@ == old(s)@ + uart_block(*u),
{
    push_str(s, "\n&uart");
    push_dec(s, u.index as u64);
    push_str(s, " {\n    status = \"okay\";\n    current-speed = <");
    push_dec(s, u.baud as u64);
    push_str(s, ">;\n};\n");
    assert(final(s)@ =~= old(s)@ + uart_block(*u));
}

/// Render the devicetree overlay.
pub fn render_overlay(board: &Board) -> (r: String)
    requires
        clocks_fit(*board),
    ensures
        r@ == overlay_text(*board),
{
    let mut s = owned("/* Devicetree overlay for board '");
    push_str(&mut s, board.name.as_str());
    push_str(&mut s, "' (");
    push_str(&mut s, board.mcu.as_str());
    push_str(&mut s, "). */\n");
    let ghost head = s@;
    for i in 0..board.i2c_buses.len()
        invariant
            i2c_speeds_fit(board.i2c_buses@),
            s@ == head + i2c_blocks(board.i2c_buses@.take(i as int)),
    {
        assert(board.i2c_buses@.take(i + 1).drop_last() =~= board.i2c_buses@.take(i as int));
        assert(board.i2c_buses@[i as int].speed_khz * 1000 <= u32::MAX);
        push_i2c_bus(&mut s, &board.i2c_buses[i]);
        assert(s@ =~= head + i2c_blocks(board.i2c_buses@.take(i + 1)));
    }
    assert(board.i2c_buses@.take(board.i2c_buses@.len() as int) =~= board.i2c_buses@);
    let ghost mid = s@;
    for i in 0..board.spi_buses.len()
        invariant
            spi_speeds_fit(board.spi_buses@),
            s@ == mid + spi_blocks(board.spi_buses@.take(i as int)),
    {
        assert(board.spi_buses@.take(i + 1).drop_last() =~= board.spi_buses@.take(i as int));
        let b = &board.spi_buses[i];
        assert forall|j: int| 0 <= j < b.devices@.len() implies (#[trigger] b.devices@[j]).speed_mhz * 1_000_000
            <= u32::MAX by {
            assert(board.spi_buses@[i as int].devices@[j] == b.devices@[j]);
        }
        push_spi_bus(&mut s, b);
        assert(s@ =~= mid + spi_blocks(board.spi_buses@.take(i + 1)));
    }
    assert(board.spi_buses@.take(board.spi_buses@.len() as int) =~= board.spi_buses@);
    let ghost tail = s@;
    for i in 0..board.uarts.len()
        invariant
            s@ == tail + uart_blocks(board.uarts@.take(i as int)),
    {
        assert(board.uarts@.take(i + 1).drop_last() =~= board.uarts@.take(i as int));
        push_uart(&mut s, &board.uarts[i]);
        assert(s@ =~= tail + uart_blocks(board.uarts@.take(i + 1)));
    }
    assert(board.uarts@.take(board.uarts@.len() as int) =~= board.uarts@);
    assert(s@ =~= overlay_text(*board));
    s
}

/// Render `prj.conf`.
pub fn render_prj_conf(board: &Board) -> (r: String)
    ensures
        r@ == prj_text(*board),
{
    let mut s = owned("# Zephyr configuration for board '");
    push_str(&mut s, board.name.as_str());
    push_str(&mut s, "'\n");
    if board.gpios.len() > 0 || board.spi_buses.len() > 0 {
        push_str(&mut s, "CONFIG_GPIO=y\n");
    }
    if board.i2c_buses.len() > 0 {
        push_str(&mut s, "CONFIG_I2C=y\n");
    }
    if board.spi_buses.len() > 0 {
        push_str(&mut s, "CONFIG_SPI=y\n");
    }
    if board.uarts.len() > 0 {
        push_str(&mut s, "CONFIG_SERIAL=y\n");
    }
    assert(s@ =~= prj_text(*board));
    s
}

impl Backend for ZephyrBackend {
    fn id(&self) -> (r: &'static str)
        ensures
            r@ == "zephyr"@,
    {
        "zephyr"
    }

    fn description(&self) -> (r: &'static str)
        ensures
            r@ == "Zephyr RTOS devicetree overlay and prj.conf"@,
    {
        "Zephyr RTOS devicetree overlay and prj.conf"
    }

    fn render(&self, board: &Board, plan: &InitPlan) -> (r: Vec<GeneratedFile>)
        ensures
            file_views(r@) == zephyr_files(*board),
    {
        let mut files: Vec<GeneratedFile> = Vec::new();
        let mut name = owned(board.name.as_str());
        push_str(&mut name, ".overlay");
        files.push(GeneratedFile { path: name, contents: render_overlay(board) });
        files.push(GeneratedFile::new("prj.conf", render_prj_conf(board)));
        assert(file_views(files@) =~= zephyr_files(*board));
        files
    }
}

} // verus!
