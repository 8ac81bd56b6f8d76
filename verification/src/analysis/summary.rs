//! The resource-utilization summary printed after every successful run.

use vstd::prelude::*;
use crate::model::{Board, I2cBus, SpiBus};
use crate::text::{cat, counted, dec, owned, push_counted_nat, push_str, push_dec};
use super::interrupts::{interrupt_count, interrupt_pins};

verus! {

/// The number of devices over all I2C buses.
pub open spec fn i2c_device_total(bs: Seq<I2cBus>) -> nat
    decreases bs.len(),
{
    if bs.len() == 0 {
        0
    } else {
        i2c_device_total(bs.drop_last()) + bs.last().devices@.len()
    }
}

/// The number of devices over all SPI buses.
pub open spec fn spi_device_total(bs: Seq<SpiBus>) -> nat
    decreases bs.len(),
{
    if bs.len() == 0 {
        0
    } else {
        spi_device_total(bs.drop_last()) + bs.last().devices@.len()
    }
}

/// The text of the resource summary.
pub open spec fn summary_text(board: Board, layer_count: nat) -> Seq<char> {
    "Board: "@ + board.name@ + " ("@ + board.mcu@ + " @ "@ + dec(board.clock_mhz as nat) + " MHz)\n"@
        + "  GPIO:  "@ + counted(board.gpios@.len(), "pin"@, "pins"@) + " ("@ + dec(interrupt_pins(board.gpios@))
        + " with interrupts)\n"@ + "  I2C:   "@ + counted(board.i2c_buses@.len(), "bus"@, "buses"@) + ", "@
        + counted(i2c_device_total(board.i2c_buses@), "device"@, "devices"@) + "\n"@ + "  SPI:   "@ + counted(
        board.spi_buses@.len(),
        "bus"@,
        "buses"@,
    ) + ", "@ + counted(spi_device_total(board.spi_buses@), "device"@, "devices"@) + "\n"@ + "  UART:  "@
        + counted(board.uarts@.len(), "port"@, "ports"@) + "\n"@ + "  Init order: "@ + counted(
        layer_count,
        "layer"@,
        "layers"@,
    ) + ", 0 cycles\n"@
}

/// The total number of I2C devices.
fn i2c_devices(bs: &Vec<I2cBus>) -> (r: u128)
    ensures
        r == i2c_device_total(bs@),
        r == cat(bs@.map_values(|b: I2cBus| b.devices@)).len(),
{
    proof {
        lemma_i2c_device_total_all(bs@);
    }
    let mut total: u128 = 0;
    for i in 0..bs.len()
        invariant
            total == i2c_device_total(bs@.take(i as int)),
            total <= i * 0xFFFF_FFFF_FFFF_FFFF,
            i <= bs@.len(),
    {
        assert(bs@.take(i + 1).drop_last() =~= bs@.take(i as int));
        total = total + bs[i].devices.len() as u128;
    }
    assert(bs@.take(bs@.len() as int) =~= bs@);
    total
}

/// The total number of SPI devices.
fn spi_devices(bs: &Vec<SpiBus>) -> (r: u128)
    ensures
        r == spi_device_total(bs@),
        r == cat(bs@.map_values(|b: SpiBus| b.devices@)).len(),
{
    proof {
        lemma_spi_device_total_all(bs@);
    }
    let mut total: u128 = 0;
    for i in 0..bs.len()
        invariant
            total == spi_device_total(bs@.take(i as int)),
            total <= i * 0xFFFF_FFFF_FFFF_FFFF,
            i <= bs@.len(),
    {
        assert(bs@.take(i + 1).drop_last() =~= bs@.take(i as int));
        total = total + bs[i].devices.len() as u128;
    }
    assert(bs@.take(bs@.len() as int) =~= bs@);
    total
}

/// Render the resource summary as a multi-line string.
pub fn render(board: &Board, layer_count: usize) -> (r: String)
    ensures
        r@ == summary_text(*board, layer_count as nat),
{
    let mut s = owned("Board: ");
    push_str(&mut s, board.name.as_str());
    push_str(&mut s, " (");
    push_str(&mut s, board.mcu.as_str());
    push_str(&mut s, " @ ");
    push_dec(&mut s, board.clock_mhz as u64);
    push_str(&mut s, " MHz)\n");
    push_str(&mut s, "  GPIO:  ");
    push_counted_nat(&mut s, board.gpios.len() as u128, "pin", "pins");
    push_str(&mut s, " (");
    push_dec(&mut s, interrupt_count(board) as u64);
    push_str(&mut s, " with interrupts)\n");
    push_str(&mut s, "  I2C:   ");
    push_counted_nat(&mut s, board.i2c_buses.len() as u128, "bus", "buses");
    push_str(&mut s, ", ");
    push_counted_nat(&mut s, i2c_devices(&board.i2c_buses), "device", "devices");
    push_str(&mut s, "\n");
    push_str(&mut s, "  SPI:   ");
    push_counted_nat(&mut s, board.spi_buses.len() as u128, "bus", "buses");
    push_str(&mut s, ", ");
    push_counted_nat(&mut s, spi_devices(&board.spi_buses), "device", "devices");
    push_str(&mut s, "\n");
    push_str(&mut s, "  UART:  ");
    push_counted_nat(&mut s, board.uarts.len() as u128, "port", "ports");
    push_str(&mut s, "\n");
    push_str(&mut s, "  Init order: ");
    push_counted_nat(&mut s, layer_count as u128, "layer", "layers");
    push_str(&mut s, ", 0 cycles\n");
    assert(s@ =~= summary_text(*board, layer_count as nat));
    s
}

/// The I2C device total counts every device of every bus once.
pub proof fn lemma_i2c_device_total_all(bs: Seq<I2cBus>)
    ensures
        i2c_device_total(bs) == cat(bs.map_values(|b: I2cBus| b.devices@)).len(),
    decreases bs.len(),
{
    if bs.len() > 0 {
        lemma_i2c_device_total_all(bs.drop_last());
        assert(bs.map_values(|b: I2cBus| b.devices@).drop_last() =~= bs.drop_last().map_values(|b: I2cBus| b.devices@));
    }
}

/// The I2C device totals of two runs of buses add up.
pub proof fn lemma_i2c_device_total_add(bs: Seq<I2cBus>, cs: Seq<I2cBus>)
    ensures
        i2c_device_total(bs + cs) == i2c_device_total(bs) + i2c_device_total(cs),
    decreases cs.len(),
{
    if cs.len() > 0 {
        lemma_i2c_device_total_add(bs, cs.drop_last());
        assert((bs + cs).drop_last() =~= bs + cs.drop_last());
    } else {
        assert(bs + cs =~= bs);
    }
}

/// The SPI device total counts every device of every bus once.
pub proof fn lemma_spi_device_total_all(bs: Seq<SpiBus>)
    ensures
        spi_device_total(bs) == cat(bs.map_values(|b: SpiBus| b.devices@)).len(),
    decreases bs.len(),
{
    if bs.len() > 0 {
        lemma_spi_device_total_all(bs.drop_last());
        assert(bs.map_values(|b: SpiBus| b.devices@).drop_last() =~= bs.drop_last().map_values(|b: SpiBus| b.devices@));
    }
}

/// The SPI device totals of two runs of buses add up.
pub proof fn lemma_spi_device_total_add(bs: Seq<SpiBus>, cs: Seq<SpiBus>)
    ensures
        spi_device_total(bs + cs) == spi_device_total(bs) + spi_device_total(cs),
    decreases cs.len(),
{
    if cs.len() > 0 {
        lemma_spi_device_total_add(bs, cs.drop_last());
        assert((bs + cs).drop_last() =~= bs + cs.drop_last());
    } else {
        assert(bs + cs =~= bs);
    }
}

} // verus!
