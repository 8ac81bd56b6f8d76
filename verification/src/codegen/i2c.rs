//! I2C code generation: per bus, an init plus blocking read/write helpers; per
//! device, an init stub the developer fills in with device-specific setup.

use vstd::prelude::*;
use crate::model::{I2cBus, I2cDevice};
use crate::text::{dec, hex_byte, join, owned, push_str, push_dec, push_hex_byte, join_all};

verus! {

/// The declaration lines of the devices' init stubs, each after a newline.
pub open spec fn i2c_device_decls(ds: Seq<I2cDevice>) -> Seq<char>
    decreases ds.len(),
{
    if ds.len() == 0 {
        Seq::empty()
    } else {
        i2c_device_decls(ds.drop_last()) + "\nvoid i2c_"@ + ds.last().label@ + "_init(void);"@
    }
}

/// The declaration lines of one bus and its devices.
pub open spec fn i2c_bus_decls(b: I2cBus) -> Seq<char> {
    "\nvoid i2c_"@ + b.label@ + "_init(void);"@ + "\nvoid i2c_"@ + b.label@
        + "_write(uint8_t addr, uint8_t reg, uint8_t *data, uint16_t len);"@ + "\nvoid i2c_"@ + b.label@
        + "_read(uint8_t addr, uint8_t reg, uint8_t *data, uint16_t len);"@ + i2c_device_decls(b.devices@)
}

/// The declaration lines of all buses.
pub open spec fn i2c_decls(bs: Seq<I2cBus>) -> Seq<char>
    decreases bs.len(),
{
    if bs.len() == 0 {
        Seq::empty()
    } else {
        i2c_decls(bs.drop_last()) + i2c_bus_decls(bs.last())
    }
}

/// The `init.h` block for I2C, absent when there are no buses.
pub open spec fn i2c_decl_section(bs: Seq<I2cBus>) -> Option<Seq<char>> {
    if bs.len() == 0 {
        None
    } else {
        Some("/* I2C */"@ + i2c_decls(bs))
    }
}

/// `<label> @ 0x..` for each device.
pub open spec fn device_entries(ds: Seq<I2cDevice>) -> Seq<Seq<char>> {
    ds.map_values(|d: I2cDevice| d.label@ + " @ "@ + hex_byte(d.address as nat))
}

/// Every bus speed, in Hz, fits a `u32`.
pub open spec fn i2c_speeds_fit(bs: Seq<I2cBus>) -> bool {
    forall|i: int| 0 <= i < bs.len() ==> (#[trigger] bs[i]).speed_khz * 1000 <= u32::MAX
}

/// A bus's init function.
pub open spec fn i2c_init_fn(b: I2cBus) -> Seq<char> {
    "void i2c_"@ + b.label@ + "_init(void) {\n"@ + "    /* I2C bus "@ + dec(b.bus as nat) + ": SDA="@ + dec(
        b.sda_pin as nat,
    ) + ", SCL="@ + dec(b.scl_pin as nat) + ", "@ + dec(b.speed_khz as nat) + " kHz */\n"@ + (if b.devices@.len()
        > 0 {
        "    /* Devices: "@ + join(device_entries(b.devices@), ", "@) + " */\n"@
    } else {
        Seq::empty()
    }) + "    I2C_INIT("@ + dec(b.bus as nat) + ", "@ + dec(b.sda_pin as nat) + ", "@ + dec(b.scl_pin as nat)
        + ", "@ + dec((b.speed_khz * 1000) as nat) + ");\n}"@
}

/// A bus's blocking write helper.
pub open spec fn i2c_write_fn(b: I2cBus) -> Seq<char> {
    "void i2c_"@ + b.label@ + "_write(uint8_t addr, uint8_t reg, uint8_t *data, uint16_t len) {\n    "@
        + "/* Write `len` bytes from `data` to register `reg` on device `addr` over I2C bus "@ + dec(
        b.bus as nat,
    ) + " */\n    "@ + "I2C_WRITE("@ + dec(b.bus as nat) + ", addr, reg, data, len);\n}"@
}

/// A bus's blocking read helper.
pub open spec fn i2c_read_fn(b: I2cBus) -> Seq<char> {
    "void i2c_"@ + b.label@ + "_read(uint8_t addr, uint8_t reg, uint8_t *data, uint16_t len) {\n    "@
        + "/* Read `len` bytes into `data` from register `reg` on device `addr` over I2C bus "@ + dec(
        b.bus as nat,
    ) + " */\n    "@ + "I2C_READ("@ + dec(b.bus as nat) + ", addr, reg, data, len);\n}"@
}

/// A device's init stub.
pub open spec fn i2c_device_init_fn(b: I2cBus, d: I2cDevice) -> Seq<char> {
    "void i2c_"@ + d.label@ + "_init(void) {\n    "@ + "/* TODO: Initialize "@ + d.label@ + " (I2C device "@
        + hex_byte(d.address as nat) + " on bus "@ + b.label@ + ") */\n}"@
}

/// A bus's functions: init, write, read, then one stub per device.
pub open spec fn i2c_bus_fns(b: I2cBus) -> Seq<Seq<char>> {
    seq![i2c_init_fn(b), i2c_write_fn(b), i2c_read_fn(b)] + b.devices@.map_values(
        |d: I2cDevice| i2c_device_init_fn(b, d),
    )
}

/// The functions of all buses, bus by bus.
pub open spec fn i2c_fns(bs: Seq<I2cBus>) -> Seq<Seq<char>>
    decreases bs.len(),
{
    if bs.len() == 0 {
        Seq::empty()
    } else {
        i2c_fns(bs.drop_last()) + i2c_bus_fns(bs.last())
    }
}

/// Declaration block for `init.h`. `None` when there are no I2C buses.
pub fn decl_section(buses: &[I2cBus]) -> (r: Option<String>)
    ensures
        crate::text::opt_str(r) == i2c_decl_section(buses@),
{
    if buses.len() == 0 {
        return None;
    }
    let mut s = owned("/* I2C */");
    for i in 0..buses.len()
        invariant
            s@ == "/* I2C */"@ + i2c_decls(buses@.take(i as int)),
    {
        assert(buses@.take(i + 1).drop_last() =~= buses@.take(i as int));
        let b = &buses[i];
        let ghost before = s@;
        push_str(&mut s, "\nvoid i2c_");
        push_str(&mut s, b.label.as_str());
        push_str(&mut s, "_init(void);");
        push_str(&mut s, "\nvoid i2c_");
        push_str(&mut s, b.label.as_str());
        push_str(&mut s, "_write(uint8_t addr, uint8_t reg, uint8_t *data, uint16_t len);");
        push_str(&mut s, "\nvoid i2c_");
        push_str(&mut s, b.label.as_str());
        push_str(&mut s, "_read(uint8_t addr, uint8_t reg, uint8_t *data, uint16_t len);");
        let ghost mid = s@;
        for j in 0..b.devices.len()
            invariant
                s@ == mid + i2c_device_decls(b.devices@.take(j as int)),
        {
            assert(b.devices@.take(j + 1).drop_last() =~= b.devices@.take(j as int));
            push_str(&mut s, "\nvoid i2c_");
            push_str(&mut s, b.devices[j].label.as_str());
            push_str(&mut s, "_init(void);");
            assert(s@ =~= mid + i2c_device_decls(b.devices@.take(j + 1)));
        }
        assert(b.devices@.take(b.devices@.len() as int) =~= b.devices@);
        assert(s@ =~= before + i2c_bus_decls(*b));
        assert(s@ =~= "/* I2C */"@ + i2c_decls(buses@.take(i + 1)));
    }
    assert(buses@.take(buses@.len() as int) =~= buses@);
    Some(s)
}

/// A bus's init function.
fn init_fn(b: &I2cBus) -> (r: String)
    requires
        b.speed_khz * 1000 <= u32::MAX,
    ensures
        r@ == i2c_init_fn(*b),
{
    let mut s = owned("void i2c_");
    push_str(&mut s, b.label.as_str());
    push_str(&mut s, "_init(void) {\n");
    push_str(&mut s, "    /* I2C bus ");
    push_dec(&mut s, b.bus as u64);
    push_str(&mut s, ": SDA=");
    push_dec(&mut s, b.sda_pin as u64);
    push_str(&mut s, ", SCL=");
    push_dec(&mut s, b.scl_pin as u64);
    push_str(&mut s, ", ");
    push_dec(&mut s, b.speed_khz as u64);
    push_str(&mut s, " kHz */\n");
    let ghost head = s@;
    if b.devices.len() > 0 {
        let mut entries: Vec<String> = Vec::new();
        for j in 0..b.devices.len()
            invariant
                entries@.len() == j,
                forall|k: int| 0 <= k < j ==> (#[trigger] entries@[k])@ == device_entries(b.devices@)[k],
        {
            let d = &b.devices[j];
            let mut e = d.label.clone();
            push_str(&mut e, " @ ");
            push_hex_byte(&mut e, d.address as u64);
            entries.push(e);
        }
        assert(entries@.map_values(|p: String| p@) =~= device_entries(b.devices@));
        let list = join_all(&entries, ", ");
        push_str(&mut s, "    /* Devices: ");
        push_str(&mut s, list.as_str());
        push_str(&mut s, " */\n");
    }
    push_str(&mut s, "    I2C_INIT(");
    push_dec(&mut s, b.bus as u64);
    push_str(&mut s, ", ");
    push_dec(&mut s, b.sda_pin as u64);
    push_str(&mut s, ", ");
    push_dec(&mut s, b.scl_pin as u64);
    push_str(&mut s, ", ");
    push_dec(&mut s, (b.speed_khz * 1000) as u64);
    push_str(&mut s, ");\n}");
    assert(s@ =~= i2c_init_fn(*b));
    s
}

/// A bus's write helper.
fn write_fn(b: &I2cBus) -> (r: String)
    ensures
        r@ == i2c_write_fn(*b),
{
    let mut s = owned("void i2c_");
    push_str(&mut s, b.label.as_str());
    push_str(&mut s, "_write(uint8_t addr, uint8_t reg, uint8_t *data, uint16_t len) {\n    ");
    push_str(&mut s, "/* Write `len` bytes from `data` to register `reg` on device `addr` over I2C bus ");
    push_dec(&mut s, b.bus as u64);
    push_str(&mut s, " */\n    ");
    push_str(&mut s, "I2C_WRITE(");
    push_dec(&mut s, b.bus as u64);
    push_str(&mut s, ", addr, reg, data, len);\n}");
    assert(s@ =~= i2c_write_fn(*b));
    s
}

/// A bus's read helper.
fn read_fn(b: &I2cBus) -> (r: String)
    ensures
        r@ == i2c_read_fn(*b),
{
    let mut s = owned("void i2c_");
    push_str(&mut s, b.label.as_str());
    push_str(&mut s, "_read(uint8_t addr, uint8_t reg, uint8_t *data, uint16_t len) {\n    ");
    push_str(&mut s, "/* Read `len` bytes into `data` from register `reg` on device `addr` over I2C bus ");
    push_dec(&mut s, b.bus as u64);
    push_str(&mut s, " */\n    ");
    push_str(&mut s, "I2C_READ(");
    push_dec(&mut s, b.bus as u64);
    push_str(&mut s, ", addr, reg, data, len);\n}");
    assert(s@ =~= i2c_read_fn(*b));
    s
}

/// A device's init stub.
fn device_init_fn(b: &I2cBus, d: &I2cDevice) -> (r: String)
    ensures
        r@ == i2c_device_init_fn(*b, *d),
{
    let mut s = owned("void i2c_");
    push_str(&mut s, d.label.as_str());
    push_str(&mut s, "_init(void) {\n    ");
    push_str(&mut s, "/* TODO: Initialize ");
    push_str(&mut s, d.label.as_str());
    push_str(&mut s, " (I2C device ");
    push_hex_byte(&mut s, d.address as u64);
    push_str(&mut s, " on bus ");
    push_str(&mut s, b.label.as_str());
    push_str(&mut s, ") */\n}");
    assert(s@ =~= i2c_device_init_fn(*b, *d));
    s
}

/// The functions of one bus: init, write, read, then one stub per device.
fn bus_fns(b: &I2cBus) -> (r: Vec<String>)
    requires
        b.speed_khz * 1000 <= u32::MAX,
    ensures
        r@.map_values(|f: String| f@) == i2c_bus_fns(*b),
{
    let mut fns: Vec<String> = Vec::new();
    fns.push(init_fn(b));
    fns.push(write_fn(b));
    fns.push(read_fn(b));
    let ghost mid = fns@.map_values(|f: String| f@);
    assert(mid =~= seq![i2c_init_fn(*b), i2c_write_fn(*b), i2c_read_fn(*b)]);
    for j in 0..b.devices.len()
        invariant
            fns@.map_values(|f: String| f@) == mid + b.devices@.take(j as int).map_values(
                |d: I2cDevice| i2c_device_init_fn(*b, d),
            ),
    {
        let ghost prev = fns@.map_values(|f: String| f@);
        fns.push(device_init_fn(b, &b.devices[j]));
        assert(fns@.map_values(|f: String| f@) =~= prev.push(i2c_device_init_fn(*b, b.devices@[j as int])));
        assert(b.devices@.take(j + 1).map_values(|d: I2cDevice| i2c_device_init_fn(*b, d)) =~= b.devices@.take(
            j as int,
        ).map_values(|d: I2cDevice| i2c_device_init_fn(*b, d)).push(i2c_device_init_fn(*b, b.devices@[j as int])));
    }
    assert(b.devices@.take(b.devices@.len() as int) =~= b.devices@);
    fns
}

/// Implementation functions for `init.c`: per bus init/write/read, then a
/// per-device init stub.
pub fn impl_fns(buses: &[I2cBus]) -> (r: Vec<String>)
    requires
        i2c_speeds_fit(buses@),
    ensures
        r@.map_values(|f: String| f@) == i2c_fns(buses@),
{
    let mut fns: Vec<String> = Vec::new();
    for i in 0..buses.len()
        invariant
            i2c_speeds_fit(buses@),
            fns@.map_values(|f: String| f@) == i2c_fns(buses@.take(i as int)),
    {
        assert(buses@.take(i + 1).drop_last() =~= buses@.take(i as int));
        let b = &buses[i];
        let ghost before = fns@;
        let mut part = bus_fns(b);
        let ghost added = part@;
        fns.append(&mut part);
        assert(fns@.map_values(|f: String| f@) =~= before.map_values(|f: String| f@) + added.map_values(
            |f: String| f@,
        ));
        assert(fns@.map_values(|f: String| f@) =~= i2c_fns(buses@.take(i + 1)));
    }
    assert(buses@.take(buses@.len() as int) =~= buses@);
    fns
}

} // verus!
