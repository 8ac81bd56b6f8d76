//! The validated board model.
//!
//! These types are produced by [`crate::config::validate`] and consumed by
//! [`crate::codegen`]. Unlike the raw parse structs, every required field here
//! is present and well-typed: by the time you hold a [`Board`], the
//! configuration is known to be valid.

use vstd::prelude::*;
use crate::text::str_eq;

verus! {

/// A fully-validated description of an embedded board.
#[derive(Debug, Clone, PartialEq, Eq)]
pub struct Board {
    /// Board name (from `[board].name`).
    pub name: String,
    /// MCU identifier (from `[board].mcu`).
    pub mcu: String,
    /// System clock in MHz (from `[board].clock_mhz`).
    pub clock_mhz: u32,
    /// GPIO pins, in declaration order.
    pub gpios: Vec<Gpio>,
    /// I2C buses, in declaration order.
    pub i2c_buses: Vec<I2cBus>,
    /// SPI buses, in declaration order.
    pub spi_buses: Vec<SpiBus>,
    /// UART peripherals, in declaration order.
    pub uarts: Vec<Uart>,
}

impl Board {
    /// True if the board defines no peripherals at all.
    pub fn is_empty(&self) -> (r: bool)
        ensures
            r == (self.gpios@.len() == 0 && self.i2c_buses@.len() == 0 && self.spi_buses@.len() == 0
                && self.uarts@.len() == 0),
    {
        self.gpios.len() == 0 && self.i2c_buses.len() == 0 && self.spi_buses.len() == 0
            && self.uarts.len() == 0
    }

    /// The first GPIO declared on `pin`, if any.
    pub fn gpio_by_pin(&self, pin: u32) -> (r: Option<&Gpio>)
        ensures
            r matches Some(g) ==> exists|i: int|
                0 <= i < self.gpios@.len() && self.gpios@[i] == *g && g.pin == pin && forall|k: int|
                    0 <= k < i ==> self.gpios@[k].pin != pin,
            r is None ==> forall|k: int| 0 <= k < self.gpios@.len() ==> self.gpios@[k].pin != pin,
    {
        for i in 0..self.gpios.len()
            invariant
                forall|k: int| 0 <= k < i ==> self.gpios@[k].pin != pin,
        {
            if self.gpios[i].pin == pin {
                return Some(&self.gpios[i]);
            }
        }
        None
    }
}

/// A single GPIO pin.
#[derive(Debug, Clone, PartialEq, Eq)]
pub struct Gpio {
    /// Physical pin number.
    pub pin: u32,
    /// Pin direction / pull configuration.
    pub mode: GpioMode,
    /// C-identifier label.
    pub label: String,
    /// Interrupt edge, if this pin raises interrupts.
    pub interrupt: Option<InterruptEdge>,
}

impl Gpio {
    /// True if the pin is configured as an output.
    pub fn is_output(&self) -> (r: bool)
        ensures
            r == (self.mode == GpioMode::Output),
    {
        match self.mode {
            GpioMode::Output => true,
            _ => false,
        }
    }
}

/// GPIO direction and pull configuration.
#[derive(Debug, Clone, Copy, PartialEq, Eq, Structural)]
pub enum GpioMode {
    /// High-impedance input.
    Input,
    /// Push-pull output.
    Output,
    /// Input with internal pull-up resistor.
    InputPullup,
    /// Input with internal pull-down resistor.
    InputPulldown,
}

/// The mode named by a TOML spelling.
pub open spec fn gpio_mode_named(s: Seq<char>) -> Option<GpioMode> {
    if s == "input"@ {
        Some(GpioMode::Input)
    } else if s == "output"@ {
        Some(GpioMode::Output)
    } else if s == "input_pullup"@ {
        Some(GpioMode::InputPullup)
    } else if s == "input_pulldown"@ {
        Some(GpioMode::InputPulldown)
    } else {
        None
    }
}

/// The C macro configuring a mode.
pub open spec fn gpio_mode_macro(m: GpioMode) -> Seq<char> {
    match m {
        GpioMode::Input => "GPIO_MODE_INPUT"@,
        GpioMode::Output => "GPIO_MODE_OUTPUT"@,
        GpioMode::InputPullup => "GPIO_MODE_INPUT_PULLUP"@,
        GpioMode::InputPulldown => "GPIO_MODE_INPUT_PULLDOWN"@,
    }
}

/// The comment phrase describing a mode.
pub open spec fn gpio_mode_text(m: GpioMode) -> Seq<char> {
    match m {
        GpioMode::Input => "input"@,
        GpioMode::Output => "output"@,
        GpioMode::InputPullup => "input, pull-up"@,
        GpioMode::InputPulldown => "input, pull-down"@,
    }
}

impl GpioMode {
    /// Parse a mode from its TOML spelling.
    pub fn from_toml(s: &str) -> (r: Option<Self>)
        ensures
            r == gpio_mode_named(s@),
    {
        if str_eq(s, "input") {
            Some(GpioMode::Input)
        } else if str_eq(s, "output") {
            Some(GpioMode::Output)
        } else if str_eq(s, "input_pullup") {
            Some(GpioMode::InputPullup)
        } else if str_eq(s, "input_pulldown") {
            Some(GpioMode::InputPulldown)
        } else {
            None
        }
    }

    /// The C macro used to configure this mode in generated code.
    pub fn as_c_macro(self) -> (r: &'static str)
        ensures
            r@ == gpio_mode_macro(self),
    {
        match self {
            GpioMode::Input => "GPIO_MODE_INPUT",
            GpioMode::Output => "GPIO_MODE_OUTPUT",
            GpioMode::InputPullup => "GPIO_MODE_INPUT_PULLUP",
            GpioMode::InputPulldown => "GPIO_MODE_INPUT_PULLDOWN",
        }
    }

    /// A human-readable phrase for generated comments, e.g. `input, pull-up`.
    pub fn describe(self) -> (r: &'static str)
        ensures
            r@ == gpio_mode_text(self),
    {
        match self {
            GpioMode::Input => "input",
            GpioMode::Output => "output",
            GpioMode::InputPullup => "input, pull-up",
            GpioMode::InputPulldown => "input, pull-down",
        }
    }
}

/// The edge(s) on which a GPIO interrupt fires.
#[derive(Debug, Clone, Copy, PartialEq, Eq, Structural)]
pub enum InterruptEdge {
    /// Low-to-high transition.
    Rising,
    /// High-to-low transition.
    Falling,
    /// Both transitions.
    Both,
}

/// The edge named by a TOML spelling (`"none"` is handled by the caller).
pub open spec fn edge_named(s: Seq<char>) -> Option<InterruptEdge> {
    if s == "rising"@ {
        Some(InterruptEdge::Rising)
    } else if s == "falling"@ {
        Some(InterruptEdge::Falling)
    } else if s == "both"@ {
        Some(InterruptEdge::Both)
    } else {
        None
    }
}

/// The C macro naming an edge.
pub open spec fn edge_macro(e: InterruptEdge) -> Seq<char> {
    match e {
        InterruptEdge::Rising => "GPIO_INTR_RISING"@,
        InterruptEdge::Falling => "GPIO_INTR_FALLING"@,
        InterruptEdge::Both => "GPIO_INTR_BOTH"@,
    }
}

/// The comment phrase describing an edge.
pub open spec fn edge_text(e: InterruptEdge) -> Seq<char> {
    match e {
        InterruptEdge::Rising => "rising edge"@,
        InterruptEdge::Falling => "falling edge"@,
        InterruptEdge::Both => "both edges"@,
    }
}

impl InterruptEdge {
    /// Parse an edge from its TOML spelling. `"none"` maps to `None` (no
    /// interrupt) and is handled by the caller.
    pub fn from_toml(s: &str) -> (r: Option<Self>)
        ensures
            r == edge_named(s@),
    {
        if str_eq(s, "rising") {
            Some(InterruptEdge::Rising)
        } else if str_eq(s, "falling") {
            Some(InterruptEdge::Falling)
        } else if str_eq(s, "both") {
            Some(InterruptEdge::Both)
        } else {
            None
        }
    }

    /// The C macro naming this edge in generated code.
    pub fn as_c_macro(self) -> (r: &'static str)
        ensures
            r@ == edge_macro(self),
    {
        match self {
            InterruptEdge::Rising => "GPIO_INTR_RISING",
            InterruptEdge::Falling => "GPIO_INTR_FALLING",
            InterruptEdge::Both => "GPIO_INTR_BOTH",
        }
    }

    /// A human-readable phrase for generated comments, e.g. `falling edge`.
    pub fn describe(self) -> (r: &'static str)
        ensures
            r@ == edge_text(self),
    {
        match self {
            InterruptEdge::Rising => "rising edge",
            InterruptEdge::Falling => "falling edge",
            InterruptEdge::Both => "both edges",
        }
    }
}

/// An I2C bus and the devices attached to it.
#[derive(Debug, Clone, PartialEq, Eq)]
pub struct I2cBus {
    /// Hardware bus index.
    pub bus: u32,
    /// SDA (data) pin.
    pub sda_pin: u32,
    /// SCL (clock) pin.
    pub scl_pin: u32,
    /// Bus speed in kHz.
    pub speed_khz: u32,
    /// C-identifier label.
    pub label: String,
    /// Devices attached to this bus.
    pub devices: Vec<I2cDevice>,
}

/// A device on an I2C bus.
#[derive(Debug, Clone, PartialEq, Eq)]
pub struct I2cDevice {
    /// 7-bit address (0x00-0x7F).
    pub address: u8,
    /// C-identifier label.
    pub label: String,
    /// Label of another peripheral that must initialize before this device.
    pub depends_on: Option<String>,
    /// GPIO pin that must be driven HIGH before this device initializes.
    pub power_pin: Option<u32>,
    /// How often this device is polled per second (used by analysis).
    pub poll_rate_hz: Option<u32>,
}

/// An SPI bus and the devices attached to it.
#[derive(Debug, Clone, PartialEq, Eq)]
pub struct SpiBus {
    /// Hardware bus index.
    pub bus: u32,
    /// MOSI (controller-out) pin.
    pub mosi_pin: u32,
    /// MISO (controller-in) pin.
    pub miso_pin: u32,
    /// SCK (clock) pin.
    pub sck_pin: u32,
    /// C-identifier label.
    pub label: String,
    /// Devices attached to this bus.
    pub devices: Vec<SpiDevice>,
}

/// A device on an SPI bus.
#[derive(Debug, Clone, PartialEq, Eq)]
pub struct SpiDevice {
    /// Chip-select pin.
    pub cs_pin: u32,
    /// C-identifier label.
    pub label: String,
    /// SPI mode (0-3).
    pub mode: u8,
    /// Clock speed in MHz.
    pub speed_mhz: u32,
    /// Label of another peripheral that must initialize before this device.
    pub depends_on: Option<String>,
    /// GPIO pin that must be driven HIGH before this device initializes.
    pub power_pin: Option<u32>,
}

/// A UART peripheral.
#[derive(Debug, Clone, PartialEq, Eq)]
pub struct Uart {
    /// Peripheral index.
    pub index: u32,
    /// Transmit pin.
    pub tx_pin: u32,
    /// Receive pin.
    pub rx_pin: u32,
    /// Baud rate.
    pub baud: u32,
    /// C-identifier label.
    pub label: String,
}

} // verus!
