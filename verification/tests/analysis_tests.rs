//! Tests for the static-analysis checks: I2C bus utilization, SPI clock
//! accuracy, and interrupt density; and for the summary and the report.
//!
//! Note on utilization rates: the model charges `(1+1+2)*9 = 36` bit-times per
//! transaction against the bus clock, so crossing the 70% threshold on a
//! 400 kHz bus requires several kHz of aggregate polling. The fixtures below
//! use rates chosen to exercise the threshold under that formula.

use forge::analysis::{analyze, bus_utilization, clock, interrupts, report, summary};
use forge::config::parse::{RawBoard, RawConfig, RawGpio, RawI2c, RawI2cDevice, RawSpi, RawSpiDevice, RawUart};
use forge::config::validate;
use forge::graph::builder::build;
use forge::graph::topo::layers;
use forge::model::Board;
use toml::{Table, Value};

/// Read a `board.toml` text into the raw document, as the CLI does.
fn raw_from(text: &str) -> Result<RawConfig, String> {
    let doc: Table = text.parse().map_err(|e: toml::de::Error| e.to_string())?;
    let board = doc
        .get("board")
        .and_then(Value::as_table)
        .ok_or_else(|| "missing field `board`".to_string())?;
    Ok(RawConfig {
        board: RawBoard {
            name: text_field(board, "name")?,
            mcu: text_field(board, "mcu")?,
            clock_mhz: int_field(board, "clock_mhz")?,
        },
        gpio: entries(&doc, "gpio")?
            .iter()
            .map(|t| {
                Ok(RawGpio {
                    pin: int_field(t, "pin")?,
                    mode: text_field(t, "mode")?,
                    label: text_field(t, "label")?,
                    interrupt: text_field(t, "interrupt")?,
                })
            })
            .collect::<Result<_, String>>()?,
        i2c: entries(&doc, "i2c")?
            .iter()
            .map(|t| {
                Ok(RawI2c {
                    bus: int_field(t, "bus")?,
                    sda_pin: int_field(t, "sda_pin")?,
                    scl_pin: int_field(t, "scl_pin")?,
                    speed_khz: int_field(t, "speed_khz")?,
                    label: text_field(t, "label")?,
                    devices: entries(t, "device")?
                        .iter()
                        .map(|d| {
                            Ok(RawI2cDevice {
                                address: int_field(d, "address")?,
                                label: text_field(d, "label")?,
                                depends_on: text_field(d, "depends_on")?,
                                power_pin: int_field(d, "power_pin")?,
                                poll_rate_hz: int_field(d, "poll_rate_hz")?,
                            })
                        })
                        .collect::<Result<_, String>>()?,
                })
            })
            .collect::<Result<_, String>>()?,
        spi: entries(&doc, "spi")?
            .iter()
            .map(|t| {
                Ok(RawSpi {
                    bus: int_field(t, "bus")?,
                    mosi_pin: int_field(t, "mosi_pin")?,
                    miso_pin: int_field(t, "miso_pin")?,
                    sck_pin: int_field(t, "sck_pin")?,
                    label: text_field(t, "label")?,
                    devices: entries(t, "device")?
                        .iter()
                        .map(|d| {
                            Ok(RawSpiDevice {
                                cs_pin: int_field(d, "cs_pin")?,
                                label: text_field(d, "label")?,
                                mode: int_field(d, "mode")?,
                                speed_mhz: int_field(d, "speed_mhz")?,
                                depends_on: text_field(d, "depends_on")?,
                                power_pin: int_field(d, "power_pin")?,
                            })
                        })
                        .collect::<Result<_, String>>()?,
                })
            })
            .collect::<Result<_, String>>()?,
        uart: entries(&doc, "uart")?
            .iter()
            .map(|t| {
                Ok(RawUart {
                    index: int_field(t, "index")?,
                    tx_pin: int_field(t, "tx_pin")?,
                    rx_pin: int_field(t, "rx_pin")?,
                    baud: int_field(t, "baud")?,
                    label: text_field(t, "label")?,
                })
            })
            .collect::<Result<_, String>>()?,
    })
}

fn text_field(t: &Table, key: &str) -> Result<Option<String>, String> {
    match t.get(key) {
        None => Ok(None),
        Some(v) => v
            .as_str()
            .map(|s| Some(s.to_string()))
            .ok_or_else(|| format!("invalid type for `{key}`, expected a string")),
    }
}

fn int_field(t: &Table, key: &str) -> Result<Option<u32>, String> {
    match t.get(key) {
        None => Ok(None),
        Some(v) => v
            .as_integer()
            .and_then(|i| u32::try_from(i).ok())
            .map(Some)
            .ok_or_else(|| format!("invalid value for `{key}`, expected u32")),
    }
}

fn entries<'a>(t: &'a Table, key: &str) -> Result<Vec<&'a Table>, String> {
    match t.get(key) {
        None => Ok(Vec::new()),
        Some(v) => v
            .as_array()
            .ok_or_else(|| format!("invalid type for `{key}`, expected a sequence"))?
            .iter()
            .map(|e| {
                e.as_table()
                    .ok_or_else(|| format!("invalid type in `{key}`, expected a table"))
            })
            .collect(),
    }
}

fn board_from(toml: &str) -> Board {
    let raw = raw_from(toml).expect("valid TOML");
    validate(raw).expect("valid config").board
}

#[test]
fn bus_utilization_fires_when_saturated() {
    // 3 devices polling fast on a 400 kHz bus: 3 * 3100 * 36 / 400000 ≈ 0.84.
    let toml = r#"
        [board]
        name = "u"
        mcu = "x"
        clock_mhz = 8
        [[i2c]]
        bus = 0
        sda_pin = 1
        scl_pin = 2
        speed_khz = 400
        label = "sensor_bus"
        [[i2c.device]]
        address = 0x10
        label = "a"
        poll_rate_hz = 3100
        [[i2c.device]]
        address = 0x11
        label = "b"
        poll_rate_hz = 3100
        [[i2c.device]]
        address = 0x12
        label = "c"
        poll_rate_hz = 3100
    "#;
    let warnings = bus_utilization::check(&board_from(toml).i2c_buses);
    assert_eq!(warnings.len(), 1, "expected one warning: {warnings:?}");
    assert!(warnings[0].contains("sensor_bus"));
    assert!(warnings[0].contains("utilization"));
}

#[test]
fn bus_utilization_ok_when_idle() {
    let toml = r#"
        [board]
        name = "u"
        mcu = "x"
        clock_mhz = 8
        [[i2c]]
        bus = 0
        sda_pin = 1
        scl_pin = 2
        speed_khz = 400
        label = "sensor_bus"
        [[i2c.device]]
        address = 0x10
        label = "a"
        poll_rate_hz = 10
    "#;
    assert!(bus_utilization::check(&board_from(toml).i2c_buses).is_empty());
}

#[test]
fn bus_utilization_skips_devices_without_poll_rate() {
    let toml = r#"
        [board]
        name = "u"
        mcu = "x"
        clock_mhz = 8
        [[i2c]]
        bus = 0
        sda_pin = 1
        scl_pin = 2
        speed_khz = 400
        label = "sensor_bus"
        [[i2c.device]]
        address = 0x10
        label = "a"
        [[i2c.device]]
        address = 0x11
        label = "b"
        [[i2c.device]]
        address = 0x12
        label = "c"
    "#;
    assert!(
        bus_utilization::check(&board_from(toml).i2c_buses).is_empty(),
        "no poll rates means nothing to estimate"
    );
}

#[test]
fn spi_clock_mismatch_warns() {
    // 10 MHz requested on a 16 MHz clock => prescaler 2 => 8 MHz actual (20% off).
    let toml = r#"
        [board]
        name = "c"
        mcu = "x"
        clock_mhz = 16
        [[spi]]
        bus = 0
        mosi_pin = 23
        miso_pin = 19
        sck_pin = 18
        label = "bus0"
        [[spi.device]]
        cs_pin = 5
        label = "oled"
        mode = 0
        speed_mhz = 10
    "#;
    let warnings = clock::check(&board_from(toml));
    assert_eq!(warnings.len(), 1, "expected one warning: {warnings:?}");
    assert!(warnings[0].contains("oled"));
    assert!(warnings[0].contains("8 MHz"), "msg: {}", warnings[0]);
}

#[test]
fn spi_clock_exact_match_is_quiet() {
    // 8 MHz on a 16 MHz clock => prescaler 2 => exactly 8 MHz.
    let toml = r#"
        [board]
        name = "c"
        mcu = "x"
        clock_mhz = 16
        [[spi]]
        bus = 0
        mosi_pin = 23
        miso_pin = 19
        sck_pin = 18
        label = "bus0"
        [[spi.device]]
        cs_pin = 5
        label = "oled"
        mode = 0
        speed_mhz = 8
    "#;
    assert!(clock::check(&board_from(toml)).is_empty());
}

#[test]
fn interrupt_density_fires_above_three() {
    let toml = r#"
        [board]
        name = "i"
        mcu = "x"
        clock_mhz = 8
        [[gpio]]
        pin = 1
        mode = "input"
        label = "a"
        interrupt = "rising"
        [[gpio]]
        pin = 2
        mode = "input"
        label = "b"
        interrupt = "rising"
        [[gpio]]
        pin = 3
        mode = "input"
        label = "c"
        interrupt = "rising"
        [[gpio]]
        pin = 4
        mode = "input"
        label = "d"
        interrupt = "rising"
    "#;
    let warnings = interrupts::check(&board_from(toml));
    assert_eq!(warnings.len(), 1, "expected one warning: {warnings:?}");
    assert!(warnings[0].contains("4 GPIO interrupts"));
}

#[test]
fn interrupt_density_ok_at_two() {
    let toml = r#"
        [board]
        name = "i"
        mcu = "x"
        clock_mhz = 8
        [[gpio]]
        pin = 1
        mode = "input"
        label = "a"
        interrupt = "rising"
        [[gpio]]
        pin = 2
        mode = "input"
        label = "b"
        interrupt = "falling"
    "#;
    assert!(interrupts::check(&board_from(toml)).is_empty());
}

/// One SPI device at `req` MHz on a `sys` MHz clock.
fn spi_board(sys: u32, req: u32) -> Board {
    board_from(&format!(
        r#"
        [board]
        name = "c"
        mcu = "x"
        clock_mhz = {sys}
        [[spi]]
        bus = 0
        mosi_pin = 23
        miso_pin = 19
        sck_pin = 18
        label = "bus0"
        [[spi.device]]
        cs_pin = 5
        label = "oled"
        mode = 0
        speed_mhz = {req}
    "#
    ))
}

#[test]
fn utilization_warning_text_is_exact() {
    let toml = r#"
        [board]
        name = "u"
        mcu = "x"
        clock_mhz = 8
        [[i2c]]
        bus = 0
        sda_pin = 1
        scl_pin = 2
        speed_khz = 400
        label = "sensor_bus"
        [[i2c.device]]
        address = 0x10
        label = "a"
        poll_rate_hz = 3100
        [[i2c.device]]
        address = 0x11
        label = "b"
        poll_rate_hz = 3100
        [[i2c.device]]
        address = 0x12
        label = "c"
        poll_rate_hz = 3100
        [[i2c.device]]
        address = 0x13
        label = "quiet"
    "#;
    let board = board_from(toml);
    assert_eq!(bus_utilization::polled_device_count(&board.i2c_buses[0]), 3);
    // 3 * 3100 * 36 = 334800 bit-times per second of 400000: 83.7%.
    assert_eq!(bus_utilization::utilization_percent(&board.i2c_buses[0]), Some(84));
    assert_eq!(
        bus_utilization::check(&board.i2c_buses),
        vec!["I2C bus 'sensor_bus' estimated at ~84% utilization with 3 polled device(s) on a 400 kHz bus. Consider splitting across two buses.".to_string()]
    );
}

#[test]
fn utilization_threshold_is_strict() {
    // 7000 Hz * 36 = 252000 bit-times of 360000: exactly 70%, not above it.
    let at = |rate: u32| {
        board_from(&format!(
            r#"
            [board]
            name = "u"
            mcu = "x"
            clock_mhz = 8
            [[i2c]]
            bus = 0
            sda_pin = 1
            scl_pin = 2
            speed_khz = 360
            label = "b0"
            [[i2c.device]]
            address = 0x10
            label = "a"
            poll_rate_hz = {rate}
        "#
        ))
    };
    assert!(bus_utilization::check(&at(7000).i2c_buses).is_empty());
    assert_eq!(bus_utilization::utilization_percent(&at(7000).i2c_buses[0]), Some(70));
    assert_eq!(bus_utilization::check(&at(7001).i2c_buses).len(), 1);
}

#[test]
fn clock_warning_text_is_exact() {
    assert_eq!(
        clock::check(&spi_board(16, 10)),
        vec!["SPI device 'oled' requested 10 MHz but closest achievable is 8 MHz (system clock 16 MHz / prescaler 2). Actual speed is 20% lower than requested.".to_string()]
    );
    // 10 MHz / 4 = 2.5 MHz for a 3 MHz request: 16.7% off.
    assert_eq!(
        clock::check(&spi_board(10, 3)),
        vec!["SPI device 'oled' requested 3 MHz but closest achievable is 2.50 MHz (system clock 10 MHz / prescaler 4). Actual speed is 17% lower than requested.".to_string()]
    );
}

#[test]
fn clock_fraction_is_printed_as_a_float_would_be() {
    // 17 MHz / 8 = 2.125 MHz for a 3 MHz request.
    let expected = format!(
        "SPI device 'oled' requested 3 MHz but closest achievable is {:.2} MHz (system clock 17 MHz / prescaler 8). Actual speed is 29% lower than requested.",
        17.0f64 / 8.0
    );
    assert_eq!(clock::check(&spi_board(17, 3)), vec![expected]);
}

#[test]
fn clock_faster_than_system_clock_and_zero_clock() {
    // Requesting more than the system clock: prescaler 1, the clock itself.
    assert!(clock::check(&spi_board(16, 17)).is_empty());
    assert_eq!(
        clock::check(&spi_board(16, 20)),
        vec!["SPI device 'oled' requested 20 MHz but closest achievable is 16 MHz (system clock 16 MHz / prescaler 1). Actual speed is 20% lower than requested.".to_string()]
    );
    assert_eq!(
        clock::check(&spi_board(0, 4)),
        vec!["SPI device 'oled' requested 4 MHz but closest achievable is 0 MHz (system clock 0 MHz / prescaler 1). Actual speed is 100% lower than requested.".to_string()]
    );
}

#[test]
fn devices_with_zero_speed_are_not_checked() {
    let board = board_from(
        r#"
        [board]
        name = "c"
        mcu = "x"
        clock_mhz = 16
        [[spi]]
        bus = 0
        mosi_pin = 23
        miso_pin = 19
        sck_pin = 18
        label = "bus0"
        [[spi.device]]
        cs_pin = 5
        label = "oled"
        mode = 0
        speed_mhz = 0
    "#,
    );
    assert!(clock::check(&board).is_empty());
}

#[test]
fn interrupt_warning_text_is_exact() {
    let mut text = String::from("[board]\nname = \"i\"\nmcu = \"x\"\nclock_mhz = 8\n");
    for pin in 1..=5 {
        text.push_str(&format!(
            "[[gpio]]\npin = {pin}\nmode = \"input\"\nlabel = \"g{pin}\"\ninterrupt = \"{}\"\n",
            if pin == 5 { "none" } else { "both" }
        ));
    }
    let board = board_from(&text);
    assert_eq!(interrupts::interrupt_count(&board), 4);
    assert_eq!(
        interrupts::check(&board),
        vec!["4 GPIO interrupts configured. High interrupt density may cause missed interrupts or excessive ISR overhead. Consider polling for lower-priority signals.".to_string()]
    );
}

#[test]
fn analyze_orders_utilization_then_clock_then_density() {
    let mut text = String::from(
        r#"
        [board]
        name = "all"
        mcu = "x"
        clock_mhz = 16
        [[i2c]]
        bus = 0
        sda_pin = 30
        scl_pin = 31
        speed_khz = 100
        label = "busy"
        [[i2c.device]]
        address = 0x10
        label = "s"
        poll_rate_hz = 5000
        [[spi]]
        bus = 0
        mosi_pin = 23
        miso_pin = 19
        sck_pin = 18
        label = "bus0"
        [[spi.device]]
        cs_pin = 5
        label = "oled"
        mode = 0
        speed_mhz = 10
    "#,
    );
    for pin in 1..=4 {
        text.push_str(&format!(
            "[[gpio]]\npin = {pin}\nmode = \"input\"\nlabel = \"g{pin}\"\ninterrupt = \"rising\"\n"
        ));
    }
    let warnings = analyze(&board_from(&text));
    assert_eq!(warnings.len(), 3, "{warnings:?}");
    assert!(warnings[0].starts_with("I2C bus 'busy' estimated at ~180% utilization"));
    assert!(warnings[1].starts_with("SPI device 'oled'"));
    assert!(warnings[2].starts_with("4 GPIO interrupts"));
}

#[test]
fn summary_counts_resources() {
    let board = board_from(
        r#"
        [board]
        name = "s"
        mcu = "esp32"
        clock_mhz = 80
        [[gpio]]
        pin = 2
        mode = "output"
        label = "led"
        [[i2c]]
        bus = 0
        sda_pin = 21
        scl_pin = 22
        speed_khz = 400
        label = "bus0"
        [[i2c.device]]
        address = 0x10
        label = "a"
        [[i2c.device]]
        address = 0x11
        label = "b"
        [[uart]]
        index = 0
        tx_pin = 1
        rx_pin = 3
        baud = 9600
        label = "console"
    "#,
    );
    assert_eq!(
        summary::render(&board, 1),
        "Board: s (esp32 @ 80 MHz)\n  GPIO:  1 pin (0 with interrupts)\n  I2C:   1 bus, 2 devices\n  SPI:   0 buses, 0 devices\n  UART:  1 port\n  Init order: 1 layer, 0 cycles\n"
    );
}

#[test]
fn timestamps_are_rfc3339_utc() {
    assert_eq!(report::format_timestamp(0), "1970-01-01T00:00:00Z");
    assert_eq!(report::format_timestamp(951_782_400), "2000-02-29T00:00:00Z");
    assert_eq!(report::format_timestamp(1_700_000_000), "2023-11-14T22:13:20Z");
    assert_eq!(report::format_timestamp(86_399), "1970-01-01T23:59:59Z");
}

#[test]
fn report_has_every_section() {
    let board = board_from(
        r#"
        [board]
        name = "r"
        mcu = "x"
        clock_mhz = 8
        [[gpio]]
        pin = 12
        mode = "output"
        label = "power"
        [[i2c]]
        bus = 0
        sda_pin = 21
        scl_pin = 22
        speed_khz = 400
        label = "bus0"
        [[i2c.device]]
        address = 0x10
        label = "imu"
        power_pin = 12
        poll_rate_hz = 100
    "#,
    );
    let graph = build(&board).expect("valid graph");
    let order = layers(&graph).expect("acyclic");
    let warnings = vec!["careful".to_string()];
    let text = report::render_at(&board, &graph, &order, &warnings, 0);
    let expected = "Forge Analysis Report \u{2014} r\n\
Generated: 1970-01-01T00:00:00Z\n\
\n\
DEPENDENCY GRAPH\n  bus0 (i2c) \u{2014} no dependencies\n  imu (i2c) \u{2014} depends on: bus0, power\n  power (gpio) \u{2014} no dependencies\n\
\n\
INIT ORDER (2 layers)\n  Layer 0: bus0, power\n  Layer 1: imu\n\
\n\
WARNINGS\n  - careful\n\
\n\
RESOURCE UTILIZATION\n  GPIO:  1 pin\n  I2C:   1 bus\n    bus0 @ 400 kHz, 1 device, est. utilization ~1%\n  SPI:   0 buses\n  UART:  0 ports\n\
\n\
SUMMARY\n  Board: r (x @ 8 MHz)\n    GPIO:  1 pin (0 with interrupts)\n    I2C:   1 bus, 1 device\n    SPI:   0 buses, 0 devices\n    UART:  0 ports\n    Init order: 2 layers, 0 cycles\n";
    assert_eq!(text, expected);
    let now = report::render(&board, &graph, &order, &[]);
    assert!(now.contains("WARNINGS\n  [none]\n"));
}

#[test]
fn closest_speed_may_be_above_the_request() {
    // 15 MHz on a 16 MHz clock: 16 MHz (prescaler 1) is closer than 8 MHz,
    // and within tolerance.
    assert!(clock::check(&spi_board(16, 15)).is_empty());
    // 14 MHz: 16 MHz is still the closest, 14% above the request.
    assert_eq!(
        clock::check(&spi_board(16, 14)),
        vec!["SPI device 'oled' requested 14 MHz but closest achievable is 16 MHz (system clock 16 MHz / prescaler 1). Actual speed is 14% higher than requested.".to_string()]
    );
    // 12 MHz: 16 and 8 MHz are equally far; the slower one is taken.
    assert_eq!(
        clock::check(&spi_board(16, 12)),
        vec!["SPI device 'oled' requested 12 MHz but closest achievable is 8 MHz (system clock 16 MHz / prescaler 2). Actual speed is 33% lower than requested.".to_string()]
    );
}

#[test]
fn prescaler_picks_the_closest_power_of_two() {
    // 16 MHz for 15 requested: 16 (off by 1) beats 8 (off by 7).
    assert_eq!(clock::find_prescaler(16, 15), 1);
    // 16 MHz for 12 requested: 8 (off by 4) ties 16 (off by 4); the slower wins.
    assert_eq!(clock::find_prescaler(16, 12), 2);
    // 16 MHz for 10 requested: 8 (off by 2) beats 16 (off by 6).
    assert_eq!(clock::find_prescaler(16, 10), 2);
    // 80 MHz for 30 requested: 20 and 40 are both off by 10; the slower wins.
    assert_eq!(clock::find_prescaler(80, 30), 4);
    // A request at or above the clock runs undivided.
    assert_eq!(clock::find_prescaler(8, 20), 1);
    assert_eq!(clock::find_prescaler(0, 5), 1);
}
