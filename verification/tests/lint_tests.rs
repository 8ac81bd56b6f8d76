//! Tests for the lint / design-review engine's diagnostic layer.

use forge::config::parse::{RawBoard, RawConfig, RawGpio, RawI2c, RawI2cDevice, RawSpi, RawSpiDevice, RawUart};
use forge::config::validate;
use forge::lint::{self, diagnose, Diagnostic, Severity};
use forge::model::Board;
use toml::{Table, Value};

/// Read a `board.toml` text into the raw document, as the CLI does.
fn raw_from(text: &str) -> Result<RawConfig, String> {
    let doc: Table = text.parse().map_err(|e: toml::de::Error| e.to_string())?;
    let board = doc
        .get("board")
        .and_then(Value::as_table)
        .ok_or_else(|| "missing field `board`".to_string())?;
    Ok(RawConfig {
        board: RawBoard {
            name: text_field(board, "name")?,
            mcu: text_field(board, "mcu")?,
            clock_mhz: int_field(board, "clock_mhz")?,
        },
        gpio: entries(&doc, "gpio")?
            .iter()
            .map(|t| {
                Ok(RawGpio {
                    pin: int_field(t, "pin")?,
                    mode: text_field(t, "mode")?,
                    label: text_field(t, "label")?,
                    interrupt: text_field(t, "interrupt")?,
                })
            })
            .collect::<Result<_, String>>()?,
        i2c: entries(&doc, "i2c")?
            .iter()
            .map(|t| {
                Ok(RawI2c {
                    bus: int_field(t, "bus")?,
                    sda_pin: int_field(t, "sda_pin")?,
                    scl_pin: int_field(t, "scl_pin")?,
                    speed_khz: int_field(t, "speed_khz")?,
                    label: text_field(t, "label")?,
                    devices: entries(t, "device")?
                        .iter()
                        .map(|d| {
                            Ok(RawI2cDevice {
                                address: int_field(d, "address")?,
                                label: text_field(d, "label")?,
                                depends_on: text_field(d, "depends_on")?,
                                power_pin: int_field(d, "power_pin")?,
                                poll_rate_hz: int_field(d, "poll_rate_hz")?,
                            })
                        })
                        .collect::<Result<_, String>>()?,
                })
            })
            .collect::<Result<_, String>>()?,
        spi: entries(&doc, "spi")?
            .iter()
            .map(|t| {
                Ok(RawSpi {
                    bus: int_field(t, "bus")?,
                    mosi_pin: int_field(t, "mosi_pin")?,
                    miso_pin: int_field(t, "miso_pin")?,
                    sck_pin: int_field(t, "sck_pin")?,
                    label: text_field(t, "label")?,
                    devices: entries(t, "device")?
                        .iter()
                        .map(|d| {
                            Ok(RawSpiDevice {
                                cs_pin: int_field(d, "cs_pin")?,
                                label: text_field(d, "label")?,
                                mode: int_field(d, "mode")?,
                                speed_mhz: int_field(d, "speed_mhz")?,
                                depends_on: text_field(d, "depends_on")?,
                                power_pin: int_field(d, "power_pin")?,
                            })
                        })
                        .collect::<Result<_, String>>()?,
                })
            })
            .collect::<Result<_, String>>()?,
        uart: entries(&doc, "uart")?
            .iter()
            .map(|t| {
                Ok(RawUart {
                    index: int_field(t, "index")?,
                    tx_pin: int_field(t, "tx_pin")?,
                    rx_pin: int_field(t, "rx_pin")?,
                    baud: int_field(t, "baud")?,
                    label: text_field(t, "label")?,
                })
            })
            .collect::<Result<_, String>>()?,
    })
}

fn text_field(t: &Table, key: &str) -> Result<Option<String>, String> {
    match t.get(key) {
        None => Ok(None),
        Some(v) => v
            .as_str()
            .map(|s| Some(s.to_string()))
            .ok_or_else(|| format!("invalid type for `{key}`, expected a string")),
    }
}

fn int_field(t: &Table, key: &str) -> Result<Option<u32>, String> {
    match t.get(key) {
        None => Ok(None),
        Some(v) => v
            .as_integer()
            .and_then(|i| u32::try_from(i).ok())
            .map(Some)
            .ok_or_else(|| format!("invalid value for `{key}`, expected u32")),
    }
}

fn entries<'a>(t: &'a Table, key: &str) -> Result<Vec<&'a Table>, String> {
    match t.get(key) {
        None => Ok(Vec::new()),
        Some(v) => v
            .as_array()
            .ok_or_else(|| format!("invalid type for `{key}`, expected a sequence"))?
            .iter()
            .map(|e| {
                e.as_table()
                    .ok_or_else(|| format!("invalid type in `{key}`, expected a table"))
            })
            .collect(),
    }
}

fn board_from(toml: &str) -> Board {
    validate(raw_from(toml).unwrap()).unwrap().board
}

#[test]
fn review_flags_spi_clock_mismatch_as_warning() {
    let toml = r#"
        [board]
        name = "c"
        mcu = "x"
        clock_mhz = 16
        [[spi]]
        bus = 0
        mosi_pin = 23
        miso_pin = 19
        sck_pin = 18
        label = "bus0"
        [[spi.device]]
        cs_pin = 5
        label = "oled"
        mode = 0
        speed_mhz = 10
    "#;
    let diags = lint::review(&board_from(toml));
    let d = diags
        .iter()
        .find(|d| d.code == "spi-clock-mismatch")
        .expect("clock diagnostic");
    assert_eq!(d.severity, Severity::Warning);
    assert!(d.suggestion.is_some());
}

#[test]
fn review_is_quiet_on_a_clean_board() {
    let toml = r#"
        [board]
        name = "ok"
        mcu = "x"
        clock_mhz = 16
        [[gpio]]
        pin = 1
        mode = "output"
        label = "led"
    "#;
    // No warnings or errors; at most informational.
    let diags = lint::review(&board_from(toml));
    assert!(!lint::has_errors(&diags));
    assert!(diags.iter().all(|d| d.severity == Severity::Info));
}

#[test]
fn has_errors_detects_error_severity() {
    let diags = vec![
        Diagnostic::warning("w", "a warning"),
        Diagnostic::error("e", "an error"),
    ];
    assert!(lint::has_errors(&diags));
}

#[test]
fn has_errors_is_false_without_errors() {
    let diags = vec![Diagnostic::warning("w", "a warning"), Diagnostic::info("i", "a note")];
    assert!(!lint::has_errors(&diags));
    assert!(!lint::has_errors(&[]));
}

#[test]
fn constructors_fill_the_fields() {
    let d = Diagnostic::warning("test-code", "hello").with_suggestion("do x");
    assert_eq!(d.severity, Severity::Warning);
    assert_eq!(d.code, "test-code");
    assert_eq!(d.message, "hello");
    assert_eq!(d.suggestion.as_deref(), Some("do x"));
    let e = Diagnostic::error("e", "bad");
    assert_eq!(e.severity, Severity::Error);
    assert_eq!(e.suggestion, None);
    assert_eq!(Diagnostic::info("i", "fyi").severity, Severity::Info);
}

#[test]
fn review_notes_buses_without_poll_rates() {
    let toml = r#"
        [board]
        name = "n"
        mcu = "x"
        clock_mhz = 16
        [[i2c]]
        bus = 0
        sda_pin = 1
        scl_pin = 2
        speed_khz = 400
        label = "quiet_bus"
        [[i2c.device]]
        address = 0x10
        label = "a"
        [[i2c]]
        bus = 1
        sda_pin = 3
        scl_pin = 4
        speed_khz = 400
        label = "empty_bus"
    "#;
    let diags = lint::review(&board_from(toml));
    assert_eq!(diags.len(), 1);
    assert_eq!(diags[0].severity, Severity::Info);
    assert_eq!(diags[0].code, "i2c-no-poll-rate");
    assert_eq!(
        diags[0].message,
        "I2C bus 'quiet_bus' has devices but no poll_rate_hz, so utilization was not estimated."
    );
}

#[test]
fn human_rendering_is_exact() {
    assert_eq!(lint::render_human(&[]), "No issues found.\n");
    let diags = vec![
        Diagnostic::warning("test-code", "hello").with_suggestion("do x"),
        Diagnostic::error("e", "bad"),
        Diagnostic::info("i", "fyi"),
    ];
    assert_eq!(
        lint::render_human(&diags),
        "[WARN] test-code: hello\n       \u{21b3} do x\n[ERROR] e: bad\n[INFO] i: fyi\n"
    );
}

#[test]
fn diagnose_reports_validation_errors_as_errors() {
    let toml = r#"
        [board]
        name = "p"
        mcu = "x"
        clock_mhz = 16
        [[gpio]]
        pin = 21
        mode = "output"
        label = "status_led"
        [[i2c]]
        bus = 0
        sda_pin = 21
        scl_pin = 22
        speed_khz = 400
        label = "sensor_bus"
    "#;
    let diags = diagnose(raw_from(toml).unwrap());
    assert_eq!(diags.len(), 1);
    assert_eq!(diags[0].severity, Severity::Error);
    assert_eq!(diags[0].code, "invalid-config");
    assert!(diags[0].message.contains("Pin 21"));
    assert!(lint::has_errors(&diags));
}

#[test]
fn diagnose_reports_config_warnings_then_review() {
    let toml = r#"
        [board]
        name = "w"
        mcu = "x"
        clock_mhz = 16
        [[i2c]]
        bus = 0
        sda_pin = 1
        scl_pin = 2
        speed_khz = 400
        label = "bus0"
        [[i2c.device]]
        address = 0x00
        label = "general_call"
    "#;
    let diags = diagnose(raw_from(toml).unwrap());
    assert_eq!(diags.len(), 2, "{diags:?}");
    assert_eq!(diags[0].severity, Severity::Warning);
    assert_eq!(diags[0].code, "config-warning");
    assert!(diags[0].message.contains("reserved"));
    assert_eq!(diags[1].code, "i2c-no-poll-rate");
    assert!(!lint::has_errors(&diags));
}

#[test]
fn diagnose_reports_graph_errors() {
    let toml = r#"
        [board]
        name = "g"
        mcu = "x"
        clock_mhz = 16
        [[i2c]]
        bus = 0
        sda_pin = 1
        scl_pin = 2
        speed_khz = 400
        label = "bus0"
        [[i2c.device]]
        address = 0x10
        label = "imu"
        depends_on = "ghost"
    "#;
    let diags = diagnose(raw_from(toml).unwrap());
    assert_eq!(diags.len(), 1, "{diags:?}");
    assert_eq!(diags[0].severity, Severity::Error);
    assert!(diags[0].message.contains("ghost"));
}
