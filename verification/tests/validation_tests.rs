//! Tests that invalid configs produce the right errors and valid configs pass.

use forge::config::validate;
use forge::config::parse::{RawBoard, RawConfig, RawGpio, RawI2c, RawI2cDevice, RawSpi, RawSpiDevice, RawUart};
use toml::{Table, Value};

/// Read a `board.toml` text into the raw document, as the CLI does.
fn raw_from(text: &str) -> Result<RawConfig, String> {
    let doc: Table = text.parse().map_err(|e: toml::de::Error| e.to_string())?;
    let board = doc
        .get("board")
        .and_then(Value::as_table)
        .ok_or_else(|| "missing field `board`".to_string())?;
    Ok(RawConfig {
        board: RawBoard {
            name: text_field(board, "name")?,
            mcu: text_field(board, "mcu")?,
            clock_mhz: int_field(board, "clock_mhz")?,
        },
        gpio: entries(&doc, "gpio")?
            .iter()
            .map(|t| {
                Ok(RawGpio {
                    pin: int_field(t, "pin")?,
                    mode: text_field(t, "mode")?,
                    label: text_field(t, "label")?,
                    interrupt: text_field(t, "interrupt")?,
                })
            })
            .collect::<Result<_, String>>()?,
        i2c: entries(&doc, "i2c")?
            .iter()
            .map(|t| {
                Ok(RawI2c {
                    bus: int_field(t, "bus")?,
                    sda_pin: int_field(t, "sda_pin")?,
                    scl_pin: int_field(t, "scl_pin")?,
                    speed_khz: int_field(t, "speed_khz")?,
                    label: text_field(t, "label")?,
                    devices: entries(t, "device")?
                        .iter()
                        .map(|d| {
                            Ok(RawI2cDevice {
                                address: int_field(d, "address")?,
                                label: text_field(d, "label")?,
                                depends_on: text_field(d, "depends_on")?,
                                power_pin: int_field(d, "power_pin")?,
                                poll_rate_hz: int_field(d, "poll_rate_hz")?,
                            })
                        })
                        .collect::<Result<_, String>>()?,
                })
            })
            .collect::<Result<_, String>>()?,
        spi: entries(&doc, "spi")?
            .iter()
            .map(|t| {
                Ok(RawSpi {
                    bus: int_field(t, "bus")?,
                    mosi_pin: int_field(t, "mosi_pin")?,
                    miso_pin: int_field(t, "miso_pin")?,
                    sck_pin: int_field(t, "sck_pin")?,
                    label: text_field(t, "label")?,
                    devices: entries(t, "device")?
                        .iter()
                        .map(|d| {
                            Ok(RawSpiDevice {
                                cs_pin: int_field(d, "cs_pin")?,
                                label: text_field(d, "label")?,
                                mode: int_field(d, "mode")?,
                                speed_mhz: int_field(d, "speed_mhz")?,
                                depends_on: text_field(d, "depends_on")?,
                                power_pin: int_field(d, "power_pin")?,
                            })
                        })
                        .collect::<Result<_, String>>()?,
                })
            })
            .collect::<Result<_, String>>()?,
        uart: entries(&doc, "uart")?
            .iter()
            .map(|t| {
                Ok(RawUart {
                    index: int_field(t, "index")?,
                    tx_pin: int_field(t, "tx_pin")?,
                    rx_pin: int_field(t, "rx_pin")?,
                    baud: int_field(t, "baud")?,
                    label: text_field(t, "label")?,
                })
            })
            .collect::<Result<_, String>>()?,
    })
}

fn text_field(t: &Table, key: &str) -> Result<Option<String>, String> {
    match t.get(key) {
        None => Ok(None),
        Some(v) => v
            .as_str()
            .map(|s| Some(s.to_string()))
            .ok_or_else(|| format!("invalid type for `{key}`, expected a string")),
    }
}

fn int_field(t: &Table, key: &str) -> Result<Option<u32>, String> {
    match t.get(key) {
        None => Ok(None),
        Some(v) => v
            .as_integer()
            .and_then(|i| u32::try_from(i).ok())
            .map(Some)
            .ok_or_else(|| format!("invalid value for `{key}`, expected u32")),
    }
}

fn entries<'a>(t: &'a Table, key: &str) -> Result<Vec<&'a Table>, String> {
    match t.get(key) {
        None => Ok(Vec::new()),
        Some(v) => v
            .as_array()
            .ok_or_else(|| format!("invalid type for `{key}`, expected a sequence"))?
            .iter()
            .map(|e| {
                e.as_table()
                    .ok_or_else(|| format!("invalid type in `{key}`, expected a table"))
            })
            .collect(),
    }
}

const VALID_BASIC: &str = r#"
[board]
name = "blinky"
mcu = "atmega328p"
clock_mhz = 16

[[gpio]]
pin = 13
mode = "output"
label = "led"
"#;

const VALID_FULL: &str = r#"
[board]
name = "full"
mcu = "esp32"
clock_mhz = 80

[[gpio]]
pin = 2
mode = "output"
label = "status_led"

[[gpio]]
pin = 4
mode = "input_pullup"
label = "button"
interrupt = "falling"

[[i2c]]
bus = 0
sda_pin = 21
scl_pin = 22
speed_khz = 400
label = "sensor_bus"

[[i2c.device]]
address = 0x68
label = "imu"

[[spi]]
bus = 1
mosi_pin = 23
miso_pin = 19
sck_pin = 18
label = "display_bus"

[[spi.device]]
cs_pin = 5
label = "oled"
mode = 0
speed_mhz = 10

[[uart]]
index = 1
tx_pin = 17
rx_pin = 16
baud = 115200
label = "debug_serial"
"#;

const VALID_DEPENDENCIES: &str = r#"
[board]
name = "sensor_hub"
mcu = "esp32"
clock_mhz = 160

[[gpio]]
pin = 12
mode = "output"
label = "imu_power"

[[gpio]]
pin = 5
mode = "output"
label = "cs_flash"

[[i2c]]
bus = 0
sda_pin = 21
scl_pin = 22
speed_khz = 400
label = "sensor_bus"

[[i2c.device]]
address = 0x70
label = "i2c_mux"

[[i2c.device]]
address = 0x68
label = "imu"
depends_on = "i2c_mux"
power_pin = 12

[[i2c.device]]
address = 0x76
label = "barometer"
depends_on = "i2c_mux"

[[spi]]
bus = 0
mosi_pin = 23
miso_pin = 19
sck_pin = 18
label = "flash_bus"

[[spi.device]]
cs_pin = 5
label = "flash"
mode = 0
speed_mhz = 10
"#;

const INVALID_PIN_CONFLICT: &str = r#"
[board]
name = "conflict"
mcu = "esp32"
clock_mhz = 80

[[gpio]]
pin = 21
mode = "output"
label = "status_led"

[[i2c]]
bus = 0
sda_pin = 21
scl_pin = 22
speed_khz = 400
label = "sensor_bus"
"#;

const INVALID_I2C_ADDR: &str = r#"
[board]
name = "addr"
mcu = "esp32"
clock_mhz = 80

[[i2c]]
bus = 0
sda_pin = 21
scl_pin = 22
speed_khz = 400
label = "sensor_bus"

[[i2c.device]]
address = 0x80
label = "too_far"
"#;

const INVALID_DUPLICATE_LABEL: &str = r#"
[board]
name = "dup"
mcu = "esp32"
clock_mhz = 80

[[gpio]]
pin = 1
mode = "output"
label = "led"

[[gpio]]
pin = 2
mode = "output"
label = "led"
"#;

/// Read + validate a TOML string, returning the collected error messages.
fn errors_for(toml: &str) -> Vec<String> {
    let raw = raw_from(toml).expect("fixture should be syntactically valid TOML");
    match validate(raw) {
        Ok(_) => Vec::new(),
        Err(errors) => errors.into_iter().map(|e| e.message).collect(),
    }
}

#[test]
fn pin_conflict_names_both_peripherals() {
    let errors = errors_for(INVALID_PIN_CONFLICT);
    assert_eq!(errors.len(), 1, "expected exactly one error: {errors:?}");
    let msg = &errors[0];
    assert!(msg.contains("Pin 21"), "should name the pin: {msg}");
    assert!(msg.contains("status_led"), "should name the gpio: {msg}");
    assert!(msg.contains("sensor_bus"), "should name the i2c bus: {msg}");
    assert!(
        msg.contains("SDA"),
        "should name the conflicting role: {msg}"
    );
}

#[test]
fn i2c_address_out_of_range_is_rejected() {
    let errors = errors_for(INVALID_I2C_ADDR);
    assert_eq!(errors.len(), 1, "expected exactly one error: {errors:?}");
    assert!(
        errors[0].contains("0x80"),
        "should name the address: {:?}",
        errors[0]
    );
    assert!(
        errors[0].to_lowercase().contains("out of range"),
        "should explain the range: {:?}",
        errors[0]
    );
}

#[test]
fn duplicate_label_is_rejected() {
    let errors = errors_for(INVALID_DUPLICATE_LABEL);
    assert_eq!(errors.len(), 1, "expected exactly one error: {errors:?}");
    assert!(
        errors[0].contains("'led'"),
        "should name the label: {:?}",
        errors[0]
    );
}

#[test]
fn valid_configs_pass() {
    assert!(errors_for(VALID_BASIC).is_empty());
    assert!(errors_for(VALID_FULL).is_empty());
}

#[test]
fn reserved_i2c_address_warns_but_passes() {
    let toml = r#"
        [board]
        name = "w"
        mcu = "x"
        clock_mhz = 8
        [[i2c]]
        bus = 0
        sda_pin = 1
        scl_pin = 2
        speed_khz = 100
        label = "b"
        [[i2c.device]]
        address = 0x03
        label = "d"
    "#;
    let raw = raw_from(toml).unwrap();
    let validated = validate(raw).expect("reserved address should still validate");
    assert_eq!(validated.warnings.len(), 1, "expected one warning");
    assert!(validated.warnings[0].contains("reserved"));
}

#[test]
fn missing_required_field_is_reported() {
    // I2C bus without sda_pin.
    let toml = r#"
        [board]
        name = "m"
        mcu = "x"
        clock_mhz = 8
        [[i2c]]
        bus = 0
        scl_pin = 2
        speed_khz = 100
        label = "b"
    "#;
    let errors = errors_for(toml);
    assert!(
        errors.iter().any(|e| e.contains("sda_pin")),
        "should report missing sda_pin: {errors:?}"
    );
}

#[test]
fn invalid_spi_mode_is_rejected() {
    let toml = r#"
        [board]
        name = "m"
        mcu = "x"
        clock_mhz = 8
        [[spi]]
        bus = 0
        mosi_pin = 1
        miso_pin = 2
        sck_pin = 3
        label = "disp"
        [[spi.device]]
        cs_pin = 4
        label = "oled"
        mode = 5
        speed_mhz = 1
    "#;
    let errors = errors_for(toml);
    assert!(
        errors
            .iter()
            .any(|e| e.contains("mode") && e.contains("0, 1, 2, or 3")),
        "should reject mode 5: {errors:?}"
    );
}

#[test]
fn invalid_gpio_interrupt_is_rejected() {
    let toml = r#"
        [board]
        name = "m"
        mcu = "x"
        clock_mhz = 8
        [[gpio]]
        pin = 1
        mode = "input"
        label = "btn"
        interrupt = "sideways"
    "#;
    let errors = errors_for(toml);
    assert!(
        errors
            .iter()
            .any(|e| e.contains("interrupt") && e.contains("sideways")),
        "should reject invalid interrupt edge: {errors:?}"
    );
}

#[test]
fn label_must_be_valid_c_identifier() {
    let toml = r#"
        [board]
        name = "m"
        mcu = "x"
        clock_mhz = 8
        [[gpio]]
        pin = 1
        mode = "output"
        label = "1bad"
    "#;
    let errors = errors_for(toml);
    assert!(
        errors.iter().any(|e| e.contains("valid C identifier")),
        "should reject label starting with a digit: {errors:?}"
    );
}

#[test]
fn all_errors_collected_not_just_the_first() {
    // Two independent problems: a bad GPIO mode and a duplicate label.
    let toml = r#"
        [board]
        name = "m"
        mcu = "x"
        clock_mhz = 8
        [[gpio]]
        pin = 1
        mode = "output"
        label = "dup"
        [[gpio]]
        pin = 2
        mode = "nonsense"
        label = "dup"
    "#;
    let errors = errors_for(toml);
    assert!(
        errors.len() >= 2,
        "expected multiple errors, got: {errors:?}"
    );
    assert!(errors.iter().any(|e| e.contains("invalid mode")));
    assert!(errors.iter().any(|e| e.contains("'dup'")));
}

#[test]
fn exact_messages_in_document_order() {
    // Each kind of problem, with the exact text and in the order checked.
    let toml = r#"
        [board]
        mcu = "x"
        clock_mhz = 0
        [[gpio]]
        mode = "output"
        [[gpio]]
        pin = 3
        mode = "sideways"
        label = ""
        [[i2c]]
        bus = 0
        sda_pin = 3
        scl_pin = 4
        speed_khz = 100
        label = "bus0"
        [[i2c.device]]
        address = 0x90
        label = "far"
        [[spi]]
        bus = 1
        mosi_pin = 5
        miso_pin = 6
        sck_pin = 7
        label = "far"
        [[spi.device]]
        cs_pin = 8
        label = "flash"
        speed_mhz = 1
        [[uart]]
        index = 2
        tx_pin = 9
        baud = 9600
        label = "9uart"
    "#;
    assert_eq!(
        errors_for(toml),
        vec![
            "[board] is missing required field 'name'",
            "gpio #1 is missing required field 'label'",
            "gpio #1 is missing required field 'pin'",
            "gpio '' has an empty label",
            "gpio '' has invalid mode 'sideways' (expected: input, output, input_pullup, input_pulldown)",
            "Pin 3 is claimed by both gpio #2 and i2c bus 'bus0' (SDA). Each pin can only be assigned to one peripheral.",
            "i2c device 'far' has address 0x90 out of range (must be a 7-bit address, 0x00-0x7F)",
            "Label 'far' is used by both i2c device (0x90 on i2c bus 'bus0') and spi bus 'far'. Labels must be unique because they become C identifiers.",
            "spi device 'flash' is missing required field 'mode'",
            "uart label '9uart' is not a valid C identifier (use letters, digits, and underscores; must not start with a digit)",
            "uart '9uart' is missing required field 'rx_pin'",
        ]
    );
}

#[test]
fn empty_label_and_unlabelled_devices_are_named_by_position() {
    let toml = r#"
        [board]
        name = "n"
        mcu = "x"
        clock_mhz = 8
        [[gpio]]
        pin = 1
        mode = "output"
        label = ""
        [[i2c]]
        sda_pin = 2
        scl_pin = 3
        speed_khz = 100
        label = "b"
        [[i2c.device]]
        address = 0x10
    "#;
    assert_eq!(
        errors_for(toml),
        vec![
            "gpio '' has an empty label",
            "i2c bus 'b' is missing required field 'bus'",
            "i2c device #1 on i2c bus 'b' is missing required field 'label'",
        ]
    );
}

#[test]
fn validated_board_mirrors_the_document() {
    let v = validate(raw_from(VALID_FULL).unwrap()).unwrap();
    let b = &v.board;
    assert_eq!(b.name, "full");
    assert_eq!(b.mcu, "esp32");
    assert_eq!(b.clock_mhz, 80);
    assert_eq!(b.gpios.len(), 2);
    assert_eq!(b.gpios[1].label, "button");
    assert_eq!(b.gpios[1].interrupt, Some(forge::model::InterruptEdge::Falling));
    assert_eq!(b.gpios[1].mode, forge::model::GpioMode::InputPullup);
    assert_eq!(b.i2c_buses[0].devices[0].address, 0x68);
    assert_eq!(b.spi_buses[0].devices[0].cs_pin, 5);
    assert_eq!(b.uarts[0].baud, 115200);
    assert!(v.warnings.is_empty());
}

#[test]
fn interrupt_none_means_no_interrupt() {
    let toml = r#"
        [board]
        name = "n"
        mcu = "x"
        clock_mhz = 8
        [[gpio]]
        pin = 1
        mode = "input"
        label = "btn"
        interrupt = "none"
    "#;
    let v = validate(raw_from(toml).unwrap()).unwrap();
    assert_eq!(v.board.gpios[0].interrupt, None);
}

#[test]
fn empty_board_and_zero_clock_warn() {
    let toml = r#"
        [board]
        name = "e"
        mcu = "x"
        clock_mhz = 0
    "#;
    let v = validate(raw_from(toml).unwrap()).unwrap();
    assert_eq!(
        v.warnings,
        vec![
            "[board].clock_mhz is 0; baud-rate timing in generated code may be wrong",
            "board defines no peripherals; generated files will be empty stubs",
        ]
    );
}

#[test]
fn reserved_address_warning_text() {
    let toml = r#"
        [board]
        name = "w"
        mcu = "x"
        clock_mhz = 8
        [[i2c]]
        bus = 0
        sda_pin = 1
        scl_pin = 2
        speed_khz = 100
        label = "b"
        [[i2c.device]]
        address = 0x78
        label = "d"
    "#;
    let v = validate(raw_from(toml).unwrap()).unwrap();
    assert_eq!(
        v.warnings,
        vec!["i2c device 'd' uses reserved address 0x78 (0x00-0x07 and 0x78-0x7F are reserved by the I2C spec)"]
    );
}

#[test]
fn validation_errors_render_as_a_numbered_block() {
    let errors = validate(raw_from(INVALID_DUPLICATE_LABEL).unwrap()).unwrap_err();
    assert_eq!(
        forge::error::render_validation(&errors),
        "configuration is invalid (1 error):\n  1. Label 'led' is used by both gpio (pin 1) and gpio (pin 2). Labels must be unique because they become C identifiers."
    );
}
