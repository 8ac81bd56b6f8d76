//! Snapshot tests: each valid fixture must produce exactly the expected C
//! output. These are intentionally strict.

use forge::codegen::{
    render_handlers_header, render_handlers_source, render_init_header, render_init_source,
    render_main,
};
use forge::config::parse::{RawBoard, RawConfig, RawGpio, RawI2c, RawI2cDevice, RawSpi, RawSpiDevice, RawUart};
use forge::config::validate;
use forge::graph;
use forge::model::Board;
use toml::{Table, Value};

/// Read a `board.toml` text into the raw document, as the CLI does.
fn raw_from(text: &str) -> Result<RawConfig, String> {
    let doc: Table = text.parse().map_err(|e: toml::de::Error| e.to_string())?;
    let board = doc
        .get("board")
        .and_then(Value::as_table)
        .ok_or_else(|| "missing field `board`".to_string())?;
    Ok(RawConfig {
        board: RawBoard {
            name: text_field(board, "name")?,
            mcu: text_field(board, "mcu")?,
            clock_mhz: int_field(board, "clock_mhz")?,
        },
        gpio: entries(&doc, "gpio")?
            .iter()
            .map(|t| {
                Ok(RawGpio {
                    pin: int_field(t, "pin")?,
                    mode: text_field(t, "mode")?,
                    label: text_field(t, "label")?,
                    interrupt: text_field(t, "interrupt")?,
                })
            })
            .collect::<Result<_, String>>()?,
        i2c: entries(&doc, "i2c")?
            .iter()
            .map(|t| {
                Ok(RawI2c {
                    bus: int_field(t, "bus")?,
                    sda_pin: int_field(t, "sda_pin")?,
                    scl_pin: int_field(t, "scl_pin")?,
                    speed_khz: int_field(t, "speed_khz")?,
                    label: text_field(t, "label")?,
                    devices: entries(t, "device")?
                        .iter()
                        .map(|d| {
                            Ok(RawI2cDevice {
                                address: int_field(d, "address")?,
                                label: text_field(d, "label")?,
                                depends_on: text_field(d, "depends_on")?,
                                power_pin: int_field(d, "power_pin")?,
                                poll_rate_hz: int_field(d, "poll_rate_hz")?,
                            })
                        })
                        .collect::<Result<_, String>>()?,
                })
            })
            .collect::<Result<_, String>>()?,
        spi: entries(&doc, "spi")?
            .iter()
            .map(|t| {
                Ok(RawSpi {
                    bus: int_field(t, "bus")?,
                    mosi_pin: int_field(t, "mosi_pin")?,
                    miso_pin: int_field(t, "miso_pin")?,
                    sck_pin: int_field(t, "sck_pin")?,
                    label: text_field(t, "label")?,
                    devices: entries(t, "device")?
                        .iter()
                        .map(|d| {
                            Ok(RawSpiDevice {
                                cs_pin: int_field(d, "cs_pin")?,
                                label: text_field(d, "label")?,
                                mode: int_field(d, "mode")?,
                                speed_mhz: int_field(d, "speed_mhz")?,
                                depends_on: text_field(d, "depends_on")?,
                                power_pin: int_field(d, "power_pin")?,
                            })
                        })
                        .collect::<Result<_, String>>()?,
                })
            })
            .collect::<Result<_, String>>()?,
        uart: entries(&doc, "uart")?
            .iter()
            .map(|t| {
                Ok(RawUart {
                    index: int_field(t, "index")?,
                    tx_pin: int_field(t, "tx_pin")?,
                    rx_pin: int_field(t, "rx_pin")?,
                    baud: int_field(t, "baud")?,
                    label: text_field(t, "label")?,
                })
            })
            .collect::<Result<_, String>>()?,
    })
}

fn text_field(t: &Table, key: &str) -> Result<Option<String>, String> {
    match t.get(key) {
        None => Ok(None),
        Some(v) => v
            .as_str()
            .map(|s| Some(s.to_string()))
            .ok_or_else(|| format!("invalid type for `{key}`, expected a string")),
    }
}

fn int_field(t: &Table, key: &str) -> Result<Option<u32>, String> {
    match t.get(key) {
        None => Ok(None),
        Some(v) => v
            .as_integer()
            .and_then(|i| u32::try_from(i).ok())
            .map(Some)
            .ok_or_else(|| format!("invalid value for `{key}`, expected u32")),
    }
}

fn entries<'a>(t: &'a Table, key: &str) -> Result<Vec<&'a Table>, String> {
    match t.get(key) {
        None => Ok(Vec::new()),
        Some(v) => v
            .as_array()
            .ok_or_else(|| format!("invalid type for `{key}`, expected a sequence"))?
            .iter()
            .map(|e| {
                e.as_table()
                    .ok_or_else(|| format!("invalid type in `{key}`, expected a table"))
            })
            .collect(),
    }
}

const VALID_BASIC: &str = r#"
[board]
name = "blinky"
mcu = "atmega328p"
clock_mhz = 16

[[gpio]]
pin = 13
mode = "output"
label = "led"
"#;

const VALID_FULL: &str = r#"
[board]
name = "full"
mcu = "esp32"
clock_mhz = 80

[[gpio]]
pin = 2
mode = "output"
label = "status_led"

[[gpio]]
pin = 4
mode = "input_pullup"
label = "button"
interrupt = "falling"

[[i2c]]
bus = 0
sda_pin = 21
scl_pin = 22
speed_khz = 400
label = "sensor_bus"

[[i2c.device]]
address = 0x68
label = "imu"

[[spi]]
bus = 1
mosi_pin = 23
miso_pin = 19
sck_pin = 18
label = "display_bus"

[[spi.device]]
cs_pin = 5
label = "oled"
mode = 0
speed_mhz = 10

[[uart]]
index = 1
tx_pin = 17
rx_pin = 16
baud = 115200
label = "debug_serial"
"#;

const VALID_DEPENDENCIES: &str = r#"
[board]
name = "sensor_hub"
mcu = "esp32"
clock_mhz = 160

[[gpio]]
pin = 12
mode = "output"
label = "imu_power"

[[gpio]]
pin = 5
mode = "output"
label = "cs_flash"

[[i2c]]
bus = 0
sda_pin = 21
scl_pin = 22
speed_khz = 400
label = "sensor_bus"

[[i2c.device]]
address = 0x70
label = "i2c_mux"

[[i2c.device]]
address = 0x68
label = "imu"
depends_on = "i2c_mux"
power_pin = 12

[[i2c.device]]
address = 0x76
label = "barometer"
depends_on = "i2c_mux"

[[spi]]
bus = 0
mosi_pin = 23
miso_pin = 19
sck_pin = 18
label = "flash_bus"

[[spi.device]]
cs_pin = 5
label = "flash"
mode = 0
speed_mhz = 10
"#;

/// Run the full pipeline on a fixture, returning the board and its init layers.
fn board_and_layers(toml: &str) -> (Board, Vec<Vec<String>>) {
    let raw = raw_from(toml).expect("valid TOML");
    let board = validate(raw).expect("valid config").board;
    let layers = graph::builder::build(&board)
        .expect("valid dependency graph")
        .layers()
        .expect("acyclic graph");
    (board, layers)
}

/// Lines joined with newlines, with a final newline.
fn lines(ls: &[&str]) -> String {
    let mut s = ls.join("\n");
    s.push('\n');
    s
}

const MAIN_C: &str = "#include \"init.h\"\n#include \"handlers.h\"\n\nint main(void) {\n    board_init();\n\n    while (1) {\n        /* TODO: Main loop */\n    }\n\n    return 0;\n}\n";

#[test]
fn basic_snapshot_matches() {
    let (board, layers) = board_and_layers(VALID_BASIC);
    assert_eq!(
        render_init_header(&board),
        lines(&[
            "#ifndef FORGE_INIT_H",
            "#define FORGE_INIT_H",
            "",
            "#include <stdint.h>",
            "",
            "/* GPIO */",
            "void gpio_init_led(void);",
            "",
            "/* Master init */",
            "void board_init(void);",
            "",
            "#endif /* FORGE_INIT_H */",
        ])
    );
    assert_eq!(
        render_init_source(&board, &layers),
        lines(&[
            "#include \"init.h\"",
            "#include \"handlers.h\"",
            "",
            "void gpio_init_led(void) {",
            "    /* Pin 13: led (output) */",
            "    GPIO_SET_MODE(13, GPIO_MODE_OUTPUT);",
            "}",
            "",
            "void board_init(void) {",
            "    /* === Initialization order resolved by dependency analysis === */",
            "",
            "    /* Layer 0: no dependencies */",
            "    gpio_init_led();  /* pin 13, output */",
            "}",
        ])
    );
    assert_eq!(
        render_handlers_header(&board),
        lines(&[
            "#ifndef FORGE_HANDLERS_H",
            "#define FORGE_HANDLERS_H",
            "",
            "#endif /* FORGE_HANDLERS_H */",
        ])
    );
    assert_eq!(render_handlers_source(&board), "#include \"handlers.h\"\n");
    assert_eq!(render_main(&board), MAIN_C);
}

#[test]
fn full_snapshot_matches() {
    let (board, layers) = board_and_layers(VALID_FULL);
    assert_eq!(
        render_init_header(&board),
        lines(&[
            "#ifndef FORGE_INIT_H",
            "#define FORGE_INIT_H",
            "",
            "#include <stdint.h>",
            "",
            "/* GPIO */",
            "void gpio_init_status_led(void);",
            "void gpio_init_button(void);",
            "",
            "/* I2C */",
            "void i2c_sensor_bus_init(void);",
            "void i2c_sensor_bus_write(uint8_t addr, uint8_t reg, uint8_t *data, uint16_t len);",
            "void i2c_sensor_bus_read(uint8_t addr, uint8_t reg, uint8_t *data, uint16_t len);",
            "void i2c_imu_init(void);",
            "",
            "/* SPI */",
            "void spi_display_bus_init(void);",
            "void spi_oled_init(void);",
            "void spi_oled_select(void);",
            "void spi_oled_deselect(void);",
            "void spi_display_bus_transfer(uint8_t *tx, uint8_t *rx, uint16_t len);",
            "",
            "/* UART */",
            "void uart_debug_serial_init(void);",
            "void uart_debug_serial_send(const uint8_t *data, uint16_t len);",
            "",
            "/* Master init */",
            "void board_init(void);",
            "",
            "#endif /* FORGE_INIT_H */",
        ])
    );
    assert_eq!(
        render_init_source(&board, &layers),
        lines(&[
            "#include \"init.h\"",
            "#include \"handlers.h\"",
            "",
            "void gpio_init_status_led(void) {",
            "    /* Pin 2: status_led (output) */",
            "    GPIO_SET_MODE(2, GPIO_MODE_OUTPUT);",
            "}",
            "",
            "void gpio_init_button(void) {",
            "    /* Pin 4: button (input, pull-up, interrupt on falling edge) */",
            "    GPIO_SET_MODE(4, GPIO_MODE_INPUT_PULLUP);",
            "    GPIO_ATTACH_INTERRUPT(4, GPIO_INTR_FALLING, button_isr);",
            "}",
            "",
            "void i2c_sensor_bus_init(void) {",
            "    /* I2C bus 0: SDA=21, SCL=22, 400 kHz */",
            "    /* Devices: imu @ 0x68 */",
            "    I2C_INIT(0, 21, 22, 400000);",
            "}",
            "",
            "void i2c_sensor_bus_write(uint8_t addr, uint8_t reg, uint8_t *data, uint16_t len) {",
            "    /* Write `len` bytes from `data` to register `reg` on device `addr` over I2C bus 0 */",
            "    I2C_WRITE(0, addr, reg, data, len);",
            "}",
            "",
            "void i2c_sensor_bus_read(uint8_t addr, uint8_t reg, uint8_t *data, uint16_t len) {",
            "    /* Read `len` bytes into `data` from register `reg` on device `addr` over I2C bus 0 */",
            "    I2C_READ(0, addr, reg, data, len);",
            "}",
            "",
            "void i2c_imu_init(void) {",
            "    /* TODO: Initialize imu (I2C device 0x68 on bus sensor_bus) */",
            "}",
            "",
            "void spi_display_bus_init(void) {",
            "    /* SPI bus 1: MOSI=23, MISO=19, SCK=18 */",
            "    SPI_INIT(1, 23, 19, 18);",
            "    /* Chip-select: oled on pin 5 (mode 0, 10 MHz) */",
            "    GPIO_SET_MODE(5, GPIO_MODE_OUTPUT);",
            "    SPI_CONFIG_CS(5, SPI_MODE_0, 10000000);",
            "}",
            "",
            "void spi_oled_init(void) {",
            "    /* TODO: Initialize oled (SPI device on bus display_bus, CS pin 5) */",
            "}",
            "",
            "void spi_oled_select(void) {",
            "    /* Pull CS low to select oled */",
            "    GPIO_WRITE(5, 0);",
            "}",
            "",
            "void spi_oled_deselect(void) {",
            "    /* Pull CS high to deselect oled */",
            "    GPIO_WRITE(5, 1);",
            "}",
            "",
            "void spi_display_bus_transfer(uint8_t *tx, uint8_t *rx, uint16_t len) {",
            "    /* Full-duplex transfer of `len` bytes on SPI bus 1 */",
            "    SPI_TRANSFER(1, tx, rx, len);",
            "}",
            "",
            "void uart_debug_serial_init(void) {",
            "    /* UART 1: TX=17, RX=16, 115200 baud */",
            "    UART_INIT(1, 17, 16, 115200);",
            "    UART_ATTACH_RX_INTERRUPT(1, uart_debug_serial_rx_isr);",
            "}",
            "",
            "void uart_debug_serial_send(const uint8_t *data, uint16_t len) {",
            "    /* Send `len` bytes over UART 1 */",
            "    UART_SEND(1, data, len);",
            "}",
            "",
            "void board_init(void) {",
            "    /* === Initialization order resolved by dependency analysis === */",
            "",
            "    /* Layer 0: no dependencies */",
            "    gpio_init_button();  /* pin 4, input, pull-up */",
            "    uart_debug_serial_init();  /* uart 1 */",
            "    spi_display_bus_init();  /* spi bus 1 */",
            "    i2c_sensor_bus_init();  /* i2c bus 0 */",
            "    gpio_init_status_led();  /* pin 2, output */",
            "",
            "    /* Layer 1: depends on Layer 0 */",
            "    i2c_imu_init();  /* i2c 0x68 */",
            "    spi_oled_init();  /* spi cs 5 */",
            "}",
        ])
    );
    assert_eq!(
        render_handlers_header(&board),
        lines(&[
            "#ifndef FORGE_HANDLERS_H",
            "#define FORGE_HANDLERS_H",
            "",
            "/* GPIO interrupt handlers */",
            "void button_isr(void);",
            "",
            "/* UART RX handlers */",
            "void uart_debug_serial_rx_isr(void);",
            "",
            "#endif /* FORGE_HANDLERS_H */",
        ])
    );
    assert_eq!(
        render_handlers_source(&board),
        lines(&[
            "#include \"handlers.h\"",
            "",
            "void button_isr(void) {",
            "    /* TODO: Handle falling edge on pin 4 (button) */",
            "}",
            "",
            "void uart_debug_serial_rx_isr(void) {",
            "    /* TODO: Handle incoming data on UART 1 (debug_serial) */",
            "}",
        ])
    );
    assert_eq!(render_main(&board), MAIN_C);
}

#[test]
fn dependencies_snapshot_matches() {
    let (board, layers) = board_and_layers(VALID_DEPENDENCIES);
    assert_eq!(
        render_init_source(&board, &layers),
        lines(&[
            "#include \"init.h\"",
            "#include \"handlers.h\"",
            "",
            "void gpio_init_imu_power(void) {",
            "    /* Pin 12: imu_power (output) */",
            "    GPIO_SET_MODE(12, GPIO_MODE_OUTPUT);",
            "}",
            "",
            "void gpio_init_cs_flash(void) {",
            "    /* Pin 5: cs_flash (output) */",
            "    GPIO_SET_MODE(5, GPIO_MODE_OUTPUT);",
            "}",
            "",
            "void i2c_sensor_bus_init(void) {",
            "    /* I2C bus 0: SDA=21, SCL=22, 400 kHz */",
            "    /* Devices: i2c_mux @ 0x70, imu @ 0x68, barometer @ 0x76 */",
            "    I2C_INIT(0, 21, 22, 400000);",
            "}",
            "",
            "void i2c_sensor_bus_write(uint8_t addr, uint8_t reg, uint8_t *data, uint16_t len) {",
            "    /* Write `len` bytes from `data` to register `reg` on device `addr` over I2C bus 0 */",
            "    I2C_WRITE(0, addr, reg, data, len);",
            "}",
            "",
            "void i2c_sensor_bus_read(uint8_t addr, uint8_t reg, uint8_t *data, uint16_t len) {",
            "    /* Read `len` bytes into `data` from register `reg` on device `addr` over I2C bus 0 */",
            "    I2C_READ(0, addr, reg, data, len);",
            "}",
            "",
            "void i2c_i2c_mux_init(void) {",
            "    /* TODO: Initialize i2c_mux (I2C device 0x70 on bus sensor_bus) */",
            "}",
            "",
            "void i2c_imu_init(void) {",
            "    /* TODO: Initialize imu (I2C device 0x68 on bus sensor_bus) */",
            "}",
            "",
            "void i2c_barometer_init(void) {",
            "    /* TODO: Initialize barometer (I2C device 0x76 on bus sensor_bus) */",
            "}",
            "",
            "void spi_flash_bus_init(void) {",
            "    /* SPI bus 0: MOSI=23, MISO=19, SCK=18 */",
            "    SPI_INIT(0, 23, 19, 18);",
            "    /* Chip-select: flash on pin 5 (mode 0, 10 MHz) */",
            "    GPIO_SET_MODE(5, GPIO_MODE_OUTPUT);",
            "    SPI_CONFIG_CS(5, SPI_MODE_0, 10000000);",
            "}",
            "",
            "void spi_flash_init(void) {",
            "    /* TODO: Initialize flash (SPI device on bus flash_bus, CS pin 5) */",
            "}",
            "",
            "void spi_flash_select(void) {",
            "    /* Pull CS low to select flash */",
            "    GPIO_WRITE(5, 0);",
            "}",
            "",
            "void spi_flash_deselect(void) {",
            "    /* Pull CS high to deselect flash */",
            "    GPIO_WRITE(5, 1);",
            "}",
            "",
            "void spi_flash_bus_transfer(uint8_t *tx, uint8_t *rx, uint16_t len) {",
            "    /* Full-duplex transfer of `len` bytes on SPI bus 0 */",
            "    SPI_TRANSFER(0, tx, rx, len);",
            "}",
            "",
            "void board_init(void) {",
            "    /* === Initialization order resolved by dependency analysis === */",
            "",
            "    /* Layer 0: no dependencies */",
            "    gpio_init_cs_flash();  /* pin 5, output */",
            "    spi_flash_bus_init();  /* spi bus 0 */",
            "    gpio_init_imu_power();  /* pin 12, output */",
            "    i2c_sensor_bus_init();  /* i2c bus 0 */",
            "",
            "    /* Layer 1: depends on Layer 0 */",
            "    spi_flash_init();  /* spi cs 5 */",
            "    i2c_i2c_mux_init();  /* i2c 0x70 */",
            "",
            "    /* Layer 2: depends on Layer 1 */",
            "    i2c_barometer_init();  /* i2c 0x76, depends_on \"i2c_mux\" */",
            "    GPIO_WRITE(12, HIGH);  /* Power on imu before init */",
            "    i2c_imu_init();  /* i2c 0x68, depends_on \"i2c_mux\" */",
            "}",
        ])
    );
    assert_eq!(
        render_init_header(&board),
        lines(&[
            "#ifndef FORGE_INIT_H",
            "#define FORGE_INIT_H",
            "",
            "#include <stdint.h>",
            "",
            "/* GPIO */",
            "void gpio_init_imu_power(void);",
            "void gpio_init_cs_flash(void);",
            "",
            "/* I2C */",
            "void i2c_sensor_bus_init(void);",
            "void i2c_sensor_bus_write(uint8_t addr, uint8_t reg, uint8_t *data, uint16_t len);",
            "void i2c_sensor_bus_read(uint8_t addr, uint8_t reg, uint8_t *data, uint16_t len);",
            "void i2c_i2c_mux_init(void);",
            "void i2c_imu_init(void);",
            "void i2c_barometer_init(void);",
            "",
            "/* SPI */",
            "void spi_flash_bus_init(void);",
            "void spi_flash_init(void);",
            "void spi_flash_select(void);",
            "void spi_flash_deselect(void);",
            "void spi_flash_bus_transfer(uint8_t *tx, uint8_t *rx, uint16_t len);",
            "",
            "/* Master init */",
            "void board_init(void);",
            "",
            "#endif /* FORGE_INIT_H */",
        ])
    );
}

#[test]
fn board_init_orders_dependencies_into_layers() {
    let (board, layers) = board_and_layers(VALID_DEPENDENCIES);
    let init_c = render_init_source(&board, &layers);

    // The mux's bus must be configured before the mux, which must come before
    // the sensors behind it. Check the emitted order reflects that.
    let pos = |needle: &str| init_c.find(needle).expect("call present");
    assert!(pos("i2c_sensor_bus_init();") < pos("i2c_i2c_mux_init();"));
    assert!(pos("i2c_i2c_mux_init();") < pos("i2c_imu_init();"));
    assert!(pos("i2c_i2c_mux_init();") < pos("i2c_barometer_init();"));
    // The power pin is driven HIGH before the device it powers.
    assert!(pos("GPIO_WRITE(12, HIGH);") < pos("i2c_imu_init();"));
    // The chip-select GPIO is configured before the SPI device that uses it.
    assert!(pos("gpio_init_cs_flash();") < pos("spi_flash_init();"));
}

#[test]
fn generated_headers_have_include_guards() {
    let (board, _) = board_and_layers(VALID_FULL);
    let init_h = render_init_header(&board);
    assert!(init_h.contains("#ifndef FORGE_INIT_H"));
    assert!(init_h.contains("#endif /* FORGE_INIT_H */"));
}

#[test]
fn unknown_labels_in_layers_are_skipped() {
    let (board, _) = board_and_layers(VALID_BASIC);
    let layers = vec![vec!["led".to_string(), "nobody".to_string()]];
    let init_c = render_init_source(&board, &layers);
    assert!(init_c.ends_with("    /* Layer 0: no dependencies */\n    gpio_init_led();  /* pin 13, output */\n}\n"));
    assert!(!init_c.contains("nobody"));
}

#[test]
fn every_spi_device_gets_an_init_stub() {
    let (board, _) = board_and_layers(VALID_DEPENDENCIES);
    let fns = forge::codegen::spi::impl_fns(&board.spi_buses);
    let starts = [
        "void spi_flash_bus_init(void) {",
        "void spi_flash_init(void) {",
        "void spi_flash_select(void) {",
        "void spi_flash_deselect(void) {",
        "void spi_flash_bus_transfer(",
    ];
    assert_eq!(fns.len(), starts.len());
    for (f, start) in fns.iter().zip(starts) {
        assert!(f.starts_with(start), "{f}");
    }
    assert!(fns[0].contains("SPI_CONFIG_CS(5, SPI_MODE_0, 10000000);"));
}

#[test]
fn clock_values_fit_only_within_u32_hertz() {
    let (board, _) = board_and_layers(VALID_FULL);
    assert!(forge::codegen::clocks_fit_check(&board));

    let mut fast_i2c = board.clone();
    fast_i2c.i2c_buses[0].speed_khz = 4_294_967;
    assert!(forge::codegen::clocks_fit_check(&fast_i2c));
    fast_i2c.i2c_buses[0].speed_khz = 4_294_968;
    assert!(!forge::codegen::clocks_fit_check(&fast_i2c));

    let mut fast_spi = board.clone();
    fast_spi.spi_buses[0].devices[0].speed_mhz = 4_294;
    assert!(forge::codegen::clocks_fit_check(&fast_spi));
    fast_spi.spi_buses[0].devices[0].speed_mhz = 4_295;
    assert!(!forge::codegen::clocks_fit_check(&fast_spi));
}
