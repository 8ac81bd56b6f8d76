//! Tests for the backend abstraction and the C backend.

use forge::backend::{self, Backend, InitPlan};
use forge::config::parse::{RawBoard, RawConfig, RawGpio, RawI2c, RawI2cDevice, RawSpi, RawSpiDevice, RawUart};
use forge::config::validate;
use forge::graph;
use forge::model::Board;
use toml::{Table, Value};

/// Read a `board.toml` text into the raw document, as the CLI does.
fn raw_from(text: &str) -> Result<RawConfig, String> {
    let doc: Table = text.parse().map_err(|e: toml::de::Error| e.to_string())?;
    let board = doc
        .get("board")
        .and_then(Value::as_table)
        .ok_or_else(|| "missing field `board`".to_string())?;
    Ok(RawConfig {
        board: RawBoard {
            name: text_field(board, "name")?,
            mcu: text_field(board, "mcu")?,
            clock_mhz: int_field(board, "clock_mhz")?,
        },
        gpio: entries(&doc, "gpio")?
            .iter()
            .map(|t| {
                Ok(RawGpio {
                    pin: int_field(t, "pin")?,
                    mode: text_field(t, "mode")?,
                    label: text_field(t, "label")?,
                    interrupt: text_field(t, "interrupt")?,
                })
            })
            .collect::<Result<_, String>>()?,
        i2c: entries(&doc, "i2c")?
            .iter()
            .map(|t| {
                Ok(RawI2c {
                    bus: int_field(t, "bus")?,
                    sda_pin: int_field(t, "sda_pin")?,
                    scl_pin: int_field(t, "scl_pin")?,
                    speed_khz: int_field(t, "speed_khz")?,
                    label: text_field(t, "label")?,
                    devices: entries(t, "device")?
                        .iter()
                        .map(|d| {
                            Ok(RawI2cDevice {
                                address: int_field(d, "address")?,
                                label: text_field(d, "label")?,
                                depends_on: text_field(d, "depends_on")?,
                                power_pin: int_field(d, "power_pin")?,
                                poll_rate_hz: int_field(d, "poll_rate_hz")?,
                            })
                        })
                        .collect::<Result<_, String>>()?,
                })
            })
            .collect::<Result<_, String>>()?,
        spi: entries(&doc, "spi")?
            .iter()
            .map(|t| {
                Ok(RawSpi {
                    bus: int_field(t, "bus")?,
                    mosi_pin: int_field(t, "mosi_pin")?,
                    miso_pin: int_field(t, "miso_pin")?,
                    sck_pin: int_field(t, "sck_pin")?,
                    label: text_field(t, "label")?,
                    devices: entries(t, "device")?
                        .iter()
                        .map(|d| {
                            Ok(RawSpiDevice {
                                cs_pin: int_field(d, "cs_pin")?,
                                label: text_field(d, "label")?,
                                mode: int_field(d, "mode")?,
                                speed_mhz: int_field(d, "speed_mhz")?,
                                depends_on: text_field(d, "depends_on")?,
                                power_pin: int_field(d, "power_pin")?,
                            })
                        })
                        .collect::<Result<_, String>>()?,
                })
            })
            .collect::<Result<_, String>>()?,
        uart: entries(&doc, "uart")?
            .iter()
            .map(|t| {
                Ok(RawUart {
                    index: int_field(t, "index")?,
                    tx_pin: int_field(t, "tx_pin")?,
                    rx_pin: int_field(t, "rx_pin")?,
                    baud: int_field(t, "baud")?,
                    label: text_field(t, "label")?,
                })
            })
            .collect::<Result<_, String>>()?,
    })
}

fn text_field(t: &Table, key: &str) -> Result<Option<String>, String> {
    match t.get(key) {
        None => Ok(None),
        Some(v) => v
            .as_str()
            .map(|s| Some(s.to_string()))
            .ok_or_else(|| format!("invalid type for `{key}`, expected a string")),
    }
}

fn int_field(t: &Table, key: &str) -> Result<Option<u32>, String> {
    match t.get(key) {
        None => Ok(None),
        Some(v) => v
            .as_integer()
            .and_then(|i| u32::try_from(i).ok())
            .map(Some)
            .ok_or_else(|| format!("invalid value for `{key}`, expected u32")),
    }
}

fn entries<'a>(t: &'a Table, key: &str) -> Result<Vec<&'a Table>, String> {
    match t.get(key) {
        None => Ok(Vec::new()),
        Some(v) => v
            .as_array()
            .ok_or_else(|| format!("invalid type for `{key}`, expected a sequence"))?
            .iter()
            .map(|e| {
                e.as_table()
                    .ok_or_else(|| format!("invalid type in `{key}`, expected a table"))
            })
            .collect(),
    }
}

const VALID_DEPENDENCIES: &str = r#"
[board]
name = "sensor_hub"
mcu = "esp32"
clock_mhz = 160

[[gpio]]
pin = 12
mode = "output"
label = "imu_power"

[[gpio]]
pin = 5
mode = "output"
label = "cs_flash"

[[i2c]]
bus = 0
sda_pin = 21
scl_pin = 22
speed_khz = 400
label = "sensor_bus"

[[i2c.device]]
address = 0x70
label = "i2c_mux"

[[i2c.device]]
address = 0x68
label = "imu"
depends_on = "i2c_mux"
power_pin = 12

[[i2c.device]]
address = 0x76
label = "barometer"
depends_on = "i2c_mux"

[[spi]]
bus = 0
mosi_pin = 23
miso_pin = 19
sck_pin = 18
label = "flash_bus"

[[spi.device]]
cs_pin = 5
label = "flash"
mode = 0
speed_mhz = 10
"#;

fn board_and_plan(toml: &str) -> (Board, InitPlan) {
    let board = validate(raw_from(toml).unwrap()).unwrap().board;
    let layers = graph::builder::build(&board).unwrap().layers().unwrap();
    (board, InitPlan { layers })
}

#[test]
fn by_id_resolves_known_backends_only() {
    assert!(backend::by_id("c").is_some());
    assert!(backend::by_id("zephyr").is_some());
    assert!(backend::by_id("nonexistent").is_none());
}

#[test]
fn c_backend_emits_the_five_files() {
    let (board, plan) = board_and_plan(VALID_DEPENDENCIES);
    let files = backend::c::CBackend.render(&board, &plan);
    let names: Vec<String> = files.iter().map(|f| f.path.clone()).collect();
    assert_eq!(
        names,
        vec!["init.h", "init.c", "handlers.h", "handlers.c", "main.c"]
    );
    assert_eq!(files[1].contents, forge::codegen::render_init_source(&board, &plan.layers));
    assert_eq!(files[4].contents, forge::codegen::render_main(&board));
}

#[test]
fn c_backend_describes_itself() {
    let c = backend::by_id("c").unwrap();
    assert_eq!(c.id(), "c");
    assert_eq!(c.description(), "Portable C scaffolding with placeholder HAL macros");
}

#[test]
fn zephyr_backend_describes_itself() {
    let z = backend::by_id("zephyr").unwrap();
    assert_eq!(z.id(), "zephyr");
    assert_eq!(z.description(), "Zephyr RTOS devicetree overlay and prj.conf");
}

#[test]
fn backend_arguments_resolve() {
    assert_eq!(
        backend::resolve_backends("all"),
        Ok(vec!["c".to_string(), "zephyr".to_string()])
    );
    assert_eq!(backend::resolve_backends("c"), Ok(vec!["c".to_string()]));
    assert_eq!(
        backend::resolve_backends(" c , zephyr"),
        Ok(vec!["c".to_string(), "zephyr".to_string()])
    );
    assert_eq!(
        backend::resolve_backends("rust"),
        Err("unknown backend 'rust' (choose from: c, zephyr, or 'all')".to_string())
    );
    assert_eq!(
        backend::resolve_backends("c, zephyr ,x"),
        Err("unknown backend 'x' (choose from: c, zephyr, or 'all')".to_string())
    );
    assert_eq!(
        backend::resolve_backends(""),
        Err("unknown backend '' (choose from: c, zephyr, or 'all')".to_string())
    );
    assert_eq!(backend::BACKEND_IDS, ["c", "zephyr"]);
    assert!(backend::by_id("C").is_none());
    assert_eq!(backend::by_id("zephyr").unwrap().id(), "zephyr");
    assert_eq!(backend::by_id("c").unwrap().id(), "c");
}

#[test]
fn zephyr_backend_emits_overlay_and_prjconf() {
    let (board, plan) = board_and_plan(VALID_DEPENDENCIES);
    let files = backend::zephyr::ZephyrBackend.render(&board, &plan);

    let overlay = files
        .iter()
        .find(|f| f.path.ends_with(".overlay"))
        .expect("an overlay file");
    // Bus node, device address, chip-select, and clock all show up.
    assert!(overlay.contents.contains("&i2c0"));
    assert!(overlay.contents.contains("reg = <0x70>"), "mux address");
    assert!(overlay.contents.contains("clock-frequency = <400000>"));
    assert!(overlay.contents.contains("cs-gpios"));

    let prj = files
        .iter()
        .find(|f| f.path == "prj.conf")
        .expect("a prj.conf");
    assert!(prj.contents.contains("CONFIG_I2C=y"));
    assert!(prj.contents.contains("CONFIG_SPI=y"));
}

#[test]
fn zephyr_prjconf_only_enables_used_subsystems() {
    // A GPIO-only board should not pull in I2C/SPI/UART.
    let toml = r#"
        [board]
        name = "blink"
        mcu = "x"
        clock_mhz = 8
        [[gpio]]
        pin = 1
        mode = "output"
        label = "led"
    "#;
    let (board, plan) = board_and_plan(toml);
    let files = backend::zephyr::ZephyrBackend.render(&board, &plan);
    let prj = &files
        .iter()
        .find(|f| f.path == "prj.conf")
        .unwrap()
        .contents;
    assert!(prj.contains("CONFIG_GPIO=y"));
    assert!(!prj.contains("CONFIG_I2C"));
    assert!(!prj.contains("CONFIG_SPI"));
    assert!(!prj.contains("CONFIG_SERIAL"));
}

#[test]
fn zephyr_files_are_exact() {
    let (board, plan) = board_and_plan(VALID_DEPENDENCIES);
    let files = backend::by_id("zephyr").unwrap().render(&board, &plan);
    assert_eq!(files.len(), 2);
    assert_eq!(files[0].path, "sensor_hub.overlay");
    assert_eq!(
        files[0].contents,
        [
            "/* Devicetree overlay for board 'sensor_hub' (esp32). */",
            "",
            "&i2c0 {",
            "    status = \"okay\";",
            "    clock-frequency = <400000>;",
            "",
            "    i2c_mux: i2c_mux@70 {",
            "        reg = <0x70>;",
            "    };",
            "",
            "    imu: imu@68 {",
            "        reg = <0x68>;",
            "    };",
            "",
            "    barometer: barometer@76 {",
            "        reg = <0x76>;",
            "    };",
            "};",
            "",
            "&spi0 {",
            "    status = \"okay\";",
            "    cs-gpios = <&gpio0 5 GPIO_ACTIVE_LOW>;",
            "",
            "    flash: flash@0 {",
            "        reg = <0>;",
            "        spi-max-frequency = <10000000>;",
            "    };",
            "};",
            "",
        ]
        .join("\n")
    );
    assert_eq!(files[1].path, "prj.conf");
    assert_eq!(
        files[1].contents,
        "# Zephyr configuration for board 'sensor_hub'\nCONFIG_GPIO=y\nCONFIG_I2C=y\nCONFIG_SPI=y\n"
    );
}

#[test]
fn zephyr_overlay_covers_uarts_and_small_addresses() {
    let toml = r#"
        [board]
        name = "u"
        mcu = "x"
        clock_mhz = 8
        [[i2c]]
        bus = 1
        sda_pin = 1
        scl_pin = 2
        speed_khz = 100
        label = "b1"
        [[i2c.device]]
        address = 0x0c
        label = "mag"
        [[uart]]
        index = 2
        tx_pin = 3
        rx_pin = 4
        baud = 9600
        label = "gps"
    "#;
    let (board, plan) = board_and_plan(toml);
    let files = backend::zephyr::ZephyrBackend.render(&board, &plan);
    assert!(files[0].contents.contains("    mag: mag@c {\n        reg = <0x0c>;\n    };\n"));
    assert!(files[0].contents.ends_with("&uart2 {\n    status = \"okay\";\n    current-speed = <9600>;\n};\n"));
    assert_eq!(files[1].contents, "# Zephyr configuration for board 'u'\nCONFIG_I2C=y\nCONFIG_SERIAL=y\n");
}

#[test]
fn generated_file_keeps_its_parts() {
    let f = backend::GeneratedFile::new("sub/dir.c", "int x;".to_string());
    assert_eq!(f.path, "sub/dir.c");
    assert_eq!(f.contents, "int x;");
}
