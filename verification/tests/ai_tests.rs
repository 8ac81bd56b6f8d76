//! Tests for the AI frontend's verification gate.
//!
//! These never touch the network: they exercise `verify` directly and feed
//! it the replies of the deterministic `MockProvider`. The point is to show
//! that bad model output is caught.

use forge::config::parse::{RawBoard, RawConfig, RawGpio, RawI2c, RawI2cDevice, RawSpi, RawSpiDevice, RawUart};
use forge::frontend::ai::prompt::{system_prompt, user_prompt};
use forge::frontend::ai::{extract_toml, verify, AiOutcome, AiRequest, MockProvider};
use toml::{Table, Value};

/// Read a `board.toml` text into the raw document, as the CLI does.
fn raw_from(text: &str) -> Result<RawConfig, String> {
    let doc: Table = text.parse().map_err(|e: toml::de::Error| e.to_string())?;
    let board = doc
        .get("board")
        .and_then(Value::as_table)
        .ok_or_else(|| "missing field `board`".to_string())?;
    Ok(RawConfig {
        board: RawBoard {
            name: text_field(board, "name")?,
            mcu: text_field(board, "mcu")?,
            clock_mhz: int_field(board, "clock_mhz")?,
        },
        gpio: entries(&doc, "gpio")?
            .iter()
            .map(|t| {
                Ok(RawGpio {
                    pin: int_field(t, "pin")?,
                    mode: text_field(t, "mode")?,
                    label: text_field(t, "label")?,
                    interrupt: text_field(t, "interrupt")?,
                })
            })
            .collect::<Result<_, String>>()?,
        i2c: entries(&doc, "i2c")?
            .iter()
            .map(|t| {
                Ok(RawI2c {
                    bus: int_field(t, "bus")?,
                    sda_pin: int_field(t, "sda_pin")?,
                    scl_pin: int_field(t, "scl_pin")?,
                    speed_khz: int_field(t, "speed_khz")?,
                    label: text_field(t, "label")?,
                    devices: entries(t, "device")?
                        .iter()
                        .map(|d| {
                            Ok(RawI2cDevice {
                                address: int_field(d, "address")?,
                                label: text_field(d, "label")?,
                                depends_on: text_field(d, "depends_on")?,
                                power_pin: int_field(d, "power_pin")?,
                                poll_rate_hz: int_field(d, "poll_rate_hz")?,
                            })
                        })
                        .collect::<Result<_, String>>()?,
                })
            })
            .collect::<Result<_, String>>()?,
        spi: entries(&doc, "spi")?
            .iter()
            .map(|t| {
                Ok(RawSpi {
                    bus: int_field(t, "bus")?,
                    mosi_pin: int_field(t, "mosi_pin")?,
                    miso_pin: int_field(t, "miso_pin")?,
                    sck_pin: int_field(t, "sck_pin")?,
                    label: text_field(t, "label")?,
                    devices: entries(t, "device")?
                        .iter()
                        .map(|d| {
                            Ok(RawSpiDevice {
                                cs_pin: int_field(d, "cs_pin")?,
                                label: text_field(d, "label")?,
                                mode: int_field(d, "mode")?,
                                speed_mhz: int_field(d, "speed_mhz")?,
                                depends_on: text_field(d, "depends_on")?,
                                power_pin: int_field(d, "power_pin")?,
                            })
                        })
                        .collect::<Result<_, String>>()?,
                })
            })
            .collect::<Result<_, String>>()?,
        uart: entries(&doc, "uart")?
            .iter()
            .map(|t| {
                Ok(RawUart {
                    index: int_field(t, "index")?,
                    tx_pin: int_field(t, "tx_pin")?,
                    rx_pin: int_field(t, "rx_pin")?,
                    baud: int_field(t, "baud")?,
                    label: text_field(t, "label")?,
                })
            })
            .collect::<Result<_, String>>()?,
    })
}

fn text_field(t: &Table, key: &str) -> Result<Option<String>, String> {
    match t.get(key) {
        None => Ok(None),
        Some(v) => v
            .as_str()
            .map(|s| Some(s.to_string()))
            .ok_or_else(|| format!("invalid type for `{key}`, expected a string")),
    }
}

fn int_field(t: &Table, key: &str) -> Result<Option<u32>, String> {
    match t.get(key) {
        None => Ok(None),
        Some(v) => v
            .as_integer()
            .and_then(|i| u32::try_from(i).ok())
            .map(Some)
            .ok_or_else(|| format!("invalid value for `{key}`, expected u32")),
    }
}

fn entries<'a>(t: &'a Table, key: &str) -> Result<Vec<&'a Table>, String> {
    match t.get(key) {
        None => Ok(Vec::new()),
        Some(v) => v
            .as_array()
            .ok_or_else(|| format!("invalid type for `{key}`, expected a sequence"))?
            .iter()
            .map(|e| {
                e.as_table()
                    .ok_or_else(|| format!("invalid type in `{key}`, expected a table"))
            })
            .collect(),
    }
}

const VALID: &str = r#"
[board]
name = "blink"
mcu = "esp32c6"
clock_mhz = 160

[[gpio]]
pin = 13
mode = "output"
label = "led"
"#;

/// Read the candidate as the CLI does, then run it through `verify`.
fn gate(candidate: String) -> AiOutcome {
    let parsed = raw_from(&candidate);
    verify(candidate, parsed)
}

/// What the CLI's synthesis does with a provider's reply: strip fences, then
/// run `verify`.
fn synthesize(provider: &MockProvider, request: &AiRequest) -> AiOutcome {
    let _prompts = (system_prompt(), user_prompt(request));
    let reply = provider.reply();
    let candidate = extract_toml(&reply);
    gate(candidate)
}

#[test]
fn gate_accepts_a_valid_candidate() {
    let outcome = gate(VALID.to_string());
    assert!(outcome.is_valid());
    assert!(outcome.board.is_some());
    assert!(outcome.errors.is_empty());
}

#[test]
fn gate_rejects_a_pin_conflict_from_the_model() {
    // The "model" put two peripherals on pin 21 — `verify` must catch it.
    let bad = r#"
        [board]
        name = "b"
        mcu = "x"
        clock_mhz = 8
        [[gpio]]
        pin = 21
        mode = "output"
        label = "led"
        [[i2c]]
        bus = 0
        sda_pin = 21
        scl_pin = 22
        speed_khz = 400
        label = "bus0"
    "#;
    let outcome = gate(bad.to_string());
    assert!(!outcome.is_valid());
    assert!(outcome.errors.iter().any(|e| e.message.contains("Pin 21")));
}

#[test]
fn gate_rejects_non_toml() {
    let outcome = gate("I'm a language model, not TOML!".to_string());
    assert!(!outcome.is_valid());
    assert!(outcome
        .errors
        .iter()
        .any(|e| e.message.contains("valid TOML")));
}

#[test]
fn synthesize_strips_markdown_fences() {
    let fenced = format!("Here you go:\n```toml\n{VALID}\n```");
    let provider = MockProvider::new(fenced);
    let req = AiRequest {
        intent: "a blinky board".to_string(),
        datasheet: None,
    };
    let outcome = synthesize(&provider, &req);
    assert!(outcome.is_valid(), "errors: {:?}", outcome.errors);
    assert!(!outcome.candidate_toml.contains("```"));
    assert!(outcome.candidate_toml.contains("[board]"));
}

#[test]
fn gate_reports_the_reader_error_verbatim() {
    let outcome = verify("x".to_string(), Err("expected `=`".to_string()));
    assert_eq!(outcome.candidate_toml, "x");
    assert!(outcome.board.is_none());
    assert_eq!(outcome.errors.len(), 1);
    assert_eq!(
        outcome.errors[0].message,
        "the model did not produce valid TOML: expected `=`"
    );
    assert!(outcome.diagnostics.is_empty());
}

#[test]
fn gate_rejects_a_dependency_cycle() {
    let cyclic = r#"
        [board]
        name = "c"
        mcu = "x"
        clock_mhz = 8
        [[i2c]]
        bus = 0
        sda_pin = 1
        scl_pin = 2
        speed_khz = 100
        label = "bus0"
        [[i2c.device]]
        address = 0x10
        label = "alpha"
        depends_on = "beta"
        [[i2c.device]]
        address = 0x11
        label = "beta"
        depends_on = "alpha"
    "#;
    let outcome = gate(cyclic.to_string());
    assert!(!outcome.is_valid());
    assert_eq!(outcome.errors.len(), 1);
    assert!(outcome.errors[0].message.starts_with("Circular dependency detected"));
}

#[test]
fn gate_attaches_review_diagnostics() {
    let busy = r#"
        [board]
        name = "busy"
        mcu = "x"
        clock_mhz = 16
        [[spi]]
        bus = 0
        mosi_pin = 23
        miso_pin = 19
        sck_pin = 18
        label = "bus0"
        [[spi.device]]
        cs_pin = 5
        label = "oled"
        mode = 0
        speed_mhz = 10
    "#;
    let outcome = gate(busy.to_string());
    assert!(outcome.is_valid());
    assert_eq!(outcome.diagnostics.len(), 1);
    assert_eq!(outcome.diagnostics[0].code, "spi-clock-mismatch");
}

#[test]
fn fences_are_stripped_exactly() {
    assert_eq!(extract_toml("  a = 1  \n"), "a = 1");
    assert_eq!(extract_toml("```toml\na = 1\n```"), "a = 1");
    assert_eq!(extract_toml("intro ```\n b = 2 \n``` outro"), "b = 2");
    assert_eq!(extract_toml("```toml\nc = 3\n"), "c = 3");
    assert_eq!(extract_toml("```"), "");
    assert_eq!(extract_toml(""), "");
}

#[test]
fn prompts_carry_the_request() {
    let req = AiRequest {
        intent: "a weather station".to_string(),
        datasheet: Some("BME280: 0x76".to_string()),
    };
    assert_eq!(
        user_prompt(&req),
        "Request: a weather station\n\nRelevant datasheet excerpt:\nBME280: 0x76\n\nOutput the board.toml now."
    );
    let bare = AiRequest {
        intent: "blink".to_string(),
        datasheet: None,
    };
    assert_eq!(user_prompt(&bare), "Request: blink\n\nOutput the board.toml now.");
    let sys = system_prompt();
    assert!(sys.starts_with("You are Forge's hardware-config synthesizer."));
    assert!(sys.ends_with("- Prefer realistic pins and addresses for the named MCU when you know them.\n"));
}

#[test]
fn mock_provider_replies_with_its_response() {
    let provider = MockProvider::new("canned".to_string());
    assert_eq!(provider.reply(), "canned");
    assert_eq!(provider.reply(), "canned");
}
