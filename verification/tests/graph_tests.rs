//! Tests for the dependency graph: topological sort, layering, cycle
//! detection, and the builder's implicit/explicit edge inference.

use forge::config::parse::{RawBoard, RawConfig, RawGpio, RawI2c, RawI2cDevice, RawSpi, RawSpiDevice, RawUart};
use forge::config::validate;
use forge::graph::{self, DepGraph};
use forge::graph::builder::build;
use forge::graph::dot::to_dot;
use forge::graph::topo;
use forge::model::Board;
use toml::{Table, Value};

/// Read a `board.toml` text into the raw document, as the CLI does.
fn raw_from(text: &str) -> Result<RawConfig, String> {
    let doc: Table = text.parse().map_err(|e: toml::de::Error| e.to_string())?;
    let board = doc
        .get("board")
        .and_then(Value::as_table)
        .ok_or_else(|| "missing field `board`".to_string())?;
    Ok(RawConfig {
        board: RawBoard {
            name: text_field(board, "name")?,
            mcu: text_field(board, "mcu")?,
            clock_mhz: int_field(board, "clock_mhz")?,
        },
        gpio: entries(&doc, "gpio")?
            .iter()
            .map(|t| {
                Ok(RawGpio {
                    pin: int_field(t, "pin")?,
                    mode: text_field(t, "mode")?,
                    label: text_field(t, "label")?,
                    interrupt: text_field(t, "interrupt")?,
                })
            })
            .collect::<Result<_, String>>()?,
        i2c: entries(&doc, "i2c")?
            .iter()
            .map(|t| {
                Ok(RawI2c {
                    bus: int_field(t, "bus")?,
                    sda_pin: int_field(t, "sda_pin")?,
                    scl_pin: int_field(t, "scl_pin")?,
                    speed_khz: int_field(t, "speed_khz")?,
                    label: text_field(t, "label")?,
                    devices: entries(t, "device")?
                        .iter()
                        .map(|d| {
                            Ok(RawI2cDevice {
                                address: int_field(d, "address")?,
                                label: text_field(d, "label")?,
                                depends_on: text_field(d, "depends_on")?,
                                power_pin: int_field(d, "power_pin")?,
                                poll_rate_hz: int_field(d, "poll_rate_hz")?,
                            })
                        })
                        .collect::<Result<_, String>>()?,
                })
            })
            .collect::<Result<_, String>>()?,
        spi: entries(&doc, "spi")?
            .iter()
            .map(|t| {
                Ok(RawSpi {
                    bus: int_field(t, "bus")?,
                    mosi_pin: int_field(t, "mosi_pin")?,
                    miso_pin: int_field(t, "miso_pin")?,
                    sck_pin: int_field(t, "sck_pin")?,
                    label: text_field(t, "label")?,
                    devices: entries(t, "device")?
                        .iter()
                        .map(|d| {
                            Ok(RawSpiDevice {
                                cs_pin: int_field(d, "cs_pin")?,
                                label: text_field(d, "label")?,
                                mode: int_field(d, "mode")?,
                                speed_mhz: int_field(d, "speed_mhz")?,
                                depends_on: text_field(d, "depends_on")?,
                                power_pin: int_field(d, "power_pin")?,
                            })
                        })
                        .collect::<Result<_, String>>()?,
                })
            })
            .collect::<Result<_, String>>()?,
        uart: entries(&doc, "uart")?
            .iter()
            .map(|t| {
                Ok(RawUart {
                    index: int_field(t, "index")?,
                    tx_pin: int_field(t, "tx_pin")?,
                    rx_pin: int_field(t, "rx_pin")?,
                    baud: int_field(t, "baud")?,
                    label: text_field(t, "label")?,
                })
            })
            .collect::<Result<_, String>>()?,
    })
}

fn text_field(t: &Table, key: &str) -> Result<Option<String>, String> {
    match t.get(key) {
        None => Ok(None),
        Some(v) => v
            .as_str()
            .map(|s| Some(s.to_string()))
            .ok_or_else(|| format!("invalid type for `{key}`, expected a string")),
    }
}

fn int_field(t: &Table, key: &str) -> Result<Option<u32>, String> {
    match t.get(key) {
        None => Ok(None),
        Some(v) => v
            .as_integer()
            .and_then(|i| u32::try_from(i).ok())
            .map(Some)
            .ok_or_else(|| format!("invalid value for `{key}`, expected u32")),
    }
}

fn entries<'a>(t: &'a Table, key: &str) -> Result<Vec<&'a Table>, String> {
    match t.get(key) {
        None => Ok(Vec::new()),
        Some(v) => v
            .as_array()
            .ok_or_else(|| format!("invalid type for `{key}`, expected a sequence"))?
            .iter()
            .map(|e| {
                e.as_table()
                    .ok_or_else(|| format!("invalid type in `{key}`, expected a table"))
            })
            .collect(),
    }
}

const VALID_DEPENDENCIES: &str = r#"
[board]
name = "sensor_hub"
mcu = "esp32"
clock_mhz = 160

[[gpio]]
pin = 12
mode = "output"
label = "imu_power"

[[gpio]]
pin = 5
mode = "output"
label = "cs_flash"

[[i2c]]
bus = 0
sda_pin = 21
scl_pin = 22
speed_khz = 400
label = "sensor_bus"

[[i2c.device]]
address = 0x70
label = "i2c_mux"

[[i2c.device]]
address = 0x68
label = "imu"
depends_on = "i2c_mux"
power_pin = 12

[[i2c.device]]
address = 0x76
label = "barometer"
depends_on = "i2c_mux"

[[spi]]
bus = 0
mosi_pin = 23
miso_pin = 19
sck_pin = 18
label = "flash_bus"

[[spi.device]]
cs_pin = 5
label = "flash"
mode = 0
speed_mhz = 10
"#;

const INVALID_CYCLE: &str = r#"
[board]
name = "cyclic"
mcu = "x"
clock_mhz = 8

[[i2c]]
bus = 0
sda_pin = 1
scl_pin = 2
speed_khz = 100
label = "bus0"

[[i2c.device]]
address = 0x10
label = "alpha"
depends_on = "beta"

[[i2c.device]]
address = 0x11
label = "beta"
depends_on = "alpha"
"#;

fn board_of(toml: &str) -> Board {
    let raw = raw_from(toml).expect("valid TOML");
    validate(raw).expect("valid config").board
}

/// Build a dependency graph straight from a TOML fixture.
fn graph_from(toml: &str) -> Result<DepGraph, Vec<String>> {
    let board = board_of(toml);
    graph::builder::build(&board).map_err(|errs| errs.into_iter().map(|e| e.message).collect())
}

#[test]
fn linear_chain_sorts_dependencies_first() {
    // a depends on b depends on c  =>  c, b, a.
    let mut g = DepGraph::new();
    g.add_edge("a", "b");
    g.add_edge("b", "c");
    assert_eq!(g.topological_sort().unwrap(), vec!["c", "b", "a"]);
}

#[test]
fn diamond_layers_correctly() {
    // a depends on b and c; both depend on d.
    let mut g = DepGraph::new();
    g.add_edge("a", "b");
    g.add_edge("a", "c");
    g.add_edge("b", "d");
    g.add_edge("c", "d");

    let layers = g.layers().unwrap();
    assert_eq!(layers, vec![vec!["d"], vec!["b", "c"], vec!["a"]]);
    assert_eq!(g.depth_of("d"), 0);
    assert_eq!(g.depth_of("a"), 2);

    // d must come first and a last in any valid linearization.
    let order = g.topological_sort().unwrap();
    assert_eq!(order.first().unwrap(), "d");
    assert_eq!(order.last().unwrap(), "a");
}

#[test]
fn cycle_is_detected_with_path() {
    // a depends on b, b depends on a.
    let mut g = DepGraph::new();
    g.add_edge("a", "b");
    g.add_edge("b", "a");

    let cycle = g.detect_cycle().expect_err("should find a cycle");
    // Path starts and ends at the same node and visits both members.
    assert_eq!(cycle.first(), cycle.last());
    assert!(cycle.contains(&"a".to_string()));
    assert!(cycle.contains(&"b".to_string()));
    assert!(g.topological_sort().is_err());
}

#[test]
fn independent_nodes_sort_alphabetically() {
    let mut g = DepGraph::new();
    for label in ["echo", "alpha", "delta", "bravo", "charlie"] {
        g.add_node(label);
    }
    assert_eq!(
        g.topological_sort().unwrap(),
        vec!["alpha", "bravo", "charlie", "delta", "echo"]
    );
    // All independent => a single layer.
    assert_eq!(g.layers().unwrap().len(), 1);
}

#[test]
fn power_pin_creates_dependency_on_gpio() {
    let toml = r#"
        [board]
        name = "p"
        mcu = "x"
        clock_mhz = 8
        [[gpio]]
        pin = 12
        mode = "output"
        label = "sensor_power"
        [[i2c]]
        bus = 0
        sda_pin = 1
        scl_pin = 2
        speed_khz = 100
        label = "bus0"
        [[i2c.device]]
        address = 0x10
        label = "imu"
        power_pin = 12
    "#;
    let g = graph_from(toml).expect("valid graph");
    let deps: Vec<String> = g.dependencies("imu");
    assert!(deps.contains(&"sensor_power".to_string()), "deps: {deps:?}");
    assert!(deps.contains(&"bus0".to_string()));
}

#[test]
fn spi_cs_pin_creates_implicit_dependency() {
    let toml = r#"
        [board]
        name = "s"
        mcu = "x"
        clock_mhz = 8
        [[gpio]]
        pin = 5
        mode = "output"
        label = "cs_flash"
        [[spi]]
        bus = 0
        mosi_pin = 23
        miso_pin = 19
        sck_pin = 18
        label = "bus0"
        [[spi.device]]
        cs_pin = 5
        label = "flash"
        mode = 0
        speed_mhz = 1
    "#;
    let g = graph_from(toml).expect("valid graph");
    let deps: Vec<String> = g.dependencies("flash");
    assert!(deps.contains(&"cs_flash".to_string()), "deps: {deps:?}");
}

#[test]
fn missing_depends_on_target_is_an_error() {
    let toml = r#"
        [board]
        name = "m"
        mcu = "x"
        clock_mhz = 8
        [[i2c]]
        bus = 0
        sda_pin = 1
        scl_pin = 2
        speed_khz = 100
        label = "bus0"
        [[i2c.device]]
        address = 0x10
        label = "thing"
        depends_on = "ghost"
    "#;
    let errors = graph_from(toml).expect_err("should fail");
    assert!(
        errors.iter().any(|e| e.contains("ghost")),
        "errors: {errors:?}"
    );
}

#[test]
fn cycle_via_depends_on_is_reported() {
    let errors = graph_from(INVALID_CYCLE).expect_err("cyclic");
    assert!(
        errors.iter().any(|e| e.contains("Circular dependency")),
        "errors: {errors:?}"
    );
}

#[test]
fn valid_dependencies_fixture_builds() {
    let g = graph_from(VALID_DEPENDENCIES).expect("valid");
    // imu depends (transitively) on the mux; check the direct edge from imu.
    let deps: Vec<String> = g.dependencies("imu");
    assert!(deps.contains(&"i2c_mux".to_string()), "deps: {deps:?}");
}

#[test]
fn builder_messages_are_exact() {
    let errors = graph_from(INVALID_CYCLE).expect_err("cyclic");
    assert_eq!(
        errors,
        vec!["Circular dependency detected in initialization order\n  alpha -> beta -> alpha\n\n  These peripherals form a cycle and cannot be initialized in any valid order.\n  Review the `depends_on` fields in your config.".to_string()]
    );
    let errors = graph_from(
        r#"
        [board]
        name = "m"
        mcu = "x"
        clock_mhz = 8
        [[gpio]]
        pin = 7
        mode = "input"
        label = "sense"
        [[i2c]]
        bus = 0
        sda_pin = 1
        scl_pin = 2
        speed_khz = 100
        label = "bus0"
        [[i2c.device]]
        address = 0x10
        label = "thing"
        depends_on = "ghost"
        power_pin = 9
        [[i2c.device]]
        address = 0x11
        label = "other"
        power_pin = 7
    "#,
    )
    .expect_err("should fail");
    assert_eq!(
        errors,
        vec![
            "i2c device 'thing' has power_pin 9, but no GPIO output is declared on that pin. Declare a `[[gpio]]` with mode \"output\" on pin 9.".to_string(),
            "i2c device 'thing' depends_on 'ghost', which is not a declared peripheral label.".to_string(),
            "i2c device 'other' has power_pin 7, but GPIO 'sense' on that pin is not configured as an output. A power pin must be a GPIO output.".to_string(),
        ]
    );
}

#[test]
fn sensor_hub_layers_and_order() {
    let g = graph_from(VALID_DEPENDENCIES).expect("valid");
    assert_eq!(
        g.layers().unwrap(),
        vec![
            vec!["cs_flash", "flash_bus", "imu_power", "sensor_bus"],
            vec!["flash", "i2c_mux"],
            vec!["barometer", "imu"],
        ]
    );
    assert_eq!(
        topo::layers(&g).unwrap(),
        g.layers().unwrap()
    );
    let order = topo::sort(&g).unwrap();
    assert_eq!(order.len(), 8);
    // Every dependency precedes its dependent.
    for label in &order {
        let at = order.iter().position(|l| l == label).unwrap();
        for dep in g.dependencies(label) {
            let dep_at = order.iter().position(|l| *l == dep).unwrap();
            assert!(dep_at < at, "{dep} should precede {label}");
        }
    }
    let depths = topo::depths(&g).unwrap();
    for (label, depth) in &depths {
        assert_eq!(*depth, g.depth_of(label));
    }
    assert_eq!(g.depth_of("imu"), 2);
    assert_eq!(g.node_count(), 8);
    assert_eq!(
        g.sorted_dependencies("imu"),
        vec!["i2c_mux", "imu_power", "sensor_bus"]
    );
}

#[test]
fn edges_are_recorded_once_and_nodes_implicitly() {
    let mut g = DepGraph::new();
    g.add_edge("a", "b");
    g.add_edge("a", "b");
    assert_eq!(g.node_count(), 2);
    assert_eq!(g.dependencies("a"), vec!["b"]);
    assert!(g.dependencies("b").is_empty());
    assert_eq!(g.sorted_node_labels(), vec!["a", "b"]);
    g.add_node("a");
    assert_eq!(g.node_count(), 2);
}

#[test]
fn longer_cycle_path_is_closed() {
    let mut g = DepGraph::new();
    g.add_edge("a", "b");
    g.add_edge("b", "c");
    g.add_edge("c", "a");
    let cycle = g.detect_cycle().expect_err("cycle");
    assert_eq!(cycle.len(), 4);
    assert_eq!(cycle.first(), cycle.last());
    assert!(g.layers().is_err());
    assert!(g.depths().is_err());
    assert!(graph::cycle::detect(&g).is_err());
}

#[test]
fn dot_export_is_exact() {
    let board = board_of(VALID_DEPENDENCIES);
    let g = build(&board).expect("valid");
    let expected = [
        "digraph board_init {",
        "    rankdir=BT;",
        "    barometer [shape=box, label=\"barometer\\n(i2c 0x76)\"];",
        "    cs_flash [shape=box, label=\"cs_flash\\n(gpio pin 5)\"];",
        "    flash [shape=box, label=\"flash\\n(spi cs 5)\"];",
        "    flash_bus [shape=box, label=\"flash_bus\\n(spi bus 0)\"];",
        "    i2c_mux [shape=box, label=\"i2c_mux\\n(i2c 0x70)\"];",
        "    imu [shape=box, label=\"imu\\n(i2c 0x68)\"];",
        "    imu_power [shape=box, label=\"imu_power\\n(gpio pin 12)\"];",
        "    sensor_bus [shape=box, label=\"sensor_bus\\n(i2c bus 0)\"];",
        "    barometer -> i2c_mux;",
        "    barometer -> sensor_bus;",
        "    flash -> cs_flash;",
        "    flash -> flash_bus;",
        "    i2c_mux -> sensor_bus;",
        "    imu -> i2c_mux;",
        "    imu -> imu_power;",
        "    imu -> sensor_bus;",
        "}",
        "",
    ]
    .join("\n");
    assert_eq!(to_dot(&board, &g), expected);
}

#[test]
fn reported_cycle_does_not_depend_on_insertion_order() {
    let mut g1 = DepGraph::new();
    g1.add_edge("c", "a");
    g1.add_edge("a", "b");
    g1.add_edge("b", "c");
    g1.add_node("z");
    let mut g2 = DepGraph::new();
    g2.add_node("z");
    g2.add_edge("b", "c");
    g2.add_edge("a", "b");
    g2.add_edge("c", "a");
    // The search starts at the alphabetically first node.
    assert_eq!(g1.detect_cycle(), Err(vec!["a".to_string(), "b".to_string(), "c".to_string(), "a".to_string()]));
    assert_eq!(g1.detect_cycle(), g2.detect_cycle());
    assert_eq!(g1.topological_sort(), g2.topological_sort());
}

#[test]
fn kahn_order_takes_the_smallest_ready_node() {
    // a depends on m; z stands alone. Ready at first: m and z, so m goes
    // first; then a and z are ready, so a goes before z.
    let mut g = DepGraph::new();
    g.add_node("z");
    g.add_edge("a", "m");
    assert_eq!(g.topological_sort().unwrap(), vec!["m", "a", "z"]);
    assert_eq!(topo::sort(&g).unwrap(), vec!["m", "a", "z"]);
}

#[test]
fn cycle_path_repeats_no_node_before_closing() {
    let mut g = DepGraph::new();
    g.add_edge("x", "a");
    g.add_edge("a", "b");
    g.add_edge("b", "c");
    g.add_edge("c", "d");
    g.add_edge("d", "b");
    let cycle = g.detect_cycle().expect_err("cycle");
    assert_eq!(cycle.first(), cycle.last());
    let open = &cycle[..cycle.len() - 1];
    for i in 0..open.len() {
        for j in (i + 1)..open.len() {
            assert_ne!(open[i], open[j]);
        }
    }
    assert_eq!(cycle, vec!["b", "c", "d", "b"]);
}

#[test]
fn cloned_graph_keeps_nodes_and_edges() {
    let mut g = DepGraph::new();
    g.add_edge("a", "b");
    g.add_node("c");
    let h = g.clone();
    assert_eq!(h.node_labels(), g.node_labels());
    assert_eq!(h.dependencies("a"), vec!["b"]);
    assert_eq!(h.layers().unwrap(), g.layers().unwrap());
}
