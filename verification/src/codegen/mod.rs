//! Code generation: turn a validated [`Board`] into C source files.
//!
//! Each output file has a pure `render_*` function whose result is stated
//! exactly by a specification of the file's text.

pub mod gpio;
pub mod i2c;
pub mod main_gen;
pub mod spi;
pub mod uart;

use vstd::prelude::*;
use crate::model::{Board, Gpio, I2cBus, I2cDevice, SpiBus, SpiDevice, Uart};
use crate::model::board::gpio_mode_text;
use crate::text::{cat, lemma_push_contains, blocks, dec, hex_byte, opt_str, owned, push_blocks, push_dec, push_hex_byte, push_str, str_eq};
use crate::graph::sort::views;
use crate::graph::DepGraph;
use crate::graph::topo::{is_depth, is_layering, layer_views, lemma_layer_order};
use crate::graph::builder::{board_edges, board_labels, i2c_bus_labels, spi_bus_labels, registered, lemma_registered_contains};
use gpio::{gpio_decl_section, gpio_handler, gpio_handler_decl_section, gpio_handlers, gpio_impl, gpio_init_name};
use i2c::{i2c_decl_section, i2c_fns, i2c_speeds_fit};
use spi::{spi_decl_section, spi_fns, spi_speeds_fit};
use uart::{uart_decl_section, uart_fns, uart_handler, uart_handler_decl_section};

verus! {

/// The sections that are present, in order.
pub open spec fn present(sections: Seq<Option<Seq<char>>>) -> Seq<Seq<char>>
    decreases sections.len(),
{
    if sections.len() == 0 {
        Seq::empty()
    } else {
        match sections.last() {
            Some(x) => present(sections.drop_last()).push(x),
            None => present(sections.drop_last()),
        }
    }
}

/// The text of `init.h`.
pub open spec fn init_header_text(board: Board) -> Seq<char> {
    "#ifndef FORGE_INIT_H\n#define FORGE_INIT_H\n\n#include <stdint.h>\n"@ + blocks(
        present(
            seq![
                gpio_decl_section(board.gpios@),
                i2c_decl_section(board.i2c_buses@),
                spi_decl_section(board.spi_buses@),
                uart_decl_section(board.uarts@),
            ],
        ),
    ) + "\n/* Master init */\nvoid board_init(void);\n\n#endif /* FORGE_INIT_H */\n"@
}

/// How one peripheral is initialized inside `board_init`.
pub struct InitCall {
    /// The peripheral's label.
    pub label: Seq<char>,
    /// The init call, e.g. `i2c_imu_init();`.
    pub call: Seq<char>,
    /// A trailing comment describing the node (no surrounding `/* */`).
    pub annot: Seq<char>,
    /// A GPIO to drive HIGH before the init call (power gating).
    pub power_pin: Option<u32>,
}

/// `, depends_on "<label>"` for a device with an explicit dependency.
pub open spec fn depends_note(dep: Option<String>) -> Seq<char> {
    match dep {
        Some(d) => ", depends_on \""@ + d@ + "\""@,
        None => Seq::empty(),
    }
}

/// The init calls of the GPIO pins.
pub open spec fn gpio_calls(gs: Seq<Gpio>) -> Seq<InitCall> {
    gs.map_values(
        |g: Gpio|
            InitCall {
                label: g.label@,
                call: gpio_init_name(g) + "();"@,
                annot: "pin "@ + dec(g.pin as nat) + ", "@ + gpio_mode_text(g.mode),
                power_pin: None,
            },
    )
}

/// The init call of an I2C device.
pub open spec fn i2c_device_call(d: I2cDevice) -> InitCall {
    InitCall {
        label: d.label@,
        call: "i2c_"@ + d.label@ + "_init();"@,
        annot: "i2c "@ + hex_byte(d.address as nat) + depends_note(d.depends_on),
        power_pin: d.power_pin,
    }
}

/// The init calls of the I2C buses, each followed by its devices'.
pub open spec fn i2c_calls(bs: Seq<I2cBus>) -> Seq<InitCall>
    decreases bs.len(),
{
    if bs.len() == 0 {
        Seq::empty()
    } else {
        let b = bs.last();
        i2c_calls(bs.drop_last()).push(
            InitCall {
                label: b.label@,
                call: "i2c_"@ + b.label@ + "_init();"@,
                annot: "i2c bus "@ + dec(b.bus as nat),
                power_pin: None,
            },
        ) + b.devices@.map_values(|d: I2cDevice| i2c_device_call(d))
    }
}

/// The init call of an SPI device.
pub open spec fn spi_device_call(d: SpiDevice) -> InitCall {
    InitCall {
        label: d.label@,
        call: "spi_"@ + d.label@ + "_init();"@,
        annot: "spi cs "@ + dec(d.cs_pin as nat) + depends_note(d.depends_on),
        power_pin: d.power_pin,
    }
}

/// The init calls of the SPI buses, each followed by its devices'.
pub open spec fn spi_calls(bs: Seq<SpiBus>) -> Seq<InitCall>
    decreases bs.len(),
{
    if bs.len() == 0 {
        Seq::empty()
    } else {
        let b = bs.last();
        spi_calls(bs.drop_last()).push(
            InitCall {
                label: b.label@,
                call: "spi_"@ + b.label@ + "_init();"@,
                annot: "spi bus "@ + dec(b.bus as nat),
                power_pin: None,
            },
        ) + b.devices@.map_values(|d: SpiDevice| spi_device_call(d))
    }
}

/// The init calls of the UARTs.
pub open spec fn uart_calls(us: Seq<Uart>) -> Seq<InitCall> {
    us.map_values(
        |u: Uart|
            InitCall {
                label: u.label@,
                call: "uart_"@ + u.label@ + "_init();"@,
                annot: "uart "@ + dec(u.index as nat),
                power_pin: None,
            },
    )
}

/// Every peripheral's init call, in declaration order.
pub open spec fn init_calls(board: Board) -> Seq<InitCall> {
    gpio_calls(board.gpios@) + i2c_calls(board.i2c_buses@) + spi_calls(board.spi_buses@) + uart_calls(
        board.uarts@,
    )
}

/// The last init call registered for `label` (a later peripheral with the
/// same label replaces an earlier one).
pub open spec fn call_for(calls: Seq<InitCall>, label: Seq<char>) -> Option<InitCall>
    decreases calls.len(),
{
    if calls.len() == 0 {
        None
    } else if calls.last().label == label {
        Some(calls.last())
    } else {
        call_for(calls.drop_last(), label)
    }
}

/// The lines `board_init` emits for one label: nothing for a label without
/// a peripheral, else an optional power-on line and the annotated call.
pub open spec fn call_lines(board: Board, label: Seq<char>) -> Seq<char> {
    match call_for(init_calls(board), label) {
        None => Seq::empty(),
        Some(c) => (match c.power_pin {
            Some(pin) => "    GPIO_WRITE("@ + dec(pin as nat) + ", HIGH);  /* Power on "@ + label + " before init */\n"@,
            None => Seq::empty(),
        }) + (if c.annot.len() == 0 {
            "    "@ + c.call + "\n"@
        } else {
            "    "@ + c.call + "  /* "@ + c.annot + " */\n"@
        }),
    }
}

/// The lines of a layer's labels, in order.
pub open spec fn layer_lines(board: Board, labels: Seq<Seq<char>>) -> Seq<char>
    decreases labels.len(),
{
    if labels.len() == 0 {
        Seq::empty()
    } else {
        layer_lines(board, labels.drop_last()) + call_lines(board, labels.last())
    }
}

/// The heading comment of layer `i`.
pub open spec fn layer_heading(i: nat) -> Seq<char> {
    if i == 0 {
        "    /* Layer 0: no dependencies */\n"@
    } else {
        "    /* Layer "@ + dec(i) + ": depends on Layer "@ + dec((i - 1) as nat) + " */\n"@
    }
}

/// The layers of `board_init`, each after a blank line.
pub open spec fn layers_text(board: Board, layers: Seq<Seq<Seq<char>>>) -> Seq<char>
    decreases layers.len(),
{
    if layers.len() == 0 {
        Seq::empty()
    } else {
        layers_text(board, layers.drop_last()) + "\n"@ + layer_heading((layers.len() - 1) as nat) + layer_lines(
            board,
            layers.last(),
        )
    }
}

/// The `board_init` function.
pub open spec fn board_init_text(board: Board, layers: Seq<Seq<Seq<char>>>) -> Seq<char> {
    "void board_init(void) {\n    /* === Initialization order resolved by dependency analysis === */\n"@
        + layers_text(board, layers) + "}"@
}

/// The functions of `init.c`, in order.
pub open spec fn init_fns(board: Board, layers: Seq<Seq<Seq<char>>>) -> Seq<Seq<char>> {
    board.gpios@.map_values(|g: Gpio| gpio_impl(g)) + i2c_fns(board.i2c_buses@) + spi_fns(board.spi_buses@)
        + uart_fns(board.uarts@) + seq![board_init_text(board, layers)]
}

/// The text of `init.c`.
pub open spec fn init_source_text(board: Board, layers: Seq<Seq<Seq<char>>>) -> Seq<char> {
    "#include \"init.h\"\n#include \"handlers.h\"\n"@ + blocks(init_fns(board, layers))
}

/// The text of `handlers.h`.
pub open spec fn handlers_header_text(board: Board) -> Seq<char> {
    "#ifndef FORGE_HANDLERS_H\n#define FORGE_HANDLERS_H\n"@ + blocks(
        present(seq![gpio_handler_decl_section(board.gpios@), uart_handler_decl_section(board.uarts@)]),
    ) + "\n#endif /* FORGE_HANDLERS_H */\n"@
}

/// The text of `handlers.c`.
pub open spec fn handlers_source_text(board: Board) -> Seq<char> {
    "#include \"handlers.h\"\n"@ + blocks(
        gpio_handlers(board.gpios@) + board.uarts@.map_values(|u: Uart| uart_handler(u)),
    )
}

/// Every computed clock of the board fits a `u32`.
pub open spec fn clocks_fit(board: Board) -> bool {
    i2c_speeds_fit(board.i2c_buses@) && spi_speeds_fit(board.spi_buses@)
}

/// Whether every bus and chip-select clock of the board, in Hz, fits the
/// 32-bit values the generated code is written with.
pub fn clocks_fit_check(board: &Board) -> (r: bool)
    ensures
        r == clocks_fit(*board),
{
    let mut i: usize = 0;
    while i < board.i2c_buses.len()
        invariant
            i <= board.i2c_buses@.len(),
            forall|k: int| 0 <= k < i ==> (#[trigger] board.i2c_buses@[k]).speed_khz * 1000 <= u32::MAX,
        decreases board.i2c_buses@.len() - i,
    {
        if board.i2c_buses[i].speed_khz > 4_294_967 {
            assert(board.i2c_buses@[i as int].speed_khz * 1000 > u32::MAX);
            return false;
        }
        i += 1;
    }
    let mut b: usize = 0;
    while b < board.spi_buses.len()
        invariant
            b <= board.spi_buses@.len(),
            i2c_speeds_fit(board.i2c_buses@),
            forall|x: int, y: int|
                0 <= x < b && 0 <= y < board.spi_buses@[x].devices@.len() ==> (#[trigger] board.spi_buses@[x].devices@[y]).speed_mhz
                    * 1_000_000 <= u32::MAX,
        decreases board.spi_buses@.len() - b,
    {
        let devices = &board.spi_buses[b].devices;
        let mut j: usize = 0;
        while j < devices.len()
            invariant
                b < board.spi_buses@.len(),
                devices@ == board.spi_buses@[b as int].devices@,
                j <= devices@.len(),
                forall|y: int| 0 <= y < j ==> (#[trigger] devices@[y]).speed_mhz * 1_000_000 <= u32::MAX,
            decreases devices@.len() - j,
        {
            if devices[j].speed_mhz > 4_294 {
                assert(board.spi_buses@[b as int].devices@[j as int].speed_mhz * 1_000_000 > u32::MAX);
                return false;
            }
            j += 1;
        }
        b += 1;
    }
    true
}

/// Add a present section to a list of sections.
fn push_section(v: &mut Vec<String>, section: Option<String>)
    ensures
        final(v)@.map_values(|s: String| s@) == match opt_str(section) {
            Some(x) => old(v)@.map_values(|s: String| s@).push(x),
            None => old(v)@.map_values(|s: String| s@),
        },
{
    match section {
        Some(x) => {
            let ghost before = v@;
            v.push(x);
            assert(v@.map_values(|s: String| s@) =~= before.map_values(|s: String| s@).push(x@));
        },
        None => {},
    }
}

/// Render `init.h`: function declarations for every peripheral plus the
/// master `board_init`.
pub fn render_init_header(board: &Board) -> (r: String)
    ensures
        r@ == init_header_text(*board),
{
    let mut s = owned("#ifndef FORGE_INIT_H\n#define FORGE_INIT_H\n\n#include <stdint.h>\n");
    let mut sections: Vec<String> = Vec::new();
    let g = gpio::decl_section(board.gpios.as_slice());
    let i = i2c::decl_section(board.i2c_buses.as_slice());
    let p = spi::decl_section(board.spi_buses.as_slice());
    let u = uart::decl_section(board.uarts.as_slice());
    let ghost opts = seq![opt_str(g), opt_str(i), opt_str(p), opt_str(u)];
    push_section(&mut sections, g);
    push_section(&mut sections, i);
    push_section(&mut sections, p);
    push_section(&mut sections, u);
    assert(opts.drop_last().drop_last().drop_last().drop_last() =~= Seq::<Option<Seq<char>>>::empty());
    assert(opts.drop_last().drop_last().drop_last() =~= seq![opt_str(g)]);
    assert(opts.drop_last().drop_last() =~= seq![opt_str(g), opt_str(i)]);
    assert(opts.drop_last() =~= seq![opt_str(g), opt_str(i), opt_str(p)]);
    assert(sections@.map_values(|x: String| x@) =~= present(opts)) by {
        reveal_with_fuel(present, 5);
    }
    push_blocks(&mut s, &sections);
    push_str(&mut s, "\n/* Master init */\nvoid board_init(void);\n\n#endif /* FORGE_INIT_H */\n");
    s
}

/// How a single peripheral node is rendered inside `board_init`.
struct NodeRender {
    label: String,
    call: String,
    annot: String,
    power_pin: Option<u32>,
}

impl View for NodeRender {
    type V = InitCall;

    closed spec fn view(&self) -> InitCall {
        InitCall { label: self.label@, call: self.call@, annot: self.annot@, power_pin: self.power_pin }
    }
}

/// The init calls of a list of renders.
spec fn render_views(v: Seq<NodeRender>) -> Seq<InitCall> {
    v.map_values(|n: NodeRender| n@)
}

/// Append one render.
fn push_render(v: &mut Vec<NodeRender>, label: String, call: String, annot: String, power_pin: Option<u32>)
    ensures
        render_views(final(v)@) == render_views(old(v)@).push(
            InitCall { label: label@, call: call@, annot: annot@, power_pin },
        ),
{
    let ghost before = v@;
    let n = NodeRender { label, call, annot, power_pin };
    v.push(n);
    assert(render_views(v@) =~= render_views(before).push(n@));
}

/// `<prefix><label><suffix>`.
fn wrap(prefix: &str, label: &str, suffix: &str) -> (r: String)
    ensures
        r@ == prefix@ + label@ + suffix@,
{
    let mut s = owned(prefix);
    push_str(&mut s, label);
    push_str(&mut s, suffix);
    s
}

/// `<prefix><n>`.
fn numbered(prefix: &str, n: u32) -> (r: String)
    ensures
        r@ == prefix@ + dec(n as nat),
{
    let mut s = owned(prefix);
    push_dec(&mut s, n as u64);
    s
}

/// Append `, depends_on "<label>"` for a device with an explicit dependency.
fn push_depends(s: &mut String, dep: &Option<String>)
    ensures
        final(s)@ == old(s)@ + depends_note(*dep),
{
    match dep {
        Some(d) => {
            push_str(s, ", depends_on \"");
            push_str(s, d.as_str());
            push_str(s, "\"");
        },
        None => {},
    }
    assert(final(s)@ =~= old(s)@ + depends_note(*dep));
}

/// Build the render info for every peripheral on the board.
fn node_renders(board: &Board) -> (r: Vec<NodeRender>)
    ensures
        render_views(r@) == init_calls(*board),
{
    let mut v: Vec<NodeRender> = Vec::new();
    for i in 0..board.gpios.len()
        invariant
            render_views(v@) == gpio_calls(board.gpios@.take(i as int)),
    {
        let g = &board.gpios[i];
        let mut call = gpio::init_name(g);
        push_str(&mut call, "();");
        let mut annot = numbered("pin ", g.pin);
        push_str(&mut annot, ", ");
        push_str(&mut annot, g.mode.describe());
        push_render(&mut v, g.label.clone(), call, annot, None);
        assert(gpio_calls(board.gpios@.take(i + 1)) =~= gpio_calls(board.gpios@.take(i as int)).push(
            gpio_calls(board.gpios@)[i as int],
        ));
    }
    assert(board.gpios@.take(board.gpios@.len() as int) =~= board.gpios@);
    let ghost base = render_views(v@);
    for i in 0..board.i2c_buses.len()
        invariant
            render_views(v@) == base + i2c_calls(board.i2c_buses@.take(i as int)),
    {
        assert(board.i2c_buses@.take(i + 1).drop_last() =~= board.i2c_buses@.take(i as int));
        let b = &board.i2c_buses[i];
        push_render(
            &mut v,
            b.label.clone(),
            wrap("i2c_", b.label.as_str(), "_init();"),
            numbered("i2c bus ", b.bus),
            None,
        );
        let ghost mid = render_views(v@);
        for j in 0..b.devices.len()
            invariant
                render_views(v@) == mid + b.devices@.take(j as int).map_values(|d: I2cDevice| i2c_device_call(d)),
        {
            let d = &b.devices[j];
            let mut annot = owned("i2c ");
            push_hex_byte(&mut annot, d.address as u64);
            push_depends(&mut annot, &d.depends_on);
            push_render(&mut v, d.label.clone(), wrap("i2c_", d.label.as_str(), "_init();"), annot, d.power_pin);
            assert(b.devices@.take(j + 1).map_values(|d: I2cDevice| i2c_device_call(d)) =~= b.devices@.take(
                j as int,
            ).map_values(|d: I2cDevice| i2c_device_call(d)).push(i2c_device_call(b.devices@[j as int])));
        }
        assert(b.devices@.take(b.devices@.len() as int) =~= b.devices@);
        assert(render_views(v@) =~= base + i2c_calls(board.i2c_buses@.take(i + 1)));
    }
    assert(board.i2c_buses@.take(board.i2c_buses@.len() as int) =~= board.i2c_buses@);
    let ghost base2 = render_views(v@);
    for i in 0..board.spi_buses.len()
        invariant
            render_views(v@) == base2 + spi_calls(board.spi_buses@.take(i as int)),
    {
        assert(board.spi_buses@.take(i + 1).drop_last() =~= board.spi_buses@.take(i as int));
        let b = &board.spi_buses[i];
        push_render(
            &mut v,
            b.label.clone(),
            wrap("spi_", b.label.as_str(), "_init();"),
            numbered("spi bus ", b.bus),
            None,
        );
        let ghost mid = render_views(v@);
        for j in 0..b.devices.len()
            invariant
                render_views(v@) == mid + b.devices@.take(j as int).map_values(|d: SpiDevice| spi_device_call(d)),
        {
            let d = &b.devices[j];
            let mut annot = numbered("spi cs ", d.cs_pin);
            push_depends(&mut annot, &d.depends_on);
            push_render(&mut v, d.label.clone(), wrap("spi_", d.label.as_str(), "_init();"), annot, d.power_pin);
            assert(b.devices@.take(j + 1).map_values(|d: SpiDevice| spi_device_call(d)) =~= b.devices@.take(
                j as int,
            ).map_values(|d: SpiDevice| spi_device_call(d)).push(spi_device_call(b.devices@[j as int])));
        }
        assert(b.devices@.take(b.devices@.len() as int) =~= b.devices@);
        assert(render_views(v@) =~= base2 + spi_calls(board.spi_buses@.take(i + 1)));
    }
    assert(board.spi_buses@.take(board.spi_buses@.len() as int) =~= board.spi_buses@);
    let ghost base3 = render_views(v@);
    for i in 0..board.uarts.len()
        invariant
            render_views(v@) == base3 + uart_calls(board.uarts@.take(i as int)),
    {
        let u = &board.uarts[i];
        push_render(
            &mut v,
            u.label.clone(),
            wrap("uart_", u.label.as_str(), "_init();"),
            numbered("uart ", u.index),
            None,
        );
        assert(uart_calls(board.uarts@.take(i + 1)) =~= uart_calls(board.uarts@.take(i as int)).push(
            uart_calls(board.uarts@)[i as int],
        ));
    }
    assert(board.uarts@.take(board.uarts@.len() as int) =~= board.uarts@);
    v
}

/// The last render registered for `label`.
fn find_render<'a>(v: &'a Vec<NodeRender>, label: &str) -> (r: Option<&'a NodeRender>)
    ensures
        match r {
            Some(n) => call_for(render_views(v@), label@) == Some(n@),
            None => call_for(render_views(v@), label@) is None,
        },
{
    let mut i = v.len();
    assert(v@.take(v@.len() as int) =~= v@);
    while i > 0
        invariant
            i <= v@.len(),
            call_for(render_views(v@), label@) == call_for(render_views(v@.take(i as int)), label@),
        decreases i,
    {
        assert(render_views(v@.take(i as int)).drop_last() =~= render_views(v@.take(i - 1)));
        if str_eq(v[i - 1].label.as_str(), label) {
            return Some(&v[i - 1]);
        }
        i -= 1;
    }
    assert(render_views(v@.take(0)) =~= Seq::<InitCall>::empty());
    None
}

/// Append the lines `board_init` emits for one label.
fn push_call_lines(s: &mut String, nodes: &Vec<NodeRender>, board: &Board, label: &str)
    requires
        render_views(nodes@) == init_calls(*board),
    ensures
        final(s)@ == old(s)@ + call_lines(*board, label@),
{
    match find_render(nodes, label) {
        None => {},
        Some(node) => {
            match node.power_pin {
                Some(pin) => {
                    push_str(s, "    GPIO_WRITE(");
                    push_dec(s, pin as u64);
                    push_str(s, ", HIGH);  /* Power on ");
                    push_str(s, label);
                    push_str(s, " before init */\n");
                },
                None => {},
            }
            push_str(s, "    ");
            push_str(s, node.call.as_str());
            if node.annot.as_str().is_empty() {
                push_str(s, "\n");
            } else {
                push_str(s, "  /* ");
                push_str(s, node.annot.as_str());
                push_str(s, " */\n");
            }
        },
    }
    assert(final(s)@ =~= old(s)@ + call_lines(*board, label@));
}

/// Append one layer: its heading and the lines of its labels.
fn push_layer(s: &mut String, nodes: &Vec<NodeRender>, board: &Board, i: usize, layer: &Vec<String>)
    requires
        render_views(nodes@) == init_calls(*board),
    ensures
        final(s)@ == old(s)@ + "\n"@ + layer_heading(i as nat) + layer_lines(*board, views(layer@)),
{
    push_str(s, "\n");
    if i == 0 {
        push_str(s, "    /* Layer 0: no dependencies */\n");
    } else {
        push_str(s, "    /* Layer ");
        push_dec(s, i as u64);
        push_str(s, ": depends on Layer ");
        push_dec(s, (i - 1) as u64);
        push_str(s, " */\n");
    }
    let ghost mid = s@;
    assert(mid =~= old(s)@ + "\n"@ + layer_heading(i as nat));
    for j in 0..layer.len()
        invariant
            render_views(nodes@) == init_calls(*board),
            s@ == mid + layer_lines(*board, views(layer@).take(j as int)),
    {
        assert(views(layer@).take(j + 1).drop_last() =~= views(layer@).take(j as int));
        push_call_lines(s, nodes, board, layer[j].as_str());
        assert(s@ =~= mid + layer_lines(*board, views(layer@).take(j + 1)));
    }
    assert(views(layer@).take(layer@.len() as int) =~= views(layer@));
}

/// The `board_init` function: calls every initializer in dependency-resolved
/// order, grouped into layers with explanatory comments.
fn board_init_fn(board: &Board, layers: &[Vec<String>]) -> (r: String)
    ensures
        r@ == board_init_text(*board, layer_views(layers@)),
{
    let nodes = node_renders(board);
    let mut s = owned("void board_init(void) {\n    /* === Initialization order resolved by dependency analysis === */\n");
    let ghost head = s@;
    let ghost ls = layer_views(layers@);
    for i in 0..layers.len()
        invariant
            ls == layer_views(layers@),
            render_views(nodes@) == init_calls(*board),
            s@ == head + layers_text(*board, ls.take(i as int)),
    {
        assert(ls.take(i + 1).drop_last() =~= ls.take(i as int));
        push_layer(&mut s, &nodes, board, i, &layers[i]);
        assert(ls[i as int] == views(layers@[i as int]@));
        assert(s@ =~= head + layers_text(*board, ls.take(i + 1)));
    }
    assert(ls.take(layers@.len() as int) =~= ls);
    push_str(&mut s, "}");
    s
}

/// Render `init.c`: implementations for every peripheral plus `board_init`.
///
/// `layers` is the dependency-resolved initialization order (from
/// [`crate::graph::DepGraph::layers`]); each inner vector is one layer.
pub fn render_init_source(board: &Board, layers: &[Vec<String>]) -> (r: String)
    requires
        clocks_fit(*board),
    ensures
        r@ == init_source_text(*board, layer_views(layers@)),
{
    let mut s = owned("#include \"init.h\"\n#include \"handlers.h\"\n");
    let mut fns = gpio::impl_fns(board.gpios.as_slice());
    assert(fns@.map_values(|f: String| f@) =~= board.gpios@.map_values(|g: Gpio| gpio_impl(g)));
    let mut i2c_part = i2c::impl_fns(board.i2c_buses.as_slice());
    fns.append(&mut i2c_part);
    let mut spi_part = spi::impl_fns(board.spi_buses.as_slice());
    fns.append(&mut spi_part);
    let mut uart_part = uart::impl_fns(board.uarts.as_slice());
    fns.append(&mut uart_part);
    fns.push(board_init_fn(board, layers));
    assert(fns@.map_values(|f: String| f@) =~= init_fns(*board, layer_views(layers@)));
    push_blocks(&mut s, &fns);
    s
}

/// Render `handlers.h`: declarations for GPIO and UART interrupt handlers.
pub fn render_handlers_header(board: &Board) -> (r: String)
    ensures
        r@ == handlers_header_text(*board),
{
    let mut s = owned("#ifndef FORGE_HANDLERS_H\n#define FORGE_HANDLERS_H\n");
    let mut sections: Vec<String> = Vec::new();
    let g = gpio::handler_decl_section(board.gpios.as_slice());
    let u = uart::handler_decl_section(board.uarts.as_slice());
    let ghost opts = seq![opt_str(g), opt_str(u)];
    push_section(&mut sections, g);
    push_section(&mut sections, u);
    assert(opts.drop_last().drop_last() =~= Seq::<Option<Seq<char>>>::empty());
    assert(opts.drop_last() =~= seq![opt_str(g)]);
    assert(sections@.map_values(|x: String| x@) =~= present(opts)) by {
        reveal_with_fuel(present, 5);
    }
    push_blocks(&mut s, &sections);
    push_str(&mut s, "\n#endif /* FORGE_HANDLERS_H */\n");
    s
}

/// Render `handlers.c`: TODO-stub implementations for every interrupt
/// handler.
pub fn render_handlers_source(board: &Board) -> (r: String)
    ensures
        r@ == handlers_source_text(*board),
{
    let mut s = owned("#include \"handlers.h\"\n");
    let mut fns = gpio::handler_impl_fns(board.gpios.as_slice());
    let mut uart_part = uart::handler_impl_fns(board.uarts.as_slice());
    let ghost a = fns@;
    let ghost b = uart_part@;
    assert(b.map_values(|f: String| f@) =~= board.uarts@.map_values(|u: Uart| uart_handler(u)));
    fns.append(&mut uart_part);
    assert(fns@.map_values(|f: String| f@) =~= a.map_values(|f: String| f@) + b.map_values(|f: String| f@));
    push_blocks(&mut s, &fns);
    s
}

/// Render `main.c`: the main-loop skeleton.
pub fn render_main(board: &Board) -> (r: String)
    ensures
        r@ == main_gen::main_text(),
{
    main_gen::render(board)
}

/// The labels of a list of init calls.
pub open spec fn call_labels(calls: Seq<InitCall>) -> Seq<Seq<char>> {
    calls.map_values(|c: InitCall| c.label)
}

/// There is a call for `x` exactly when one of the calls is labelled `x`.
proof fn lemma_call_for_some(calls: Seq<InitCall>, x: Seq<char>)
    ensures
        (call_for(calls, x) is Some) == call_labels(calls).contains(x),
    decreases calls.len(),
{
    if calls.len() > 0 {
        let ls = call_labels(calls);
        lemma_call_for_some(calls.drop_last(), x);
        assert(call_labels(calls.drop_last()) =~= ls.drop_last());
        assert(ls.drop_last().push(ls.last()) =~= ls);
        lemma_push_contains(ls.drop_last(), ls.last(), x);
    }
}

proof fn lemma_i2c_call_labels(bs: Seq<I2cBus>)
    ensures
        call_labels(i2c_calls(bs)) == cat(bs.map_values(|b: I2cBus| i2c_bus_labels(b))),
    decreases bs.len(),
{
    if bs.len() > 0 {
        let b = bs.last();
        lemma_i2c_call_labels(bs.drop_last());
        assert(bs.map_values(|b: I2cBus| i2c_bus_labels(b)).drop_last() =~= bs.drop_last().map_values(
            |b: I2cBus| i2c_bus_labels(b),
        ));
        assert(call_labels(b.devices@.map_values(|d: I2cDevice| i2c_device_call(d))) =~= b.devices@.map_values(
            |d: I2cDevice| d.label@,
        ));
        let head = i2c_calls(bs.drop_last());
        let bus = InitCall {
            label: b.label@,
            call: "i2c_"@ + b.label@ + "_init();"@,
            annot: "i2c bus "@ + dec(b.bus as nat),
            power_pin: None,
        };
        let devs = b.devices@.map_values(|d: I2cDevice| i2c_device_call(d));
        assert(call_labels(head.push(bus) + devs) =~= call_labels(head) + seq![b.label@] + call_labels(devs));
    }
}

proof fn lemma_spi_call_labels(bs: Seq<SpiBus>)
    ensures
        call_labels(spi_calls(bs)) == cat(bs.map_values(|b: SpiBus| spi_bus_labels(b))),
    decreases bs.len(),
{
    if bs.len() > 0 {
        let b = bs.last();
        lemma_spi_call_labels(bs.drop_last());
        assert(bs.map_values(|b: SpiBus| spi_bus_labels(b)).drop_last() =~= bs.drop_last().map_values(
            |b: SpiBus| spi_bus_labels(b),
        ));
        assert(call_labels(b.devices@.map_values(|d: SpiDevice| spi_device_call(d))) =~= b.devices@.map_values(
            |d: SpiDevice| d.label@,
        ));
        let head = spi_calls(bs.drop_last());
        let bus = InitCall {
            label: b.label@,
            call: "spi_"@ + b.label@ + "_init();"@,
            annot: "spi bus "@ + dec(b.bus as nat),
            power_pin: None,
        };
        let devs = b.devices@.map_values(|d: SpiDevice| spi_device_call(d));
        assert(call_labels(head.push(bus) + devs) =~= call_labels(head) + seq![b.label@] + call_labels(devs));
    }
}

/// The init calls are labelled by the board's labels, in the same order.
proof fn lemma_init_call_labels(board: Board)
    ensures
        call_labels(init_calls(board)) == board_labels(&board),
{
    lemma_i2c_call_labels(board.i2c_buses@);
    lemma_spi_call_labels(board.spi_buses@);
    let g = gpio_calls(board.gpios@);
    let i = i2c_calls(board.i2c_buses@);
    let s = spi_calls(board.spi_buses@);
    let u = uart_calls(board.uarts@);
    assert(call_labels(g) =~= board.gpios@.map_values(|x: Gpio| x.label@));
    assert(call_labels(u) =~= board.uarts@.map_values(|x: Uart| x.label@));
    assert(call_labels(g + i + s + u) =~= call_labels(g) + call_labels(i) + call_labels(s) + call_labels(u));
}

/// `board_init` calls each peripheral's init once, in dependency order.
/// It emits the call lines of the layers' labels one layer after another;
/// laid end to end, the layers of the board's dependency graph name every
/// peripheral of the board exactly once, each has an init call, and none
/// comes before a peripheral it depends on.
pub proof fn lemma_board_init_order(board: Board, g: &DepGraph, d: Seq<int>, ls: Seq<Seq<Seq<char>>>)
    requires
        g.wf(),
        g.node_seq() == registered(board_labels(&board)),
        forall|a: Seq<char>, b: Seq<char>| g.has_edge(a, b) == board_edges(&board).contains((a, b)),
        is_depth(g, d),
        is_layering(g, d, ls),
    ensures
        cat(ls).no_duplicates(),
        forall|x: Seq<char>| cat(ls).contains(x) == board_labels(&board).contains(x),
        forall|x: Seq<char>| #[trigger] cat(ls).contains(x) ==> call_for(init_calls(board), x) is Some,
        forall|a: int, b: int|
            0 <= a < b < cat(ls).len() ==> !board_edges(&board).contains((#[trigger] cat(ls)[a], #[trigger] cat(ls)[b])),
{
    lemma_layer_order(g, d, ls);
    lemma_init_call_labels(board);
    assert forall|x: Seq<char>| cat(ls).contains(x) == board_labels(&board).contains(x) by {
        lemma_registered_contains(board_labels(&board), x);
        assert(cat(ls).contains(x) == g.has_node(x));
        assert(g.has_node(x) == registered(board_labels(&board)).contains(x));
    }
    assert forall|x: Seq<char>| #[trigger] cat(ls).contains(x) implies call_for(init_calls(board), x) is Some by {
        lemma_registered_contains(board_labels(&board), x);
        lemma_call_for_some(init_calls(board), x);
    }
    assert forall|a: int, b: int| 0 <= a < b < cat(ls).len() implies !board_edges(&board).contains(
        (#[trigger] cat(ls)[a], #[trigger] cat(ls)[b]),
    ) by {
        assert(!g.has_edge(cat(ls)[a], cat(ls)[b]));
    }
}

} // verus!
